//! The 4-byte chunk type tag and its bit-encoded semantics.
//!
//! Each of the four bytes must be ASCII alphabetic for a tag built from
//! text; the case of each byte encodes one flag of the container format
//! (criticality, visibility, reserved bit, safe-to-copy).  A tag is a
//! plain value: immutable once built and compared byte for byte.

use vstd::prelude::*;
use vstd::string::*;
use vstd::utf8::decode_utf8;
use vstd::utf8::encode_utf8;
use vstd::utf8::is_ascii_chars;
use vstd::utf8::encode_utf8_decode_utf8;
use vstd::utf8::encode_utf8_valid_utf8;
use vstd::utf8::is_ascii_chars_encode_utf8;

use crate::text::bytes_to_string;

verus! {

/// Why a tag could not be built from, or rendered as, text.
#[derive(Debug, Clone, Copy, PartialEq, Eq, Structural)]
pub enum ValidationError {
    /// Some byte is not an ASCII letter.
    NotAlphabetic,
    /// The text is not exactly 4 bytes long.
    WrongLength,
}

/// True for the ASCII codes of `A`..=`Z`.
pub open spec fn spec_is_uppercase(b: u8) -> bool {
    65 <= b <= 90
}

/// True for the ASCII codes of `a`..=`z`.
pub open spec fn spec_is_lowercase(b: u8) -> bool {
    97 <= b <= 122
}

/// True for the ASCII codes of letters.
pub open spec fn spec_is_alphabetic(b: u8) -> bool {
    spec_is_uppercase(b) || spec_is_lowercase(b)
}

/// Every byte of the sequence is an ASCII letter.
pub open spec fn all_alphabetic(bs: Seq<u8>) -> bool {
    forall|i: int| 0 <= i < bs.len() ==> spec_is_alphabetic(#[trigger] bs[i])
}

/// A structurally valid tag body: exactly 4 bytes, all ASCII letters.
pub open spec fn tag_alphabetic(t: Seq<u8>) -> bool {
    t.len() == 4 && all_alphabetic(t)
}

/// The characters denoted by a sequence of ASCII bytes, one per byte.
pub open spec fn tag_chars(t: Seq<u8>) -> Seq<char> {
    Seq::new(t.len(), |i: int| t[i] as char)
}

/// An ASCII-alphabetic character.
pub open spec fn alphabetic_char(c: char) -> bool {
    ('A' <= c && c <= 'Z') || ('a' <= c && c <= 'z')
}

/// A 4-byte chunk type identifier.  Byte 0's case encodes criticality,
/// byte 1's visibility, byte 2's the reserved bit, byte 3's the
/// safe-to-copy flag.
#[derive(Debug, Clone, Copy, PartialEq, Eq, Structural)]
pub struct ChunkType {
    critical: u8,
    public: u8,
    reserved: u8,
    safe_to_copy: u8,
}

impl View for ChunkType {
    type V = Seq<u8>;

    closed spec fn view(&self) -> Seq<u8> {
        seq![self.critical, self.public, self.reserved, self.safe_to_copy]
    }
}

/// A tag's view always holds exactly its 4 bytes.
pub broadcast proof fn lemma_tag_len(t: ChunkType)
    ensures
        (#[trigger] t@).len() == 4,
{
}

/// Two tags are equal exactly when their 4 bytes are equal.
pub proof fn lemma_tag_eq_iff_view_eq(a: ChunkType, b: ChunkType)
    ensures
        (a == b) <==> (a@ == b@),
{
    if a@ == b@ {
        assert(a.critical == a@[0] && a.public == a@[1] && a.reserved == a@[2]
            && a.safe_to_copy == a@[3]);
        assert(b.critical == b@[0] && b.public == b@[1] && b.reserved == b@[2]
            && b.safe_to_copy == b@[3]);
        assert(a == b);
    }
}

/// Checks whether a byte is an ASCII letter.
pub fn byte_is_alphabetic(b: u8) -> (r: bool)
    ensures
        r == spec_is_alphabetic(b),
{
    (65 <= b && b <= 90) || (97 <= b && b <= 122)
}

fn byte_is_uppercase(b: u8) -> (r: bool)
    ensures
        r == spec_is_uppercase(b),
{
    65 <= b && b <= 90
}

impl ChunkType {
    /// Rebuilds a tag from 4 raw bytes.  This path is permissive: any
    /// bytes already present in a parsed binary stream are preserved
    /// verbatim, so it always succeeds.
    pub fn try_from(arr: [u8; 4]) -> (r: Result<ChunkType, ValidationError>)
        ensures
            r is Ok,
            r->Ok_0@ == arr@,
    {
        let t = ChunkType { critical: arr[0], public: arr[1], reserved: arr[2], safe_to_copy: arr[3] };
        assert(t@ =~= arr@);
        Ok(t)
    }

    /// Builds a tag from text: every byte must be an ASCII letter and
    /// the text exactly 4 bytes long, else construction fails with the
    /// matching error.
    pub fn from_str(s: &str) -> (r: Result<ChunkType, ValidationError>)
        ensures
            r is Ok <==> tag_alphabetic(s.spec_bytes()),
            r is Ok ==> r->Ok_0@ == s.spec_bytes(),
            !all_alphabetic(s.spec_bytes()) ==> r == Err::<ChunkType, ValidationError>(
                ValidationError::NotAlphabetic,
            ),
            all_alphabetic(s.spec_bytes()) && s.spec_bytes().len() != 4 ==> r == Err::<
                ChunkType,
                ValidationError,
            >(ValidationError::WrongLength),
    {
        let bytes: &[u8] = s.as_bytes();
        let n = bytes.len();
        let mut i: usize = 0;
        while i < n
            invariant
                bytes@ == s.spec_bytes(),
                n == bytes@.len(),
                0 <= i <= n,
                forall|j: int| 0 <= j < i ==> spec_is_alphabetic(#[trigger] bytes@[j]),
            decreases n - i,
        {
            if !byte_is_alphabetic(bytes[i]) {
                assert(!all_alphabetic(bytes@)) by {
                    assert(!spec_is_alphabetic(bytes@[i as int]));
                }
                return Err(ValidationError::NotAlphabetic);
            }
            i += 1;
        }
        if n == 4 {
            let t = ChunkType {
                critical: bytes[0],
                public: bytes[1],
                reserved: bytes[2],
                safe_to_copy: bytes[3],
            };
            assert(t@ =~= bytes@);
            Ok(t)
        } else {
            Err(ValidationError::WrongLength)
        }
    }

    /// The tag's 4 raw bytes, in wire order.
    pub fn bytes(&self) -> (r: [u8; 4])
        ensures
            r@ == self@,
    {
        let r = [self.critical, self.public, self.reserved, self.safe_to_copy];
        assert(r@ =~= self@);
        r
    }

    /// Renders the tag as text.  A tag whose bytes are not all ASCII
    /// letters (possible via the permissive raw-byte path) is rejected
    /// rather than rendered.
    pub fn to_text(&self) -> (r: Result<String, ValidationError>)
        ensures
            tag_alphabetic(self@) ==> r is Ok && r->Ok_0@ == tag_chars(self@),
            !tag_alphabetic(self@) ==> r == Err::<String, ValidationError>(
                ValidationError::NotAlphabetic,
            ),
    {
        if !(byte_is_alphabetic(self.critical) && byte_is_alphabetic(self.public)
            && byte_is_alphabetic(self.reserved) && byte_is_alphabetic(self.safe_to_copy)) {
            assert(!tag_alphabetic(self@)) by {
                assert(self@[0] == self.critical);
                assert(self@[1] == self.public);
                assert(self@[2] == self.reserved);
                assert(self@[3] == self.safe_to_copy);
            }
            return Err(ValidationError::NotAlphabetic);
        }
        let mut v: Vec<u8> = Vec::new();
        v.push(self.critical);
        v.push(self.public);
        v.push(self.reserved);
        v.push(self.safe_to_copy);
        assert(v@ =~= self@);
        proof {
            lemma_alphabetic_bytes_decode(self@);
        }
        match bytes_to_string(v) {
            Some(s) => {
                proof {
                    encode_utf8_decode_utf8(s@);
                    assert(decode_utf8(encode_utf8(s@)) == s@);
                }
                Ok(s)
            },
            None => {
                proof {
                    assert(false);
                }
                Err(ValidationError::NotAlphabetic)
            },
        }
    }

    /// A chunk is critical iff byte 0 is uppercase.
    pub fn is_critical(&self) -> (r: bool)
        ensures
            r == spec_is_uppercase(self@[0]),
    {
        byte_is_uppercase(self.critical)
    }

    /// A chunk is public iff byte 1 is uppercase.
    pub fn is_public(&self) -> (r: bool)
        ensures
            r == spec_is_uppercase(self@[1]),
    {
        byte_is_uppercase(self.public)
    }

    /// The format's reserved bit holds iff byte 2 is uppercase.
    pub fn is_reserved_bit_valid(&self) -> (r: bool)
        ensures
            r == spec_is_uppercase(self@[2]),
    {
        byte_is_uppercase(self.reserved)
    }

    /// A chunk is safe to copy iff byte 3 is lowercase.
    pub fn is_safe_to_copy(&self) -> (r: bool)
        ensures
            r == spec_is_lowercase(self@[3]),
    {
        let b = self.safe_to_copy;
        97 <= b && b <= 122
    }

    /// The format's own notion of a valid tag: the reserved bit holds.
    pub fn is_valid(&self) -> (r: bool)
        ensures
            r == spec_is_uppercase(self@[2]),
    {
        self.is_reserved_bit_valid()
    }
}

/// Alphabetic tag bytes are valid UTF-8, decode to one character per
/// byte, and that decoding is the only character sequence encoding them.
pub proof fn lemma_alphabetic_bytes_decode(t: Seq<u8>)
    requires
        tag_alphabetic(t),
    ensures
        vstd::utf8::valid_utf8(t),
        decode_utf8(t) == tag_chars(t),
        encode_utf8(tag_chars(t)) == t,
{
    let cs = tag_chars(t);
    assert forall|i: int| 0 <= i < cs.len() implies '\0' <= #[trigger] cs[i] <= '\u{7f}' by {
        assert(spec_is_alphabetic(t[i]));
    }
    assert(is_ascii_chars(cs));
    is_ascii_chars_encode_utf8(cs);
    assert(encode_utf8(cs) =~= t);
    encode_utf8_valid_utf8(cs);
    encode_utf8_decode_utf8(cs);
}

/// Building a tag from any 4-character alphabetic text and rendering it
/// back yields exactly the original characters: the text round trip is
/// the identity on well-formed tag text.
pub proof fn lemma_tag_text_round_trip(s: Seq<char>)
    requires
        s.len() == 4,
        forall|i: int| 0 <= i < s.len() ==> alphabetic_char(#[trigger] s[i]),
    ensures
        tag_alphabetic(encode_utf8(s)),
        tag_chars(encode_utf8(s)) == s,
{
    assert forall|i: int| 0 <= i < s.len() implies '\0' <= #[trigger] s[i] <= '\u{7f}' by {
        assert(alphabetic_char(s[i]));
    }
    assert(is_ascii_chars(s));
    is_ascii_chars_encode_utf8(s);
    let t = encode_utf8(s);
    assert forall|i: int| 0 <= i < t.len() implies spec_is_alphabetic(#[trigger] t[i]) by {
        assert(t[i] == s[i] as u8);
        assert(alphabetic_char(s[i]));
    }
    assert(tag_alphabetic(t));
    assert forall|i: int| 0 <= i < t.len() implies tag_chars(t)[i] == s[i] by {
        assert(t[i] == s[i] as u8);
    }
    assert(tag_chars(t) =~= s);
}

} // verus!
