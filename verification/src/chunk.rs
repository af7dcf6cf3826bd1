//! One length-prefixed, checksummed chunk record.
//!
//! Wire layout: `length:u32-BE | tag:4 bytes | payload:length bytes |
//! checksum:u32-BE`, where the checksum is CRC-32 (reflected ISO-HDLC)
//! over the tag bytes followed by the payload.  Parsing recomputes the
//! checksum and rejects any mismatch; serializing is its exact inverse.

use vstd::prelude::*;
use vstd::slice::slice_subrange;
use vstd::slice::slice_to_vec;
use vstd::utf8::decode_utf8;
use vstd::utf8::encode_utf8;
use vstd::utf8::encode_utf8_decode_utf8;
use vstd::utf8::valid_utf8;

use crate::bytes_be::lemma_u32_from_be_bytes_injective;
use crate::bytes_be::lemma_u32_to_from_be_bytes;
use crate::bytes_be::spec_u32_from_be_bytes;
use crate::bytes_be::spec_u32_to_be_bytes;
use crate::bytes_be::u32_from_be_slice;
use crate::bytes_be::u32_to_be_vec;
use crate::checksum::crc32;
use crate::checksum::crc32_of;
use crate::chunk_type::ChunkType;
use crate::chunk_type::byte_is_alphabetic;
use crate::chunk_type::spec_is_alphabetic;
use crate::chunk_type::tag_alphabetic;
use crate::text::bytes_to_string;

verus! {

broadcast use crate::chunk_type::lemma_tag_len;

/// Why a byte buffer failed to parse as a record or a container.
#[derive(Debug, Clone, Copy, PartialEq, Eq, Structural)]
pub enum FormatError {
    /// Fewer than 4 bytes remain where a length field is due.
    TruncatedLength,
    /// Fewer than 4 bytes remain where a type tag is due.
    TruncatedTag,
    /// Fewer bytes remain than the declared payload length.
    TruncatedPayload,
    /// Fewer than 4 bytes remain where a checksum field is due.
    TruncatedChecksum,
    /// A type tag byte is not an ASCII letter.
    NonAlphabeticTag,
    /// The stored checksum differs from the recomputed one.
    ChecksumMismatch,
    /// A container buffer does not begin with the fixed signature.
    InvalidSignature,
}

/// Why a payload could not be read back as text.
#[derive(Debug, Clone, Copy, PartialEq, Eq, Structural)]
pub enum EncodingError {
    /// The payload is not valid UTF-8.
    NotUtf8,
}

/// The mathematical content of a record: its four fields as plain
/// values.
#[verifier::ext_equal]
pub struct ChunkModel {
    pub length: u32,
    pub tag: Seq<u8>,
    pub data: Seq<u8>,
    pub crc: u32,
}

/// A record's exact wire bytes.
pub open spec fn ser_chunk(m: ChunkModel) -> Seq<u8> {
    spec_u32_to_be_bytes(m.length) + m.tag + m.data + spec_u32_to_be_bytes(m.crc)
}

/// A well-formed record: the length field counts the payload bytes and
/// the checksum is the CRC-32 of tag followed by payload.
pub open spec fn chunk_wf(m: ChunkModel) -> bool {
    &&& m.tag.len() == 4
    &&& m.length == m.data.len()
    &&& m.crc == crc32_of(m.tag + m.data)
}

/// The payload length a buffer declares in its leading length field.
pub open spec fn parsed_len(b: Seq<u8>) -> int
    recommends
        b.len() >= 4,
{
    spec_u32_from_be_bytes(b.subrange(0, 4)) as int
}

/// Whether a record parse succeeds on (a prefix of) the buffer.
pub open spec fn chunk_parse_ok(b: Seq<u8>) -> bool {
    &&& b.len() >= 4
    &&& b.len() >= 8
    &&& b.len() >= 8 + parsed_len(b)
    &&& b.len() >= 12 + parsed_len(b)
    &&& tag_alphabetic(b.subrange(4, 8))
    &&& spec_u32_from_be_bytes(b.subrange(8 + parsed_len(b), 12 + parsed_len(b))) == crc32_of(
        b.subrange(4, 8 + parsed_len(b)),
    )
}

/// The error a failing record parse reports, first applicable check
/// first.
pub open spec fn chunk_parse_err(b: Seq<u8>) -> FormatError
    recommends
        !chunk_parse_ok(b),
{
    if b.len() < 4 {
        FormatError::TruncatedLength
    } else if b.len() < 8 {
        FormatError::TruncatedTag
    } else if b.len() < 8 + parsed_len(b) {
        FormatError::TruncatedPayload
    } else if b.len() < 12 + parsed_len(b) {
        FormatError::TruncatedChecksum
    } else if !tag_alphabetic(b.subrange(4, 8)) {
        FormatError::NonAlphabeticTag
    } else {
        FormatError::ChecksumMismatch
    }
}

/// The record a successful parse yields.
pub open spec fn parsed_chunk(b: Seq<u8>) -> ChunkModel
    recommends
        chunk_parse_ok(b),
{
    ChunkModel {
        length: spec_u32_from_be_bytes(b.subrange(0, 4)),
        tag: b.subrange(4, 8),
        data: b.subrange(8, 8 + parsed_len(b)),
        crc: spec_u32_from_be_bytes(b.subrange(8 + parsed_len(b), 12 + parsed_len(b))),
    }
}

/// How many bytes a successful record parse consumes.
pub open spec fn chunk_consumed(b: Seq<u8>) -> int
    recommends
        chunk_parse_ok(b),
{
    12 + parsed_len(b)
}

/// One chunk record: length, type tag, opaque payload, checksum.
#[derive(Debug)]
pub struct Chunk {
    length: u32,
    chunk_type: ChunkType,
    chunk_data: Vec<u8>,
    crc: u32,
}

impl View for Chunk {
    type V = ChunkModel;

    closed spec fn view(&self) -> ChunkModel {
        ChunkModel {
            length: self.length,
            tag: self.chunk_type@,
            data: self.chunk_data@,
            crc: self.crc,
        }
    }
}

/// CRC-32 over the tag bytes followed by the payload bytes.
fn compute_crc(chunk_type: &ChunkType, data: &Vec<u8>) -> (r: u32)
    ensures
        r == crc32_of(chunk_type@ + data@),
{
    let tag = chunk_type.bytes();
    let mut v: Vec<u8> = Vec::new();
    v.push(tag[0]);
    v.push(tag[1]);
    v.push(tag[2]);
    v.push(tag[3]);
    let ghost tag_part = v@;
    assert(tag_part =~= chunk_type@);
    let n = data.len();
    let mut k: usize = 0;
    while k < n
        invariant
            n == data@.len(),
            0 <= k <= n,
            v@ == tag_part + data@.take(k as int),
            tag_part =~= chunk_type@,
        decreases n - k,
    {
        v.push(data[k]);
        assert(v@ =~= tag_part + data@.take(k + 1));
        k += 1;
    }
    assert(v@ =~= chunk_type@ + data@);
    crc32(v.as_slice())
}

impl Chunk {
    /// Builds a fresh record from a tag and a payload; the length and
    /// checksum fields are computed immediately, so the result is
    /// well formed.
    pub fn new(chunk_type: ChunkType, data: Vec<u8>) -> (r: Chunk)
        requires
            data@.len() <= u32::MAX,
        ensures
            r@.tag == chunk_type@,
            r@.data == data@,
            r@.length == data@.len(),
            r@.crc == crc32_of(chunk_type@ + data@),
            chunk_wf(r@),
    {
        let length: u32 = data.len() as u32;
        let crc = compute_crc(&chunk_type, &data);
        proof {
            assert(length == data@.len());
            assert(chunk_type@.len() == 4);
        }
        Chunk { length, chunk_type, chunk_data: data, crc }
    }

    /// The record's exact wire bytes: length, tag, payload, checksum.
    pub fn as_bytes(&self) -> (r: Vec<u8>)
        ensures
            r@ == ser_chunk(self@),
    {
        let mut result = u32_to_be_vec(self.length);
        let tag = self.chunk_type.bytes();
        result.push(tag[0]);
        result.push(tag[1]);
        result.push(tag[2]);
        result.push(tag[3]);
        let ghost head = result@;
        assert(head =~= spec_u32_to_be_bytes(self.length) + self.chunk_type@);
        let n = self.chunk_data.len();
        let mut k: usize = 0;
        while k < n
            invariant
                n == self.chunk_data@.len(),
                0 <= k <= n,
                result@ == head + self.chunk_data@.take(k as int),
            decreases n - k,
        {
            result.push(self.chunk_data[k]);
            assert(result@ =~= head + self.chunk_data@.take(k + 1));
            k += 1;
        }
        let mut crc_bytes = u32_to_be_vec(self.crc);
        result.append(&mut crc_bytes);
        assert(result@ =~= ser_chunk(self@));
        result
    }

    /// Recomputes the CRC-32 over tag and payload on demand.
    pub fn crc(&self) -> (r: u32)
        ensures
            r == crc32_of(self@.tag + self@.data),
    {
        compute_crc(&self.chunk_type, &self.chunk_data)
    }

    /// The stored length field.
    pub fn length(&self) -> (r: u32)
        ensures
            r == self@.length,
    {
        self.length
    }

    /// The record's type tag.
    pub fn chunk_type(&self) -> (r: &ChunkType)
        ensures
            r@ == self@.tag,
    {
        &self.chunk_type
    }

    /// The payload bytes.
    pub fn data(&self) -> (r: &[u8])
        ensures
            r@ == self@.data,
    {
        self.chunk_data.as_slice()
    }

    /// Reads the payload back as UTF-8 text; fails on any payload that
    /// is not valid UTF-8.
    pub fn data_as_string(&self) -> (r: Result<String, EncodingError>)
        ensures
            r is Ok <==> valid_utf8(self@.data),
            r is Ok ==> r->Ok_0@ == decode_utf8(self@.data),
    {
        let v = slice_to_vec(self.chunk_data.as_slice());
        match bytes_to_string(v) {
            Some(s) => {
                proof {
                    encode_utf8_decode_utf8(s@);
                    assert(decode_utf8(encode_utf8(s@)) == s@);
                }
                Ok(s)
            },
            None => Err(EncodingError::NotUtf8),
        }
    }

    /// Parses one record from the front of the buffer: big-endian
    /// length, 4 tag bytes, the declared number of payload bytes and a
    /// big-endian checksum, which is recomputed and compared.  Each
    /// malformed-input case fails with its own error; bytes after the
    /// record are ignored.
    pub fn try_from(value: &[u8]) -> (r: Result<Chunk, FormatError>)
        ensures
            r is Ok <==> chunk_parse_ok(value@),
            r is Ok ==> r->Ok_0@ == parsed_chunk(value@) && chunk_wf(r->Ok_0@),
            r is Err ==> r->Err_0 == chunk_parse_err(value@),
    {
        let ghost b = value@;
        let n = value.len();
        if n < 4 {
            return Err(FormatError::TruncatedLength);
        }
        let length_field = u32_from_be_slice(slice_subrange(value, 0, 4));
        assert(length_field as int == parsed_len(b));
        if n < 8 {
            return Err(FormatError::TruncatedTag);
        }
        let l = length_field as usize;
        if n - 8 < l {
            return Err(FormatError::TruncatedPayload);
        }
        if n - 8 - l < 4 {
            return Err(FormatError::TruncatedChecksum);
        }
        assert(n >= 12 + l);
        let tag_slice = slice_subrange(value, 4, 8);
        if !(byte_is_alphabetic(tag_slice[0]) && byte_is_alphabetic(tag_slice[1])
            && byte_is_alphabetic(tag_slice[2]) && byte_is_alphabetic(tag_slice[3])) {
            assert(!tag_alphabetic(b.subrange(4, 8))) by {
                assert(forall|i: int|
                    0 <= i < 4 ==> #[trigger] b.subrange(4, 8)[i] == tag_slice@[i]);
            }
            return Err(FormatError::NonAlphabeticTag);
        }
        assert(tag_alphabetic(b.subrange(4, 8))) by {
            assert(forall|i: int| 0 <= i < 4 ==> #[trigger] b.subrange(4, 8)[i] == tag_slice@[i]);
        }
        let tag_arr = [tag_slice[0], tag_slice[1], tag_slice[2], tag_slice[3]];
        assert(tag_arr@ =~= b.subrange(4, 8));
        let chunk_type = match ChunkType::try_from(tag_arr) {
            Ok(t) => t,
            Err(_) => {
                proof {
                    assert(false);
                }
                return Err(FormatError::NonAlphabeticTag);
            },
        };
        let stored_crc = u32_from_be_slice(slice_subrange(value, 8 + l, 12 + l));
        let computed_crc = crc32(slice_subrange(value, 4, 8 + l));
        if stored_crc != computed_crc {
            return Err(FormatError::ChecksumMismatch);
        }
        let chunk_data = slice_to_vec(slice_subrange(value, 8, 8 + l));
        let r = Chunk { length: length_field, chunk_type, chunk_data, crc: stored_crc };
        proof {
            assert(b.subrange(4, 8 + l) =~= b.subrange(4, 8) + b.subrange(8, 8 + l));
            assert(r@ =~= parsed_chunk(b));
        }
        Ok(r)
    }
}

/// A serialized well-formed record parses back — with any trailing
/// bytes after it — to identical length, tag, payload and checksum,
/// consuming exactly its own bytes.
pub proof fn lemma_chunk_serialize_parse(m: ChunkModel, rest: Seq<u8>)
    requires
        chunk_wf(m),
        tag_alphabetic(m.tag),
    ensures
        ({
            let b = ser_chunk(m) + rest;
            &&& chunk_parse_ok(b)
            &&& parsed_chunk(b) == m
            &&& chunk_consumed(b) == ser_chunk(m).len()
            &&& ser_chunk(m).len() == 12 + m.data.len()
        }),
{
    let b = ser_chunk(m) + rest;
    let l = m.data.len() as int;
    lemma_u32_to_from_be_bytes(m.length);
    lemma_u32_to_from_be_bytes(m.crc);
    assert(b.subrange(0, 4) =~= spec_u32_to_be_bytes(m.length));
    assert(parsed_len(b) == l);
    assert(b.subrange(4, 8) =~= m.tag);
    assert(b.subrange(8, 8 + l) =~= m.data);
    assert(b.subrange(8 + l, 12 + l) =~= spec_u32_to_be_bytes(m.crc));
    assert(b.subrange(4, 8 + l) =~= m.tag + m.data);
    assert(parsed_chunk(b) =~= m);
}

/// Corrupting any one byte of a parsed record's checksum field makes
/// the parse fail, and fail with a checksum mismatch.
pub proof fn lemma_checksum_corruption(b: Seq<u8>, j: int, v: u8)
    requires
        chunk_parse_ok(b),
        8 + parsed_len(b) <= j < 12 + parsed_len(b),
        v != b[j],
    ensures
        !chunk_parse_ok(b.update(j, v)),
        chunk_parse_err(b.update(j, v)) == FormatError::ChecksumMismatch,
{
    let b2 = b.update(j, v);
    let l = parsed_len(b);
    assert(b2.subrange(0, 4) =~= b.subrange(0, 4));
    assert(parsed_len(b2) == l);
    assert(b2.subrange(4, 8) =~= b.subrange(4, 8));
    assert(b2.subrange(4, 8 + l) =~= b.subrange(4, 8 + l));
    let s1 = b.subrange(8 + l, 12 + l);
    let s2 = b2.subrange(8 + l, 12 + l);
    assert(s2[j - (8 + l)] == v && s1[j - (8 + l)] == b[j]);
    assert(s1 != s2);
    lemma_u32_from_be_bytes_injective(s1, s2);
}

/// Flipping any single bit inside a parsed record's checksum field
/// makes the parse fail with a checksum mismatch.
pub proof fn lemma_checksum_bit_flip(b: Seq<u8>, j: int, k: u8)
    requires
        chunk_parse_ok(b),
        8 + parsed_len(b) <= j < 12 + parsed_len(b),
        k < 8,
    ensures
        !chunk_parse_ok(b.update(j, b[j] ^ (1u8 << k))),
        chunk_parse_err(b.update(j, b[j] ^ (1u8 << k))) == FormatError::ChecksumMismatch,
{
    let x = b[j];
    assert(x ^ (1u8 << k) != x) by (bit_vector)
        requires
            k < 8,
    ;
    lemma_checksum_corruption(b, j, x ^ (1u8 << k));
}

} // verus!
