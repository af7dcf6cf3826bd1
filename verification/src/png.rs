//! The whole-file container: a fixed 8-byte signature followed by an
//! ordered sequence of chunk records.
//!
//! Parsing consumes the entire buffer, record by record, and aborts on
//! the first malformed record; serializing concatenates the signature
//! with each record's wire bytes in sequence order.  Appending and
//! removal by tag keep the order of all other records.

use vstd::prelude::*;
use vstd::slice::slice_subrange;
use vstd::string::StringSliceAdditionalSpecFns;

use crate::chunk::Chunk;
use crate::chunk::ChunkModel;
use crate::chunk::FormatError;
use crate::chunk::chunk_consumed;
use crate::chunk::chunk_parse_err;
use crate::chunk::chunk_parse_ok;
use crate::chunk::chunk_wf;
use crate::chunk::lemma_chunk_serialize_parse;
use crate::chunk::parsed_chunk;
use crate::chunk::ser_chunk;
use crate::chunk_type::ChunkType;
use crate::chunk_type::ValidationError;
use crate::chunk_type::all_alphabetic;
use crate::chunk_type::lemma_tag_eq_iff_view_eq;
use crate::chunk_type::tag_alphabetic;

verus! {

broadcast use crate::chunk_type::lemma_tag_len;

/// Why a lookup or removal by tag text failed.
#[derive(Debug, Clone, Copy, PartialEq, Eq, Structural)]
pub enum LookupError {
    /// The tag text itself is malformed.
    InvalidTag(ValidationError),
    /// No record carries the requested tag.
    NotFound,
}

/// The fixed 8-byte signature that opens every valid container.
pub open spec fn spec_signature() -> Seq<u8> {
    seq![137u8, 80u8, 78u8, 71u8, 13u8, 10u8, 26u8, 10u8]
}

/// The models of a sequence of records.
pub open spec fn chunk_models(cs: Seq<Chunk>) -> Seq<ChunkModel> {
    Seq::new(cs.len(), |i: int| cs[i]@)
}

/// The wire bytes of a sequence of records, concatenated in order.
pub open spec fn ser_chunks(ms: Seq<ChunkModel>) -> Seq<u8>
    decreases ms.len(),
{
    if ms.len() == 0 {
        Seq::empty()
    } else {
        ser_chunk(ms[0]) + ser_chunks(ms.skip(1))
    }
}

/// A whole container's wire bytes: signature, then every record.
pub open spec fn ser_png(ms: Seq<ChunkModel>) -> Seq<u8> {
    spec_signature() + ser_chunks(ms)
}

/// Every record is well formed and carries an alphabetic tag.
pub open spec fn chunks_wf(ms: Seq<ChunkModel>) -> bool {
    forall|i: int|
        0 <= i < ms.len() ==> chunk_wf(#[trigger] ms[i]) && tag_alphabetic(ms[i].tag)
}

/// Whether record parsing consumes the buffer exactly, record by
/// record, until it is exhausted.
pub open spec fn chunks_parse_ok(b: Seq<u8>) -> bool
    decreases b.len(),
{
    if b.len() == 0 {
        true
    } else if !chunk_parse_ok(b) {
        false
    } else {
        chunks_parse_ok(b.skip(chunk_consumed(b)))
    }
}

/// The record-level error that aborts a failing container parse.
pub open spec fn chunks_parse_err(b: Seq<u8>) -> FormatError
    recommends
        !chunks_parse_ok(b),
    decreases b.len(),
{
    if b.len() == 0 {
        FormatError::TruncatedLength
    } else if !chunk_parse_ok(b) {
        chunk_parse_err(b)
    } else {
        chunks_parse_err(b.skip(chunk_consumed(b)))
    }
}

/// The records a successful container parse yields, in buffer order.
pub open spec fn parsed_chunks(b: Seq<u8>) -> Seq<ChunkModel>
    recommends
        chunks_parse_ok(b),
    decreases b.len(),
{
    if b.len() == 0 {
        Seq::empty()
    } else if !chunk_parse_ok(b) {
        Seq::empty()
    } else {
        seq![parsed_chunk(b)] + parsed_chunks(b.skip(chunk_consumed(b)))
    }
}

/// A record matches a lookup iff its tag bytes equal the looked-up
/// bytes exactly.
pub open spec fn tag_matches(m: ChunkModel, t: Seq<u8>) -> bool {
    m.tag == t
}

/// The index of the earliest record whose tag matches, if any.
pub open spec fn first_match(ms: Seq<ChunkModel>, t: Seq<u8>) -> Option<int>
    decreases ms.len(),
{
    if ms.len() == 0 {
        None
    } else if tag_matches(ms[0], t) {
        Some(0int)
    } else {
        match first_match(ms.skip(1), t) {
            Some(i) => Some(i + 1),
            None => None,
        }
    }
}

/// An ordered container of chunk records.
#[derive(Debug)]
pub struct Png {
    chunks: Vec<Chunk>,
}

impl View for Png {
    type V = Seq<ChunkModel>;

    closed spec fn view(&self) -> Seq<ChunkModel> {
        chunk_models(self.chunks@)
    }
}

impl Png {
    /// Builds a container holding the given records, in order.
    pub fn from_chunks(chunks: Vec<Chunk>) -> (r: Png)
        ensures
            r@ == chunk_models(chunks@),
    {
        Png { chunks }
    }

    /// The records, in container order.
    pub fn chunks(&self) -> (r: &Vec<Chunk>)
        ensures
            r@.len() == self@.len(),
            forall|i: int| 0 <= i < r@.len() ==> (#[trigger] r@[i])@ == self@[i],
    {
        &self.chunks
    }

    /// Adds one record at the logical end of the sequence.
    pub fn append_chunk(&mut self, chunk: Chunk)
        ensures
            final(self)@ == old(self)@.push(chunk@),
    {
        self.chunks.push(chunk);
        assert(self@ =~= old(self)@.push(chunk@));
    }

    /// The container's full wire bytes: the signature followed by every
    /// record's bytes in sequence order.
    pub fn as_bytes(&self) -> (r: Vec<u8>)
        ensures
            r@ == ser_png(self@),
    {
        let mut result: Vec<u8> = Vec::new();
        result.push(137);
        result.push(80);
        result.push(78);
        result.push(71);
        result.push(13);
        result.push(10);
        result.push(26);
        result.push(10);
        assert(result@ =~= spec_signature());
        let n = self.chunks.len();
        let mut i: usize = 0;
        while i < n
            invariant
                n == self.chunks@.len(),
                0 <= i <= n,
                self@.len() == n,
                self@ == chunk_models(self.chunks@),
                result@ == spec_signature() + ser_chunks(self@.take(i as int)),
            decreases n - i,
        {
            let mut cb = self.chunks[i].as_bytes();
            result.append(&mut cb);
            proof {
                lemma_ser_chunks_push(self@.take(i as int), self@[i as int]);
                assert(self@.take(i + 1) =~= self@.take(i as int).push(self@[i as int]));
                assert(result@ =~= spec_signature() + ser_chunks(self@.take(i + 1)));
            }
            i += 1;
        }
        assert(self@.take(n as int) =~= self@);
        result
    }

    /// Parses a whole container: the buffer must open with the fixed
    /// signature, and the rest must split exactly into records, each of
    /// which must parse; the first failing record aborts the parse with
    /// its own error.
    pub fn try_from(value: &[u8]) -> (r: Result<Png, FormatError>)
        ensures
            value@.len() < 8 || value@.subrange(0, 8) != spec_signature() ==> r == Err::<
                Png,
                FormatError,
            >(FormatError::InvalidSignature),
            value@.len() >= 8 && value@.subrange(0, 8) == spec_signature() ==> ({
                let rest = value@.skip(8);
                &&& (r is Ok <==> chunks_parse_ok(rest))
                &&& (r is Ok ==> r->Ok_0@ == parsed_chunks(rest))
                &&& (r is Err ==> r->Err_0 == chunks_parse_err(rest))
            }),
    {
        let n = value.len();
        if n < 8 {
            return Err(FormatError::InvalidSignature);
        }
        if !(value[0] == 137 && value[1] == 80 && value[2] == 78 && value[3] == 71 && value[4]
            == 13 && value[5] == 10 && value[6] == 26 && value[7] == 10) {
            assert(value@.subrange(0, 8) != spec_signature()) by {
                let s = value@.subrange(0, 8);
                assert(s[0] == value@[0] && s[1] == value@[1] && s[2] == value@[2] && s[3]
                    == value@[3] && s[4] == value@[4] && s[5] == value@[5] && s[6] == value@[6]
                    && s[7] == value@[7]);
            }
            return Err(FormatError::InvalidSignature);
        }
        assert(value@.subrange(0, 8) =~= spec_signature());
        let ghost rest0 = value@.skip(8);
        let mut chunks: Vec<Chunk> = Vec::new();
        let mut offset: usize = 8;
        while offset < n
            invariant
                n == value@.len(),
                8 <= offset <= n,
                rest0 == value@.skip(8),
                value@.subrange(0, 8) == spec_signature(),
                chunks_parse_ok(rest0) == chunks_parse_ok(value@.skip(offset as int)),
                !chunks_parse_ok(rest0) ==> chunks_parse_err(rest0) == chunks_parse_err(
                    value@.skip(offset as int),
                ),
                chunks_parse_ok(rest0) ==> parsed_chunks(rest0) == chunk_models(chunks@)
                    + parsed_chunks(value@.skip(offset as int)),
            decreases n - offset,
        {
            let cur: &[u8] = slice_subrange(value, offset, n);
            assert(cur@ =~= value@.skip(offset as int));
            match Chunk::try_from(cur) {
                Err(e) => {
                    proof {
                        assert(cur@.len() > 0);
                        assert(!chunks_parse_ok(cur@));
                        assert(chunks_parse_err(cur@) == chunk_parse_err(cur@));
                    }
                    return Err(e);
                },
                Ok(chunk) => {
                    let l = chunk.length() as usize;
                    proof {
                        assert(chunk_parse_ok(cur@));
                        assert(chunk@ == parsed_chunk(cur@));
                        assert(chunk_consumed(cur@) == 12 + l);
                        assert(cur@.len() >= 12 + l);
                        assert(offset + 12 + l <= n);
                    }
                    let new_offset = offset + 12 + l;
                    let ghost old_models = chunk_models(chunks@);
                    chunks.push(chunk);
                    proof {
                        assert(cur@.skip(12 + l) =~= value@.skip(new_offset as int));
                        assert(chunks_parse_ok(cur@) == chunks_parse_ok(
                            value@.skip(new_offset as int),
                        ));
                        assert(!chunks_parse_ok(cur@) ==> chunks_parse_err(cur@)
                            == chunks_parse_err(value@.skip(new_offset as int)));
                        assert(chunk_models(chunks@) =~= old_models.push(chunk@));
                        if chunks_parse_ok(rest0) {
                            assert(parsed_chunks(cur@) == seq![parsed_chunk(cur@)]
                                + parsed_chunks(value@.skip(new_offset as int)));
                            assert(parsed_chunks(rest0) =~= chunk_models(chunks@)
                                + parsed_chunks(value@.skip(new_offset as int)));
                        }
                    }
                    offset = new_offset;
                },
            }
        }
        proof {
            assert(value@.skip(n as int) =~= Seq::<u8>::empty());
            assert(chunks_parse_ok(value@.skip(n as int)));
            assert(parsed_chunks(value@.skip(n as int)) =~= Seq::<ChunkModel>::empty());
            assert(chunks_parse_ok(rest0));
            assert(parsed_chunks(rest0) =~= chunk_models(chunks@));
        }
        let png = Png { chunks };
        Ok(png)
    }

    /// Finds the earliest record whose tag equals the given tag text;
    /// malformed tag text fails with its validation error, a missing
    /// tag with `NotFound`.
    pub fn chunk_by_type(&self, chunk_type: &str) -> (r: Result<&Chunk, LookupError>)
        ensures
            !all_alphabetic(chunk_type.spec_bytes()) ==> r == Err::<&Chunk, LookupError>(
                LookupError::InvalidTag(ValidationError::NotAlphabetic),
            ),
            all_alphabetic(chunk_type.spec_bytes()) && chunk_type.spec_bytes().len() != 4 ==> r
                == Err::<&Chunk, LookupError>(LookupError::InvalidTag(
                ValidationError::WrongLength,
            )),
            tag_alphabetic(chunk_type.spec_bytes()) ==> match first_match(
                self@,
                chunk_type.spec_bytes(),
            ) {
                Some(i) => r is Ok && r->Ok_0@ == self@[i],
                None => r == Err::<&Chunk, LookupError>(LookupError::NotFound),
            },
    {
        let target = match ChunkType::from_str(chunk_type) {
            Ok(t) => t,
            Err(e) => {
                return Err(LookupError::InvalidTag(e));
            },
        };
        let ghost t = chunk_type.spec_bytes();
        let n = self.chunks.len();
        let mut i: usize = 0;
        while i < n
            invariant
                n == self.chunks@.len(),
                self@.len() == n,
                self@ == chunk_models(self.chunks@),
                target@ == t,
                t == chunk_type.spec_bytes(),
                tag_alphabetic(t),
                forall|j: int| 0 <= j < i ==> !tag_matches(#[trigger] self@[j], t),
            decreases n - i,
        {
            let c = &self.chunks[i];
            let ct = c.chunk_type();
            proof {
                lemma_tag_eq_iff_view_eq(*ct, target);
            }
            if *ct == target {
                proof {
                    assert(tag_matches(self@[i as int], t));
                    lemma_first_match_at(self@, t, i as int);
                }
                return Ok(c);
            }
            proof {
                assert(!tag_matches(self@[i as int], t));
            }
            i += 1;
        }
        proof {
            lemma_first_match_none(self@, t);
        }
        Err(LookupError::NotFound)
    }

    /// Removes and returns the earliest record whose tag equals the
    /// given tag text, shifting later records forward; malformed tag
    /// text fails with its validation error, a missing tag with
    /// `NotFound`, and in either failure the container is unchanged.
    pub fn remove_chunk(&mut self, chunk_type: &str) -> (r: Result<Chunk, LookupError>)
        ensures
            !all_alphabetic(chunk_type.spec_bytes()) ==> r == Err::<Chunk, LookupError>(
                LookupError::InvalidTag(ValidationError::NotAlphabetic),
            ) && final(self)@ == old(self)@,
            all_alphabetic(chunk_type.spec_bytes()) && chunk_type.spec_bytes().len() != 4 ==> r
                == Err::<Chunk, LookupError>(LookupError::InvalidTag(ValidationError::WrongLength))
                && final(self)@ == old(self)@,
            tag_alphabetic(chunk_type.spec_bytes()) ==> match first_match(
                old(self)@,
                chunk_type.spec_bytes(),
            ) {
                Some(i) => r is Ok && r->Ok_0@ == old(self)@[i] && final(self)@ == old(
                    self,
                )@.remove(i),
                None => r == Err::<Chunk, LookupError>(LookupError::NotFound) && final(self)@
                    == old(self)@,
            },
    {
        let target = match ChunkType::from_str(chunk_type) {
            Ok(t) => t,
            Err(e) => {
                return Err(LookupError::InvalidTag(e));
            },
        };
        let ghost t = chunk_type.spec_bytes();
        let n = self.chunks.len();
        let mut i: usize = 0;
        while i < n
            invariant
                n == self.chunks@.len(),
                self@.len() == n,
                self@ == chunk_models(self.chunks@),
                self@ == old(self)@,
                self.chunks@ == old(self).chunks@,
                target@ == t,
                t == chunk_type.spec_bytes(),
                tag_alphabetic(t),
                forall|j: int| 0 <= j < i ==> !tag_matches(#[trigger] self@[j], t),
            decreases n - i,
        {
            let ct = self.chunks[i].chunk_type();
            let hit = *ct == target;
            proof {
                lemma_tag_eq_iff_view_eq(*ct, target);
            }
            if hit {
                proof {
                    assert(tag_matches(self@[i as int], t));
                    lemma_first_match_at(self@, t, i as int);
                }
                let c = self.chunks.remove(i);
                assert(self@ =~= old(self)@.remove(i as int));
                return Ok(c);
            }
            proof {
                assert(!tag_matches(self@[i as int], t));
            }
            i += 1;
        }
        proof {
            lemma_first_match_none(self@, t);
        }
        Err(LookupError::NotFound)
    }
}

/// Serializing one more record appends exactly that record's bytes.
pub proof fn lemma_ser_chunks_push(ms: Seq<ChunkModel>, m: ChunkModel)
    ensures
        ser_chunks(ms.push(m)) == ser_chunks(ms) + ser_chunk(m),
    decreases ms.len(),
{
    if ms.len() == 0 {
        assert(ms.push(m)[0] == m);
        assert(ms.push(m).skip(1) =~= Seq::<ChunkModel>::empty());
        assert(ser_chunks(ms.push(m)) == ser_chunk(m) + ser_chunks(Seq::<ChunkModel>::empty()));
        assert(ser_chunk(m) + Seq::<u8>::empty() =~= ser_chunk(m));
        assert(Seq::<u8>::empty() + ser_chunk(m) =~= ser_chunk(m));
    } else {
        lemma_ser_chunks_push(ms.skip(1), m);
        assert(ms.push(m).skip(1) =~= ms.skip(1).push(m));
        assert(ms.push(m)[0] == ms[0]);
        assert(ser_chunk(ms[0]) + (ser_chunks(ms.skip(1)) + ser_chunk(m)) =~= (ser_chunk(ms[0])
            + ser_chunks(ms.skip(1))) + ser_chunk(m));
    }
}

/// A successful lookup returns the earliest matching index; a failed
/// one means no record matches at all.
pub proof fn lemma_first_match_characterization(ms: Seq<ChunkModel>, t: Seq<u8>)
    ensures
        match first_match(ms, t) {
            Some(i) => 0 <= i < ms.len() && tag_matches(ms[i], t) && forall|j: int|
                0 <= j < i ==> !tag_matches(#[trigger] ms[j], t),
            None => forall|j: int| 0 <= j < ms.len() ==> !tag_matches(#[trigger] ms[j], t),
        },
    decreases ms.len(),
{
    if ms.len() == 0 {
    } else if tag_matches(ms[0], t) {
    } else {
        lemma_first_match_characterization(ms.skip(1), t);
        assert(forall|j: int| 0 <= j < ms.skip(1).len() ==> ms.skip(1)[j] == ms[j + 1]);
        match first_match(ms.skip(1), t) {
            Some(i) => {
                assert forall|j: int| 0 <= j < i + 1 implies !tag_matches(#[trigger] ms[j], t) by {
                    if j > 0 {
                        assert(ms.skip(1)[j - 1] == ms[j]);
                        assert(!tag_matches(ms.skip(1)[j - 1], t));
                    }
                }
            },
            None => {
                assert forall|j: int| 0 <= j < ms.len() implies !tag_matches(
                    #[trigger] ms[j],
                    t,
                ) by {
                    if j > 0 {
                        assert(ms.skip(1)[j - 1] == ms[j]);
                        assert(!tag_matches(ms.skip(1)[j - 1], t));
                    }
                }
            },
        }
    }
}

/// A record that matches, with no match before it, is the one a lookup
/// finds.
pub proof fn lemma_first_match_at(ms: Seq<ChunkModel>, t: Seq<u8>, i: int)
    requires
        0 <= i < ms.len(),
        tag_matches(ms[i], t),
        forall|j: int| 0 <= j < i ==> !tag_matches(#[trigger] ms[j], t),
    ensures
        first_match(ms, t) == Some(i),
    decreases i,
{
    if i == 0 {
    } else {
        assert(!tag_matches(ms[0], t));
        assert(ms.skip(1)[i - 1] == ms[i]);
        assert forall|j: int| 0 <= j < i - 1 implies !tag_matches(#[trigger] ms.skip(1)[j], t) by {
            assert(ms.skip(1)[j] == ms[j + 1]);
        }
        lemma_first_match_at(ms.skip(1), t, i - 1);
    }
}

/// When no record matches, a lookup finds nothing.
pub proof fn lemma_first_match_none(ms: Seq<ChunkModel>, t: Seq<u8>)
    requires
        forall|j: int| 0 <= j < ms.len() ==> !tag_matches(#[trigger] ms[j], t),
    ensures
        first_match(ms, t) is None,
    decreases ms.len(),
{
    if ms.len() == 0 {
    } else {
        assert forall|j: int| 0 <= j < ms.skip(1).len() implies !tag_matches(
            #[trigger] ms.skip(1)[j],
            t,
        ) by {
            assert(ms.skip(1)[j] == ms[j + 1]);
        }
        lemma_first_match_none(ms.skip(1), t);
    }
}

/// Parsing the serialization of well-formed records succeeds and
/// yields back exactly those records: together with the parser's and
/// serializer's contracts this is the container round-trip law —
/// parsing a serialized container and serializing the result
/// reproduces the same bytes.
/// Prepending one serialized well-formed record to a buffer that
/// parses keeps the whole buffer parsing, with that record first.
#[verifier::spinoff_prover]
proof fn lemma_chunks_parse_cons(m: ChunkModel, rest: Seq<u8>)
    requires
        chunk_wf(m),
        tag_alphabetic(m.tag),
        chunks_parse_ok(rest),
    ensures
        chunks_parse_ok(ser_chunk(m) + rest),
        parsed_chunks(ser_chunk(m) + rest) == seq![m] + parsed_chunks(rest),
{
    let b = ser_chunk(m) + rest;
    lemma_chunk_serialize_parse(m, rest);
    assert(b.skip(chunk_consumed(b)) =~= rest);
    assert(chunks_parse_ok(b));
    assert(parsed_chunks(b) == seq![parsed_chunk(b)] + parsed_chunks(rest));
    assert(seq![parsed_chunk(b)] =~= seq![m]);
}

#[verifier::spinoff_prover]
pub proof fn lemma_chunks_serialize_parse(ms: Seq<ChunkModel>)
    requires
        chunks_wf(ms),
    ensures
        chunks_parse_ok(ser_chunks(ms)),
        parsed_chunks(ser_chunks(ms)) == ms,
    decreases ms.len(),
{
    if ms.len() == 0 {
        assert(ser_chunks(ms).len() == 0);
        assert(parsed_chunks(ser_chunks(ms)) =~= ms);
    } else {
        let m = ms[0];
        let rest = ser_chunks(ms.skip(1));
        assert(ser_chunks(ms) == ser_chunk(m) + rest);
        assert forall|i: int| 0 <= i < ms.skip(1).len() implies chunk_wf(
            #[trigger] ms.skip(1)[i],
        ) && tag_alphabetic(ms.skip(1)[i].tag) by {
            assert(ms.skip(1)[i] == ms[i + 1]);
        }
        lemma_chunks_serialize_parse(ms.skip(1));
        lemma_chunks_parse_cons(m, rest);
        assert(seq![m] + ms.skip(1) =~= ms);
    }
}

/// The container round trip at the whole-file level: the serialization
/// of well-formed records opens with the signature and parses back to
/// exactly those records, so re-serializing the parse result
/// reproduces the same bytes.
pub proof fn lemma_png_round_trip(ms: Seq<ChunkModel>)
    requires
        chunks_wf(ms),
    ensures
        ser_png(ms).len() >= 8,
        ser_png(ms).subrange(0, 8) == spec_signature(),
        chunks_parse_ok(ser_png(ms).skip(8)),
        parsed_chunks(ser_png(ms).skip(8)) == ms,
{
    assert(ser_png(ms).subrange(0, 8) =~= spec_signature());
    assert(ser_png(ms).skip(8) =~= ser_chunks(ms));
    lemma_chunks_serialize_parse(ms);
}

/// Appending a record whose tag no existing record carries makes that
/// record the one a lookup by its tag finds.
pub proof fn lemma_append_find(ms: Seq<ChunkModel>, m: ChunkModel)
    requires
        first_match(ms, m.tag) is None,
    ensures
        first_match(ms.push(m), m.tag) == Some(ms.len() as int),
        ms.push(m)[ms.len() as int] == m,
{
    lemma_first_match_characterization(ms, m.tag);
    assert forall|j: int| 0 <= j < ms.len() implies !tag_matches(#[trigger] ms.push(m)[j], m.tag) by {
        assert(ms.push(m)[j] == ms[j]);
    }
    assert(tag_matches(ms.push(m)[ms.len() as int], m.tag));
    lemma_first_match_at(ms.push(m), m.tag, ms.len() as int);
}

/// Removing the earliest match leaves every other record in order: a
/// later lookup finds nothing if no other record matched, and finds
/// the next-earliest match — shifted one place forward — if one did.
pub proof fn lemma_remove_first_match(ms: Seq<ChunkModel>, t: Seq<u8>)
    requires
        first_match(ms, t) is Some,
    ensures
        ({
            let i = first_match(ms, t)->Some_0;
            let rest = ms.remove(i);
            &&& (forall|j: int| i < j < ms.len() ==> !tag_matches(#[trigger] ms[j], t))
                ==> first_match(rest, t) is None
            &&& (forall|j: int|
                i < j < ms.len() && tag_matches(#[trigger] ms[j], t) && (forall|k: int|
                    i < k < j ==> !tag_matches(#[trigger] ms[k], t)) ==> first_match(rest, t)
                    == Some(j - 1) && rest[j - 1] == ms[j])
        }),
{
    lemma_first_match_characterization(ms, t);
    let i = first_match(ms, t)->Some_0;
    let rest = ms.remove(i);
    assert(rest.len() == ms.len() - 1);
    assert(forall|p: int| 0 <= p < i ==> rest[p] == ms[p]);
    assert(forall|p: int| i <= p < rest.len() ==> rest[p] == ms[p + 1]);
    if forall|j: int| i < j < ms.len() ==> !tag_matches(#[trigger] ms[j], t) {
        assert forall|p: int| 0 <= p < rest.len() implies !tag_matches(#[trigger] rest[p], t) by {
            if p < i {
                assert(rest[p] == ms[p]);
            } else {
                assert(rest[p] == ms[p + 1]);
                assert(!tag_matches(ms[p + 1], t));
            }
        }
        lemma_first_match_none(rest, t);
    }
    assert forall|j: int|
        i < j < ms.len() && tag_matches(#[trigger] ms[j], t) && (forall|k: int|
            i < k < j ==> !tag_matches(#[trigger] ms[k], t)) implies first_match(rest, t) == Some(
        j - 1,
    ) && rest[j - 1] == ms[j] by {
        assert(rest[j - 1] == ms[j]);
        assert forall|p: int| 0 <= p < j - 1 implies !tag_matches(#[trigger] rest[p], t) by {
            if p < i {
                assert(rest[p] == ms[p]);
            } else {
                assert(rest[p] == ms[p + 1]);
                assert(i < p + 1 < j);
            }
        }
        lemma_first_match_at(rest, t, j - 1);
    }
}

} // verus!
