//! The container: a fixed 8-byte signature followed by an ordered
//! sequence of chunks.
//!
//! A container is created by parsing a complete byte buffer or by
//! starting empty and appending chunks; it serializes back to the
//! signature followed by each chunk's bytes in sequence order. Lookup and
//! removal work on the first chunk whose type tag matches; duplicates are
//! allowed and order is meaningful.

use vstd::prelude::*;
use vstd::slice::slice_subrange;
use vstd::string::StringSliceAdditionalSpecFns;

use crate::chunk::spec_parse;
use crate::chunk::spec_serialize;
use crate::chunk::Chunk;
use crate::chunk::ChunkError;
use crate::chunk::ChunkView;
use crate::chunk_type::ChunkType;

verus! {

broadcast use crate::big_endian::lemma_be_bytes_len;

/// Errors from parsing or editing a container.
#[derive(Debug, Clone, Copy, PartialEq, Eq)]
pub enum PngError {
    /// The buffer does not begin with the fixed 8-byte signature.
    InvalidSignature,
    /// No chunk with the requested type exists.
    NotFoundChunk,
    /// A chunk failed to parse; the cause is preserved.
    Chunk(ChunkError),
}

/// The fixed 8-byte signature that begins every serialized container.
pub open spec fn spec_signature() -> Seq<u8> {
    seq![137u8, 80u8, 78u8, 71u8, 13u8, 10u8, 26u8, 10u8]
}

/// The signature as bytes.
pub fn signature() -> (r: Vec<u8>)
    ensures
        r@ == spec_signature(),
{
    let mut v: Vec<u8> = Vec::new();
    v.push(137);
    v.push(80);
    v.push(78);
    v.push(71);
    v.push(13);
    v.push(10);
    v.push(26);
    v.push(10);
    assert(v@ =~= spec_signature());
    v
}

/// Parses a sequence of chunks from `b` until it is exhausted: either
/// every byte belongs to some chunk and all of them parse, or the first
/// violation is reported.
pub open spec fn spec_parse_chunks(b: Seq<u8>) -> Result<Seq<ChunkView>, ChunkError>
    decreases b.len(),
{
    if b.len() == 0 {
        Ok(Seq::empty())
    } else {
        match spec_parse(b) {
            Err(e) => Err(e),
            Ok(v) => match spec_parse_chunks(b.skip(12 + v.data.len() as int)) {
                Err(e) => Err(e),
                Ok(rest) => Ok(seq![v] + rest),
            },
        }
    }
}

/// One step of chunk-sequence parsing: with a chunk at the front, the
/// parse of the whole buffer equals the parse of the remainder with that
/// chunk prepended.
proof fn lemma_parse_chunks_step(b: Seq<u8>, v: ChunkView)
    requires
        b.len() > 0,
        spec_parse(b) == Ok::<ChunkView, ChunkError>(v),
    ensures
        spec_parse_chunks(b) == (match spec_parse_chunks(b.skip(12 + v.data.len() as int)) {
            Ok(rest) => Ok::<Seq<ChunkView>, ChunkError>(seq![v] + rest),
            Err(e) => Err::<Seq<ChunkView>, ChunkError>(e),
        }),
{
}

/// Parsing a container: the fixed signature, then chunks until the
/// buffer is exhausted. Whole-or-nothing: a failing chunk fails the
/// container, with the cause preserved.
pub open spec fn spec_parse_png(b: Seq<u8>) -> Result<Seq<ChunkView>, PngError> {
    if b.len() < 8 || b.subrange(0, 8) != spec_signature() {
        Err(PngError::InvalidSignature)
    } else {
        match spec_parse_chunks(b.skip(8)) {
            Err(e) => Err(PngError::Chunk(e)),
            Ok(s) => Ok(s),
        }
    }
}

/// The serialization of a sequence of chunks, concatenated in order.
pub open spec fn spec_serialize_chunks(s: Seq<ChunkView>) -> Seq<u8>
    decreases s.len(),
{
    if s.len() == 0 {
        Seq::empty()
    } else {
        spec_serialize(s[0]) + spec_serialize_chunks(s.drop_first())
    }
}

/// The serialization of a container: the signature, then each chunk in
/// order.
pub open spec fn spec_serialize_png(s: Seq<ChunkView>) -> Seq<u8> {
    spec_signature() + spec_serialize_chunks(s)
}

/// Serializing a sequence with one chunk appended adds that chunk's
/// bytes at the end.
pub proof fn lemma_serialize_chunks_snoc(s: Seq<ChunkView>, v: ChunkView)
    ensures
        spec_serialize_chunks(s.push(v)) == spec_serialize_chunks(s) + spec_serialize(v),
    decreases s.len(),
{
    if s.len() == 0 {
        assert(s.push(v).drop_first() =~= s);
        assert(s.push(v)[0] == v);
        assert(spec_serialize_chunks(s) == Seq::<u8>::empty());
        assert(spec_serialize_chunks(s.push(v)) =~= spec_serialize_chunks(s) + spec_serialize(v));
    } else {
        assert(s.push(v).drop_first() =~= s.drop_first().push(v));
        lemma_serialize_chunks_snoc(s.drop_first(), v);
        assert(s.push(v)[0] == s[0]);
        assert(spec_serialize(s[0]) + (spec_serialize_chunks(s.drop_first()) + spec_serialize(v))
            =~= (spec_serialize(s[0]) + spec_serialize_chunks(s.drop_first())) + spec_serialize(
            v,
        ));
    }
}

/// The index of the first chunk in `s` whose type tag equals `code`.
pub open spec fn spec_find_idx(s: Seq<ChunkView>, code: Seq<u8>) -> Option<int>
    decreases s.len(),
{
    if s.len() == 0 {
        None
    } else if s[0].type_code == code {
        Some(0int)
    } else {
        match spec_find_idx(s.drop_first(), code) {
            None => None,
            Some(j) => Some(j + 1),
        }
    }
}

/// What the first-match index means: the chunk at the index matches and
/// no earlier one does; absence of an index means nothing matches.
pub proof fn lemma_find_idx(s: Seq<ChunkView>, code: Seq<u8>)
    ensures
        match spec_find_idx(s, code) {
            Some(i) => 0 <= i < s.len() && s[i].type_code == code && forall|j: int|
                0 <= j < i ==> (#[trigger] s[j]).type_code != code,
            None => forall|j: int| 0 <= j < s.len() ==> (#[trigger] s[j]).type_code != code,
        },
    decreases s.len(),
{
    if s.len() != 0 && s[0].type_code != code {
        let t = s.drop_first();
        lemma_find_idx(t, code);
        assert(forall|j: int| 0 <= j < t.len() ==> #[trigger] t[j] == s[j + 1]);
        match spec_find_idx(t, code) {
            Some(j) => {
                assert(spec_find_idx(s, code) == Some(j + 1));
                assert(s[j + 1] == t[j]);
                assert forall|k: int| 0 <= k < j + 1 implies (#[trigger] s[k]).type_code
                    != code by {
                    if k > 0 {
                        assert(s[k] == t[k - 1]);
                    }
                }
            },
            None => {
                assert forall|k: int| 0 <= k < s.len() implies (#[trigger] s[k]).type_code
                    != code by {
                    if k > 0 {
                        assert(s[k] == t[k - 1]);
                    }
                }
            },
        }
    }
}

/// The first-match index is `i` exactly when the chunk at `i` matches
/// and no earlier chunk does.
pub proof fn lemma_find_idx_first(s: Seq<ChunkView>, code: Seq<u8>, i: int)
    requires
        0 <= i < s.len(),
        s[i].type_code == code,
        forall|j: int| 0 <= j < i ==> (#[trigger] s[j]).type_code != code,
    ensures
        spec_find_idx(s, code) == Some(i),
    decreases i,
{
    if i != 0 {
        assert(forall|j: int| 0 <= j < s.len() - 1 ==> #[trigger] s.drop_first()[j] == s[j + 1]);
        lemma_find_idx_first(s.drop_first(), code, i - 1);
    }
}

/// When no chunk matches, there is no first-match index.
pub proof fn lemma_find_idx_none(s: Seq<ChunkView>, code: Seq<u8>)
    requires
        forall|j: int| 0 <= j < s.len() ==> (#[trigger] s[j]).type_code != code,
    ensures
        spec_find_idx(s, code) is None,
    decreases s.len(),
{
    if s.len() != 0 {
        assert(forall|j: int| 0 <= j < s.len() - 1 ==> #[trigger] s.drop_first()[j] == s[j + 1]);
        lemma_find_idx_none(s.drop_first(), code);
    }
}

/// True when the four bytes of `t` equal the bytes of `target`.
fn tag_matches(t: &ChunkType, target: &[u8]) -> (r: bool)
    ensures
        r == (t@ == target@),
{
    broadcast use crate::chunk_type::lemma_chunk_type_len;

    if target.len() != 4 {
        return false;
    }
    let b = t.bytes();
    let r = b[0] == target[0] && b[1] == target[1] && b[2] == target[2] && b[3] == target[3];
    proof {
        if r {
            assert(t@ =~= target@);
        } else {
            if t@ == target@ {
                assert(b@[0] == target@[0] && b@[1] == target@[1] && b@[2] == target@[2] && b@[3]
                    == target@[3]);
            }
        }
    }
    r
}

/// A container: the fixed signature plus an ordered sequence of chunks.
pub struct Png {
    chunks: Vec<Chunk>,
}

impl View for Png {
    type V = Seq<ChunkView>;

    closed spec fn view(&self) -> Seq<ChunkView> {
        self.chunks@.map_values(|c: Chunk| c@)
    }
}

impl Png {
    /// Every chunk in the container is well formed.
    pub open spec fn wf(&self) -> bool {
        forall|i: int| 0 <= i < self@.len() ==> (#[trigger] self@[i]).wf()
    }

    /// An empty container: the signature and no chunks.
    pub fn new() -> (p: Png)
        ensures
            p@ == Seq::<ChunkView>::empty(),
            p.wf(),
    {
        let p = Png { chunks: Vec::new() };
        assert(p@ =~= Seq::<ChunkView>::empty());
        p
    }

    /// Parses a whole buffer: the signature, then chunks until the buffer
    /// is exhausted. Either the whole parse succeeds or the first
    /// violation is reported and no container is produced.
    pub fn parse(buf: &[u8]) -> (r: Result<Png, PngError>)
        ensures
            match r {
                Ok(p) => spec_parse_png(buf@) == Ok::<Seq<ChunkView>, PngError>(p@) && p.wf(),
                Err(e) => spec_parse_png(buf@) == Err::<Seq<ChunkView>, PngError>(e),
            },
    {
        let buf_len = buf.len();
        if buf_len < 8 {
            return Err(PngError::InvalidSignature);
        }
        if buf[0] != 137 || buf[1] != 80 || buf[2] != 78 || buf[3] != 71 || buf[4] != 13 || buf[5]
            != 10 || buf[6] != 26 || buf[7] != 10 {
            proof {
                if buf@.subrange(0, 8) == spec_signature() {
                    assert(forall|k: int|
                        0 <= k < 8 ==> #[trigger] buf@[k] == spec_signature()[k]) by {
                        assert(forall|k: int|
                            0 <= k < 8 ==> #[trigger] buf@.subrange(0, 8)[k] == buf@[k]);
                    }
                }
            }
            return Err(PngError::InvalidSignature);
        }
        proof {
            assert(buf@.subrange(0, 8) =~= spec_signature());
        }
        let mut chunks: Vec<Chunk> = Vec::new();
        let mut cursor: usize = 8;
        while cursor < buf_len
            invariant
                8 <= cursor <= buf_len,
                buf_len == buf@.len(),
                buf@.subrange(0, 8) == spec_signature(),
                forall|i: int| 0 <= i < chunks@.len() ==> (#[trigger] chunks@[i]@).wf(),
                spec_parse_chunks(buf@.skip(8)) == (match spec_parse_chunks(
                    buf@.skip(cursor as int),
                ) {
                    Ok(rest) => Ok::<Seq<ChunkView>, ChunkError>(
                        chunks@.map_values(|c: Chunk| c@) + rest,
                    ),
                    Err(e) => Err::<Seq<ChunkView>, ChunkError>(e),
                }),
            decreases buf_len - cursor,
        {
            let window = slice_subrange(buf, cursor, buf_len);
            proof {
                assert(window@ =~= buf@.skip(cursor as int));
            }
            let c = match Chunk::parse(window) {
                Err(e) => {
                    proof {
                        assert(buf@.skip(cursor as int).len() > 0);
                        assert(spec_parse_chunks(buf@.skip(cursor as int))
                            == Err::<Seq<ChunkView>, ChunkError>(e));
                    }
                    return Err(PngError::Chunk(e));
                },
                Ok(c) => c,
            };
            let length = c.length();
            proof {
                assert(12 + c@.data.len() <= window@.len());
            }
            let consumed: usize = 12 + (length as usize);
            let ghost prev: int = cursor as int;
            let ghost prev_chunks: Seq<Chunk> = chunks@;
            chunks.push(c);
            cursor = cursor + consumed;
            proof {
                lemma_parse_chunks_step(buf@.skip(prev), c@);
                assert(buf@.skip(prev).skip(12 + c@.data.len() as int) =~= buf@.skip(
                    cursor as int,
                ));
                let old_map = prev_chunks.map_values(|cc: Chunk| cc@);
                let new_map = chunks@.map_values(|cc: Chunk| cc@);
                assert(new_map =~= old_map.push(c@));
                match spec_parse_chunks(buf@.skip(cursor as int)) {
                    Ok(rest) => {
                        assert(old_map + (seq![c@] + rest) =~= new_map + rest);
                    },
                    Err(_) => {},
                }
            }
        }
        proof {
            assert(buf@.skip(cursor as int) =~= Seq::<u8>::empty());
            assert(spec_parse_chunks(buf@.skip(cursor as int)) == Ok::<Seq<ChunkView>, ChunkError>(
                Seq::empty(),
            ));
            assert(chunks@.map_values(|c: Chunk| c@) + Seq::<ChunkView>::empty() =~= chunks@
                .map_values(|c: Chunk| c@));
        }
        let p = Png { chunks };
        proof {
            assert(forall|i: int| 0 <= i < p@.len() ==> (#[trigger] p@[i]).wf());
        }
        Ok(p)
    }

    /// Serializes the container: the signature, then every chunk's bytes
    /// in sequence order.
    pub fn as_bytes(&self) -> (r: Vec<u8>)
        ensures
            r@ == spec_serialize_png(self@),
    {
        let mut out = signature();
        let mut i: usize = 0;
        while i < self.chunks.len()
            invariant
                i <= self.chunks@.len(),
                self@.len() == self.chunks@.len(),
                self@ == self.chunks@.map_values(|c: Chunk| c@),
                out@ == spec_signature() + spec_serialize_chunks(self@.take(i as int)),
            decreases self.chunks@.len() - i,
        {
            let mut piece = self.chunks[i].as_bytes();
            out.append(&mut piece);
            proof {
                lemma_serialize_chunks_snoc(self@.take(i as int), self@[i as int]);
                assert(self@.take(i as int + 1) =~= self@.take(i as int).push(self@[i as int]));
                assert(out@ =~= spec_signature() + spec_serialize_chunks(self@.take(i as int + 1)));
            }
            i = i + 1;
        }
        proof {
            assert(self@.take(self@.len() as int) =~= self@);
        }
        out
    }

    /// Appends a chunk at the end of the sequence. Always succeeds; the
    /// sequence grows by exactly that chunk.
    pub fn append_chunk(&mut self, chunk: Chunk)
        ensures
            final(self)@ == old(self)@.push(chunk@),
            old(self).wf() && chunk@.wf() ==> final(self).wf(),
    {
        self.chunks.push(chunk);
        proof {
            assert(self@ =~= old(self)@.push(chunk@));
        }
    }

    /// Returns the first chunk, in sequence order, whose type tag equals
    /// the bytes of `chunk_type`, if any.
    pub fn chunk_by_type(&self, chunk_type: &str) -> (r: Option<&Chunk>)
        ensures
            match r {
                Some(c) => match spec_find_idx(self@, chunk_type.spec_bytes()) {
                    Some(i) => c@ == self@[i],
                    None => false,
                },
                None => spec_find_idx(self@, chunk_type.spec_bytes()) is None,
            },
    {
        let target = chunk_type.as_bytes();
        let mut i: usize = 0;
        while i < self.chunks.len()
            invariant
                i <= self.chunks@.len(),
                self@.len() == self.chunks@.len(),
                self@ == self.chunks@.map_values(|c: Chunk| c@),
                target@ == chunk_type.spec_bytes(),
                forall|j: int| 0 <= j < i ==> (#[trigger] self@[j]).type_code != target@,
            decreases self.chunks@.len() - i,
        {
            if tag_matches(self.chunks[i].chunk_type(), target) {
                proof {
                    lemma_find_idx_first(self@, target@, i as int);
                }
                return Some(&self.chunks[i]);
            }
            i = i + 1;
        }
        proof {
            lemma_find_idx_none(self@, target@);
        }
        None
    }

    /// Removes the first chunk whose type tag equals the bytes of
    /// `chunk_type` and returns it; fails with `NotFoundChunk`, leaving
    /// the sequence unchanged, when no chunk matches.
    pub fn remove_chunk(&mut self, chunk_type: &str) -> (r: Result<Chunk, PngError>)
        ensures
            match r {
                Ok(c) => match spec_find_idx(old(self)@, chunk_type.spec_bytes()) {
                    Some(i) => c@ == old(self)@[i] && final(self)@ == old(self)@.remove(i),
                    None => false,
                },
                Err(e) => e == PngError::NotFoundChunk && spec_find_idx(
                    old(self)@,
                    chunk_type.spec_bytes(),
                ) is None && final(self)@ == old(self)@,
            },
            old(self).wf() ==> final(self).wf(),
    {
        let target = chunk_type.as_bytes();
        let mut i: usize = 0;
        while i < self.chunks.len()
            invariant
                i <= self.chunks@.len(),
                self@.len() == self.chunks@.len(),
                self@ == self.chunks@.map_values(|c: Chunk| c@),
                self == old(self),
                target@ == chunk_type.spec_bytes(),
                forall|j: int| 0 <= j < i ==> (#[trigger] self@[j]).type_code != target@,
            decreases self.chunks@.len() - i,
        {
            if tag_matches(self.chunks[i].chunk_type(), target) {
                proof {
                    lemma_find_idx_first(self@, target@, i as int);
                }
                let removed = self.chunks.remove(i);
                proof {
                    assert(self@ =~= old(self)@.remove(i as int));
                }
                return Ok(removed);
            }
            i = i + 1;
        }
        proof {
            lemma_find_idx_none(self@, target@);
        }
        Err(PngError::NotFoundChunk)
    }

    /// A read-only view of the ordered chunk sequence.
    pub fn chunks(&self) -> (r: &Vec<Chunk>)
        ensures
            r@.map_values(|c: Chunk| c@) == self@,
    {
        &self.chunks
    }
}

/// Parsing the serialization of any sequence of well-formed chunks yields
/// back the same sequence.
pub proof fn lemma_parse_serialize_chunks(s: Seq<ChunkView>)
    requires
        forall|i: int| 0 <= i < s.len() ==> (#[trigger] s[i]).wf(),
    ensures
        spec_parse_chunks(spec_serialize_chunks(s)) == Ok::<Seq<ChunkView>, ChunkError>(s),
    decreases s.len(),
{
    if s.len() == 0 {
        assert(s =~= Seq::<ChunkView>::empty());
        assert(spec_serialize_chunks(s) == Seq::<u8>::empty());
        assert(spec_parse_chunks(spec_serialize_chunks(s)) == Ok::<Seq<ChunkView>, ChunkError>(s));
    } else {
        let b = spec_serialize_chunks(s);
        let rest_bytes = spec_serialize_chunks(s.drop_first());
        crate::chunk::lemma_parse_serialize_prefix(s[0], rest_bytes);
        assert(spec_serialize(s[0]).len() == 12 + s[0].data.len());
        assert(b.len() > 0);
        assert(b.skip(12 + s[0].data.len() as int) =~= rest_bytes);
        assert(forall|j: int| 0 <= j < s.len() - 1 ==> #[trigger] s.drop_first()[j] == s[j + 1]);
        lemma_parse_serialize_chunks(s.drop_first());
        lemma_parse_chunks_step(b, s[0]);
        assert(seq![s[0]] + s.drop_first() =~= s);
    }
}

/// Container round trip: parsing the serialization of a container built
/// from well-formed chunks reproduces the same ordered sequence.
pub proof fn lemma_png_round_trip(s: Seq<ChunkView>)
    requires
        forall|i: int| 0 <= i < s.len() ==> (#[trigger] s[i]).wf(),
    ensures
        spec_parse_png(spec_serialize_png(s)) == Ok::<Seq<ChunkView>, PngError>(s),
{
    let b = spec_serialize_png(s);
    assert(b.subrange(0, 8) =~= spec_signature());
    assert(b.skip(8) =~= spec_serialize_chunks(s));
    lemma_parse_serialize_chunks(s);
}

/// Appending a chunk to a container that has no chunk of its type makes
/// it the chunk that a subsequent lookup of that type finds.
pub proof fn lemma_append_then_find(s: Seq<ChunkView>, v: ChunkView)
    requires
        spec_find_idx(s, v.type_code) is None,
    ensures
        spec_find_idx(s.push(v), v.type_code) == Some(s.len() as int),
        s.push(v)[s.len() as int] == v,
{
    lemma_find_idx(s, v.type_code);
    assert(forall|j: int| 0 <= j < s.len() ==> #[trigger] s.push(v)[j] == s[j]);
    lemma_find_idx_first(s.push(v), v.type_code, s.len() as int);
}

} // verus!
