//! The chunk codec with a flat error surface.
//!
//! Same byte layout and framing as [`crate::chunk`], but every failure is
//! reported as one of five self-contained kinds instead of nesting the
//! type-tag error inside the chunk error.

use vstd::prelude::*;
use vstd::utf8::decode_utf8;
use vstd::utf8::valid_utf8;

use crate::chunk;
use crate::chunk::spec_serialize;
use crate::chunk::ChunkView;
use crate::chunk_type::ChunkType;

verus! {

/// Errors from parsing or decoding a chunk, as one flat tagged union.
#[derive(Debug, Clone, Copy, PartialEq, Eq)]
pub enum IntoChunkError {
    /// The payload is not valid UTF-8 text.
    InvalidByteToString,
    /// Fewer than four length bytes remain, or the payload is truncated.
    InvalidLength,
    /// The type tag could not be constructed.
    InvalidChunkType,
    /// Fewer than four checksum bytes remain after the payload.
    InvalidCrc,
    /// The stored checksum disagrees with the one computed from the bytes.
    MismatchCrc,
}

/// Maps the nested chunk error onto the flat kinds: both type-tag
/// failures collapse into `InvalidChunkType`, and a text-conversion
/// failure into `InvalidByteToString`.
pub open spec fn spec_flatten_error(e: chunk::ChunkError) -> IntoChunkError {
    match e {
        chunk::ChunkError::Conversion => IntoChunkError::InvalidByteToString,
        chunk::ChunkError::InvalidLength => IntoChunkError::InvalidLength,
        chunk::ChunkError::InvalidCrc => IntoChunkError::InvalidCrc,
        chunk::ChunkError::MismatchCrc => IntoChunkError::MismatchCrc,
        chunk::ChunkError::ChunkType(_) => IntoChunkError::InvalidChunkType,
    }
}

/// Parsing with flat errors: the same framing as `chunk::spec_parse`,
/// with each failure mapped by `spec_flatten_error`.
pub open spec fn spec_parse_flat(b: Seq<u8>) -> Result<ChunkView, IntoChunkError> {
    match chunk::spec_parse(b) {
        Ok(v) => Ok(v),
        Err(e) => Err(spec_flatten_error(e)),
    }
}

fn flatten_error(e: chunk::ChunkError) -> (r: IntoChunkError)
    ensures
        r == spec_flatten_error(e),
{
    match e {
        chunk::ChunkError::Conversion => IntoChunkError::InvalidByteToString,
        chunk::ChunkError::InvalidLength => IntoChunkError::InvalidLength,
        chunk::ChunkError::InvalidCrc => IntoChunkError::InvalidCrc,
        chunk::ChunkError::MismatchCrc => IntoChunkError::MismatchCrc,
        chunk::ChunkError::ChunkType(_) => IntoChunkError::InvalidChunkType,
    }
}

/// One framed chunk, reporting failures through the flat error kinds.
pub struct Chunk {
    inner: chunk::Chunk,
}

impl View for Chunk {
    type V = ChunkView;

    closed spec fn view(&self) -> ChunkView {
        self.inner@
    }
}

impl Chunk {
    /// Builds a chunk from a type tag and a payload, computing the
    /// declared length and the checksum. Always succeeds.
    pub fn new(chunk_type: ChunkType, data: Vec<u8>) -> (c: Chunk)
        requires
            data@.len() <= u32::MAX,
        ensures
            c@.length == data@.len(),
            c@.type_code == chunk_type@,
            c@.data == data@,
            c@.crc == crate::checksum::crc32_iso_hdlc(chunk_type@ + data@),
            chunk_type.wf() ==> c@.wf(),
    {
        Chunk { inner: chunk::Chunk::new(chunk_type, data) }
    }

    /// The declared length of the payload.
    pub fn length(&self) -> (r: u32)
        ensures
            r == self@.length,
    {
        self.inner.length()
    }

    /// The chunk's type tag.
    pub fn chunk_type(&self) -> (r: &ChunkType)
        ensures
            r@ == self@.type_code,
    {
        self.inner.chunk_type()
    }

    /// The payload bytes.
    pub fn data(&self) -> (r: &[u8])
        ensures
            r@ == self@.data,
    {
        self.inner.data()
    }

    /// The stored checksum.
    pub fn crc(&self) -> (r: u32)
        ensures
            r == self@.crc,
    {
        self.inner.crc()
    }

    /// Decodes the payload as UTF-8 text; fails with
    /// `InvalidByteToString` exactly when the payload is not valid UTF-8.
    pub fn data_as_string(&self) -> (r: Result<String, IntoChunkError>)
        ensures
            match r {
                Ok(s) => valid_utf8(self@.data) && s@ == decode_utf8(self@.data),
                Err(e) => e == IntoChunkError::InvalidByteToString && !valid_utf8(self@.data),
            },
    {
        match self.inner.data_as_string() {
            Ok(s) => Ok(s),
            Err(_) => Err(IntoChunkError::InvalidByteToString),
        }
    }

    /// Serializes the chunk: length, type, payload, checksum.
    pub fn as_bytes(&self) -> (r: Vec<u8>)
        ensures
            r@ == spec_serialize(self@),
    {
        self.inner.as_bytes()
    }

    /// Parses one chunk from the front of `buf`, ignoring any bytes after
    /// it. Succeeds exactly when the framing is intact and the stored
    /// checksum equals the recomputed one.
    pub fn parse(buf: &[u8]) -> (r: Result<Chunk, IntoChunkError>)
        ensures
            match r {
                Ok(c) => spec_parse_flat(buf@) == Ok::<ChunkView, IntoChunkError>(c@) && c@.wf(),
                Err(e) => spec_parse_flat(buf@) == Err::<ChunkView, IntoChunkError>(e),
            },
    {
        match chunk::Chunk::parse(buf) {
            Ok(c) => Ok(Chunk { inner: c }),
            Err(e) => Err(flatten_error(e)),
        }
    }
}

/// Round trip: serializing any well-formed chunk and parsing the result
/// with the flat-error parser yields the same chunk.
pub proof fn lemma_chunk_round_trip_flat(v: ChunkView)
    requires
        v.wf(),
    ensures
        spec_parse_flat(spec_serialize(v)) == Ok::<ChunkView, IntoChunkError>(v),
{
    chunk::lemma_chunk_round_trip(v);
}

} // verus!
