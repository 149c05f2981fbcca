//! A single framed chunk: declared length, type tag, payload, checksum.
//!
//! A chunk owns parsing itself from the front of a byte window and
//! serializing itself back to bytes. The byte layout is
//! `length (4 bytes, big-endian) , type (4 bytes) , data (length bytes) ,
//! checksum (4 bytes, big-endian)`, and the checksum is the
//! CRC-32/ISO-HDLC of the type bytes followed by the payload.

use vstd::prelude::*;
use vstd::utf8::decode_utf8;
use vstd::utf8::valid_utf8;

use crate::big_endian::be_bytes_of_u32;
use crate::big_endian::lemma_be_bytes_len;
use crate::big_endian::lemma_u32_be_round_trip;
use crate::big_endian::lemma_u32_of_be_bytes_injective;
use crate::big_endian::push_be_u32;
use crate::big_endian::read_be_u32;
use crate::big_endian::u32_of_be_bytes;
use crate::checksum::crc32_checksum;
use crate::checksum::crc32_iso_hdlc;
use crate::chunk_type::all_letters;
use crate::chunk_type::lemma_chunk_type_len;
use crate::chunk_type::ChunkType;
use crate::chunk_type::ChunkTypeError;

verus! {

broadcast use lemma_chunk_type_len, lemma_be_bytes_len;

/// Errors from parsing or decoding a chunk.
#[derive(Debug, Clone, Copy, PartialEq, Eq)]
pub enum ChunkError {
    /// The payload is not valid UTF-8 text.
    Conversion,
    /// Fewer than four length bytes remain, or the payload is truncated.
    InvalidLength,
    /// Fewer than four checksum bytes remain after the payload.
    InvalidCrc,
    /// The stored checksum disagrees with the one computed from the bytes.
    MismatchCrc,
    /// The type tag could not be constructed.
    ChunkType(ChunkTypeError),
}

/// The mathematical content of a chunk.
#[verifier::ext_equal]
pub ghost struct ChunkView {
    pub length: u32,
    pub type_code: Seq<u8>,
    pub data: Seq<u8>,
    pub crc: u32,
}

impl ChunkView {
    /// A chunk is well formed when its type tag is four ASCII letters,
    /// its declared length equals its payload size, and its checksum is
    /// the CRC-32/ISO-HDLC of type tag and payload.
    pub open spec fn wf(self) -> bool {
        &&& self.type_code.len() == 4
        &&& all_letters(self.type_code)
        &&& self.length == self.data.len()
        &&& self.crc == crc32_iso_hdlc(self.type_code + self.data)
    }
}

/// The serialized bytes of a chunk: big-endian length, four type bytes,
/// payload, big-endian checksum.
pub open spec fn spec_serialize(v: ChunkView) -> Seq<u8> {
    be_bytes_of_u32(v.length) + v.type_code + v.data + be_bytes_of_u32(v.crc)
}

/// Parsing a chunk from the front of `b`, step by step: four length
/// bytes, four type bytes, `length` payload bytes, four checksum bytes,
/// then the checksum comparison. The first violation wins; bytes after
/// the chunk are ignored.
pub open spec fn spec_parse(b: Seq<u8>) -> Result<ChunkView, ChunkError> {
    if b.len() < 4 {
        Err(ChunkError::InvalidLength)
    } else {
        let length = u32_of_be_bytes(b.subrange(0, 4));
        if b.len() < 8 {
            Err(ChunkError::ChunkType(ChunkTypeError::InvalidLen))
        } else if !all_letters(b.subrange(4, 8)) {
            Err(ChunkError::ChunkType(ChunkTypeError::InvalidFormat))
        } else if b.len() < 8 + length {
            Err(ChunkError::InvalidLength)
        } else if b.len() < 12 + length {
            Err(ChunkError::InvalidCrc)
        } else {
            let type_code = b.subrange(4, 8);
            let data = b.subrange(8, 8 + length as int);
            let stored = u32_of_be_bytes(b.subrange(8 + length as int, 12 + length as int));
            if stored != crc32_iso_hdlc(type_code + data) {
                Err(ChunkError::MismatchCrc)
            } else {
                Ok(ChunkView { length, type_code, data, crc: stored })
            }
        }
    }
}

/// One framed chunk. `new` and `parse` are the only constructors; both
/// establish well-formedness of the view.
#[derive(Debug)]
pub struct Chunk {
    length: u32,
    chunk_type: ChunkType,
    data: Vec<u8>,
    crc: u32,
}

impl View for Chunk {
    type V = ChunkView;

    closed spec fn view(&self) -> ChunkView {
        ChunkView {
            length: self.length,
            type_code: self.chunk_type@,
            data: self.data@,
            crc: self.crc,
        }
    }
}

impl Chunk {
    /// Builds a chunk from a type tag and a payload, computing the
    /// declared length and the checksum. Always succeeds.
    pub fn new(chunk_type: ChunkType, data: Vec<u8>) -> (c: Chunk)
        requires
            data@.len() <= u32::MAX,
        ensures
            c@.length == data@.len(),
            c@.type_code == chunk_type@,
            c@.data == data@,
            c@.crc == crc32_iso_hdlc(chunk_type@ + data@),
            chunk_type.wf() ==> c@.wf(),
    {
        let type_bytes = chunk_type.bytes();
        let mut type_and_data: Vec<u8> = Vec::new();
        type_and_data.push(type_bytes[0]);
        type_and_data.push(type_bytes[1]);
        type_and_data.push(type_bytes[2]);
        type_and_data.push(type_bytes[3]);
        assert(type_and_data@ =~= chunk_type@);
        let mut i: usize = 0;
        while i < data.len()
            invariant
                i <= data@.len(),
                type_and_data@ == chunk_type@ + data@.subrange(0, i as int),
            decreases data@.len() - i,
        {
            type_and_data.push(data[i]);
            i = i + 1;
            assert(type_and_data@ =~= chunk_type@ + data@.subrange(0, i as int));
        }
        assert(type_and_data@ == chunk_type@ + data@);
        let crc = crc32_checksum(type_and_data.as_slice());
        Chunk { length: data.len() as u32, chunk_type, data, crc }
    }

    /// The declared length of the payload.
    pub fn length(&self) -> (r: u32)
        ensures
            r == self@.length,
    {
        self.length
    }

    /// The chunk's type tag.
    pub fn chunk_type(&self) -> (r: &ChunkType)
        ensures
            r@ == self@.type_code,
    {
        &self.chunk_type
    }

    /// The payload bytes.
    pub fn data(&self) -> (r: &[u8])
        ensures
            r@ == self@.data,
    {
        self.data.as_slice()
    }

    /// The stored checksum.
    pub fn crc(&self) -> (r: u32)
        ensures
            r == self@.crc,
    {
        self.crc
    }

    /// Decodes the payload as UTF-8 text; fails with `Conversion` exactly
    /// when the payload is not valid UTF-8.
    pub fn data_as_string(&self) -> (r: Result<String, ChunkError>)
        ensures
            match r {
                Ok(s) => valid_utf8(self@.data) && s@ == decode_utf8(self@.data),
                Err(e) => e == ChunkError::Conversion && !valid_utf8(self@.data),
            },
    {
        match crate::text::parse_utf8(self.data.as_slice()) {
            Some(s) => Ok(s.to_owned()),
            None => Err(ChunkError::Conversion),
        }
    }

    /// Serializes the chunk: length, type, payload, checksum.
    pub fn as_bytes(&self) -> (r: Vec<u8>)
        ensures
            r@ == spec_serialize(self@),
    {
        let mut out: Vec<u8> = Vec::new();
        push_be_u32(&mut out, self.length);
        let type_bytes = self.chunk_type.bytes();
        out.push(type_bytes[0]);
        out.push(type_bytes[1]);
        out.push(type_bytes[2]);
        out.push(type_bytes[3]);
        assert(out@ =~= be_bytes_of_u32(self@.length) + self@.type_code);
        let mut i: usize = 0;
        while i < self.data.len()
            invariant
                i <= self.data@.len(),
                out@ == be_bytes_of_u32(self@.length) + self@.type_code + self@.data.subrange(
                    0,
                    i as int,
                ),
            decreases self.data@.len() - i,
        {
            out.push(self.data[i]);
            i = i + 1;
            assert(out@ =~= be_bytes_of_u32(self@.length) + self@.type_code + self@.data.subrange(
                0,
                i as int,
            ));
        }
        push_be_u32(&mut out, self.crc);
        assert(out@ =~= spec_serialize(self@));
        out
    }

    /// Parses one chunk from the front of `buf`, ignoring any bytes after
    /// it. Succeeds exactly when the framing is intact and the stored
    /// checksum equals the recomputed one.
    pub fn parse(buf: &[u8]) -> (r: Result<Chunk, ChunkError>)
        ensures
            match r {
                Ok(c) => spec_parse(buf@) == Ok::<ChunkView, ChunkError>(c@) && c@.wf(),
                Err(e) => spec_parse(buf@) == Err::<ChunkView, ChunkError>(e),
            },
    {
        if buf.len() < 4 {
            return Err(ChunkError::InvalidLength);
        }
        let length = read_be_u32(buf, 0);
        if buf.len() < 8 {
            return Err(ChunkError::ChunkType(ChunkTypeError::InvalidLen));
        }
        let type_arr: [u8; 4] = [buf[4], buf[5], buf[6], buf[7]];
        assert(type_arr@ =~= buf@.subrange(4, 8));
        let chunk_type = match ChunkType::from_bytes(type_arr) {
            Ok(t) => t,
            Err(_) => {
                return Err(ChunkError::ChunkType(ChunkTypeError::InvalidFormat));
            },
        };
        if (buf.len() as u64) < 8u64 + (length as u64) {
            return Err(ChunkError::InvalidLength);
        }
        if (buf.len() as u64) < 12u64 + (length as u64) {
            return Err(ChunkError::InvalidCrc);
        }
        let len_usize = length as usize;
        let buf_len = buf.len();
        let mut data: Vec<u8> = Vec::new();
        let mut i: usize = 0;
        while i < len_usize
            invariant
                i <= len_usize,
                buf_len == buf@.len(),
                8 + len_usize <= buf_len,
                data@ == buf@.subrange(8, 8 + i as int),
            decreases len_usize - i,
        {
            data.push(buf[8 + i]);
            i = i + 1;
            assert(data@ =~= buf@.subrange(8, 8 + i as int));
        }
        let stored = read_be_u32(buf, 8 + len_usize);
        let chunk = Chunk::new(chunk_type, data);
        if chunk.crc != stored {
            return Err(ChunkError::MismatchCrc);
        }
        assert(spec_parse(buf@) == Ok::<ChunkView, ChunkError>(chunk@)) by {
            assert(spec_parse(buf@) matches Ok(v) && v =~= chunk@);
        }
        Ok(chunk)
    }
}

/// Parsing the serialization of a well-formed chunk, followed by any
/// trailing bytes, succeeds and yields exactly that chunk.
pub proof fn lemma_parse_serialize_prefix(v: ChunkView, extra: Seq<u8>)
    requires
        v.wf(),
    ensures
        spec_parse(spec_serialize(v) + extra) == Ok::<ChunkView, ChunkError>(v),
{
    let b = spec_serialize(v) + extra;
    let len = v.length as int;
    assert(b.subrange(0, 4) =~= be_bytes_of_u32(v.length));
    lemma_u32_be_round_trip(v.length);
    assert(b.subrange(4, 8) =~= v.type_code);
    assert(b.subrange(8, 8 + len) =~= v.data);
    assert(b.subrange(8 + len, 12 + len) =~= be_bytes_of_u32(v.crc));
    lemma_u32_be_round_trip(v.crc);
    assert(spec_parse(b) matches Ok(w) && w =~= v);
}

/// Round trip: serializing any well-formed chunk and parsing the result
/// yields a chunk equal in all fields to the original.
pub proof fn lemma_chunk_round_trip(v: ChunkView)
    requires
        v.wf(),
    ensures
        spec_parse(spec_serialize(v)) == Ok::<ChunkView, ChunkError>(v),
{
    assert(spec_serialize(v) + Seq::<u8>::empty() =~= spec_serialize(v));
    lemma_parse_serialize_prefix(v, Seq::empty());
}

/// Corrupting any byte in the checksum region of a serialized well-formed
/// chunk makes parsing fail with `MismatchCrc`.
pub proof fn lemma_checksum_corruption(v: ChunkView, b: Seq<u8>, i: int)
    requires
        v.wf(),
        b.len() == spec_serialize(v).len(),
        8 + v.data.len() <= i < 12 + v.data.len(),
        b[i] != spec_serialize(v)[i],
        forall|j: int| 0 <= j < b.len() && j != i ==> b[j] == spec_serialize(v)[j],
    ensures
        spec_parse(b) == Err::<ChunkView, ChunkError>(ChunkError::MismatchCrc),
{
    let s = spec_serialize(v);
    let len = v.length as int;
    assert(b.subrange(0, 4) =~= be_bytes_of_u32(v.length));
    lemma_u32_be_round_trip(v.length);
    assert(b.subrange(4, 8) =~= v.type_code);
    assert(b.subrange(8, 8 + len) =~= v.data);
    let w = b.subrange(8 + len, 12 + len);
    let stored = u32_of_be_bytes(w);
    assert(w[i - (8 + len)] != be_bytes_of_u32(v.crc)[i - (8 + len)]);
    assert(w != be_bytes_of_u32(v.crc));
    if stored == v.crc {
        lemma_u32_be_round_trip(v.crc);
        lemma_u32_of_be_bytes_injective(w, be_bytes_of_u32(v.crc));
        assert(false);
    }
    assert(spec_parse(b) == Err::<ChunkView, ChunkError>(ChunkError::MismatchCrc));
}

} // verus!
