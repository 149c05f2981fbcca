//! A codec for a chunk-based binary container format in the style of PNG.
//!
//! A byte buffer is parsed into an ordered, validated sequence of typed
//! records (chunks), the sequence can be mutated (append, remove, lookup by
//! type), and it serializes back to bytes in the exact original layout.
//! Every operation is specified against a mathematical model of the byte
//! format and verified.

pub mod big_endian;
pub mod checksum;
pub mod chunk;
pub mod chunk_type;
pub mod chunks;
pub mod png;
pub mod text;
