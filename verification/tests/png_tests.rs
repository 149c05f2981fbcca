use pngme::chunk::Chunk;
use pngme::chunk::ChunkError;
use pngme::chunk_type::ChunkType;
use pngme::chunk_type::ChunkTypeError;
use pngme::chunks::Chunk as FlatChunk;
use pngme::chunks::IntoChunkError;
use pngme::png::signature;
use pngme::png::Png;
use pngme::png::PngError;

fn chunk_from(tag: &str, message: &str) -> Chunk {
    let chunk_type = ChunkType::from_string(tag).unwrap();
    Chunk::new(chunk_type, message.as_bytes().to_vec())
}

fn testing_png() -> Png {
    let mut png = Png::new();
    png.append_chunk(chunk_from("FrSt", "I am the first chunk"));
    png.append_chunk(chunk_from("miDl", "I am another chunk"));
    png.append_chunk(chunk_from("LASt", "I am the last chunk"));
    png
}

#[test]
fn test_signature_bytes() {
    assert_eq!(signature(), vec![137, 80, 78, 71, 13, 10, 26, 10]);
}

#[test]
fn test_png_round_trip() {
    let png = testing_png();
    let bytes = png.as_bytes();
    let reparsed = Png::parse(&bytes).unwrap();

    assert_eq!(reparsed.chunks().len(), 3);
    for (a, b) in png.chunks().iter().zip(reparsed.chunks().iter()) {
        assert_eq!(a.length(), b.length());
        assert_eq!(a.chunk_type().bytes(), b.chunk_type().bytes());
        assert_eq!(a.data(), b.data());
        assert_eq!(a.crc(), b.crc());
    }
    assert_eq!(reparsed.as_bytes(), bytes);
}

#[test]
fn test_empty_png_round_trip() {
    let png = Png::new();
    let bytes = png.as_bytes();
    assert_eq!(bytes, signature());
    let reparsed = Png::parse(&bytes).unwrap();
    assert_eq!(reparsed.chunks().len(), 0);
}

#[test]
fn test_append_then_find() {
    let mut png = testing_png();
    assert!(png.chunk_by_type("teSt").is_none());
    png.append_chunk(chunk_from("teSt", "Message"));

    let found = png.chunk_by_type("teSt").unwrap();
    assert_eq!(found.chunk_type().as_string(), "teSt");
    assert_eq!(found.data(), "Message".as_bytes());
    assert_eq!(png.chunks().len(), 4);
}

#[test]
fn test_find_first_of_duplicates() {
    let mut png = testing_png();
    png.append_chunk(chunk_from("duPl", "one"));
    png.append_chunk(chunk_from("duPl", "two"));

    let found = png.chunk_by_type("duPl").unwrap();
    assert_eq!(found.data(), "one".as_bytes());
}

#[test]
fn test_remove_absent() {
    let mut png = testing_png();
    let before: Vec<Vec<u8>> = png.chunks().iter().map(|c| c.as_bytes()).collect();

    let result = png.remove_chunk("zzzz");
    assert!(matches!(result, Err(PngError::NotFoundChunk)));

    let after: Vec<Vec<u8>> = png.chunks().iter().map(|c| c.as_bytes()).collect();
    assert_eq!(before.len(), after.len());
    assert_eq!(before, after);
}

#[test]
fn test_remove_existing() {
    let mut png = testing_png();
    let removed = png.remove_chunk("miDl").unwrap();
    assert_eq!(removed.chunk_type().as_string(), "miDl");
    assert_eq!(png.chunks().len(), 2);
    assert!(png.chunk_by_type("miDl").is_none());
}

#[test]
fn test_invalid_signature() {
    let mut bytes = testing_png().as_bytes();
    bytes[0] = 13;
    assert!(matches!(Png::parse(&bytes), Err(PngError::InvalidSignature)));
}

#[test]
fn test_short_buffer_is_invalid_signature() {
    let bytes = [137u8, 80, 78];
    assert!(matches!(Png::parse(&bytes), Err(PngError::InvalidSignature)));
}

#[test]
fn test_png_propagates_chunk_error() {
    let mut bytes = signature();
    bytes.extend_from_slice(&[0, 0]);
    assert!(matches!(
        Png::parse(&bytes),
        Err(PngError::Chunk(ChunkError::InvalidLength))
    ));
}

#[test]
fn test_png_rejects_trailing_garbage_after_chunk() {
    let chunk = chunk_from("soLo", "payload");
    let mut bytes = signature();
    bytes.extend_from_slice(&chunk.as_bytes());
    bytes.push(0);
    assert!(matches!(
        Png::parse(&bytes),
        Err(PngError::Chunk(ChunkError::InvalidLength))
    ));
}

#[test]
fn test_chunk_parse_error_kinds() {
    // Too short for the length field.
    assert!(matches!(
        Chunk::parse(&[0, 0]),
        Err(ChunkError::InvalidLength)
    ));
    // Length present, type tag truncated.
    assert!(matches!(
        Chunk::parse(&[0, 0, 0, 0, 82, 117]),
        Err(ChunkError::ChunkType(ChunkTypeError::InvalidLen))
    ));
    // Type tag holds a byte that is not an ASCII letter.
    assert!(matches!(
        Chunk::parse(&[0, 0, 0, 0, 82, 117, 49, 116]),
        Err(ChunkError::ChunkType(ChunkTypeError::InvalidFormat))
    ));
    // Declared payload longer than what remains.
    assert!(matches!(
        Chunk::parse(&[0, 0, 0, 9, 82, 117, 83, 116, 1, 2, 3]),
        Err(ChunkError::InvalidLength)
    ));
    // Payload complete but checksum truncated.
    assert!(matches!(
        Chunk::parse(&[0, 0, 0, 2, 82, 117, 83, 116, 1, 2, 9, 9]),
        Err(ChunkError::InvalidCrc)
    ));
}

#[test]
fn test_flat_chunk_parse_error_kinds() {
    assert!(matches!(
        FlatChunk::parse(&[0, 0]),
        Err(IntoChunkError::InvalidLength)
    ));
    assert!(matches!(
        FlatChunk::parse(&[0, 0, 0, 0, 82, 117]),
        Err(IntoChunkError::InvalidChunkType)
    ));
    assert!(matches!(
        FlatChunk::parse(&[0, 0, 0, 0, 82, 117, 49, 116]),
        Err(IntoChunkError::InvalidChunkType)
    ));
    assert!(matches!(
        FlatChunk::parse(&[0, 0, 0, 9, 82, 117, 83, 116, 1, 2, 3]),
        Err(IntoChunkError::InvalidLength)
    ));
    assert!(matches!(
        FlatChunk::parse(&[0, 0, 0, 2, 82, 117, 83, 116, 1, 2, 9, 9]),
        Err(IntoChunkError::InvalidCrc)
    ));
    let chunk_type = ChunkType::from_string("daTa").unwrap();
    let flat = FlatChunk::new(chunk_type, vec![0xff, 0xfe]);
    assert!(matches!(
        flat.data_as_string(),
        Err(IntoChunkError::InvalidByteToString)
    ));
}

#[test]
fn test_data_as_string_conversion_error() {
    let chunk = Chunk::new(
        ChunkType::from_string("daTa").unwrap(),
        vec![0xff, 0xfe, 0xfd],
    );
    assert!(matches!(
        chunk.data_as_string(),
        Err(ChunkError::Conversion)
    ));
}

#[test]
fn test_chunk_type_from_string_length_error() {
    assert!(matches!(
        ChunkType::from_string("abc"),
        Err(ChunkTypeError::InvalidLen)
    ));
    assert!(matches!(
        ChunkType::from_string("abcde"),
        Err(ChunkTypeError::InvalidLen)
    ));
}

#[test]
fn test_bit_flip_in_data_or_checksum_detected() {
    let chunk = chunk_from("RuSt", "This is where your secret message will be!");
    let bytes = chunk.as_bytes();
    let data_start = 8;
    let end = bytes.len();

    for i in data_start..end {
        for bit in 0..8 {
            let mut corrupted = bytes.clone();
            corrupted[i] ^= 1u8 << bit;
            assert!(matches!(
                Chunk::parse(&corrupted),
                Err(ChunkError::MismatchCrc)
            ));
        }
    }
}

#[test]
fn test_chunk_round_trip_all_fields() {
    let chunk = chunk_from("RuSt", "Any message at all");
    let reparsed = Chunk::parse(&chunk.as_bytes()).unwrap();
    assert_eq!(reparsed.length(), chunk.length());
    assert_eq!(reparsed.chunk_type().bytes(), chunk.chunk_type().bytes());
    assert_eq!(reparsed.data(), chunk.data());
    assert_eq!(reparsed.crc(), chunk.crc());
}

#[test]
fn test_chunk_round_trip_of_empty_payload() {
    let chunk = Chunk::new(ChunkType::from_string("emPt").unwrap(), Vec::new());
    assert_eq!(chunk.length(), 0);
    let bytes = chunk.as_bytes();
    assert_eq!(bytes.len(), 12);
    let reparsed = Chunk::parse(&bytes).unwrap();
    assert_eq!(reparsed.length(), 0);
    assert_eq!(reparsed.chunk_type().bytes(), chunk.chunk_type().bytes());
    assert_eq!(reparsed.crc(), chunk.crc());
}
