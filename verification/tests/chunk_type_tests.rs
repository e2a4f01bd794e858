use pngme::chunk_type::{ChunkType, ChunkTypeError};

#[test]
pub fn test_chunk_type_from_bytes() {
    let expected = [82, 117, 83, 116];
    let actual = ChunkType::from_bytes([82, 117, 83, 116]).unwrap();

    assert_eq!(expected, actual.bytes());
}

#[test]
pub fn test_chunk_type_from_str() {
    let expected = ChunkType::from_bytes([82, 117, 83, 116]).unwrap();
    let actual = ChunkType::from_string("RuSt").unwrap();
    assert_eq!(expected, actual);
}

#[test]
pub fn test_chunk_type_is_critical() {
    let chunk = ChunkType::from_string("RuSt").unwrap();
    assert!(chunk.is_critical());
}

#[test]
pub fn test_chunk_type_is_not_critical() {
    let chunk = ChunkType::from_string("ruSt").unwrap();
    assert!(!chunk.is_critical());
}

#[test]
pub fn test_chunk_type_is_public() {
    let chunk = ChunkType::from_string("RUSt").unwrap();
    assert!(chunk.is_public());
}

#[test]
pub fn test_chunk_type_is_not_public() {
    let chunk = ChunkType::from_string("RuSt").unwrap();
    assert!(!chunk.is_public());
}

#[test]
pub fn test_chunk_type_is_reserved_bit_valid() {
    let chunk = ChunkType::from_string("RuSt").unwrap();
    assert!(chunk.is_reserved_bit_valid());
}

#[test]
pub fn test_chunk_type_is_reserved_bit_invalid() {
    let chunk = ChunkType::from_string("Rust").unwrap();
    assert!(!chunk.is_reserved_bit_valid());
}

#[test]
pub fn test_chunk_type_is_safe_to_copy() {
    let chunk = ChunkType::from_string("RuSt").unwrap();
    assert!(chunk.is_safe_to_copy());
}

#[test]
pub fn test_chunk_type_is_unsafe_to_copy() {
    let chunk = ChunkType::from_string("RuST").unwrap();
    assert!(!chunk.is_safe_to_copy());
}

#[test]
pub fn test_valid_chunk_is_valid() {
    let chunk = ChunkType::from_string("RuSt").unwrap();
    assert!(chunk.is_valid());
}

#[test]
pub fn test_invalid_chunk_is_valid() {
    let chunk = ChunkType::from_string("Rust").unwrap();
    assert!(!chunk.is_valid());

    let chunk = ChunkType::from_string("Ru1t");
    assert!(chunk.is_err());
}

#[test]
pub fn test_chunk_type_string() {
    let chunk = ChunkType::from_string("RuSt").unwrap();
    assert_eq!(&chunk.to_text(), "RuSt");
}

#[test]
pub fn test_chunk_type_trait_impls() {
    let chunk_type_1: ChunkType = ChunkType::from_bytes([82, 117, 83, 116]).unwrap();
    let chunk_type_2: ChunkType = ChunkType::from_string("RuSt").unwrap();
    let _chunk_string = format!("{}", chunk_type_1.to_text());
    let _are_chunks_equal = chunk_type_1 == chunk_type_2;
}

#[test]
pub fn test_from_string_wrong_length_never_truncates() {
    assert_eq!(
        ChunkType::from_string("Rus").unwrap_err(),
        ChunkTypeError::WrongStringByteLength(3)
    );
    assert_eq!(
        ChunkType::from_string("Rusty").unwrap_err(),
        ChunkTypeError::WrongStringByteLength(5)
    );
    assert_eq!(
        ChunkType::from_string("").unwrap_err(),
        ChunkTypeError::WrongStringByteLength(0)
    );
    // The length is counted in bytes, not characters.
    assert_eq!(
        ChunkType::from_string("Ru\u{e9}t").unwrap_err(),
        ChunkTypeError::WrongStringByteLength(5)
    );
}

#[test]
pub fn test_invalid_byte_reported() {
    assert_eq!(
        ChunkType::from_bytes([82, 49, 83, 116]).unwrap_err(),
        ChunkTypeError::InvalidChunkByte(49)
    );
    // The first offending byte is the one reported.
    assert_eq!(
        ChunkType::from_bytes([32, 49, 83, 116]).unwrap_err(),
        ChunkTypeError::InvalidChunkByte(32)
    );
}

#[test]
pub fn test_verify_and_map_byte() {
    assert_eq!(ChunkType::verify_and_map_byte(82).unwrap(), 82);
    assert_eq!(ChunkType::verify_and_map_byte(122).unwrap(), 122);
    assert_eq!(
        ChunkType::verify_and_map_byte(48).unwrap_err(),
        ChunkTypeError::InvalidChunkByte(48)
    );
}

#[test]
pub fn test_nth_byte() {
    let chunk = ChunkType::from_string("RuSt").unwrap();
    assert_eq!(chunk.nth_byte(0), Some(82));
    assert_eq!(chunk.nth_byte(3), Some(116));
    assert_eq!(chunk.nth_byte(4), None);
}
