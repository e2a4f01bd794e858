use pngme::chunk::{Chunk, ChunkError};
use pngme::chunk_type::ChunkType;
use pngme::png::{Png, PngError};

const SIGNATURE: [u8; 8] = [0x89, 0x50, 0x4e, 0x47, 0x0d, 0x0a, 0x1a, 0x0a];

fn chunk_of(type_str: &str, message: &str) -> Chunk {
    let chunk_type = ChunkType::from_string(type_str).unwrap();
    Chunk::new(chunk_type, message.as_bytes().to_vec())
}

fn testing_png() -> Png {
    let mut png = Png::new();
    png.append_chunk(chunk_of("FrSt", "I am the first chunk"));
    png.append_chunk(chunk_of("miDl", "I am another chunk"));
    png.append_chunk(chunk_of("LASt", "I am the last chunk"));
    png
}

#[test]
fn test_png_round_trip() {
    let png = testing_png();
    let encoded = png.to_bytes();
    assert_eq!(&encoded[0..8], &SIGNATURE);

    let decoded = Png::from_bytes(encoded.as_ref()).unwrap();
    assert_eq!(decoded.chunks().len(), 3);
    for (a, b) in decoded.chunks().iter().zip(png.chunks().iter()) {
        assert_eq!(a.chunk_type().bytes(), b.chunk_type().bytes());
        assert_eq!(a.data(), b.data());
        assert_eq!(a.crc(), b.crc());
    }
}

#[test]
fn test_png_from_bytes_empty_chunk_list() {
    let decoded = Png::from_bytes(&SIGNATURE).unwrap();
    assert_eq!(decoded.chunks().len(), 0);
    assert_eq!(decoded.to_bytes(), SIGNATURE.to_vec());
}

#[test]
fn test_png_invalid_signature() {
    let mut bytes = testing_png().to_bytes();
    bytes[0] = 0x13;
    assert_eq!(
        Png::from_bytes(bytes.as_ref()).unwrap_err(),
        PngError::InvalidSignature
    );
    assert_eq!(
        Png::from_bytes(&[0x89, 0x50]).unwrap_err(),
        PngError::InvalidSignature
    );
}

#[test]
fn test_png_invalid_chunk_aborts_whole_parse() {
    let mut bytes = testing_png().to_bytes();
    // Corrupt the CRC of the last chunk: the whole parse fails.
    let last = bytes.len() - 1;
    bytes[last] ^= 0xff;
    match Png::from_bytes(bytes.as_ref()) {
        Err(PngError::InvalidChunk(ChunkError::CrcMismatch(_, _))) => {}
        other => panic!("expected a CRC mismatch, got {:?}", other),
    }
    // A truncated trailing record also fails the whole parse.
    let mut bytes = testing_png().to_bytes();
    bytes.extend_from_slice(&[0, 0]);
    match Png::from_bytes(bytes.as_ref()) {
        Err(PngError::InvalidChunk(ChunkError::InvalidLength)) => {}
        other => panic!("expected a length failure, got {:?}", other),
    }
}

#[test]
fn test_chunk_by_type_first_match() {
    let mut png = testing_png();
    png.append_chunk(chunk_of("miDl", "later duplicate"));

    let found = png.chunk_by_type("miDl").unwrap();
    assert_eq!(found.data_as_string().unwrap(), "I am another chunk");
    assert!(png.chunk_by_type("noNe").is_none());
}

#[test]
fn test_remove_chunk_first_match() {
    let mut png = Png::new();
    png.append_chunk(chunk_of("TeSt", "first message"));
    png.append_chunk(chunk_of("TeSt", "second message"));

    // The first match goes; the chunk appended second stays.
    let removed = png.remove_chunk("TeSt").unwrap();
    assert_eq!(removed.data_as_string().unwrap(), "first message");
    assert_eq!(png.chunks().len(), 1);
    assert_eq!(
        png.chunk_by_type("TeSt").unwrap().data_as_string().unwrap(),
        "second message"
    );

    // A second call removes the remaining one.
    let removed = png.remove_chunk("TeSt").unwrap();
    assert_eq!(removed.data_as_string().unwrap(), "second message");
    assert_eq!(png.chunks().len(), 0);

    // A third call finds nothing.
    assert_eq!(png.remove_chunk("TeSt").unwrap_err(), PngError::ChunkNotFound);
}

#[test]
fn test_append_chunk_keeps_order() {
    let mut png = testing_png();
    png.append_chunk(chunk_of("TeSt", "Message"));
    let names: Vec<String> = png
        .chunks()
        .iter()
        .map(|c| c.chunk_type().to_text())
        .collect();
    assert_eq!(names, vec!["FrSt", "miDl", "LASt", "TeSt"]);
    let chunk = png.chunk_by_type("TeSt").unwrap();
    assert_eq!(chunk.data_as_string().unwrap(), String::from("Message"));
}

#[test]
fn test_png_encode_then_decode_message() {
    // The whole flow: parse a file, hide a message, serialize, re-parse,
    // read the message back.
    let base = testing_png().to_bytes();
    let mut png = Png::from_bytes(base.as_ref()).unwrap();
    png.append_chunk(chunk_of("seCr", "hidden words"));
    let encoded = png.to_bytes();

    let reread = Png::from_bytes(encoded.as_ref()).unwrap();
    let chunk = reread.chunk_by_type("seCr").unwrap();
    assert_eq!(chunk.data_as_string().unwrap(), "hidden words");
}
