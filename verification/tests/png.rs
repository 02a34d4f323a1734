use pngme::chunk::Chunk;
use pngme::chunk_type::{ChunkType, ChunkTypeError};
use pngme::commands;
use pngme::error::PngError;
use pngme::png::Png;

const SIGNATURE: [u8; 8] = [0x89, 0x50, 0x4e, 0x47, 0x0d, 0x0a, 0x1a, 0x0a];

fn make_chunk(ty: &str, payload: &[u8]) -> Chunk {
    let ct = ChunkType::from_str(ty).unwrap();
    Chunk::new(ct, payload.to_vec())
}

fn sample_png() -> Png {
    let mut png = Png::new();
    png.append_chunk(make_chunk("FrSt", b"first chunk"));
    png.append_chunk(make_chunk("TEST", b"hello"));
    png.append_chunk(make_chunk("LaSt", b"last chunk"));
    png
}

#[test]
fn png_empty_serializes_to_signature() {
    let png = Png::new();
    assert_eq!(png.as_bytes(), SIGNATURE.to_vec());
}

#[test]
fn png_parse_serialize_round_trip() {
    let png = sample_png();
    let bytes = png.as_bytes();
    assert_eq!(&bytes[0..8], &SIGNATURE);
    let reparsed = Png::parse(&bytes).unwrap();
    let written = png.chunks();
    let parsed = reparsed.chunks();
    assert_eq!(written.len(), parsed.len());
    for (a, b) in written.iter().zip(parsed.iter()) {
        assert_eq!(a.chunk_type().bytes(), b.chunk_type().bytes());
        assert_eq!(a.data(), b.data());
        assert_eq!(a.crc(), b.crc());
    }
    assert_eq!(reparsed.as_bytes(), bytes);
}

#[test]
fn png_append_and_find() {
    let mut png = Png::new();
    png.append_chunk(make_chunk("TEST", b"hello"));
    let found = png.chunk_by_type("TEST").expect("chunk should be found");
    assert_eq!(found.data_as_string().unwrap(), "hello");
    assert!(png.chunk_by_type("ABSENT").is_none());
}

#[test]
fn png_find_returns_first_match() {
    let mut png = Png::new();
    png.append_chunk(make_chunk("TEST", b"one"));
    png.append_chunk(make_chunk("TEST", b"two"));
    let found = png.chunk_by_type("TEST").unwrap();
    assert_eq!(found.data_as_string().unwrap(), "one");
}

#[test]
fn png_remove_shrinks_serialized_form() {
    let mut png = sample_png();
    let before = png.as_bytes().len();
    let removed = png.remove_chunk("TEST").unwrap();
    assert_eq!(removed.data_as_string().unwrap(), "hello");
    assert!(png.chunk_by_type("TEST").is_none());
    let after = png.as_bytes().len();
    assert_eq!(before - after, 12 + 5);
    match png.remove_chunk("TEST") {
        Err(PngError::ChunkNotFound(t)) => assert_eq!(t, "TEST"),
        other => panic!("expected ChunkNotFound, got {:?}", other),
    }
}

#[test]
fn png_remove_preserves_order() {
    let mut png = sample_png();
    png.remove_chunk("TEST").unwrap();
    let names: Vec<String> = png
        .chunks()
        .iter()
        .map(|c| c.chunk_type().to_string())
        .collect();
    assert_eq!(names, vec!["FrSt".to_string(), "LaSt".to_string()]);
}

#[test]
fn png_truncated_chunk_declared_too_long() {
    // a chunk declaring 5 payload bytes, with none present
    let mut bytes = SIGNATURE.to_vec();
    bytes.extend_from_slice(&[0, 0, 0, 5, b'T', b'E', b'S', b'T']);
    assert!(matches!(Png::parse(&bytes), Err(PngError::Truncated)));
}

#[test]
fn png_truncated_dangling_header() {
    let mut bytes = SIGNATURE.to_vec();
    bytes.extend_from_slice(&[0, 0, 0, 1]);
    assert!(matches!(Png::parse(&bytes), Err(PngError::Truncated)));
}

#[test]
fn png_signature_mismatch() {
    let mut bytes = sample_png().as_bytes();
    bytes[0] = 0x88;
    assert!(matches!(Png::parse(&bytes), Err(PngError::SignatureMismatch)));
    assert!(matches!(Png::parse(&Vec::new()), Err(PngError::SignatureMismatch)));
    assert!(matches!(Png::parse(&vec![0x89u8]), Err(PngError::SignatureMismatch)));
}

#[test]
fn png_crc_corruption_detected() {
    let png = sample_png();
    let mut bytes = png.as_bytes();
    // flip one bit inside the payload of the first chunk
    bytes[8 + 8] ^= 0x80;
    assert!(matches!(Png::parse(&bytes), Err(PngError::CrcMismatch(_, _))));
}

#[test]
fn png_invalid_type_byte_propagates() {
    let mut bytes = SIGNATURE.to_vec();
    bytes.extend_from_slice(&[0, 0, 0, 0, b'T', 0xc8, b'S', b'T', 0, 0, 0, 0]);
    assert!(matches!(
        Png::parse(&bytes),
        Err(PngError::ChunkType(ChunkTypeError::InvalidByte(0xc8)))
    ));
}

#[test]
fn command_encode_appends_message() {
    let input = sample_png().as_bytes();
    let out = commands::encode(&input, "ruSt", "a secret message").unwrap();
    let png = Png::parse(&out).unwrap();
    let found = png.chunk_by_type("ruSt").unwrap();
    assert_eq!(found.data_as_string().unwrap(), "a secret message");
    assert_eq!(out.len(), input.len() + 12 + 16);
}

#[test]
fn command_encode_rejects_bad_type() {
    let input = sample_png().as_bytes();
    assert!(matches!(
        commands::encode(&input, "x", "msg"),
        Err(PngError::ChunkType(ChunkTypeError::WrongLength(1)))
    ));
    assert!(matches!(
        commands::encode(&input, "ab1d", "msg"),
        Err(PngError::ChunkType(ChunkTypeError::InvalidByte(b'1')))
    ));
}

#[test]
fn command_decode_finds_message() {
    let input = sample_png().as_bytes();
    assert_eq!(
        commands::decode(&input, "TEST").unwrap(),
        Some("hello".to_string())
    );
    assert_eq!(commands::decode(&input, "NOPE").unwrap(), None);
}

#[test]
fn command_remove_round_trip() {
    let input = sample_png().as_bytes();
    let (out, removed) = commands::remove(&input, "TEST").unwrap();
    assert_eq!(removed.data_as_string().unwrap(), "hello");
    assert_eq!(out.len(), input.len() - 12 - 5);
    assert!(matches!(
        commands::remove(&out, "TEST"),
        Err(PngError::ChunkNotFound(_))
    ));
}

#[test]
fn command_decode_rejects_binary_payload() {
    let mut png = Png::new();
    png.append_chunk(make_chunk("bLOb", &[0xc0, 0x00]));
    let input = png.as_bytes();
    assert_eq!(commands::decode(&input, "bLOb"), Err(PngError::DecodeError));
}

#[test]
fn command_print_lists_types_in_order() {
    let input = sample_png().as_bytes();
    let names = commands::print(&input).unwrap();
    assert_eq!(
        names,
        vec!["FrSt".to_string(), "TEST".to_string(), "LaSt".to_string()]
    );
}
