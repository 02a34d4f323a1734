use pngme::chunk::Chunk;
use pngme::chunk_type::{ChunkType, ChunkTypeError};
use pngme::error::PngError;

fn make_chunk(ty: &str, payload: &[u8]) -> Chunk {
    let ct = ChunkType::from_str(ty).unwrap();
    Chunk::new(ct, payload.to_vec())
}

#[test]
fn chunk_known_crc() {
    // The CRC-32 of the 4 bytes "IEND" with an empty payload is a published
    // constant of the file format.
    let chunk = make_chunk("IEND", b"");
    assert_eq!(chunk.crc(), 0xAE42_6082);
    assert_eq!(chunk.length(), 0);
}

#[test]
fn chunk_fields() {
    let chunk = make_chunk("TEST", b"hello");
    assert_eq!(chunk.length(), 5);
    assert_eq!(chunk.chunk_type().bytes(), *b"TEST");
    assert_eq!(chunk.data().as_slice(), b"hello");
    assert_eq!(chunk.data_as_string().unwrap(), "hello");
}

#[test]
fn chunk_serialize_layout() {
    let chunk = make_chunk("TEST", b"hi");
    let bytes = chunk.as_bytes();
    assert_eq!(bytes.len(), 14);
    assert_eq!(&bytes[0..4], &[0, 0, 0, 2]);
    assert_eq!(&bytes[4..8], b"TEST");
    assert_eq!(&bytes[8..10], b"hi");
    let crc = u32::from_be_bytes([bytes[10], bytes[11], bytes[12], bytes[13]]);
    assert_eq!(crc, chunk.crc());
}

#[test]
fn chunk_round_trip() {
    let chunk = make_chunk("RuSt", b"round and round");
    let bytes = chunk.as_bytes();
    let (parsed, used) = Chunk::parse(&bytes, 0).unwrap();
    assert_eq!(used, bytes.len());
    assert_eq!(used, 12 + 15);
    assert_eq!(parsed.chunk_type().bytes(), chunk.chunk_type().bytes());
    assert_eq!(parsed.data(), chunk.data());
    assert_eq!(parsed.crc(), chunk.crc());
}

#[test]
fn chunk_parse_at_offset() {
    let chunk = make_chunk("TEST", b"off");
    let mut bytes = vec![0xaau8, 0xbb, 0xcc];
    bytes.extend_from_slice(&chunk.as_bytes());
    let (parsed, used) = Chunk::parse(&bytes, 3).unwrap();
    assert_eq!(used, 15);
    assert_eq!(parsed.data().as_slice(), b"off");
}

#[test]
fn chunk_crc_rejects_bit_flip() {
    let chunk = make_chunk("TEST", b"hello");
    let mut bytes = chunk.as_bytes();
    bytes[9] ^= 0x01;
    match Chunk::parse(&bytes, 0) {
        Err(PngError::CrcMismatch(expected, actual)) => {
            assert_ne!(expected, actual);
            assert_eq!(actual, chunk.crc());
        }
        other => panic!("expected a checksum mismatch, got {:?}", other.map(|(_, u)| u)),
    }
}

#[test]
fn chunk_truncated_header() {
    let bytes = vec![0u8, 0, 0, 5, b'T', b'E'];
    assert_eq!(Chunk::parse(&bytes, 0), Err(PngError::Truncated));
}

#[test]
fn chunk_truncated_payload() {
    // declares 5 payload bytes but carries none
    let bytes = vec![0u8, 0, 0, 5, b'T', b'E', b'S', b'T'];
    assert_eq!(Chunk::parse(&bytes, 0), Err(PngError::Truncated));
}

#[test]
fn chunk_invalid_type_byte() {
    let bytes = vec![0u8, 0, 0, 0, b'T', 0x89, b'S', b'T', 0, 0, 0, 0];
    assert_eq!(
        Chunk::parse(&bytes, 0),
        Err(PngError::ChunkType(ChunkTypeError::InvalidByte(0x89)))
    );
}

#[test]
fn chunk_payload_not_text() {
    let chunk = make_chunk("TEST", &[0xff, 0xfe]);
    assert_eq!(chunk.data_as_string(), Err(PngError::DecodeError));
}

#[test]
fn chunk_type_wrong_length_error() {
    assert_eq!(
        ChunkType::from_str("TOOLONG"),
        Err(ChunkTypeError::WrongLength(7))
    );
    assert_eq!(
        ChunkType::from_str("Ru1t"),
        Err(ChunkTypeError::InvalidByte(b'1'))
    );
    assert_eq!(
        ChunkType::try_from([82, 117, 200, 116]),
        Err(ChunkTypeError::InvalidByte(200))
    );
}
