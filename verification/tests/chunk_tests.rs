use pngme::chunk::{read_fields, Chunk, ChunkError};
use pngme::chunk_type::{ChunkType, ChunkTypeError};
use std::convert::TryFrom;
use std::str::FromStr;

fn testing_chunk() -> Chunk {
    let data_length: u32 = 42;
    let chunk_type = "RuSt".as_bytes();
    let message_bytes = "This is where your secret message will be!".as_bytes();
    let crc: u32 = 2882656334;

    let chunk_data: Vec<u8> = data_length
        .to_be_bytes()
        .iter()
        .chain(chunk_type.iter())
        .chain(message_bytes.iter())
        .chain(crc.to_be_bytes().iter())
        .copied()
        .collect();

    Chunk::try_from(chunk_data.as_ref()).unwrap()
}

#[test]
fn test_new_chunk() {
    let chunk_type = ChunkType::from_str("RuSt").unwrap();
    let data = "This is where your secret message will be!"
        .as_bytes()
        .to_vec();
    let chunk = Chunk::new(chunk_type, data);
    assert_eq!(chunk.length(), 42);
    assert_eq!(chunk.crc(), 2882656334);
}

#[test]
fn test_chunk_length() {
    let chunk = testing_chunk();
    assert_eq!(chunk.length(), 42);
}

#[test]
fn test_chunk_type() {
    let chunk = testing_chunk();
    assert_eq!(chunk.chunk_type().to_string(), String::from("RuSt"));
}

#[test]
fn test_chunk_string() {
    let chunk = testing_chunk();
    let chunk_string = chunk.data_as_string().unwrap();
    let expected_chunk_string = String::from("This is where your secret message will be!");
    assert_eq!(chunk_string, expected_chunk_string);
}

#[test]
fn test_chunk_crc() {
    let chunk = testing_chunk();
    assert_eq!(chunk.crc(), 2882656334);
}

#[test]
fn test_valid_chunk_from_bytes() {
    let data_length: u32 = 42;
    let chunk_type = "RuSt".as_bytes();
    let message_bytes = "This is where your secret message will be!".as_bytes();
    let crc: u32 = 2882656334;

    let chunk_data: Vec<u8> = data_length
        .to_be_bytes()
        .iter()
        .chain(chunk_type.iter())
        .chain(message_bytes.iter())
        .chain(crc.to_be_bytes().iter())
        .copied()
        .collect();

    let chunk = Chunk::try_from(chunk_data.as_ref()).unwrap();

    let chunk_string = chunk.data_as_string().unwrap();
    let expected_chunk_string = String::from("This is where your secret message will be!");

    assert_eq!(chunk.length(), 42);
    assert_eq!(chunk.chunk_type().to_string(), String::from("RuSt"));
    assert_eq!(chunk_string, expected_chunk_string);
    assert_eq!(chunk.crc(), 2882656334);
}

#[test]
fn test_invalid_chunk_from_bytes() {
    let data_length: u32 = 42;
    let chunk_type = "RuSt".as_bytes();
    let message_bytes = "This is where your secret message will be!".as_bytes();
    let crc: u32 = 2882656333;

    let chunk_data: Vec<u8> = data_length
        .to_be_bytes()
        .iter()
        .chain(chunk_type.iter())
        .chain(message_bytes.iter())
        .chain(crc.to_be_bytes().iter())
        .copied()
        .collect();

    let chunk = Chunk::try_from(chunk_data.as_ref());

    assert!(chunk.is_err());
}

#[test]
pub fn test_chunk_trait_impls() {
    let data_length: u32 = 42;
    let chunk_type = "RuSt".as_bytes();
    let message_bytes = "This is where your secret message will be!".as_bytes();
    let crc: u32 = 2882656334;

    let chunk_data: Vec<u8> = data_length
        .to_be_bytes()
        .iter()
        .chain(chunk_type.iter())
        .chain(message_bytes.iter())
        .chain(crc.to_be_bytes().iter())
        .copied()
        .collect();

    let chunk: Chunk = TryFrom::try_from(chunk_data.as_ref()).unwrap();

    let _chunk_string = chunk.to_string();
}

fn wire(length: u32, chunk_type: &[u8], data: &[u8], crc: u32) -> Vec<u8> {
    let mut bytes = Vec::new();
    bytes.extend_from_slice(&length.to_be_bytes());
    bytes.extend_from_slice(chunk_type);
    bytes.extend_from_slice(data);
    bytes.extend_from_slice(&crc.to_be_bytes());
    bytes
}

#[test]
fn chunk_bad_checksum_is_invalid_crc() {
    let bytes = wire(
        42,
        b"RuSt",
        b"This is where your secret message will be!",
        2882656333,
    );
    assert_eq!(
        Chunk::try_from(bytes.as_slice()).unwrap_err(),
        ChunkError::InvalidCRC
    );
}

#[test]
fn chunk_as_bytes_is_exact() {
    let chunk = Chunk::new(ChunkType::from_str("ruSt").unwrap(), b"hello".to_vec());
    assert_eq!(chunk.length(), 5);
    assert_eq!(chunk.data(), b"hello");
    // CRC-32 of "ruSthello"
    let crc = chunk.crc();
    let bytes = chunk.as_bytes();
    assert_eq!(bytes.len(), 17);
    assert_eq!(&bytes[0..4], &[0, 0, 0, 5]);
    assert_eq!(&bytes[4..8], b"ruSt");
    assert_eq!(&bytes[8..13], b"hello");
    assert_eq!(&bytes[13..17], &crc.to_be_bytes());
}

#[test]
fn chunk_checksum_is_crc32_of_type_and_data() {
    // an IEND chunk has no data, so every PNG file ends with these twelve
    // bytes
    let chunk = Chunk::new(ChunkType::from_str("IEND").unwrap(), Vec::new());
    assert_eq!(chunk.crc(), 0xae42_6082);
    assert_eq!(
        chunk.as_bytes(),
        vec![0, 0, 0, 0, 0x49, 0x45, 0x4e, 0x44, 0xae, 0x42, 0x60, 0x82]
    );
    // the order of type code and data matters
    let a = Chunk::new(ChunkType::from_str("abCd").unwrap(), b"efGh".to_vec());
    let b = Chunk::new(ChunkType::from_str("efGh").unwrap(), b"abCd".to_vec());
    assert_ne!(a.crc(), b.crc());
}

#[test]
fn chunk_round_trip() {
    for (code, data) in [
        ("RuSt", &b"This is where your secret message will be!"[..]),
        ("ruSt", &b""[..]),
        ("IDAT", &[0u8, 255, 1, 254, 128][..]),
    ] {
        let chunk = Chunk::new(ChunkType::from_str(code).unwrap(), data.to_vec());
        let bytes = chunk.as_bytes();
        let back = Chunk::try_from(bytes.as_slice()).unwrap();
        assert_eq!(back, chunk);
        assert_eq!(back.chunk_type().bytes(), chunk.chunk_type().bytes());
        assert_eq!(back.data(), data);
        assert_eq!(back.crc(), chunk.crc());
        assert_eq!(back.length() as usize, data.len());
        assert_eq!(back.as_bytes(), bytes);
    }
}

#[test]
fn chunk_single_bit_flips_are_detected() {
    let chunk = Chunk::new(ChunkType::from_str("RuSt").unwrap(), b"hello".to_vec());
    let bytes = chunk.as_bytes();
    // every bit of type code and data
    for i in 4..bytes.len() - 4 {
        for bit in 0..8 {
            let mut flipped = bytes.clone();
            flipped[i] ^= 1 << bit;
            let result = Chunk::try_from(flipped.as_slice());
            let still_a_type = i >= 8
                || ChunkType::try_from([flipped[4], flipped[5], flipped[6], flipped[7]]).is_ok();
            if still_a_type {
                assert_eq!(result.unwrap_err(), ChunkError::InvalidCRC);
            } else {
                assert_eq!(
                    result.unwrap_err(),
                    ChunkError::InvalidType(ChunkTypeError::InvalidASCII)
                );
            }
        }
    }
}

#[test]
fn chunk_truncated_is_malformed() {
    // says 100 bytes of data, has 10
    let bytes = wire(100, b"RuSt", b"0123456789", 0);
    assert_eq!(
        Chunk::try_from(bytes.as_slice()).unwrap_err(),
        ChunkError::Malformed
    );
    // shorter than the fixed fields
    for n in 0..12 {
        let bytes = vec![0u8; n];
        assert_eq!(
            Chunk::try_from(bytes.as_slice()).unwrap_err(),
            ChunkError::Malformed
        );
    }
    // a good chunk with its last byte cut off, and with one byte too many
    let good = Chunk::new(ChunkType::from_str("RuSt").unwrap(), b"hello".to_vec()).as_bytes();
    assert_eq!(
        Chunk::try_from(&good[..good.len() - 1]).unwrap_err(),
        ChunkError::Malformed
    );
    let mut long = good.clone();
    long.push(0);
    assert_eq!(
        Chunk::try_from(long.as_slice()).unwrap_err(),
        ChunkError::Malformed
    );
    // the largest length there is
    let bytes = wire(u32::MAX, b"RuSt", b"", 0);
    assert_eq!(
        Chunk::try_from(bytes.as_slice()).unwrap_err(),
        ChunkError::Malformed
    );
}

#[test]
fn chunk_bad_type_comes_before_length_and_checksum() {
    let bytes = wire(100, b"Rust", b"0123456789", 0);
    assert_eq!(
        Chunk::try_from(bytes.as_slice()).unwrap_err(),
        ChunkError::InvalidType(ChunkTypeError::InvalidASCII)
    );
    let bytes = wire(0, b"Ru1t", b"", 0);
    assert_eq!(
        Chunk::try_from(bytes.as_slice()).unwrap_err(),
        ChunkError::InvalidType(ChunkTypeError::InvalidASCII)
    );
}

#[test]
fn chunk_data_that_is_not_text() {
    let chunk = Chunk::new(ChunkType::from_str("RuSt").unwrap(), vec![0xff, 0xfe]);
    assert_eq!(chunk.data_as_string().unwrap_err(), ChunkError::InvalidEncoding);
    let chunk = Chunk::new(
        ChunkType::from_str("RuSt").unwrap(),
        "héllo ✓".as_bytes().to_vec(),
    );
    assert_eq!(chunk.data_as_string().unwrap(), "héllo ✓");
    let chunk = Chunk::new(ChunkType::from_str("RuSt").unwrap(), Vec::new());
    assert_eq!(chunk.data_as_string().unwrap(), "");
}

#[test]
fn chunk_summary_is_exact() {
    let chunk = testing_chunk();
    assert_eq!(
        chunk.to_string(),
        "Chunk {\n  Length: 42\n  Type: RuSt\n  Data: 42 bytes\n  Crc: 2882656334\n}\n"
    );
    let empty = Chunk::new(ChunkType::from_str("IEND").unwrap(), Vec::new());
    assert_eq!(
        empty.to_string(),
        "Chunk {\n  Length: 0\n  Type: IEND\n  Data: 0 bytes\n  Crc: 2923585666\n}\n"
    );
}

#[test]
fn chunk_error_messages() {
    assert_eq!(ChunkError::Malformed.message(), "Chunk Error: Malformed chunk");
    assert_eq!(
        ChunkError::InvalidType(ChunkTypeError::InvalidASCII).message(),
        "Chunk Error: Invalid chunk type"
    );
    assert_eq!(ChunkError::InvalidCRC.message(), "Chunk Error: Invalid CRC");
    assert_eq!(
        ChunkError::InvalidEncoding.message(),
        "Chunk Error: Data is not valid UTF-8"
    );
    assert_eq!(ChunkError::NotFound.message(), "Chunk Error: Chunktype not found.");
}

#[test]
fn read_fields_holds_a_span_to_the_checksum_it_is_given() {
    let bytes = [0, 0, 0, 2, 82, 117, 83, 116, 104, 105, 0, 0, 0, 7];
    let (chunk_type, data) = read_fields(&bytes, 7).unwrap();
    assert_eq!(chunk_type.bytes(), *b"RuSt");
    assert_eq!(data, b"hi");
    assert_eq!(read_fields(&bytes, 8).unwrap_err(), ChunkError::InvalidCRC);
    // the order of the tests: room, type code, length, checksum
    assert_eq!(read_fields(&bytes[..11], 7).unwrap_err(), ChunkError::Malformed);
    let bad_type = [0, 0, 0, 9, 82, 117, 115, 116, 104, 105, 0, 0, 0, 7];
    assert_eq!(
        read_fields(&bad_type, 8).unwrap_err(),
        ChunkError::InvalidType(ChunkTypeError::InvalidASCII)
    );
    let bad_length = [0, 0, 0, 3, 82, 117, 83, 116, 104, 105, 0, 0, 0, 7];
    assert_eq!(read_fields(&bad_length, 8).unwrap_err(), ChunkError::Malformed);
}

#[test]
fn read_fields_agrees_with_try_from() {
    let chunk = Chunk::new(ChunkType::from_str("teSt").unwrap(), b"payload".to_vec());
    let bytes = chunk.as_bytes();
    let (chunk_type, data) = read_fields(&bytes, chunk.crc()).unwrap();
    assert_eq!(&chunk_type, chunk.chunk_type());
    assert_eq!(data, chunk.data());
    assert_eq!(
        read_fields(&bytes, chunk.crc() ^ 1).unwrap_err(),
        ChunkError::InvalidCRC
    );
}

#[test]
fn chunk_checksum_is_that_of_type_code_then_data() {
    let crc32 = crc::Crc::<u32>::new(&crc::CRC_32_ISO_HDLC);
    assert_eq!(crc32.checksum(b"123456789"), 0xcbf4_3926);
    for (code, data) in [
        ("RuSt", &b"This is where your secret message will be!"[..]),
        ("ruSt", &b"hello"[..]),
        ("IEND", &b""[..]),
        ("IDAT", &[0u8, 255, 1, 254, 128][..]),
    ] {
        let mut bytes = code.as_bytes().to_vec();
        bytes.extend_from_slice(data);
        let chunk = Chunk::new(ChunkType::from_str(code).unwrap(), data.to_vec());
        assert_eq!(chunk.crc(), crc32.checksum(&bytes));
    }
    assert_eq!(
        crc32.checksum(b"RuStThis is where your secret message will be!"),
        2882656334
    );
}

#[test]
fn chunk_equality_is_by_type_code_and_data() {
    let a = Chunk::new(ChunkType::from_str("ruSt").unwrap(), b"hello".to_vec());
    let b = Chunk::try_from(a.as_bytes().as_slice()).unwrap();
    assert!(a == b);
    assert!(a != Chunk::new(ChunkType::from_str("ruSt").unwrap(), b"hellp".to_vec()));
    assert!(a != Chunk::new(ChunkType::from_str("ruSt").unwrap(), b"hell".to_vec()));
    assert!(a != Chunk::new(ChunkType::from_str("ruST").unwrap(), b"hello".to_vec()));
}
