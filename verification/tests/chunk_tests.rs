use std::convert::TryFrom;
use std::str::FromStr;

use pngme::big_endian::{u32_from_be_bytes, u32_to_be_bytes};
use pngme::chunk::Chunk;
use pngme::chunk_type::ChunkType;
use pngme::error::ChunkError;

const MESSAGE: &str = "This is where your secret message will be!";
const MESSAGE_CRC: u32 = 2882656334;

fn record(length: u32, chunk_type: &[u8], payload: &[u8], crc: u32) -> Vec<u8> {
    length
        .to_be_bytes()
        .iter()
        .chain(chunk_type.iter())
        .chain(payload.iter())
        .chain(crc.to_be_bytes().iter())
        .copied()
        .collect()
}

fn testing_chunk() -> Chunk {
    let data_length: u32 = 42;
    let chunk_type = "RuSt".as_bytes();
    let message_bytes = "This is where your secret message will be!".as_bytes();
    let crc: u32 = 2882656334;

    let chunk_data: Vec<u8> = data_length
        .to_be_bytes()
        .iter()
        .chain(chunk_type.iter())
        .chain(message_bytes.iter())
        .chain(crc.to_be_bytes().iter())
        .copied()
        .collect();

    Chunk::try_from(chunk_data.as_ref()).unwrap()
}

#[test]
fn test_new_chunk() {
    let chunk_type = ChunkType::from_str("RuSt").unwrap();
    let data = "This is where your secret message will be!"
        .as_bytes()
        .to_vec();
    let chunk = Chunk::new(chunk_type, data);
    assert_eq!(chunk.length(), 42);
    assert_eq!(chunk.crc(), 2882656334);
}

#[test]
fn test_chunk_length() {
    let chunk = testing_chunk();
    assert_eq!(chunk.length(), 42);
}

#[test]
fn test_chunk_type() {
    let chunk = testing_chunk();
    println!("{:?}", chunk);
    assert_eq!(chunk.chunk_type().to_string().unwrap(), String::from("RuSt"));
}

#[test]
fn test_chunk_string() {
    let chunk = testing_chunk();
    let chunk_string = chunk.data_as_string().unwrap();
    let expected_chunk_string = String::from("This is where your secret message will be!");
    assert_eq!(chunk_string, expected_chunk_string);
}

#[test]
fn test_chunk_crc() {
    let chunk = testing_chunk();
    assert_eq!(chunk.crc(), 2882656334);
}

#[test]
fn test_valid_chunk_from_bytes() {
    let data_length: u32 = 42;
    let chunk_type = "RuSt".as_bytes();
    let message_bytes = "This is where your secret message will be!".as_bytes();
    let crc: u32 = 2882656334;

    let chunk_data: Vec<u8> = data_length
        .to_be_bytes()
        .iter()
        .chain(chunk_type.iter())
        .chain(message_bytes.iter())
        .chain(crc.to_be_bytes().iter())
        .copied()
        .collect();

    let chunk = Chunk::try_from(chunk_data.as_ref()).unwrap();

    let chunk_string = chunk.data_as_string().unwrap();
    let expected_chunk_string = String::from("This is where your secret message will be!");

    assert_eq!(chunk.length(), 42);
    assert_eq!(chunk.chunk_type().to_string().unwrap(), String::from("RuSt"));
    assert_eq!(chunk_string, expected_chunk_string);
    assert_eq!(chunk.crc(), 2882656334);
}

#[test]
fn test_invalid_chunk_from_bytes() {
    let data_length: u32 = 42;
    let chunk_type = "RuSt".as_bytes();
    let message_bytes = "This is where your secret message will be!".as_bytes();
    let crc: u32 = 2882656333;

    let chunk_data: Vec<u8> = data_length
        .to_be_bytes()
        .iter()
        .chain(chunk_type.iter())
        .chain(message_bytes.iter())
        .chain(crc.to_be_bytes().iter())
        .copied()
        .collect();

    let chunk = Chunk::try_from(chunk_data.as_ref());

    assert!(chunk.is_err());
}

#[test]
pub fn test_chunk_trait_impls() {
    let data_length: u32 = 42;
    let chunk_type = "RuSt".as_bytes();
    let message_bytes = "This is where your secret message will be!".as_bytes();
    let crc: u32 = 2882656334;

    let chunk_data: Vec<u8> = data_length
        .to_be_bytes()
        .iter()
        .chain(chunk_type.iter())
        .chain(message_bytes.iter())
        .chain(crc.to_be_bytes().iter())
        .copied()
        .collect();

    let chunk: Chunk = TryFrom::try_from(chunk_data.as_ref()).unwrap();

    let _chunk_string = format!("{:?}", chunk);
}

#[test]
fn a_record_is_laid_out_field_by_field() {
    let chunk = Chunk::new(ChunkType::from_str("RuSt").unwrap(), MESSAGE.as_bytes().to_vec());
    let bytes = chunk.as_bytes();
    assert_eq!(bytes.len(), 4 + 4 + 42 + 4);
    assert_eq!(bytes.len(), 54);
    assert_eq!(&bytes[0..4], &[0, 0, 0, 42]);
    assert_eq!(&bytes[4..8], b"RuSt");
    assert_eq!(&bytes[8..50], MESSAGE.as_bytes());
    assert_eq!(&bytes[50..54], &[0xab, 0xd1, 0xd8, 0x4e]);
    assert_eq!(u32::from_be_bytes([bytes[0], bytes[1], bytes[2], bytes[3]]), 42);
    assert_eq!(u32::from_be_bytes([bytes[50], bytes[51], bytes[52], bytes[53]]), MESSAGE_CRC);
    assert_eq!(bytes, record(42, b"RuSt", MESSAGE.as_bytes(), MESSAGE_CRC));
}

#[test]
fn a_chunk_without_payload() {
    let chunk = Chunk::new(ChunkType::from_str("IEND").unwrap(), Vec::new());
    assert_eq!(chunk.length(), 0);
    assert_eq!(chunk.crc(), 0xae42_6082);
    assert!(chunk.data().is_empty());
    assert_eq!(chunk.data_as_string().unwrap(), "");
    assert_eq!(chunk.as_bytes(), vec![0, 0, 0, 0, 0x49, 0x45, 0x4e, 0x44, 0xae, 0x42, 0x60, 0x82]);
    let back = Chunk::try_from(chunk.as_bytes().as_slice()).unwrap();
    assert!(back == chunk);
}

#[test]
fn the_checksum_covers_type_and_payload() {
    let chunk = Chunk::new(ChunkType::from_str("tEXt").unwrap(), b"hi".to_vec());
    assert_eq!(chunk.crc(), 1969874655);
    let other_type = Chunk::new(ChunkType::from_str("tEXT").unwrap(), b"hi".to_vec());
    assert_ne!(other_type.crc(), chunk.crc());
    let other_payload = Chunk::new(ChunkType::from_str("tEXt").unwrap(), b"ho".to_vec());
    assert_ne!(other_payload.crc(), chunk.crc());
    // The check value of the CRC-32 catalogue, with the type as its first four bytes.
    let check = Chunk::new(ChunkType::try_from(*b"1234").unwrap(), b"56789".to_vec());
    assert_eq!(check.crc(), 0xcbf4_3926);
}

#[test]
fn reading_a_written_chunk_gives_it_back() {
    let payloads: [&[u8]; 5] = [b"", b"a", MESSAGE.as_bytes(), &[0, 0xff, 0x80, 0x7f], &[0u8; 300]];
    for text in ["RuSt", "IHDR", "tEXt", "rust"] {
        for payload in payloads {
            let tag = ChunkType::from_str(text).unwrap();
            let chunk = Chunk::new(tag, payload.to_vec());
            let bytes = chunk.as_bytes();
            assert_eq!(bytes.len(), 12 + payload.len());
            let back = Chunk::try_from(bytes.as_slice()).unwrap();
            assert!(back == chunk);
            assert_eq!(back.chunk_type().bytes(), tag.bytes());
            assert_eq!(back.data(), payload);
            assert_eq!(back.crc(), chunk.crc());
            assert_eq!(back.length(), chunk.length());
            assert_eq!(back.as_bytes(), bytes);
        }
    }
}

#[test]
fn making_a_chunk_twice_gives_one_checksum() {
    let first = Chunk::new(ChunkType::from_str("RuSt").unwrap(), MESSAGE.as_bytes().to_vec());
    let second = Chunk::new(ChunkType::from_str("RuSt").unwrap(), MESSAGE.as_bytes().to_vec());
    assert_eq!(first.crc(), second.crc());
    assert!(first == second);
    assert_eq!(first.as_bytes(), second.as_bytes());
}

#[test]
fn one_flipped_bit_fails_the_checksum() {
    let good = record(42, b"RuSt", MESSAGE.as_bytes(), MESSAGE_CRC);
    assert!(Chunk::try_from(good.as_slice()).is_ok());
    for index in 4..good.len() {
        for bit in 0..8 {
            let mut bad = good.clone();
            bad[index] ^= 1 << bit;
            assert_eq!(Chunk::try_from(bad.as_slice()).unwrap_err(), ChunkError::ChecksumMismatch);
            assert_eq!(Chunk::read_chunk(bad.as_slice()).unwrap_err(), ChunkError::ChecksumMismatch);
        }
    }
}

#[test]
fn one_changed_byte_fails_the_checksum() {
    let good = record(2, b"tEXt", b"hi", 1969874655);
    assert!(Chunk::try_from(good.as_slice()).is_ok());
    for index in 4..good.len() {
        for value in 0..=255u8 {
            if value != good[index] {
                let mut bad = good.clone();
                bad[index] = value;
                assert_eq!(
                    Chunk::try_from(bad.as_slice()).unwrap_err(),
                    ChunkError::ChecksumMismatch
                );
            }
        }
    }
}

#[test]
fn the_first_six_bytes_are_a_truncated_input() {
    let good = record(42, b"RuSt", MESSAGE.as_bytes(), MESSAGE_CRC);
    assert_eq!(Chunk::try_from(&good[..6]).unwrap_err(), ChunkError::TruncatedInput);
    assert_eq!(Chunk::read_chunk(&good[..6]).unwrap_err(), ChunkError::TruncatedInput);
}

#[test]
fn every_cut_record_is_a_truncated_input() {
    let good = record(42, b"RuSt", MESSAGE.as_bytes(), MESSAGE_CRC);
    for kept in 0..good.len() {
        assert_eq!(Chunk::try_from(&good[..kept]).unwrap_err(), ChunkError::TruncatedInput);
        assert_eq!(Chunk::read_chunk(&good[..kept]).unwrap_err(), ChunkError::TruncatedInput);
    }
}

#[test]
fn a_length_beyond_the_input_is_a_truncated_input() {
    let huge = record(u32::MAX, b"RuSt", b"short", 0);
    assert_eq!(Chunk::read_chunk(huge.as_slice()).unwrap_err(), ChunkError::TruncatedInput);
    let one_more = record(43, b"RuSt", MESSAGE.as_bytes(), MESSAGE_CRC);
    assert_eq!(Chunk::read_chunk(one_more.as_slice()).unwrap_err(), ChunkError::TruncatedInput);
}

#[test]
fn bytes_after_the_record() {
    let mut bytes = record(42, b"RuSt", MESSAGE.as_bytes(), MESSAGE_CRC);
    bytes.push(0);
    assert_eq!(Chunk::try_from(bytes.as_slice()).unwrap_err(), ChunkError::TrailingData);
    let (chunk, used) = Chunk::read_chunk(bytes.as_slice()).unwrap();
    assert_eq!(used, 54);
    assert_eq!(chunk.data(), MESSAGE.as_bytes());
}

#[test]
fn a_bad_checksum_is_found_before_the_bytes_after_it() {
    let mut bytes = record(42, b"RuSt", MESSAGE.as_bytes(), MESSAGE_CRC - 1);
    bytes.extend_from_slice(b"more");
    assert_eq!(Chunk::try_from(bytes.as_slice()).unwrap_err(), ChunkError::ChecksumMismatch);
}

#[test]
fn records_one_after_the_other() {
    let first = Chunk::new(ChunkType::from_str("tEXt").unwrap(), b"hi".to_vec());
    let second = Chunk::new(ChunkType::from_str("IEND").unwrap(), Vec::new());
    let mut bytes = first.as_bytes();
    bytes.extend_from_slice(&second.as_bytes());
    let (one, used_one) = Chunk::read_chunk(bytes.as_slice()).unwrap();
    assert_eq!(used_one, 14);
    assert!(one == first);
    let (two, used_two) = Chunk::read_chunk(&bytes[used_one..]).unwrap();
    assert_eq!(used_two, 12);
    assert!(two == second);
    assert_eq!(used_one + used_two, bytes.len());
}

#[test]
fn a_type_that_is_no_letters_is_read_all_the_same() {
    let tag = [0x31, 0x00, 0xff, 0x20];
    let payload = [1u8, 2, 3];
    let chunk = Chunk::new(ChunkType::try_from(tag).unwrap(), payload.to_vec());
    let back = Chunk::try_from(chunk.as_bytes().as_slice()).unwrap();
    assert_eq!(back.chunk_type().bytes(), tag);
    assert!(!back.chunk_type().is_valid());
    assert_eq!(back.chunk_type().to_string(), Err(ChunkError::EncodingError));
}

#[test]
fn a_payload_that_is_no_text() {
    let chunk = Chunk::new(ChunkType::from_str("RuSt").unwrap(), vec![0x66, 0xff, 0x6f]);
    assert_eq!(chunk.data_as_string(), Err(ChunkError::EncodingError));
    let cut = Chunk::new(ChunkType::from_str("RuSt").unwrap(), vec![0xe2, 0x82]);
    assert_eq!(cut.data_as_string(), Err(ChunkError::EncodingError));
}

#[test]
fn a_payload_in_utf8_is_given_as_it_is() {
    let text = "caf\u{e9} \u{20ac} \n\t end";
    let chunk = Chunk::new(ChunkType::from_str("RuSt").unwrap(), text.as_bytes().to_vec());
    assert_eq!(chunk.data_as_string().unwrap(), text);
    assert_eq!(chunk.length() as usize, text.len());
}

#[test]
fn chunks_differ_by_type_or_payload() {
    let chunk = Chunk::new(ChunkType::from_str("RuSt").unwrap(), b"abc".to_vec());
    assert!(chunk != Chunk::new(ChunkType::from_str("RuSt").unwrap(), b"abd".to_vec()));
    assert!(chunk != Chunk::new(ChunkType::from_str("RuSt").unwrap(), b"ab".to_vec()));
    assert!(chunk != Chunk::new(ChunkType::from_str("RuST").unwrap(), b"abc".to_vec()));
    assert!(chunk == Chunk::new(ChunkType::from_str("RuSt").unwrap(), b"abc".to_vec()));
}

#[test]
fn numbers_are_written_most_significant_byte_first() {
    assert_eq!(u32_to_be_bytes(0x0102_0304), [1, 2, 3, 4]);
    assert_eq!(u32_to_be_bytes(0), [0, 0, 0, 0]);
    assert_eq!(u32_to_be_bytes(u32::MAX), [255, 255, 255, 255]);
    assert_eq!(u32_to_be_bytes(42), [0, 0, 0, 42]);
    assert_eq!(u32_to_be_bytes(0x1234_5678), 0x1234_5678u32.to_be_bytes());
    assert_eq!(u32_from_be_bytes(&[9, 1, 2, 3, 4, 9], 1), 0x0102_0304);
    assert_eq!(u32_from_be_bytes(&[255, 255, 255, 255], 0), u32::MAX);
    assert_eq!(u32_from_be_bytes(&[0xab, 0xd1, 0xd8, 0x4e], 0), MESSAGE_CRC);
}
