//! Zigzag varint integers: round trips against the reference encoder,
//! boundary values, non-canonical varints, and overflow errors.

use parmeta::decoder::CompactReader;
use parmeta::error::DecodeError;
use parmeta::reader::SharedByteSliceReader;
use thrift_codec::CompactEncode;

fn encode_i16(x: i16) -> Vec<u8> {
    let mut buf = Vec::new();
    x.compact_encode(&mut buf).unwrap();
    buf
}

fn encode_i32(x: i32) -> Vec<u8> {
    let mut buf = Vec::new();
    x.compact_encode(&mut buf).unwrap();
    buf
}

fn encode_i64(x: i64) -> Vec<u8> {
    let mut buf = Vec::new();
    x.compact_encode(&mut buf).unwrap();
    buf
}

#[test]
fn roundtrip_i16_boundaries() {
    for x in [i16::MIN, -1, 0, 1, 42, i16::MAX] {
        let mut r = CompactReader::new(encode_i16(x));
        assert_eq!(r.read_i16(), Ok(x));
    }
}

#[test]
fn roundtrip_i32_boundaries() {
    for x in [i32::MIN, -1, 0, 1, 123456, i32::MAX] {
        let mut r = CompactReader::new(encode_i32(x));
        assert_eq!(r.read_i32(), Ok(x));
    }
}

#[test]
fn roundtrip_i64_boundaries() {
    for x in [i64::MIN, -1, 0, 1, 1 << 40, i64::MAX] {
        let mut r = CompactReader::new(encode_i64(x));
        assert_eq!(r.read_i64(), Ok(x));
    }
}

#[test]
fn zigzag_known_bytes() {
    // zigzag: 0 -> 0, -1 -> 1, 1 -> 2, -2 -> 3, 2 -> 4
    for (byte, value) in [(0u8, 0i64), (1, -1), (2, 1), (3, -2), (4, 2)] {
        let mut r = CompactReader::new(vec![byte]);
        assert_eq!(r.read_i64(), Ok(value));
    }
}

#[test]
fn varint_non_canonical_accepted() {
    // 0x80 0x00 is a two-byte encoding of zero.
    let mut r = SharedByteSliceReader::new(vec![0x80, 0x00]);
    assert_eq!(r.read_varint_u64(), Ok(0));
}

#[test]
fn varint_max_value() {
    // The zigzag image of the minimum 64-bit integer is the largest
    // unsigned 64-bit value.
    let mut r = SharedByteSliceReader::new(encode_i64(i64::MIN));
    assert_eq!(r.read_varint_u64(), Ok(u64::MAX));
}

#[test]
fn varint_overflow_rejected() {
    // Eleven continuation groups carry a value beyond 64 bits.
    let mut bytes = vec![0xFF; 10];
    bytes.push(0x01);
    let mut r = SharedByteSliceReader::new(bytes);
    assert_eq!(r.read_varint_u64(), Err(DecodeError::Overflow));
}

#[test]
fn varint_incomplete_rejected() {
    let mut r = SharedByteSliceReader::new(vec![0x80, 0x80]);
    assert_eq!(r.read_varint_u64(), Err(DecodeError::UnexpectedEof));
}

#[test]
fn i16_range_enforced() {
    // 40000 fits an i32 but not an i16.
    let mut r = CompactReader::new(encode_i32(40000));
    assert_eq!(r.read_i16(), Err(DecodeError::Overflow));
    let mut r = CompactReader::new(encode_i64(1 << 33));
    assert_eq!(r.read_i32(), Err(DecodeError::Overflow));
}

#[test]
fn reader_new_and_copy_inner() {
    let mut r = SharedByteSliceReader::new(vec![7, 8, 9]);
    assert_eq!(r.copy_inner(), vec![7, 8, 9]);
    assert_eq!(r.read_u8(), Ok(7));
    assert_eq!(r.copy_inner(), vec![8, 9]);
    assert_eq!(r.remaining_len(), 2);
    assert_eq!(r.read_u8(), Ok(8));
    assert_eq!(r.read_u8(), Ok(9));
    assert_eq!(r.read_u8(), Err(DecodeError::UnexpectedEof));
}
