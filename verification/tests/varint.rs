use hopper::error::ProtoError;
use hopper::varint::{read_varint, write_varint, VarInt};

fn test_varint(val: i32, expected: &[u8]) {
    let mut buf: Vec<u8> = Vec::new();
    let written = write_varint(&mut buf, VarInt(val));
    assert_eq!(&buf[..], expected);
    assert_eq!(written, expected.len());

    let (res, size) = read_varint(expected, 0).unwrap();
    assert_eq!(res, VarInt(val));
    assert_eq!(size, expected.len());
}

#[test]
fn varint_write() {
    test_varint(0, &[0]);
    test_varint(2, &[2]);
    test_varint(255, &[0xFF, 0x01]);
    test_varint(25565, &[0xDD, 0xC7, 0x01]);
    test_varint(-1, &[0xFF, 0xFF, 0xFF, 0xFF, 0x0F]);
}

#[test]
fn varint_limits() {
    test_varint(i32::MIN, &[0x80, 0x80, 0x80, 0x80, 0x08]);
    test_varint(i32::MAX, &[0xFF, 0xFF, 0xFF, 0xFF, 0x07]);
}

#[test]
fn varint_too_long_rejected() {
    // five continuation bits in a row exceed the 5-byte limit
    let bytes = [0xFFu8, 0xFF, 0xFF, 0xFF, 0xFF, 0x01];
    assert_eq!(read_varint(&bytes, 0), Err(ProtoError::VarInt));
}

#[test]
fn varint_truncated() {
    let bytes = [0xFFu8, 0xFF];
    assert_eq!(read_varint(&bytes, 0), Err(ProtoError::Eof));
}

#[test]
fn varint_non_canonical_accepted() {
    // a padded zero still decodes: the reader follows continuation bits
    let bytes = [0x80u8, 0x00];
    let (v, size) = read_varint(&bytes, 0).unwrap();
    assert_eq!(v, VarInt(0));
    assert_eq!(size, 2);
}
