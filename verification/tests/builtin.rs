//! Tests of the built-in buffer and the primitive codec implementations.

use cdump::buffer::{CDumpBufferReader, CDumpBufferWriter, CDumpWriter};
use cdump::prim::{CDeserialize, CSerialize};

#[test]
fn writer_into_bytes_and_back() {
    // a writer's backing store can be taken out and handed to a reader
    let mut buf = CDumpBufferWriter::new(16);
    0x55AAu16.serialize(&mut buf);
    let store = buf.into_bytes();
    let mut reader = CDumpBufferReader::new(store);
    assert_eq!(u16::deserialize(&mut reader), 0x55AA);
}

#[test]
fn builtin_deserialize_to() {
    let initial: [u32; 4] = [33, 1984, 11, 6];

    let mut buf = CDumpBufferWriter::new(16);
    for value in initial {
        value.serialize(&mut buf);
    }

    let mut reader = buf.into_reader();
    let mut dst = [0u32; 4];
    for i in 0..dst.len() {
        u32::deserialize_to(&mut reader, &mut dst[i]);
    }

    for (a, b) in initial.iter().zip(dst.iter()) {
        assert_eq!(*a, *b);
    }
}

#[test]
fn builtin_primitive_roundtrip() {
    let mut buf = CDumpBufferWriter::new(16);
    assert!(buf.is_empty());
    0xABu8.serialize(&mut buf);
    0x1234u16.serialize(&mut buf);
    0xDEAD_BEEF_0BAD_CAFEu64.serialize(&mut buf);
    assert!(!buf.is_empty());
    // one byte, one pad byte, two bytes, four pad bytes, eight bytes
    assert_eq!(buf.len(), 16);

    let mut reader = buf.into_reader();
    assert_eq!(u8::deserialize(&mut reader), 0xAB);
    assert_eq!(u16::deserialize(&mut reader), 0x1234);
    assert_eq!(u64::deserialize(&mut reader), 0xDEAD_BEEF_0BAD_CAFE);
}

#[test]
fn builtin_signed_roundtrip() {
    let mut buf = CDumpBufferWriter::new(16);
    (-5i8).serialize(&mut buf);
    (-1234i16).serialize(&mut buf);
    (-123_456_789i32).serialize(&mut buf);
    (-0x1234_5678_9ABC_DEF0i64).serialize(&mut buf);
    127i8.serialize(&mut buf);
    i64::MIN.serialize(&mut buf);
    i64::MAX.serialize(&mut buf);

    let mut reader = buf.into_reader();
    assert_eq!(i8::deserialize(&mut reader), -5);
    assert_eq!(i16::deserialize(&mut reader), -1234);
    assert_eq!(i32::deserialize(&mut reader), -123_456_789);
    assert_eq!(i64::deserialize(&mut reader), -0x1234_5678_9ABC_DEF0);
    assert_eq!(i8::deserialize(&mut reader), 127);
    assert_eq!(i64::deserialize(&mut reader), i64::MIN);
    assert_eq!(i64::deserialize(&mut reader), i64::MAX);
}

#[test]
fn builtin_wide_roundtrip() {
    let mut buf = CDumpBufferWriter::new(16);
    0xDEAD_BEEF_0BAD_CAFE_1234_5678_9ABC_DEF0u128.serialize(&mut buf);
    (-0x0123_4567_89AB_CDEF_0123_4567_89AB_CDEFi128).serialize(&mut buf);
    i128::MIN.serialize(&mut buf);
    u128::MAX.serialize(&mut buf);

    let mut reader = buf.into_reader();
    assert_eq!(
        u128::deserialize(&mut reader),
        0xDEAD_BEEF_0BAD_CAFE_1234_5678_9ABC_DEF0
    );
    assert_eq!(
        i128::deserialize(&mut reader),
        -0x0123_4567_89AB_CDEF_0123_4567_89AB_CDEF
    );
    assert_eq!(i128::deserialize(&mut reader), i128::MIN);
    assert_eq!(u128::deserialize(&mut reader), u128::MAX);
}

#[test]
fn builtin_size_roundtrip() {
    let mut buf = CDumpBufferWriter::new(16);
    0xFEED_FACEusize.serialize(&mut buf);
    (-424242isize).serialize(&mut buf);
    // both dump as one eight-byte word
    assert_eq!(buf.len(), 16);

    let mut reader = buf.into_reader();
    assert_eq!(usize::deserialize(&mut reader), 0xFEED_FACE);
    let mut d: isize = 0;
    isize::deserialize_to(&mut reader, &mut d);
    assert_eq!(d, -424242);
}

#[test]
fn builtin_primitive_alignment() {
    // a one-byte value followed by a four-byte value: the wider value is
    // written at the next multiple of its size
    let mut buf = CDumpBufferWriter::new(16);
    7u8.serialize(&mut buf);
    assert_eq!(buf.len(), 1);
    0x0102_0304u32.serialize(&mut buf);
    assert_eq!(buf.len(), 8);

    let mut reader = buf.into_reader();
    assert_eq!(u8::deserialize(&mut reader), 7);
    assert_eq!(u32::deserialize(&mut reader), 0x0102_0304);
}
