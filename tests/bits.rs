use ruffle_core::{BitCursor, Error};

#[test]
fn reads_across_byte_boundaries() {
    let mut c = BitCursor::new(vec![0b1011_0011, 0b1100_0101]);
    assert_eq!(c.read_unsigned(3), Ok(0b101));
    assert_eq!(c.read_unsigned(7), Ok(0b1_0011_11));
    assert_eq!(c.read_unsigned(6), Ok(0b00_0101));
    assert_eq!(c.read_unsigned(1), Err(Error::EndOfStream));
}

#[test]
fn reads_signed_values() {
    let mut c = BitCursor::new(vec![0xFF, 0xFE, 0x80, 0x00]);
    assert_eq!(c.read_signed(16), Ok(-2));
    assert_eq!(c.read_signed(4), Ok(-8));
    assert_eq!(c.read_signed(4), Ok(0));
    assert_eq!(c.read_signed(8), Ok(0));
}

#[test]
fn reads_thirty_two_bits() {
    let mut c = BitCursor::new(vec![0x12, 0x34, 0x56, 0x78, 0x9A]);
    assert_eq!(c.read_unsigned(4), Ok(1));
    assert_eq!(c.read_unsigned(32), Ok(0x2345_6789));
    assert_eq!(c.read_signed(4), Ok(-6));
}

#[test]
fn failed_read_leaves_position() {
    let mut c = BitCursor::new(vec![0xA5]);
    assert_eq!(c.read_unsigned(9), Err(Error::EndOfStream));
    assert!(c.has_bits(8));
    assert!(!c.has_bits(9));
    assert_eq!(c.read_unsigned(8), Ok(0xA5));
}
