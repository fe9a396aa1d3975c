use unchecked_bytes::bytes::FixedBytes;
use unchecked_bytes::cursor::ByteSliceExt;

#[test]
fn round_trip_u8_at_offset() {
    let mut buf = vec![0u8; 8];
    buf.write(3, 0x7fu8);
    let v: u8 = buf.read(3);
    assert_eq!(v, 0x7f);
}

#[test]
fn round_trip_u16_at_odd_offset() {
    let mut buf = vec![0u8; 8];
    buf.write(5, 0xBEEFu16);
    let v: u16 = buf.read(5);
    assert_eq!(v, 0xBEEF);
}

#[test]
fn round_trip_u32_at_odd_offset() {
    let mut buf = vec![0u8; 8];
    buf.write(1, 0xDEADBEEFu32);
    let v: u32 = buf.read(1);
    assert_eq!(v, 0xDEADBEEF);
}

#[test]
fn round_trip_u64_at_odd_offset() {
    let mut buf = vec![0u8; 16];
    buf.write(5, 0x0102030405060708u64);
    let v: u64 = buf.read(5);
    assert_eq!(v, 0x0102030405060708);
}

#[test]
fn write_leaves_other_bytes_untouched() {
    let mut buf = vec![0xAAu8; 8];
    buf.write(2, 0x1234u16);
    assert_eq!(buf, vec![0xAA, 0xAA, 0x34, 0x12, 0xAA, 0xAA, 0xAA, 0xAA]);
}

#[test]
fn representation_is_least_significant_byte_first() {
    assert_eq!(0xA1B2C3D4u32.to_bytes(), vec![0xD4, 0xC3, 0xB2, 0xA1]);
    assert_eq!(0x0102030405060708u64.to_bytes(), vec![8, 7, 6, 5, 4, 3, 2, 1]);
    assert_eq!(0xABCDu16.to_bytes(), vec![0xCD, 0xAB]);
    assert_eq!(0x5Au8.to_bytes(), vec![0x5A]);
}

#[test]
fn decoding_inverts_encoding() {
    assert_eq!(u16::of_bytes(&[0xCD, 0xAB]), 0xABCD);
    assert_eq!(u32::of_bytes(&[0xD4, 0xC3, 0xB2, 0xA1]), 0xA1B2C3D4);
    assert_eq!(u64::of_bytes(&[8, 7, 6, 5, 4, 3, 2, 1]), 0x0102030405060708);
    assert_eq!(u8::of_bytes(&[0x5A]), 0x5A);
}

#[test]
fn sizes_match_the_width() {
    assert_eq!(u8::size(), 1);
    assert_eq!(u16::size(), 2);
    assert_eq!(u32::size(), 4);
    assert_eq!(u64::size(), 8);
}

#[test]
fn cursor_advances_by_value_size() {
    let mut buf = vec![0u8; 32];
    let mut cursor = 7usize;
    buf.write_forward(&mut cursor, 0x11223344u32);
    assert_eq!(cursor, 11);
    buf.write_forward(&mut cursor, 0x55u8);
    assert_eq!(cursor, 12);
    let mut back = 7usize;
    let _: u32 = buf.read_forward(&mut back);
    assert_eq!(back, 11);
    let _: u8 = buf.read_forward(&mut back);
    assert_eq!(back, 12);
}

#[test]
fn packing_three_fields_round_trips_in_order() {
    let mut buf = vec![0u8; 16];
    let mut cursor = 0usize;
    buf.write_forward(&mut cursor, 0x42u8);
    buf.write_forward(&mut cursor, 0xCAFEBABEu32);
    buf.write_forward(&mut cursor, 0x1357u16);
    assert_eq!(cursor, 7);
    cursor = 0;
    let a: u8 = buf.read_forward(&mut cursor);
    let b: u32 = buf.read_forward(&mut cursor);
    let c: u16 = buf.read_forward(&mut cursor);
    assert_eq!(a, 0x42);
    assert_eq!(b, 0xCAFEBABE);
    assert_eq!(c, 0x1357);
    assert_eq!(cursor, 7);
}

#[test]
fn two_writes_then_two_reads_from_reset_cursor() {
    let mut buf = vec![0u8; 16];
    let mut cursor = 0usize;
    buf.write_forward(&mut cursor, 0x12345678u32);
    assert_eq!(cursor, 4);
    assert_eq!(&buf[0..4], &[0x78, 0x56, 0x34, 0x12]);
    buf.write_forward(&mut cursor, 0xABCDu16);
    assert_eq!(cursor, 6);
    cursor = 0;
    let first: u32 = buf.read_forward(&mut cursor);
    let second: u16 = buf.read_forward(&mut cursor);
    assert_eq!(first, 0x12345678);
    assert_eq!(second, 0xABCD);
}
