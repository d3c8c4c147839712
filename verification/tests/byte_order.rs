use bin_proto::{BitInput, BitOutput, ByteOrder};

#[test]
fn helpers_write_in_their_own_order() {
    let mut w = BitOutput::new(ByteOrder::BigEndian);
    ByteOrder::LittleEndian.write_u16(0x1234, &mut w).unwrap();
    ByteOrder::BigEndian.write_i32(-2, &mut w).unwrap();
    let bytes = w.into_bytes();
    assert_eq!(bytes, vec![0x34, 0x12, 0xFF, 0xFF, 0xFF, 0xFE]);
    let mut r = BitInput::new(&bytes, ByteOrder::BigEndian);
    assert_eq!(ByteOrder::LittleEndian.read_u16(&mut r).unwrap(), 0x1234);
    assert_eq!(ByteOrder::BigEndian.read_i32(&mut r).unwrap(), -2);
    assert!(ByteOrder::BigEndian.read_u16(&mut r).is_err());
}

#[test]
fn helpers_on_little_endian_stream() {
    let mut w = BitOutput::new(ByteOrder::LittleEndian);
    ByteOrder::BigEndian.write_u64(0x0102_0304_0506_0708, &mut w).unwrap();
    ByteOrder::LittleEndian.write_i16(-300, &mut w).unwrap();
    let bytes = w.into_bytes();
    assert_eq!(bytes, vec![1, 2, 3, 4, 5, 6, 7, 8, 0xD4, 0xFE]);
    let mut r = BitInput::new(&bytes, ByteOrder::LittleEndian);
    assert_eq!(ByteOrder::BigEndian.read_u64(&mut r).unwrap(), 0x0102_0304_0506_0708);
    assert_eq!(ByteOrder::LittleEndian.read_i16(&mut r).unwrap(), -300);
}

#[test]
fn helpers_wide_values() {
    let mut w = BitOutput::new(ByteOrder::BigEndian);
    ByteOrder::LittleEndian.write_u128(u128::MAX - 1, &mut w).unwrap();
    ByteOrder::BigEndian.write_i128(i128::MIN, &mut w).unwrap();
    ByteOrder::BigEndian.write_i64(-1, &mut w).unwrap();
    ByteOrder::LittleEndian.write_u32(7, &mut w).unwrap();
    let bytes = w.into_bytes();
    assert_eq!(bytes[0], 0xFE);
    assert_eq!(bytes[16], 0x80);
    let mut r = BitInput::new(&bytes, ByteOrder::BigEndian);
    assert_eq!(ByteOrder::LittleEndian.read_u128(&mut r).unwrap(), u128::MAX - 1);
    assert_eq!(ByteOrder::BigEndian.read_i128(&mut r).unwrap(), i128::MIN);
    assert_eq!(ByteOrder::BigEndian.read_i64(&mut r).unwrap(), -1);
    assert_eq!(ByteOrder::LittleEndian.read_u32(&mut r).unwrap(), 7);
}

#[test]
fn helpers_unaligned() {
    let mut w = BitOutput::new(ByteOrder::BigEndian);
    w.write_bits(4, 0xA).unwrap();
    ByteOrder::LittleEndian.write_u16(0x1234, &mut w).unwrap();
    w.write_bits(4, 0xB).unwrap();
    let bytes = w.into_bytes();
    assert_eq!(bytes, vec![0xA3, 0x41, 0x2B]);
    let mut r = BitInput::new(&bytes, ByteOrder::BigEndian);
    assert_eq!(r.read_bits(4).unwrap(), 0xA);
    assert_eq!(ByteOrder::LittleEndian.read_u16(&mut r).unwrap(), 0x1234);
}
