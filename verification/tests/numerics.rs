use bin_proto::{BitDecode, BitDecodeExt, BitEncode, BitEncodeExt, BitInput, BitOutput, Bits, ByteOrder, Error};

fn encode_bits<T: BitEncode<(), Bits<C>>, const C: u32>(w: &mut BitOutput, v: T) {
    v.encode(w, &mut (), Bits::<C>).unwrap();
}

#[test]
fn u8_codec() {
    assert_eq!(5u8.encode_bytes(ByteOrder::BigEndian).unwrap(), vec![0x05]);
    assert_eq!(u8::decode_all_bytes(&[0x05], ByteOrder::BigEndian).unwrap(), 5);
}

#[test]
fn u16_big_endian_bytes() {
    assert_eq!(0x1234u16.encode_bytes(ByteOrder::BigEndian).unwrap(), vec![0x12, 0x34]);
    assert_eq!(u16::decode_all_bytes(&[0x12, 0x34], ByteOrder::BigEndian).unwrap(), 0x1234);
}

#[test]
fn u16_little_endian_bytes() {
    assert_eq!(0x1234u16.encode_bytes(ByteOrder::LittleEndian).unwrap(), vec![0x34, 0x12]);
    assert_eq!(u16::decode_all_bytes(&[0x34, 0x12], ByteOrder::LittleEndian).unwrap(), 0x1234);
}

#[test]
fn u32_and_u64_bytes() {
    assert_eq!(
        0x0102_0304u32.encode_bytes(ByteOrder::BigEndian).unwrap(),
        vec![1, 2, 3, 4]
    );
    assert_eq!(
        0x0102_0304u32.encode_bytes(ByteOrder::LittleEndian).unwrap(),
        vec![4, 3, 2, 1]
    );
    assert_eq!(
        u64::decode_all_bytes(&[0, 0, 0, 0, 0, 0, 1, 0], ByteOrder::BigEndian).unwrap(),
        256
    );
}

#[test]
fn signed_bytes() {
    assert_eq!((-2i16).encode_bytes(ByteOrder::BigEndian).unwrap(), vec![0xFF, 0xFE]);
    assert_eq!(i16::decode_all_bytes(&[0xFE, 0xFF], ByteOrder::LittleEndian).unwrap(), -2);
    assert_eq!(i8::decode_all_bytes(&[0x80], ByteOrder::BigEndian).unwrap(), -128);
    assert_eq!(
        i32::decode_all_bytes(&[0xFF, 0xFF, 0xFF, 0x9C], ByteOrder::BigEndian).unwrap(),
        -100
    );
    assert_eq!(
        (-1i64).encode_bytes(ByteOrder::LittleEndian).unwrap(),
        vec![0xFF; 8]
    );
}

#[test]
fn wide_integers() {
    let v: u128 = 0x0102_0304_0506_0708_090A_0B0C_0D0E_0F10;
    let be = v.encode_bytes(ByteOrder::BigEndian).unwrap();
    assert_eq!(be, (1u8..=16).collect::<Vec<u8>>());
    assert_eq!(u128::decode_all_bytes(&be, ByteOrder::BigEndian).unwrap(), v);
    let le = v.encode_bytes(ByteOrder::LittleEndian).unwrap();
    assert_eq!(le, (1u8..=16).rev().collect::<Vec<u8>>());
    assert_eq!(u128::decode_all_bytes(&le, ByteOrder::LittleEndian).unwrap(), v);
    let n: i128 = -3;
    let bytes = n.encode_bytes(ByteOrder::BigEndian).unwrap();
    assert_eq!(bytes[15], 0xFD);
    assert_eq!(i128::decode_all_bytes(&bytes, ByteOrder::BigEndian).unwrap(), -3);
}

#[test]
fn pointer_sized_integers() {
    assert_eq!(
        7usize.encode_bytes(ByteOrder::BigEndian).unwrap(),
        vec![0, 0, 0, 0, 0, 0, 0, 7]
    );
    assert_eq!(
        isize::decode_all_bytes(&[0xFF; 8], ByteOrder::BigEndian).unwrap(),
        -1
    );
}

#[test]
fn bool_codec() {
    assert_eq!(true.encode_bytes(ByteOrder::BigEndian).unwrap(), vec![1]);
    assert!(bool::decode_all_bytes(&[7], ByteOrder::BigEndian).unwrap());
    assert!(!bool::decode_all_bytes(&[0], ByteOrder::BigEndian).unwrap());
}

#[test]
fn nibbles_big_endian() {
    let mut w = BitOutput::new(ByteOrder::BigEndian);
    encode_bits::<u8, 4>(&mut w, 5);
    encode_bits::<u8, 4>(&mut w, 3);
    assert_eq!(w.into_bytes(), vec![0x53]);
}

#[test]
fn nibbles_little_endian() {
    let mut w = BitOutput::new(ByteOrder::LittleEndian);
    encode_bits::<u8, 4>(&mut w, 5);
    encode_bits::<u8, 4>(&mut w, 3);
    assert_eq!(w.into_bytes(), vec![0x35]);
}

#[test]
fn bitfield_decode() {
    let mut r = BitInput::new(&[0xD1], ByteOrder::BigEndian);
    let flag = <bool as BitDecode<(), Bits<1>>>::decode(&mut r, &mut (), Bits::<1>).unwrap();
    let three = <u8 as BitDecode<(), Bits<3>>>::decode(&mut r, &mut (), Bits::<3>).unwrap();
    let four = <u8 as BitDecode<(), Bits<4>>>::decode(&mut r, &mut (), Bits::<4>).unwrap();
    assert!(flag);
    assert_eq!(three, 5);
    assert_eq!(four, 1);
    assert_eq!(r.remaining_bits(), 0);
}

#[test]
fn signed_bitfield() {
    let mut w = BitOutput::new(ByteOrder::BigEndian);
    encode_bits::<i8, 4>(&mut w, -3);
    encode_bits::<i8, 4>(&mut w, 7);
    let bytes = w.into_bytes();
    assert_eq!(bytes, vec![0xD7]);
    let mut r = BitInput::new(&bytes, ByteOrder::BigEndian);
    assert_eq!(<i8 as BitDecode<(), Bits<4>>>::decode(&mut r, &mut (), Bits::<4>).unwrap(), -3);
    assert_eq!(<i8 as BitDecode<(), Bits<4>>>::decode(&mut r, &mut (), Bits::<4>).unwrap(), 7);
}

#[test]
fn bitfield_value_too_wide() {
    let mut w = BitOutput::new(ByteOrder::BigEndian);
    let res = 16u8.encode(&mut w, &mut (), Bits::<4>);
    assert!(matches!(res, Err(Error::Io(_))));
    let res = 1u8.encode(&mut w, &mut (), Bits::<9>);
    assert!(matches!(res, Err(Error::Io(_))));
    let res = (-9i8).encode(&mut w, &mut (), Bits::<4>);
    assert!(matches!(res, Err(Error::Io(_))));
}

#[test]
fn too_few_bytes() {
    assert!(matches!(
        u32::decode_all_bytes(&[1, 2], ByteOrder::BigEndian),
        Err(Error::Io(_))
    ));
    assert!(matches!(
        u8::decode_bytes(&[], ByteOrder::BigEndian),
        Err(Error::Io(_))
    ));
}

#[test]
fn underrun() {
    let res = u8::decode_all_bytes(&[1, 2], ByteOrder::BigEndian);
    assert!(matches!(
        res,
        Err(Error::Underrun { read_bits: 8, available_bits: 16 })
    ));
    let (v, n) = u8::decode_bytes(&[1, 2], ByteOrder::BigEndian).unwrap();
    assert_eq!((v, n), (1, 8));
}

#[test]
fn encode_into_buffer() {
    let mut buf = [0xAAu8; 4];
    let n = 0x1234u16.encode_bytes_buf(&mut buf, ByteOrder::BigEndian).unwrap();
    assert_eq!(n, 2);
    assert_eq!(buf, [0x12, 0x34, 0xAA, 0xAA]);
}

#[test]
fn encode_into_short_buffer() {
    let mut buf = [0u8; 2];
    let res = 0x0102_0304u32.encode_bytes_buf(&mut buf, ByteOrder::BigEndian);
    assert!(matches!(res, Err(Error::Io(_))));
    assert_eq!(buf, [1, 2]);
}

#[test]
fn padding_to_byte() {
    let mut w = BitOutput::new(ByteOrder::BigEndian);
    encode_bits::<u8, 3>(&mut w, 7);
    w.byte_align();
    assert_eq!(w.into_bytes(), vec![0xE0]);
}

#[test]
fn byte_orders_reverse_bytes() {
    for v in [0u64, 1, 0x0102_0304_0506_0708, u64::MAX, 0xFF00] {
        let be = v.encode_bytes(ByteOrder::BigEndian).unwrap();
        let mut le = v.encode_bytes(ByteOrder::LittleEndian).unwrap();
        le.reverse();
        assert_eq!(be, le);
        assert_eq!(be, v.to_be_bytes().to_vec());
    }
}

#[test]
fn zero_width_bitfields() {
    let mut w = BitOutput::new(ByteOrder::BigEndian);
    w.write_bits(0, 1).unwrap();
    5u8.encode(&mut w, &mut (), Bits::<0>).unwrap();
    true.encode(&mut w, &mut (), Bits::<0>).unwrap();
    0x1234u16.encode(&mut w, &mut (), Bits::<0>).unwrap();
    assert!(w.into_bytes().is_empty());
    let mut r = BitInput::new(&[0xFF], ByteOrder::BigEndian);
    assert_eq!(<u8 as BitDecode<(), Bits<0>>>::decode(&mut r, &mut (), Bits::<0>).unwrap(), 0);
    assert!(!<bool as BitDecode<(), Bits<0>>>::decode(&mut r, &mut (), Bits::<0>).unwrap());
    assert_eq!(r.remaining_bits(), 8);
    assert!((-1i8).encode(&mut BitOutput::new(ByteOrder::BigEndian), &mut (), Bits::<0>).is_err());
}

#[test]
fn failed_read_spends_the_stream() {
    let mut r = BitInput::new(&[0x07, 0x00], ByteOrder::BigEndian);
    assert_eq!(r.read_bits(5).unwrap(), 0);
    assert!(r.read_bits(12).is_err());
    assert_eq!(r.remaining_bits(), 0);
    assert_eq!(r.position_in_bits(), 16);
    assert!(r.read_bits(3).is_err());
    assert_eq!(r.read_bits(0).unwrap(), 0);
}

#[test]
fn failed_encode_into_buffer() {
    let mut buf = [0xAAu8; 2];
    let res = 300u16.encode_bytes_ctx_buf(&mut buf, ByteOrder::BigEndian, &mut (), Bits::<8>);
    assert!(matches!(res, Err(Error::Io(_))));
    assert_eq!(buf, [0xAA, 0xAA]);
}

#[test]
fn partial_byte_is_dropped() {
    let mut w = BitOutput::new(ByteOrder::BigEndian);
    w.write_bits(8, 0x5A).unwrap();
    w.write_bits(3, 0b101).unwrap();
    assert_eq!(w.into_bytes(), vec![0x5A]);
}
