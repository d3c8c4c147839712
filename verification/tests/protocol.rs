use bin_proto::{ByteOrder, ProtocolNoCtx, ProtocolRead, ProtocolWrite};

#[test]
fn protocol_read() {
    let v = u16::from_bytes(&[0x01, 0x02], ByteOrder::BigEndian).unwrap();
    assert_eq!(v, 0x0102);
    let w = u16::from_bytes(&[0x01, 0x02], ByteOrder::LittleEndian).unwrap();
    assert_eq!(w, 0x0201);
    let x = <u32 as ProtocolRead<()>>::from_bytes_ctx(&[0, 0, 0, 9], ByteOrder::BigEndian, &mut ()).unwrap();
    assert_eq!(x, 9);
}

#[test]
fn protocol_write() {
    assert_eq!(0x0102u16.bytes(ByteOrder::BigEndian).unwrap(), vec![1, 2]);
    assert_eq!(0x0102u16.bytes(ByteOrder::LittleEndian).unwrap(), vec![2, 1]);
    assert_eq!(
        <i8 as ProtocolWrite<()>>::bytes_ctx(&-1i8, ByteOrder::BigEndian, &mut ()).unwrap(),
        vec![0xFF]
    );
}

#[test]
fn protocol_read_too_short() {
    assert!(u32::from_bytes(&[1], ByteOrder::BigEndian).is_err());
}

#[test]
fn protocol_read_with_separate_byte_order() {
    let mut r = bin_proto::BitInput::new(&[0x01, 0x02], ByteOrder::BigEndian);
    let v = <u16 as ProtocolRead<()>>::read(&mut r, ByteOrder::LittleEndian, &mut ()).unwrap();
    assert_eq!(v, 0x0102);
}
