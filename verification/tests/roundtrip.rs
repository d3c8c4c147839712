use bin_proto::{BitDecodeExt, BitEncodeExt, ByteOrder};
use proptest::arbitrary::any;
use proptest::test_runner::TestRunner;

fn roundtrip_all<T>(order: ByteOrder)
where
    T: proptest::arbitrary::Arbitrary
        + PartialEq
        + std::fmt::Debug
        + bin_proto::BitEncode<(), ()>
        + bin_proto::BitDecode<(), ()>,
{
    let mut runner = TestRunner::default();
    runner
        .run(&any::<T>(), |x| {
            let bytes = x.encode_bytes(order).unwrap();
            let back = T::decode_all_bytes(&bytes, order).unwrap();
            assert_eq!(x, back);
            Ok(())
        })
        .unwrap();
}

#[test]
fn roundtrip_unsigned() {
    for order in [ByteOrder::BigEndian, ByteOrder::LittleEndian] {
        roundtrip_all::<u8>(order);
        roundtrip_all::<u16>(order);
        roundtrip_all::<u32>(order);
        roundtrip_all::<u64>(order);
        roundtrip_all::<u128>(order);
        roundtrip_all::<usize>(order);
    }
}

#[test]
fn roundtrip_signed() {
    for order in [ByteOrder::BigEndian, ByteOrder::LittleEndian] {
        roundtrip_all::<i8>(order);
        roundtrip_all::<i16>(order);
        roundtrip_all::<i32>(order);
        roundtrip_all::<i64>(order);
        roundtrip_all::<i128>(order);
        roundtrip_all::<isize>(order);
        roundtrip_all::<bool>(order);
    }
}

#[test]
fn roundtrip_compound() {
    for order in [ByteOrder::BigEndian, ByteOrder::LittleEndian] {
        roundtrip_all::<(u8, i32)>(order);
        roundtrip_all::<(bool, u16, i64)>(order);
        roundtrip_all::<Option<i32>>(order);
        roundtrip_all::<Vec<u16>>(order);
        roundtrip_all::<String>(order);
        roundtrip_all::<[u8; 4]>(order);
        roundtrip_all::<()>(order);
    }
}
