use bin_proto::{
    BitDecode, BitDecodeExt, BitEncode, BitEncodeExt, BitInput, BitOutput, Bits, ByteOrder, Error,
    Tag, Untagged,
};
use std::collections::VecDeque;
use std::rc::Rc;
use std::sync::Arc;

fn encode_with<T: BitEncode<(), Tg> + ?Sized, Tg>(v: &T, tag: Tg) -> Vec<u8> {
    v.encode_bytes_ctx(ByteOrder::BigEndian, &mut (), tag).unwrap()
}

fn decode_all_with<T: BitDecode<(), Tg>, Tg>(bytes: &[u8], tag: Tg) -> bin_proto::Result<T> {
    T::decode_all_bytes_ctx(bytes, ByteOrder::BigEndian, &mut (), tag)
}

#[test]
fn vec_single_item_decode() {
    let read: Vec<u8> = decode_all_with(&[0x01], Tag(1usize)).unwrap();
    assert_eq!(read, vec![1]);
}

#[test]
fn box_byte_encode() {
    let buffer = encode_with(&Box::new(1u8), ());
    assert_eq!(buffer, vec![1]);
}

#[test]
fn vec_tagged_codec() {
    let v: Vec<u8> = decode_all_with(&[1, 2, 3], Tag(3usize)).unwrap();
    assert_eq!(v, vec![1, 2, 3]);
    assert_eq!(encode_with(&vec![1u8, 2, 3], Untagged), vec![1, 2, 3]);
}

#[test]
fn vec_untagged_decode() {
    let v: Vec<u8> = decode_all_with(&[1, 2, 3], Untagged).unwrap();
    assert_eq!(v, vec![1, 2, 3]);
    let w: Vec<u16> = decode_all_with(&[0, 1, 0, 2], Untagged).unwrap();
    assert_eq!(w, vec![1, 2]);
}

#[test]
fn vec_untagged_partial_item() {
    let w: bin_proto::Result<Vec<u16>> = decode_all_with(&[0, 1, 0], Untagged);
    assert!(matches!(w, Err(Error::Io(_))));
}

#[test]
fn vec_untagged_zero_width_items() {
    let w: bin_proto::Result<Vec<()>> = decode_all_with(&[0], Untagged);
    assert!(matches!(w, Err(Error::Other(_))));
    let e: Vec<()> = decode_all_with(&[], Untagged).unwrap();
    assert!(e.is_empty());
}

#[test]
fn vec_tagged_too_few_items() {
    let v: bin_proto::Result<Vec<u8>> = decode_all_with(&[1, 2], Tag(3usize));
    assert!(matches!(v, Err(Error::Io(_))));
}

#[test]
fn vec_with_count_prefix() {
    let bytes = vec![7u16, 8].encode_bytes(ByteOrder::BigEndian).unwrap();
    assert_eq!(bytes, vec![0, 0, 0, 0, 0, 0, 0, 2, 0, 7, 0, 8]);
    assert_eq!(
        Vec::<u16>::decode_all_bytes(&bytes, ByteOrder::BigEndian).unwrap(),
        vec![7, 8]
    );
}

#[test]
fn slice_encode() {
    let items: &[u8] = &[1, 2, 3];
    assert_eq!(encode_with(items, Untagged), vec![1, 2, 3]);
}

#[test]
fn string_codec() {
    let s: String = decode_all_with(b"abc", Tag(3usize)).unwrap();
    assert_eq!(s, "abc");
    let t: String = decode_all_with(b"abc", Untagged).unwrap();
    assert_eq!(t, "abc");
    assert_eq!(encode_with(&String::from("abc"), Untagged), b"abc".to_vec());
}

#[test]
fn string_utf8_multibyte() {
    let s = String::from("\u{e9}t\u{e9}");
    let bytes = encode_with(&s, Untagged);
    assert_eq!(bytes, vec![0xC3, 0xA9, b't', 0xC3, 0xA9]);
    let back: String = decode_all_with(&bytes, Tag(5usize)).unwrap();
    assert_eq!(back, s);
}

#[test]
fn string_invalid_utf8() {
    let s: bin_proto::Result<String> = decode_all_with(&[0xFF, 0xFE], Untagged);
    assert!(matches!(s, Err(Error::FromUtf8(_))));
}

#[test]
fn string_with_length_prefix() {
    let bytes = String::from("hi").encode_bytes(ByteOrder::LittleEndian).unwrap();
    assert_eq!(bytes, vec![2, 0, 0, 0, 0, 0, 0, 0, b'h', b'i']);
    assert_eq!(
        String::decode_all_bytes(&bytes, ByteOrder::LittleEndian).unwrap(),
        "hi"
    );
}

#[test]
fn option_none() {
    let v: Option<u8> = decode_all_with(&[], Tag(false)).unwrap();
    assert_eq!(v, None);
    assert_eq!(encode_with(&None::<u8>, Untagged), Vec::<u8>::new());
}

#[test]
fn option_some() {
    let v: Option<u8> = decode_all_with(&[0x01], Tag(true)).unwrap();
    assert_eq!(v, Some(1));
    assert_eq!(encode_with(&Some(1u8), Untagged), vec![0x01]);
}

#[test]
fn option_with_flag() {
    let bytes = Some(0x0102u16).encode_bytes(ByteOrder::BigEndian).unwrap();
    assert_eq!(bytes, vec![1, 1, 2]);
    assert_eq!(
        Option::<u16>::decode_all_bytes(&bytes, ByteOrder::BigEndian).unwrap(),
        Some(0x0102)
    );
    assert_eq!(None::<u16>.encode_bytes(ByteOrder::BigEndian).unwrap(), vec![0]);
}

#[test]
fn tuples() {
    let bytes = (1u8, 0x0203u16).encode_bytes(ByteOrder::BigEndian).unwrap();
    assert_eq!(bytes, vec![1, 2, 3]);
    assert_eq!(
        <(u8, u16)>::decode_all_bytes(&bytes, ByteOrder::BigEndian).unwrap(),
        (1, 0x0203)
    );
    let triple = (true, 5u8, -1i8);
    let bytes = triple.encode_bytes(ByteOrder::BigEndian).unwrap();
    assert_eq!(bytes, vec![1, 5, 0xFF]);
    let quad = (1u8, 2u8, 3u8, 4u8);
    assert_eq!(quad.encode_bytes(ByteOrder::BigEndian).unwrap(), vec![1, 2, 3, 4]);
    assert_eq!(
        <(u8, u8, u8, u8)>::decode_all_bytes(&[1, 2, 3, 4], ByteOrder::BigEndian).unwrap(),
        quad
    );
}

#[test]
fn single_tuple_keeps_tag() {
    let v: (Vec<u8>,) = decode_all_with(&[4, 5], Tag(2usize)).unwrap();
    assert_eq!(v, (vec![4, 5],));
}

#[test]
fn unit_codec() {
    assert_eq!(().encode_bytes(ByteOrder::BigEndian).unwrap(), Vec::<u8>::new());
    <()>::decode_all_bytes(&[], ByteOrder::BigEndian).unwrap();
}

#[test]
fn array_codec() {
    let a: [u8; 4] = <[u8; 4]>::decode_all_bytes(&[0, 1, 2, 3], ByteOrder::BigEndian).unwrap();
    assert_eq!(a, [0, 1, 2, 3]);
    assert_eq!([0u8, 1, 2, 3].encode_bytes(ByteOrder::BigEndian).unwrap(), vec![0, 1, 2, 3]);
    assert!(<[u8; 4]>::decode_all_bytes(&[0, 1, 2], ByteOrder::BigEndian).is_err());
}

#[test]
fn smart_pointers() {
    let b: Box<u16> = decode_all_with(&[0, 9], ()).unwrap();
    assert_eq!(*b, 9);
    let r: Rc<u8> = decode_all_with(&[3], ()).unwrap();
    assert_eq!(*r, 3);
    let a: Arc<u8> = decode_all_with(&[4], ()).unwrap();
    assert_eq!(*a, 4);
    assert_eq!(encode_with(&Rc::new(7u8), ()), vec![7]);
    assert_eq!(encode_with(&Arc::new(8u8), ()), vec![8]);
    assert_eq!(encode_with(&&9u8, ()), vec![9]);
}

#[test]
fn readme_example() {
    let bytes = [
        0b1000_0000 | 0b101_0000 | 0b0001,
        0x02,
        0x21,
        0x37,
        0x00,
        0x01,
        0x33,
        0x01,
        0x02,
        0x03,
    ];
    let mut r = BitInput::new(&bytes, ByteOrder::BigEndian);
    let bitflag = <bool as BitDecode<(), Bits<1>>>::decode(&mut r, &mut (), Bits::<1>).unwrap();
    let bitfield = <u8 as BitDecode<(), Bits<3>>>::decode(&mut r, &mut (), Bits::<3>).unwrap();
    let enum_ = <u8 as BitDecode<(), Bits<4>>>::decode(&mut r, &mut (), Bits::<4>).unwrap();
    let arr_len = <u8 as BitDecode<(), ()>>::decode(&mut r, &mut (), ()).unwrap();
    let arr =
        <Vec<u8> as BitDecode<(), Tag<usize>>>::decode(&mut r, &mut (), Tag(arr_len as usize))
            .unwrap();
    let prefix = <u16 as BitDecode<(), ()>>::decode(&mut r, &mut (), ()).unwrap();
    let prefixed_arr =
        <Vec<u8> as BitDecode<(), Tag<usize>>>::decode(&mut r, &mut (), Tag(prefix as usize))
            .unwrap();
    let read_to_end = <Vec<u8> as BitDecode<(), Untagged>>::decode(&mut r, &mut (), Untagged).unwrap();
    assert!(bitflag);
    assert_eq!(bitfield, 5);
    assert_eq!(enum_, 1);
    assert_eq!(arr_len, 2);
    assert_eq!(arr, vec![0x21, 0x37]);
    assert_eq!(prefixed_arr, vec![0x33]);
    assert_eq!(read_to_end, vec![0x01, 0x02, 0x03]);

    let mut w = BitOutput::new(ByteOrder::BigEndian);
    true.encode(&mut w, &mut (), Bits::<1>).unwrap();
    5u8.encode(&mut w, &mut (), Bits::<3>).unwrap();
    1u8.encode(&mut w, &mut (), Bits::<4>).unwrap();
    2u8.encode(&mut w, &mut (), ()).unwrap();
    arr.encode(&mut w, &mut (), Untagged).unwrap();
    1u16.encode(&mut w, &mut (), ()).unwrap();
    prefixed_arr.encode(&mut w, &mut (), Untagged).unwrap();
    read_to_end.encode(&mut w, &mut (), Untagged).unwrap();
    assert_eq!(w.into_bytes(), bytes.to_vec());
}

#[test]
fn vec_deque_codec() {
    let d: VecDeque<u8> = decode_all_with(&[1, 2, 3], Tag(3usize)).unwrap();
    assert_eq!(d, VecDeque::from(vec![1, 2, 3]));
    let e: VecDeque<u16> = decode_all_with(&[0, 1, 0, 2], Untagged).unwrap();
    assert_eq!(e, VecDeque::from(vec![1, 2]));
    assert_eq!(encode_with(&VecDeque::from(vec![4u8, 5]), Untagged), vec![4, 5]);
}

#[test]
fn trailing_bits_ignored_by_prefix_decode() {
    let (v, n) = <(u8, u8)>::decode_bytes(&[1, 2, 3, 4], ByteOrder::BigEndian).unwrap();
    assert_eq!(v, (1, 2));
    assert_eq!(n, 16);
    let (s, m) =
        String::decode_bytes_ctx(b"abcdef", ByteOrder::BigEndian, &mut (), Tag(2usize)).unwrap();
    assert_eq!(s, "ab");
    assert_eq!(m, 16);
}

#[test]
fn str_encode() {
    assert_eq!(encode_with("abc", Untagged), b"abc".to_vec());
    let counted = "ab".encode_bytes(ByteOrder::BigEndian).unwrap();
    assert_eq!(counted, vec![0, 0, 0, 0, 0, 0, 0, 2, b'a', b'b']);
}

#[test]
fn boxed_str_and_slice_decode() {
    let s: Box<str> = decode_all_with(b"abc", Tag(3usize)).unwrap();
    assert_eq!(&*s, "abc");
    let u: Box<str> = decode_all_with(b"abc", Untagged).unwrap();
    assert_eq!(&*u, "abc");
    let b: Box<[u8]> = decode_all_with(&[1, 2, 3], Tag(3usize)).unwrap();
    assert_eq!(&*b, &[1, 2, 3]);
    let c: Box<[u8]> = decode_all_with(&[1, 2, 3], Untagged).unwrap();
    assert_eq!(&*c, &[1, 2, 3]);
}

#[test]
fn string_errors() {
    let bad: bin_proto::Result<String> = decode_all_with(&[0xC3, 0x28], Tag(2usize));
    assert!(matches!(bad, Err(Error::FromUtf8(_))));
    let short: bin_proto::Result<String> = decode_all_with(&[0x61], Tag(3usize));
    assert!(matches!(short, Err(Error::Io(_))));
}

#[test]
fn markers_codec() {
    use_markers();
}

fn use_markers() {
    let p: std::marker::PhantomData<u8> = decode_all_with(&[], ()).unwrap();
    assert_eq!(encode_with(&p, ()), Vec::<u8>::new());
    let q: std::marker::PhantomPinned = decode_all_with(&[], ()).unwrap();
    assert_eq!(encode_with(&q, ()), Vec::<u8>::new());
}

#[test]
fn string_decode_try_reserve() {
    let mut read = BitInput::new(&[], ByteOrder::BigEndian);
    let r = <String as BitDecode<(), _>>::decode(&mut read, &mut (), Tag(usize::MAX));
    assert!(matches!(r, Err(Error::TryReserve(_))));
}

#[test]
fn boxed_str_decode_try_reserve() {
    let mut read = BitInput::new(&[], ByteOrder::BigEndian);
    let r = <Box<str> as BitDecode<(), _>>::decode(&mut read, &mut (), Tag(usize::MAX));
    assert!(matches!(r, Err(Error::TryReserve(_))));
}

#[test]
fn boxed_slice_decode_try_reserve() {
    let mut read = BitInput::new(&[], ByteOrder::BigEndian);
    let r = <Box<[u8]> as BitDecode<(), _>>::decode(&mut read, &mut (), Tag(usize::MAX));
    assert!(matches!(r, Err(Error::TryReserve(_))));
}

#[test]
fn wide_items_decode_try_reserve() {
    // Each `u16` takes two bytes, so `isize::MAX` of them cannot be held.
    let r: bin_proto::Result<Vec<u16>> = decode_all_with(&[], Tag(isize::MAX as usize));
    assert!(matches!(r, Err(Error::TryReserve(_))));
    let d: bin_proto::Result<VecDeque<u16>> = decode_all_with(&[], Tag(isize::MAX as usize));
    assert!(matches!(d, Err(Error::TryReserve(_))));
}

#[test]
fn inner_errors_pass_through() {
    let mut flagged = vec![0x01];
    flagged.extend_from_slice(&1usize.to_be_bytes());
    flagged.push(0xff);
    let o: bin_proto::Result<Option<String>> = decode_all_with(&flagged, ());
    assert!(matches!(o, Err(Error::FromUtf8(_))));
    let present: bin_proto::Result<Option<u16>> = decode_all_with(&[0x01], Tag(true));
    assert!(matches!(present, Err(Error::Io(_))));
    let pair: bin_proto::Result<(u8, Vec<u8>)> = decode_all_with(&[0x01], ());
    assert!(matches!(pair, Err(Error::Io(_))));
    let zero: bin_proto::Result<Vec<()>> = decode_all_with(&[0x01], Untagged);
    assert!(matches!(zero, Err(Error::Other(_))));
    let strings: bin_proto::Result<(Box<str>,)> = decode_all_with(&[0xff], Untagged);
    assert!(matches!(strings, Err(Error::FromUtf8(_))));
}

#[test]
fn byte_buffer_helpers_keep_the_error() {
    let r = <u16 as BitDecodeExt>::decode_bytes(&[0x01], ByteOrder::BigEndian);
    assert!(matches!(r, Err(Error::Io(_))));
    let a = <u16 as BitDecodeExt>::decode_all_bytes(&[0x01], ByteOrder::BigEndian);
    assert!(matches!(a, Err(Error::Io(_))));
    let u = <u8 as BitDecodeExt>::decode_all_bytes(&[0x01, 0x02], ByteOrder::BigEndian);
    assert!(matches!(u, Err(Error::Underrun { read_bits: 8, available_bits: 16 })));
    let too_wide = 300u16.encode_bytes_ctx(ByteOrder::BigEndian, &mut (), Bits::<8>);
    assert!(matches!(too_wide, Err(Error::Io(_))));
}

#[test]
fn tags_of_any_integer_type() {
    let a: Vec<u8> = decode_all_with(&[1, 2, 3], Tag(3u8)).unwrap();
    assert_eq!(a, vec![1, 2, 3]);
    let b: Vec<u8> = decode_all_with(&[1, 2], Tag(2i64)).unwrap();
    assert_eq!(b, vec![1, 2]);
    let c: String = decode_all_with(b"hi", Tag(2u16)).unwrap();
    assert_eq!(c, "hi");
    let d: VecDeque<u8> = decode_all_with(&[7], Tag(1i32)).unwrap();
    assert_eq!(d, VecDeque::from(vec![7]));
    let e: Box<[u8]> = decode_all_with(&[], Tag(0u128)).unwrap();
    assert!(e.is_empty());
}

#[test]
fn tags_that_are_no_count() {
    let neg: bin_proto::Result<Vec<u8>> = decode_all_with(&[1], Tag(-1i32));
    assert!(matches!(neg, Err(Error::TagConvert)));
    let huge: bin_proto::Result<String> = decode_all_with(&[1], Tag(u128::MAX));
    assert!(matches!(huge, Err(Error::TagConvert)));
    let neg_str: bin_proto::Result<Box<str>> = decode_all_with(&[], Tag(-5isize));
    assert!(matches!(neg_str, Err(Error::TagConvert)));
}
