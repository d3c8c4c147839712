//! Strings, carried as their UTF-8 bytes.
use vstd::prelude::*;
use crate::model::Model;
use vstd::utf8::{decode_utf8, encode_utf8, encode_utf8_decode_utf8, encode_utf8_valid_utf8, valid_utf8};
use crate::byte_order::ByteOrder;
use crate::codec::{BitDecode, BitEncode, Tag, TagCount, Untagged, roundtrips};
use crate::error::{Error, Result};
use crate::impls::list::{
    all_roundtrip, decode_items, decode_items_to_end, decode_items_to_end_error,
    decode_items_until_end, decode_list, decode_list_error, decode_list_items, encode_all_items,
    encode_items, encode_items_error, law_vec_tagged_roundtrip, law_vec_untagged_roundtrip,
};
use crate::impls::numerics::law_u8_roundtrip;
use crate::impls::size::law_usize_roundtrip;
use crate::stream::{BitInput, BitOutput};

verus! {

/// `String::from_utf8`: the string that the bytes encode, or an error when they are not
/// valid UTF-8.
#[verifier::external_body]
fn string_from_utf8(bytes: Vec<u8>) -> (res: core::result::Result<String, std::string::FromUtf8Error>)
    ensures
        res is Ok <==> valid_utf8(bytes@),
        res matches Ok(s) ==> s@ == decode_utf8(bytes@),
{
    String::from_utf8(bytes)
}

/// The characters that decoded bytes hold, where they are valid UTF-8.
pub open spec fn utf8_chars(bytes: Option<(Seq<u8>, nat)>) -> Option<(Seq<char>, nat)> {
    match bytes {
        Some((b, n)) => if valid_utf8(b) {
            Some((decode_utf8(b), n))
        } else {
            None
        },
        None => None,
    }
}

/// Turns decoded bytes into a string.
fn bytes_to_string(bytes: Vec<u8>) -> (res: Result<String>)
    ensures
        res is Ok <==> valid_utf8(bytes.model()),
        res matches Ok(s) ==> s@ == decode_utf8(bytes.model()),
        res matches Err(e) ==> e is FromUtf8,
{
    assert(bytes.model() =~= bytes@);
    match string_from_utf8(bytes) {
        Ok(s) => Ok(s),
        Err(e) => Err(Error::FromUtf8(e)),
    }
}

impl<Ctx, Tg: TagCount> BitDecode<Ctx, Tag<Tg>> for String {
    /// As many bytes as the tag counts, which must be valid UTF-8. Room for the bytes is
    /// made first: a count past `isize::MAX` bytes is refused before anything is read.
    open spec fn spec_decode(bits: Seq<bool>, order: ByteOrder, tag: Tag<Tg>) -> Option<
        (Seq<char>, nat),
    > {
        match tag.0.spec_count() {
            Some(n) => utf8_chars(decode_list::<u8, Ctx>(bits, order, n as nat)),
            None => None,
        }
    }

    /// The tag is no count, or room for the bytes is refused, or too few bytes are left, or
    /// they are not UTF-8.
    open spec fn spec_decode_error(bits: Seq<bool>, order: ByteOrder, tag: Tag<Tg>, e: Error) -> bool {
        match tag.0.spec_count() {
            Some(n) => match decode_list::<u8, Ctx>(bits, order, n as nat) {
                Some(_) => e is FromUtf8,
                None => decode_list_error::<u8, Ctx>(bits, order, n as nat, e),
            },
            None => e is TagConvert,
        }
    }

    fn decode(read: &mut BitInput, ctx: &mut Ctx, tag: Tag<Tg>) -> (res: Result<String>) {
        let n = match tag.0.count() {
            Some(n) => n,
            None => {
                proof {
                    BitInput::lemma_advanced_refl(&*read);
                }
                return Err(Error::TagConvert);
            },
        };
        let bytes = decode_list_items::<u8, Ctx>(read, ctx, n)?;
        bytes_to_string(bytes)
    }
}

impl<Ctx> BitDecode<Ctx, Untagged> for String {
    /// Bytes up to the end of the stream, which must be valid UTF-8.
    open spec fn spec_decode(bits: Seq<bool>, order: ByteOrder, tag: Untagged) -> Option<
        (Seq<char>, nat),
    > {
        match decode_items_to_end::<u8, Ctx>(bits, order) {
            Some(b) => utf8_chars(Some((b, bits.len()))),
            None => None,
        }
    }

    /// Reading the bytes fails, or they are not UTF-8.
    open spec fn spec_decode_error(bits: Seq<bool>, order: ByteOrder, tag: Untagged, e: Error) -> bool {
        match decode_items_to_end::<u8, Ctx>(bits, order) {
            Some(_) => e is FromUtf8,
            None => decode_items_to_end_error::<u8, Ctx>(bits, order, e),
        }
    }

    fn decode(read: &mut BitInput, ctx: &mut Ctx, tag: Untagged) -> (res: Result<String>) {
        let bytes = decode_items_until_end::<u8, Ctx>(read, ctx)?;
        bytes_to_string(bytes)
    }
}

impl<Ctx> BitEncode<Ctx, Untagged> for String {
    open spec fn spec_encode_error(v: Seq<char>, order: ByteOrder, tag: Untagged, e: Error) -> bool {
        encode_items_error::<u8, Ctx>(encode_utf8(v), order, e)
    }

    /// The UTF-8 bytes of the string, without their count.
    open spec fn spec_encode(v: Seq<char>, order: ByteOrder, tag: Untagged) -> Option<Seq<bool>> {
        encode_items::<u8, Ctx>(encode_utf8(v), order)
    }

    fn encode(&self, write: &mut BitOutput, ctx: &mut Ctx, tag: Untagged) -> (res: Result<()>) {
        let bytes = self.as_str().as_bytes();
        assert(bytes.model() =~= bytes@);
        encode_all_items::<u8, Ctx>(bytes, write, ctx)
    }
}

impl<Ctx> BitDecode<Ctx, ()> for String {
    /// The errors of decoding the count, or, after it, those of decoding the bytes.
    open spec fn spec_decode_error(bits: Seq<bool>, order: ByteOrder, tag: (), e: Error) -> bool {
        match <usize as BitDecode<Ctx, ()>>::spec_decode(bits, order, ()) {
            Some((len, n)) => <String as BitDecode<Ctx, Tag<usize>>>::spec_decode_error(
                bits.skip(n as int),
                order,
                Tag(len),
                e,
            ),
            None => <usize as BitDecode<Ctx, ()>>::spec_decode_error(bits, order, (), e),
        }
    }

    /// A byte count as a `usize`, then that many bytes of UTF-8.
    open spec fn spec_decode(bits: Seq<bool>, order: ByteOrder, tag: ()) -> Option<(Seq<char>, nat)> {
        match <usize as BitDecode<Ctx, ()>>::spec_decode(bits, order, ()) {
            Some((len, n)) => match <String as BitDecode<Ctx, Tag<usize>>>::spec_decode(
                bits.skip(n as int),
                order,
                Tag(len),
            ) {
                Some((s, m)) => Some((s, n + m)),
                None => None,
            },
            None => None,
        }
    }

    fn decode(read: &mut BitInput, ctx: &mut Ctx, tag: ()) -> (res: Result<String>) {
        let ghost r0 = *read;
        let len = <usize as BitDecode<Ctx, ()>>::decode(read, ctx, ())?;
        let ghost r1 = *read;
        let res = <String as BitDecode<Ctx, Tag<usize>>>::decode(read, ctx, Tag(len));
        proof {
            BitInput::lemma_advanced_trans(&r0, &r1, &*read);
        }
        res
    }
}

impl<Ctx> BitEncode<Ctx, ()> for String {
    /// The count always encodes, so these are the errors of encoding the bytes.
    open spec fn spec_encode_error(v: Seq<char>, order: ByteOrder, tag: (), e: Error) -> bool {
        encode_items_error::<u8, Ctx>(encode_utf8(v), order, e)
    }

    /// The byte count as a `usize`, then the UTF-8 bytes.
    open spec fn spec_encode(v: Seq<char>, order: ByteOrder, tag: ()) -> Option<Seq<bool>> {
        match encode_items::<u8, Ctx>(encode_utf8(v), order) {
            Some(b) => if encode_utf8(v).len() <= usize::MAX {
                Some(<usize as BitEncode<Ctx, ()>>::spec_encode(
                    encode_utf8(v).len() as usize,
                    order,
                    (),
                ).unwrap() + b)
            } else {
                None
            },
            None => None,
        }
    }

    fn encode(&self, write: &mut BitOutput, ctx: &mut Ctx, tag: ()) -> (res: Result<()>) {
        let len = self.as_str().as_bytes().len();
        let ghost w1 = write.bits();
        <usize as BitEncode<Ctx, ()>>::encode(&len, write, ctx, ())?;
        let res = <String as BitEncode<Ctx, Untagged>>::encode(self, write, ctx, Untagged);
        proof {
            if res is Ok {
                let head = <usize as BitEncode<Ctx, ()>>::spec_encode(len, write.order(), ()).unwrap();
                let body = encode_items::<u8, Ctx>(encode_utf8(self@), write.order()).unwrap();
                assert(write.bits() =~= w1 + (head + body));
            }
        }
        res
    }
}

impl<Ctx> BitEncode<Ctx, Untagged> for str {
    open spec fn spec_encode_error(v: Seq<char>, order: ByteOrder, tag: Untagged, e: Error) -> bool {
        encode_items_error::<u8, Ctx>(encode_utf8(v), order, e)
    }

    /// The UTF-8 bytes of the string, without their count.
    open spec fn spec_encode(v: Seq<char>, order: ByteOrder, tag: Untagged) -> Option<Seq<bool>> {
        encode_items::<u8, Ctx>(encode_utf8(v), order)
    }

    fn encode(&self, write: &mut BitOutput, ctx: &mut Ctx, tag: Untagged) -> (res: Result<()>) {
        let bytes = self.as_bytes();
        assert(bytes.model() =~= bytes@);
        encode_all_items::<u8, Ctx>(bytes, write, ctx)
    }
}

impl<Ctx> BitEncode<Ctx, ()> for str {
    open spec fn spec_encode_error(v: Seq<char>, order: ByteOrder, tag: (), e: Error) -> bool {
        encode_items_error::<u8, Ctx>(encode_utf8(v), order, e)
    }

    /// The byte count as a `usize`, then the UTF-8 bytes.
    open spec fn spec_encode(v: Seq<char>, order: ByteOrder, tag: ()) -> Option<Seq<bool>> {
        <String as BitEncode<Ctx, ()>>::spec_encode(v, order, ())
    }

    fn encode(&self, write: &mut BitOutput, ctx: &mut Ctx, tag: ()) -> (res: Result<()>) {
        let len = self.as_bytes().len();
        let ghost w1 = write.bits();
        <usize as BitEncode<Ctx, ()>>::encode(&len, write, ctx, ())?;
        let res = <str as BitEncode<Ctx, Untagged>>::encode(self, write, ctx, Untagged);
        proof {
            if res is Ok {
                let head = <usize as BitEncode<Ctx, ()>>::spec_encode(len, write.order(), ()).unwrap();
                let body = encode_items::<u8, Ctx>(encode_utf8(self@), write.order()).unwrap();
                assert(write.bits() =~= w1 + (head + body));
            }
        }
        res
    }
}

/// `String::into_boxed_str`: the same characters, in a box.
#[verifier::external_body]
fn string_into_boxed_str(s: String) -> (b: Box<str>)
    ensures
        b@ == s@,
{
    s.into_boxed_str()
}

impl<Ctx, Tg: TagCount> BitDecode<Ctx, Tag<Tg>> for Box<str> {
    open spec fn spec_decode_error(bits: Seq<bool>, order: ByteOrder, tag: Tag<Tg>, e: Error) -> bool {
        <String as BitDecode<Ctx, Tag<Tg>>>::spec_decode_error(bits, order, tag, e)
    }

    /// As a `String` with the same tag.
    open spec fn spec_decode(bits: Seq<bool>, order: ByteOrder, tag: Tag<Tg>) -> Option<
        (Seq<char>, nat),
    > {
        <String as BitDecode<Ctx, Tag<Tg>>>::spec_decode(bits, order, tag)
    }

    fn decode(read: &mut BitInput, ctx: &mut Ctx, tag: Tag<Tg>) -> (res: Result<Box<str>>) {
        let s = <String as BitDecode<Ctx, Tag<Tg>>>::decode(read, ctx, tag)?;
        Ok(string_into_boxed_str(s))
    }
}

impl<Ctx> BitDecode<Ctx, Untagged> for Box<str> {
    open spec fn spec_decode_error(bits: Seq<bool>, order: ByteOrder, tag: Untagged, e: Error) -> bool {
        <String as BitDecode<Ctx, Untagged>>::spec_decode_error(bits, order, tag, e)
    }

    /// As a `String` read to the end of the stream.
    open spec fn spec_decode(bits: Seq<bool>, order: ByteOrder, tag: Untagged) -> Option<
        (Seq<char>, nat),
    > {
        <String as BitDecode<Ctx, Untagged>>::spec_decode(bits, order, tag)
    }

    fn decode(read: &mut BitInput, ctx: &mut Ctx, tag: Untagged) -> (res: Result<Box<str>>) {
        let s = <String as BitDecode<Ctx, Untagged>>::decode(read, ctx, tag)?;
        Ok(string_into_boxed_str(s))
    }
}

impl<Ctx> BitDecode<Ctx, ()> for Box<str> {
    open spec fn spec_decode_error(bits: Seq<bool>, order: ByteOrder, tag: (), e: Error) -> bool {
        <String as BitDecode<Ctx, ()>>::spec_decode_error(bits, order, tag, e)
    }

    /// As a `String` with its byte count.
    open spec fn spec_decode(bits: Seq<bool>, order: ByteOrder, tag: ()) -> Option<(Seq<char>, nat)> {
        <String as BitDecode<Ctx, ()>>::spec_decode(bits, order, tag)
    }

    fn decode(read: &mut BitInput, ctx: &mut Ctx, tag: ()) -> (res: Result<Box<str>>) {
        let s = <String as BitDecode<Ctx, ()>>::decode(read, ctx, tag)?;
        Ok(string_into_boxed_str(s))
    }
}

/// The bytes of any string each round-trip and take a byte.
proof fn lemma_utf8_bytes_roundtrip(s: Seq<char>, order: ByteOrder)
    ensures
        all_roundtrip::<u8>(encode_utf8(s), order),
        forall|i: int|
            0 <= i < encode_utf8(s).len() ==> (#[trigger] <u8 as BitEncode<(), ()>>::spec_encode(
                encode_utf8(s)[i],
                order,
                (),
            ) matches Some(b) && b.len() > 0),
{
    assert forall|i: int| 0 <= i < encode_utf8(s).len() implies #[trigger] roundtrips::<u8, (), ()>(
        encode_utf8(s)[i],
        order,
        (),
        (),
    ) by {
        law_u8_roundtrip(encode_utf8(s)[i], order);
    }
    assert forall|i: int| 0 <= i < encode_utf8(s).len() implies (
    #[trigger] <u8 as BitEncode<(), ()>>::spec_encode(encode_utf8(s)[i], order, ()) matches Some(b)
        && b.len() > 0) by {
        vstd::arithmetic::power2::lemma2_to64();
        crate::bits::lemma_value_bits_len(encode_utf8(s)[i] as nat, 8, order);
    }
}

/// A string is decoded back, given its byte count, from its bytes followed by any other
/// bits.
pub proof fn law_string_tagged_roundtrip(s: Seq<char>, order: ByteOrder)
    requires
        encode_utf8(s).len() <= isize::MAX,
    ensures
        roundtrips::<String, Untagged, Tag<usize>>(s, order, Untagged, Tag(encode_utf8(s).len() as usize)),
{
    broadcast use vstd::layout::layout_of_primitives;

    lemma_utf8_bytes_roundtrip(s, order);
    law_vec_tagged_roundtrip::<u8>(encode_utf8(s), order);
    encode_utf8_valid_utf8(s);
    encode_utf8_decode_utf8(s);
    let e = encode_items::<u8, ()>(encode_utf8(s), order).unwrap();
    assert forall|rest: Seq<bool>|
        #[trigger] <String as BitDecode<(), Tag<usize>>>::spec_decode(
            e + rest,
            order,
            Tag(encode_utf8(s).len() as usize),
        ) == Some((s, e.len())) by {
        assert(<Vec<u8> as BitDecode<(), Tag<usize>>>::spec_decode(
            e + rest,
            order,
            Tag(encode_utf8(s).len() as usize),
        ) == Some((encode_utf8(s), e.len())));
        assert(decode_items::<u8, ()>(e + rest, order, encode_utf8(s).len()) == Some(
            (encode_utf8(s), e.len()),
        ));
    }
}

/// A string is decoded back from its bytes when read to the end of the stream.
pub proof fn law_string_untagged_roundtrip(s: Seq<char>, order: ByteOrder)
    ensures
        <String as BitEncode<(), Untagged>>::spec_encode(s, order, Untagged) matches Some(bits)
            && <String as BitDecode<(), Untagged>>::spec_decode(bits, order, Untagged) == Some(
            (s, bits.len()),
        ),
{
    lemma_utf8_bytes_roundtrip(s, order);
    law_vec_untagged_roundtrip::<u8>(encode_utf8(s), order);
    encode_utf8_valid_utf8(s);
    encode_utf8_decode_utf8(s);
}

/// A string is decoded back from its byte count and bytes followed by any other bits.
pub proof fn law_string_roundtrip(s: Seq<char>, order: ByteOrder)
    requires
        encode_utf8(s).len() <= isize::MAX,
    ensures
        roundtrips::<String, (), ()>(s, order, (), ()),
{
    law_string_tagged_roundtrip(s, order);
    let n = encode_utf8(s).len() as usize;
    law_usize_roundtrip(n, order);
    let head = <usize as BitEncode<(), ()>>::spec_encode(n, order, ()).unwrap();
    let body = encode_items::<u8, ()>(encode_utf8(s), order).unwrap();
    assert forall|rest: Seq<bool>|
        #[trigger] <String as BitDecode<(), ()>>::spec_decode(
            <String as BitEncode<(), ()>>::spec_encode(s, order, ()).unwrap() + rest,
            order,
            (),
        ) == Some((s, <String as BitEncode<(), ()>>::spec_encode(s, order, ()).unwrap().len())) by {
        let bits = head + body + rest;
        assert(bits =~= head + (body + rest));
        assert(<usize as BitDecode<(), ()>>::spec_decode(head + (body + rest), order, ()) == Some(
            (n, head.len()),
        ));
        assert(bits.skip(head.len() as int) =~= body + rest);
        assert(<String as BitDecode<(), Tag<usize>>>::spec_decode(body + rest, order, Tag(n))
            == Some((s, body.len())));
    }
}

/// A boxed string is decoded back from its byte count and bytes followed by any other bits,
/// as a string is.
pub proof fn law_boxed_str_roundtrip(s: Seq<char>, order: ByteOrder)
    requires
        encode_utf8(s).len() <= isize::MAX,
    ensures
        roundtrips::<Box<str>, (), ()>(s, order, (), ()),
{
    law_string_roundtrip(s, order);
    assert forall|rest: Seq<bool>|
        #[trigger] <Box<str> as BitDecode<(), ()>>::spec_decode(
            <Box<str> as BitEncode<(), ()>>::spec_encode(s, order, ()).unwrap() + rest,
            order,
            (),
        ) == Some((s, <Box<str> as BitEncode<(), ()>>::spec_encode(s, order, ()).unwrap().len())) by {
        assert(<String as BitDecode<(), ()>>::spec_decode(
            <String as BitEncode<(), ()>>::spec_encode(s, order, ()).unwrap() + rest,
            order,
            (),
        ) == Some((s, <String as BitEncode<(), ()>>::spec_encode(s, order, ()).unwrap().len())));
    }
}

/// A boxed string is decoded back, given its byte count, from its bytes followed by any
/// other bits.
pub proof fn law_boxed_str_tagged_roundtrip(s: Seq<char>, order: ByteOrder)
    requires
        encode_utf8(s).len() <= isize::MAX,
    ensures
        roundtrips::<Box<str>, Untagged, Tag<usize>>(s, order, Untagged, Tag(encode_utf8(s).len() as usize)),
{
    law_string_tagged_roundtrip(s, order);
    let n = Tag(encode_utf8(s).len() as usize);
    assert forall|rest: Seq<bool>|
        #[trigger] <Box<str> as BitDecode<(), Tag<usize>>>::spec_decode(
            <Box<str> as BitEncode<(), Untagged>>::spec_encode(s, order, Untagged).unwrap() + rest,
            order,
            n,
        ) == Some((s, <Box<str> as BitEncode<(), Untagged>>::spec_encode(s, order, Untagged).unwrap().len())) by {
        assert(<String as BitDecode<(), Tag<usize>>>::spec_decode(
            <String as BitEncode<(), Untagged>>::spec_encode(s, order, Untagged).unwrap() + rest,
            order,
            n,
        ) == Some((s, <String as BitEncode<(), Untagged>>::spec_encode(s, order, Untagged).unwrap().len())));
    }
}

/// A boxed string is decoded back from its bytes when read to the end of the stream.
pub proof fn law_boxed_str_untagged_roundtrip(s: Seq<char>, order: ByteOrder)
    ensures
        <Box<str> as BitEncode<(), Untagged>>::spec_encode(s, order, Untagged) matches Some(bits)
            && <Box<str> as BitDecode<(), Untagged>>::spec_decode(bits, order, Untagged) == Some(
            (s, bits.len()),
        ),
{
    law_string_untagged_roundtrip(s, order);
}

} // verus!
