//! Fixed-size arrays and slices: their items one after the other.
use vstd::prelude::*;
use crate::model::Model;
use crate::byte_order::ByteOrder;
use crate::codec::{BitDecode, BitEncode, Tag, TagCount, Untagged, roundtrips};
use crate::error::{Error, Result};
use crate::impls::list::{
    all_roundtrip, decode_items, decode_items_error, decode_items_to_end_error,
    decode_items_until_end, decode_list, decode_list_error, decode_list_items, decode_n_items,
    encode_all_items, encode_items, encode_items_error, law_vec_tagged_roundtrip,
    law_vec_untagged_roundtrip, lemma_decode_encoded_items, lemma_encode_items_some, too_many,
};
use crate::impls::size::law_usize_roundtrip;
use crate::stream::{BitInput, BitOutput};

verus! {

/// `<[T; N]>::try_from(Vec<T>)`: the array of the vector's items when it has exactly `N` of
/// them, and the vector back otherwise.
#[verifier::external_body]
fn vec_into_array<T, const N: usize>(v: Vec<T>) -> (res: core::result::Result<[T; N], Vec<T>>)
    ensures
        res is Ok <==> v@.len() == N,
        res matches Ok(a) ==> a@ == v@,
{
    <[T; N]>::try_from(v)
}

impl<Ctx, T: BitDecode<Ctx, ()>, const N: usize> BitDecode<Ctx, ()> for [T; N] {
    /// `N` items one after the other.
    open spec fn spec_decode(bits: Seq<bool>, order: ByteOrder, tag: ()) -> Option<(Seq<T::V>, nat)> {
        decode_items::<T, Ctx>(bits, order, N as nat)
    }

    open spec fn spec_decode_error(bits: Seq<bool>, order: ByteOrder, tag: (), e: Error) -> bool {
        decode_items_error::<T, Ctx>(bits, order, N as nat, e)
    }

    fn decode(read: &mut BitInput, ctx: &mut Ctx, tag: ()) -> (res: Result<[T; N]>) {
        let items = decode_n_items::<T, Ctx>(read, ctx, N, Vec::new());
        match items {
            Ok(v) => {
                proof {
                    lemma_decode_items_len::<T, Ctx>(old(read).bits(), old(read).order(), N as nat);
                }
                let ghost dv = v.model();
                match vec_into_array::<T, N>(v) {
                    Ok(a) => {
                        assert(a.model() =~= dv);
                        Ok(a)
                    },
                    Err(_) => {
                        assert(false);
                        Err(Error::SliceTryFromVec)
                    },
                }
            },
            Err(e) => Err(e),
        }
    }
}

/// Decoded items are as many as asked for.
pub proof fn lemma_decode_items_len<T: BitDecode<Ctx, ()>, Ctx>(
    bits: Seq<bool>,
    order: ByteOrder,
    n: nat,
)
    ensures
        decode_items::<T, Ctx>(bits, order, n) matches Some((vs, _)) ==> vs.len() == n,
    decreases n,
{
    if n > 0 {
        lemma_decode_items_len::<T, Ctx>(bits, order, (n - 1) as nat);
    }
}

impl<Ctx, T: BitEncode<Ctx, ()>, const N: usize> BitEncode<Ctx, ()> for [T; N] {
    open spec fn spec_encode_error(v: Seq<T::V>, order: ByteOrder, tag: (), e: Error) -> bool {
        encode_items_error::<T, Ctx>(v, order, e)
    }

    /// The items one after the other.
    open spec fn spec_encode(v: Seq<T::V>, order: ByteOrder, tag: ()) -> Option<Seq<bool>> {
        encode_items::<T, Ctx>(v, order)
    }

    fn encode(&self, write: &mut BitOutput, ctx: &mut Ctx, tag: ()) -> (res: Result<()>) {
        let items = self.as_slice();
        assert(items.model() =~= self.model());
        encode_all_items(items, write, ctx)
    }
}

impl<Ctx, T: BitEncode<Ctx, ()>> BitEncode<Ctx, Untagged> for [T] {
    open spec fn spec_encode_error(v: Seq<T::V>, order: ByteOrder, tag: Untagged, e: Error) -> bool {
        encode_items_error::<T, Ctx>(v, order, e)
    }

    /// The items one after the other, without their count.
    open spec fn spec_encode(v: Seq<T::V>, order: ByteOrder, tag: Untagged) -> Option<Seq<bool>> {
        encode_items::<T, Ctx>(v, order)
    }

    fn encode(&self, write: &mut BitOutput, ctx: &mut Ctx, tag: Untagged) -> (res: Result<()>) {
        encode_all_items(self, write, ctx)
    }
}

impl<Ctx, T: BitEncode<Ctx, ()>> BitEncode<Ctx, ()> for [T] {
    /// The count always encodes, so these are the errors of encoding the items.
    open spec fn spec_encode_error(v: Seq<T::V>, order: ByteOrder, tag: (), e: Error) -> bool {
        encode_items_error::<T, Ctx>(v, order, e)
    }

    /// The count of items as a `usize`, then the items.
    open spec fn spec_encode(v: Seq<T::V>, order: ByteOrder, tag: ()) -> Option<Seq<bool>> {
        match encode_items::<T, Ctx>(v, order) {
            Some(b) => if v.len() <= usize::MAX {
                Some(<usize as BitEncode<Ctx, ()>>::spec_encode(v.len() as usize, order, ()).unwrap()
                    + b)
            } else {
                None
            },
            None => None,
        }
    }

    fn encode(&self, write: &mut BitOutput, ctx: &mut Ctx, tag: ()) -> (res: Result<()>) {
        let len = self.len();
        let ghost w1 = write.bits();
        <usize as BitEncode<Ctx, ()>>::encode(&len, write, ctx, ())?;
        let res = encode_all_items(self, write, ctx);
        proof {
            if res is Ok {
                let head = <usize as BitEncode<Ctx, ()>>::spec_encode(len, write.order(), ()).unwrap();
                let body = encode_items::<T, Ctx>(self.model(), write.order()).unwrap();
                assert(write.bits() =~= w1 + (head + body));
            }
        }
        res
    }
}

impl<Ctx, T: BitDecode<Ctx, ()>> BitDecode<Ctx, ()> for Vec<T> {
    /// The errors of decoding the count, or, after it, those of decoding the items.
    open spec fn spec_decode_error(bits: Seq<bool>, order: ByteOrder, tag: (), e: Error) -> bool {
        match <usize as BitDecode<Ctx, ()>>::spec_decode(bits, order, ()) {
            Some((len, n)) => decode_list_error::<T, Ctx>(bits.skip(n as int), order, len as nat, e),
            None => <usize as BitDecode<Ctx, ()>>::spec_decode_error(bits, order, (), e),
        }
    }

    /// The count of items as a `usize`, then the items.
    open spec fn spec_decode(bits: Seq<bool>, order: ByteOrder, tag: ()) -> Option<(Seq<T::V>, nat)> {
        match <usize as BitDecode<Ctx, ()>>::spec_decode(bits, order, ()) {
            Some((len, n)) => match decode_list::<T, Ctx>(bits.skip(n as int), order, len as nat) {
                Some((vs, m)) => Some((vs, n + m)),
                None => None,
            },
            None => None,
        }
    }

    fn decode(read: &mut BitInput, ctx: &mut Ctx, tag: ()) -> (res: Result<Vec<T>>) {
        let ghost r0 = *read;
        let len = <usize as BitDecode<Ctx, ()>>::decode(read, ctx, ())?;
        let ghost r1 = *read;
        let res = decode_list_items::<T, Ctx>(read, ctx, len);
        proof {
            BitInput::lemma_advanced_trans(&r0, &r1, &*read);
        }
        res
    }
}

impl<Ctx, T: BitEncode<Ctx, ()>> BitEncode<Ctx, ()> for Vec<T> {
    open spec fn spec_encode_error(v: Seq<T::V>, order: ByteOrder, tag: (), e: Error) -> bool {
        <[T] as BitEncode<Ctx, ()>>::spec_encode_error(v, order, (), e)
    }

    /// The count of items as a `usize`, then the items.
    open spec fn spec_encode(v: Seq<T::V>, order: ByteOrder, tag: ()) -> Option<Seq<bool>> {
        <[T] as BitEncode<Ctx, ()>>::spec_encode(v, order, ())
    }

    fn encode(&self, write: &mut BitOutput, ctx: &mut Ctx, tag: ()) -> (res: Result<()>) {
        <[T] as BitEncode<Ctx, ()>>::encode(self.as_slice(), write, ctx, ())
    }
}

/// `Vec::into_boxed_slice`: the same items, in a boxed slice.
#[verifier::external_body]
fn vec_into_boxed_slice<T>(v: Vec<T>) -> (b: Box<[T]>)
    ensures
        b@ == v@,
{
    v.into_boxed_slice()
}

impl<Ctx, T: BitDecode<Ctx, ()>, Tg: TagCount> BitDecode<Ctx, Tag<Tg>> for Box<[T]> {
    open spec fn spec_decode_error(bits: Seq<bool>, order: ByteOrder, tag: Tag<Tg>, e: Error) -> bool {
        match tag.0.spec_count() {
            Some(n) => decode_list_error::<T, Ctx>(bits, order, n as nat, e),
            None => e is TagConvert,
        }
    }

    /// As a `Vec` with the same tag.
    open spec fn spec_decode(bits: Seq<bool>, order: ByteOrder, tag: Tag<Tg>) -> Option<
        (Seq<T::V>, nat),
    > {
        match tag.0.spec_count() {
            Some(n) => decode_list::<T, Ctx>(bits, order, n as nat),
            None => None,
        }
    }

    fn decode(read: &mut BitInput, ctx: &mut Ctx, tag: Tag<Tg>) -> (res: Result<Box<[T]>>) {
        let n = match tag.0.count() {
            Some(n) => n,
            None => {
                proof {
                    BitInput::lemma_advanced_refl(&*read);
                }
                return Err(Error::TagConvert);
            },
        };
        let v = decode_list_items::<T, Ctx>(read, ctx, n)?;
        let ghost dv = v.model();
        let b = vec_into_boxed_slice(v);
        assert(b.model() =~= dv);
        Ok(b)
    }
}

impl<Ctx, T: BitDecode<Ctx, ()>> BitDecode<Ctx, Untagged> for Box<[T]> {
    open spec fn spec_decode_error(bits: Seq<bool>, order: ByteOrder, tag: Untagged, e: Error) -> bool {
        decode_items_to_end_error::<T, Ctx>(bits, order, e)
    }

    /// As a `Vec` read to the end of the stream.
    open spec fn spec_decode(bits: Seq<bool>, order: ByteOrder, tag: Untagged) -> Option<
        (Seq<T::V>, nat),
    > {
        <Vec<T> as BitDecode<Ctx, Untagged>>::spec_decode(bits, order, tag)
    }

    fn decode(read: &mut BitInput, ctx: &mut Ctx, tag: Untagged) -> (res: Result<Box<[T]>>) {
        let v = decode_items_until_end::<T, Ctx>(read, ctx)?;
        let ghost dv = v.model();
        let b = vec_into_boxed_slice(v);
        assert(b.model() =~= dv);
        Ok(b)
    }
}

impl<Ctx, T: BitDecode<Ctx, ()>> BitDecode<Ctx, ()> for Box<[T]> {
    open spec fn spec_decode_error(bits: Seq<bool>, order: ByteOrder, tag: (), e: Error) -> bool {
        <Vec<T> as BitDecode<Ctx, ()>>::spec_decode_error(bits, order, tag, e)
    }

    /// As a `Vec` with its count.
    open spec fn spec_decode(bits: Seq<bool>, order: ByteOrder, tag: ()) -> Option<(Seq<T::V>, nat)> {
        <Vec<T> as BitDecode<Ctx, ()>>::spec_decode(bits, order, tag)
    }

    fn decode(read: &mut BitInput, ctx: &mut Ctx, tag: ()) -> (res: Result<Box<[T]>>) {
        let v = <Vec<T> as BitDecode<Ctx, ()>>::decode(read, ctx, tag)?;
        let ghost dv = v.model();
        let b = vec_into_boxed_slice(v);
        assert(b.model() =~= dv);
        Ok(b)
    }
}

/// An array whose items each round-trip is decoded back from its encoding followed by any
/// other bits.
pub proof fn law_array_roundtrip<T, const N: usize>(vs: Seq<T::V>, order: ByteOrder) where
    T: BitEncode<(), ()> + BitDecode<(), ()>,

    requires
        all_roundtrip::<T>(vs, order),
        vs.len() == N,
    ensures
        roundtrips::<[T; N], (), ()>(vs, order, (), ()),
{
    lemma_encode_items_some::<T>(vs, order);
    assert forall|rest: Seq<bool>|
        #[trigger] <[T; N] as BitDecode<(), ()>>::spec_decode(
            encode_items::<T, ()>(vs, order).unwrap() + rest,
            order,
            (),
        ) == Some((vs, encode_items::<T, ()>(vs, order).unwrap().len())) by {
        lemma_decode_encoded_items::<T>(vs, order, rest);
    }
}

/// A list whose items each round-trip is decoded back from its count and items followed by
/// any other bits.
pub proof fn law_vec_roundtrip<T>(vs: Seq<T::V>, order: ByteOrder) where
    T: BitEncode<(), ()> + BitDecode<(), ()>,

    requires
        all_roundtrip::<T>(vs, order),
        vs.len() <= usize::MAX,
        !too_many::<T>(vs.len()),
    ensures
        roundtrips::<Vec<T>, (), ()>(vs, order, (), ()),
{
    law_vec_tagged_roundtrip::<T>(vs, order);
    law_usize_roundtrip(vs.len() as usize, order);
    let head = <usize as BitEncode<(), ()>>::spec_encode(vs.len() as usize, order, ()).unwrap();
    let body = encode_items::<T, ()>(vs, order).unwrap();
    assert forall|rest: Seq<bool>|
        #[trigger] <Vec<T> as BitDecode<(), ()>>::spec_decode(
            <Vec<T> as BitEncode<(), ()>>::spec_encode(vs, order, ()).unwrap() + rest,
            order,
            (),
        ) == Some((vs, <Vec<T> as BitEncode<(), ()>>::spec_encode(vs, order, ()).unwrap().len())) by {
        let bits = head + body + rest;
        assert(bits =~= head + (body + rest));
        assert(<usize as BitDecode<(), ()>>::spec_decode(head + (body + rest), order, ()) == Some(
            (vs.len() as usize, head.len()),
        ));
        assert(bits.skip(head.len() as int) =~= body + rest);
        assert(<Vec<T> as BitDecode<(), Tag<usize>>>::spec_decode(
            body + rest,
            order,
            Tag(vs.len() as usize),
        ) == Some((vs, body.len())));
    }
}

/// A boxed slice whose items each round-trip is decoded back from its count and items
/// followed by any other bits, as a list is.
pub proof fn law_boxed_slice_roundtrip<T>(vs: Seq<T::V>, order: ByteOrder) where
    T: BitEncode<(), ()> + BitDecode<(), ()>,

    requires
        all_roundtrip::<T>(vs, order),
        vs.len() <= usize::MAX,
        !too_many::<T>(vs.len()),
    ensures
        roundtrips::<Box<[T]>, (), ()>(vs, order, (), ()),
{
    law_vec_roundtrip::<T>(vs, order);
    assert forall|rest: Seq<bool>|
        #[trigger] <Box<[T]> as BitDecode<(), ()>>::spec_decode(
            <Box<[T]> as BitEncode<(), ()>>::spec_encode(vs, order, ()).unwrap() + rest,
            order,
            (),
        ) == Some((vs, <Box<[T]> as BitEncode<(), ()>>::spec_encode(vs, order, ()).unwrap().len())) by {
        assert(<Vec<T> as BitDecode<(), ()>>::spec_decode(
            <Vec<T> as BitEncode<(), ()>>::spec_encode(vs, order, ()).unwrap() + rest,
            order,
            (),
        ) == Some((vs, <Vec<T> as BitEncode<(), ()>>::spec_encode(vs, order, ()).unwrap().len())));
    }
}

/// A boxed slice whose items each round-trip is decoded back, given its length, from its
/// items followed by any other bits.
pub proof fn law_boxed_slice_tagged_roundtrip<T>(vs: Seq<T::V>, order: ByteOrder) where
    T: BitEncode<(), ()> + BitDecode<(), ()>,

    requires
        all_roundtrip::<T>(vs, order),
        vs.len() <= usize::MAX,
        !too_many::<T>(vs.len()),
    ensures
        roundtrips::<Box<[T]>, Untagged, Tag<usize>>(vs, order, Untagged, Tag(vs.len() as usize)),
{
    law_vec_tagged_roundtrip::<T>(vs, order);
    assert forall|rest: Seq<bool>|
        #[trigger] <Box<[T]> as BitDecode<(), Tag<usize>>>::spec_decode(
            <Box<[T]> as BitEncode<(), Untagged>>::spec_encode(vs, order, Untagged).unwrap() + rest,
            order,
            Tag(vs.len() as usize),
        ) == Some(
            (vs, <Box<[T]> as BitEncode<(), Untagged>>::spec_encode(vs, order, Untagged).unwrap().len()),
        ) by {
        assert(<Vec<T> as BitDecode<(), Tag<usize>>>::spec_decode(
            <Vec<T> as BitEncode<(), Untagged>>::spec_encode(vs, order, Untagged).unwrap() + rest,
            order,
            Tag(vs.len() as usize),
        ) == Some(
            (vs, <Vec<T> as BitEncode<(), Untagged>>::spec_encode(vs, order, Untagged).unwrap().len()),
        ));
    }
}

/// A boxed slice whose items each round-trip and take at least one bit is decoded back
/// from its encoding when read to the end of the stream.
pub proof fn law_boxed_slice_untagged_roundtrip<T>(vs: Seq<T::V>, order: ByteOrder) where
    T: BitEncode<(), ()> + BitDecode<(), ()>,

    requires
        all_roundtrip::<T>(vs, order),
        forall|i: int|
            0 <= i < vs.len() ==> (#[trigger] T::spec_encode(vs[i], order, ()) matches Some(b) && b.len()
                > 0),
    ensures
        <Box<[T]> as BitEncode<(), Untagged>>::spec_encode(vs, order, Untagged) matches Some(bits)
            && <Box<[T]> as BitDecode<(), Untagged>>::spec_decode(bits, order, Untagged) == Some(
            (vs, bits.len()),
        ),
{
    law_vec_untagged_roundtrip::<T>(vs, order);
}

} // verus!
