//! Optional values: present or absent as a boolean tag says.
use vstd::prelude::*;
use crate::model::Model;
use crate::byte_order::ByteOrder;
use crate::codec::{BitDecode, BitEncode, Tag, Untagged, roundtrips};
use crate::error::{Error, Result};
use crate::stream::{BitInput, BitOutput};

verus! {

/// Decoding with a presence flag: the inner value when `present`, else nothing and no bits.
pub open spec fn decode_present<T: BitDecode<Ctx, ()>, Ctx>(
    bits: Seq<bool>,
    order: ByteOrder,
    present: bool,
) -> Option<(Option<T::V>, nat)> {
    if present {
        match T::spec_decode(bits, order, ()) {
            Some((v, n)) => Some((Some(v), n)),
            None => None,
        }
    } else {
        Some((None, 0))
    }
}

/// The bits of an optional value without its flag: those of the inner value, or none.
pub open spec fn encode_present<T: BitEncode<Ctx, ()>, Ctx>(v: Option<T::V>, order: ByteOrder) -> Option<
    Seq<bool>,
> {
    match v {
        Some(x) => T::spec_encode(x, order, ()),
        None => Some(seq![]),
    }
}

impl<Ctx, T: BitDecode<Ctx, ()>> BitDecode<Ctx, Tag<bool>> for Option<T> {
    open spec fn spec_decode(bits: Seq<bool>, order: ByteOrder, tag: Tag<bool>) -> Option<
        (Option<T::V>, nat),
    > {
        decode_present::<T, Ctx>(bits, order, tag.0)
    }

    /// Where the value is present, the errors of decoding it.
    open spec fn spec_decode_error(bits: Seq<bool>, order: ByteOrder, tag: Tag<bool>, e: Error) -> bool {
        tag.0 && T::spec_decode_error(bits, order, (), e)
    }

    fn decode(read: &mut BitInput, ctx: &mut Ctx, tag: Tag<bool>) -> (res: Result<Option<T>>) {
        if tag.0 {
            let v = T::decode(read, ctx, ())?;
            Ok(Some(v))
        } else {
            proof {
                BitInput::lemma_advanced_refl(&*read);
            }
            Ok(None)
        }
    }
}

impl<Ctx, T: BitEncode<Ctx, ()>> BitEncode<Ctx, Untagged> for Option<T> {
    open spec fn spec_encode(v: Option<T::V>, order: ByteOrder, tag: Untagged) -> Option<Seq<bool>> {
        encode_present::<T, Ctx>(v, order)
    }

    /// Where the value is present, the errors of encoding it.
    open spec fn spec_encode_error(v: Option<T::V>, order: ByteOrder, tag: Untagged, e: Error) -> bool {
        v matches Some(x) && T::spec_encode_error(x, order, (), e)
    }

    fn encode(&self, write: &mut BitOutput, ctx: &mut Ctx, tag: Untagged) -> (res: Result<()>) {
        match self {
            Some(v) => v.encode(write, ctx, ()),
            None => {
                assert(write.bits() + Seq::<bool>::empty() =~= write.bits());
                Ok(())
            },
        }
    }
}

/// With a `()` tag, an optional value carries its own flag: a `bool` saying whether the
/// value follows.
impl<Ctx, T: BitDecode<Ctx, ()>> BitDecode<Ctx, ()> for Option<T> {
    open spec fn spec_decode(bits: Seq<bool>, order: ByteOrder, tag: ()) -> Option<
        (Option<T::V>, nat),
    > {
        match <bool as BitDecode<Ctx, ()>>::spec_decode(bits, order, ()) {
            Some((present, n)) => match decode_present::<T, Ctx>(bits.skip(n as int), order, present) {
                Some((v, m)) => Some((v, n + m)),
                None => None,
            },
            None => None,
        }
    }

    /// The errors of decoding the flag, or, after it, those of the value it announces.
    open spec fn spec_decode_error(bits: Seq<bool>, order: ByteOrder, tag: (), e: Error) -> bool {
        match <bool as BitDecode<Ctx, ()>>::spec_decode(bits, order, ()) {
            Some((present, n)) => <Option<T> as BitDecode<Ctx, Tag<bool>>>::spec_decode_error(
                bits.skip(n as int),
                order,
                Tag(present),
                e,
            ),
            None => <bool as BitDecode<Ctx, ()>>::spec_decode_error(bits, order, (), e),
        }
    }

    fn decode(read: &mut BitInput, ctx: &mut Ctx, tag: ()) -> (res: Result<Option<T>>) {
        let ghost r0 = *read;
        let present = <bool as BitDecode<Ctx, ()>>::decode(read, ctx, ())?;
        let ghost r1 = *read;
        let res = <Option<T> as BitDecode<Ctx, Tag<bool>>>::decode(read, ctx, Tag(present));
        proof {
            BitInput::lemma_advanced_trans(&r0, &r1, &*read);
        }
        res
    }
}

impl<Ctx, T: BitEncode<Ctx, ()>> BitEncode<Ctx, ()> for Option<T> {
    open spec fn spec_encode(v: Option<T::V>, order: ByteOrder, tag: ()) -> Option<Seq<bool>> {
        match encode_present::<T, Ctx>(v, order) {
            Some(b) => Some(<bool as BitEncode<Ctx, ()>>::spec_encode(v is Some, order, ()).unwrap()
                + b),
            None => None,
        }
    }

    /// The flag always encodes, so these are the errors of encoding the value.
    open spec fn spec_encode_error(v: Option<T::V>, order: ByteOrder, tag: (), e: Error) -> bool {
        <Option<T> as BitEncode<Ctx, Untagged>>::spec_encode_error(v, order, Untagged, e)
    }

    fn encode(&self, write: &mut BitOutput, ctx: &mut Ctx, tag: ()) -> (res: Result<()>) {
        let present = self.is_some();
        let ghost w1 = write.bits();
        <bool as BitEncode<Ctx, ()>>::encode(&present, write, ctx, ())?;
        let ghost w2 = write.bits();
        let res = <Option<T> as BitEncode<Ctx, Untagged>>::encode(self, write, ctx, Untagged);
        proof {
            if res is Ok {
                assert(write.bits() =~= w1 + (<bool as BitEncode<Ctx, ()>>::spec_encode(
                    present,
                    write.order(),
                    (),
                ).unwrap() + encode_present::<T, Ctx>(self.model(), write.order()).unwrap()));
            }
        }
        res
    }
}

/// An optional value whose inner value round-trips is decoded back from its bits, given
/// whether it is present.
pub proof fn law_option_tagged_roundtrip<T>(v: Option<T::V>, order: ByteOrder) where
    T: BitEncode<(), ()> + BitDecode<(), ()>,

    requires
        v matches Some(x) ==> roundtrips::<T, (), ()>(x, order, (), ()),
    ensures
        roundtrips::<Option<T>, Untagged, Tag<bool>>(v, order, Untagged, Tag(v is Some)),
{
    assert forall|rest: Seq<bool>|
        #[trigger] <Option<T> as BitDecode<(), Tag<bool>>>::spec_decode(
            <Option<T> as BitEncode<(), Untagged>>::spec_encode(v, order, Untagged).unwrap() + rest,
            order,
            Tag(v is Some),
        ) == Some(
            (v, <Option<T> as BitEncode<(), Untagged>>::spec_encode(v, order, Untagged).unwrap().len()),
        ) by {
        if v is None {
            assert(Seq::<bool>::empty() + rest =~= rest);
        }
    }
}

/// An optional value whose inner value round-trips is decoded back from its bits when it
/// carries its own flag.
pub proof fn law_option_roundtrip<T>(v: Option<T::V>, order: ByteOrder) where
    T: BitEncode<(), ()> + BitDecode<(), ()>,

    requires
        v matches Some(x) ==> roundtrips::<T, (), ()>(x, order, (), ()),
    ensures
        roundtrips::<Option<T>, (), ()>(v, order, (), ()),
{
    crate::impls::numerics::law_bool_roundtrip(v is Some, order);
    law_option_tagged_roundtrip::<T>(v, order);
    let flag = <bool as BitEncode<(), ()>>::spec_encode(v is Some, order, ()).unwrap();
    let body = <Option<T> as BitEncode<(), Untagged>>::spec_encode(v, order, Untagged).unwrap();
    assert forall|rest: Seq<bool>|
        #[trigger] <Option<T> as BitDecode<(), ()>>::spec_decode(
            <Option<T> as BitEncode<(), ()>>::spec_encode(v, order, ()).unwrap() + rest,
            order,
            (),
        ) == Some((v, <Option<T> as BitEncode<(), ()>>::spec_encode(v, order, ()).unwrap().len())) by {
        let bits = flag + body + rest;
        assert(bits =~= flag + (body + rest));
        assert(<bool as BitDecode<(), ()>>::spec_decode(flag + (body + rest), order, ()) == Some(
            (v is Some, flag.len()),
        ));
        assert(bits.skip(flag.len() as int) =~= body + rest);
        assert(<Option<T> as BitDecode<(), Tag<bool>>>::spec_decode(body + rest, order, Tag(v is Some))
            == Some((v, body.len())));
    }
}

} // verus!
