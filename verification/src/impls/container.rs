//! Smart pointers, references, markers and the unit type: they are carried as what they hold.
use vstd::prelude::*;
use std::rc::Rc;
use std::sync::Arc;
use std::marker::{PhantomData, PhantomPinned};
use crate::byte_order::ByteOrder;
use crate::codec::{BitDecode, BitEncode, roundtrips};
use crate::error::{Error, Result};
use crate::model::Model;
use crate::stream::{BitInput, BitOutput};

verus! {

impl<Ctx, Tg, T: BitDecode<Ctx, Tg>> BitDecode<Ctx, Tg> for Box<T> {
    open spec fn spec_decode_error(bits: Seq<bool>, order: ByteOrder, tag: Tg, e: Error) -> bool {
        T::spec_decode_error(bits, order, tag, e)
    }

    open spec fn spec_decode(bits: Seq<bool>, order: ByteOrder, tag: Tg) -> Option<(T::V, nat)> {
        T::spec_decode(bits, order, tag)
    }

    fn decode(read: &mut BitInput, ctx: &mut Ctx, tag: Tg) -> (res: Result<Box<T>>) {
        let v = T::decode(read, ctx, tag)?;
        Ok(Box::new(v))
    }
}

impl<Ctx, Tg, T: BitEncode<Ctx, Tg> + ?Sized> BitEncode<Ctx, Tg> for Box<T> {
    open spec fn spec_encode_error(v: T::V, order: ByteOrder, tag: Tg, e: Error) -> bool {
        T::spec_encode_error(v, order, tag, e)
    }

    open spec fn spec_encode(v: T::V, order: ByteOrder, tag: Tg) -> Option<Seq<bool>> {
        T::spec_encode(v, order, tag)
    }

    fn encode(&self, write: &mut BitOutput, ctx: &mut Ctx, tag: Tg) -> (res: Result<()>) {
        (**self).encode(write, ctx, tag)
    }
}

impl<Ctx, Tg, T: BitDecode<Ctx, Tg>> BitDecode<Ctx, Tg> for Rc<T> {
    open spec fn spec_decode_error(bits: Seq<bool>, order: ByteOrder, tag: Tg, e: Error) -> bool {
        T::spec_decode_error(bits, order, tag, e)
    }

    open spec fn spec_decode(bits: Seq<bool>, order: ByteOrder, tag: Tg) -> Option<(T::V, nat)> {
        T::spec_decode(bits, order, tag)
    }

    fn decode(read: &mut BitInput, ctx: &mut Ctx, tag: Tg) -> (res: Result<Rc<T>>) {
        let v = T::decode(read, ctx, tag)?;
        Ok(Rc::new(v))
    }
}

impl<Ctx, Tg, T: BitEncode<Ctx, Tg>> BitEncode<Ctx, Tg> for Rc<T> {
    open spec fn spec_encode_error(v: T::V, order: ByteOrder, tag: Tg, e: Error) -> bool {
        T::spec_encode_error(v, order, tag, e)
    }

    open spec fn spec_encode(v: T::V, order: ByteOrder, tag: Tg) -> Option<Seq<bool>> {
        T::spec_encode(v, order, tag)
    }

    fn encode(&self, write: &mut BitOutput, ctx: &mut Ctx, tag: Tg) -> (res: Result<()>) {
        (**self).encode(write, ctx, tag)
    }
}

impl<Ctx, Tg, T: BitDecode<Ctx, Tg>> BitDecode<Ctx, Tg> for Arc<T> {
    open spec fn spec_decode_error(bits: Seq<bool>, order: ByteOrder, tag: Tg, e: Error) -> bool {
        T::spec_decode_error(bits, order, tag, e)
    }

    open spec fn spec_decode(bits: Seq<bool>, order: ByteOrder, tag: Tg) -> Option<(T::V, nat)> {
        T::spec_decode(bits, order, tag)
    }

    fn decode(read: &mut BitInput, ctx: &mut Ctx, tag: Tg) -> (res: Result<Arc<T>>) {
        let v = T::decode(read, ctx, tag)?;
        Ok(Arc::new(v))
    }
}

impl<Ctx, Tg, T: BitEncode<Ctx, Tg>> BitEncode<Ctx, Tg> for Arc<T> {
    open spec fn spec_encode_error(v: T::V, order: ByteOrder, tag: Tg, e: Error) -> bool {
        T::spec_encode_error(v, order, tag, e)
    }

    open spec fn spec_encode(v: T::V, order: ByteOrder, tag: Tg) -> Option<Seq<bool>> {
        T::spec_encode(v, order, tag)
    }

    fn encode(&self, write: &mut BitOutput, ctx: &mut Ctx, tag: Tg) -> (res: Result<()>) {
        (**self).encode(write, ctx, tag)
    }
}

impl<'a, Ctx, Tg, T: BitEncode<Ctx, Tg> + ?Sized> BitEncode<Ctx, Tg> for &'a T {
    open spec fn spec_encode_error(v: T::V, order: ByteOrder, tag: Tg, e: Error) -> bool {
        T::spec_encode_error(v, order, tag, e)
    }

    open spec fn spec_encode(v: T::V, order: ByteOrder, tag: Tg) -> Option<Seq<bool>> {
        T::spec_encode(v, order, tag)
    }

    fn encode(&self, write: &mut BitOutput, ctx: &mut Ctx, tag: Tg) -> (res: Result<()>) {
        (**self).encode(write, ctx, tag)
    }
}

impl<Ctx> BitDecode<Ctx, ()> for () {
    open spec fn spec_decode_error(bits: Seq<bool>, order: ByteOrder, tag: (), e: Error) -> bool {
        false
    }

    /// Nothing, from no bits.
    open spec fn spec_decode(bits: Seq<bool>, order: ByteOrder, tag: ()) -> Option<((), nat)> {
        Some(((), 0))
    }

    fn decode(read: &mut BitInput, ctx: &mut Ctx, tag: ()) -> (res: Result<()>) {
        proof {
            BitInput::lemma_advanced_refl(&*read);
        }
        Ok(())
    }
}

impl<Ctx> BitEncode<Ctx, ()> for () {
    open spec fn spec_encode_error(v: (), order: ByteOrder, tag: (), e: Error) -> bool {
        false
    }

    open spec fn spec_encode(v: (), order: ByteOrder, tag: ()) -> Option<Seq<bool>> {
        Some(seq![])
    }

    fn encode(&self, write: &mut BitOutput, ctx: &mut Ctx, tag: ()) -> (res: Result<()>) {
        assert(write.bits() + Seq::<bool>::empty() =~= write.bits());
        Ok(())
    }
}

/// The unit value is decoded back from its (empty) encoding followed by any bits.
pub proof fn law_unit_roundtrip(order: ByteOrder)
    ensures
        roundtrips::<(), (), ()>((), order, (), ()),
{
    assert forall|rest: Seq<bool>|
        #[trigger] <() as BitDecode<(), ()>>::spec_decode(
            <() as BitEncode<(), ()>>::spec_encode((), order, ()).unwrap() + rest,
            order,
            (),
        ) == Some(((), <() as BitEncode<(), ()>>::spec_encode((), order, ()).unwrap().len())) by {
    }
}

/// A box round-trips exactly when what it holds does.
pub proof fn law_box_roundtrip<T, Te, Td>(v: T::V, order: ByteOrder, te: Te, td: Td) where
    T: BitEncode<(), Te> + BitDecode<(), Td>,

    requires
        roundtrips::<T, Te, Td>(v, order, te, td),
    ensures
        roundtrips::<Box<T>, Te, Td>(v, order, te, td),
{
}

/// A reference-counted pointer round-trips exactly when what it holds does.
pub proof fn law_rc_roundtrip<T, Te, Td>(v: T::V, order: ByteOrder, te: Te, td: Td) where
    T: BitEncode<(), Te> + BitDecode<(), Td>,

    requires
        roundtrips::<T, Te, Td>(v, order, te, td),
    ensures
        roundtrips::<Rc<T>, Te, Td>(v, order, te, td),
{
}

/// An atomically reference-counted pointer round-trips exactly when what it holds does.
pub proof fn law_arc_roundtrip<T, Te, Td>(v: T::V, order: ByteOrder, te: Te, td: Td) where
    T: BitEncode<(), Te> + BitDecode<(), Td>,

    requires
        roundtrips::<T, Te, Td>(v, order, te, td),
    ensures
        roundtrips::<Arc<T>, Te, Td>(v, order, te, td),
{
}

/// `std::marker::PhantomPinned`, held as it comes.
#[verifier::external_type_specification]
#[verifier::external_body]
pub struct ExPhantomPinned(PhantomPinned);

/// A pinning marker stands for nothing.
impl Model for PhantomPinned {
    type V = ();

    open spec fn model(&self) -> () {
        ()
    }
}

/// `PhantomPinned`, the marker's one value.
#[verifier::external_body]
fn phantom_pinned() -> PhantomPinned {
    PhantomPinned
}

impl<Ctx, T: ?Sized> BitDecode<Ctx, ()> for PhantomData<T> {
    open spec fn spec_decode_error(bits: Seq<bool>, order: ByteOrder, tag: (), e: Error) -> bool {
        false
    }

    /// Nothing, from no bits.
    open spec fn spec_decode(bits: Seq<bool>, order: ByteOrder, tag: ()) -> Option<((), nat)> {
        Some(((), 0))
    }

    fn decode(read: &mut BitInput, ctx: &mut Ctx, tag: ()) -> (res: Result<PhantomData<T>>) {
        proof {
            BitInput::lemma_advanced_refl(&*read);
        }
        Ok(PhantomData::default())
    }
}

impl<Ctx, T: ?Sized> BitEncode<Ctx, ()> for PhantomData<T> {
    open spec fn spec_encode_error(v: (), order: ByteOrder, tag: (), e: Error) -> bool {
        false
    }

    open spec fn spec_encode(v: (), order: ByteOrder, tag: ()) -> Option<Seq<bool>> {
        Some(seq![])
    }

    fn encode(&self, write: &mut BitOutput, ctx: &mut Ctx, tag: ()) -> (res: Result<()>) {
        assert(write.bits() + Seq::<bool>::empty() =~= write.bits());
        Ok(())
    }
}

impl<Ctx> BitDecode<Ctx, ()> for PhantomPinned {
    open spec fn spec_decode_error(bits: Seq<bool>, order: ByteOrder, tag: (), e: Error) -> bool {
        false
    }

    /// Nothing, from no bits.
    open spec fn spec_decode(bits: Seq<bool>, order: ByteOrder, tag: ()) -> Option<((), nat)> {
        Some(((), 0))
    }

    fn decode(read: &mut BitInput, ctx: &mut Ctx, tag: ()) -> (res: Result<PhantomPinned>) {
        proof {
            BitInput::lemma_advanced_refl(&*read);
        }
        Ok(phantom_pinned())
    }
}

impl<Ctx> BitEncode<Ctx, ()> for PhantomPinned {
    open spec fn spec_encode_error(v: (), order: ByteOrder, tag: (), e: Error) -> bool {
        false
    }

    open spec fn spec_encode(v: (), order: ByteOrder, tag: ()) -> Option<Seq<bool>> {
        Some(seq![])
    }

    fn encode(&self, write: &mut BitOutput, ctx: &mut Ctx, tag: ()) -> (res: Result<()>) {
        assert(write.bits() + Seq::<bool>::empty() =~= write.bits());
        Ok(())
    }
}

/// A marker is decoded back from its (empty) encoding followed by any bits.
pub proof fn law_phantom_roundtrip<T: ?Sized>(order: ByteOrder)
    ensures
        roundtrips::<PhantomData<T>, (), ()>((), order, (), ()),
{
    assert forall|rest: Seq<bool>|
        #[trigger] <PhantomData<T> as BitDecode<(), ()>>::spec_decode(
            <PhantomData<T> as BitEncode<(), ()>>::spec_encode((), order, ()).unwrap() + rest,
            order,
            (),
        ) == Some(((), <PhantomData<T> as BitEncode<(), ()>>::spec_encode((), order, ()).unwrap().len())) by {
    }
}

/// The pinning marker is decoded back from its (empty) encoding followed by any bits.
pub proof fn law_phantom_pinned_roundtrip(order: ByteOrder)
    ensures
        roundtrips::<PhantomPinned, (), ()>((), order, (), ()),
{
    assert forall|rest: Seq<bool>|
        #[trigger] <PhantomPinned as BitDecode<(), ()>>::spec_decode(
            <PhantomPinned as BitEncode<(), ()>>::spec_encode((), order, ()).unwrap() + rest,
            order,
            (),
        ) == Some(((), <PhantomPinned as BitEncode<(), ()>>::spec_encode((), order, ()).unwrap().len())) by {
    }
}

} // verus!
