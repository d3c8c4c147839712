//! Tuples: their items one after the other.
use vstd::prelude::*;
use crate::model::Model;
use crate::byte_order::ByteOrder;
use crate::codec::{BitDecode, BitEncode, roundtrips};
use crate::error::{Error, Result};
use crate::stream::{BitInput, BitOutput};

verus! {

/// A one-item tuple is its item, under whatever tag the item takes.
impl<Ctx, Tg, T: BitDecode<Ctx, Tg>> BitDecode<Ctx, Tg> for (T,) {
    open spec fn spec_decode_error(bits: Seq<bool>, order: ByteOrder, tag: Tg, e: Error) -> bool {
        T::spec_decode_error(bits, order, tag, e)
    }

    open spec fn spec_decode(bits: Seq<bool>, order: ByteOrder, tag: Tg) -> Option<((T::V,), nat)> {
        match T::spec_decode(bits, order, tag) {
            Some((v, n)) => Some(((v,), n)),
            None => None,
        }
    }

    fn decode(read: &mut BitInput, ctx: &mut Ctx, tag: Tg) -> (res: Result<(T,)>) {
        let v = T::decode(read, ctx, tag)?;
        Ok((v,))
    }
}

impl<Ctx, Tg, T: BitEncode<Ctx, Tg>> BitEncode<Ctx, Tg> for (T,) {
    open spec fn spec_encode_error(v: (T::V,), order: ByteOrder, tag: Tg, e: Error) -> bool {
        T::spec_encode_error(v.0, order, tag, e)
    }

    open spec fn spec_encode(v: (T::V,), order: ByteOrder, tag: Tg) -> Option<Seq<bool>> {
        T::spec_encode(v.0, order, tag)
    }

    fn encode(&self, write: &mut BitOutput, ctx: &mut Ctx, tag: Tg) -> (res: Result<()>) {
        self.0.encode(write, ctx, tag)
    }
}

impl<Ctx, T0: BitDecode<Ctx, ()>, T1: BitDecode<Ctx, ()>> BitDecode<Ctx, ()> for (T0, T1) {
    /// Where the first item that fails to decode fails.
    open spec fn spec_decode_error(bits: Seq<bool>, order: ByteOrder, tag: (), e: Error) -> bool {
        match T0::spec_decode(bits, order, ()) {
            Some((_, n0)) => T1::spec_decode_error(bits.skip((n0) as int), order, (), e),
            None => T0::spec_decode_error(bits, order, (), e),
        }
    }

    /// The items one after the other.
    open spec fn spec_decode(bits: Seq<bool>, order: ByteOrder, tag: ()) -> Option<((T0::V, T1::V), nat)> {
        match T0::spec_decode(bits, order, ()) {
            Some((v0, n0)) => match T1::spec_decode(bits.skip((n0) as int), order, ()) {
                Some((v1, n1)) => Some(((v0, v1), n0 + n1)),
                None => None,
            },
            None => None,
        }
    }

    fn decode(read: &mut BitInput, ctx: &mut Ctx, tag: ()) -> (res: Result<(T0, T1)>) {
        let ghost r0 = *read;
        proof {
            BitInput::lemma_advanced_refl(&*read);
        }
        let ghost p0 = *read;
        let v0 = match T0::decode(read, ctx, ()) {
            Ok(v) => v,
            Err(e) => {
                proof {
                    BitInput::lemma_advanced_trans(&r0, &p0, &*read);
                }
                return Err(e);
            },
        };
        proof {
            BitInput::lemma_advanced_trans(&r0, &p0, &*read);
        }
        let ghost p1 = *read;
        let v1 = match T1::decode(read, ctx, ()) {
            Ok(v) => v,
            Err(e) => {
                proof {
                    BitInput::lemma_advanced_trans(&r0, &p1, &*read);
                }
                return Err(e);
            },
        };
        proof {
            BitInput::lemma_advanced_trans(&r0, &p1, &*read);
        }
        Ok((v0, v1))
    }
}

impl<Ctx, T0: BitEncode<Ctx, ()>, T1: BitEncode<Ctx, ()>> BitEncode<Ctx, ()> for (T0, T1) {
    /// Where the first item that cannot be encoded fails.
    open spec fn spec_encode_error(v: (T0::V, T1::V), order: ByteOrder, tag: (), e: Error) -> bool {
        match T0::spec_encode(v.0, order, ()) {
            Some(_) => T1::spec_encode_error(v.1, order, (), e),
            None => T0::spec_encode_error(v.0, order, (), e),
        }
    }

    /// The items one after the other.
    open spec fn spec_encode(v: (T0::V, T1::V), order: ByteOrder, tag: ()) -> Option<Seq<bool>> {
        match T0::spec_encode(v.0, order, ()) {
            Some(b0) => match T1::spec_encode(v.1, order, ()) {
                Some(b1) => Some(b0 + b1),
                None => None,
            },
            None => None,
        }
    }

    fn encode(&self, write: &mut BitOutput, ctx: &mut Ctx, tag: ()) -> (res: Result<()>) {
        let ghost w0 = write.bits();
        self.0.encode(write, ctx, ())?;
        let ghost w1 = write.bits();
        self.1.encode(write, ctx, ())?;
        let ghost w2 = write.bits();
        assert(write.bits() =~= w0 + (T0::spec_encode(self.0.model(), write.order(), ()).unwrap() + T1::spec_encode(self.1.model(), write.order(), ()).unwrap()));
        Ok(())
    }
}

impl<Ctx, T0: BitDecode<Ctx, ()>, T1: BitDecode<Ctx, ()>, T2: BitDecode<Ctx, ()>> BitDecode<Ctx, ()> for (T0, T1, T2) {
    /// Where the first item that fails to decode fails.
    open spec fn spec_decode_error(bits: Seq<bool>, order: ByteOrder, tag: (), e: Error) -> bool {
        match T0::spec_decode(bits, order, ()) {
            Some((_, n0)) => match T1::spec_decode(bits.skip((n0) as int), order, ()) {
                Some((_, n1)) => T2::spec_decode_error(bits.skip((n0 + n1) as int), order, (), e),
                None => T1::spec_decode_error(bits.skip((n0) as int), order, (), e),
            },
            None => T0::spec_decode_error(bits, order, (), e),
        }
    }

    /// The items one after the other.
    open spec fn spec_decode(bits: Seq<bool>, order: ByteOrder, tag: ()) -> Option<((T0::V, T1::V, T2::V), nat)> {
        match T0::spec_decode(bits, order, ()) {
            Some((v0, n0)) => match T1::spec_decode(bits.skip((n0) as int), order, ()) {
                Some((v1, n1)) => match T2::spec_decode(bits.skip((n0 + n1) as int), order, ()) {
                    Some((v2, n2)) => Some(((v0, v1, v2), n0 + n1 + n2)),
                    None => None,
                },
                None => None,
            },
            None => None,
        }
    }

    fn decode(read: &mut BitInput, ctx: &mut Ctx, tag: ()) -> (res: Result<(T0, T1, T2)>) {
        let ghost r0 = *read;
        proof {
            BitInput::lemma_advanced_refl(&*read);
        }
        let ghost p0 = *read;
        let v0 = match T0::decode(read, ctx, ()) {
            Ok(v) => v,
            Err(e) => {
                proof {
                    BitInput::lemma_advanced_trans(&r0, &p0, &*read);
                }
                return Err(e);
            },
        };
        proof {
            BitInput::lemma_advanced_trans(&r0, &p0, &*read);
        }
        let ghost p1 = *read;
        let v1 = match T1::decode(read, ctx, ()) {
            Ok(v) => v,
            Err(e) => {
                proof {
                    BitInput::lemma_advanced_trans(&r0, &p1, &*read);
                }
                return Err(e);
            },
        };
        proof {
            BitInput::lemma_advanced_trans(&r0, &p1, &*read);
        }
        let ghost p2 = *read;
        let v2 = match T2::decode(read, ctx, ()) {
            Ok(v) => v,
            Err(e) => {
                proof {
                    BitInput::lemma_advanced_trans(&r0, &p2, &*read);
                }
                return Err(e);
            },
        };
        proof {
            BitInput::lemma_advanced_trans(&r0, &p2, &*read);
        }
        Ok((v0, v1, v2))
    }
}

impl<Ctx, T0: BitEncode<Ctx, ()>, T1: BitEncode<Ctx, ()>, T2: BitEncode<Ctx, ()>> BitEncode<Ctx, ()> for (T0, T1, T2) {
    /// Where the first item that cannot be encoded fails.
    open spec fn spec_encode_error(v: (T0::V, T1::V, T2::V), order: ByteOrder, tag: (), e: Error) -> bool {
        match T0::spec_encode(v.0, order, ()) {
            Some(_) => match T1::spec_encode(v.1, order, ()) {
                Some(_) => T2::spec_encode_error(v.2, order, (), e),
                None => T1::spec_encode_error(v.1, order, (), e),
            },
            None => T0::spec_encode_error(v.0, order, (), e),
        }
    }

    /// The items one after the other.
    open spec fn spec_encode(v: (T0::V, T1::V, T2::V), order: ByteOrder, tag: ()) -> Option<Seq<bool>> {
        match T0::spec_encode(v.0, order, ()) {
            Some(b0) => match T1::spec_encode(v.1, order, ()) {
                Some(b1) => match T2::spec_encode(v.2, order, ()) {
                    Some(b2) => Some(b0 + b1 + b2),
                    None => None,
                },
                None => None,
            },
            None => None,
        }
    }

    fn encode(&self, write: &mut BitOutput, ctx: &mut Ctx, tag: ()) -> (res: Result<()>) {
        let ghost w0 = write.bits();
        self.0.encode(write, ctx, ())?;
        let ghost w1 = write.bits();
        self.1.encode(write, ctx, ())?;
        let ghost w2 = write.bits();
        self.2.encode(write, ctx, ())?;
        let ghost w3 = write.bits();
        assert(write.bits() =~= w0 + (T0::spec_encode(self.0.model(), write.order(), ()).unwrap() + T1::spec_encode(self.1.model(), write.order(), ()).unwrap() + T2::spec_encode(self.2.model(), write.order(), ()).unwrap()));
        Ok(())
    }
}

impl<Ctx, T0: BitDecode<Ctx, ()>, T1: BitDecode<Ctx, ()>, T2: BitDecode<Ctx, ()>, T3: BitDecode<Ctx, ()>> BitDecode<Ctx, ()> for (T0, T1, T2, T3) {
    /// Where the first item that fails to decode fails.
    open spec fn spec_decode_error(bits: Seq<bool>, order: ByteOrder, tag: (), e: Error) -> bool {
        match T0::spec_decode(bits, order, ()) {
            Some((_, n0)) => match T1::spec_decode(bits.skip((n0) as int), order, ()) {
                Some((_, n1)) => match T2::spec_decode(bits.skip((n0 + n1) as int), order, ()) {
                    Some((_, n2)) => T3::spec_decode_error(bits.skip((n0 + n1 + n2) as int), order, (), e),
                    None => T2::spec_decode_error(bits.skip((n0 + n1) as int), order, (), e),
                },
                None => T1::spec_decode_error(bits.skip((n0) as int), order, (), e),
            },
            None => T0::spec_decode_error(bits, order, (), e),
        }
    }

    /// The items one after the other.
    open spec fn spec_decode(bits: Seq<bool>, order: ByteOrder, tag: ()) -> Option<((T0::V, T1::V, T2::V, T3::V), nat)> {
        match T0::spec_decode(bits, order, ()) {
            Some((v0, n0)) => match T1::spec_decode(bits.skip((n0) as int), order, ()) {
                Some((v1, n1)) => match T2::spec_decode(bits.skip((n0 + n1) as int), order, ()) {
                    Some((v2, n2)) => match T3::spec_decode(bits.skip((n0 + n1 + n2) as int), order, ()) {
                        Some((v3, n3)) => Some(((v0, v1, v2, v3), n0 + n1 + n2 + n3)),
                        None => None,
                    },
                    None => None,
                },
                None => None,
            },
            None => None,
        }
    }

    fn decode(read: &mut BitInput, ctx: &mut Ctx, tag: ()) -> (res: Result<(T0, T1, T2, T3)>) {
        let ghost r0 = *read;
        proof {
            BitInput::lemma_advanced_refl(&*read);
        }
        let ghost p0 = *read;
        let v0 = match T0::decode(read, ctx, ()) {
            Ok(v) => v,
            Err(e) => {
                proof {
                    BitInput::lemma_advanced_trans(&r0, &p0, &*read);
                }
                return Err(e);
            },
        };
        proof {
            BitInput::lemma_advanced_trans(&r0, &p0, &*read);
        }
        let ghost p1 = *read;
        let v1 = match T1::decode(read, ctx, ()) {
            Ok(v) => v,
            Err(e) => {
                proof {
                    BitInput::lemma_advanced_trans(&r0, &p1, &*read);
                }
                return Err(e);
            },
        };
        proof {
            BitInput::lemma_advanced_trans(&r0, &p1, &*read);
        }
        let ghost p2 = *read;
        let v2 = match T2::decode(read, ctx, ()) {
            Ok(v) => v,
            Err(e) => {
                proof {
                    BitInput::lemma_advanced_trans(&r0, &p2, &*read);
                }
                return Err(e);
            },
        };
        proof {
            BitInput::lemma_advanced_trans(&r0, &p2, &*read);
        }
        let ghost p3 = *read;
        let v3 = match T3::decode(read, ctx, ()) {
            Ok(v) => v,
            Err(e) => {
                proof {
                    BitInput::lemma_advanced_trans(&r0, &p3, &*read);
                }
                return Err(e);
            },
        };
        proof {
            BitInput::lemma_advanced_trans(&r0, &p3, &*read);
        }
        Ok((v0, v1, v2, v3))
    }
}

impl<Ctx, T0: BitEncode<Ctx, ()>, T1: BitEncode<Ctx, ()>, T2: BitEncode<Ctx, ()>, T3: BitEncode<Ctx, ()>> BitEncode<Ctx, ()> for (T0, T1, T2, T3) {
    /// Where the first item that cannot be encoded fails.
    open spec fn spec_encode_error(v: (T0::V, T1::V, T2::V, T3::V), order: ByteOrder, tag: (), e: Error) -> bool {
        match T0::spec_encode(v.0, order, ()) {
            Some(_) => match T1::spec_encode(v.1, order, ()) {
                Some(_) => match T2::spec_encode(v.2, order, ()) {
                    Some(_) => T3::spec_encode_error(v.3, order, (), e),
                    None => T2::spec_encode_error(v.2, order, (), e),
                },
                None => T1::spec_encode_error(v.1, order, (), e),
            },
            None => T0::spec_encode_error(v.0, order, (), e),
        }
    }

    /// The items one after the other.
    open spec fn spec_encode(v: (T0::V, T1::V, T2::V, T3::V), order: ByteOrder, tag: ()) -> Option<Seq<bool>> {
        match T0::spec_encode(v.0, order, ()) {
            Some(b0) => match T1::spec_encode(v.1, order, ()) {
                Some(b1) => match T2::spec_encode(v.2, order, ()) {
                    Some(b2) => match T3::spec_encode(v.3, order, ()) {
                        Some(b3) => Some(b0 + b1 + b2 + b3),
                        None => None,
                    },
                    None => None,
                },
                None => None,
            },
            None => None,
        }
    }

    fn encode(&self, write: &mut BitOutput, ctx: &mut Ctx, tag: ()) -> (res: Result<()>) {
        let ghost w0 = write.bits();
        self.0.encode(write, ctx, ())?;
        let ghost w1 = write.bits();
        self.1.encode(write, ctx, ())?;
        let ghost w2 = write.bits();
        self.2.encode(write, ctx, ())?;
        let ghost w3 = write.bits();
        self.3.encode(write, ctx, ())?;
        let ghost w4 = write.bits();
        assert(write.bits() =~= w0 + (T0::spec_encode(self.0.model(), write.order(), ()).unwrap() + T1::spec_encode(self.1.model(), write.order(), ()).unwrap() + T2::spec_encode(self.2.model(), write.order(), ()).unwrap() + T3::spec_encode(self.3.model(), write.order(), ()).unwrap()));
        Ok(())
    }
}

/// A one-item tuple round-trips exactly when its item does.
pub proof fn law_tuple1_roundtrip<T, Te, Td>(v: (T::V,), order: ByteOrder, te: Te, td: Td) where
    T: BitEncode<(), Te> + BitDecode<(), Td>,

    requires
        roundtrips::<T, Te, Td>(v.0, order, te, td),
    ensures
        roundtrips::<(T,), Te, Td>(v, order, te, td),
{
    assert forall|rest: Seq<bool>|
        #[trigger] <(T,) as BitDecode<(), Td>>::spec_decode(
            <(T,) as BitEncode<(), Te>>::spec_encode(v, order, te).unwrap() + rest,
            order,
            td,
        ) == Some((v, <(T,) as BitEncode<(), Te>>::spec_encode(v, order, te).unwrap().len())) by {
        assert(T::spec_decode(T::spec_encode(v.0, order, te).unwrap() + rest, order, td) == Some(
            (v.0, T::spec_encode(v.0, order, te).unwrap().len()),
        ));
    }
}

/// A pair whose items each round-trip is decoded back from its encoding followed by any
/// other bits.
pub proof fn law_tuple2_roundtrip<T0, T1>(v: (T0::V, T1::V), order: ByteOrder) where
    T0: BitEncode<(), ()> + BitDecode<(), ()>,
    T1: BitEncode<(), ()> + BitDecode<(), ()>,

    requires
        roundtrips::<T0, (), ()>(v.0, order, (), ()),
        roundtrips::<T1, (), ()>(v.1, order, (), ()),
    ensures
        roundtrips::<(T0, T1), (), ()>(v, order, (), ()),
{
        let e0 = T0::spec_encode(v.0, order, ()).unwrap();
        let e1 = T1::spec_encode(v.1, order, ()).unwrap();
    assert forall|rest: Seq<bool>|
        #[trigger] <(T0, T1) as BitDecode<(), ()>>::spec_decode(
            <(T0, T1) as BitEncode<(), ()>>::spec_encode(v, order, ()).unwrap() + rest,
            order,
            (),
        ) == Some((v, <(T0, T1) as BitEncode<(), ()>>::spec_encode(v, order, ()).unwrap().len())) by {
        let bits = e0 + e1 + rest;
        assert(bits =~= e0 + e1 + rest);
        assert(T0::spec_decode(e0 + (e1 + rest), order, ()) == Some((v.0, e0.len())));
        assert(e0 + e1 + rest =~= e0 + (e1 + rest));
        assert(bits.skip(((e0).len()) as int) =~= e1 + rest);
        assert(T1::spec_decode(e1 + (rest), order, ()) == Some((v.1, e1.len())));
        assert(e1 + rest =~= e1 + (rest));
    }
}

/// A triple whose items each round-trip is decoded back from its encoding followed by any
/// other bits.
pub proof fn law_tuple3_roundtrip<T0, T1, T2>(v: (T0::V, T1::V, T2::V), order: ByteOrder) where
    T0: BitEncode<(), ()> + BitDecode<(), ()>,
    T1: BitEncode<(), ()> + BitDecode<(), ()>,
    T2: BitEncode<(), ()> + BitDecode<(), ()>,

    requires
        roundtrips::<T0, (), ()>(v.0, order, (), ()),
        roundtrips::<T1, (), ()>(v.1, order, (), ()),
        roundtrips::<T2, (), ()>(v.2, order, (), ()),
    ensures
        roundtrips::<(T0, T1, T2), (), ()>(v, order, (), ()),
{
        let e0 = T0::spec_encode(v.0, order, ()).unwrap();
        let e1 = T1::spec_encode(v.1, order, ()).unwrap();
        let e2 = T2::spec_encode(v.2, order, ()).unwrap();
    assert forall|rest: Seq<bool>|
        #[trigger] <(T0, T1, T2) as BitDecode<(), ()>>::spec_decode(
            <(T0, T1, T2) as BitEncode<(), ()>>::spec_encode(v, order, ()).unwrap() + rest,
            order,
            (),
        ) == Some((v, <(T0, T1, T2) as BitEncode<(), ()>>::spec_encode(v, order, ()).unwrap().len())) by {
        let bits = e0 + e1 + e2 + rest;
        assert(bits =~= e0 + e1 + e2 + rest);
        assert(T0::spec_decode(e0 + (e1 + e2 + rest), order, ()) == Some((v.0, e0.len())));
        assert(e0 + e1 + e2 + rest =~= e0 + (e1 + e2 + rest));
        assert(bits.skip(((e0).len()) as int) =~= e1 + e2 + rest);
        assert(T1::spec_decode(e1 + (e2 + rest), order, ()) == Some((v.1, e1.len())));
        assert(e1 + e2 + rest =~= e1 + (e2 + rest));
        assert(bits.skip(((e0 + e1).len()) as int) =~= e2 + rest);
        assert(T2::spec_decode(e2 + (rest), order, ()) == Some((v.2, e2.len())));
        assert(e2 + rest =~= e2 + (rest));
    }
}

/// A four-item tuple whose items each round-trip is decoded back from its encoding followed by any
/// other bits.
pub proof fn law_tuple4_roundtrip<T0, T1, T2, T3>(v: (T0::V, T1::V, T2::V, T3::V), order: ByteOrder) where
    T0: BitEncode<(), ()> + BitDecode<(), ()>,
    T1: BitEncode<(), ()> + BitDecode<(), ()>,
    T2: BitEncode<(), ()> + BitDecode<(), ()>,
    T3: BitEncode<(), ()> + BitDecode<(), ()>,

    requires
        roundtrips::<T0, (), ()>(v.0, order, (), ()),
        roundtrips::<T1, (), ()>(v.1, order, (), ()),
        roundtrips::<T2, (), ()>(v.2, order, (), ()),
        roundtrips::<T3, (), ()>(v.3, order, (), ()),
    ensures
        roundtrips::<(T0, T1, T2, T3), (), ()>(v, order, (), ()),
{
        let e0 = T0::spec_encode(v.0, order, ()).unwrap();
        let e1 = T1::spec_encode(v.1, order, ()).unwrap();
        let e2 = T2::spec_encode(v.2, order, ()).unwrap();
        let e3 = T3::spec_encode(v.3, order, ()).unwrap();
    assert forall|rest: Seq<bool>|
        #[trigger] <(T0, T1, T2, T3) as BitDecode<(), ()>>::spec_decode(
            <(T0, T1, T2, T3) as BitEncode<(), ()>>::spec_encode(v, order, ()).unwrap() + rest,
            order,
            (),
        ) == Some((v, <(T0, T1, T2, T3) as BitEncode<(), ()>>::spec_encode(v, order, ()).unwrap().len())) by {
        let bits = e0 + e1 + e2 + e3 + rest;
        assert(bits =~= e0 + e1 + e2 + e3 + rest);
        assert(T0::spec_decode(e0 + (e1 + e2 + e3 + rest), order, ()) == Some((v.0, e0.len())));
        assert(e0 + e1 + e2 + e3 + rest =~= e0 + (e1 + e2 + e3 + rest));
        assert(bits.skip(((e0).len()) as int) =~= e1 + e2 + e3 + rest);
        assert(T1::spec_decode(e1 + (e2 + e3 + rest), order, ()) == Some((v.1, e1.len())));
        assert(e1 + e2 + e3 + rest =~= e1 + (e2 + e3 + rest));
        assert(bits.skip(((e0 + e1).len()) as int) =~= e2 + e3 + rest);
        assert(T2::spec_decode(e2 + (e3 + rest), order, ()) == Some((v.2, e2.len())));
        assert(e2 + e3 + rest =~= e2 + (e3 + rest));
        assert(bits.skip(((e0 + e1 + e2).len()) as int) =~= e3 + rest);
        assert(T3::spec_decode(e3 + (rest), order, ()) == Some((v.3, e3.len())));
        assert(e3 + rest =~= e3 + (rest));
    }
}

} // verus!
