//! Lists: a counted run of items, or items up to the end of the stream.
use vstd::prelude::*;
use crate::model::Model;
use std::collections::VecDeque;
use crate::byte_order::ByteOrder;
use crate::codec::{BitDecode, BitEncode, Tag, TagCount, Untagged, roundtrips};
use crate::error::{Error, Result};
use crate::stream::{BitInput, BitOutput};
use vstd::layout::size_of;

verus! {

/// Decoding `n` items one after the other from the front of `bits`: the items and the
/// number of bits they take, or `None` where one of them fails.
pub open spec fn decode_items<T: BitDecode<Ctx, ()>, Ctx>(
    bits: Seq<bool>,
    order: ByteOrder,
    n: nat,
) -> Option<(Seq<T::V>, nat)>
    decreases n,
{
    if n == 0 {
        Some((seq![], 0))
    } else {
        match decode_items::<T, Ctx>(bits, order, (n - 1) as nat) {
            Some((vs, k)) => match T::spec_decode(bits.skip(k as int), order, ()) {
                Some((v, m)) => Some((vs.push(v), k + m)),
                None => None,
            },
            None => None,
        }
    }
}

/// Decoding items one after the other until `bits` are used up. It fails where an item
/// fails, or takes no bits, or would need more bits than are left.
pub open spec fn decode_items_to_end<T: BitDecode<Ctx, ()>, Ctx>(
    bits: Seq<bool>,
    order: ByteOrder,
) -> Option<Seq<T::V>>
    decreases bits.len(),
{
    if bits.len() == 0 {
        Some(seq![])
    } else {
        match T::spec_decode(bits, order, ()) {
            Some((v, m)) => if 0 < m <= bits.len() {
                match decode_items_to_end::<T, Ctx>(bits.skip(m as int), order) {
                    Some(vs) => Some(seq![v] + vs),
                    None => None,
                }
            } else {
                None
            },
            None => None,
        }
    }
}

/// The bits of items encoded one after the other, or `None` where one of them cannot be
/// encoded.
pub open spec fn encode_items<T: BitEncode<Ctx, ()>, Ctx>(
    vs: Seq<T::V>,
    order: ByteOrder,
) -> Option<Seq<bool>>
    decreases vs.len(),
{
    if vs.len() == 0 {
        Some(seq![])
    } else {
        match encode_items::<T, Ctx>(vs.drop_last(), order) {
            Some(b) => match T::spec_encode(vs.last(), order, ()) {
                Some(c) => Some(b + c),
                None => None,
            },
            None => None,
        }
    }
}

/// Where decoding `n` items from the front of `bits` fails: where the first item that
/// fails to decode fails, at the bits that the items before it leave.
pub open spec fn decode_items_error<T: BitDecode<Ctx, ()>, Ctx>(
    bits: Seq<bool>,
    order: ByteOrder,
    n: nat,
    e: Error,
) -> bool
    decreases n,
{
    if n == 0 {
        false
    } else {
        match decode_items::<T, Ctx>(bits, order, (n - 1) as nat) {
            Some((_, k)) => T::spec_decode_error(bits.skip(k as int), order, (), e),
            None => decode_items_error::<T, Ctx>(bits, order, (n - 1) as nat, e),
        }
    }
}

/// Where decoding items until `bits` are used up fails: where the first item that fails
/// fails, or, for an item that takes no bits or more bits than are left, with
/// [`Error::Other`].
pub open spec fn decode_items_to_end_error<T: BitDecode<Ctx, ()>, Ctx>(
    bits: Seq<bool>,
    order: ByteOrder,
    e: Error,
) -> bool
    decreases bits.len(),
{
    if bits.len() == 0 {
        false
    } else {
        match T::spec_decode(bits, order, ()) {
            Some((_, m)) => if 0 < m <= bits.len() {
                decode_items_to_end_error::<T, Ctx>(bits.skip(m as int), order, e)
            } else {
                e is Other
            },
            None => T::spec_decode_error(bits, order, (), e),
        }
    }
}

/// Where encoding items one after the other fails: where the first item that cannot be
/// encoded fails.
pub open spec fn encode_items_error<T: BitEncode<Ctx, ()>, Ctx>(
    vs: Seq<T::V>,
    order: ByteOrder,
    e: Error,
) -> bool
    decreases vs.len(),
{
    if vs.len() == 0 {
        false
    } else {
        match encode_items::<T, Ctx>(vs.drop_last(), order) {
            Some(_) => T::spec_encode_error(vs.last(), order, (), e),
            None => encode_items_error::<T, Ctx>(vs.drop_last(), order, e),
        }
    }
}

/// `vs` followed by what `o` holds.
pub open spec fn prepend_items<V>(vs: Seq<V>, o: Option<Seq<V>>) -> Option<Seq<V>> {
    match o {
        Some(rest) => Some(vs + rest),
        None => None,
    }
}

/// Reads `n` items into `items`, which starts empty.
pub fn decode_n_items<T: BitDecode<Ctx, ()>, Ctx>(
    read: &mut BitInput,
    ctx: &mut Ctx,
    n: usize,
    items: Vec<T>,
) -> (res: Result<Vec<T>>)
    requires
        items@.len() == 0,
    ensures
        final(read).advanced_from(&*old(read)),
        res is Ok <==> decode_items::<T, Ctx>(old(read).bits(), old(read).order(), n as nat) is Some,
        res matches Ok(vs) ==> decode_items::<T, Ctx>(old(read).bits(), old(read).order(), n as nat)
            == Some((vs.model(), (final(read).position() - old(read).position()) as nat)),
        res matches Err(e) ==> decode_items_error::<T, Ctx>(
            old(read).bits(),
            old(read).order(),
            n as nat,
            e,
        ),
{
    let ghost r0 = *read;
    let mut items = items;
    let mut i: usize = 0;
    proof {
        BitInput::lemma_advanced_refl(&*read);
        assert(items.model() =~= Seq::<T::V>::empty());
    }
    while i < n
        invariant
            i <= n,
            read.advanced_from(&r0),
            r0 == *old(read),
            decode_items::<T, Ctx>(r0.bits(), r0.order(), i as nat) == Some(
                (items.model(), (read.position() - r0.position()) as nat),
            ),
        decreases n - i,
    {
        let ghost r1 = *read;
        let ghost before = items.model();
        assert(r1.bits() == r0.bits().skip((r1.position() - r0.position()) as int));
        match T::decode(read, ctx, ()) {
            Ok(v) => {
                items.push(v);
                proof {
                    BitInput::lemma_advanced_trans(&r0, &r1, &*read);
                    assert(items.model() =~= before.push(v.model()));
                }
            },
            Err(e) => {
                proof {
                    BitInput::lemma_advanced_trans(&r0, &r1, &*read);
                    lemma_decode_items_fail::<T, Ctx>(r0.bits(), r0.order(), (i + 1) as nat, n as nat);
                    lemma_decode_items_error::<T, Ctx>(r0.bits(), r0.order(), (i + 1) as nat, n as nat, e);
                }
                return Err(e);
            },
        }
        i = i + 1;
    }
    Ok(items)
}

/// Whether `n` items of `T` take more than `isize::MAX` bytes, more than a vector can hold.
pub open spec fn too_many<T>(n: nat) -> bool {
    n * size_of::<T>() > isize::MAX
}

/// Decoding a list of `n` items: refused where they cannot be held, else the items.
pub open spec fn decode_list<T: BitDecode<Ctx, ()>, Ctx>(
    bits: Seq<bool>,
    order: ByteOrder,
    n: nat,
) -> Option<(Seq<T::V>, nat)> {
    if too_many::<T>(n) {
        None
    } else {
        decode_items::<T, Ctx>(bits, order, n)
    }
}

/// Where decoding a list of `n` items fails: room for them is refused, or an item fails.
pub open spec fn decode_list_error<T: BitDecode<Ctx, ()>, Ctx>(
    bits: Seq<bool>,
    order: ByteOrder,
    n: nat,
    e: Error,
) -> bool {
    if too_many::<T>(n) {
        e is TryReserve
    } else {
        decode_items_error::<T, Ctx>(bits, order, n, e)
    }
}

/// `Vec::try_reserve_exact`: makes room for `additional` more items, leaving the items as
/// they are. It fails when the room asked for is more than `isize::MAX` bytes. The
/// allocator may refuse a smaller request too; when it does is not stated here.
#[verifier::external_body]
pub(crate) fn vec_try_reserve_exact<T>(v: &mut Vec<T>, additional: usize) -> (res:
    core::result::Result<(), std::collections::TryReserveError>)
    ensures
        final(v)@ == old(v)@,
        too_many::<T>((old(v)@.len() + additional) as nat) ==> res is Err,
{
    v.try_reserve_exact(additional)
}

/// Reads a list of `n` items, having first made room for them.
pub fn decode_list_items<T: BitDecode<Ctx, ()>, Ctx>(
    read: &mut BitInput,
    ctx: &mut Ctx,
    n: usize,
) -> (res: Result<Vec<T>>)
    ensures
        final(read).advanced_from(&*old(read)),
        res is Ok <==> decode_list::<T, Ctx>(old(read).bits(), old(read).order(), n as nat) is Some,
        res matches Ok(vs) ==> decode_list::<T, Ctx>(old(read).bits(), old(read).order(), n as nat)
            == Some((vs.model(), (final(read).position() - old(read).position()) as nat)),
        res matches Err(e) ==> decode_list_error::<T, Ctx>(
            old(read).bits(),
            old(read).order(),
            n as nat,
            e,
        ),
{
    let mut items: Vec<T> = Vec::new();
    if let Err(e) = vec_try_reserve_exact(&mut items, n) {
        // Only a request past `isize::MAX` bytes is refused for certain; where the allocator
        // refuses a smaller one, the items are read without the room made first.
        if too_many_items::<T>(n) {
            proof {
                BitInput::lemma_advanced_refl(&*read);
            }
            return Err(Error::TryReserve(e));
        }
    }
    decode_n_items(read, ctx, n, items)
}

/// Whether `n` items of `T` take more than `isize::MAX` bytes.
fn too_many_items<T>(n: usize) -> (b: bool)
    ensures
        b == too_many::<T>(n as nat),
{
    let size = core::mem::size_of::<T>();
    match n.checked_mul(size) {
        Some(bytes) => bytes > isize::MAX as usize,
        None => {
            proof {
                vstd::layout::unsigned_int_max_values();
                vstd::layout::signed_int_min_max_values();
            }
            true
        },
    }
}

/// Once `n` items fail to decode, more items fail too.
pub proof fn lemma_decode_items_fail<T: BitDecode<Ctx, ()>, Ctx>(
    bits: Seq<bool>,
    order: ByteOrder,
    n: nat,
    m: nat,
)
    requires
        decode_items::<T, Ctx>(bits, order, n) is None,
        n <= m,
    ensures
        decode_items::<T, Ctx>(bits, order, m) is None,
    decreases m - n,
{
    if n < m {
        lemma_decode_items_fail::<T, Ctx>(bits, order, n, (m - 1) as nat);
    }
}

/// An error of the first `n` items is an error of more items.
pub proof fn lemma_decode_items_error<T: BitDecode<Ctx, ()>, Ctx>(
    bits: Seq<bool>,
    order: ByteOrder,
    n: nat,
    m: nat,
    e: Error,
)
    requires
        decode_items::<T, Ctx>(bits, order, n) is None,
        decode_items_error::<T, Ctx>(bits, order, n, e),
        n <= m,
    ensures
        decode_items_error::<T, Ctx>(bits, order, m, e),
    decreases m - n,
{
    if n < m {
        lemma_decode_items_error::<T, Ctx>(bits, order, n, (m - 1) as nat, e);
        lemma_decode_items_fail::<T, Ctx>(bits, order, n, (m - 1) as nat);
    }
}

/// Reads items until the stream is used up. An item that takes no bits is refused, as
/// reading on would never end.
pub fn decode_items_until_end<T: BitDecode<Ctx, ()>, Ctx>(read: &mut BitInput, ctx: &mut Ctx) -> (res:
    Result<Vec<T>>)
    ensures
        final(read).advanced_from(&*old(read)),
        res is Ok <==> decode_items_to_end::<T, Ctx>(old(read).bits(), old(read).order()) is Some,
        res matches Ok(vs) ==> {
            &&& decode_items_to_end::<T, Ctx>(old(read).bits(), old(read).order()) == Some(
                vs.model(),
            )
            &&& final(read).bits().len() == 0
        },
        res matches Err(e) ==> decode_items_to_end_error::<T, Ctx>(
            old(read).bits(),
            old(read).order(),
            e,
        ),
{
    let ghost r0 = *read;
    let mut items: Vec<T> = Vec::new();
    proof {
        BitInput::lemma_advanced_refl(&*read);
        assert(items.model() =~= Seq::<T::V>::empty());
        assert(Seq::<T::V>::empty() + decode_items_to_end::<T, Ctx>(read.bits(), read.order()).unwrap_or(seq![]) =~= decode_items_to_end::<T, Ctx>(read.bits(), read.order()).unwrap_or(seq![]));
    }
    loop
        invariant
            read.advanced_from(&r0),
            r0 == *old(read),
            decode_items_to_end::<T, Ctx>(r0.bits(), r0.order()) == prepend_items(
                items.model(),
                decode_items_to_end::<T, Ctx>(read.bits(), read.order()),
            ),
            forall|e: Error|
                #[trigger] decode_items_to_end_error::<T, Ctx>(read.bits(), r0.order(), e)
                    ==> decode_items_to_end_error::<T, Ctx>(r0.bits(), r0.order(), e),
        decreases read.bits().len(),
    {
        let left = read.remaining_bits();
        if left == 0 {
            proof {
                assert(items.model() + Seq::<T::V>::empty() =~= items.model());
            }
            return Ok(items);
        }
        let ghost r1 = *read;
        let ghost before = items.model();
        let p0 = read.position_in_bits();
        match T::decode(read, ctx, ()) {
            Ok(v) => {
                let p1 = read.position_in_bits();
                proof {
                    BitInput::lemma_advanced_trans(&r0, &r1, &*read);
                }
                if p1 == p0 {
                    let e = Error::Other(zero_width_message());
                    assert(decode_items_to_end_error::<T, Ctx>(r1.bits(), r0.order(), e));
                    return Err(e);
                }
                items.push(v);
                proof {
                    let m = (read.position() - r1.position()) as nat;
                    assert forall|e: Error|
                        #[trigger] decode_items_to_end_error::<T, Ctx>(read.bits(), r0.order(), e)
                            implies decode_items_to_end_error::<T, Ctx>(r0.bits(), r0.order(), e) by {
                        assert(decode_items_to_end_error::<T, Ctx>(r1.bits(), r0.order(), e));
                    }
                    assert(items.model() =~= before.push(v.model()));
                    match decode_items_to_end::<T, Ctx>(read.bits(), read.order()) {
                        Some(rest) => {
                            assert(before + (seq![v.model()] + rest) =~= items.model()
                                + rest);
                        },
                        None => {},
                    }
                }
            },
            Err(e) => {
                proof {
                    BitInput::lemma_advanced_trans(&r0, &r1, &*read);
                    assert(decode_items_to_end_error::<T, Ctx>(r1.bits(), r0.order(), e));
                }
                return Err(e);
            },
        }
    }
}

/// The description of the error for an item that takes no bits where items are read to the
/// end of the stream.
fn zero_width_message() -> (m: String)
    ensures
        m@ == "item of zero bits"@,
{
    "item of zero bits".to_owned()
}

/// Writes the items one after the other.
pub fn encode_all_items<T: BitEncode<Ctx, ()>, Ctx>(
    items: &[T],
    write: &mut BitOutput,
    ctx: &mut Ctx,
) -> (res: Result<()>)
    ensures
        final(write).order() == old(write).order(),
        res is Ok <==> encode_items::<T, Ctx>(items.model(), old(write).order()) is Some,
        res is Ok ==> final(write).bits() == old(write).bits() + encode_items::<T, Ctx>(
            items.model(),
            old(write).order(),
        ).unwrap(),
        res matches Err(e) ==> encode_items_error::<T, Ctx>(items.model(), old(write).order(), e),
{
    let mut i: usize = 0;
    let ghost w0 = *old(write);
    while i < items.len()
        invariant
            i <= items.len(),
            w0 == *old(write),
            write.order() == w0.order(),
            encode_items::<T, Ctx>(items.model().take(i as int), w0.order()) is Some,
            write.bits() == w0.bits() + encode_items::<T, Ctx>(
                items.model().take(i as int),
                w0.order(),
            ).unwrap(),
        decreases items.len() - i,
    {
        let ghost b = write.bits();
        assert(items.model().take((i + 1) as int).drop_last() =~= items.model().take(
            i as int,
        ));
        assert(items.model().take((i + 1) as int).last() == items@[i as int].model());
        match items[i].encode(write, ctx, ()) {
            Ok(()) => {
                assert(write.bits() =~= w0.bits() + encode_items::<T, Ctx>(
                    items.model().take((i + 1) as int),
                    w0.order(),
                ).unwrap());
            },
            Err(e) => {
                proof {
                    assert(items.model().take((i + 1) as int).last() == items@[i as int].model());
                    lemma_encode_items_fail::<T, Ctx>(
                        items.model(),
                        w0.order(),
                        (i + 1) as nat,
                        items.len() as nat,
                    );
                    lemma_encode_items_error::<T, Ctx>(
                        items.model(),
                        w0.order(),
                        (i + 1) as nat,
                        items.len() as nat,
                        e,
                    );
                    assert(items.model().take(items.len() as int) =~= items.model());
                }
                return Err(e);
            },
        }
        i = i + 1;
    }
    assert(items.model().take(items.len() as int) =~= items.model());
    Ok(())
}

/// Once a prefix of items cannot be encoded, longer prefixes cannot either.
pub proof fn lemma_encode_items_fail<T: BitEncode<Ctx, ()>, Ctx>(
    vs: Seq<T::V>,
    order: ByteOrder,
    n: nat,
    m: nat,
)
    requires
        n <= m <= vs.len(),
        encode_items::<T, Ctx>(vs.take(n as int), order) is None,
    ensures
        encode_items::<T, Ctx>(vs.take(m as int), order) is None,
    decreases m - n,
{
    if n < m {
        lemma_encode_items_fail::<T, Ctx>(vs, order, n, (m - 1) as nat);
        assert(vs.take(m as int).drop_last() =~= vs.take((m - 1) as int));
    }
}

/// An error of a prefix of items is an error of longer prefixes.
pub proof fn lemma_encode_items_error<T: BitEncode<Ctx, ()>, Ctx>(
    vs: Seq<T::V>,
    order: ByteOrder,
    n: nat,
    m: nat,
    e: Error,
)
    requires
        n <= m <= vs.len(),
        encode_items::<T, Ctx>(vs.take(n as int), order) is None,
        encode_items_error::<T, Ctx>(vs.take(n as int), order, e),
    ensures
        encode_items_error::<T, Ctx>(vs.take(m as int), order, e),
    decreases m - n,
{
    if n < m {
        lemma_encode_items_error::<T, Ctx>(vs, order, n, (m - 1) as nat, e);
        lemma_encode_items_fail::<T, Ctx>(vs, order, n, (m - 1) as nat);
        assert(vs.take(m as int).drop_last() =~= vs.take((m - 1) as int));
    }
}

/// Every item of `vs` round-trips.
pub open spec fn all_roundtrip<T>(vs: Seq<T::V>, order: ByteOrder) -> bool where
    T: BitEncode<(), ()> + BitDecode<(), ()>,
 {
    forall|i: int| 0 <= i < vs.len() ==> #[trigger] roundtrips::<T, (), ()>(vs[i], order, (), ())
}

/// Encoding two runs of items one after the other gives the bits of the first run followed
/// by those of the second.
pub proof fn lemma_encode_items_append<T: BitEncode<Ctx, ()>, Ctx>(
    a: Seq<T::V>,
    b: Seq<T::V>,
    order: ByteOrder,
)
    requires
        encode_items::<T, Ctx>(a, order) is Some,
        encode_items::<T, Ctx>(b, order) is Some,
    ensures
        encode_items::<T, Ctx>(a + b, order) == Some(
            encode_items::<T, Ctx>(a, order).unwrap() + encode_items::<T, Ctx>(b, order).unwrap(),
        ),
    decreases b.len(),
{
    if b.len() == 0 {
        assert(a + b =~= a);
        assert(encode_items::<T, Ctx>(a, order).unwrap() + Seq::<bool>::empty()
            =~= encode_items::<T, Ctx>(a, order).unwrap());
    } else {
        lemma_encode_items_append::<T, Ctx>(a, b.drop_last(), order);
        assert((a + b).drop_last() =~= a + b.drop_last());
        assert((a + b).last() == b.last());
        let ea = encode_items::<T, Ctx>(a, order).unwrap();
        let eb = encode_items::<T, Ctx>(b.drop_last(), order).unwrap();
        let c = T::spec_encode(b.last(), order, ()).unwrap();
        assert(ea + eb + c =~= ea + (eb + c));
    }
}

/// Items that each round-trip can all be encoded.
pub proof fn lemma_encode_items_some<T>(vs: Seq<T::V>, order: ByteOrder) where
    T: BitEncode<(), ()> + BitDecode<(), ()>,

    requires
        all_roundtrip::<T>(vs, order),
    ensures
        encode_items::<T, ()>(vs, order) is Some,
    decreases vs.len(),
{
    if vs.len() > 0 {
        assert(roundtrips::<T, (), ()>(vs[vs.len() - 1], order, (), ()));
        assert forall|i: int| 0 <= i < vs.drop_last().len() implies #[trigger] roundtrips::<T, (), ()>(
            vs.drop_last()[i],
            order,
            (),
            (),
        ) by {
            assert(roundtrips::<T, (), ()>(vs[i], order, (), ()));
        }
        lemma_encode_items_some::<T>(vs.drop_last(), order);
    }
}

/// A list whose items each round-trip is decoded back, given its length, from its encoding
/// followed by any other bits, and decoding stops where its bits end.
pub proof fn law_vec_tagged_roundtrip<T>(vs: Seq<T::V>, order: ByteOrder) where
    T: BitEncode<(), ()> + BitDecode<(), ()>,

    requires
        all_roundtrip::<T>(vs, order),
        vs.len() <= usize::MAX,
        !too_many::<T>(vs.len()),
    ensures
        roundtrips::<Vec<T>, Untagged, Tag<usize>>(vs, order, Untagged, Tag(vs.len() as usize)),
{
    lemma_encode_items_some::<T>(vs, order);
    assert forall|rest: Seq<bool>|
        #[trigger] decode_items::<T, ()>(
            encode_items::<T, ()>(vs, order).unwrap() + rest,
            order,
            vs.len(),
        ) == Some((vs, encode_items::<T, ()>(vs, order).unwrap().len())) by {
        lemma_decode_encoded_items::<T>(vs, order, rest);
    }
}

/// Decoding `vs.len()` items from the encoding of `vs` followed by `rest` gives `vs` back.
pub proof fn lemma_decode_encoded_items<T>(vs: Seq<T::V>, order: ByteOrder, rest: Seq<bool>) where
    T: BitEncode<(), ()> + BitDecode<(), ()>,

    requires
        all_roundtrip::<T>(vs, order),
    ensures
        encode_items::<T, ()>(vs, order) is Some,
        decode_items::<T, ()>(encode_items::<T, ()>(vs, order).unwrap() + rest, order, vs.len())
            == Some((vs, encode_items::<T, ()>(vs, order).unwrap().len())),
    decreases vs.len(),
{
    lemma_encode_items_some::<T>(vs, order);
    if vs.len() > 0 {
        let init = vs.drop_last();
        let x = vs.last();
        assert(roundtrips::<T, (), ()>(vs[vs.len() - 1], order, (), ()));
        assert forall|i: int| 0 <= i < init.len() implies #[trigger] roundtrips::<T, (), ()>(
            init[i],
            order,
            (),
            (),
        ) by {
            assert(roundtrips::<T, (), ()>(vs[i], order, (), ()));
        }
        let e_init = encode_items::<T, ()>(init, order).unwrap();
        let e_x = T::spec_encode(x, order, ()).unwrap();
        lemma_decode_encoded_items::<T>(init, order, e_x + rest);
        let bits = encode_items::<T, ()>(vs, order).unwrap() + rest;
        assert(bits =~= e_init + (e_x + rest));
        assert(bits.skip(e_init.len() as int) =~= e_x + rest);
        assert(T::spec_decode(e_x + rest, order, ()) == Some((x, e_x.len())));
        assert(init.push(x) =~= vs);
    } else {
        assert(vs =~= seq![]);
    }
}

/// A list whose items each round-trip and take at least one bit is decoded back from its
/// encoding when read to the end of the stream.
pub proof fn law_vec_untagged_roundtrip<T>(vs: Seq<T::V>, order: ByteOrder) where
    T: BitEncode<(), ()> + BitDecode<(), ()>,

    requires
        all_roundtrip::<T>(vs, order),
        forall|i: int|
            0 <= i < vs.len() ==> (#[trigger] T::spec_encode(vs[i], order, ()) matches Some(b) && b.len()
                > 0),
    ensures
        <Vec<T> as BitEncode<(), Untagged>>::spec_encode(vs, order, Untagged) matches Some(bits)
            && <Vec<T> as BitDecode<(), Untagged>>::spec_decode(bits, order, Untagged) == Some(
            (vs, bits.len()),
        ),
    decreases vs.len(),
{
    lemma_encode_items_some::<T>(vs, order);
    if vs.len() > 0 {
        let x = vs[0];
        let tail = vs.skip(1);
        assert(roundtrips::<T, (), ()>(vs[0], order, (), ()));
        assert(T::spec_encode(vs[0], order, ()).unwrap().len() > 0);
        assert forall|i: int| 0 <= i < tail.len() implies #[trigger] roundtrips::<T, (), ()>(
            tail[i],
            order,
            (),
            (),
        ) by {
            assert(roundtrips::<T, (), ()>(vs[i + 1], order, (), ()));
        }
        assert forall|i: int| 0 <= i < tail.len() implies #[trigger] T::spec_encode(
            tail[i],
            order,
            (),
        ).unwrap().len() > 0 by {
            assert(T::spec_encode(vs[i + 1], order, ()).unwrap().len() > 0);
        }
        law_vec_untagged_roundtrip::<T>(tail, order);
        lemma_encode_items_some::<T>(tail, order);
        let head = seq![x];
        assert(encode_items::<T, ()>(head, order) == Some(Seq::<bool>::empty() + T::spec_encode(
            x,
            order,
            (),
        ).unwrap())) by {
            assert(head.drop_last() =~= Seq::<T::V>::empty());
            assert(encode_items::<T, ()>(head.drop_last(), order) == Some(Seq::<bool>::empty()));
            assert(head.last() == x);
        }
        assert(Seq::<bool>::empty() + T::spec_encode(x, order, ()).unwrap() =~= T::spec_encode(
            x,
            order,
            (),
        ).unwrap());
        lemma_encode_items_append::<T, ()>(head, tail, order);
        assert(head + tail =~= vs);
        let e_x = T::spec_encode(x, order, ()).unwrap();
        let e_tail = encode_items::<T, ()>(tail, order).unwrap();
        let bits = e_x + e_tail;
        assert(T::spec_decode(e_x + e_tail, order, ()) == Some((x, e_x.len())));
        assert(bits.skip(e_x.len() as int) =~= e_tail);
        assert(seq![x] + tail =~= vs);
    } else {
        assert(vs =~= seq![]);
    }
}

impl<Ctx, T: BitDecode<Ctx, ()>, Tg: TagCount> BitDecode<Ctx, Tag<Tg>> for Vec<T> {
    open spec fn spec_decode(bits: Seq<bool>, order: ByteOrder, tag: Tag<Tg>) -> Option<
        (Seq<T::V>, nat),
    > {
        match tag.0.spec_count() {
            Some(n) => decode_list::<T, Ctx>(bits, order, n as nat),
            None => None,
        }
    }

    open spec fn spec_decode_error(bits: Seq<bool>, order: ByteOrder, tag: Tag<Tg>, e: Error) -> bool {
        match tag.0.spec_count() {
            Some(n) => decode_list_error::<T, Ctx>(bits, order, n as nat, e),
            None => e is TagConvert,
        }
    }

    fn decode(read: &mut BitInput, ctx: &mut Ctx, tag: Tag<Tg>) -> (res: Result<Vec<T>>) {
        let n = match tag.0.count() {
            Some(n) => n,
            None => {
                proof {
                    BitInput::lemma_advanced_refl(&*read);
                }
                return Err(Error::TagConvert);
            },
        };
        decode_list_items(read, ctx, n)
    }
}

impl<Ctx, T: BitDecode<Ctx, ()>> BitDecode<Ctx, Untagged> for Vec<T> {
    open spec fn spec_decode(bits: Seq<bool>, order: ByteOrder, tag: Untagged) -> Option<
        (Seq<T::V>, nat),
    > {
        match decode_items_to_end::<T, Ctx>(bits, order) {
            Some(vs) => Some((vs, bits.len())),
            None => None,
        }
    }

    open spec fn spec_decode_error(bits: Seq<bool>, order: ByteOrder, tag: Untagged, e: Error) -> bool {
        decode_items_to_end_error::<T, Ctx>(bits, order, e)
    }

    fn decode(read: &mut BitInput, ctx: &mut Ctx, tag: Untagged) -> (res: Result<Vec<T>>) {
        decode_items_until_end(read, ctx)
    }
}

impl<Ctx, T: BitEncode<Ctx, ()>> BitEncode<Ctx, Untagged> for Vec<T> {
    open spec fn spec_encode(v: Seq<T::V>, order: ByteOrder, tag: Untagged) -> Option<Seq<bool>> {
        encode_items::<T, Ctx>(v, order)
    }

    open spec fn spec_encode_error(v: Seq<T::V>, order: ByteOrder, tag: Untagged, e: Error) -> bool {
        encode_items_error::<T, Ctx>(v, order, e)
    }

    fn encode(&self, write: &mut BitOutput, ctx: &mut Ctx, tag: Untagged) -> (res: Result<()>) {
        encode_all_items(self.as_slice(), write, ctx)
    }
}

/// A double-ended queue holding the items of `v`, in order.
pub fn vec_into_deque<T>(v: Vec<T>) -> (d: VecDeque<T>)
    ensures
        d@ == v@,
{
    let ghost all = v@;
    let mut v = v;
    let mut d: VecDeque<T> = VecDeque::new();
    while v.len() > 0
        invariant
            v@ + d@ == all,
        decreases v.len(),
    {
        let ghost before = v@;
        let x = v.pop().unwrap();
        d.push_front(x);
        assert(before =~= v@.push(x));
        assert(v@ + d@ =~= before + (d@.drop_first()));
    }
    assert(v@ + d@ =~= d@);
    d
}

impl<Ctx, T: BitDecode<Ctx, ()>, Tg: TagCount> BitDecode<Ctx, Tag<Tg>> for VecDeque<T> {
    open spec fn spec_decode(bits: Seq<bool>, order: ByteOrder, tag: Tag<Tg>) -> Option<
        (Seq<T::V>, nat),
    > {
        match tag.0.spec_count() {
            Some(n) => decode_list::<T, Ctx>(bits, order, n as nat),
            None => None,
        }
    }

    open spec fn spec_decode_error(bits: Seq<bool>, order: ByteOrder, tag: Tag<Tg>, e: Error) -> bool {
        match tag.0.spec_count() {
            Some(n) => decode_list_error::<T, Ctx>(bits, order, n as nat, e),
            None => e is TagConvert,
        }
    }

    fn decode(read: &mut BitInput, ctx: &mut Ctx, tag: Tag<Tg>) -> (res: Result<VecDeque<T>>) {
        let n = match tag.0.count() {
            Some(n) => n,
            None => {
                proof {
                    BitInput::lemma_advanced_refl(&*read);
                }
                return Err(Error::TagConvert);
            },
        };
        let items = decode_list_items::<T, Ctx>(read, ctx, n)?;
        let ghost dv = items.model();
        let d = vec_into_deque(items);
        assert(d.model() =~= dv);
        Ok(d)
    }
}

impl<Ctx, T: BitDecode<Ctx, ()>> BitDecode<Ctx, Untagged> for VecDeque<T> {
    open spec fn spec_decode(bits: Seq<bool>, order: ByteOrder, tag: Untagged) -> Option<
        (Seq<T::V>, nat),
    > {
        <Vec<T> as BitDecode<Ctx, Untagged>>::spec_decode(bits, order, tag)
    }

    open spec fn spec_decode_error(bits: Seq<bool>, order: ByteOrder, tag: Untagged, e: Error) -> bool {
        decode_items_to_end_error::<T, Ctx>(bits, order, e)
    }

    fn decode(read: &mut BitInput, ctx: &mut Ctx, tag: Untagged) -> (res: Result<VecDeque<T>>) {
        let items = decode_items_until_end::<T, Ctx>(read, ctx)?;
        let ghost dv = items.model();
        let d = vec_into_deque(items);
        assert(d.model() =~= dv);
        Ok(d)
    }
}

impl<Ctx, T: BitEncode<Ctx, ()>> BitEncode<Ctx, Untagged> for VecDeque<T> {
    open spec fn spec_encode(v: Seq<T::V>, order: ByteOrder, tag: Untagged) -> Option<Seq<bool>> {
        encode_items::<T, Ctx>(v, order)
    }

    open spec fn spec_encode_error(v: Seq<T::V>, order: ByteOrder, tag: Untagged, e: Error) -> bool {
        encode_items_error::<T, Ctx>(v, order, e)
    }

    fn encode(&self, write: &mut BitOutput, ctx: &mut Ctx, tag: Untagged) -> (res: Result<()>) {
        broadcast use vstd::std_specs::vecdeque::axiom_spec_len;

        let mut i: usize = 0;
        let ghost w0 = *old(write);
        let ghost items = self.model();
        proof {
            assert(items.take(0) =~= Seq::<T::V>::empty());
            assert(w0.bits() + Seq::<bool>::empty() =~= w0.bits());
        }
        while i < self.len()
            invariant
                i <= self.len(),
                self.len() == items.len(),
                items == self.model(),
                w0 == *old(write),
                write.order() == w0.order(),
                encode_items::<T, Ctx>(items.take(i as int), w0.order()) is Some,
                write.bits() == w0.bits() + encode_items::<T, Ctx>(
                    items.take(i as int),
                    w0.order(),
                ).unwrap(),
            decreases self.len() - i,
        {
            assert(items.take((i + 1) as int).drop_last() =~= items.take(i as int));
            assert(items.take((i + 1) as int).last() == self@[i as int].model());
            match self[i].encode(write, ctx, ()) {
                Ok(()) => {
                    assert(write.bits() =~= w0.bits() + encode_items::<T, Ctx>(
                        items.take((i + 1) as int),
                        w0.order(),
                    ).unwrap());
                },
                Err(e) => {
                    proof {
                        lemma_encode_items_fail::<T, Ctx>(
                            items,
                            w0.order(),
                            (i + 1) as nat,
                            items.len(),
                        );
                        lemma_encode_items_error::<T, Ctx>(
                            items,
                            w0.order(),
                            (i + 1) as nat,
                            items.len(),
                            e,
                        );
                        assert(items.take(items.len() as int) =~= items);
                    }
                    return Err(e);
                },
            }
            i = i + 1;
        }
        assert(items.take(items.len() as int) =~= items);
        Ok(())
    }
}

/// A double-ended queue whose items each round-trip is decoded back, given its length, from
/// its items followed by any other bits, as a list is.
pub proof fn law_vec_deque_tagged_roundtrip<T>(vs: Seq<T::V>, order: ByteOrder) where
    T: BitEncode<(), ()> + BitDecode<(), ()>,

    requires
        all_roundtrip::<T>(vs, order),
        vs.len() <= usize::MAX,
        !too_many::<T>(vs.len()),
    ensures
        roundtrips::<VecDeque<T>, Untagged, Tag<usize>>(vs, order, Untagged, Tag(vs.len() as usize)),
{
    law_vec_tagged_roundtrip::<T>(vs, order);
    assert forall|rest: Seq<bool>|
        #[trigger] <VecDeque<T> as BitDecode<(), Tag<usize>>>::spec_decode(
            <VecDeque<T> as BitEncode<(), Untagged>>::spec_encode(vs, order, Untagged).unwrap() + rest,
            order,
            Tag(vs.len() as usize),
        ) == Some(
            (vs, <VecDeque<T> as BitEncode<(), Untagged>>::spec_encode(vs, order, Untagged).unwrap().len()),
        ) by {
        assert(<Vec<T> as BitDecode<(), Tag<usize>>>::spec_decode(
            <Vec<T> as BitEncode<(), Untagged>>::spec_encode(vs, order, Untagged).unwrap() + rest,
            order,
            Tag(vs.len() as usize),
        ) == Some(
            (vs, <Vec<T> as BitEncode<(), Untagged>>::spec_encode(vs, order, Untagged).unwrap().len()),
        ));
    }
}

/// A double-ended queue whose items each round-trip and take at least one bit is decoded
/// back from its encoding when read to the end of the stream.
pub proof fn law_vec_deque_untagged_roundtrip<T>(vs: Seq<T::V>, order: ByteOrder) where
    T: BitEncode<(), ()> + BitDecode<(), ()>,

    requires
        all_roundtrip::<T>(vs, order),
        forall|i: int|
            0 <= i < vs.len() ==> (#[trigger] T::spec_encode(vs[i], order, ()) matches Some(b) && b.len()
                > 0),
    ensures
        <VecDeque<T> as BitEncode<(), Untagged>>::spec_encode(vs, order, Untagged) matches Some(bits)
            && <VecDeque<T> as BitDecode<(), Untagged>>::spec_decode(bits, order, Untagged) == Some(
            (vs, bits.len()),
        ),
{
    law_vec_untagged_roundtrip::<T>(vs, order);
}

} // verus!
