//! Pointer-sized integers, carried in as many bits as the target's pointers have
//! (`usize::BITS`: 32 or 64).
use vstd::prelude::*;
use vstd::arithmetic::power2::{lemma_pow2_strictly_increases, pow2};
use vstd::layout::{signed_int_min_max_values, unsigned_int_max_values};
use crate::bits::{
    bits_value, lemma_bits_value_bound, lemma_pow2_8, lemma_signed_repr_roundtrip,
    lemma_signed_value_range, lemma_uint_prefix, signed_repr, signed_value, value_bits,
};
use crate::byte_order::ByteOrder;
use crate::codec::{BitDecode, BitEncode, roundtrips};
use crate::error::{Error, Result};
use crate::impls::numerics::{read_signed, write_signed};
use crate::stream::{BitInput, BitOutput};

verus! {

/// The facts about the pointer width that the proofs use.
proof fn lemma_pointer_width()
    ensures
        usize::BITS == 32 || usize::BITS == 64,
        isize::BITS == usize::BITS,
        usize::MAX as nat == pow2(usize::BITS as nat) - 1,
        isize::MAX as nat == pow2((usize::BITS - 1) as nat) - 1,
        isize::MIN as int == -pow2((usize::BITS - 1) as nat),
        pow2(usize::BITS as nat) <= 0x1_0000_0000_0000_0000,
{
    unsigned_int_max_values();
    signed_int_min_max_values();
    lemma_pow2_8();
    if usize::BITS == 32 {
        lemma_pow2_strictly_increases(32, 64);
    }
}

impl<Ctx> BitDecode<Ctx, ()> for usize {
    open spec fn spec_decode_error(bits: Seq<bool>, order: ByteOrder, tag: (), e: Error) -> bool {
        e is Io
    }

    /// An unsigned number of `usize::BITS` bits.
    open spec fn spec_decode(bits: Seq<bool>, order: ByteOrder, tag: ()) -> Option<(usize, nat)> {
        if bits.len() >= usize::BITS {
            Some((bits_value(bits.take(usize::BITS as int), order) as usize, usize::BITS as nat))
        } else {
            None
        }
    }

    fn decode(read: &mut BitInput, ctx: &mut Ctx, tag: ()) -> (res: Result<usize>)
    {
        proof {
            lemma_pointer_width();
        }
        let v = read.read_bits(usize::BITS)?;
        proof {
            lemma_bits_value_bound(old(read).bits().take(usize::BITS as int), old(read).order());
        }
        Ok(v as usize)
    }
}

impl<Ctx> BitEncode<Ctx, ()> for usize {
    open spec fn spec_encode_error(v: usize, order: ByteOrder, tag: (), e: Error) -> bool {
        e is Io
    }

    /// The `usize::BITS` bits of the number.
    open spec fn spec_encode(v: usize, order: ByteOrder, tag: ()) -> Option<Seq<bool>> {
        Some(value_bits(v as nat, usize::BITS as nat, order))
    }

    fn encode(&self, write: &mut BitOutput, ctx: &mut Ctx, tag: ()) -> (res: Result<()>) {
        proof {
            lemma_pointer_width();
        }
        write.write_bits(usize::BITS, *self as u64)
    }
}

impl<Ctx> BitDecode<Ctx, ()> for isize {
    open spec fn spec_decode_error(bits: Seq<bool>, order: ByteOrder, tag: (), e: Error) -> bool {
        e is Io
    }

    /// A two's complement number of `isize::BITS` bits.
    open spec fn spec_decode(bits: Seq<bool>, order: ByteOrder, tag: ()) -> Option<(isize, nat)> {
        if bits.len() >= isize::BITS {
            Some(
                (
                    signed_value(
                        bits_value(bits.take(isize::BITS as int), order),
                        isize::BITS as nat,
                    ) as isize,
                    isize::BITS as nat,
                ),
            )
        } else {
            None
        }
    }

    fn decode(read: &mut BitInput, ctx: &mut Ctx, tag: ()) -> (res: Result<isize>)
    {
        proof {
            lemma_pointer_width();
        }
        let v = read_signed(read, usize::BITS)?;
        proof {
            let u = bits_value(old(read).bits().take(usize::BITS as int), old(read).order());
            lemma_bits_value_bound(old(read).bits().take(usize::BITS as int), old(read).order());
            lemma_signed_value_range(u, usize::BITS as nat);
        }
        Ok(v as isize)
    }
}

impl<Ctx> BitEncode<Ctx, ()> for isize {
    open spec fn spec_encode_error(v: isize, order: ByteOrder, tag: (), e: Error) -> bool {
        e is Io
    }

    /// The `isize::BITS`-bit two's complement representation of the number.
    open spec fn spec_encode(v: isize, order: ByteOrder, tag: ()) -> Option<Seq<bool>> {
        Some(value_bits(signed_repr(v as int, isize::BITS as nat), isize::BITS as nat, order))
    }

    fn encode(&self, write: &mut BitOutput, ctx: &mut Ctx, tag: ()) -> (res: Result<()>) {
        proof {
            lemma_pointer_width();
        }
        write_signed(write, usize::BITS, *self as i64)
    }
}

/// Every `usize` is decoded back from its encoding.
pub proof fn law_usize_roundtrip(v: usize, order: ByteOrder)
    ensures
        roundtrips::<usize, (), ()>(v, order, (), ()),
{
    lemma_pointer_width();
    assert forall|rest: Seq<bool>|
        #[trigger] <usize as BitDecode<(), ()>>::spec_decode(
            <usize as BitEncode<(), ()>>::spec_encode(v, order, ()).unwrap() + rest,
            order,
            (),
        ) == Some((v, <usize as BitEncode<(), ()>>::spec_encode(v, order, ()).unwrap().len())) by {
        lemma_uint_prefix(v as nat, usize::BITS as nat, order, rest);
    }
}

/// Every `isize` is decoded back from its encoding.
pub proof fn law_isize_roundtrip(v: isize, order: ByteOrder)
    ensures
        roundtrips::<isize, (), ()>(v, order, (), ()),
{
    lemma_pointer_width();
    lemma_signed_repr_roundtrip(v as int, isize::BITS as nat);
    assert forall|rest: Seq<bool>|
        #[trigger] <isize as BitDecode<(), ()>>::spec_decode(
            <isize as BitEncode<(), ()>>::spec_encode(v, order, ()).unwrap() + rest,
            order,
            (),
        ) == Some((v, <isize as BitEncode<(), ()>>::spec_encode(v, order, ()).unwrap().len())) by {
        lemma_uint_prefix(signed_repr(v as int, isize::BITS as nat), isize::BITS as nat, order, rest);
    }
}

} // verus!
