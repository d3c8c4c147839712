//! Integers, in whole bytes and in bitfields.
use vstd::prelude::*;
use vstd::arithmetic::power2::{
    lemma2_to64, lemma_pow2_adds, lemma_pow2_pos, lemma_pow2_strictly_increases, lemma_pow2_unfold,
    pow2,
};
use vstd::arithmetic::div_mod::{lemma_fundamental_div_mod, lemma_mod_bound};
use vstd::arithmetic::mul::{lemma_mul_inequality, lemma_mul_is_commutative, lemma_mul_upper_bound};
use vstd::bits::{lemma_u64_pow2_no_overflow, lemma_u64_shl_is_mul};
use crate::bits::{
    bits_value, fits_signed, lemma_bits_value_bound, lemma_bits_value_concat,
    lemma_bits_value_injective, lemma_value_bits_roundtrip, lemma_pow2_8, lemma_signed_repr_roundtrip,
    lemma_signed_value_range, lemma_uint_prefix, signed_repr, signed_value, value_bits,
};
use crate::byte_order::ByteOrder;
use crate::codec::{BitDecode, BitEncode, Bits, roundtrips};
use crate::error::{Error, Result};
use crate::stream::{BitInput, BitOutput, excessive_bits_error};

verus! {

/// `2^k` for `k < 64`.
pub fn pow2_u64(k: u32) -> (p: u64)
    requires
        k < 64,
    ensures
        p == pow2(k as nat),
{
    let kk = k as u64;
    proof {
        lemma_u64_pow2_no_overflow(kk as nat);
        lemma_u64_shl_is_mul(1, kk);
    }
    1u64 << kk
}

/// The two's complement value of the `n`-bit number `u`.
pub fn to_signed(u: u64, n: u32) -> (v: i64)
    requires
        1 <= n <= 64,
        u < pow2(n as nat),
    ensures
        v == signed_value(u as nat, n as nat),
        fits_signed(v as int, n as nat),
{
    let half = pow2_u64(n - 1);
    proof {
        lemma_pow2_unfold(n as nat);
        lemma_signed_value_range(u as nat, n as nat);
        lemma_pow2_8();
        if n < 64 {
            lemma_pow2_strictly_increases((n - 1) as nat, 63);
        }
    }
    if u >= half {
        let d = u - half;
        (d as i64) - ((half - 1) as i64) - 1
    } else {
        u as i64
    }
}

/// The `n`-bit two's complement representation of `v`.
pub fn to_repr(v: i64, n: u32) -> (u: u64)
    requires
        1 <= n <= 64,
        fits_signed(v as int, n as nat),
    ensures
        u == signed_repr(v as int, n as nat),
        u < pow2(n as nat),
{
    let half = pow2_u64(n - 1);
    proof {
        lemma_pow2_unfold(n as nat);
        lemma_signed_repr_roundtrip(v as int, n as nat);
        lemma_pow2_8();
        if n < 64 {
            lemma_pow2_strictly_increases((n - 1) as nat, 63);
        }
    }
    if v < 0 {
        let w = (v + 1) + ((half - 1) as i64);
        (w as u64) + half
    } else {
        v as u64
    }
}

/// Reads an `n`-bit two's complement number, for `1 <= n <= 64`.
pub(crate) fn read_signed(read: &mut BitInput, n: u32) -> (res: Result<i64>)
    requires
        1 <= n <= 64,
    ensures
        final(read).advanced_from(&*old(read)),
        res is Ok <==> n <= old(read).bits().len(),
        res matches Ok(v) ==> {
            &&& v == signed_value(bits_value(old(read).bits().take(n as int), old(read).order()), n as nat)
            &&& final(read).position() == old(read).position() + n
        },
        res matches Err(e) ==> e is Io,
{
    let u = read.read_bits(n)?;
    proof {
        lemma_bits_value_bound(old(read).bits().take(n as int), old(read).order());
    }
    Ok(to_signed(u, n))
}

/// Writes `v` as an `n`-bit two's complement number.
pub(crate) fn write_signed(write: &mut BitOutput, n: u32, v: i64) -> (res: Result<()>)
    requires
        1 <= n <= 64,
        fits_signed(v as int, n as nat),
    ensures
        final(write).order() == old(write).order(),
        res is Ok,
        final(write).bits() == old(write).bits() + value_bits(
            signed_repr(v as int, n as nat),
            n as nat,
            old(write).order(),
        ),
{
    let u = to_repr(v, n);
    write.write_bits(n, u)
}

impl<Ctx> BitDecode<Ctx, ()> for u8 {
    open spec fn spec_decode_error(bits: Seq<bool>, order: ByteOrder, tag: (), e: Error) -> bool {
        e is Io
    }

    open spec fn spec_decode(bits: Seq<bool>, order: ByteOrder, tag: ()) -> Option<(u8, nat)> {
        if bits.len() >= 8 {
            Some((bits_value(bits.take(8), order) as u8, 8))
        } else {
            None
        }
    }

    fn decode(read: &mut BitInput, ctx: &mut Ctx, tag: ()) -> (res: Result<u8>)
    {
        let v = read.read_bits(8)?;
        proof {
            lemma_bits_value_bound(old(read).bits().take(8), old(read).order());
            lemma_pow2_8();
        }
        Ok(v as u8)
    }
}

impl<Ctx> BitEncode<Ctx, ()> for u8 {
    open spec fn spec_encode_error(v: u8, order: ByteOrder, tag: (), e: Error) -> bool {
        e is Io
    }

    open spec fn spec_encode(v: u8, order: ByteOrder, tag: ()) -> Option<Seq<bool>> {
        Some(value_bits(v as nat, 8, order))
    }

    fn encode(&self, write: &mut BitOutput, ctx: &mut Ctx, tag: ()) -> (res: Result<()>) {
        proof {
            lemma_pow2_8();
        }
        write.write_bits(8, *self as u64)
    }
}

impl<Ctx> BitDecode<Ctx, ()> for i8 {
    open spec fn spec_decode_error(bits: Seq<bool>, order: ByteOrder, tag: (), e: Error) -> bool {
        e is Io
    }

    open spec fn spec_decode(bits: Seq<bool>, order: ByteOrder, tag: ()) -> Option<(i8, nat)> {
        if bits.len() >= 8 {
            Some((signed_value(bits_value(bits.take(8), order), 8) as i8, 8))
        } else {
            None
        }
    }

    fn decode(read: &mut BitInput, ctx: &mut Ctx, tag: ()) -> (res: Result<i8>)
    {
        let v = read_signed(read, 8)?;
        proof {
            lemma_pow2_8();
        }
        Ok(v as i8)
    }
}

impl<Ctx> BitEncode<Ctx, ()> for i8 {
    open spec fn spec_encode_error(v: i8, order: ByteOrder, tag: (), e: Error) -> bool {
        e is Io
    }

    open spec fn spec_encode(v: i8, order: ByteOrder, tag: ()) -> Option<Seq<bool>> {
        Some(value_bits(signed_repr(v as int, 8), 8, order))
    }

    fn encode(&self, write: &mut BitOutput, ctx: &mut Ctx, tag: ()) -> (res: Result<()>) {
        proof {
            lemma_pow2_8();
        }
        write_signed(write, 8, *self as i64)
    }
}

impl<Ctx> BitDecode<Ctx, ()> for u16 {
    open spec fn spec_decode_error(bits: Seq<bool>, order: ByteOrder, tag: (), e: Error) -> bool {
        e is Io
    }

    open spec fn spec_decode(bits: Seq<bool>, order: ByteOrder, tag: ()) -> Option<(u16, nat)> {
        if bits.len() >= 16 {
            Some((bits_value(bits.take(16), order) as u16, 16))
        } else {
            None
        }
    }

    fn decode(read: &mut BitInput, ctx: &mut Ctx, tag: ()) -> (res: Result<u16>)
    {
        let v = read.read_bits(16)?;
        proof {
            lemma_bits_value_bound(old(read).bits().take(16), old(read).order());
            lemma_pow2_8();
        }
        Ok(v as u16)
    }
}

impl<Ctx> BitEncode<Ctx, ()> for u16 {
    open spec fn spec_encode_error(v: u16, order: ByteOrder, tag: (), e: Error) -> bool {
        e is Io
    }

    open spec fn spec_encode(v: u16, order: ByteOrder, tag: ()) -> Option<Seq<bool>> {
        Some(value_bits(v as nat, 16, order))
    }

    fn encode(&self, write: &mut BitOutput, ctx: &mut Ctx, tag: ()) -> (res: Result<()>) {
        proof {
            lemma_pow2_8();
        }
        write.write_bits(16, *self as u64)
    }
}

impl<Ctx> BitDecode<Ctx, ()> for u32 {
    open spec fn spec_decode_error(bits: Seq<bool>, order: ByteOrder, tag: (), e: Error) -> bool {
        e is Io
    }

    open spec fn spec_decode(bits: Seq<bool>, order: ByteOrder, tag: ()) -> Option<(u32, nat)> {
        if bits.len() >= 32 {
            Some((bits_value(bits.take(32), order) as u32, 32))
        } else {
            None
        }
    }

    fn decode(read: &mut BitInput, ctx: &mut Ctx, tag: ()) -> (res: Result<u32>)
    {
        let v = read.read_bits(32)?;
        proof {
            lemma_bits_value_bound(old(read).bits().take(32), old(read).order());
            lemma_pow2_8();
        }
        Ok(v as u32)
    }
}

impl<Ctx> BitEncode<Ctx, ()> for u32 {
    open spec fn spec_encode_error(v: u32, order: ByteOrder, tag: (), e: Error) -> bool {
        e is Io
    }

    open spec fn spec_encode(v: u32, order: ByteOrder, tag: ()) -> Option<Seq<bool>> {
        Some(value_bits(v as nat, 32, order))
    }

    fn encode(&self, write: &mut BitOutput, ctx: &mut Ctx, tag: ()) -> (res: Result<()>) {
        proof {
            lemma_pow2_8();
        }
        write.write_bits(32, *self as u64)
    }
}

impl<Ctx> BitDecode<Ctx, ()> for u64 {
    open spec fn spec_decode_error(bits: Seq<bool>, order: ByteOrder, tag: (), e: Error) -> bool {
        e is Io
    }

    open spec fn spec_decode(bits: Seq<bool>, order: ByteOrder, tag: ()) -> Option<(u64, nat)> {
        if bits.len() >= 64 {
            Some((bits_value(bits.take(64), order) as u64, 64))
        } else {
            None
        }
    }

    fn decode(read: &mut BitInput, ctx: &mut Ctx, tag: ()) -> (res: Result<u64>)
    {
        let v = read.read_bits(64)?;
        proof {
            lemma_bits_value_bound(old(read).bits().take(64), old(read).order());
            lemma_pow2_8();
        }
        Ok(v)
    }
}

impl<Ctx> BitEncode<Ctx, ()> for u64 {
    open spec fn spec_encode_error(v: u64, order: ByteOrder, tag: (), e: Error) -> bool {
        e is Io
    }

    open spec fn spec_encode(v: u64, order: ByteOrder, tag: ()) -> Option<Seq<bool>> {
        Some(value_bits(v as nat, 64, order))
    }

    fn encode(&self, write: &mut BitOutput, ctx: &mut Ctx, tag: ()) -> (res: Result<()>) {
        proof {
            lemma_pow2_8();
        }
        write.write_bits(64, *self as u64)
    }
}

impl<Ctx> BitDecode<Ctx, ()> for i16 {
    open spec fn spec_decode_error(bits: Seq<bool>, order: ByteOrder, tag: (), e: Error) -> bool {
        e is Io
    }

    open spec fn spec_decode(bits: Seq<bool>, order: ByteOrder, tag: ()) -> Option<(i16, nat)> {
        if bits.len() >= 16 {
            Some((signed_value(bits_value(bits.take(16), order), 16) as i16, 16))
        } else {
            None
        }
    }

    fn decode(read: &mut BitInput, ctx: &mut Ctx, tag: ()) -> (res: Result<i16>)
    {
        let v = read_signed(read, 16)?;
        proof {
            lemma_pow2_8();
        }
        Ok(v as i16)
    }
}

impl<Ctx> BitEncode<Ctx, ()> for i16 {
    open spec fn spec_encode_error(v: i16, order: ByteOrder, tag: (), e: Error) -> bool {
        e is Io
    }

    open spec fn spec_encode(v: i16, order: ByteOrder, tag: ()) -> Option<Seq<bool>> {
        Some(value_bits(signed_repr(v as int, 16), 16, order))
    }

    fn encode(&self, write: &mut BitOutput, ctx: &mut Ctx, tag: ()) -> (res: Result<()>) {
        proof {
            lemma_pow2_8();
        }
        write_signed(write, 16, *self as i64)
    }
}

impl<Ctx> BitDecode<Ctx, ()> for i32 {
    open spec fn spec_decode_error(bits: Seq<bool>, order: ByteOrder, tag: (), e: Error) -> bool {
        e is Io
    }

    open spec fn spec_decode(bits: Seq<bool>, order: ByteOrder, tag: ()) -> Option<(i32, nat)> {
        if bits.len() >= 32 {
            Some((signed_value(bits_value(bits.take(32), order), 32) as i32, 32))
        } else {
            None
        }
    }

    fn decode(read: &mut BitInput, ctx: &mut Ctx, tag: ()) -> (res: Result<i32>)
    {
        let v = read_signed(read, 32)?;
        proof {
            lemma_pow2_8();
        }
        Ok(v as i32)
    }
}

impl<Ctx> BitEncode<Ctx, ()> for i32 {
    open spec fn spec_encode_error(v: i32, order: ByteOrder, tag: (), e: Error) -> bool {
        e is Io
    }

    open spec fn spec_encode(v: i32, order: ByteOrder, tag: ()) -> Option<Seq<bool>> {
        Some(value_bits(signed_repr(v as int, 32), 32, order))
    }

    fn encode(&self, write: &mut BitOutput, ctx: &mut Ctx, tag: ()) -> (res: Result<()>) {
        proof {
            lemma_pow2_8();
        }
        write_signed(write, 32, *self as i64)
    }
}

impl<Ctx> BitDecode<Ctx, ()> for i64 {
    open spec fn spec_decode_error(bits: Seq<bool>, order: ByteOrder, tag: (), e: Error) -> bool {
        e is Io
    }

    open spec fn spec_decode(bits: Seq<bool>, order: ByteOrder, tag: ()) -> Option<(i64, nat)> {
        if bits.len() >= 64 {
            Some((signed_value(bits_value(bits.take(64), order), 64) as i64, 64))
        } else {
            None
        }
    }

    fn decode(read: &mut BitInput, ctx: &mut Ctx, tag: ()) -> (res: Result<i64>)
    {
        let v = read_signed(read, 64)?;
        proof {
            lemma_pow2_8();
        }
        Ok(v)
    }
}

impl<Ctx> BitEncode<Ctx, ()> for i64 {
    open spec fn spec_encode_error(v: i64, order: ByteOrder, tag: (), e: Error) -> bool {
        e is Io
    }

    open spec fn spec_encode(v: i64, order: ByteOrder, tag: ()) -> Option<Seq<bool>> {
        Some(value_bits(signed_repr(v as int, 64), 64, order))
    }

    fn encode(&self, write: &mut BitOutput, ctx: &mut Ctx, tag: ()) -> (res: Result<()>) {
        proof {
            lemma_pow2_8();
        }
        write_signed(write, 64, *self as i64)
    }
}

impl<Ctx, const C: u32> BitDecode<Ctx, Bits<C>> for u8 {
    open spec fn spec_decode_error(bits: Seq<bool>, order: ByteOrder, tag: Bits<C>, e: Error) -> bool {
        e is Io
    }

    open spec fn spec_decode(bits: Seq<bool>, order: ByteOrder, tag: Bits<C>) -> Option<(u8, nat)> {
        if C <= 8 && bits.len() >= C {
            Some((bits_value(bits.take(C as int), order) as u8, C as nat))
        } else {
            None
        }
    }

    fn decode(read: &mut BitInput, ctx: &mut Ctx, tag: Bits<C>) -> (res: Result<u8>)
    {
        if C > 8 {
            proof {
                BitInput::lemma_advanced_refl(&*read);
            }
            return Err(Error::Io(excessive_bits_error()));
        }
        let v = read.read_bits(C)?;
        proof {
            lemma_bits_value_bound(old(read).bits().take(C as int), old(read).order());
            lemma_pow2_8();
            if C < 8 {
                lemma_pow2_strictly_increases(C as nat, 8);
            }
        }
        Ok(v as u8)
    }
}

impl<Ctx, const C: u32> BitEncode<Ctx, Bits<C>> for u8 {
    open spec fn spec_encode_error(v: u8, order: ByteOrder, tag: Bits<C>, e: Error) -> bool {
        e is Io
    }

    open spec fn spec_encode(v: u8, order: ByteOrder, tag: Bits<C>) -> Option<Seq<bool>> {
        if C <= 8 && (C == 0 || v < pow2(C as nat)) {
            Some(value_bits(v as nat, C as nat, order))
        } else {
            None
        }
    }

    fn encode(&self, write: &mut BitOutput, ctx: &mut Ctx, tag: Bits<C>) -> (res: Result<()>) {
        if C > 8 {
            return Err(Error::Io(excessive_bits_error()));
        }
        write.write_bits(C, *self as u64)
    }
}

impl<Ctx, const C: u32> BitDecode<Ctx, Bits<C>> for u16 {
    open spec fn spec_decode_error(bits: Seq<bool>, order: ByteOrder, tag: Bits<C>, e: Error) -> bool {
        e is Io
    }

    open spec fn spec_decode(bits: Seq<bool>, order: ByteOrder, tag: Bits<C>) -> Option<(u16, nat)> {
        if C <= 16 && bits.len() >= C {
            Some((bits_value(bits.take(C as int), order) as u16, C as nat))
        } else {
            None
        }
    }

    fn decode(read: &mut BitInput, ctx: &mut Ctx, tag: Bits<C>) -> (res: Result<u16>)
    {
        if C > 16 {
            proof {
                BitInput::lemma_advanced_refl(&*read);
            }
            return Err(Error::Io(excessive_bits_error()));
        }
        let v = read.read_bits(C)?;
        proof {
            lemma_bits_value_bound(old(read).bits().take(C as int), old(read).order());
            lemma_pow2_8();
            if C < 16 {
                lemma_pow2_strictly_increases(C as nat, 16);
            }
        }
        Ok(v as u16)
    }
}

impl<Ctx, const C: u32> BitEncode<Ctx, Bits<C>> for u16 {
    open spec fn spec_encode_error(v: u16, order: ByteOrder, tag: Bits<C>, e: Error) -> bool {
        e is Io
    }

    open spec fn spec_encode(v: u16, order: ByteOrder, tag: Bits<C>) -> Option<Seq<bool>> {
        if C <= 16 && (C == 0 || v < pow2(C as nat)) {
            Some(value_bits(v as nat, C as nat, order))
        } else {
            None
        }
    }

    fn encode(&self, write: &mut BitOutput, ctx: &mut Ctx, tag: Bits<C>) -> (res: Result<()>) {
        if C > 16 {
            return Err(Error::Io(excessive_bits_error()));
        }
        write.write_bits(C, *self as u64)
    }
}

impl<Ctx, const C: u32> BitDecode<Ctx, Bits<C>> for u32 {
    open spec fn spec_decode_error(bits: Seq<bool>, order: ByteOrder, tag: Bits<C>, e: Error) -> bool {
        e is Io
    }

    open spec fn spec_decode(bits: Seq<bool>, order: ByteOrder, tag: Bits<C>) -> Option<(u32, nat)> {
        if C <= 32 && bits.len() >= C {
            Some((bits_value(bits.take(C as int), order) as u32, C as nat))
        } else {
            None
        }
    }

    fn decode(read: &mut BitInput, ctx: &mut Ctx, tag: Bits<C>) -> (res: Result<u32>)
    {
        if C > 32 {
            proof {
                BitInput::lemma_advanced_refl(&*read);
            }
            return Err(Error::Io(excessive_bits_error()));
        }
        let v = read.read_bits(C)?;
        proof {
            lemma_bits_value_bound(old(read).bits().take(C as int), old(read).order());
            lemma_pow2_8();
            if C < 32 {
                lemma_pow2_strictly_increases(C as nat, 32);
            }
        }
        Ok(v as u32)
    }
}

impl<Ctx, const C: u32> BitEncode<Ctx, Bits<C>> for u32 {
    open spec fn spec_encode_error(v: u32, order: ByteOrder, tag: Bits<C>, e: Error) -> bool {
        e is Io
    }

    open spec fn spec_encode(v: u32, order: ByteOrder, tag: Bits<C>) -> Option<Seq<bool>> {
        if C <= 32 && (C == 0 || v < pow2(C as nat)) {
            Some(value_bits(v as nat, C as nat, order))
        } else {
            None
        }
    }

    fn encode(&self, write: &mut BitOutput, ctx: &mut Ctx, tag: Bits<C>) -> (res: Result<()>) {
        if C > 32 {
            return Err(Error::Io(excessive_bits_error()));
        }
        write.write_bits(C, *self as u64)
    }
}

impl<Ctx, const C: u32> BitDecode<Ctx, Bits<C>> for u64 {
    open spec fn spec_decode_error(bits: Seq<bool>, order: ByteOrder, tag: Bits<C>, e: Error) -> bool {
        e is Io
    }

    open spec fn spec_decode(bits: Seq<bool>, order: ByteOrder, tag: Bits<C>) -> Option<(u64, nat)> {
        if C <= 64 && bits.len() >= C {
            Some((bits_value(bits.take(C as int), order) as u64, C as nat))
        } else {
            None
        }
    }

    fn decode(read: &mut BitInput, ctx: &mut Ctx, tag: Bits<C>) -> (res: Result<u64>)
    {
        if C > 64 {
            proof {
                BitInput::lemma_advanced_refl(&*read);
            }
            return Err(Error::Io(excessive_bits_error()));
        }
        let v = read.read_bits(C)?;
        proof {
            lemma_bits_value_bound(old(read).bits().take(C as int), old(read).order());
            lemma_pow2_8();
            if C < 64 {
                lemma_pow2_strictly_increases(C as nat, 64);
            }
        }
        Ok(v)
    }
}

impl<Ctx, const C: u32> BitEncode<Ctx, Bits<C>> for u64 {
    open spec fn spec_encode_error(v: u64, order: ByteOrder, tag: Bits<C>, e: Error) -> bool {
        e is Io
    }

    open spec fn spec_encode(v: u64, order: ByteOrder, tag: Bits<C>) -> Option<Seq<bool>> {
        if C <= 64 && (C == 0 || v < pow2(C as nat)) {
            Some(value_bits(v as nat, C as nat, order))
        } else {
            None
        }
    }

    fn encode(&self, write: &mut BitOutput, ctx: &mut Ctx, tag: Bits<C>) -> (res: Result<()>) {
        if C > 64 {
            return Err(Error::Io(excessive_bits_error()));
        }
        write.write_bits(C, *self as u64)
    }
}

impl<Ctx, const C: u32> BitDecode<Ctx, Bits<C>> for i8 {
    open spec fn spec_decode_error(bits: Seq<bool>, order: ByteOrder, tag: Bits<C>, e: Error) -> bool {
        e is Io
    }

    open spec fn spec_decode(bits: Seq<bool>, order: ByteOrder, tag: Bits<C>) -> Option<(i8, nat)> {
        if 1 <= C <= 8 && bits.len() >= C {
            Some((signed_value(bits_value(bits.take(C as int), order), C as nat) as i8, C as nat))
        } else {
            None
        }
    }

    fn decode(read: &mut BitInput, ctx: &mut Ctx, tag: Bits<C>) -> (res: Result<i8>)
    {
        if C == 0 || C > 8 {
            proof {
                BitInput::lemma_advanced_refl(&*read);
            }
            return Err(Error::Io(excessive_bits_error()));
        }
        let v = read_signed(read, C)?;
        proof {
            lemma_pow2_8();
            if C < 8 {
                lemma_pow2_strictly_increases((C - 1) as nat, (8 - 1) as nat);
            }
        }
        Ok(v as i8)
    }
}

impl<Ctx, const C: u32> BitEncode<Ctx, Bits<C>> for i8 {
    open spec fn spec_encode_error(v: i8, order: ByteOrder, tag: Bits<C>, e: Error) -> bool {
        e is Io
    }

    open spec fn spec_encode(v: i8, order: ByteOrder, tag: Bits<C>) -> Option<Seq<bool>> {
        if 1 <= C <= 8 && fits_signed(v as int, C as nat) {
            Some(value_bits(signed_repr(v as int, C as nat), C as nat, order))
        } else {
            None
        }
    }

    fn encode(&self, write: &mut BitOutput, ctx: &mut Ctx, tag: Bits<C>) -> (res: Result<()>) {
        if C == 0 || C > 8 {
            return Err(Error::Io(excessive_bits_error()));
        }
        let half = pow2_u64(C - 1) as i128;
        let x = *self as i128;
        if x < -half || x >= half {
            return Err(Error::Io(excessive_bits_error()));
        }
        write_signed(write, C, *self as i64)
    }
}

impl<Ctx, const C: u32> BitDecode<Ctx, Bits<C>> for i16 {
    open spec fn spec_decode_error(bits: Seq<bool>, order: ByteOrder, tag: Bits<C>, e: Error) -> bool {
        e is Io
    }

    open spec fn spec_decode(bits: Seq<bool>, order: ByteOrder, tag: Bits<C>) -> Option<(i16, nat)> {
        if 1 <= C <= 16 && bits.len() >= C {
            Some((signed_value(bits_value(bits.take(C as int), order), C as nat) as i16, C as nat))
        } else {
            None
        }
    }

    fn decode(read: &mut BitInput, ctx: &mut Ctx, tag: Bits<C>) -> (res: Result<i16>)
    {
        if C == 0 || C > 16 {
            proof {
                BitInput::lemma_advanced_refl(&*read);
            }
            return Err(Error::Io(excessive_bits_error()));
        }
        let v = read_signed(read, C)?;
        proof {
            lemma_pow2_8();
            if C < 16 {
                lemma_pow2_strictly_increases((C - 1) as nat, (16 - 1) as nat);
            }
        }
        Ok(v as i16)
    }
}

impl<Ctx, const C: u32> BitEncode<Ctx, Bits<C>> for i16 {
    open spec fn spec_encode_error(v: i16, order: ByteOrder, tag: Bits<C>, e: Error) -> bool {
        e is Io
    }

    open spec fn spec_encode(v: i16, order: ByteOrder, tag: Bits<C>) -> Option<Seq<bool>> {
        if 1 <= C <= 16 && fits_signed(v as int, C as nat) {
            Some(value_bits(signed_repr(v as int, C as nat), C as nat, order))
        } else {
            None
        }
    }

    fn encode(&self, write: &mut BitOutput, ctx: &mut Ctx, tag: Bits<C>) -> (res: Result<()>) {
        if C == 0 || C > 16 {
            return Err(Error::Io(excessive_bits_error()));
        }
        let half = pow2_u64(C - 1) as i128;
        let x = *self as i128;
        if x < -half || x >= half {
            return Err(Error::Io(excessive_bits_error()));
        }
        write_signed(write, C, *self as i64)
    }
}

impl<Ctx, const C: u32> BitDecode<Ctx, Bits<C>> for i32 {
    open spec fn spec_decode_error(bits: Seq<bool>, order: ByteOrder, tag: Bits<C>, e: Error) -> bool {
        e is Io
    }

    open spec fn spec_decode(bits: Seq<bool>, order: ByteOrder, tag: Bits<C>) -> Option<(i32, nat)> {
        if 1 <= C <= 32 && bits.len() >= C {
            Some((signed_value(bits_value(bits.take(C as int), order), C as nat) as i32, C as nat))
        } else {
            None
        }
    }

    fn decode(read: &mut BitInput, ctx: &mut Ctx, tag: Bits<C>) -> (res: Result<i32>)
    {
        if C == 0 || C > 32 {
            proof {
                BitInput::lemma_advanced_refl(&*read);
            }
            return Err(Error::Io(excessive_bits_error()));
        }
        let v = read_signed(read, C)?;
        proof {
            lemma_pow2_8();
            if C < 32 {
                lemma_pow2_strictly_increases((C - 1) as nat, (32 - 1) as nat);
            }
        }
        Ok(v as i32)
    }
}

impl<Ctx, const C: u32> BitEncode<Ctx, Bits<C>> for i32 {
    open spec fn spec_encode_error(v: i32, order: ByteOrder, tag: Bits<C>, e: Error) -> bool {
        e is Io
    }

    open spec fn spec_encode(v: i32, order: ByteOrder, tag: Bits<C>) -> Option<Seq<bool>> {
        if 1 <= C <= 32 && fits_signed(v as int, C as nat) {
            Some(value_bits(signed_repr(v as int, C as nat), C as nat, order))
        } else {
            None
        }
    }

    fn encode(&self, write: &mut BitOutput, ctx: &mut Ctx, tag: Bits<C>) -> (res: Result<()>) {
        if C == 0 || C > 32 {
            return Err(Error::Io(excessive_bits_error()));
        }
        let half = pow2_u64(C - 1) as i128;
        let x = *self as i128;
        if x < -half || x >= half {
            return Err(Error::Io(excessive_bits_error()));
        }
        write_signed(write, C, *self as i64)
    }
}

impl<Ctx, const C: u32> BitDecode<Ctx, Bits<C>> for i64 {
    open spec fn spec_decode_error(bits: Seq<bool>, order: ByteOrder, tag: Bits<C>, e: Error) -> bool {
        e is Io
    }

    open spec fn spec_decode(bits: Seq<bool>, order: ByteOrder, tag: Bits<C>) -> Option<(i64, nat)> {
        if 1 <= C <= 64 && bits.len() >= C {
            Some((signed_value(bits_value(bits.take(C as int), order), C as nat) as i64, C as nat))
        } else {
            None
        }
    }

    fn decode(read: &mut BitInput, ctx: &mut Ctx, tag: Bits<C>) -> (res: Result<i64>)
    {
        if C == 0 || C > 64 {
            proof {
                BitInput::lemma_advanced_refl(&*read);
            }
            return Err(Error::Io(excessive_bits_error()));
        }
        let v = read_signed(read, C)?;
        proof {
            lemma_pow2_8();
            if C < 64 {
                lemma_pow2_strictly_increases((C - 1) as nat, (64 - 1) as nat);
            }
        }
        Ok(v)
    }
}

impl<Ctx, const C: u32> BitEncode<Ctx, Bits<C>> for i64 {
    open spec fn spec_encode_error(v: i64, order: ByteOrder, tag: Bits<C>, e: Error) -> bool {
        e is Io
    }

    open spec fn spec_encode(v: i64, order: ByteOrder, tag: Bits<C>) -> Option<Seq<bool>> {
        if 1 <= C <= 64 && fits_signed(v as int, C as nat) {
            Some(value_bits(signed_repr(v as int, C as nat), C as nat, order))
        } else {
            None
        }
    }

    fn encode(&self, write: &mut BitOutput, ctx: &mut Ctx, tag: Bits<C>) -> (res: Result<()>) {
        if C == 0 || C > 64 {
            return Err(Error::Io(excessive_bits_error()));
        }
        let half = pow2_u64(C - 1) as i128;
        let x = *self as i128;
        if x < -half || x >= half {
            return Err(Error::Io(excessive_bits_error()));
        }
        write_signed(write, C, *self as i64)
    }
}

/// The 128 bits of `v` are its high and low 64-bit halves, in stream order.
pub proof fn lemma_value_bits_128(v: nat, order: ByteOrder)
    requires
        v < pow2(128),
    ensures
        order == ByteOrder::BigEndian ==> value_bits(v, 128, order) == value_bits(
            v / pow2(64),
            64,
            order,
        ) + value_bits(v % pow2(64), 64, order),
        order == ByteOrder::LittleEndian ==> value_bits(v, 128, order) == value_bits(
            v % pow2(64),
            64,
            order,
        ) + value_bits(v / pow2(64), 64, order),
{
    lemma_pow2_8();
    lemma_pow2_adds(64, 64);
    let hi = v / pow2(64);
    let lo = v % pow2(64);
    lemma_fundamental_div_mod(v as int, pow2(64) as int);
    lemma_mod_bound(v as int, pow2(64) as int);
    lemma_div_bound_128(v);
    lemma_value_bits_roundtrip(hi, 64, order);
    lemma_value_bits_roundtrip(lo, 64, order);
    lemma_value_bits_roundtrip(v, 128, order);
    match order {
        ByteOrder::BigEndian => {
            let joined = value_bits(hi, 64, order) + value_bits(lo, 64, order);
            lemma_bits_value_concat(value_bits(hi, 64, order), value_bits(lo, 64, order), order);
            lemma_bits_value_injective(value_bits(v, 128, order), joined, order);
        },
        ByteOrder::LittleEndian => {
            let joined = value_bits(lo, 64, order) + value_bits(hi, 64, order);
            lemma_bits_value_concat(value_bits(lo, 64, order), value_bits(hi, 64, order), order);
            lemma_mul_is_commutative(pow2(64) as int, hi as int);
            lemma_bits_value_injective(value_bits(v, 128, order), joined, order);
        },
    }
}

proof fn lemma_div_bound_128(v: nat)
    requires
        v < pow2(128),
        pow2(128) == pow2(64) * pow2(64),
        pow2(64) > 0,
    ensures
        v / pow2(64) < pow2(64),
{
    lemma_div_by_multiple_is_strongly_ordered_128(v);
}

proof fn lemma_div_by_multiple_is_strongly_ordered_128(v: nat)
    requires
        v < pow2(128),
        pow2(128) == pow2(64) * pow2(64),
        pow2(64) > 0,
    ensures
        v / pow2(64) < pow2(64),
{
    let p = pow2(64) as int;
    lemma_fundamental_div_mod(v as int, p);
    lemma_mod_bound(v as int, p);
    if v / pow2(64) >= pow2(64) {
        lemma_mul_inequality(p, (v / pow2(64)) as int, p);
        assert(false);
    }
}

/// Reads 128 bits as an unsigned number, as two 64-bit reads in stream order.
fn read_u128(read: &mut BitInput) -> (res: Result<u128>)
    ensures
        final(read).advanced_from(&*old(read)),
        res is Ok <==> 128 <= old(read).bits().len(),
        res matches Ok(v) ==> {
            &&& v == bits_value(old(read).bits().take(128), old(read).order())
            &&& final(read).position() == old(read).position() + 128
        },
        res matches Err(e) ==> e is Io,
{
    let ghost r0 = *read;
    let a = read.read_bits(64)?;
    let ghost r1 = *read;
    let b = match read.read_bits(64) {
        Ok(b) => b,
        Err(e) => {
            proof {
                BitInput::lemma_advanced_trans(&r0, &r1, &*read);
            }
            return Err(e);
        },
    };
    proof {
        BitInput::lemma_advanced_trans(&r0, &r1, &*read);
        let bits = r0.bits();
        assert(r1.bits() == bits.skip(64));
        assert(bits.take(128) =~= bits.take(64) + r1.bits().take(64));
        lemma_bits_value_concat(bits.take(64), r1.bits().take(64), r0.order());
        lemma_bits_value_bound(bits.take(64), r0.order());
        lemma_bits_value_bound(r1.bits().take(64), r0.order());
        lemma_pow2_8();
    }
    if read.byte_order().is_big_endian() {
        proof {
            lemma_mul_upper_bound(a as int, 0xffff_ffff_ffff_ffff, 0x1_0000_0000_0000_0000, 0x1_0000_0000_0000_0000);
        }
        Ok((a as u128) * 0x1_0000_0000_0000_0000 + (b as u128))
    } else {
        proof {
            lemma_mul_upper_bound(b as int, 0xffff_ffff_ffff_ffff, 0x1_0000_0000_0000_0000, 0x1_0000_0000_0000_0000);
            lemma_mul_is_commutative(b as int, 0x1_0000_0000_0000_0000);
        }
        Ok((b as u128) * 0x1_0000_0000_0000_0000 + (a as u128))
    }
}

/// Writes the 128 bits of `v`, as two 64-bit writes in stream order.
fn write_u128(write: &mut BitOutput, v: u128) -> (res: Result<()>)
    ensures
        final(write).order() == old(write).order(),
        res is Ok,
        final(write).bits() == old(write).bits() + value_bits(v as nat, 128, old(write).order()),
{
    let hi = (v / 0x1_0000_0000_0000_0000) as u64;
    let lo = (v % 0x1_0000_0000_0000_0000) as u64;
    proof {
        lemma_pow2_8();
        lemma_pow2_adds(64, 64);
        lemma_value_bits_128(v as nat, old(write).order());
    }
    let ghost w0 = old(write).bits();
    if write.byte_order().is_big_endian() {
        let _ = write.write_bits(64, hi);
        let _ = write.write_bits(64, lo);
        assert(write.bits() =~= w0 + value_bits(v as nat, 128, old(write).order()));
    } else {
        let _ = write.write_bits(64, lo);
        let _ = write.write_bits(64, hi);
        assert(write.bits() =~= w0 + value_bits(v as nat, 128, old(write).order()));
    }
    Ok(())
}

impl<Ctx> BitDecode<Ctx, ()> for u128 {
    open spec fn spec_decode_error(bits: Seq<bool>, order: ByteOrder, tag: (), e: Error) -> bool {
        e is Io
    }

    open spec fn spec_decode(bits: Seq<bool>, order: ByteOrder, tag: ()) -> Option<(u128, nat)> {
        if bits.len() >= 128 {
            Some((bits_value(bits.take(128), order) as u128, 128))
        } else {
            None
        }
    }

    fn decode(read: &mut BitInput, ctx: &mut Ctx, tag: ()) -> (res: Result<u128>)
    {
        read_u128(read)
    }
}

impl<Ctx> BitEncode<Ctx, ()> for u128 {
    open spec fn spec_encode_error(v: u128, order: ByteOrder, tag: (), e: Error) -> bool {
        e is Io
    }

    open spec fn spec_encode(v: u128, order: ByteOrder, tag: ()) -> Option<Seq<bool>> {
        Some(value_bits(v as nat, 128, order))
    }

    fn encode(&self, write: &mut BitOutput, ctx: &mut Ctx, tag: ()) -> (res: Result<()>) {
        write_u128(write, *self)
    }
}

impl<Ctx> BitDecode<Ctx, ()> for i128 {
    open spec fn spec_decode_error(bits: Seq<bool>, order: ByteOrder, tag: (), e: Error) -> bool {
        e is Io
    }

    open spec fn spec_decode(bits: Seq<bool>, order: ByteOrder, tag: ()) -> Option<(i128, nat)> {
        if bits.len() >= 128 {
            Some((signed_value(bits_value(bits.take(128), order), 128) as i128, 128))
        } else {
            None
        }
    }

    fn decode(read: &mut BitInput, ctx: &mut Ctx, tag: ()) -> (res: Result<i128>)
    {
        let u = read_u128(read)?;
        proof {
            lemma_pow2_8();
            lemma_pow2_adds(64, 64);
            lemma_pow2_adds(63, 64);
            lemma_pow2_unfold(128);
            lemma_signed_value_range(u as nat, 128);
        }
        let half: u128 = 0x8000_0000_0000_0000_0000_0000_0000_0000;
        if u >= half {
            let d = u - half;
            Ok((d as i128) - ((half - 1) as i128) - 1)
        } else {
            Ok(u as i128)
        }
    }
}

impl<Ctx> BitEncode<Ctx, ()> for i128 {
    open spec fn spec_encode_error(v: i128, order: ByteOrder, tag: (), e: Error) -> bool {
        e is Io
    }

    open spec fn spec_encode(v: i128, order: ByteOrder, tag: ()) -> Option<Seq<bool>> {
        Some(value_bits(signed_repr(v as int, 128), 128, order))
    }

    fn encode(&self, write: &mut BitOutput, ctx: &mut Ctx, tag: ()) -> (res: Result<()>) {
        proof {
            lemma_pow2_8();
            lemma_pow2_adds(64, 64);
            lemma_pow2_adds(63, 64);
            lemma_pow2_unfold(128);
        }
        let half: u128 = 0x8000_0000_0000_0000_0000_0000_0000_0000;
        let v = *self;
        let u = if v < 0 {
            let w = (v + 1) + ((half - 1) as i128);
            (w as u128) + half
        } else {
            v as u128
        };
        write_u128(write, u)
    }
}

impl<Ctx> BitDecode<Ctx, ()> for bool {
    open spec fn spec_decode_error(bits: Seq<bool>, order: ByteOrder, tag: (), e: Error) -> bool {
        e is Io
    }

    open spec fn spec_decode(bits: Seq<bool>, order: ByteOrder, tag: ()) -> Option<(bool, nat)> {
        if bits.len() >= 8 {
            Some((bits_value(bits.take(8), order) != 0, 8))
        } else {
            None
        }
    }

    fn decode(read: &mut BitInput, ctx: &mut Ctx, tag: ()) -> (res: Result<bool>)
    {
        let v = read.read_bits(8)?;
        Ok(v != 0)
    }
}

impl<Ctx> BitEncode<Ctx, ()> for bool {
    open spec fn spec_encode_error(v: bool, order: ByteOrder, tag: (), e: Error) -> bool {
        e is Io
    }

    open spec fn spec_encode(v: bool, order: ByteOrder, tag: ()) -> Option<Seq<bool>> {
        Some(value_bits(if v { 1 } else { 0 }, 8, order))
    }

    fn encode(&self, write: &mut BitOutput, ctx: &mut Ctx, tag: ()) -> (res: Result<()>) {
        proof {
            lemma_pow2_8();
        }
        write.write_bits(8, if *self { 1 } else { 0 })
    }
}

impl<Ctx, const C: u32> BitDecode<Ctx, Bits<C>> for bool {
    open spec fn spec_decode_error(bits: Seq<bool>, order: ByteOrder, tag: Bits<C>, e: Error) -> bool {
        e is Io
    }

    open spec fn spec_decode(bits: Seq<bool>, order: ByteOrder, tag: Bits<C>) -> Option<(bool, nat)> {
        if C <= 8 && bits.len() >= C {
            Some((bits_value(bits.take(C as int), order) != 0, C as nat))
        } else {
            None
        }
    }

    fn decode(read: &mut BitInput, ctx: &mut Ctx, tag: Bits<C>) -> (res: Result<bool>)
    {
        if C > 8 {
            proof {
                BitInput::lemma_advanced_refl(&*read);
            }
            return Err(Error::Io(excessive_bits_error()));
        }
        let v = read.read_bits(C)?;
        Ok(v != 0)
    }
}

impl<Ctx, const C: u32> BitEncode<Ctx, Bits<C>> for bool {
    open spec fn spec_encode_error(v: bool, order: ByteOrder, tag: Bits<C>, e: Error) -> bool {
        e is Io
    }

    open spec fn spec_encode(v: bool, order: ByteOrder, tag: Bits<C>) -> Option<Seq<bool>> {
        if C <= 8 {
            Some(value_bits(if v { 1 } else { 0 }, C as nat, order))
        } else {
            None
        }
    }

    fn encode(&self, write: &mut BitOutput, ctx: &mut Ctx, tag: Bits<C>) -> (res: Result<()>) {
        if C > 8 {
            return Err(Error::Io(excessive_bits_error()));
        }
        proof {
            lemma_pow2_8();
            lemma_pow2_pos(C as nat);
            if C >= 1 {
                lemma_pow2_unfold(C as nat);
                lemma_pow2_pos((C - 1) as nat);
            } else {
                lemma2_to64();
            }
        }
        write.write_bits(C, if *self { 1 } else { 0 })
    }
}

/// Every `u8` is decoded back from its encoding, in either byte order.
pub proof fn law_u8_roundtrip(v: u8, order: ByteOrder)
    ensures
        roundtrips::<u8, (), ()>(v, order, (), ()),
{
    lemma_pow2_8();
    lemma_pow2_adds(64, 64);
    assert forall|rest: Seq<bool>|
        #[trigger] <u8 as BitDecode<(), ()>>::spec_decode(
            <u8 as BitEncode<(), ()>>::spec_encode(v, order, ()).unwrap() + rest,
            order,
            (),
        ) == Some((v, <u8 as BitEncode<(), ()>>::spec_encode(v, order, ()).unwrap().len())) by {
        lemma_uint_prefix(v as nat, 8, order, rest);
    }
}

/// Every `u16` is decoded back from its encoding, in either byte order.
pub proof fn law_u16_roundtrip(v: u16, order: ByteOrder)
    ensures
        roundtrips::<u16, (), ()>(v, order, (), ()),
{
    lemma_pow2_8();
    lemma_pow2_adds(64, 64);
    assert forall|rest: Seq<bool>|
        #[trigger] <u16 as BitDecode<(), ()>>::spec_decode(
            <u16 as BitEncode<(), ()>>::spec_encode(v, order, ()).unwrap() + rest,
            order,
            (),
        ) == Some((v, <u16 as BitEncode<(), ()>>::spec_encode(v, order, ()).unwrap().len())) by {
        lemma_uint_prefix(v as nat, 16, order, rest);
    }
}

/// Every `u32` is decoded back from its encoding, in either byte order.
pub proof fn law_u32_roundtrip(v: u32, order: ByteOrder)
    ensures
        roundtrips::<u32, (), ()>(v, order, (), ()),
{
    lemma_pow2_8();
    lemma_pow2_adds(64, 64);
    assert forall|rest: Seq<bool>|
        #[trigger] <u32 as BitDecode<(), ()>>::spec_decode(
            <u32 as BitEncode<(), ()>>::spec_encode(v, order, ()).unwrap() + rest,
            order,
            (),
        ) == Some((v, <u32 as BitEncode<(), ()>>::spec_encode(v, order, ()).unwrap().len())) by {
        lemma_uint_prefix(v as nat, 32, order, rest);
    }
}

/// Every `u64` is decoded back from its encoding, in either byte order.
pub proof fn law_u64_roundtrip(v: u64, order: ByteOrder)
    ensures
        roundtrips::<u64, (), ()>(v, order, (), ()),
{
    lemma_pow2_8();
    lemma_pow2_adds(64, 64);
    assert forall|rest: Seq<bool>|
        #[trigger] <u64 as BitDecode<(), ()>>::spec_decode(
            <u64 as BitEncode<(), ()>>::spec_encode(v, order, ()).unwrap() + rest,
            order,
            (),
        ) == Some((v, <u64 as BitEncode<(), ()>>::spec_encode(v, order, ()).unwrap().len())) by {
        lemma_uint_prefix(v as nat, 64, order, rest);
    }
}

/// Every `u128` is decoded back from its encoding, in either byte order.
pub proof fn law_u128_roundtrip(v: u128, order: ByteOrder)
    ensures
        roundtrips::<u128, (), ()>(v, order, (), ()),
{
    lemma_pow2_8();
    lemma_pow2_adds(64, 64);
    assert forall|rest: Seq<bool>|
        #[trigger] <u128 as BitDecode<(), ()>>::spec_decode(
            <u128 as BitEncode<(), ()>>::spec_encode(v, order, ()).unwrap() + rest,
            order,
            (),
        ) == Some((v, <u128 as BitEncode<(), ()>>::spec_encode(v, order, ()).unwrap().len())) by {
        lemma_uint_prefix(v as nat, 128, order, rest);
    }
}

/// Every `i8` is decoded back from its encoding, in either byte order.
pub proof fn law_i8_roundtrip(v: i8, order: ByteOrder)
    ensures
        roundtrips::<i8, (), ()>(v, order, (), ()),
{
    lemma_pow2_8();
    lemma_pow2_adds(64, 64);
    lemma_pow2_adds(63, 64);
    lemma_pow2_unfold(128);
    lemma_signed_repr_roundtrip(v as int, 8);
    assert forall|rest: Seq<bool>|
        #[trigger] <i8 as BitDecode<(), ()>>::spec_decode(
            <i8 as BitEncode<(), ()>>::spec_encode(v, order, ()).unwrap() + rest,
            order,
            (),
        ) == Some((v, <i8 as BitEncode<(), ()>>::spec_encode(v, order, ()).unwrap().len())) by {
        lemma_uint_prefix(signed_repr(v as int, 8), 8, order, rest);
    }
}

/// Every `i16` is decoded back from its encoding, in either byte order.
pub proof fn law_i16_roundtrip(v: i16, order: ByteOrder)
    ensures
        roundtrips::<i16, (), ()>(v, order, (), ()),
{
    lemma_pow2_8();
    lemma_pow2_adds(64, 64);
    lemma_pow2_adds(63, 64);
    lemma_pow2_unfold(128);
    lemma_signed_repr_roundtrip(v as int, 16);
    assert forall|rest: Seq<bool>|
        #[trigger] <i16 as BitDecode<(), ()>>::spec_decode(
            <i16 as BitEncode<(), ()>>::spec_encode(v, order, ()).unwrap() + rest,
            order,
            (),
        ) == Some((v, <i16 as BitEncode<(), ()>>::spec_encode(v, order, ()).unwrap().len())) by {
        lemma_uint_prefix(signed_repr(v as int, 16), 16, order, rest);
    }
}

/// Every `i32` is decoded back from its encoding, in either byte order.
pub proof fn law_i32_roundtrip(v: i32, order: ByteOrder)
    ensures
        roundtrips::<i32, (), ()>(v, order, (), ()),
{
    lemma_pow2_8();
    lemma_pow2_adds(64, 64);
    lemma_pow2_adds(63, 64);
    lemma_pow2_unfold(128);
    lemma_signed_repr_roundtrip(v as int, 32);
    assert forall|rest: Seq<bool>|
        #[trigger] <i32 as BitDecode<(), ()>>::spec_decode(
            <i32 as BitEncode<(), ()>>::spec_encode(v, order, ()).unwrap() + rest,
            order,
            (),
        ) == Some((v, <i32 as BitEncode<(), ()>>::spec_encode(v, order, ()).unwrap().len())) by {
        lemma_uint_prefix(signed_repr(v as int, 32), 32, order, rest);
    }
}

/// Every `i64` is decoded back from its encoding, in either byte order.
pub proof fn law_i64_roundtrip(v: i64, order: ByteOrder)
    ensures
        roundtrips::<i64, (), ()>(v, order, (), ()),
{
    lemma_pow2_8();
    lemma_pow2_adds(64, 64);
    lemma_pow2_adds(63, 64);
    lemma_pow2_unfold(128);
    lemma_signed_repr_roundtrip(v as int, 64);
    assert forall|rest: Seq<bool>|
        #[trigger] <i64 as BitDecode<(), ()>>::spec_decode(
            <i64 as BitEncode<(), ()>>::spec_encode(v, order, ()).unwrap() + rest,
            order,
            (),
        ) == Some((v, <i64 as BitEncode<(), ()>>::spec_encode(v, order, ()).unwrap().len())) by {
        lemma_uint_prefix(signed_repr(v as int, 64), 64, order, rest);
    }
}

/// Every `i128` is decoded back from its encoding, in either byte order.
pub proof fn law_i128_roundtrip(v: i128, order: ByteOrder)
    ensures
        roundtrips::<i128, (), ()>(v, order, (), ()),
{
    lemma_pow2_8();
    lemma_pow2_adds(64, 64);
    lemma_pow2_adds(63, 64);
    lemma_pow2_unfold(128);
    lemma_signed_repr_roundtrip(v as int, 128);
    assert forall|rest: Seq<bool>|
        #[trigger] <i128 as BitDecode<(), ()>>::spec_decode(
            <i128 as BitEncode<(), ()>>::spec_encode(v, order, ()).unwrap() + rest,
            order,
            (),
        ) == Some((v, <i128 as BitEncode<(), ()>>::spec_encode(v, order, ()).unwrap().len())) by {
        lemma_uint_prefix(signed_repr(v as int, 128), 128, order, rest);
    }
}

/// A `u8` that fits in a bitfield of `C` bits is decoded back from its encoding.
pub proof fn law_u8_bits_roundtrip<const C: u32>(v: u8, order: ByteOrder)
    requires
        C <= 8,
        v < pow2(C as nat),
    ensures
        roundtrips::<u8, Bits<C>, Bits<C>>(v, order, Bits::<C>, Bits::<C>),
{
    assert forall|rest: Seq<bool>|
        #[trigger] <u8 as BitDecode<(), Bits<C>>>::spec_decode(
            <u8 as BitEncode<(), Bits<C>>>::spec_encode(v, order, Bits::<C>).unwrap() + rest,
            order,
            Bits::<C>,
        ) == Some((v, <u8 as BitEncode<(), Bits<C>>>::spec_encode(v, order, Bits::<C>).unwrap().len())) by {
        lemma_uint_prefix(v as nat, C as nat, order, rest);
    }
}

/// A `u16` that fits in a bitfield of `C` bits is decoded back from its encoding.
pub proof fn law_u16_bits_roundtrip<const C: u32>(v: u16, order: ByteOrder)
    requires
        C <= 16,
        v < pow2(C as nat),
    ensures
        roundtrips::<u16, Bits<C>, Bits<C>>(v, order, Bits::<C>, Bits::<C>),
{
    assert forall|rest: Seq<bool>|
        #[trigger] <u16 as BitDecode<(), Bits<C>>>::spec_decode(
            <u16 as BitEncode<(), Bits<C>>>::spec_encode(v, order, Bits::<C>).unwrap() + rest,
            order,
            Bits::<C>,
        ) == Some((v, <u16 as BitEncode<(), Bits<C>>>::spec_encode(v, order, Bits::<C>).unwrap().len())) by {
        lemma_uint_prefix(v as nat, C as nat, order, rest);
    }
}

/// A `u32` that fits in a bitfield of `C` bits is decoded back from its encoding.
pub proof fn law_u32_bits_roundtrip<const C: u32>(v: u32, order: ByteOrder)
    requires
        C <= 32,
        v < pow2(C as nat),
    ensures
        roundtrips::<u32, Bits<C>, Bits<C>>(v, order, Bits::<C>, Bits::<C>),
{
    assert forall|rest: Seq<bool>|
        #[trigger] <u32 as BitDecode<(), Bits<C>>>::spec_decode(
            <u32 as BitEncode<(), Bits<C>>>::spec_encode(v, order, Bits::<C>).unwrap() + rest,
            order,
            Bits::<C>,
        ) == Some((v, <u32 as BitEncode<(), Bits<C>>>::spec_encode(v, order, Bits::<C>).unwrap().len())) by {
        lemma_uint_prefix(v as nat, C as nat, order, rest);
    }
}

/// A `u64` that fits in a bitfield of `C` bits is decoded back from its encoding.
pub proof fn law_u64_bits_roundtrip<const C: u32>(v: u64, order: ByteOrder)
    requires
        C <= 64,
        v < pow2(C as nat),
    ensures
        roundtrips::<u64, Bits<C>, Bits<C>>(v, order, Bits::<C>, Bits::<C>),
{
    assert forall|rest: Seq<bool>|
        #[trigger] <u64 as BitDecode<(), Bits<C>>>::spec_decode(
            <u64 as BitEncode<(), Bits<C>>>::spec_encode(v, order, Bits::<C>).unwrap() + rest,
            order,
            Bits::<C>,
        ) == Some((v, <u64 as BitEncode<(), Bits<C>>>::spec_encode(v, order, Bits::<C>).unwrap().len())) by {
        lemma_uint_prefix(v as nat, C as nat, order, rest);
    }
}

/// An `i8` that fits in a two's complement bitfield of `C` bits is decoded back from its
/// encoding.
pub proof fn law_i8_bits_roundtrip<const C: u32>(v: i8, order: ByteOrder)
    requires
        1 <= C <= 8,
        fits_signed(v as int, C as nat),
    ensures
        roundtrips::<i8, Bits<C>, Bits<C>>(v, order, Bits::<C>, Bits::<C>),
{
    lemma_signed_repr_roundtrip(v as int, C as nat);
    assert forall|rest: Seq<bool>|
        #[trigger] <i8 as BitDecode<(), Bits<C>>>::spec_decode(
            <i8 as BitEncode<(), Bits<C>>>::spec_encode(v, order, Bits::<C>).unwrap() + rest,
            order,
            Bits::<C>,
        ) == Some((v, <i8 as BitEncode<(), Bits<C>>>::spec_encode(v, order, Bits::<C>).unwrap().len())) by {
        lemma_uint_prefix(signed_repr(v as int, C as nat), C as nat, order, rest);
    }
}

/// An `i16` that fits in a two's complement bitfield of `C` bits is decoded back from its
/// encoding.
pub proof fn law_i16_bits_roundtrip<const C: u32>(v: i16, order: ByteOrder)
    requires
        1 <= C <= 16,
        fits_signed(v as int, C as nat),
    ensures
        roundtrips::<i16, Bits<C>, Bits<C>>(v, order, Bits::<C>, Bits::<C>),
{
    lemma_signed_repr_roundtrip(v as int, C as nat);
    assert forall|rest: Seq<bool>|
        #[trigger] <i16 as BitDecode<(), Bits<C>>>::spec_decode(
            <i16 as BitEncode<(), Bits<C>>>::spec_encode(v, order, Bits::<C>).unwrap() + rest,
            order,
            Bits::<C>,
        ) == Some((v, <i16 as BitEncode<(), Bits<C>>>::spec_encode(v, order, Bits::<C>).unwrap().len())) by {
        lemma_uint_prefix(signed_repr(v as int, C as nat), C as nat, order, rest);
    }
}

/// An `i32` that fits in a two's complement bitfield of `C` bits is decoded back from its
/// encoding.
pub proof fn law_i32_bits_roundtrip<const C: u32>(v: i32, order: ByteOrder)
    requires
        1 <= C <= 32,
        fits_signed(v as int, C as nat),
    ensures
        roundtrips::<i32, Bits<C>, Bits<C>>(v, order, Bits::<C>, Bits::<C>),
{
    lemma_signed_repr_roundtrip(v as int, C as nat);
    assert forall|rest: Seq<bool>|
        #[trigger] <i32 as BitDecode<(), Bits<C>>>::spec_decode(
            <i32 as BitEncode<(), Bits<C>>>::spec_encode(v, order, Bits::<C>).unwrap() + rest,
            order,
            Bits::<C>,
        ) == Some((v, <i32 as BitEncode<(), Bits<C>>>::spec_encode(v, order, Bits::<C>).unwrap().len())) by {
        lemma_uint_prefix(signed_repr(v as int, C as nat), C as nat, order, rest);
    }
}

/// An `i64` that fits in a two's complement bitfield of `C` bits is decoded back from its
/// encoding.
pub proof fn law_i64_bits_roundtrip<const C: u32>(v: i64, order: ByteOrder)
    requires
        1 <= C <= 64,
        fits_signed(v as int, C as nat),
    ensures
        roundtrips::<i64, Bits<C>, Bits<C>>(v, order, Bits::<C>, Bits::<C>),
{
    lemma_signed_repr_roundtrip(v as int, C as nat);
    assert forall|rest: Seq<bool>|
        #[trigger] <i64 as BitDecode<(), Bits<C>>>::spec_decode(
            <i64 as BitEncode<(), Bits<C>>>::spec_encode(v, order, Bits::<C>).unwrap() + rest,
            order,
            Bits::<C>,
        ) == Some((v, <i64 as BitEncode<(), Bits<C>>>::spec_encode(v, order, Bits::<C>).unwrap().len())) by {
        lemma_uint_prefix(signed_repr(v as int, C as nat), C as nat, order, rest);
    }
}

/// Every `bool` is decoded back from its encoding.
pub proof fn law_bool_roundtrip(v: bool, order: ByteOrder)
    ensures
        roundtrips::<bool, (), ()>(v, order, (), ()),
{
    lemma_pow2_8();
    assert forall|rest: Seq<bool>|
        #[trigger] <bool as BitDecode<(), ()>>::spec_decode(
            <bool as BitEncode<(), ()>>::spec_encode(v, order, ()).unwrap() + rest,
            order,
            (),
        ) == Some((v, <bool as BitEncode<(), ()>>::spec_encode(v, order, ()).unwrap().len())) by {
        lemma_uint_prefix(if v { 1 } else { 0 }, 8, order, rest);
    }
}

/// A `bool` in a bitfield of `1..=8` bits is decoded back from its encoding.
pub proof fn law_bool_bits_roundtrip<const C: u32>(v: bool, order: ByteOrder)
    requires
        1 <= C <= 8,
    ensures
        roundtrips::<bool, Bits<C>, Bits<C>>(v, order, Bits::<C>, Bits::<C>),
{
    lemma_pow2_unfold(C as nat);
    lemma_pow2_pos((C - 1) as nat);
    assert forall|rest: Seq<bool>|
        #[trigger] <bool as BitDecode<(), Bits<C>>>::spec_decode(
            <bool as BitEncode<(), Bits<C>>>::spec_encode(v, order, Bits::<C>).unwrap() + rest,
            order,
            Bits::<C>,
        ) == Some((v, <bool as BitEncode<(), Bits<C>>>::spec_encode(v, order, Bits::<C>).unwrap().len())) by {
        lemma_uint_prefix(if v { 1 } else { 0 }, C as nat, order, rest);
    }
}

} // verus!
