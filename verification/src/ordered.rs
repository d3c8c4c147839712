//! Whole numbers read and written byte by byte in a byte order of their own, whatever the
//! bit order of the stream: each byte is 8 bits of the stream, and the byte order says
//! which byte is the most significant.
use vstd::prelude::*;
use vstd::arithmetic::power2::{lemma2_to64, lemma_pow2_adds, pow2};
use vstd::arithmetic::div_mod::lemma_fundamental_div_mod;
use crate::bits::{
    bits_bytes, bits_value, bytes_bits, bytes_value, lemma_bits_bytes_concat, lemma_bits_value_bound,
    lemma_bytes_bits_concat, lemma_bytes_bits_len, lemma_bytes_bits_roundtrip, lemma_pow2_8,
    lemma_signed_value_range, signed_repr, signed_value, value_bits, fits_signed,
};
use crate::byte_order::ByteOrder;
use crate::error::Result;
use crate::stream::{BitInput, BitOutput};

verus! {

/// The `k` bytes of `v` (below `256^k`), least significant first.
pub open spec fn le_bytes(v: nat, k: nat) -> Seq<u8>
    decreases k,
{
    if k == 0 {
        seq![]
    } else {
        seq![(v % 256) as u8] + le_bytes(v / 256, (k - 1) as nat)
    }
}

/// The `k` bytes of `v` (below `256^k`), most significant first.
pub open spec fn be_bytes(v: nat, k: nat) -> Seq<u8>
    decreases k,
{
    if k == 0 {
        seq![]
    } else {
        be_bytes(v / 256, (k - 1) as nat).push((v % 256) as u8)
    }
}

/// The `k` bytes of `v` in `order`.
pub open spec fn ordered_bytes(v: nat, k: nat, order: ByteOrder) -> Seq<u8> {
    match order {
        ByteOrder::BigEndian => be_bytes(v, k),
        ByteOrder::LittleEndian => le_bytes(v, k),
    }
}

/// The number that the first `k` whole bytes of a stream stand for in `order`.
pub open spec fn leading_value(bits: Seq<bool>, stream: ByteOrder, k: nat, order: ByteOrder) -> nat {
    bytes_value(bits_bytes(bits.take(8 * k as int), stream), order)
}

proof fn lemma_le_bytes_len(v: nat, k: nat)
    ensures
        le_bytes(v, k).len() == k,
    decreases k,
{
    if k > 0 {
        lemma_le_bytes_len(v / 256, (k - 1) as nat);
    }
}

proof fn lemma_be_bytes_len(v: nat, k: nat)
    ensures
        be_bytes(v, k).len() == k,
    decreases k,
{
    if k > 0 {
        lemma_be_bytes_len(v / 256, (k - 1) as nat);
    }
}

/// The most-significant-first bytes are the least-significant-first ones backwards.
proof fn lemma_be_le_bytes(v: nat, k: nat)
    ensures
        be_bytes(v, k).len() == k,
        le_bytes(v, k).len() == k,
        forall|j: int| 0 <= j < k ==> #[trigger] be_bytes(v, k)[j] == le_bytes(v, k)[k - 1 - j],
    decreases k,
{
    lemma_be_bytes_len(v, k);
    lemma_le_bytes_len(v, k);
    if k > 0 {
        lemma_be_le_bytes(v / 256, (k - 1) as nat);
        assert forall|j: int| 0 <= j < k implies #[trigger] be_bytes(v, k)[j] == le_bytes(v, k)[k
            - 1 - j] by {
            if j < k - 1 {
                assert(be_bytes(v, k)[j] == be_bytes(v / 256, (k - 1) as nat)[j]);
                assert(le_bytes(v, k)[k - 1 - j] == le_bytes(v / 256, (k - 1) as nat)[k - 2 - j]);
            }
        }
    }
}

/// Appending a byte to a most-significant-first number shifts it up a byte.
proof fn lemma_bytes_value_push_be(s: Seq<u8>, b: u8)
    ensures
        bytes_value(s.push(b), ByteOrder::BigEndian) == 256 * bytes_value(s, ByteOrder::BigEndian)
            + b,
    decreases s.len(),
{
    lemma2_to64();
    let t = s.push(b);
    if s.len() == 0 {
        assert(t.drop_first() =~= Seq::<u8>::empty());
        assert(t[0] == b);
        assert(bytes_value(t.drop_first(), ByteOrder::BigEndian) == 0);
        assert(pow2(0) == 1);
        assert(bytes_value(t, ByteOrder::BigEndian) == b as nat * pow2(0) + 0);
    } else {
        let n = s.len();
        lemma_bytes_value_push_be(s.drop_first(), b);
        assert(t.drop_first() =~= s.drop_first().push(b));
        assert(t[0] == s[0]);
        lemma_pow2_adds(8, (8 * (n - 1)) as nat);
        assert(8 + 8 * (n - 1) == 8 * n);
        let p = pow2((8 * (n - 1)) as nat);
        let x = s[0] as nat;
        let r = bytes_value(s.drop_first(), ByteOrder::BigEndian);
        assert(pow2((8 * n) as nat) == 256 * p);
        assert(bytes_value(t, ByteOrder::BigEndian) == x * pow2((8 * n) as nat) + (256 * r + b));
        assert(bytes_value(s, ByteOrder::BigEndian) == x * p + r);
        assert(x * (256 * p) + (256 * r + b) == 256 * (x * p + r) + b) by (nonlinear_arith);
    }
}

/// Appending a byte to a least-significant-first number adds it at the top.
proof fn lemma_bytes_value_push_le(s: Seq<u8>, b: u8)
    ensures
        bytes_value(s.push(b), ByteOrder::LittleEndian) == bytes_value(s, ByteOrder::LittleEndian)
            + b * pow2(8 * s.len()),
    decreases s.len(),
{
    lemma2_to64();
    let t = s.push(b);
    if s.len() == 0 {
        assert(t.drop_first() =~= Seq::<u8>::empty());
        assert(t[0] == b);
        assert(bytes_value(t.drop_first(), ByteOrder::LittleEndian) == 0);
        assert(bytes_value(t, ByteOrder::LittleEndian) == b as nat + 256 * 0);
        assert(bytes_value(s, ByteOrder::LittleEndian) == 0);
        assert(8 * s.len() == 0);
        assert(pow2(0) == 1);
        assert(b * pow2(0) == b);
    } else {
        let n = s.len();
        lemma_bytes_value_push_le(s.drop_first(), b);
        assert(t.drop_first() =~= s.drop_first().push(b));
        assert(t[0] == s[0]);
        lemma_pow2_adds(8, (8 * (n - 1)) as nat);
        assert(8 + 8 * (n - 1) == 8 * n);
        let p = pow2((8 * (n - 1)) as nat);
        let x = s[0] as nat;
        let r = bytes_value(s.drop_first(), ByteOrder::LittleEndian);
        assert(pow2((8 * n) as nat) == 256 * p);
        assert(bytes_value(t, ByteOrder::LittleEndian) == x + 256 * (r + b * p));
        assert(bytes_value(s, ByteOrder::LittleEndian) == x + 256 * r);
        assert(x + 256 * (r + b * p) == (x + 256 * r) + b * (256 * p)) by (nonlinear_arith);
    }
}

/// A number of `k` bytes is below `256^k`.
proof fn lemma_bytes_value_bound(s: Seq<u8>, order: ByteOrder)
    ensures
        bytes_value(s, order) < pow2(8 * s.len()),
    decreases s.len(),
{
    lemma2_to64();
    if s.len() > 0 {
        lemma_bytes_value_bound(s.drop_first(), order);
        let n = s.len();
        lemma_pow2_adds(8, (8 * (n - 1)) as nat);
        assert(8 + 8 * (n - 1) == 8 * n);
        let p = pow2((8 * (n - 1)) as nat);
        let r = bytes_value(s.drop_first(), order);
        let x = s[0] as nat;
        match order {
            ByteOrder::BigEndian => {
                assert(x * p + r < 256 * p) by (nonlinear_arith)
                    requires
                        x <= 255,
                        r < p,
                ;
            },
            ByteOrder::LittleEndian => {
                assert(x + 256 * r < 256 * p) by (nonlinear_arith)
                    requires
                        x <= 255,
                        r < p,
                ;
            },
        }
    }
}

/// The bytes of a number in an order stand for the number in that order.
proof fn lemma_ordered_bytes_value(v: nat, k: nat, order: ByteOrder)
    requires
        v < pow2(8 * k),
    ensures
        ordered_bytes(v, k, order).len() == k,
        bytes_value(ordered_bytes(v, k, order), order) == v,
    decreases k,
{
    lemma2_to64();
    lemma_be_bytes_len(v, k);
    lemma_le_bytes_len(v, k);
    if k == 0 {
    } else {
        lemma_pow2_adds(8, (8 * (k - 1)) as nat);
        assert(8 + 8 * (k - 1) == 8 * k);
        let p = pow2((8 * (k - 1)) as nat);
        lemma_fundamental_div_mod(v as int, 256);
        assert(v / 256 < p) by (nonlinear_arith)
            requires
                v < 256 * p,
        ;
        lemma_ordered_bytes_value(v / 256, (k - 1) as nat, order);
        match order {
            ByteOrder::BigEndian => {
                lemma_bytes_value_push_be(be_bytes(v / 256, (k - 1) as nat), (v % 256) as u8);
            },
            ByteOrder::LittleEndian => {
                assert((seq![(v % 256) as u8] + le_bytes(v / 256, (k - 1) as nat)).drop_first()
                    =~= le_bytes(v / 256, (k - 1) as nat));
            },
        }
    }
}

/// The bytes of the first `8 * (i + 1)` bits are those of the first `8 * i` bits and one
/// more.
proof fn lemma_leading_bytes_step(bits: Seq<bool>, stream: ByteOrder, i: nat)
    requires
        8 * (i + 1) <= bits.len(),
    ensures
        bits_bytes(bits.take(8 * (i + 1) as int), stream) == bits_bytes(bits.take(8 * i as int), stream).push(
            bits_value(bits.take(8 * (i + 1) as int).skip(8 * i as int), stream) as u8,
        ),
{
    let a = bits.take(8 * i as int);
    let b = bits.take(8 * (i + 1) as int).skip(8 * i as int);
    assert(a + b =~= bits.take(8 * (i + 1) as int));
    lemma_bits_bytes_concat(a, b, stream);
    assert(b.len() == 8);
    assert(b.take(8) =~= b);
    assert(b.skip(8) =~= Seq::<bool>::empty());
    assert(bits_bytes(b.skip(8), stream) =~= Seq::<u8>::empty());
    assert(bits_bytes(b, stream) =~= seq![bits_value(b, stream) as u8] + Seq::<u8>::empty());
}

/// Bytes written one after the other are the bits of the bytes.
proof fn lemma_bytes_bits_push(s: Seq<u8>, b: u8, stream: ByteOrder)
    ensures
        bytes_bits(s.push(b), stream) == bytes_bits(s, stream) + value_bits(b as nat, 8, stream),
{
    lemma_bytes_bits_concat(s, seq![b], stream);
    assert(s + seq![b] =~= s.push(b));
    assert(seq![b].drop_first() =~= Seq::<u8>::empty());
    assert(seq![b][0] == b);
    assert(bytes_bits(seq![b], stream) == value_bits(b as nat, 8, stream) + bytes_bits(
        Seq::<u8>::empty(),
        stream,
    ));
    assert(value_bits(b as nat, 8, stream) + Seq::<bool>::empty() =~= value_bits(b as nat, 8, stream));
}

impl ByteOrder {
    /// Reads `k` whole bytes and joins them into a number in this byte order. Fails, with an
    /// I/O error, exactly when fewer than `8 * k` bits are left.
    pub fn read_uint(&self, read: &mut BitInput, k: u32) -> (res: Result<u128>)
        requires
            k <= 16,
        ensures
            final(read).advanced_from(&*old(read)),
            res is Ok <==> 8 * k <= old(read).bits().len(),
            res matches Ok(v) ==> {
                &&& v == leading_value(old(read).bits(), old(read).order(), k as nat, *self)
                &&& v < pow2(8 * k as nat)
                &&& final(read).position() == old(read).position() + 8 * k
            },
            res matches Err(e) ==> e is Io,
    {
        let ghost r0 = *read;
        let ghost stream = read.order();
        let mut acc: u128 = 0;
        let mut scale: u128 = 1;
        let mut i: u32 = 0;
        proof {
            BitInput::lemma_advanced_refl(&*read);
            lemma2_to64();
            assert(r0.bits().take(0) =~= Seq::<bool>::empty());
        }
        while i < k
            invariant
                i <= k <= 16,
                r0 == *old(read),
                stream == r0.order(),
                read.advanced_from(&r0),
                read.position() == r0.position() + 8 * i,
                8 * i <= r0.bits().len(),
                bits_bytes(r0.bits().take(8 * i as int), stream).len() == i,
                acc == bytes_value(bits_bytes(r0.bits().take(8 * i as int), stream), *self),
                acc < pow2(8 * i as nat),
                i < k ==> scale == pow2(8 * i as nat),
            decreases k - i,
        {
            let ghost r1 = *read;
            let b = match read.read_bits(8) {
                Ok(b) => b,
                Err(e) => {
                    proof {
                        BitInput::lemma_advanced_trans(&r0, &r1, &*read);
                    }
                    return Err(e);
                },
            };
            proof {
                BitInput::lemma_advanced_trans(&r0, &r1, &*read);
                lemma_bits_value_bound(r1.bits().take(8), stream);
                lemma_pow2_8();
                lemma_leading_bytes_step(r0.bits(), stream, i as nat);
                assert(r1.bits().take(8) =~= r0.bits().take(8 * (i + 1) as int).skip(8 * i as int));
                lemma_pow2_adds(8 * i as nat, 8);
                assert(8 * i + 8 == 8 * (i + 1));
                if 8 * (i + 1) < 128 {
                    vstd::arithmetic::power2::lemma_pow2_strictly_increases(8 * (i + 1) as nat, 128);
                }
                lemma_pow2_adds(64, 64);
                assert(pow2(128) == 0x1_0000_0000_0000_0000_0000_0000_0000_0000);
                assert(pow2(8 * (i + 1) as nat) <= 0x1_0000_0000_0000_0000_0000_0000_0000_0000);
            }
            let ghost prefix = bits_bytes(r0.bits().take(8 * i as int), stream);
            match self {
                ByteOrder::BigEndian => {
                    proof {
                        lemma_bytes_value_push_be(prefix, b as u8);
                        assert(acc * 256 + b < pow2(8 * (i + 1) as nat)) by (nonlinear_arith)
                            requires
                                acc < pow2(8 * i as nat),
                                b < 256,
                                pow2(8 * (i + 1) as nat) == pow2(8 * i as nat) * 256,
                        ;
                    }
                    acc = acc * 256 + (b as u128);
                },
                ByteOrder::LittleEndian => {
                    proof {
                        lemma_bytes_value_push_le(prefix, b as u8);
                        assert(acc + b * scale < pow2(8 * (i + 1) as nat)) by (nonlinear_arith)
                            requires
                                acc < scale,
                                b < 256,
                                pow2(8 * (i + 1) as nat) == scale * 256,
                        ;
                    }
                    acc = acc + (b as u128) * scale;
                },
            }
            if i + 1 < k {
                proof {
                    vstd::arithmetic::power2::lemma_pow2_strictly_increases(8 * (i + 1) as nat, 128);
                    assert(scale * 256 == pow2(8 * (i + 1) as nat));
                }
                scale = scale * 256;
            }
            i = i + 1;
        }
        Ok(acc)
    }

    /// Writes the `k` bytes of `v` in this byte order, each as 8 bits of the stream.
    pub fn write_uint(&self, write: &mut BitOutput, k: u32, v: u128) -> (res: Result<()>)
        requires
            k <= 16,
            v < pow2(8 * k as nat),
        ensures
            final(write).order() == old(write).order(),
            res is Ok,
            final(write).bits() == old(write).bits() + bytes_bits(
                ordered_bytes(v as nat, k as nat, *self),
                old(write).order(),
            ),
    {
        let ghost w0 = *old(write);
        let mut digits: Vec<u8> = Vec::new();
        let mut rest = v;
        let mut j: u32 = 0;
        proof {
            lemma_le_bytes_len(v as nat, k as nat);
            assert(le_bytes(v as nat, k as nat) =~= Seq::<u8>::empty() + le_bytes(v as nat, k as nat));
        }
        while j < k
            invariant
                j <= k <= 16,
                digits@.len() == j,
                digits@ + le_bytes(rest as nat, (k - j) as nat) == le_bytes(v as nat, k as nat),
            decreases k - j,
        {
            let ghost before = digits@;
            let ghost r = rest;
            let d = (rest % 256) as u8;
            proof {
                assert(le_bytes(r as nat, (k - j) as nat) == seq![d] + le_bytes(
                    (r / 256) as nat,
                    (k - j - 1) as nat,
                ));
            }
            digits.push(d);
            rest = rest / 256;
            proof {
                assert(digits@ + le_bytes(rest as nat, (k - (j + 1)) as nat) =~= before + (seq![d]
                    + le_bytes((r / 256) as nat, (k - j - 1) as nat)));
            }
            j = j + 1;
        }
        proof {
            lemma_be_le_bytes(v as nat, k as nat);
            assert(digits@ =~= le_bytes(v as nat, k as nat));
            assert(w0.bits() + bytes_bits(Seq::<u8>::empty(), w0.order()) =~= w0.bits());
            lemma_pow2_8();
        }
        let mut i: u32 = 0;
        while i < k
            invariant
                i <= k <= 16,
                digits@ == le_bytes(v as nat, k as nat),
                digits@.len() == k,
                be_bytes(v as nat, k as nat).len() == k,
                forall|x: int| 0 <= x < k ==> #[trigger] be_bytes(v as nat, k as nat)[x] == le_bytes(
                    v as nat,
                    k as nat,
                )[k - 1 - x],
                w0 == *old(write),
                write.order() == w0.order(),
                write.bits() == w0.bits() + bytes_bits(
                    ordered_bytes(v as nat, k as nat, *self).take(i as int),
                    w0.order(),
                ),
                pow2(8) == 256,
            decreases k - i,
        {
            let idx = match self {
                ByteOrder::BigEndian => k - 1 - i,
                ByteOrder::LittleEndian => i,
            };
            let b = digits[idx as usize];
            let ghost shown = ordered_bytes(v as nat, k as nat, *self);
            assert(b == shown[i as int]);
            assert(shown.take(i + 1) =~= shown.take(i as int).push(b));
            proof {
                lemma_bytes_bits_push(shown.take(i as int), b, w0.order());
            }
            let r = write.write_bits(8, b as u64);
            match r {
                Ok(()) => {},
                Err(_) => {
                    assert(false);
                },
            }
            proof {
                assert(write.bits() =~= w0.bits() + bytes_bits(shown.take(i + 1), w0.order()));
            }
            i = i + 1;
        }
        proof {
            let shown = ordered_bytes(v as nat, k as nat, *self);
            assert(shown.take(k as int) =~= shown);
        }
        Ok(())
    }
}

/// What `write_uint` writes, `read_uint` reads back: the `k` bytes of a number below `256^k`,
/// written in one byte order into a stream of any bit order, stand for the number again when
/// read in the same byte order.
pub proof fn law_ordered_roundtrip(v: nat, k: nat, order: ByteOrder, stream: ByteOrder, rest: Seq<bool>)
    requires
        v < pow2(8 * k),
    ensures
        leading_value(bytes_bits(ordered_bytes(v, k, order), stream) + rest, stream, k, order) == v,
{
    lemma_ordered_bytes_value(v, k, order);
    let bytes = ordered_bytes(v, k, order);
    lemma_bytes_bits_len(bytes, stream);
    let bits = bytes_bits(bytes, stream) + rest;
    assert(bits.take(8 * k as int) =~= bytes_bits(bytes, stream));
    lemma_bytes_bits_roundtrip(bytes, stream);
}


/// The mask of the `bits` low bits, for the widths that the typed helpers use.
fn width_mask(bits: u32) -> (m: u128)
    requires
        bits == 16 || bits == 32 || bits == 64 || bits == 128,
    ensures
        m + 1 == pow2(bits as nat),
{
    proof {
        lemma_pow2_8();
        lemma_pow2_adds(64, 64);
    }
    if bits == 16 {
        0xFFFF
    } else if bits == 32 {
        0xFFFF_FFFF
    } else if bits == 64 {
        0xFFFF_FFFF_FFFF_FFFF
    } else {
        u128::MAX
    }
}

/// Facts about the powers of two of the typed widths.
proof fn lemma_widths()
    ensures
        pow2(16) == 0x1_0000,
        pow2(15) == 0x8000,
        pow2(32) == 0x1_0000_0000,
        pow2(31) == 0x8000_0000,
        pow2(64) == 0x1_0000_0000_0000_0000,
        pow2(63) == 0x8000_0000_0000_0000,
        pow2(128) == 0x1_0000_0000_0000_0000_0000_0000_0000_0000,
        pow2(127) == 0x8000_0000_0000_0000_0000_0000_0000_0000,
{
    lemma_pow2_8();
    lemma_pow2_adds(64, 64);
    lemma_pow2_adds(63, 64);
}

/// The two's complement reading of a `bits`-bit number.
fn to_signed_wide(u: u128, bits: u32) -> (v: i128)
    requires
        bits == 16 || bits == 32 || bits == 64 || bits == 128,
        u < pow2(bits as nat),
    ensures
        v == signed_value(u as nat, bits as nat),
{
    proof {
        lemma_widths();
    }
    let mask = width_mask(bits);
    let half = mask / 2 + 1;
    proof {
        vstd::arithmetic::power2::lemma_pow2_unfold(bits as nat);
    }
    if u < half {
        u as i128
    } else {
        let m = (mask - u) as i128;
        -m - 1
    }
}

/// The `bits`-bit two's complement representation of `v`.
fn to_repr_wide(v: i128, bits: u32) -> (u: u128)
    requires
        bits == 16 || bits == 32 || bits == 64 || bits == 128,
        fits_signed(v as int, bits as nat),
    ensures
        u == signed_repr(v as int, bits as nat),
        u < pow2(bits as nat),
{
    proof {
        lemma_widths();
        vstd::arithmetic::power2::lemma_pow2_unfold(bits as nat);
    }
    let mask = width_mask(bits);
    if v >= 0 {
        v as u128
    } else {
        let m = (-(v + 1)) as u128;
        mask - m
    }
}
impl ByteOrder {
    /// Reads a `u16` as 2 bytes in this byte order.
    pub fn read_u16(&self, read: &mut BitInput) -> (res: Result<u16>)
        ensures
            final(read).advanced_from(&*old(read)),
            res is Ok <==> 16 <= old(read).bits().len(),
            res matches Ok(v) ==> v == leading_value(old(read).bits(), old(read).order(), 2, *self),
    {
        let v = self.read_uint(read, 2)?;
        proof {
            lemma_widths();
        }
        Ok(v as u16)
    }

    /// Writes a `u16` as 2 bytes in this byte order.
    pub fn write_u16(&self, value: u16, write: &mut BitOutput) -> (res: Result<()>)
        ensures
            final(write).order() == old(write).order(),
            res is Ok,
            final(write).bits() == old(write).bits() + bytes_bits(
                ordered_bytes(value as nat, 2, *self),
                old(write).order(),
            ),
    {
        proof {
            lemma_widths();
        }
        self.write_uint(write, 2, value as u128)
    }

    /// Reads an `i16` as 2 bytes of two's complement in this byte order.
    pub fn read_i16(&self, read: &mut BitInput) -> (res: Result<i16>)
        ensures
            final(read).advanced_from(&*old(read)),
            res is Ok <==> 16 <= old(read).bits().len(),
            res matches Ok(v) ==> v == signed_value(
                leading_value(old(read).bits(), old(read).order(), 2, *self),
                16,
            ),
    {
        let u = self.read_uint(read, 2)?;
        proof {
            lemma_widths();
        }
        let v = to_signed_wide(u, 16);
        proof {
            lemma_signed_value_range(u as nat, 16);
        }
        Ok(v as i16)
    }

    /// Writes an `i16` as 2 bytes of two's complement in this byte order.
    pub fn write_i16(&self, value: i16, write: &mut BitOutput) -> (res: Result<()>)
        ensures
            final(write).order() == old(write).order(),
            res is Ok,
            final(write).bits() == old(write).bits() + bytes_bits(
                ordered_bytes(signed_repr(value as int, 16), 2, *self),
                old(write).order(),
            ),
    {
        proof {
            lemma_widths();
        }
        let u = to_repr_wide(value as i128, 16);
        self.write_uint(write, 2, u)
    }

    /// Reads a `u32` as 4 bytes in this byte order.
    pub fn read_u32(&self, read: &mut BitInput) -> (res: Result<u32>)
        ensures
            final(read).advanced_from(&*old(read)),
            res is Ok <==> 32 <= old(read).bits().len(),
            res matches Ok(v) ==> v == leading_value(old(read).bits(), old(read).order(), 4, *self),
    {
        let v = self.read_uint(read, 4)?;
        proof {
            lemma_widths();
        }
        Ok(v as u32)
    }

    /// Writes a `u32` as 4 bytes in this byte order.
    pub fn write_u32(&self, value: u32, write: &mut BitOutput) -> (res: Result<()>)
        ensures
            final(write).order() == old(write).order(),
            res is Ok,
            final(write).bits() == old(write).bits() + bytes_bits(
                ordered_bytes(value as nat, 4, *self),
                old(write).order(),
            ),
    {
        proof {
            lemma_widths();
        }
        self.write_uint(write, 4, value as u128)
    }

    /// Reads an `i32` as 4 bytes of two's complement in this byte order.
    pub fn read_i32(&self, read: &mut BitInput) -> (res: Result<i32>)
        ensures
            final(read).advanced_from(&*old(read)),
            res is Ok <==> 32 <= old(read).bits().len(),
            res matches Ok(v) ==> v == signed_value(
                leading_value(old(read).bits(), old(read).order(), 4, *self),
                32,
            ),
    {
        let u = self.read_uint(read, 4)?;
        proof {
            lemma_widths();
        }
        let v = to_signed_wide(u, 32);
        proof {
            lemma_signed_value_range(u as nat, 32);
        }
        Ok(v as i32)
    }

    /// Writes an `i32` as 4 bytes of two's complement in this byte order.
    pub fn write_i32(&self, value: i32, write: &mut BitOutput) -> (res: Result<()>)
        ensures
            final(write).order() == old(write).order(),
            res is Ok,
            final(write).bits() == old(write).bits() + bytes_bits(
                ordered_bytes(signed_repr(value as int, 32), 4, *self),
                old(write).order(),
            ),
    {
        proof {
            lemma_widths();
        }
        let u = to_repr_wide(value as i128, 32);
        self.write_uint(write, 4, u)
    }

    /// Reads a `u64` as 8 bytes in this byte order.
    pub fn read_u64(&self, read: &mut BitInput) -> (res: Result<u64>)
        ensures
            final(read).advanced_from(&*old(read)),
            res is Ok <==> 64 <= old(read).bits().len(),
            res matches Ok(v) ==> v == leading_value(old(read).bits(), old(read).order(), 8, *self),
    {
        let v = self.read_uint(read, 8)?;
        proof {
            lemma_widths();
        }
        Ok(v as u64)
    }

    /// Writes a `u64` as 8 bytes in this byte order.
    pub fn write_u64(&self, value: u64, write: &mut BitOutput) -> (res: Result<()>)
        ensures
            final(write).order() == old(write).order(),
            res is Ok,
            final(write).bits() == old(write).bits() + bytes_bits(
                ordered_bytes(value as nat, 8, *self),
                old(write).order(),
            ),
    {
        proof {
            lemma_widths();
        }
        self.write_uint(write, 8, value as u128)
    }

    /// Reads an `i64` as 8 bytes of two's complement in this byte order.
    pub fn read_i64(&self, read: &mut BitInput) -> (res: Result<i64>)
        ensures
            final(read).advanced_from(&*old(read)),
            res is Ok <==> 64 <= old(read).bits().len(),
            res matches Ok(v) ==> v == signed_value(
                leading_value(old(read).bits(), old(read).order(), 8, *self),
                64,
            ),
    {
        let u = self.read_uint(read, 8)?;
        proof {
            lemma_widths();
        }
        let v = to_signed_wide(u, 64);
        proof {
            lemma_signed_value_range(u as nat, 64);
        }
        Ok(v as i64)
    }

    /// Writes an `i64` as 8 bytes of two's complement in this byte order.
    pub fn write_i64(&self, value: i64, write: &mut BitOutput) -> (res: Result<()>)
        ensures
            final(write).order() == old(write).order(),
            res is Ok,
            final(write).bits() == old(write).bits() + bytes_bits(
                ordered_bytes(signed_repr(value as int, 64), 8, *self),
                old(write).order(),
            ),
    {
        proof {
            lemma_widths();
        }
        let u = to_repr_wide(value as i128, 64);
        self.write_uint(write, 8, u)
    }

    /// Reads a `u128` as 16 bytes in this byte order.
    pub fn read_u128(&self, read: &mut BitInput) -> (res: Result<u128>)
        ensures
            final(read).advanced_from(&*old(read)),
            res is Ok <==> 128 <= old(read).bits().len(),
            res matches Ok(v) ==> v == leading_value(old(read).bits(), old(read).order(), 16, *self),
    {
        let v = self.read_uint(read, 16)?;
        proof {
            lemma_widths();
        }
        Ok(v as u128)
    }

    /// Writes a `u128` as 16 bytes in this byte order.
    pub fn write_u128(&self, value: u128, write: &mut BitOutput) -> (res: Result<()>)
        ensures
            final(write).order() == old(write).order(),
            res is Ok,
            final(write).bits() == old(write).bits() + bytes_bits(
                ordered_bytes(value as nat, 16, *self),
                old(write).order(),
            ),
    {
        proof {
            lemma_widths();
        }
        self.write_uint(write, 16, value as u128)
    }

    /// Reads an `i128` as 16 bytes of two's complement in this byte order.
    pub fn read_i128(&self, read: &mut BitInput) -> (res: Result<i128>)
        ensures
            final(read).advanced_from(&*old(read)),
            res is Ok <==> 128 <= old(read).bits().len(),
            res matches Ok(v) ==> v == signed_value(
                leading_value(old(read).bits(), old(read).order(), 16, *self),
                128,
            ),
    {
        let u = self.read_uint(read, 16)?;
        proof {
            lemma_widths();
        }
        let v = to_signed_wide(u, 128);
        proof {
            lemma_signed_value_range(u as nat, 128);
        }
        Ok(v as i128)
    }

    /// Writes an `i128` as 16 bytes of two's complement in this byte order.
    pub fn write_i128(&self, value: i128, write: &mut BitOutput) -> (res: Result<()>)
        ensures
            final(write).order() == old(write).order(),
            res is Ok,
            final(write).bits() == old(write).bits() + bytes_bits(
                ordered_bytes(signed_repr(value as int, 128), 16, *self),
                old(write).order(),
            ),
    {
        proof {
            lemma_widths();
        }
        let u = to_repr_wide(value as i128, 128);
        self.write_uint(write, 16, u)
    }

}

} // verus!
