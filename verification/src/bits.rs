//! The mathematical model of a bit stream: values as sequences of bits, and bytes as
//! sequences of bits, in either bit order.
use vstd::prelude::*;
use vstd::arithmetic::power2::*;
use vstd::arithmetic::div_mod::*;
use vstd::arithmetic::mul::*;
use crate::byte_order::ByteOrder;

verus! {

/// 1 for a set bit, 0 for a clear one.
pub open spec fn bit_weight(b: bool) -> nat {
    if b {
        1
    } else {
        0
    }
}

/// The unsigned number that `bits` stand for when read in `order`: the first bit is the
/// most significant one for `BigEndian` and the least significant one for `LittleEndian`.
pub open spec fn bits_value(bits: Seq<bool>, order: ByteOrder) -> nat
    decreases bits.len(),
{
    if bits.len() == 0 {
        0
    } else {
        match order {
            ByteOrder::BigEndian => 2 * bits_value(bits.drop_last(), order) + bit_weight(
                bits.last(),
            ),
            ByteOrder::LittleEndian => bit_weight(bits[0]) + 2 * bits_value(
                bits.drop_first(),
                order,
            ),
        }
    }
}

/// The `n` low bits of `v`, in the order in which a stream of `order` carries them.
pub open spec fn value_bits(v: nat, n: nat, order: ByteOrder) -> Seq<bool>
    decreases n,
{
    if n == 0 {
        seq![]
    } else {
        match order {
            ByteOrder::BigEndian => value_bits(v / 2, (n - 1) as nat, order).push(v % 2 == 1),
            ByteOrder::LittleEndian => seq![v % 2 == 1] + value_bits(v / 2, (n - 1) as nat, order),
        }
    }
}

/// The two's complement reading of an `n`-bit unsigned number.
pub open spec fn signed_value(u: nat, n: nat) -> int {
    if n > 0 && u >= pow2((n - 1) as nat) {
        u - pow2(n)
    } else {
        u as int
    }
}

/// The `n`-bit two's complement representation of `v`, as an unsigned number.
pub open spec fn signed_repr(v: int, n: nat) -> nat {
    if v < 0 {
        (v + pow2(n)) as nat
    } else {
        v as nat
    }
}

/// Whether `v` can be represented in `n` bits of two's complement.
pub open spec fn fits_signed(v: int, n: nat) -> bool {
    n > 0 && -pow2((n - 1) as nat) <= v < pow2((n - 1) as nat)
}

/// The bits that a stream of `order` yields for `bytes`, byte after byte.
pub open spec fn bytes_bits(bytes: Seq<u8>, order: ByteOrder) -> Seq<bool>
    decreases bytes.len(),
{
    if bytes.len() == 0 {
        seq![]
    } else {
        value_bits(bytes[0] as nat, 8, order) + bytes_bits(bytes.drop_first(), order)
    }
}

/// The whole bytes that `bits` make up in a stream of `order` (a trailing partial byte is
/// left out).
pub open spec fn bits_bytes(bits: Seq<bool>, order: ByteOrder) -> Seq<u8>
    decreases bits.len(),
{
    if bits.len() < 8 {
        seq![]
    } else {
        seq![bits_value(bits.take(8), order) as u8] + bits_bytes(bits.skip(8), order)
    }
}

/// `n` clear bits.
pub open spec fn zero_bits(n: nat) -> Seq<bool> {
    Seq::new(n, |i: int| false)
}

/// The number of clear bits that bring a stream of `len` bits to a byte boundary.
pub open spec fn padding_len(len: nat) -> nat {
    if len % 8 == 0 {
        0
    } else {
        (8 - len % 8) as nat
    }
}

pub proof fn lemma_value_bits_len(v: nat, n: nat, order: ByteOrder)
    ensures
        value_bits(v, n, order).len() == n,
    decreases n,
{
    if n > 0 {
        lemma_value_bits_len(v / 2, (n - 1) as nat, order);
    }
}

/// Writing the low `n` bits of `v` and reading them back gives `v` modulo `2^n`.
pub proof fn lemma_value_bits_value(v: nat, n: nat, order: ByteOrder)
    ensures
        bits_value(value_bits(v, n, order), order) == v % pow2(n),
    decreases n,
{
    if n == 0 {
        lemma2_to64();
    } else {
        let m = (n - 1) as nat;
        let rest = value_bits(v / 2, m, order);
        lemma_value_bits_value(v / 2, m, order);
        lemma_value_bits_len(v / 2, m, order);
        lemma_pow2_unfold(n);
        lemma_pow2_pos(m);
        lemma_mod_breakdown(v as int, 2, pow2(m) as int);
        let bits = value_bits(v, n, order);
        match order {
            ByteOrder::BigEndian => {
                assert(bits.drop_last() =~= rest);
                assert(bits.last() == (v % 2 == 1));
            },
            ByteOrder::LittleEndian => {
                assert(bits.drop_first() =~= rest);
                assert(bits[0] == (v % 2 == 1));
            },
        }
        assert(bit_weight(v % 2 == 1) == v % 2);
    }
}

/// The value of `n` bits is below `2^n`.
pub proof fn lemma_bits_value_bound(bits: Seq<bool>, order: ByteOrder)
    ensures
        bits_value(bits, order) < pow2(bits.len()),
    decreases bits.len(),
{
    if bits.len() == 0 {
        lemma2_to64();
    } else {
        let n = bits.len();
        lemma_pow2_unfold(n);
        match order {
            ByteOrder::BigEndian => lemma_bits_value_bound(bits.drop_last(), order),
            ByteOrder::LittleEndian => lemma_bits_value_bound(bits.drop_first(), order),
        }
    }
}

/// Reading bits and writing their value back in as many bits gives the same bits.
pub proof fn lemma_bits_value_bits(bits: Seq<bool>, order: ByteOrder)
    ensures
        value_bits(bits_value(bits, order), bits.len(), order) == bits,
    decreases bits.len(),
{
    if bits.len() == 0 {
        assert(value_bits(bits_value(bits, order), 0, order) =~= bits);
    } else {
        let v = bits_value(bits, order);
        let n = bits.len();
        match order {
            ByteOrder::BigEndian => {
                let w = bits_value(bits.drop_last(), order);
                lemma_bits_value_bits(bits.drop_last(), order);
                assert(v / 2 == w && v % 2 == bit_weight(bits.last()));
                assert(value_bits(v, n, order) =~= bits.drop_last().push(bits.last()));
                assert(bits.drop_last().push(bits.last()) =~= bits);
            },
            ByteOrder::LittleEndian => {
                let w = bits_value(bits.drop_first(), order);
                lemma_bits_value_bits(bits.drop_first(), order);
                assert(v / 2 == w && v % 2 == bit_weight(bits[0]));
                assert(value_bits(v, n, order) =~= seq![bits[0]] + bits.drop_first());
                assert(seq![bits[0]] + bits.drop_first() =~= bits);
            },
        }
    }
}

/// Two bit strings of one length with the same value are the same.
pub proof fn lemma_bits_value_injective(a: Seq<bool>, b: Seq<bool>, order: ByteOrder)
    requires
        a.len() == b.len(),
        bits_value(a, order) == bits_value(b, order),
    ensures
        a == b,
{
    lemma_bits_value_bits(a, order);
    lemma_bits_value_bits(b, order);
}

/// For a value below `2^n`, reading its `n` bits gives it back.
pub proof fn lemma_value_bits_roundtrip(v: nat, n: nat, order: ByteOrder)
    requires
        v < pow2(n),
    ensures
        bits_value(value_bits(v, n, order), order) == v,
        value_bits(v, n, order).len() == n,
{
    lemma_value_bits_value(v, n, order);
    lemma_value_bits_len(v, n, order);
    lemma_small_mod(v, pow2(n));
}

/// The value of a concatenation, in terms of the values of its parts.
pub proof fn lemma_bits_value_concat(a: Seq<bool>, b: Seq<bool>, order: ByteOrder)
    ensures
        order == ByteOrder::BigEndian ==> bits_value(a + b, order) == bits_value(a, order) * pow2(
            b.len(),
        ) + bits_value(b, order),
        order == ByteOrder::LittleEndian ==> bits_value(a + b, order) == bits_value(a, order)
            + pow2(a.len()) * bits_value(b, order),
    decreases a.len() + b.len(),
{
    match order {
        ByteOrder::BigEndian => {
            if b.len() == 0 {
                assert(a + b =~= a);
                lemma2_to64();
            } else {
                lemma_bits_value_concat(a, b.drop_last(), order);
                assert((a + b).drop_last() =~= a + b.drop_last());
                assert((a + b).last() == b.last());
                lemma_pow2_unfold(b.len());
                let x = bits_value(a, order);
                let p = pow2((b.len() - 1) as nat);
                lemma_mul_is_associative(x as int, 2, p as int);
                lemma_mul_is_commutative(x as int, 2);
                lemma_mul_is_associative(2, x as int, p as int);
            }
        },
        ByteOrder::LittleEndian => {
            if a.len() == 0 {
                assert(a + b =~= b);
                lemma2_to64();
            } else {
                lemma_bits_value_concat(a.drop_first(), b, order);
                assert((a + b).drop_first() =~= a.drop_first() + b);
                assert((a + b)[0] == a[0]);
                lemma_pow2_unfold(a.len());
                let y = bits_value(b, order);
                let p = pow2((a.len() - 1) as nat);
                lemma_mul_is_associative(2, p as int, y as int);
            }
        },
    }
}

pub proof fn lemma_bytes_bits_len(bytes: Seq<u8>, order: ByteOrder)
    ensures
        bytes_bits(bytes, order).len() == 8 * bytes.len(),
    decreases bytes.len(),
{
    if bytes.len() > 0 {
        lemma_value_bits_len(bytes[0] as nat, 8, order);
        lemma_bytes_bits_len(bytes.drop_first(), order);
    }
}

/// Splitting bytes and turning the parts into bits gives the bits of the whole.
pub proof fn lemma_bytes_bits_concat(a: Seq<u8>, b: Seq<u8>, order: ByteOrder)
    ensures
        bytes_bits(a + b, order) == bytes_bits(a, order) + bytes_bits(b, order),
    decreases a.len(),
{
    if a.len() == 0 {
        assert(a + b =~= b);
        assert(bytes_bits(a, order) + bytes_bits(b, order) =~= bytes_bits(b, order));
    } else {
        lemma_bytes_bits_concat(a.drop_first(), b, order);
        assert((a + b).drop_first() =~= a.drop_first() + b);
        assert((a + b)[0] == a[0]);
        let h = value_bits(a[0] as nat, 8, order);
        assert(h + (bytes_bits(a.drop_first(), order) + bytes_bits(b, order)) =~= (h
            + bytes_bits(a.drop_first(), order)) + bytes_bits(b, order));
    }
}

/// Bytes turned into bits and back are the same bytes.
pub proof fn lemma_bytes_bits_roundtrip(bytes: Seq<u8>, order: ByteOrder)
    ensures
        bits_bytes(bytes_bits(bytes, order), order) == bytes,
    decreases bytes.len(),
{
    if bytes.len() == 0 {
        assert(bits_bytes(bytes_bits(bytes, order), order) =~= bytes);
    } else {
        let h = value_bits(bytes[0] as nat, 8, order);
        let t = bytes_bits(bytes.drop_first(), order);
        lemma_bytes_bits_roundtrip(bytes.drop_first(), order);
        lemma_value_bits_len(bytes[0] as nat, 8, order);
        lemma_bytes_bits_len(bytes.drop_first(), order);
        assert((h + t).take(8) =~= h);
        assert((h + t).skip(8) =~= t);
        lemma_pow2_8();
        lemma_value_bits_roundtrip(bytes[0] as nat, 8, order);
        assert(bits_bytes(h + t, order) =~= bytes);
    }
}

/// Whole bytes of bits turned into bytes and back are the same bits.
pub proof fn lemma_bits_bytes_roundtrip(bits: Seq<bool>, order: ByteOrder)
    requires
        bits.len() % 8 == 0,
    ensures
        bytes_bits(bits_bytes(bits, order), order) == bits,
        bits_bytes(bits, order).len() == bits.len() / 8,
    decreases bits.len(),
{
    if bits.len() == 0 {
        assert(bytes_bits(bits_bytes(bits, order), order) =~= bits);
    } else {
        let b0 = bits_value(bits.take(8), order);
        lemma_bits_value_bound(bits.take(8), order);
        lemma_pow2_8();
        lemma_bits_value_bits(bits.take(8), order);
        lemma_bits_bytes_roundtrip(bits.skip(8), order);
        let bytes = bits_bytes(bits, order);
        assert(bytes[0] == b0 as u8);
        assert(bytes.drop_first() =~= bits_bytes(bits.skip(8), order));
        assert(bits.take(8) + bits.skip(8) =~= bits);
    }
}

/// `2^8 == 256`, and the other powers the byte-level proofs use.
pub proof fn lemma_pow2_8()
    ensures
        pow2(8) == 256,
        pow2(7) == 128,
        pow2(16) == 0x1_0000,
        pow2(15) == 0x8000,
        pow2(32) == 0x1_0000_0000,
        pow2(31) == 0x8000_0000,
        pow2(64) == 0x1_0000_0000_0000_0000,
        pow2(63) == 0x8000_0000_0000_0000,
{
    lemma2_to64();
    lemma2_to64_rest();
}

/// The bits of `bits_bytes` make up the leading whole bytes of the bits.
pub proof fn lemma_bits_bytes_concat(a: Seq<bool>, b: Seq<bool>, order: ByteOrder)
    requires
        a.len() % 8 == 0,
    ensures
        bits_bytes(a + b, order) == bits_bytes(a, order) + bits_bytes(b, order),
    decreases a.len(),
{
    if a.len() == 0 {
        assert(a + b =~= b);
        assert(bits_bytes(a, order) + bits_bytes(b, order) =~= bits_bytes(b, order));
    } else {
        lemma_bits_bytes_concat(a.skip(8), b, order);
        assert((a + b).take(8) =~= a.take(8));
        assert((a + b).skip(8) =~= a.skip(8) + b);
        let h = seq![bits_value(a.take(8), order) as u8];
        assert(h + (bits_bytes(a.skip(8), order) + bits_bytes(b, order)) =~= (h + bits_bytes(
            a.skip(8),
            order,
        )) + bits_bytes(b, order));
    }
}

/// Bits that start with the `n` bits of a value below `2^n` read back as that value.
pub proof fn lemma_uint_prefix(v: nat, n: nat, order: ByteOrder, rest: Seq<bool>)
    requires
        v < pow2(n),
    ensures
        (value_bits(v, n, order) + rest).len() >= n,
        (value_bits(v, n, order) + rest).take(n as int) == value_bits(v, n, order),
        bits_value((value_bits(v, n, order) + rest).take(n as int), order) == v,
        (value_bits(v, n, order) + rest).skip(n as int) == rest,
{
    lemma_value_bits_roundtrip(v, n, order);
    assert((value_bits(v, n, order) + rest).take(n as int) =~= value_bits(v, n, order));
    assert((value_bits(v, n, order) + rest).skip(n as int) =~= rest);
}

/// The two's complement value of an `n`-bit number lies in the signed range of `n` bits.
pub proof fn lemma_signed_value_range(u: nat, n: nat)
    requires
        n > 0,
        u < pow2(n),
    ensures
        fits_signed(signed_value(u, n), n),
        signed_repr(signed_value(u, n), n) == u,
{
    lemma_pow2_unfold(n);
    lemma_pow2_pos((n - 1) as nat);
}

/// A value in the signed range of `n` bits is read back from its representation.
pub proof fn lemma_signed_repr_roundtrip(v: int, n: nat)
    requires
        fits_signed(v, n),
    ensures
        signed_repr(v, n) < pow2(n),
        signed_value(signed_repr(v, n), n) == v,
{
    lemma_pow2_unfold(n);
    lemma_pow2_pos((n - 1) as nat);
}

/// The number that `bytes` stand for, base 256, in `order`: the first byte is the most
/// significant one for `BigEndian` and the least significant one for `LittleEndian`.
pub open spec fn bytes_value(bytes: Seq<u8>, order: ByteOrder) -> nat
    decreases bytes.len(),
{
    if bytes.len() == 0 {
        0
    } else {
        match order {
            ByteOrder::BigEndian => bytes[0] as nat * pow2((8 * (bytes.len() - 1)) as nat)
                + bytes_value(bytes.drop_first(), order),
            ByteOrder::LittleEndian => bytes[0] as nat + 256 * bytes_value(bytes.drop_first(), order),
        }
    }
}

/// Whole bytes of bits, packed into bytes, stand for the same number as the bits.
pub proof fn lemma_bits_bytes_value(bits: Seq<bool>, order: ByteOrder)
    requires
        bits.len() % 8 == 0,
    ensures
        bytes_value(bits_bytes(bits, order), order) == bits_value(bits, order),
        bits_bytes(bits, order).len() == bits.len() / 8,
    decreases bits.len(),
{
    lemma_bits_bytes_roundtrip(bits, order);
    if bits.len() > 0 {
        let head = bits.take(8);
        let tail = bits.skip(8);
        lemma_bits_bytes_value(tail, order);
        lemma_bits_value_bound(head, order);
        lemma_pow2_8();
        assert(head + tail =~= bits);
        lemma_bits_value_concat(head, tail, order);
        let bytes = bits_bytes(bits, order);
        assert(bytes.drop_first() =~= bits_bytes(tail, order));
        assert(bytes[0] as nat == bits_value(head, order));
        assert(8 * (bytes.len() - 1) == tail.len());
    }
}

/// What the byte orders mean: a value written in `8 * k` bits takes `k` bytes, which stand
/// for the value base 256 with the most significant byte first in `BigEndian` and the least
/// significant byte first in `LittleEndian`.
pub proof fn law_byte_order(v: nat, k: nat, order: ByteOrder)
    requires
        v < pow2(8 * k),
    ensures
        bits_bytes(value_bits(v, 8 * k, order), order).len() == k,
        bytes_value(bits_bytes(value_bits(v, 8 * k, order), order), order) == v,
{
    lemma_value_bits_roundtrip(v, 8 * k, order);
    lemma_bits_bytes_value(value_bits(v, 8 * k, order), order);
}

} // verus!
