//! The decoding and encoding traits, and the helpers that run them over byte buffers.
use vstd::prelude::*;
use crate::model::Model;
use crate::bits::{
    bits_bytes, bytes_bits, lemma_bits_bytes_roundtrip, lemma_bytes_bits_len, padding_len, zero_bits,
};
use crate::byte_order::ByteOrder;
use crate::error::{Error, Result};
use crate::stream::{BitInput, BitOutput, write_zero_error};

verus! {

/// A marker for encoders that do not prepend their tag, and for decoders that usually take
/// a tag but can also read to the end of the stream.
pub struct Untagged;

/// A marker for decoders that need a tag, such as the length of a list or the presence of
/// an optional value.
pub struct Tag<T>(pub T);

/// A number that a [`Tag`] can carry as a count: converted to a `usize` where it fits.
pub trait TagCount: Sized {
    /// The count, where the number fits a `usize`.
    spec fn spec_count(self) -> Option<usize>;

    /// Converts the number to a count, or `None` where it does not fit a `usize`.
    fn count(self) -> (res: Option<usize>)
        ensures
            res == self.spec_count(),
    ;
}

impl TagCount for u8 {
    open spec fn spec_count(self) -> Option<usize> {
        if 0 <= self && self <= usize::MAX {
            Some(self as usize)
        } else {
            None
        }
    }

    fn count(self) -> (res: Option<usize>) {
        Some(self as usize)
    }
}

impl TagCount for u16 {
    open spec fn spec_count(self) -> Option<usize> {
        if 0 <= self && self <= usize::MAX {
            Some(self as usize)
        } else {
            None
        }
    }

    fn count(self) -> (res: Option<usize>) {
        Some(self as usize)
    }
}

impl TagCount for u32 {
    open spec fn spec_count(self) -> Option<usize> {
        if 0 <= self && self <= usize::MAX {
            Some(self as usize)
        } else {
            None
        }
    }

    fn count(self) -> (res: Option<usize>) {
        Some(self as usize)
    }
}

impl TagCount for u64 {
    open spec fn spec_count(self) -> Option<usize> {
        if 0 <= self && self <= usize::MAX {
            Some(self as usize)
        } else {
            None
        }
    }

    fn count(self) -> (res: Option<usize>) {
        if self <= usize::MAX as u64 {
            Some(self as usize)
        } else {
            None
        }
    }
}

impl TagCount for u128 {
    open spec fn spec_count(self) -> Option<usize> {
        if 0 <= self && self <= usize::MAX {
            Some(self as usize)
        } else {
            None
        }
    }

    fn count(self) -> (res: Option<usize>) {
        if self <= usize::MAX as u128 {
            Some(self as usize)
        } else {
            None
        }
    }
}

impl TagCount for usize {
    open spec fn spec_count(self) -> Option<usize> {
        if 0 <= self && self <= usize::MAX {
            Some(self as usize)
        } else {
            None
        }
    }

    fn count(self) -> (res: Option<usize>) {
        Some(self)
    }
}

impl TagCount for i8 {
    open spec fn spec_count(self) -> Option<usize> {
        if 0 <= self && self <= usize::MAX {
            Some(self as usize)
        } else {
            None
        }
    }

    fn count(self) -> (res: Option<usize>) {
        if self >= 0 {
            Some(self as usize)
        } else {
            None
        }
    }
}

impl TagCount for i16 {
    open spec fn spec_count(self) -> Option<usize> {
        if 0 <= self && self <= usize::MAX {
            Some(self as usize)
        } else {
            None
        }
    }

    fn count(self) -> (res: Option<usize>) {
        if self >= 0 {
            Some(self as usize)
        } else {
            None
        }
    }
}

impl TagCount for i32 {
    open spec fn spec_count(self) -> Option<usize> {
        if 0 <= self && self <= usize::MAX {
            Some(self as usize)
        } else {
            None
        }
    }

    fn count(self) -> (res: Option<usize>) {
        if self >= 0 {
            Some(self as usize)
        } else {
            None
        }
    }
}

impl TagCount for i64 {
    open spec fn spec_count(self) -> Option<usize> {
        if 0 <= self && self <= usize::MAX {
            Some(self as usize)
        } else {
            None
        }
    }

    fn count(self) -> (res: Option<usize>) {
        if 0 <= self && self as u64 <= usize::MAX as u64 {
            Some(self as usize)
        } else {
            None
        }
    }
}

impl TagCount for i128 {
    open spec fn spec_count(self) -> Option<usize> {
        if 0 <= self && self <= usize::MAX {
            Some(self as usize)
        } else {
            None
        }
    }

    fn count(self) -> (res: Option<usize>) {
        if 0 <= self && self <= usize::MAX as i128 {
            Some(self as usize)
        } else {
            None
        }
    }
}

impl TagCount for isize {
    open spec fn spec_count(self) -> Option<usize> {
        if 0 <= self && self <= usize::MAX {
            Some(self as usize)
        } else {
            None
        }
    }

    fn count(self) -> (res: Option<usize>) {
        if self >= 0 {
            Some(self as usize)
        } else {
            None
        }
    }
}

/// Whether `c` is the count that a tag holding the number `x` gives: `x` itself where it
/// fits a `usize`, and no count otherwise.
pub open spec fn is_count_of(c: Option<usize>, x: int) -> bool {
    if 0 <= x && x <= usize::MAX {
        c == Some(x as usize)
    } else {
        c is None
    }
}

/// A tag of any integer type counts its number, where that number fits a `usize`: a
/// negative number or one past `usize::MAX` is no count.
pub proof fn law_tag_counts(
    a: u8,
    b: u16,
    c: u32,
    d: u64,
    e: u128,
    f: usize,
    g: i8,
    h: i16,
    i: i32,
    j: i64,
    k: i128,
    l: isize,
)
    ensures
        is_count_of(a.spec_count(), a as int),
        is_count_of(b.spec_count(), b as int),
        is_count_of(c.spec_count(), c as int),
        is_count_of(d.spec_count(), d as int),
        is_count_of(e.spec_count(), e as int),
        is_count_of(f.spec_count(), f as int),
        is_count_of(g.spec_count(), g as int),
        is_count_of(h.spec_count(), h as int),
        is_count_of(i.spec_count(), i as int),
        is_count_of(j.spec_count(), j as int),
        is_count_of(k.spec_count(), k as int),
        is_count_of(l.spec_count(), l as int),
{
}

/// A marker for bitfields of `C` bits.
pub struct Bits<const C: u32>;

/// Bit-level decoding.
///
/// `Tg` says what the decoder is told besides the stream: `()` for nothing, [`Tag`] for a
/// length or a condition, [`Untagged`] for "up to the end", [`Bits`] for a bit width.
pub trait BitDecode<Ctx, Tg>: Sized + Model {
    /// What decoding from the front of `bits` gives: the value and the number of bits it
    /// takes, or `None` where decoding fails.
    spec fn spec_decode(bits: Seq<bool>, order: ByteOrder, tag: Tg) -> Option<(Self::V, nat)>;

    /// Whether `e` is an error that decoding from the front of `bits` fails with.
    spec fn spec_decode_error(bits: Seq<bool>, order: ByteOrder, tag: Tg, e: Error) -> bool;

    /// Reads a value from the stream.
    fn decode(read: &mut BitInput, ctx: &mut Ctx, tag: Tg) -> (res: Result<Self>)
        ensures
            final(read).advanced_from(&*old(read)),
            res is Ok <==> Self::spec_decode(old(read).bits(), old(read).order(), tag) is Some,
            res matches Ok(v) ==> Self::spec_decode(old(read).bits(), old(read).order(), tag)
                == Some((v.model(), (final(read).position() - old(read).position()) as nat)),
            res matches Err(e) ==> Self::spec_decode_error(
                old(read).bits(),
                old(read).order(),
                tag,
                e,
            ),
    ;
}

/// Bit-level encoding.
///
/// `Tg` says how the value is written: `()` with whatever prefix it needs, [`Untagged`]
/// without its length or condition, [`Bits`] in a bitfield.
pub trait BitEncode<Ctx, Tg>: Model {
    /// The bits that encode the value `v`, or `None` where it cannot be encoded.
    spec fn spec_encode(v: Self::V, order: ByteOrder, tag: Tg) -> Option<Seq<bool>>;

    /// Whether `e` is an error that encoding the value `v` fails with.
    spec fn spec_encode_error(v: Self::V, order: ByteOrder, tag: Tg, e: Error) -> bool;

    /// Writes the value to the stream. On failure, what was written so far stays written.
    fn encode(&self, write: &mut BitOutput, ctx: &mut Ctx, tag: Tg) -> (res: Result<()>)
        ensures
            final(write).order() == old(write).order(),
            res is Ok <==> Self::spec_encode(self.model(), old(write).order(), tag) is Some,
            res is Ok ==> final(write).bits() == old(write).bits() + Self::spec_encode(
                self.model(),
                old(write).order(),
                tag,
            ).unwrap(),
            res matches Err(e) ==> Self::spec_encode_error(self.model(), old(write).order(), tag, e),
    ;
}

/// The round-trip property of a value: it can be encoded, and decoding its bits followed by
/// any others gives it back and stops where its bits end.
pub open spec fn roundtrips<T, Te, Td>(v: T::V, order: ByteOrder, te: Te, td: Td) -> bool where
    T: BitEncode<(), Te> + BitDecode<(), Td>,
 {
    &&& T::spec_encode(v, order, te) is Some
    &&& forall|rest: Seq<bool>|
        #[trigger] T::spec_decode(T::spec_encode(v, order, te).unwrap() + rest, order, td) == Some(
            (v, T::spec_encode(v, order, te).unwrap().len()),
        )
}

/// The bits of an encoding padded with clear bits to a whole number of bytes.
pub open spec fn padded(bits: Seq<bool>) -> Seq<bool> {
    bits + zero_bits(padding_len(bits.len()))
}

/// The bytes that hold an encoding, padded to a byte boundary.
pub open spec fn encoded_bytes(bits: Seq<bool>, order: ByteOrder) -> Seq<u8> {
    bits_bytes(padded(bits), order)
}

/// Decoding from byte buffers.
pub trait BitDecodeExt: Sized {
    /// Decodes a value from the front of a byte buffer, with a context and a tag.
    ///
    /// Returns the value and the number of bits read.
    fn decode_bytes_ctx<Ctx, Tg>(bytes: &[u8], order: ByteOrder, ctx: &mut Ctx, tag: Tg) -> (res:
        Result<(Self, u64)>) where Self: BitDecode<Ctx, Tg>
        requires
            bytes.len() * 8 <= u64::MAX,
        ensures
            res is Ok <==> Self::spec_decode(bytes_bits(bytes@, order), order, tag) is Some,
            res matches Ok((v, n)) ==> Self::spec_decode(bytes_bits(bytes@, order), order, tag)
                == Some((v.model(), n as nat)),
            res matches Ok((_, n)) ==> n <= 8 * bytes.len(),
            res matches Err(e) ==> Self::spec_decode_error(bytes_bits(bytes@, order), order, tag, e),
    {
        proof {
            lemma_bytes_bits_len(bytes@, order);
        }
        let mut read = BitInput::new(bytes, order);
        let v = Self::decode(&mut read, ctx, tag)?;
        let n = read.position_in_bits();
        Ok((v, n))
    }

    /// Decodes a value that takes up the whole byte buffer, with a context and a tag.
    ///
    /// Fails with [`Error::Underrun`] when the value ends before the buffer does.
    fn decode_all_bytes_ctx<Ctx, Tg>(bytes: &[u8], order: ByteOrder, ctx: &mut Ctx, tag: Tg) -> (res:
        Result<Self>) where Self: BitDecode<Ctx, Tg>
        requires
            bytes.len() * 8 <= u64::MAX,
        ensures
            res is Ok <==> (Self::spec_decode(bytes_bits(bytes@, order), order, tag) matches Some(
                (_, n),
            ) && n == 8 * bytes.len()),
            res matches Ok(v) ==> Self::spec_decode(bytes_bits(bytes@, order), order, tag) == Some(
                (v.model(), (8 * bytes.len()) as nat),
            ),
            Self::spec_decode(bytes_bits(bytes@, order), order, tag) matches Some((_, n)) ==> (n != 8
                * bytes.len() ==> (res matches Err(Error::Underrun { read_bits, available_bits })
                && read_bits == n && available_bits == 8 * bytes.len())),
            Self::spec_decode(bytes_bits(bytes@, order), order, tag) is None ==> (res matches Err(e)
                && Self::spec_decode_error(bytes_bits(bytes@, order), order, tag, e)),
    {
        let (decoded, read_bits) = Self::decode_bytes_ctx(bytes, order, ctx, tag)?;
        let available_bits = (bytes.len() as u64) * 8;
        if read_bits == available_bits {
            Ok(decoded)
        } else {
            Err(Error::Underrun { read_bits, available_bits })
        }
    }

    /// Decodes a value from the front of a byte buffer.
    ///
    /// Returns the value and the number of bits read.
    fn decode_bytes(bytes: &[u8], order: ByteOrder) -> (res: Result<(Self, u64)>) where
        Self: BitDecode<(), ()>,
        requires
            bytes.len() * 8 <= u64::MAX,
        ensures
            res is Ok <==> Self::spec_decode(bytes_bits(bytes@, order), order, ()) is Some,
            res matches Ok((v, n)) ==> Self::spec_decode(bytes_bits(bytes@, order), order, ())
                == Some((v.model(), n as nat)),
            res matches Ok((_, n)) ==> n <= 8 * bytes.len(),
            res matches Err(e) ==> Self::spec_decode_error(bytes_bits(bytes@, order), order, (), e),
    {
        Self::decode_bytes_ctx(bytes, order, &mut (), ())
    }

    /// Decodes a value that takes up the whole byte buffer.
    fn decode_all_bytes(bytes: &[u8], order: ByteOrder) -> (res: Result<Self>) where
        Self: BitDecode<(), ()>,
        requires
            bytes.len() * 8 <= u64::MAX,
        ensures
            res is Ok <==> (Self::spec_decode(bytes_bits(bytes@, order), order, ()) matches Some(
                (_, n),
            ) && n == 8 * bytes.len()),
            res matches Ok(v) ==> Self::spec_decode(bytes_bits(bytes@, order), order, ()) == Some(
                (v.model(), (8 * bytes.len()) as nat),
            ),
            Self::spec_decode(bytes_bits(bytes@, order), order, ()) matches Some((_, n)) ==> (n != 8
                * bytes.len() ==> (res matches Err(Error::Underrun { read_bits, available_bits })
                && read_bits == n && available_bits == 8 * bytes.len())),
            Self::spec_decode(bytes_bits(bytes@, order), order, ()) is None ==> (res matches Err(e)
                && Self::spec_decode_error(bytes_bits(bytes@, order), order, (), e)),
    {
        Self::decode_all_bytes_ctx(bytes, order, &mut (), ())
    }
}

impl<T> BitDecodeExt for T {

}

/// Encoding into byte buffers.
pub trait BitEncodeExt {
    /// The bytes of this value, encoded with a context and a tag and padded with clear bits
    /// to a byte boundary.
    fn encode_bytes_ctx<Ctx, Tg>(&self, order: ByteOrder, ctx: &mut Ctx, tag: Tg) -> (res: Result<
        Vec<u8>,
    >) where Self: BitEncode<Ctx, Tg>
        ensures
            res is Ok <==> Self::spec_encode(self.model(), order, tag) is Some,
            res matches Ok(bytes) ==> bytes@ == encoded_bytes(
                Self::spec_encode(self.model(), order, tag).unwrap(),
                order,
            ),
            res matches Err(e) ==> Self::spec_encode_error(self.model(), order, tag, e),
    {
        let mut write = BitOutput::new(order);
        self.encode(&mut write, ctx, tag)?;
        write.byte_align();
        proof {
            lemma_padded_len(Self::spec_encode(self.model(), order, tag).unwrap());
            assert(write.bits().take(write.bits().len() as int) =~= write.bits());
        }
        Ok(write.into_bytes())
    }

    /// Fills the front of `buf` with the bytes of this value, encoded with a context and a
    /// tag and padded to a byte boundary, and returns how many bytes that is.
    ///
    /// When the bytes do not fit, as many as fit are written and an I/O error is returned.
    /// When the value cannot be encoded, the whole bytes written before the failure stay
    /// written, as far as they fit, and the encoding's error is returned, or an I/O error
    /// where those bytes did not all fit.
    fn encode_bytes_ctx_buf<Ctx, Tg>(
        &self,
        buf: &mut [u8],
        order: ByteOrder,
        ctx: &mut Ctx,
        tag: Tg,
    ) -> (res: Result<u64>) where Self: BitEncode<Ctx, Tg>
        ensures
            final(buf)@.len() == old(buf)@.len(),
            Self::spec_encode(self.model(), order, tag) is None ==> (res matches Err(e) && (
            Self::spec_encode_error(self.model(), order, tag, e) || e is Io)),
            Self::spec_encode(self.model(), order, tag) matches Some(bits) ==> {
                let bytes = encoded_bytes(bits, order);
                &&& res is Ok <==> bytes.len() <= old(buf)@.len()
                &&& res matches Ok(n) ==> n == bytes.len() && final(buf)@ == bytes + old(
                    buf,
                )@.skip(bytes.len() as int)
                &&& res matches Err(e) ==> e is Io && final(buf)@ == bytes.take(
                    old(buf)@.len() as int,
                )
            },
    {
        let mut write = BitOutput::new(order);
        match self.encode(&mut write, ctx, tag) {
            Ok(()) => {
                write.byte_align();
                proof {
                    lemma_padded_len(Self::spec_encode(self.model(), order, tag).unwrap());
                    assert(write.bits().take(write.bits().len() as int) =~= write.bits());
                }
                let bytes = write.into_bytes();
                if copy_prefix(buf, &bytes) {
                    assert(buf@ =~= bytes@ + old(buf)@.skip(bytes@.len() as int));
                    Ok(bytes.len() as u64)
                } else {
                    assert(buf@ =~= bytes@.take(buf@.len() as int));
                    Err(Error::Io(write_zero_error()))
                }
            },
            Err(e) => {
                let bytes = write.into_bytes();
                if copy_prefix(buf, &bytes) {
                    Err(e)
                } else {
                    Err(Error::Io(write_zero_error()))
                }
            },
        }
    }

    /// The bytes of this value, padded with clear bits to a byte boundary.
    fn encode_bytes(&self, order: ByteOrder) -> (res: Result<Vec<u8>>) where
        Self: BitEncode<(), ()>,
        ensures
            res is Ok <==> Self::spec_encode(self.model(), order, ()) is Some,
            res matches Ok(bytes) ==> bytes@ == encoded_bytes(
                Self::spec_encode(self.model(), order, ()).unwrap(),
                order,
            ),
            res matches Err(e) ==> Self::spec_encode_error(self.model(), order, (), e),
    {
        self.encode_bytes_ctx(order, &mut (), ())
    }

    /// Fills the front of `buf` with the bytes of this value and returns how many bytes
    /// that is, as [`BitEncodeExt::encode_bytes_ctx_buf`] does.
    fn encode_bytes_buf(&self, buf: &mut [u8], order: ByteOrder) -> (res: Result<u64>) where
        Self: BitEncode<(), ()>,
        ensures
            final(buf)@.len() == old(buf)@.len(),
            Self::spec_encode(self.model(), order, ()) is None ==> (res matches Err(e) && (
            Self::spec_encode_error(self.model(), order, (), e) || e is Io)),
            Self::spec_encode(self.model(), order, ()) matches Some(bits) ==> {
                let bytes = encoded_bytes(bits, order);
                &&& res is Ok <==> bytes.len() <= old(buf)@.len()
                &&& res matches Ok(n) ==> n == bytes.len() && final(buf)@ == bytes + old(
                    buf,
                )@.skip(bytes.len() as int)
                &&& res matches Err(e) ==> e is Io && final(buf)@ == bytes.take(
                    old(buf)@.len() as int,
                )
            },
    {
        self.encode_bytes_ctx_buf(buf, order, &mut (), ())
    }
}

impl<T: ?Sized> BitEncodeExt for T {

}

/// Copies as many of `bytes` as fit to the front of `buf`, and says whether all of them did.
fn copy_prefix(buf: &mut [u8], bytes: &Vec<u8>) -> (fits: bool)
    ensures
        fits == (bytes@.len() <= old(buf)@.len()),
        final(buf)@.len() == old(buf)@.len(),
        fits ==> final(buf)@ == bytes@ + old(buf)@.skip(bytes@.len() as int),
        !fits ==> final(buf)@ == bytes@.take(old(buf)@.len() as int),
{
    let n = if bytes.len() <= buf.len() {
        bytes.len()
    } else {
        buf.len()
    };
    let mut i: usize = 0;
    while i < n
        invariant
            n <= bytes.len(),
            n <= buf@.len(),
            n == bytes.len() || n == buf@.len(),
            i <= n,
            buf@.len() == old(buf)@.len(),
            buf@ == bytes@.take(i as int) + old(buf)@.skip(i as int),
        decreases n - i,
    {
        buf[i] = bytes[i];
        i = i + 1;
        assert(buf@ =~= bytes@.take(i as int) + old(buf)@.skip(i as int));
    }
    proof {
        if bytes@.len() <= old(buf)@.len() {
            assert(bytes@.take(n as int) =~= bytes@);
        } else {
            assert(buf@ =~= bytes@.take(old(buf)@.len() as int));
        }
    }
    bytes.len() <= buf.len()
}

/// A padded encoding is a whole number of bytes.
pub proof fn lemma_padded_len(bits: Seq<bool>)
    ensures
        padded(bits).len() % 8 == 0,
        padded(bits).len() == bits.len() + padding_len(bits.len()),
        padding_len(bits.len()) < 8,
{
}

/// Decoding the bytes that `encode_bytes` gives for a value that round-trips yields the
/// value, having read exactly the bits of its encoding; when the encoding is a whole number
/// of bytes, it takes up the whole buffer, so `decode_all_bytes` succeeds on it.
pub proof fn law_bytes_roundtrip<T, Te, Td>(v: T::V, order: ByteOrder, te: Te, td: Td) where
    T: BitEncode<(), Te> + BitDecode<(), Td>,

    requires
        roundtrips::<T, Te, Td>(v, order, te, td),
    ensures
        ({
            let b = T::spec_encode(v, order, te).unwrap();
            let bytes = encoded_bytes(b, order);
            &&& T::spec_decode(bytes_bits(bytes, order), order, td) == Some((v, b.len()))
            &&& b.len() % 8 == 0 ==> 8 * bytes.len() == b.len()
        }),
{
    let b = T::spec_encode(v, order, te).unwrap();
    lemma_padded_len(b);
    lemma_bits_bytes_roundtrip(padded(b), order);
    assert(T::spec_decode(b + zero_bits(padding_len(b.len())), order, td) == Some((v, b.len())));
}

} // verus!
