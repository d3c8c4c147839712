//! Bit streams over byte buffers, backed by `bitstream_io`'s readers and writers.
//!
//! A reader is seen as the bits that are left from its position to the end of its
//! buffer; a writer as every bit written to it so far.
use vstd::prelude::*;
use vstd::arithmetic::power2::*;
use std::io::Cursor;
use bitstream_io::{BigEndian, LittleEndian};
use crate::bits::{bits_bytes, bits_value, bytes_bits, lemma_bytes_bits_len, padding_len, value_bits, zero_bits};
use crate::byte_order::ByteOrder;
use crate::error::{Error, Result};

verus! {

#[verifier::external_type_specification]
#[verifier::external_body]
pub struct ExIoError(std::io::Error);

/// `bitstream_io`'s big-endian reader over an owned byte buffer.
#[verifier::external_body]
pub struct BigReader {
    inner: bitstream_io::BitReader<Cursor<Vec<u8>>, BigEndian>,
}

/// `bitstream_io`'s little-endian reader over an owned byte buffer.
#[verifier::external_body]
pub struct LittleReader {
    inner: bitstream_io::BitReader<Cursor<Vec<u8>>, LittleEndian>,
}

/// `bitstream_io`'s big-endian writer into a byte vector.
#[verifier::external_body]
pub struct BigWriter {
    inner: bitstream_io::BitWriter<Vec<u8>, BigEndian>,
}

/// `bitstream_io`'s little-endian writer into a byte vector.
#[verifier::external_body]
pub struct LittleWriter {
    inner: bitstream_io::BitWriter<Vec<u8>, LittleEndian>,
}

/// The bits that reads from a big-endian reader yield, from its position on.
pub uninterp spec fn big_reader_bits(
    r: BigReader,
) -> Seq<bool>;

/// The position, in bits, of a big-endian reader.
pub uninterp spec fn big_reader_pos(r: BigReader) -> nat;

/// The bits that reads from a little-endian reader yield, from its position on.
pub uninterp spec fn little_reader_bits(
    r: LittleReader,
) -> Seq<bool>;

/// The position, in bits, of a little-endian reader.
pub uninterp spec fn little_reader_pos(
    r: LittleReader,
) -> nat;

/// The bits up to the last whole byte.
pub open spec fn whole_bytes_bits(bits: Seq<bool>) -> Seq<bool> {
    bits.take(bits.len() - bits.len() % 8)
}

/// Every bit written so far to a big-endian writer.
pub uninterp spec fn big_writer_bits(w: BigWriter) -> Seq<bool>;

/// Every bit written so far to a little-endian writer.
pub uninterp spec fn little_writer_bits(
    w: LittleWriter,
) -> Seq<bool>;

/// `BitReader::endian(Cursor::new(bytes), BigEndian)`: a reader at position 0 whose bits
/// are those of the bytes, each byte most significant bit first.
#[verifier::external_body]
fn big_reader_new(bytes: Vec<u8>) -> (r: BigReader)
    ensures
        big_reader_bits(r) == bytes_bits(bytes@, ByteOrder::BigEndian),
        big_reader_pos(r) == 0,
{
    BigReader { inner: bitstream_io::BitReader::endian(Cursor::new(bytes), BigEndian) }
}

/// `BitReader::endian(Cursor::new(bytes), LittleEndian)`: a reader at position 0 whose bits
/// are those of the bytes, each byte least significant bit first.
#[verifier::external_body]
fn little_reader_new(bytes: Vec<u8>) -> (r: LittleReader)
    ensures
        little_reader_bits(r) == bytes_bits(bytes@, ByteOrder::LittleEndian),
        little_reader_pos(r) == 0,
{
    LittleReader { inner: bitstream_io::BitReader::endian(Cursor::new(bytes), LittleEndian) }
}

/// `BitRead::read_var::<u64>(bits)` on a big-endian reader. It succeeds exactly when
/// `bits <= 64` and that many bits are left; it then returns their value, most significant
/// bit first, and moves past them. Nothing is said of the reader after a failed read: it
/// may have taken bytes from its buffer without returning them.
#[verifier::external_body]
fn big_read_var(r: &mut BigReader, bits: u32) -> (res:
    std::io::Result<u64>)
    ensures
        res is Ok <==> (bits <= 64 && bits <= big_reader_bits(*old(r)).len()),
        res matches Ok(v) ==> {
            &&& v == bits_value(
                big_reader_bits(*old(r)).take(bits as int),
                ByteOrder::BigEndian,
            )
            &&& big_reader_bits(*final(r)) == big_reader_bits(*old(r)).skip(bits as int)
            &&& big_reader_pos(*final(r)) == big_reader_pos(*old(r)) + bits
        },
    no_unwind
{
    bitstream_io::BitRead::read_var::<u64>(&mut r.inner, bits)
}

/// `BitRead::read_var::<u64>(bits)` on a little-endian reader: as for big-endian, with the
/// first bit read the least significant one.
#[verifier::external_body]
fn little_read_var(r: &mut LittleReader, bits: u32) -> (res:
    std::io::Result<u64>)
    ensures
        res is Ok <==> (bits <= 64 && bits <= little_reader_bits(*old(r)).len()),
        res matches Ok(v) ==> {
            &&& v == bits_value(
                little_reader_bits(*old(r)).take(bits as int),
                ByteOrder::LittleEndian,
            )
            &&& little_reader_bits(*final(r)) == little_reader_bits(*old(r)).skip(bits as int)
            &&& little_reader_pos(*final(r)) == little_reader_pos(*old(r)) + bits
        },
    no_unwind
{
    bitstream_io::BitRead::read_var::<u64>(&mut r.inner, bits)
}

/// `BitReader::position_in_bits` on a big-endian reader over a cursor: the position, with
/// the reader left as it was (seeking a cursor by 0 does not fail).
#[verifier::external_body]
fn big_position(r: &mut BigReader) -> (res:
    std::io::Result<u64>)
    ensures
        res matches Ok(p) && p == big_reader_pos(*old(r)),
        big_reader_bits(*final(r)) == big_reader_bits(*old(r)),
        big_reader_pos(*final(r)) == big_reader_pos(*old(r)),
    no_unwind
{
    r.inner.position_in_bits()
}

/// `BitReader::position_in_bits` on a little-endian reader over a cursor.
#[verifier::external_body]
fn little_position(r: &mut LittleReader) -> (res:
    std::io::Result<u64>)
    ensures
        res matches Ok(p) && p == little_reader_pos(*old(r)),
        little_reader_bits(*final(r)) == little_reader_bits(*old(r)),
        little_reader_pos(*final(r)) == little_reader_pos(*old(r)),
    no_unwind
{
    r.inner.position_in_bits()
}

/// `BitWriter::endian(Vec::new(), BigEndian)`: a writer with nothing written.
#[verifier::external_body]
fn big_writer_new() -> (w: BigWriter)
    ensures
        big_writer_bits(w) == Seq::<bool>::empty(),
{
    BigWriter { inner: bitstream_io::BitWriter::endian(Vec::new(), BigEndian) }
}

/// `BitWriter::endian(Vec::new(), LittleEndian)`: a writer with nothing written.
#[verifier::external_body]
fn little_writer_new() -> (w: LittleWriter)
    ensures
        little_writer_bits(w) == Seq::<bool>::empty(),
{
    LittleWriter { inner: bitstream_io::BitWriter::endian(Vec::new(), LittleEndian) }
}

/// `BitWrite::write_var::<u64>(bits, value)` on a big-endian writer into a vector. It
/// succeeds exactly when `bits <= 64` and either `bits` is 0 (any value, nothing written)
/// or the value fits in `bits` bits; it then appends the value's `bits` low bits, most
/// significant first. Otherwise nothing is written.
#[verifier::external_body]
fn big_write_var(w: &mut BigWriter, bits: u32, value: u64) -> (res:
    std::io::Result<()>)
    ensures
        res is Ok <==> (bits <= 64 && (bits == 0 || value < pow2(bits as nat))),
        res is Ok ==> big_writer_bits(*final(w)) == big_writer_bits(*old(w)) + value_bits(
            value as nat,
            bits as nat,
            ByteOrder::BigEndian,
        ),
        res is Err ==> big_writer_bits(*final(w)) == big_writer_bits(*old(w)),
{
    bitstream_io::BitWrite::write_var::<u64>(&mut w.inner, bits, value)
}

/// `BitWrite::write_var::<u64>(bits, value)` on a little-endian writer into a vector: as for
/// big-endian, with the least significant bit written first.
#[verifier::external_body]
fn little_write_var(
    w: &mut LittleWriter,
    bits: u32,
    value: u64,
) -> (res: std::io::Result<()>)
    ensures
        res is Ok <==> (bits <= 64 && (bits == 0 || value < pow2(bits as nat))),
        res is Ok ==> little_writer_bits(*final(w)) == little_writer_bits(*old(w)) + value_bits(
            value as nat,
            bits as nat,
            ByteOrder::LittleEndian,
        ),
        res is Err ==> little_writer_bits(*final(w)) == little_writer_bits(*old(w)),
{
    bitstream_io::BitWrite::write_var::<u64>(&mut w.inner, bits, value)
}

/// `BitWrite::byte_align` on a big-endian writer into a vector: appends clear bits up to
/// the next byte boundary (writing to a vector does not fail).
#[verifier::external_body]
fn big_byte_align(w: &mut BigWriter) -> (res: std::io::Result<()>)
    ensures
        res is Ok,
        big_writer_bits(*final(w)) == big_writer_bits(*old(w)) + zero_bits(
            padding_len(big_writer_bits(*old(w)).len()),
        ),
{
    bitstream_io::BitWrite::byte_align(&mut w.inner)
}

/// `BitWrite::byte_align` on a little-endian writer into a vector.
#[verifier::external_body]
fn little_byte_align(w: &mut LittleWriter) -> (res:
    std::io::Result<()>)
    ensures
        res is Ok,
        little_writer_bits(*final(w)) == little_writer_bits(*old(w)) + zero_bits(
            padding_len(little_writer_bits(*old(w)).len()),
        ),
{
    bitstream_io::BitWrite::byte_align(&mut w.inner)
}

/// `BitWriter::into_writer` on a big-endian writer: the vector holds the written bits up to
/// the last whole byte, packed most significant bit first; the bits of a partial byte are
/// dropped.
#[verifier::external_body]
fn big_into_bytes(w: BigWriter) -> (bytes: Vec<u8>)
    ensures
        bytes@ == bits_bytes(whole_bytes_bits(big_writer_bits(w)), ByteOrder::BigEndian),
{
    w.inner.into_writer()
}

/// `BitWriter::into_writer` on a little-endian writer: the vector holds the written bits up
/// to the last whole byte, packed least significant bit first; the bits of a partial byte
/// are dropped.
#[verifier::external_body]
fn little_into_bytes(w: LittleWriter) -> (bytes: Vec<u8>)
    ensures
        bytes@ == bits_bytes(whole_bytes_bits(little_writer_bits(w)), ByteOrder::LittleEndian),
{
    w.inner.into_writer()
}

/// `std::io::Error::new(ErrorKind::InvalidInput, ..)`: the error that a read or write of
/// more bits than its type holds fails with.
#[verifier::external_body]
pub(crate) fn excessive_bits_error() -> std::io::Error {
    std::io::Error::new(std::io::ErrorKind::InvalidInput, "excessive bits for type")
}

/// `std::io::Error::from(ErrorKind::UnexpectedEof)`: the error of reading from a stream that
/// has nothing left.
#[verifier::external_body]
fn eof_error() -> std::io::Error
    no_unwind
{
    std::io::Error::from(std::io::ErrorKind::UnexpectedEof)
}

/// A vector holding the same bytes as `bytes`.
pub fn copy_bytes(bytes: &[u8]) -> (v: Vec<u8>)
    ensures
        v@ == bytes@,
{
    let mut v: Vec<u8> = Vec::with_capacity(bytes.len());
    let mut i: usize = 0;
    while i < bytes.len()
        invariant
            i <= bytes.len(),
            v@ == bytes@.take(i as int),
        decreases bytes.len() - i,
    {
        v.push(bytes[i]);
        i = i + 1;
        assert(v@ =~= bytes@.take(i as int));
    }
    assert(bytes@.take(i as int) =~= bytes@);
    v
}

/// `std::io::Error::from(ErrorKind::WriteZero)`: the error of writing past the end of a
/// fixed buffer.
#[verifier::external_body]
pub(crate) fn write_zero_error() -> std::io::Error {
    std::io::Error::from(std::io::ErrorKind::WriteZero)
}

/// Where a reader takes its bits from: a `bitstream_io` reader, or nothing once a read has
/// failed (the reader is dropped then, and the stream stands at its end).
enum Source {
    Big(BigReader),
    Little(LittleReader),
    Spent { order: ByteOrder, end: u64 },
}

impl Source {
    closed spec fn bits(&self) -> Seq<bool> {
        match *self {
            Source::Big(r) => big_reader_bits(r),
            Source::Little(r) => little_reader_bits(r),
            Source::Spent { .. } => Seq::empty(),
        }
    }

    closed spec fn position(&self) -> nat {
        match *self {
            Source::Big(r) => big_reader_pos(r),
            Source::Little(r) => little_reader_pos(r),
            Source::Spent { end, .. } => end as nat,
        }
    }

    closed spec fn order(&self) -> ByteOrder {
        match *self {
            Source::Big(_) => ByteOrder::BigEndian,
            Source::Little(_) => ByteOrder::LittleEndian,
            Source::Spent { order, .. } => order,
        }
    }

    /// Reads `n` bits. A failed read spends the source: its reader is dropped and it stands
    /// at the end, `total` bits in.
    fn read_var(&mut self, n: u32, total: u64) -> (res: std::io::Result<u64>)
        requires
            old(self).position() + old(self).bits().len() == total,
        ensures
            final(self).order() == old(self).order(),
            res is Ok <==> (n <= 64 && n <= old(self).bits().len()),
            res matches Ok(v) ==> {
                &&& v == bits_value(old(self).bits().take(n as int), old(self).order())
                &&& final(self).bits() == old(self).bits().skip(n as int)
                &&& final(self).position() == old(self).position() + n
            },
            res is Err ==> final(self).bits() == Seq::<bool>::empty() && final(self).position()
                == total,
        no_unwind
    {
        let order = match self {
            Source::Big(_) => ByteOrder::BigEndian,
            Source::Little(_) => ByteOrder::LittleEndian,
            Source::Spent { order, .. } => *order,
        };
        let r = match self {
            Source::Big(s) => big_read_var(s, n),
            Source::Little(s) => little_read_var(s, n),
            Source::Spent { .. } => {
                if n == 0 {
                    Ok(0)
                } else {
                    Err(eof_error())
                }
            },
        };
        match r {
            Ok(v) => Ok(v),
            Err(e) => {
                *self = Source::Spent { order, end: total };
                Err(e)
            },
        }
    }

    fn position_in_bits(&mut self) -> (res: std::io::Result<u64>)
        ensures
            res matches Ok(p) && p == old(self).position(),
            final(self).bits() == old(self).bits(),
            final(self).position() == old(self).position(),
            final(self).order() == old(self).order(),
        no_unwind
    {
        match self {
            Source::Big(s) => big_position(s),
            Source::Little(s) => little_position(s),
            Source::Spent { end, .. } => Ok(*end),
        }
    }
}

/// A bit reader over a byte buffer, in one byte order.
pub struct BitInput {
    source: Source,
    total_bits: u64,
}

impl BitInput {
    /// The bits left from the position to the end of the buffer.
    pub closed spec fn bits(&self) -> Seq<bool> {
        self.source.bits()
    }

    /// The number of bits read so far.
    pub closed spec fn position(&self) -> nat {
        self.source.position()
    }

    /// The byte order of the stream.
    pub closed spec fn order(&self) -> ByteOrder {
        self.source.order()
    }

    #[verifier::type_invariant]
    spec fn inv(&self) -> bool {
        self.position() + self.bits().len() == self.total_bits
    }

    /// Whether the reader has moved forward from `old`, keeping the rest of its bits.
    pub open spec fn advanced_from(&self, old: &BitInput) -> bool {
        &&& self.order() == old.order()
        &&& old.position() <= self.position()
        &&& self.bits() == old.bits().skip(self.position() - old.position())
        &&& self.position() + self.bits().len() == old.position() + old.bits().len()
    }

    /// Moving forward twice is moving forward.
    pub proof fn lemma_advanced_trans(a: &BitInput, b: &BitInput, c: &BitInput)
        requires
            b.advanced_from(a),
            c.advanced_from(b),
        ensures
            c.advanced_from(a),
    {
        assert(a.bits().skip(b.position() - a.position()).skip(c.position() - b.position())
            =~= a.bits().skip(c.position() - a.position()));
    }

    /// A reader that has not moved has the same bits.
    pub proof fn lemma_advanced_refl(a: &BitInput)
        ensures
            a.advanced_from(a),
    {
        assert(a.bits().skip(0) =~= a.bits());
    }

    /// A reader over `bytes` at position 0.
    pub fn new(bytes: &[u8], order: ByteOrder) -> (r: BitInput)
        requires
            bytes.len() * 8 <= u64::MAX,
        ensures
            r.bits() == bytes_bits(bytes@, order),
            r.position() == 0,
            r.order() == order,
    {
        let v = copy_bytes(bytes);
        proof {
            lemma_bytes_bits_len(bytes@, order);
        }
        let total_bits = (bytes.len() as u64) * 8;
        match order {
            ByteOrder::BigEndian => BitInput { source: Source::Big(big_reader_new(v)), total_bits },
            ByteOrder::LittleEndian => BitInput {
                source: Source::Little(little_reader_new(v)),
                total_bits,
            },
        }
    }

    /// The byte order of the stream.
    pub fn byte_order(&self) -> (o: ByteOrder)
        ensures
            o == self.order(),
    {
        match &self.source {
            Source::Big(_) => ByteOrder::BigEndian,
            Source::Little(_) => ByteOrder::LittleEndian,
            Source::Spent { order, .. } => *order,
        }
    }

    /// Reads `n` bits as an unsigned number. Fails exactly when `n > 64` or fewer than `n`
    /// bits are left; a failed read spends the stream, leaving it at its end.
    pub fn read_bits(&mut self, n: u32) -> (res: Result<u64>)
        ensures
            final(self).advanced_from(&*old(self)),
            res is Ok <==> (n <= 64 && n <= old(self).bits().len()),
            res matches Ok(v) ==> {
                &&& v == bits_value(old(self).bits().take(n as int), old(self).order())
                &&& final(self).position() == old(self).position() + n
            },
            res is Err ==> final(self).bits().len() == 0,
            res matches Err(e) ==> e is Io,
    {
        proof {
            use_type_invariant(&*self);
        }
        let total = self.total_bits;
        let r = Source::read_var(&mut self.source, n, total);
        proof {
            if r is Err {
                assert(old(self).bits().skip(old(self).bits().len() as int) =~= Seq::<bool>::empty());
            }
        }
        match r {
            Ok(v) => Ok(v),
            Err(e) => Err(Error::Io(e)),
        }
    }

    /// The number of bits read so far.
    pub fn position_in_bits(&mut self) -> (p: u64)
        ensures
            p == old(self).position(),
            final(self).bits() == old(self).bits(),
            final(self).position() == old(self).position(),
            final(self).order() == old(self).order(),
    {
        proof {
            use_type_invariant(&*self);
        }
        let r = Source::position_in_bits(&mut self.source);
        match r {
            Ok(p) => p,
            Err(_) => 0,
        }
    }

    /// The number of bits left.
    pub fn remaining_bits(&mut self) -> (n: u64)
        ensures
            n == old(self).bits().len(),
            final(self).bits() == old(self).bits(),
            final(self).position() == old(self).position(),
            final(self).order() == old(self).order(),
    {
        proof {
            use_type_invariant(&*self);
        }
        let p = self.position_in_bits();
        proof {
            use_type_invariant(&*self);
        }
        self.total_bits - p
    }
}

enum Sink {
    Big(BigWriter),
    Little(LittleWriter),
}

/// A bit writer into a growing byte buffer, in one byte order.
pub struct BitOutput {
    sink: Sink,
}

impl BitOutput {
    /// Every bit written so far.
    pub closed spec fn bits(&self) -> Seq<bool> {
        match self.sink {
            Sink::Big(w) => big_writer_bits(w),
            Sink::Little(w) => little_writer_bits(w),
        }
    }

    /// The byte order of the stream.
    pub closed spec fn order(&self) -> ByteOrder {
        match self.sink {
            Sink::Big(_) => ByteOrder::BigEndian,
            Sink::Little(_) => ByteOrder::LittleEndian,
        }
    }

    /// A writer with nothing written.
    pub fn new(order: ByteOrder) -> (w: BitOutput)
        ensures
            w.bits() == Seq::<bool>::empty(),
            w.order() == order,
    {
        match order {
            ByteOrder::BigEndian => BitOutput { sink: Sink::Big(big_writer_new()) },
            ByteOrder::LittleEndian => BitOutput { sink: Sink::Little(little_writer_new()) },
        }
    }

    /// The byte order of the stream.
    pub fn byte_order(&self) -> (o: ByteOrder)
        ensures
            o == self.order(),
    {
        match &self.sink {
            Sink::Big(_) => ByteOrder::BigEndian,
            Sink::Little(_) => ByteOrder::LittleEndian,
        }
    }

    /// Writes the `n` low bits of `value`. Fails, writing nothing, exactly when `n > 64` or
    /// `n > 0` and the value does not fit in `n` bits; with `n == 0` nothing is written,
    /// whatever the value.
    pub fn write_bits(&mut self, n: u32, value: u64) -> (res: Result<()>)
        ensures
            final(self).order() == old(self).order(),
            res is Ok <==> (n <= 64 && (n == 0 || value < pow2(n as nat))),
            res is Ok ==> final(self).bits() == old(self).bits() + value_bits(
                value as nat,
                n as nat,
                old(self).order(),
            ),
            res is Err ==> final(self).bits() == old(self).bits(),
            res matches Err(e) ==> e is Io,
    {
        let r = match &mut self.sink {
            Sink::Big(s) => big_write_var(s, n, value),
            Sink::Little(s) => little_write_var(s, n, value),
        };
        match r {
            Ok(()) => Ok(()),
            Err(e) => Err(Error::Io(e)),
        }
    }

    /// Pads with clear bits up to the next byte boundary.
    pub fn byte_align(&mut self)
        ensures
            final(self).order() == old(self).order(),
            final(self).bits() == old(self).bits() + zero_bits(padding_len(old(self).bits().len())),
    {
        let _ = match &mut self.sink {
            Sink::Big(s) => big_byte_align(s),
            Sink::Little(s) => little_byte_align(s),
        };
    }

    /// The bytes of the stream up to its last whole byte; the bits of a partial byte are
    /// dropped.
    pub fn into_bytes(self) -> (bytes: Vec<u8>)
        ensures
            bytes@ == bits_bytes(whole_bytes_bits(self.bits()), self.order()),
    {
        match self.sink {
            Sink::Big(s) => big_into_bytes(s),
            Sink::Little(s) => little_into_bytes(s),
        }
    }
}

} // verus!
