//! The byte-order-at-run-time interface: values read from and written to streams whose byte
//! order is chosen when the stream is made.
use vstd::prelude::*;
use crate::model::Model;
use crate::bits::bytes_bits;
use crate::byte_order::ByteOrder;
use crate::codec::{BitDecode, BitEncode, encoded_bytes, lemma_padded_len};
use crate::error::{Error, Result};
use crate::stream::{BitInput, BitOutput};

verus! {

/// Reading a value from a stream of a given byte order.
pub trait ProtocolRead<Ctx>: Sized + Model {
    /// What reading from the front of `bits`, a stream of bit order `stream`, with the byte
    /// order `byte_order`, gives: the value and the number of bits it takes, or `None` where
    /// reading fails.
    spec fn spec_read(bits: Seq<bool>, stream: ByteOrder, byte_order: ByteOrder) -> Option<
        (Self::V, nat),
    >;

    /// Whether `e` is an error that reading from the front of `bits` fails with.
    spec fn spec_read_error(bits: Seq<bool>, stream: ByteOrder, byte_order: ByteOrder, e: Error) -> bool;

    /// Reads a value from a stream, with the given byte order.
    fn read(read: &mut BitInput, byte_order: ByteOrder, ctx: &mut Ctx) -> (res: Result<Self>)
        ensures
            final(read).advanced_from(&*old(read)),
            res is Ok <==> Self::spec_read(old(read).bits(), old(read).order(), byte_order) is Some,
            res matches Ok(v) ==> Self::spec_read(old(read).bits(), old(read).order(), byte_order) == Some(
                (v.model(), (final(read).position() - old(read).position()) as nat),
            ),
            res matches Err(e) ==> Self::spec_read_error(
                old(read).bits(),
                old(read).order(),
                byte_order,
                e,
            ),
    ;

    /// Reads a value from the front of a byte buffer, with a context.
    fn from_bytes_ctx(bytes: &[u8], byte_order: ByteOrder, ctx: &mut Ctx) -> (res: Result<Self>)
        requires
            bytes.len() * 8 <= u64::MAX,
        ensures
            res is Ok <==> Self::spec_read(bytes_bits(bytes@, byte_order), byte_order, byte_order) is Some,
            res matches Ok(v) ==> Self::spec_read(bytes_bits(bytes@, byte_order), byte_order, byte_order) matches Some(
                (w, _),
            ) && w == v.model(),
            res matches Err(e) ==> Self::spec_read_error(
                bytes_bits(bytes@, byte_order),
                byte_order,
                byte_order,
                e,
            ),
    {
        let mut read = BitInput::new(bytes, byte_order);
        Self::read(&mut read, byte_order, ctx)
    }
}

/// Writing a value to a stream of a given byte order.
pub trait ProtocolWrite<Ctx>: Model {
    /// The bits that write the value `v` into a stream of bit order `stream`, with the byte
    /// order `byte_order`, or `None` where it cannot be written.
    spec fn spec_write(v: Self::V, stream: ByteOrder, byte_order: ByteOrder) -> Option<Seq<bool>>;

    /// Whether `e` is an error that writing the value `v` fails with.
    spec fn spec_write_error(v: Self::V, stream: ByteOrder, byte_order: ByteOrder, e: Error) -> bool;

    /// Writes the value to a stream, with the given byte order.
    fn write(&self, write: &mut BitOutput, byte_order: ByteOrder, ctx: &mut Ctx) -> (res: Result<()>)
        ensures
            final(write).order() == old(write).order(),
            res is Ok <==> Self::spec_write(self.model(), old(write).order(), byte_order) is Some,
            res is Ok ==> final(write).bits() == old(write).bits() + Self::spec_write(
                self.model(),
                old(write).order(),
                byte_order,
            ).unwrap(),
            res matches Err(e) ==> Self::spec_write_error(
                self.model(),
                old(write).order(),
                byte_order,
                e,
            ),
    ;

    /// The bytes of this value, with a context, padded with clear bits to a byte boundary.
    fn bytes_ctx(&self, byte_order: ByteOrder, ctx: &mut Ctx) -> (res: Result<Vec<u8>>)
        ensures
            res is Ok <==> Self::spec_write(self.model(), byte_order, byte_order) is Some,
            res matches Ok(bytes) ==> bytes@ == encoded_bytes(
                Self::spec_write(self.model(), byte_order, byte_order).unwrap(),
                byte_order,
            ),
            res matches Err(e) ==> Self::spec_write_error(self.model(), byte_order, byte_order, e),
    {
        let mut write = BitOutput::new(byte_order);
        self.write(&mut write, byte_order, ctx)?;
        write.byte_align();
        proof {
            lemma_padded_len(Self::spec_write(self.model(), byte_order, byte_order).unwrap());
            assert(write.bits().take(write.bits().len() as int) =~= write.bits());
        }
        Ok(write.into_bytes())
    }
}

/// Every type that decodes without a tag reads as it decodes, in the stream's order.
impl<Ctx, T: BitDecode<Ctx, ()>> ProtocolRead<Ctx> for T {
    open spec fn spec_read(bits: Seq<bool>, stream: ByteOrder, byte_order: ByteOrder) -> Option<
        (T::V, nat),
    > {
        T::spec_decode(bits, stream, ())
    }

    open spec fn spec_read_error(bits: Seq<bool>, stream: ByteOrder, byte_order: ByteOrder, e: Error) -> bool {
        T::spec_decode_error(bits, stream, (), e)
    }

    fn read(read: &mut BitInput, byte_order: ByteOrder, ctx: &mut Ctx) -> (res: Result<T>) {
        T::decode(read, ctx, ())
    }
}

/// Every type that encodes without a tag writes as it encodes, in the stream's order.
impl<Ctx, T: BitEncode<Ctx, ()>> ProtocolWrite<Ctx> for T {
    open spec fn spec_write(v: T::V, stream: ByteOrder, byte_order: ByteOrder) -> Option<Seq<bool>> {
        T::spec_encode(v, stream, ())
    }

    open spec fn spec_write_error(v: T::V, stream: ByteOrder, byte_order: ByteOrder, e: Error) -> bool {
        T::spec_encode_error(v, stream, (), e)
    }

    fn write(&self, write: &mut BitOutput, byte_order: ByteOrder, ctx: &mut Ctx) -> (res: Result<()>) {
        self.encode(write, ctx, ())
    }
}

/// Reading and writing without a context.
pub trait ProtocolNoCtx: ProtocolRead<()> + ProtocolWrite<()> {
    /// Reads a value from the front of a byte buffer.
    fn from_bytes(bytes: &[u8], byte_order: ByteOrder) -> (res: Result<Self>)
        requires
            bytes.len() * 8 <= u64::MAX,
        ensures
            res is Ok <==> Self::spec_read(bytes_bits(bytes@, byte_order), byte_order, byte_order) is Some,
            res matches Ok(v) ==> Self::spec_read(bytes_bits(bytes@, byte_order), byte_order, byte_order) matches Some(
                (w, _),
            ) && w == v.model(),
            res matches Err(e) ==> Self::spec_read_error(
                bytes_bits(bytes@, byte_order),
                byte_order,
                byte_order,
                e,
            ),
    {
        Self::from_bytes_ctx(bytes, byte_order, &mut ())
    }

    /// The bytes of this value, padded with clear bits to a byte boundary.
    fn bytes(&self, byte_order: ByteOrder) -> (res: Result<Vec<u8>>)
        ensures
            res is Ok <==> Self::spec_write(self.model(), byte_order, byte_order) is Some,
            res matches Ok(bytes) ==> bytes@ == encoded_bytes(
                Self::spec_write(self.model(), byte_order, byte_order).unwrap(),
                byte_order,
            ),
            res matches Err(e) ==> Self::spec_write_error(self.model(), byte_order, byte_order, e),
    {
        self.bytes_ctx(byte_order, &mut ())
    }
}

impl<T: ProtocolRead<()> + ProtocolWrite<()>> ProtocolNoCtx for T {

}

} // verus!
