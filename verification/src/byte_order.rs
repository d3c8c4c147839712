use vstd::prelude::*;

verus! {

/// Endianness.
///
/// On a bit stream it decides two things: the order in which the bits of each byte are
/// visited (most significant first for `BigEndian`, least significant first for
/// `LittleEndian`), and the order of the bytes of a multi-byte value.
#[derive(Copy, Clone, Debug, PartialEq, Eq, Structural, PartialOrd, Ord, Hash)]
pub enum ByteOrder {
    /// Least significant byte first.
    LittleEndian,
    /// Most significant byte first.
    BigEndian,
}

impl ByteOrder {
    /// Whether this is `BigEndian`.
    pub fn is_big_endian(&self) -> (res: bool)
        ensures
            res == (*self == ByteOrder::BigEndian),
    {
        match self {
            ByteOrder::BigEndian => true,
            ByteOrder::LittleEndian => false,
        }
    }
}

} // verus!
