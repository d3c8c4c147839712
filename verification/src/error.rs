use vstd::prelude::*;

verus! {

/// The error of `String::from_utf8`, held as it comes.
#[verifier::external_type_specification]
#[verifier::external_body]
pub struct ExFromUtf8Error(std::string::FromUtf8Error);

/// The errors of encoding and decoding.
#[derive(Debug)]
#[non_exhaustive]
pub enum Error {
    /// The stream failed: too few bits were left, or a bit count did not fit the type.
    Io(std::io::Error),
    /// Decoded bytes were not valid UTF-8.
    FromUtf8(std::string::FromUtf8Error),
    /// Room for decoded items could not be made.
    TryReserve(std::collections::TryReserveError),
    /// A number did not fit the type it was converted to.
    TryFromInt(core::num::TryFromIntError),
    /// An enum discriminant matched no variant.
    UnknownEnumDiscriminant(String),
    /// A tag could not be converted to what the field needs.
    TagConvert,
    /// A decoded list did not have the length of the slice it was to fill.
    SliceTryFromVec,
    /// Magic bytes were not the expected ones.
    Magic { expected: Vec<u8>, actual: Vec<u8> },
    /// Decoding a whole buffer stopped before its end.
    Underrun { read_bits: u64, available_bits: u64 },
    /// A value that may not be encoded.
    EncodeSkipped,
    /// Any other failure, described.
    Other(String),
}

/// A library result.
pub type Result<T> = core::result::Result<T, Error>;

} // verus!
