//! Values that carry a discriminant.
use vstd::prelude::*;

verus! {

/// A type whose values carry a discriminant, as the variants of an enum do.
pub trait Discriminable {
    /// The type of the discriminant.
    type Discriminant;

    /// The value that identifies the variant, or `None` where the variant cannot be encoded.
    fn discriminant(&self) -> Option<Self::Discriminant>;
}

} // verus!
