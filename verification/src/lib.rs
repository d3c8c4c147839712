//! Simple & fast bit-level binary co/dec.

use vstd::prelude::*;

pub mod attr;
pub mod bits;
pub mod byte_order;
pub mod codec;
pub mod discriminable;
pub mod error;
pub mod impls;
pub mod model;
pub mod ordered;
pub mod plan;
pub mod protocol;
pub mod stream;

pub use attr::{AttrError, AttrItem, AttrKind, AttrName, Attrs};
pub use byte_order::ByteOrder;
pub use codec::{BitDecode, BitDecodeExt, BitEncode, BitEncodeExt, Bits, Tag, TagCount, Untagged};
pub use discriminable::Discriminable;
pub use model::Model;
pub use error::{Error, Result};
pub use protocol::{ProtocolNoCtx, ProtocolRead, ProtocolWrite};
pub use stream::{BitInput, BitOutput};

verus! {

/// `flexible_array_member` and `tag` on one field are refused: reading those attributes
/// fails with the error for attributes that exclude each other.
pub fn compile_fail_if_multiple_exclusive_attrs() -> (refused: bool)
    ensures
        refused,
{
    let items: Vec<AttrItem<u8>> = vec![
        AttrItem { name: Some(AttrName::FlexibleArrayMember), value: None },
        AttrItem { name: Some(AttrName::Tag), value: Some(0u8) },
    ];
    let res = Attrs::parse(items, Some(AttrKind::Field));
    proof {
        reveal_with_fuel(attr::first_error, 3);
        reveal_with_fuel(attr::collect, 3);
    }
    matches!(res, Err(AttrError::ExclusiveLayout))
}

/// A discriminant that does not fit its bitfield is refused: writing the value 2 in a field
/// of one bit fails.
pub fn compile_fail_if_discriminant_wont_fit() -> (refused: bool)
    ensures
        refused,
{
    let mut write = BitOutput::new(ByteOrder::BigEndian);
    let discriminant: u8 = 2;
    let res = <u8 as BitEncode<(), Bits<1>>>::encode(&discriminant, &mut write, &mut (), Bits::<1>);
    proof {
        vstd::arithmetic::power2::lemma2_to64();
    }
    res.is_err()
}

} // verus!
