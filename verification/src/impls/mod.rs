//! Decoding and encoding of the standard types.

pub mod numerics;
pub mod list;
pub mod option;
pub mod size;
pub mod string;
pub mod tuple;
pub mod container;
pub mod array;
