//! The mathematical value that a decoded or encoded value stands for. Numbers, `bool` and
//! `()` stand for themselves; containers stand for the values of what they hold.
use vstd::prelude::*;
use std::collections::VecDeque;
use std::marker::PhantomData;
use std::rc::Rc;
use std::sync::Arc;

verus! {

/// A type whose values stand for mathematical values, which contracts speak of.
pub trait Model {
    /// The type of the values that values of `Self` stand for.
    type V;

    /// The value that `self` stands for.
    spec fn model(&self) -> Self::V;
}

impl Model for u8 {
    type V = u8;

    open spec fn model(&self) -> u8 {
        *self
    }
}

impl Model for u16 {
    type V = u16;

    open spec fn model(&self) -> u16 {
        *self
    }
}

impl Model for u32 {
    type V = u32;

    open spec fn model(&self) -> u32 {
        *self
    }
}

impl Model for u64 {
    type V = u64;

    open spec fn model(&self) -> u64 {
        *self
    }
}

impl Model for u128 {
    type V = u128;

    open spec fn model(&self) -> u128 {
        *self
    }
}

impl Model for usize {
    type V = usize;

    open spec fn model(&self) -> usize {
        *self
    }
}

impl Model for i8 {
    type V = i8;

    open spec fn model(&self) -> i8 {
        *self
    }
}

impl Model for i16 {
    type V = i16;

    open spec fn model(&self) -> i16 {
        *self
    }
}

impl Model for i32 {
    type V = i32;

    open spec fn model(&self) -> i32 {
        *self
    }
}

impl Model for i64 {
    type V = i64;

    open spec fn model(&self) -> i64 {
        *self
    }
}

impl Model for i128 {
    type V = i128;

    open spec fn model(&self) -> i128 {
        *self
    }
}

impl Model for isize {
    type V = isize;

    open spec fn model(&self) -> isize {
        *self
    }
}

impl Model for bool {
    type V = bool;

    open spec fn model(&self) -> bool {
        *self
    }
}

impl Model for () {
    type V = ();

    open spec fn model(&self) -> () {
        *self
    }
}

impl Model for String {
    type V = Seq<char>;

    open spec fn model(&self) -> Seq<char> {
        self@
    }
}

impl Model for str {
    type V = Seq<char>;

    open spec fn model(&self) -> Seq<char> {
        self@
    }
}

impl<T: Model> Model for Vec<T> {
    type V = Seq<T::V>;

    open spec fn model(&self) -> Seq<T::V> {
        Seq::new(self@.len(), |i: int| self@[i].model())
    }
}

impl<T: Model> Model for VecDeque<T> {
    type V = Seq<T::V>;

    open spec fn model(&self) -> Seq<T::V> {
        Seq::new(self@.len(), |i: int| self@[i].model())
    }
}

impl<T: Model> Model for [T] {
    type V = Seq<T::V>;

    open spec fn model(&self) -> Seq<T::V> {
        Seq::new(self@.len(), |i: int| self@[i].model())
    }
}

impl<T: Model, const N: usize> Model for [T; N] {
    type V = Seq<T::V>;

    open spec fn model(&self) -> Seq<T::V> {
        Seq::new(self@.len(), |i: int| self@[i].model())
    }
}

impl<T: Model + ?Sized> Model for Box<T> {
    type V = T::V;

    open spec fn model(&self) -> T::V {
        (**self).model()
    }
}

impl<T: Model> Model for Rc<T> {
    type V = T::V;

    open spec fn model(&self) -> T::V {
        (**self).model()
    }
}

impl<T: Model> Model for Arc<T> {
    type V = T::V;

    open spec fn model(&self) -> T::V {
        (**self).model()
    }
}

impl<'a, T: Model + ?Sized> Model for &'a T {
    type V = T::V;

    open spec fn model(&self) -> T::V {
        (**self).model()
    }
}

impl<T: Model> Model for Option<T> {
    type V = Option<T::V>;

    open spec fn model(&self) -> Option<T::V> {
        match self {
            Some(x) => Some(x.model()),
            None => None,
        }
    }
}

/// A marker stands for nothing.
impl<T: ?Sized> Model for PhantomData<T> {
    type V = ();

    open spec fn model(&self) -> () {
        ()
    }
}

impl<A: Model> Model for (A,) {
    type V = (A::V,);

    open spec fn model(&self) -> (A::V,) {
        (self.0.model(),)
    }
}

impl<A: Model, B: Model> Model for (A, B) {
    type V = (A::V, B::V);

    open spec fn model(&self) -> (A::V, B::V) {
        (self.0.model(), self.1.model())
    }
}

impl<A: Model, B: Model, C: Model> Model for (A, B, C) {
    type V = (A::V, B::V, C::V);

    open spec fn model(&self) -> (A::V, B::V, C::V) {
        (self.0.model(), self.1.model(), self.2.model())
    }
}

impl<A: Model, B: Model, C: Model, D: Model> Model for (A, B, C, D) {
    type V = (A::V, B::V, C::V, D::V);

    open spec fn model(&self) -> (A::V, B::V, C::V, D::V) {
        (self.0.model(), self.1.model(), self.2.model(), self.3.model())
    }
}

} // verus!
