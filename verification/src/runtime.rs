//! A freestanding sliver of a standard library for programs compiled to the
//! target: an optional value and a growable array. Emitted programs link
//! against the target runtime's own array type; this model gives the same
//! operations verified contracts.

use vstd::prelude::*;

verus! {

/// An optional value for the target's freestanding core.
pub enum Option<T> {
    /// A present value.
    Has(T),
    /// No value.
    Empty,
}

impl<T> Option<T> {
    /// Whether a value is present.
    pub fn is_some(&self) -> (r: bool)
        ensures
            r == (self matches Option::Has(_)),
    {
        match self {
            Option::Has(_) => true,
            Option::Empty => false,
        }
    }

    /// The value, or the given fallback where none is present.
    pub fn unwrap_or(self, fallback: T) -> (r: T)
        ensures
            match self {
                Option::Has(v) => r == v,
                Option::Empty => r == fallback,
            },
    {
        match self {
            Option::Has(v) => v,
            Option::Empty => fallback,
        }
    }
}

/// A growable array. The target runtime backs it with its own native array;
/// this model owns its elements directly.
pub struct Vec<T> {
    pub inner: std::vec::Vec<T>,
}

impl<T> Vec<T> {
    /// An empty array.
    pub fn new() -> (r: Vec<T>)
        ensures
            r.inner@ =~= Seq::<T>::empty(),
    {
        Vec { inner: std::vec::Vec::new() }
    }

    /// Appends one element at the back.
    pub fn push(&mut self, elem: T)
        ensures
            final(self).inner@ == old(self).inner@.push(elem),
    {
        self.inner.push(elem);
    }

    /// Removes and returns the last element, where there is one.
    pub fn pop(&mut self) -> (r: Option<T>)
        ensures
            old(self).inner@.len() > 0 ==> (r == Option::Has(old(self).inner@.last())
                && final(self).inner@ == old(self).inner@.drop_last()),
            old(self).inner@.len() == 0 ==> (r == Option::<T>::Empty && final(self).inner@
                == old(self).inner@),
    {
        match self.inner.pop() {
            core::option::Option::Some(v) => Option::Has(v),
            core::option::Option::None => Option::Empty,
        }
    }
}

} // verus!
