//! Infallible and fallible conversion traits for the target's freestanding
//! core, with their generic implementations: a conversion lifts over shared
//! and exclusive references, a `From` implementation yields the matching
//! `Into` for free, conversion is reflexive, and a `TryFrom` implementation
//! yields the matching `TryInto`.

use vstd::prelude::*;

verus! {

/// A cheap reference-to-reference conversion.
pub trait AsRef<T: ?Sized> {
    /// Performs the conversion.
    fn as_ref(&self) -> &T;
}

/// A cheap mutable-reference-to-mutable-reference conversion.
pub trait AsMut<T: ?Sized> {
    /// Performs the conversion.
    fn as_mut(&mut self) -> &mut T;
}

/// A conversion that consumes `self`. Implement `From` instead, and this
/// comes for free.
pub trait Into<T>: Sized {
    /// Performs the conversion.
    fn into(self) -> T;
}

/// Construct `Self` from another type. The most flexible conversion trait:
/// implementing it also yields the matching `Into`.
pub trait From<T>: Sized {
    /// Performs the conversion.
    fn from(t: T) -> Self;
}

/// An attempted conversion that consumes `self`. Implement `TryFrom`
/// instead, and this comes for free.
pub trait TryInto<T>: Sized {
    /// The type returned in the event of a conversion error.
    type Err;

    /// Performs the conversion.
    fn try_into(self) -> Result<T, Self::Err>;
}

/// Attempt to construct `Self` via a conversion.
pub trait TryFrom<T>: Sized {
    /// The type returned in the event of a conversion error.
    type Err;

    /// Performs the conversion.
    fn try_from(t: T) -> Result<Self, Self::Err>;
}

impl<'a, T: ?Sized, U: ?Sized> AsRef<U> for &'a T where T: AsRef<U> {
    fn as_ref(&self) -> &U {
        <T as AsRef<U>>::as_ref(*self)
    }
}

impl<'a, T: ?Sized, U: ?Sized> AsRef<U> for &'a mut T where T: AsRef<U> {
    fn as_ref(&self) -> &U {
        <T as AsRef<U>>::as_ref(*self)
    }
}

impl<'a, T: ?Sized, U: ?Sized> AsMut<U> for &'a mut T where T: AsMut<U> {
    fn as_mut(&mut self) -> &mut U {
        (*self).as_mut()
    }
}

impl<T, U> Into<U> for T where U: From<T> {
    fn into(self) -> U {
        U::from(self)
    }
}

impl<T> From<T> for T {
    fn from(t: T) -> T {
        t
    }
}

impl<T, U> TryInto<U> for T where U: TryFrom<T> {
    type Err = U::Err;

    fn try_into(self) -> Result<U, U::Err> {
        U::try_from(self)
    }
}

impl<T> AsRef<[T]> for [T] {
    fn as_ref(&self) -> &[T] {
        self
    }
}

impl<T> AsMut<[T]> for [T] {
    fn as_mut(&mut self) -> &mut [T] {
        self
    }
}

impl AsRef<str> for str {
    fn as_ref(&self) -> &str {
        self
    }
}

} // verus!
