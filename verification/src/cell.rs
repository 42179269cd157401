//! Shareable containers for the target's runtime support library: a plain
//! value cell, and a cell with borrow-state bookkeeping.
//!
//! The classical cell hides its value behind an untyped core and polices
//! exclusive access with a run-time borrow flag. In this verified rendering
//! ownership is checked statically instead: reading takes `&self`, writing
//! takes `&mut self`, and every access is a plain field access with a proved
//! contract. The borrow flag is kept as data, with its classical encoding,
//! so the borrow-state query keeps its meaning.

use vstd::prelude::*;

verus! {

/// The flag value meaning that no borrow is outstanding.
pub const UNUSED: u64 = 0;

/// The flag value meaning that an exclusive borrow is outstanding. Any other
/// nonzero value counts outstanding shared borrows.
pub const WRITING: u64 = 0xffff_ffff_ffff_ffff;

/// The innermost container: one owned value. The classical core of this type
/// launders pointers for interior mutability; here it simply owns its value,
/// and access needs no unsafety.
pub struct UnsafeCell<T> {
    pub value: T,
}

impl<T> UnsafeCell<T> {
    /// Wraps a value.
    pub fn new(value: T) -> (r: UnsafeCell<T>)
        ensures
            r.value == value,
    {
        UnsafeCell { value }
    }

    /// A reference to the wrapped value. The classical operation hands out a
    /// raw pointer; a plain reference carries the same access here.
    pub fn get(&self) -> (r: &T)
        ensures
            *r == self.value,
    {
        &self.value
    }

    /// Unwraps the value.
    pub fn into_inner(self) -> (r: T)
        ensures
            r == self.value,
    {
        self.value
    }
}

/// A container for `Copy` data, read and replaced as a whole.
pub struct Cell<T> {
    pub value: UnsafeCell<T>,
}

impl<T: Copy> Cell<T> {
    /// Creates a new cell containing the given value.
    pub fn new(value: T) -> (r: Cell<T>)
        ensures
            r.value.value == value,
    {
        Cell { value: UnsafeCell::new(value) }
    }

    /// Returns a copy of the contained value.
    pub fn get(&self) -> (r: T)
        ensures
            r == self.value.value,
    {
        *self.value.get()
    }

    /// Sets the contained value. Writing needs exclusive access here, where
    /// the classical cell mutates through a shared reference.
    pub fn set(&mut self, value: T)
        ensures
            final(self).value.value == value,
    {
        self.value.value = value;
    }

    /// A reference to the underlying container.
    pub fn as_unsafe_cell(&self) -> (r: &UnsafeCell<T>)
        ensures
            *r == self.value,
    {
        &self.value
    }

    /// A mutable reference to the underlying data.
    pub fn get_mut(&mut self) -> (r: &mut T)
        ensures
            *r == old(self).value.value,
            final(self).value.value == *final(r),
    {
        &mut self.value.value
    }
}

/// What the borrow flag of a `RefCell` currently records.
#[derive(Clone, Copy, Debug, PartialEq, Eq, Structural)]
pub enum BorrowState {
    /// At least one shared borrow is recorded.
    Reading,
    /// An exclusive borrow is recorded.
    Writing,
    /// No borrow is recorded.
    Unused,
}

/// A value cell carrying a borrow flag with the classical encoding: `UNUSED`
/// for no borrow, `WRITING` for an exclusive borrow, any other value a count
/// of shared borrows. The borrows themselves are checked statically here —
/// a shared borrow takes `&self`, an exclusive one `&mut self` — so the flag
/// never changes at run time; it is kept so the state query has its
/// classical meaning.
pub struct RefCell<T> {
    pub borrow: Cell<u64>,
    pub value: UnsafeCell<T>,
}

/// The failure of an attempted shared borrow: an exclusive borrow is
/// recorded on the flag.
#[derive(Clone, Copy, Debug, PartialEq, Eq, Structural)]
pub struct BorrowError;

/// The failure of an attempted exclusive borrow: some borrow is recorded on
/// the flag.
#[derive(Clone, Copy, Debug, PartialEq, Eq, Structural)]
pub struct BorrowMutError;

/// A handle on a shared borrow of a `RefCell`'s value.
pub struct Ref<'b, T> {
    pub value: &'b T,
}

/// A handle on an exclusive borrow of a `RefCell`'s value.
pub struct RefMut<'b, T> {
    pub value: &'b mut T,
}

impl<T> RefCell<T> {
    /// Creates a new cell containing `value`, with no borrow recorded.
    pub fn new(value: T) -> (r: RefCell<T>)
        ensures
            r.value.value == value,
            r.borrow.value.value == UNUSED,
    {
        RefCell { value: UnsafeCell::new(value), borrow: Cell::new(UNUSED) }
    }

    /// Consumes the cell, returning the wrapped value.
    pub fn into_inner(self) -> (r: T)
        ensures
            r == self.value.value,
    {
        self.value.into_inner()
    }

    /// Queries the current state of the borrow flag.
    pub fn borrow_state(&self) -> (r: BorrowState)
        ensures
            r == (if self.borrow.value.value == WRITING {
                BorrowState::Writing
            } else if self.borrow.value.value == UNUSED {
                BorrowState::Unused
            } else {
                BorrowState::Reading
            }),
    {
        let flag = self.borrow.get();
        if flag == WRITING {
            BorrowState::Writing
        } else if flag == UNUSED {
            BorrowState::Unused
        } else {
            BorrowState::Reading
        }
    }

    /// Borrows the wrapped value. The classical operation panics while an
    /// exclusive borrow is outstanding; that case is excluded here by
    /// precondition.
    pub fn borrow(&self) -> (r: Ref<'_, T>)
        requires
            self.borrow.value.value != WRITING,
        ensures
            *r.value == self.value.value,
    {
        Ref { value: self.value.get() }
    }

    /// Attempts a shared borrow: fails exactly while the flag records an
    /// exclusive borrow.
    pub fn try_borrow(&self) -> (r: Result<Ref<'_, T>, BorrowError>)
        ensures
            match r {
                Ok(h) => self.borrow.value.value != WRITING && *h.value == self.value.value,
                Err(e) => self.borrow.value.value == WRITING,
            },
    {
        if self.borrow.get() == WRITING {
            Err(BorrowError)
        } else {
            Ok(Ref { value: self.value.get() })
        }
    }

    /// Attempts an exclusive borrow: fails exactly while the flag records
    /// any borrow.
    pub fn try_borrow_mut(&mut self) -> (r: Result<RefMut<'_, T>, BorrowMutError>)
        ensures
            match r {
                Ok(h) => {
                    &&& old(self).borrow.value.value == UNUSED
                    &&& *h.value == old(self).value.value
                    &&& final(self).value.value == *final(h.value)
                    &&& final(self).borrow == old(self).borrow
                },
                Err(e) => old(self).borrow.value.value != UNUSED && *final(self) == *old(self),
            },
    {
        if self.borrow.get() != UNUSED {
            Err(BorrowMutError)
        } else {
            Ok(RefMut { value: &mut self.value.value })
        }
    }

    /// Borrows the wrapped value exclusively. The classical operation panics
    /// while any borrow is outstanding; that case is excluded here by
    /// precondition.
    pub fn borrow_mut(&mut self) -> (r: RefMut<'_, T>)
        requires
            old(self).borrow.value.value == UNUSED,
        ensures
            *r.value == old(self).value.value,
            final(self).value.value == *final(r.value),
            final(self).borrow == old(self).borrow,
    {
        RefMut { value: &mut self.value.value }
    }
}

impl<'b, T> Ref<'b, T> {
    /// Copies the handle: both handles read the same value.
    pub fn clone(orig: &Ref<'b, T>) -> (r: Ref<'b, T>)
        ensures
            r.value == orig.value,
    {
        Ref { value: orig.value }
    }

    /// Makes a new handle for a component of the borrowed value, such as one
    /// field of a borrowed record.
    pub fn map<U, F: FnOnce(&'b T) -> &'b U>(orig: Ref<'b, T>, f: F) -> (r: Ref<'b, U>)
        requires
            call_requires(f, (orig.value,)),
        ensures
            call_ensures(f, (orig.value,), r.value),
    {
        Ref { value: f(orig.value) }
    }
}

} // verus!
