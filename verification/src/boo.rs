//! Borrow-or-owned smart pointers.
//!
//! [`Boo`] holds a value or a shared borrow of one, [`Mob`] additionally
//! a mutable borrow, and [`Moo`] a value or a mutable borrow: together
//! they capture the ownership combinations that arithmetic-style
//! operations want to take and return.

use vstd::prelude::*;
use vstd::pervasive::cloned;

verus! {

/// A borrow-or-owned smart pointer: a smaller variant of a
/// clone-on-write value that needs no special borrowed type.
pub enum Boo<'b, T> {
    /// Borrowed data.
    Borrowed(&'b T),
    /// Owned data.
    Owned(T),
}

impl<'b, T> Boo<'b, T> {
    /// Creates a new instance from a [`Mob`] while coercing a mutable
    /// reference to a shared one.
    pub fn from_coerce_ref(value: Mob<'b, T>) -> (r: Self)
        ensures
            value matches Mob::Owned(t) ==> r == Boo::<'b, T>::Owned(t),
            value is Borrowed || value is BorrowedMut ==> r is Borrowed && r.value()
                == value.value(),
    {
        match value {
            Mob::Owned(t) => Boo::Owned(t),
            Mob::Borrowed(t) => Boo::Borrowed(t),
            Mob::BorrowedMut(t) => Boo::Borrowed(t),
        }
    }

    /// The value held or pointed to.
    pub open spec fn value(self) -> T {
        match self {
            Boo::Borrowed(t) => *t,
            Boo::Owned(t) => t,
        }
    }

    /// A shared reference to the held value.
    pub fn as_ref(&self) -> (r: &T)
        ensures
            *r == self.value(),
    {
        match self {
            Boo::Borrowed(t) => t,
            Boo::Owned(t) => t,
        }
    }

    /// Gives an owned instance of `T` by applying `deref` to the held
    /// reference.
    pub fn into_owned<F: FnOnce(&'b T) -> T>(self, deref: F) -> (r: T)
        requires
            self matches Boo::Borrowed(t) ==> call_requires(deref, (t,)),
        ensures
            self matches Boo::Owned(t) ==> r == t,
            self matches Boo::Borrowed(t) ==> call_ensures(deref, (t,), r),
    {
        match self {
            Boo::Owned(t) => t,
            Boo::Borrowed(t) => deref(t),
        }
    }

    /// Gives an owned instance of `T` by cloning the held reference.
    pub fn cloned(self) -> (r: T) where T: Clone
        ensures
            self matches Boo::Owned(t) ==> r == t,
            self matches Boo::Borrowed(t) ==> cloned::<T>(*t, r),
    {
        match self {
            Boo::Owned(t) => t,
            Boo::Borrowed(t) => t.clone(),
        }
    }

    /// Gives an owned instance of `T` by copying the held reference.
    pub fn copied(self) -> (r: T) where T: Copy
        ensures
            r == self.value(),
    {
        match self {
            Boo::Owned(t) => t,
            Boo::Borrowed(t) => *t,
        }
    }
}

/// A mutable, owned or borrowed smart pointer: captures all ownership
/// combinations an operation may take.
pub enum Mob<'b, T> {
    /// Owned data.
    Owned(T),
    /// Borrowed data.
    Borrowed(&'b T),
    /// Mutably borrowed data.
    BorrowedMut(&'b mut T),
}

impl<'b, T> Mob<'b, T> {
    /// The value held or pointed to at entry.
    pub open spec fn value(self) -> T {
        match self {
            Mob::Owned(t) => t,
            Mob::Borrowed(t) => *t,
            Mob::BorrowedMut(t) => *t,
        }
    }

    /// Tries to give a mutable reference to the held data where possible
    /// (owned, mutably borrowed), and `None` else (borrowed).
    pub fn try_as_mut(&mut self) -> (r: Option<&mut T>)
        ensures
            *old(self) is Borrowed ==> r is None && *final(self) == *old(self),
            *old(self) matches Mob::Owned(t) ==> (r matches Some(p) && *p == t && *final(self)
                == Mob::<'b, T>::Owned(*final(p))),
            *old(self) is BorrowedMut ==> (r matches Some(p) && *p == (*old(self)).value()),
    {
        match self {
            Mob::Owned(t) => Some(t),
            Mob::BorrowedMut(t) => Some(t),
            Mob::Borrowed(_) => None,
        }
    }

    /// Returns the mutably borrowed value when one is held.
    pub fn try_into_mut(self) -> (r: Option<&'b mut T>)
        ensures
            self is BorrowedMut <==> r is Some,
            r matches Some(p) ==> *p == self.value(),
    {
        match self {
            Mob::BorrowedMut(t) => Some(t),
            Mob::Borrowed(_) => None,
            Mob::Owned(_) => None,
        }
    }

    /// Gives an owned instance of `T` by applying `deref` to the held
    /// reference.
    pub fn into_owned<F: FnOnce(&'b T) -> T>(self, deref: F) -> (r: T)
        requires
            self matches Mob::Borrowed(t) ==> call_requires(deref, (t,)),
            self is BorrowedMut ==> forall|t: &'b T| call_requires(deref, (t,)),
        ensures
            self matches Mob::Owned(t) ==> r == t,
            self matches Mob::Borrowed(t) ==> call_ensures(deref, (t,), r),
    {
        match self {
            Mob::Owned(t) => t,
            Mob::Borrowed(t) => deref(t),
            Mob::BorrowedMut(t) => deref(t),
        }
    }

    /// Gives an owned instance of `T` by cloning the held reference.
    pub fn cloned(self) -> (r: T) where T: Clone
        ensures
            self matches Mob::Owned(t) ==> r == t,
            self is Borrowed || self is BorrowedMut ==> cloned::<T>(self.value(), r),
    {
        match self {
            Mob::Owned(t) => t,
            Mob::Borrowed(t) => t.clone(),
            Mob::BorrowedMut(t) => t.clone(),
        }
    }

    /// Gives an owned instance of `T` by copying the held reference.
    pub fn copied(self) -> (r: T) where T: Copy
        ensures
            r == self.value(),
    {
        match self {
            Mob::Owned(t) => t,
            Mob::Borrowed(t) => *t,
            Mob::BorrowedMut(t) => *t,
        }
    }

    /// Returns the held value, keeping the mutable reference when one is
    /// held; the referenced place is left with a default value.
    pub fn take_keep_ref(self) -> (r: (T, Option<&'b mut T>)) where T: Default + Clone
        ensures
            self matches Mob::Owned(t) ==> r.0 == t && r.1 is None,
            self is Borrowed ==> cloned::<T>(self.value(), r.0) && r.1 is None,
            self matches Mob::BorrowedMut(t) ==> ({
                &&& r.0 == *t
                &&& r.1 matches Some(p) && call_ensures(<T as core::default::Default>::default, (), *p)
                    && *final(p) == *final(t)
            }),
    {
        match self {
            Mob::BorrowedMut(mut_ref) => {
                let mut taken = T::default();
                core::mem::swap(mut_ref, &mut taken);
                (taken, Some(mut_ref))
            },
            Mob::Owned(t) => (t, None),
            Mob::Borrowed(t) => (t.clone(), None),
        }
    }
}

/// A mutable or owned smart pointer: useful for return values of
/// functions that take a [`Mob`].
pub enum Moo<'b, T> {
    /// Owned data.
    Owned(T),
    /// Mutably borrowed data.
    BorrowedMut(&'b mut T),
}

impl<'b, T> Moo<'b, T> {
    /// The value held or pointed to at entry.
    pub open spec fn value(self) -> T {
        match self {
            Moo::Owned(t) => t,
            Moo::BorrowedMut(t) => *t,
        }
    }

    /// Creates a new instance either at `maybe_ref` or owned, but always
    /// holding `value`.
    pub fn from_with_value(maybe_ref: Option<&'b mut T>, value: T) -> (r: Self)
        ensures
            maybe_ref is None ==> r == Moo::<'b, T>::Owned(value),
            maybe_ref is Some ==> r is BorrowedMut && r.value() == value,
    {
        match maybe_ref {
            Some(mut_ref) => {
                *mut_ref = value;
                Moo::BorrowedMut(mut_ref)
            },
            None => Moo::Owned(value),
        }
    }

    /// Creates a new instance from `value`, cloning a shared borrow into
    /// an owned value and keeping a mutable borrow as it is.
    pub fn from_mob_cloned(value: Mob<'b, T>) -> (r: Self) where T: Clone
        ensures
            value matches Mob::Owned(t) ==> r == Moo::<'b, T>::Owned(t),
            value is Borrowed ==> r is Owned && cloned::<T>(value.value(), r.value()),
            value is BorrowedMut ==> r is BorrowedMut && r.value() == value.value(),
    {
        match value {
            Mob::BorrowedMut(t) => Moo::BorrowedMut(t),
            Mob::Owned(t) => Moo::Owned(t),
            Mob::Borrowed(t) => Moo::Owned(t.clone()),
        }
    }

    /// Expects `self` to be owned, or panics with `msg`; so the value
    /// must be owned.
    pub fn expect_owned(self, msg: &str) -> (r: T)
        requires
            self is Owned,
        ensures
            r == self.value(),
    {
        let _ = msg;
        match self {
            Moo::Owned(t) => t,
            Moo::BorrowedMut(_) => unreached(),
        }
    }

    /// Returns the owned value when possible.
    pub fn try_get_owned(self) -> (r: Option<T>)
        ensures
            self matches Moo::Owned(t) ==> r == Some(t),
            self is BorrowedMut ==> r is None,
    {
        match self {
            Moo::Owned(t) => Some(t),
            Moo::BorrowedMut(_) => None,
        }
    }

    /// Expects `self` to be a mutable borrow, or panics with `msg`; so
    /// the value must be mutably borrowed.
    pub fn expect_mut(self, msg: &str) -> (r: &'b mut T)
        requires
            self is BorrowedMut,
        ensures
            *r == self.value(),
    {
        let _ = msg;
        match self {
            Moo::BorrowedMut(t) => t,
            Moo::Owned(_) => unreached(),
        }
    }

    /// Returns the mutably borrowed value when possible.
    pub fn try_into_mut(self) -> (r: Option<&'b mut T>)
        ensures
            self is BorrowedMut <==> r is Some,
            r matches Some(p) ==> *p == self.value(),
    {
        match self {
            Moo::BorrowedMut(t) => Some(t),
            Moo::Owned(_) => None,
        }
    }

    /// Gives an owned instance of `T` by applying `deref` to the held
    /// reference.
    pub fn into_owned<F: FnOnce(&'b T) -> T>(self, deref: F) -> (r: T)
        requires
            self is BorrowedMut ==> forall|t: &'b T| call_requires(deref, (t,)),
        ensures
            self matches Moo::Owned(t) ==> r == t,
    {
        match self {
            Moo::Owned(t) => t,
            Moo::BorrowedMut(t) => deref(t),
        }
    }

    /// Gives an owned instance of `T` by cloning the held reference.
    pub fn cloned(self) -> (r: T) where T: Clone
        ensures
            self matches Moo::Owned(t) ==> r == t,
            self is BorrowedMut ==> cloned::<T>(self.value(), r),
    {
        match self {
            Moo::Owned(t) => t,
            Moo::BorrowedMut(t) => t.clone(),
        }
    }

    /// Gives an owned instance of `T` by copying the held reference.
    pub fn copied(self) -> (r: T) where T: Copy
        ensures
            r == self.value(),
    {
        match self {
            Moo::Owned(t) => t,
            Moo::BorrowedMut(t) => *t,
        }
    }
}

} // verus!
