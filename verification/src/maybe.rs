//! An optional value that distinguishes "absent from the request" from any
//! present value, for partial updates.

use vstd::prelude::*;

verus! {

/// A field value that may be absent altogether.
#[derive(Debug, Clone)]
pub enum MaybeAbsent<T> {
    Present(T),
    Absent,
}

impl<T> Default for MaybeAbsent<T> {
    fn default() -> (r: Self)
        ensures
            r is Absent,
    {
        MaybeAbsent::Absent
    }
}

impl<T> MaybeAbsent<T> {
    /// True iff no value is present.
    pub fn is_absent(&self) -> (r: bool)
        ensures
            r == (self is Absent),
    {
        match self {
            MaybeAbsent::Absent => true,
            MaybeAbsent::Present(_) => false,
        }
    }

    /// True iff a value is present.
    pub fn is_present(&self) -> (r: bool)
        ensures
            r == (self is Present),
    {
        !self.is_absent()
    }

    /// The same optional, by reference.
    pub fn as_ref(&self) -> (r: MaybeAbsent<&T>)
        ensures
            self is Present <==> r is Present,
            self is Present ==> r->Present_0 == &self->Present_0,
    {
        match self {
            MaybeAbsent::Present(v) => MaybeAbsent::Present(v),
            MaybeAbsent::Absent => MaybeAbsent::Absent,
        }
    }

    /// The present value; only for optionals known to hold one.
    pub fn get(&self) -> (r: &T)
        requires
            self is Present,
        ensures
            r == &self->Present_0,
    {
        match self {
            MaybeAbsent::Present(v) => v,
            MaybeAbsent::Absent => vstd::pervasive::unreached(),
        }
    }

    /// The present value, or `default` when absent.
    pub fn get_or<'a>(&'a self, default: &'a T) -> (r: &'a T)
        ensures
            self is Present ==> r == &self->Present_0,
            self is Absent ==> r == default,
    {
        match self {
            MaybeAbsent::Present(v) => v,
            MaybeAbsent::Absent => default,
        }
    }

    /// Applies `f` to the value when one is present.
    pub fn if_present<'a, F>(&'a self, f: F) where F: FnOnce(&'a T)
        requires
            self is Present ==> f.requires((&self->Present_0,)),
    {
        if let MaybeAbsent::Present(v) = self {
            f(v);
        }
    }

    /// Transforms the present value, keeping absence.
    pub fn map<U, F>(self, f: F) -> (r: MaybeAbsent<U>) where F: FnOnce(T) -> U
        requires
            self is Present ==> f.requires((self->Present_0,)),
        ensures
            self is Absent ==> r is Absent,
            self is Present ==> r is Present && f.ensures((self->Present_0,), r->Present_0),
    {
        match self {
            MaybeAbsent::Present(value) => MaybeAbsent::Present(f(value)),
            MaybeAbsent::Absent => MaybeAbsent::Absent,
        }
    }
}

} // verus!
