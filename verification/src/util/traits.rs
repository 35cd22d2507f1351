//! Small conversions between `bool` and `Option`.

use vstd::prelude::*;

verus! {

/// Turns a `bool` into an `Option<T>`, with the payload given by the caller.
pub trait OptionFromBool<T>: Sized {
    /// What `opt` returns.
    spec fn opt_spec(self, some_inner: T) -> Option<T>;

    /// What `opt_and` returns.
    spec fn opt_and_spec(self, optb: Option<T>) -> Option<T>;

    /// What `opt_not` returns.
    spec fn opt_not_spec(self, inner: T) -> Option<T>;

    /// `Some(some_inner)` if `self` is true, else `None`.
    fn opt(self, some_inner: T) -> (r: Option<T>)
        ensures
            r == self.opt_spec(some_inner),
    ;

    /// Like `Option::and`: `optb` if `self` is true, else `None`.
    fn opt_and(self, optb: Option<T>) -> (r: Option<T>)
        ensures
            r == self.opt_and_spec(optb),
    ;

    /// `Some(inner)` if `self` is false, else `None`.
    fn opt_not(self, inner: T) -> (r: Option<T>)
        ensures
            r == self.opt_not_spec(inner),
    ;
}

impl<T> OptionFromBool<T> for bool {
    open spec fn opt_spec(self, some_inner: T) -> Option<T> {
        if self {
            Some(some_inner)
        } else {
            None
        }
    }

    open spec fn opt_and_spec(self, optb: Option<T>) -> Option<T> {
        if self {
            optb
        } else {
            None
        }
    }

    open spec fn opt_not_spec(self, inner: T) -> Option<T> {
        if !self {
            Some(inner)
        } else {
            None
        }
    }

    fn opt(self, some_inner: T) -> (r: Option<T>) {
        if self {
            Some(some_inner)
        } else {
            None
        }
    }

    fn opt_and(self, optb: Option<T>) -> (r: Option<T>) {
        if self {
            optb
        } else {
            None
        }
    }

    fn opt_not(self, inner: T) -> (r: Option<T>) {
        if !self {
            Some(inner)
        } else {
            None
        }
    }
}

} // verus!
