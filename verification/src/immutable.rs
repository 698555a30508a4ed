//! A value that is read but not changed after it is made.
use vstd::prelude::*;

verus! {

/// Holds a value that can be read and taken back, but not changed.
#[derive(Clone, Copy, Debug, PartialEq, Eq, Structural, Hash)]
pub struct Immutable<T> {
    x: T,
}

impl<T> Immutable<T> {
    /// The held value.
    pub closed spec fn value(&self) -> T {
        self.x
    }

    pub fn new(x: T) -> (r: Self)
        ensures
            r.value() == x,
    {
        Immutable { x }
    }

    /// The held value, borrowed.
    pub fn get(&self) -> (r: &T)
        ensures
            *r == self.value(),
    {
        &self.x
    }

    /// The held value, taken back.
    pub fn take(self) -> (r: T)
        ensures
            r == self.value(),
    {
        self.x
    }
}

} // verus!
