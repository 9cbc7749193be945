//! A holder for a value that is to be kept as it was given.

use vstd::prelude::*;

verus! {

/// A value that is held as it was given: it is not converted on the way
/// in, nor on the way out.
pub struct Held<T> {
    inner: T,
}

impl<T> Held<T> {
    /// The value that is held.
    pub closed spec fn value(self) -> T {
        self.inner
    }

    /// Holds `inner`.
    pub(crate) fn new(inner: T) -> (held: Held<T>)
        ensures
            held.value() == inner,
    {
        Held { inner }
    }

    /// The value that is held, to be used where it is.
    pub(crate) fn get(&self) -> (inner: &T)
        ensures
            *inner == self.value(),
    {
        &self.inner
    }
}

} // verus!
