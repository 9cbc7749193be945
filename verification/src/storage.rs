//! Where a node keeps what the ring asks it to store.

use vstd::prelude::*;

verus! {

/// The capacity of a store unless another is asked for, in bytes.
pub const DEFAULT_STORAGE_CAPACITY: usize = 200000000;

/// A store of the ring's entries: the place where it keeps them and the
/// bytes it may hold there. The store itself is opened by whoever runs the
/// node.
#[derive(Clone, Debug, PartialEq, Eq)]
pub struct PersistenceStorage {
    path: String,
    capacity: usize,
}

impl PersistenceStorage {
    pub closed spec fn path_view(&self) -> Seq<char> {
        self.path@
    }

    pub closed spec fn capacity_view(&self) -> usize {
        self.capacity
    }

    /// A store at `path` that may hold `capacity` bytes.
    pub fn new_with_cap_and_path(capacity: usize, path: &str) -> (s: PersistenceStorage)
        ensures
            s.path_view() == path@,
            s.capacity_view() == capacity,
    {
        PersistenceStorage { path: path.to_owned(), capacity }
    }

    /// A store at `path` of the default capacity.
    pub fn new_with_path(path: &str) -> (s: PersistenceStorage)
        ensures
            s.path_view() == path@,
            s.capacity_view() == DEFAULT_STORAGE_CAPACITY,
    {
        PersistenceStorage { path: path.to_owned(), capacity: DEFAULT_STORAGE_CAPACITY }
    }

    pub fn path(&self) -> (p: String)
        ensures
            p@ == self.path_view(),
    {
        self.path.clone()
    }

    pub fn capacity(&self) -> (c: usize)
        ensures
            c == self.capacity_view(),
    {
        self.capacity
    }
}

} // verus!
