//! What the map asks of its keys.

use vstd::prelude::*;

verus! {

/// A key of the map: it can be hashed, and two keys can be told apart.
///
/// The hash decides the bucket of a key, so equal keys have equal hashes by
/// construction: the hash is a function of the key.
pub trait MapKey: Sized {
    /// The hash of the key.
    spec fn hash_of(&self) -> u64;

    /// Computes the hash of the key.
    fn hash(&self) -> (h: u64)
        ensures
            h == self.hash_of(),
    ;

    /// Whether the two are the same key.
    fn same(&self, other: &Self) -> (b: bool)
        ensures
            b == (*self == *other),
    ;
}

/// A `u64` is its own hash.
impl MapKey for u64 {
    open spec fn hash_of(&self) -> u64 {
        *self
    }

    fn hash(&self) -> (h: u64) {
        *self
    }

    fn same(&self, other: &Self) -> (b: bool) {
        *self == *other
    }
}

/// A `u32` hashes to its value.
impl MapKey for u32 {
    open spec fn hash_of(&self) -> u64 {
        *self as u64
    }

    fn hash(&self) -> (h: u64) {
        *self as u64
    }

    fn same(&self, other: &Self) -> (b: bool) {
        *self == *other
    }
}

/// A `usize` hashes to its value.
impl MapKey for usize {
    open spec fn hash_of(&self) -> u64 {
        *self as u64
    }

    fn hash(&self) -> (h: u64) {
        *self as u64
    }

    fn same(&self, other: &Self) -> (b: bool) {
        *self == *other
    }
}

} // verus!
