//! Nodes of the hash map, and the two forms in which a removed node is held:
//! detached and waiting for its grace period, or owned.

use vstd::prelude::*;
use crate::rcu::context::RcuDomain;
use crate::rcu::reference::RcuRef;

verus! {

/// One entry of the map. Its place in a bucket's chain is its link to the
/// nodes after it.
#[derive(Debug)]
pub struct Node<K, V> {
    /// The key under which the node is found.
    pub key: K,
    /// The value that the node carries.
    pub value: V,
}

/// A node that was removed from a map and whose grace period has elapsed: no
/// reader can still see it, so it belongs to its holder alone.
#[derive(Debug)]
pub struct RefOwned<K, V>(pub Node<K, V>);

impl<K, V> RefOwned<K, V> {
    /// The node that is owned.
    pub open spec fn node(&self) -> Node<K, V> {
        self.0
    }

    /// Returns the key of the entry.
    pub fn key(&self) -> (key: &K)
        ensures
            *key == self.node().key,
    {
        &self.0.key
    }

    /// Returns the value of the entry.
    pub fn value(&self) -> (value: &V)
        ensures
            *value == self.node().value,
    {
        &self.0.value
    }

    /// Gives up the wrapper and hands out the key and the value.
    pub fn into_pair(self) -> (pair: (K, V))
        ensures
            pair == (self.node().key, self.node().value),
    {
        (self.0.key, self.0.value)
    }
}

/// A node that was detached from a map at a known instant. Readers that were
/// in a critical section at that instant may still look at it, so it stays
/// read-only until the grace period of that instant has elapsed.
#[must_use]
#[derive(Debug)]
pub struct Ref<K, V> {
    node: Node<K, V>,
    stamp: u64,
}

impl<K, V> Ref<K, V> {
    /// The detached node.
    pub closed spec fn node(&self) -> Node<K, V> {
        self.node
    }

    /// The instant at which the node was detached.
    pub closed spec fn detached_at(&self) -> u64 {
        self.stamp
    }

    /// Wraps a node that was detached at instant `stamp`.
    pub fn new(node: Node<K, V>, stamp: u64) -> (r: Self)
        ensures
            r.node() == node,
            r.detached_at() == stamp,
    {
        Ref { node, stamp }
    }

    /// Returns the key of the entry.
    pub fn key(&self) -> (key: &K)
        ensures
            *key == self.node().key,
    {
        &self.node.key
    }

    /// Returns the value of the entry.
    pub fn value(&self) -> (value: &V)
        ensures
            *value == self.node().value,
    {
        &self.node.value
    }

    /// Returns the instant at which the node was detached.
    pub fn stamp(&self) -> (stamp: u64)
        ensures
            stamp == self.detached_at(),
    {
        self.stamp
    }
}

/// A detached node becomes an owned node, unchanged, once the grace period
/// of its detachment has elapsed.
impl<K, V> RcuRef for Ref<K, V> {
    type Output = RefOwned<K, V>;

    open spec fn due(&self) -> u64 {
        self.detached_at()
    }

    open spec fn yields(&self, out: &Self::Output) -> bool {
        out.node() == self.node()
    }

    fn due_stamp(&self) -> (stamp: u64) {
        self.stamp
    }

    fn take_ownership_unchecked(self, ctx: &RcuDomain) -> (out: Self::Output) {
        RefOwned(self.node)
    }
}

} // verus!
