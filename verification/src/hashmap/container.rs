//! The map itself: buckets of chains, searched and changed one node at a time.

use vstd::prelude::*;
use crate::hashmap::key::MapKey;
use crate::hashmap::reference::{Node, Ref};
use crate::rcu::cleanup::CleanupCoordinator;
use crate::rcu::context::{RcuDomain, ReadGuard};
use crate::rcu::reference::RcuRef;
use crate::rcu::reference::reversed;

verus! {

/// Number of buckets of a map made by [`RcuHashMap::new`].
pub const DEFAULT_BUCKETS: usize = 16;

/// The bucket in which a key lives, in a table of `buckets` buckets.
pub open spec fn bucket_of<K: MapKey>(key: K, buckets: nat) -> int {
    key.hash_of() as int % buckets as int
}

/// Whether a chain holds a node with the key.
pub open spec fn chain_has<K, V>(chain: Seq<Node<K, V>>, key: K) -> bool {
    exists|i: int| 0 <= i < chain.len() && (#[trigger] chain[i]).key == key
}

/// The place of the node with the key in a chain that holds one.
pub open spec fn chain_index<K, V>(chain: Seq<Node<K, V>>, key: K) -> int {
    choose|i: int| 0 <= i < chain.len() && (#[trigger] chain[i]).key == key
}

/// No key occurs twice in the chain.
pub open spec fn chain_distinct<K, V>(chain: Seq<Node<K, V>>) -> bool {
    forall|i: int, j: int|
        0 <= i < j < chain.len() ==> (#[trigger] chain[i]).key != (#[trigger] chain[j]).key
}

/// The chains of a table laid end to end, first bucket first.
pub open spec fn flat<K, V>(chains: Seq<Seq<Node<K, V>>>) -> Seq<Node<K, V>>
    decreases chains.len(),
{
    if chains.len() == 0 {
        Seq::empty()
    } else {
        flat(chains.drop_last()) + chains.last()
    }
}

/// The nodes list the map exactly: every node is an entry of the map, every
/// entry of the map has its node, and no key comes twice.
pub open spec fn lists_exactly<K, V>(nodes: Seq<Node<K, V>>, m: Map<K, V>) -> bool {
    &&& forall|i: int|
        0 <= i < nodes.len() ==> m.contains_key((#[trigger] nodes[i]).key) && m[nodes[i].key]
            == nodes[i].value
    &&& forall|k: K| #[trigger] m.contains_key(k) ==> chain_has(nodes, k)
    &&& chain_distinct(nodes)
}

/// The value that a chain gives for a key it holds.
pub open spec fn chain_value<K, V>(chain: Seq<Node<K, V>>, key: K) -> V {
    chain[chain_index(chain, key)].value
}

/// In a chain without repeated keys, a node found under a key is the node
/// that the chain gives for that key.
pub proof fn lemma_chain_index_is_unique<K, V>(chain: Seq<Node<K, V>>, key: K, i: int)
    requires
        chain_distinct(chain),
        0 <= i < chain.len(),
        chain[i].key == key,
    ensures
        chain_has(chain, key),
        chain_index(chain, key) == i,
        chain_value(chain, key) == chain[i].value,
{
    let j = chain_index(chain, key);
    assert(0 <= j < chain.len() && chain[j].key == key);
    if i < j {
        assert(chain[i].key != chain[j].key);
    } else if j < i {
        assert(chain[j].key != chain[i].key);
    }
}

/// A new key put at the head of a chain.
pub proof fn lemma_chain_prepend<K, V>(chain: Seq<Node<K, V>>, node: Node<K, V>)
    requires
        chain_distinct(chain),
        !chain_has(chain, node.key),
    ensures
        chain_distinct(chain.insert(0, node)),
        forall|k: K|
            chain_has(chain.insert(0, node), k) <==> (k == node.key || chain_has(chain, k)),
        forall|k: K|
            chain_has(chain.insert(0, node), k) ==> #[trigger] chain_value(
                chain.insert(0, node),
                k,
            ) == if k == node.key {
                node.value
            } else {
                chain_value(chain, k)
            },
{
    let d = chain.insert(0, node);
    assert forall|i: int, j: int| 0 <= i < j < d.len() implies (#[trigger] d[i]).key != (
    #[trigger] d[j]).key by {
        if i == 0 {
            assert(d[j] == chain[j - 1]);
        } else {
            assert(d[i] == chain[i - 1]);
            assert(d[j] == chain[j - 1]);
        }
    }
    assert forall|k: K| chain_has(d, k) <==> (k == node.key || chain_has(chain, k)) by {
        if chain_has(d, k) {
            let i = chain_index(d, k);
            if i > 0 {
                assert(chain[i - 1].key == k);
            }
        }
        if k == node.key {
            assert(d[0].key == k);
        }
        if chain_has(chain, k) {
            let i = chain_index(chain, k);
            assert(d[i + 1].key == k);
        }
    }
    assert forall|k: K| chain_has(d, k) implies #[trigger] chain_value(d, k) == if k
        == node.key {
        node.value
    } else {
        chain_value(chain, k)
    } by {
        if k == node.key {
            lemma_chain_index_is_unique(d, k, 0);
        } else {
            let i = chain_index(chain, k);
            assert(d[i + 1] == chain[i]);
            lemma_chain_index_is_unique(d, k, i + 1);
        }
    }
}

/// The node at one place of a chain exchanged for another with the same key.
pub proof fn lemma_chain_replace<K, V>(chain: Seq<Node<K, V>>, i: int, node: Node<K, V>)
    requires
        chain_distinct(chain),
        0 <= i < chain.len(),
        chain[i].key == node.key,
    ensures
        chain_distinct(chain.update(i, node)),
        forall|k: K| chain_has(chain.update(i, node), k) <==> chain_has(chain, k),
        forall|k: K|
            chain_has(chain.update(i, node), k) ==> #[trigger] chain_value(
                chain.update(i, node),
                k,
            ) == if k == node.key {
                node.value
            } else {
                chain_value(chain, k)
            },
{
    let d = chain.update(i, node);
    assert forall|a: int, b: int| 0 <= a < b < d.len() implies (#[trigger] d[a]).key != (
    #[trigger] d[b]).key by {
        assert(d[a].key == chain[a].key);
        assert(d[b].key == chain[b].key);
    }
    assert forall|k: K| chain_has(d, k) <==> chain_has(chain, k) by {
        if chain_has(d, k) {
            let j = chain_index(d, k);
            assert(chain[j].key == k);
        }
        if chain_has(chain, k) {
            let j = chain_index(chain, k);
            assert(d[j].key == k);
        }
    }
    assert forall|k: K| chain_has(d, k) implies #[trigger] chain_value(d, k) == if k
        == node.key {
        node.value
    } else {
        chain_value(chain, k)
    } by {
        if k == node.key {
            lemma_chain_index_is_unique(d, k, i);
        } else {
            let j = chain_index(chain, k);
            assert(d[j] == chain[j]);
            lemma_chain_index_is_unique(d, k, j);
        }
    }
}

/// The node at one place of a chain unlinked.
pub proof fn lemma_chain_unlink<K, V>(chain: Seq<Node<K, V>>, i: int)
    requires
        chain_distinct(chain),
        0 <= i < chain.len(),
    ensures
        chain_distinct(chain.remove(i)),
        forall|k: K|
            chain_has(chain.remove(i), k) <==> (k != chain[i].key && chain_has(chain, k)),
        forall|k: K|
            chain_has(chain.remove(i), k) ==> #[trigger] chain_value(chain.remove(i), k)
                == chain_value(chain, k),
{
    let d = chain.remove(i);
    assert forall|a: int, b: int| 0 <= a < b < d.len() implies (#[trigger] d[a]).key != (
    #[trigger] d[b]).key by {
        let a0 = if a < i { a } else { a + 1 };
        let b0 = if b < i { b } else { b + 1 };
        assert(d[a] == chain[a0]);
        assert(d[b] == chain[b0]);
    }
    assert forall|k: K| chain_has(d, k) <==> (k != chain[i].key && chain_has(chain, k)) by {
        if chain_has(d, k) {
            let j = chain_index(d, k);
            let j0 = if j < i { j } else { j + 1 };
            assert(d[j] == chain[j0]);
            if j0 < i {
                assert(chain[j0].key != chain[i].key);
            } else {
                assert(chain[i].key != chain[j0].key);
            }
        }
        if k != chain[i].key && chain_has(chain, k) {
            let j = chain_index(chain, k);
            let j1 = if j < i { j } else { j - 1 };
            assert(d[j1] == chain[j]);
        }
    }
    assert forall|k: K| chain_has(d, k) implies #[trigger] chain_value(d, k) == chain_value(
        chain,
        k,
    ) by {
        let j = chain_index(d, k);
        let j0 = if j < i { j } else { j + 1 };
        assert(d[j] == chain[j0]);
        lemma_chain_index_is_unique(chain, k, j0);
    }
}

/// There is a bucket, every node sits in the bucket of its key, and no
/// chain holds a key twice.
pub open spec fn table_wf<K: MapKey, V>(chains: Seq<Seq<Node<K, V>>>) -> bool {
    &&& chains.len() > 0
    &&& forall|b: int, i: int|
        0 <= b < chains.len() && 0 <= i < chains[b].len() ==> bucket_of(
            (#[trigger] chains[b][i]).key,
            chains.len(),
        ) == b
    &&& forall|b: int| 0 <= b < chains.len() ==> chain_distinct(#[trigger] chains[b])
}

/// What a table maps each key to: the value of the key's node in the chain
/// of the key's bucket.
pub open spec fn table_view<K: MapKey, V>(chains: Seq<Seq<Node<K, V>>>) -> Map<K, V> {
    Map::new(
        |k: K| chain_has(chains[bucket_of(k, chains.len())], k),
        |k: K| chain_value(chains[bucket_of(k, chains.len())], k),
    )
}

/// Laying one more chain at the end.
pub proof fn lemma_flat_step<K, V>(chains: Seq<Seq<Node<K, V>>>, b: int)
    requires
        0 <= b < chains.len(),
    ensures
        flat(chains.take(b + 1)) == flat(chains.take(b)) + chains[b],
{
    assert(chains.take(b + 1).drop_last() =~= chains.take(b));
    assert(chains.take(b + 1).last() == chains[b]);
}

/// What the first `n` chains of a well-formed table hold when laid end to
/// end: nodes of the first `n` buckets only, each the node that its chain
/// gives for its key; every node of those chains; and no key twice.
proof fn lemma_flat_prefix<K: MapKey, V>(chains: Seq<Seq<Node<K, V>>>, n: int)
    requires
        table_wf(chains),
        0 <= n <= chains.len(),
    ensures
        forall|p: int|
            0 <= p < flat(chains.take(n)).len() ==> {
                let node = #[trigger] flat(chains.take(n))[p];
                let b = bucket_of(node.key, chains.len());
                &&& 0 <= b < n
                &&& chain_has(chains[b], node.key)
                &&& chain_value(chains[b], node.key) == node.value
            },
        forall|b: int, i: int|
            0 <= b < n && 0 <= i < chains[b].len() ==> chain_has(
                flat(chains.take(n)),
                (#[trigger] chains[b][i]).key,
            ),
        chain_distinct(flat(chains.take(n))),
    decreases n,
{
    let f = flat(chains.take(n));
    if n == 0 {
        assert(chains.take(0).len() == 0);
        assert(f.len() == 0);
    } else {
        let g = flat(chains.take(n - 1));
        let last = chains[n - 1];
        lemma_flat_prefix(chains, n - 1);
        lemma_flat_step(chains, n - 1);
        assert(f == g + last);
        assert forall|p: int| 0 <= p < f.len() implies ({
            let node = #[trigger] f[p];
            let b = bucket_of(node.key, chains.len());
            &&& 0 <= b < n
            &&& chain_has(chains[b], node.key)
            &&& chain_value(chains[b], node.key) == node.value
        }) by {
            if p < g.len() {
                assert(f[p] == g[p]);
            } else {
                let i = p - g.len();
                assert(f[p] == chains[n - 1][i]);
                lemma_chain_index_is_unique(last, f[p].key, i);
            }
        }
        assert forall|b: int, i: int| 0 <= b < n && 0 <= i < chains[b].len() implies chain_has(
            f,
            (#[trigger] chains[b][i]).key,
        ) by {
            if b < n - 1 {
                let p = chain_index(g, chains[b][i].key);
                assert(f[p] == g[p]);
            } else {
                assert(f[g.len() + i] == chains[b][i]);
            }
        }
        assert forall|p: int, q: int| 0 <= p < q < f.len() implies (#[trigger] f[p]).key != (
        #[trigger] f[q]).key by {
            if q < g.len() {
                assert(f[p] == g[p] && f[q] == g[q]);
            } else if p >= g.len() {
                assert(f[p] == last[p - g.len()]);
                assert(f[q] == last[q - g.len()]);
            } else {
                assert(f[p] == g[p]);
                assert(f[q] == chains[n - 1][q - g.len()]);
            }
        }
    }
}

/// The chains of a well-formed table, laid end to end, list the table's map
/// exactly.
pub proof fn lemma_flat_lists_exactly<K: MapKey, V>(chains: Seq<Seq<Node<K, V>>>)
    requires
        table_wf(chains),
    ensures
        lists_exactly(flat(chains), table_view(chains)),
{
    lemma_flat_prefix(chains, chains.len() as int);
    assert(chains.take(chains.len() as int) =~= chains);
    let f = flat(chains);
    let m = table_view(chains);
    assert forall|k: K| #[trigger] m.contains_key(k) implies chain_has(f, k) by {
        let b = bucket_of(k, chains.len());
        let i = chain_index(chains[b], k);
        assert(chains[b][i].key == k);
    }
}

/// The node that leaves a map when the key is removed or its value replaced:
/// the key's entry, if the map has one.
pub open spec fn detached<K, V>(m: Map<K, V>, key: K) -> Option<Node<K, V>> {
    if m.contains_key(key) {
        Some(Node { key, value: m[key] })
    } else {
        None
    }
}

/// The node that a returned reference holds, if one was returned.
pub open spec fn node_of<K, V>(r: Option<Ref<K, V>>) -> Option<Node<K, V>> {
    match r {
        Some(r) => Some(r.node()),
        None => None,
    }
}

/// The batch holds the nodes of all the chains, in the order of the chains,
/// each detached at `stamp`.
pub open spec fn is_teardown_of<K, V>(
    batch: Seq<Ref<K, V>>,
    chains: Seq<Seq<Node<K, V>>>,
    stamp: u64,
) -> bool {
    &&& batch.len() == flat(chains).len()
    &&& forall|j: int|
        0 <= j < batch.len() ==> (#[trigger] batch[j]).node() == flat(chains)[j]
            && batch[j].detached_at() == stamp
}

/// A hash map for many readers and writers. Each change is one atomic step
/// on one chain; a node that a step takes out of its chain leaves as a
/// [`Ref`], stamped with the instant of the step.
#[derive(Debug)]
pub struct RcuHashMap<K, V> {
    buckets: Vec<Vec<Node<K, V>>>,
}

impl<K: MapKey, V> RcuHashMap<K, V> {
    /// The chains of the table, by bucket.
    pub closed spec fn chains(&self) -> Seq<Seq<Node<K, V>>> {
        Seq::new(self.buckets@.len(), |b: int| self.buckets@[b]@)
    }

    /// The chain in which the key lives.
    pub open spec fn chain_of(&self, key: K) -> Seq<Node<K, V>> {
        self.chains()[bucket_of(key, self.chains().len())]
    }

    /// The table is well formed: see [`table_wf`].
    pub open spec fn wf(&self) -> bool {
        table_wf(self.chains())
    }

    /// The map as a mathematical map from keys to values.
    pub open spec fn view(&self) -> Map<K, V> {
        table_view(self.chains())
    }

    /// Creates a new RCU hashmap, with [`DEFAULT_BUCKETS`] buckets.
    pub fn new() -> (map: Self)
        ensures
            map.wf(),
            map@ == Map::<K, V>::empty(),
            map.chains() == Seq::new(DEFAULT_BUCKETS as nat, |b: int| Seq::<Node<K, V>>::empty()),
    {
        Self::empty_table(DEFAULT_BUCKETS)
    }

    /// Creates a map with the given number of buckets; a map needs at least
    /// one.
    pub fn with_buckets(count: usize) -> (made: Option<Self>)
        ensures
            made is Some <==> count > 0,
            made is Some ==> {
                let map = made->Some_0;
                &&& map.wf()
                &&& map@ == Map::<K, V>::empty()
                &&& map.chains() == Seq::new(count as nat, |b: int| Seq::<Node<K, V>>::empty())
            },
    {
        if count == 0 {
            None
        } else {
            Some(Self::empty_table(count))
        }
    }

    /// A table of `count` empty chains.
    fn empty_table(count: usize) -> (map: Self)
        requires
            count > 0,
        ensures
            map.wf(),
            map@ == Map::<K, V>::empty(),
            map.chains() == Seq::new(count as nat, |b: int| Seq::<Node<K, V>>::empty()),
    {
        let mut buckets: Vec<Vec<Node<K, V>>> = Vec::new();
        let mut b: usize = 0;
        while b < count
            invariant
                b <= count,
                buckets@.len() == b,
                forall|j: int|
                    0 <= j < b ==> (#[trigger] buckets@[j])@ == Seq::<Node<K, V>>::empty(),
            decreases count - b,
        {
            buckets.push(Vec::new());
            b = b + 1;
        }
        let map = RcuHashMap { buckets };
        assert(map.chains() =~= Seq::new(count as nat, |b: int| Seq::<Node<K, V>>::empty()));
        assert(map@ =~= Map::<K, V>::empty());
        map
    }

    /// The number of buckets.
    pub fn bucket_count(&self) -> (count: usize)
        ensures
            count == self.chains().len(),
    {
        self.buckets.len()
    }

    /// The bucket of a key.
    fn slot(&self, key: &K) -> (b: usize)
        requires
            self.chains().len() > 0,
        ensures
            b == bucket_of(*key, self.chains().len()),
            b < self.chains().len(),
    {
        (key.hash() % (self.buckets.len() as u64)) as usize
    }

    /// Inserts a key-value pair in the hashmap, inside the critical section
    /// of `guard`.
    ///
    /// Where the key is new, its node becomes the head of its chain and
    /// nothing is returned. Where the key is present, the new node takes the
    /// old node's place in the chain, and the old node is returned as a
    /// reference detached at the current instant of `ctx`.
    pub fn insert(&mut self, key: K, value: V, ctx: &RcuDomain, guard: &ReadGuard) -> (replaced:
        Option<Ref<K, V>>)
        requires
            old(self).wf(),
            ctx.guard_active(*guard),
        ensures
            final(self).wf(),
            final(self)@ == old(self)@.insert(key, value),
            final(self).chains().len() == old(self).chains().len(),
            node_of(replaced) == detached(old(self)@, key),
            replaced is Some <==> old(self)@.contains_key(key),
            replaced is Some ==> {
                &&& replaced->Some_0.node() == (Node { key, value: old(self)@[key] })
                &&& replaced->Some_0.detached_at() == ctx.now()
                &&& final(self).chains() == old(self).chains().update(
                    bucket_of(key, old(self).chains().len()),
                    old(self).chain_of(key).update(
                        chain_index(old(self).chain_of(key), key),
                        Node { key, value },
                    ),
                )
            },
            replaced is None ==> final(self).chains() == old(self).chains().update(
                bucket_of(key, old(self).chains().len()),
                old(self).chain_of(key).insert(0, Node { key, value }),
            ),
    {
        let b = self.slot(&key);
        let found = find(&self.buckets[b], &key);
        let stamp = ctx.barrier();
        let ghost before = old(self).chain_of(key);
        assert(before == self.buckets@[b as int]@);
        let mut node = Node { key, value };
        match found {
            Some(i) => {
                proof {
                    lemma_chain_index_is_unique(before, key, i as int);
                    lemma_chain_replace(before, i as int, node);
                }
                core::mem::swap(&mut self.buckets[b][i], &mut node);
                proof {
                    assert(self.buckets@[b as int]@ == before.update(i as int, Node { key, value }));
                    assert(self.chains() =~= old(self).chains().update(
                        b as int,
                        before.update(i as int, Node { key, value }),
                    ));
                    lemma_bucket_changed(old(self), self, key, value);
                }
                Some(Ref::new(node, stamp))
            },
            None => {
                proof {
                    lemma_chain_prepend(before, node);
                }
                self.buckets[b].insert(0, node);
                proof {
                    assert(self.chains() =~= old(self).chains().update(
                        b as int,
                        before.insert(0, Node { key, value }),
                    ));
                    lemma_bucket_changed(old(self), self, key, value);
                }
                None
            },
        }
    }

    /// Returns `true` if the hashmap contains a value for the specified key.
    /// A single scan of the key's chain, inside the critical section of
    /// `guard`.
    pub fn contains(&self, key: &K, ctx: &RcuDomain, guard: &ReadGuard) -> (present: bool)
        requires
            self.wf(),
            ctx.guard_active(*guard),
        ensures
            present == self@.contains_key(*key),
    {
        let b = self.slot(key);
        find(&self.buckets[b], key).is_some()
    }

    /// Returns a reference to the value corresponding to the key, or nothing
    /// where the map does not hold the key. The reference lives no longer
    /// than the guard: the section cannot be closed while it is held.
    pub fn get<'a>(&'a self, key: &K, ctx: &RcuDomain, guard: &'a ReadGuard) -> (value: Option<
        &'a V,
    >)
        requires
            self.wf(),
            ctx.guard_active(*guard),
        ensures
            value is Some <==> self@.contains_key(*key),
            value is Some ==> *value->Some_0 == self@[*key],
    {
        let b = self.slot(key);
        match find(&self.buckets[b], key) {
            Some(i) => {
                proof {
                    lemma_chain_index_is_unique(self.chain_of(*key), *key, i as int);
                }
                Some(&self.buckets[b][i].value)
            },
            None => None,
        }
    }

    /// Removes a key from the hashmap. Where the map holds the key, its node
    /// is unlinked from its chain and returned as a reference detached at the
    /// current instant of `ctx`; where it does not, nothing changes.
    pub fn remove(&mut self, key: &K, ctx: &RcuDomain, guard: &ReadGuard) -> (removed: Option<
        Ref<K, V>,
    >)
        requires
            old(self).wf(),
            ctx.guard_active(*guard),
        ensures
            final(self).wf(),
            final(self)@ == old(self)@.remove(*key),
            final(self).chains().len() == old(self).chains().len(),
            node_of(removed) == detached(old(self)@, *key),
            removed is Some <==> old(self)@.contains_key(*key),
            removed is Some ==> {
                &&& removed->Some_0.node() == (Node { key: *key, value: old(self)@[*key] })
                &&& removed->Some_0.detached_at() == ctx.now()
                &&& final(self).chains() == old(self).chains().update(
                    bucket_of(*key, old(self).chains().len()),
                    old(self).chain_of(*key).remove(chain_index(old(self).chain_of(*key), *key)),
                )
            },
            removed is None ==> final(self).chains() == old(self).chains(),
    {
        let b = self.slot(key);
        let ghost before = old(self).chain_of(*key);
        assert(before == self.buckets@[b as int]@);
        match find(&self.buckets[b], key) {
            Some(i) => {
                let stamp = ctx.barrier();
                proof {
                    lemma_chain_index_is_unique(before, *key, i as int);
                    lemma_chain_unlink(before, i as int);
                }
                let node = self.buckets[b].remove(i);
                proof {
                    assert(self.chains() =~= old(self).chains().update(
                        b as int,
                        before.remove(i as int),
                    ));
                    lemma_bucket_unlinked(old(self), self, *key);
                }
                Some(Ref::new(node, stamp))
            },
            None => {
                assert(self@ =~= old(self)@.remove(*key));
                None
            },
        }
    }

    /// One step of a traversal that reads the map chain by chain: returns
    /// the keys of one bucket with references to their values, from the head
    /// of the chain, as the chain is at the call. A bucket that the table
    /// does not have is empty.
    ///
    /// A traversal that takes this step once for every bucket sees every
    /// key that stays in the map throughout, whatever is inserted or removed
    /// between its steps.
    pub fn iter_bucket<'a>(
        &'a self,
        bucket: usize,
        ctx: &RcuDomain,
        guard: &'a ReadGuard,
    ) -> (entries: Vec<(&'a K, &'a V)>)
        requires
            self.wf(),
            ctx.guard_active(*guard),
        ensures
            bucket >= self.chains().len() ==> entries@.len() == 0,
            bucket < self.chains().len() ==> entries@.len() == self.chains()[bucket as int].len(),
            forall|j: int|
                0 <= j < entries@.len() ==> *(#[trigger] entries@[j]).0
                    == self.chains()[bucket as int][j].key && *entries@[j].1
                    == self.chains()[bucket as int][j].value,
    {
        let mut entries: Vec<(&'a K, &'a V)> = Vec::new();
        if bucket < self.buckets.len() {
            let chain = &self.buckets[bucket];
            let mut i: usize = 0;
            while i < chain.len()
                invariant
                    i <= chain.len(),
                    bucket < self.buckets.len(),
                    chain@ == self.chains()[bucket as int],
                    entries@.len() == i,
                    forall|j: int|
                        0 <= j < i ==> *(#[trigger] entries@[j]).0 == chain@[j].key
                            && *entries@[j].1 == chain@[j].value,
                decreases chain.len() - i,
            {
                entries.push((&chain[i].key, &chain[i].value));
                i = i + 1;
            }
        }
        entries
    }

    /// Returns every key with a reference to its value, bucket by bucket and
    /// along each chain from its head, as the links are read. Each call
    /// starts anew. The references live no longer than the guard.
    pub fn iter<'a>(&'a self, ctx: &RcuDomain, guard: &'a ReadGuard) -> (entries: Vec<
        (&'a K, &'a V),
    >)
        requires
            self.wf(),
            ctx.guard_active(*guard),
        ensures
            entries@.len() == flat(self.chains()).len(),
            forall|j: int|
                0 <= j < entries@.len() ==> *(#[trigger] entries@[j]).0 == flat(
                    self.chains(),
                )[j].key && *entries@[j].1 == flat(self.chains())[j].value,
            lists_exactly(flat(self.chains()), self@),
    {
        let mut entries: Vec<(&'a K, &'a V)> = Vec::new();
        let mut b: usize = 0;
        while b < self.buckets.len()
            invariant
                b <= self.buckets.len(),
                entries@.len() == flat(self.chains().take(b as int)).len(),
                forall|j: int|
                    0 <= j < entries@.len() ==> *(#[trigger] entries@[j]).0 == flat(
                        self.chains().take(b as int),
                    )[j].key && *entries@[j].1 == flat(self.chains().take(b as int))[j].value,
            decreases self.buckets.len() - b,
        {
            let chain = &self.buckets[b];
            let ghost done = flat(self.chains().take(b as int));
            let mut i: usize = 0;
            while i < chain.len()
                invariant
                    i <= chain.len(),
                    b < self.buckets.len(),
                    chain@ == self.chains()[b as int],
                    entries@.len() == done.len() + i,
                    forall|j: int|
                        0 <= j < done.len() ==> *(#[trigger] entries@[j]).0 == done[j].key
                            && *entries@[j].1 == done[j].value,
                    forall|j: int|
                        done.len() <= j < entries@.len() ==> *(#[trigger] entries@[j]).0 == chain@[j
                            - done.len()].key && *entries@[j].1 == chain@[j - done.len()].value,
                decreases chain.len() - i,
            {
                entries.push((&chain[i].key, &chain[i].value));
                i = i + 1;
            }
            proof {
                lemma_flat_step(self.chains(), b as int);
            }
            b = b + 1;
        }
        proof {
            assert(self.chains().take(self.buckets.len() as int) =~= self.chains());
            lemma_flat_lists_exactly(self.chains());
        }
        entries
    }

    /// Takes the map apart: every node of every chain is detached, bucket by
    /// bucket and along each chain from its head, and the nodes are returned
    /// as one batch of references detached at the current instant of `ctx`.
    /// The caller need not be a participant of the domain.
    pub fn teardown(self, ctx: &RcuDomain) -> (batch: Vec<Ref<K, V>>)
        requires
            self.wf(),
        ensures
            is_teardown_of(batch@, self.chains(), ctx.now()),
            lists_exactly(flat(self.chains()), self@),
    {
        let stamp = ctx.barrier();
        let ghost chains = self.chains();
        let count = self.buckets.len();
        let mut buckets = reversed(self.buckets);
        let mut batch: Vec<Ref<K, V>> = Vec::new();
        let mut b: usize = 0;
        while b < count
            invariant
                b <= count,
                count == chains.len(),
                buckets@.len() == count - b,
                forall|c: int|
                    0 <= c < count - b ==> (#[trigger] buckets@[c])@ == chains[count - 1 - c],
                batch@.len() == flat(chains.take(b as int)).len(),
                forall|j: int|
                    0 <= j < batch@.len() ==> (#[trigger] batch@[j]).node() == flat(
                        chains.take(b as int),
                    )[j] && batch@[j].detached_at() == stamp,
            decreases count - b,
        {
            let chain = buckets.pop().unwrap();
            let ghost done = flat(chains.take(b as int));
            let ghost links = chain@;
            assert(links == chains[b as int]);
            let length = chain.len();
            let mut rest = reversed(chain);
            let mut i: usize = 0;
            while i < length
                invariant
                    i <= length,
                    length == links.len(),
                    rest@.len() == length - i,
                    forall|c: int| 0 <= c < length - i ==> #[trigger] rest@[c] == links[length - 1 - c],
                    batch@.len() == done.len() + i,
                    forall|j: int|
                        0 <= j < done.len() ==> (#[trigger] batch@[j]).node() == done[j]
                            && batch@[j].detached_at() == stamp,
                    forall|j: int|
                        done.len() <= j < batch@.len() ==> (#[trigger] batch@[j]).node() == links[j
                            - done.len()] && batch@[j].detached_at() == stamp,
                decreases length - i,
            {
                let node = rest.pop().unwrap();
                batch.push(Ref::new(node, stamp));
                i = i + 1;
            }
            proof {
                lemma_flat_step(chains, b as int);
            }
            b = b + 1;
        }
        proof {
            assert(chains.take(count as int) =~= chains);
            lemma_flat_lists_exactly(chains);
        }
        batch
    }

    /// What dropping the last handle of the map does: the map is taken apart
    /// and its nodes go to the cleanup coordinator as one request, to be
    /// reclaimed together after one grace period. The caller need not be a
    /// participant of the domain. If the coordinator does not run, the
    /// detached nodes come back to the caller.
    pub fn dispose(
        self,
        ctx: &RcuDomain,
        coordinator: &mut CleanupCoordinator<Vec<Ref<K, V>>>,
    ) -> (r: Result<(), Vec<Ref<K, V>>>) where K: Send + 'static, V: Send + 'static
        requires
            self.wf(),
        ensures
            final(coordinator).worker() == old(coordinator).worker(),
            r is Ok <==> old(coordinator).is_running(),
            r is Ok ==> {
                let queue = final(coordinator).queue();
                &&& queue.len() == old(coordinator).queue().len() + 1
                &&& queue.drop_last() == old(coordinator).queue()
                &&& is_teardown_of(queue.last().reference@, self.chains(), ctx.now())
            },
            r is Err ==> final(coordinator).queue() == old(coordinator).queue() && is_teardown_of(
                r->Err_0@,
                self.chains(),
                ctx.now(),
            ),
            lists_exactly(flat(self.chains()), self@),
    {
        let batch = self.teardown(ctx);
        let r = batch.safe_cleanup(coordinator);
        proof {
            if r is Ok {
                assert(coordinator.queue().drop_last() =~= old(coordinator).queue());
            }
        }
        r
    }
}

/// Looks for the key along a chain, from its head.
fn find<K: MapKey, V>(chain: &Vec<Node<K, V>>, key: &K) -> (found: Option<usize>)
    ensures
        found is Some <==> chain_has(chain@, *key),
        found is Some ==> found->Some_0 < chain@.len() && chain@[found->Some_0 as int].key == *key,
{
    let mut i: usize = 0;
    while i < chain.len()
        invariant
            i <= chain.len(),
            forall|j: int| 0 <= j < i ==> (#[trigger] chain@[j]).key != *key,
        decreases chain.len() - i,
    {
        if chain[i].key.same(key) {
            return Some(i);
        }
        i = i + 1;
    }
    None
}

/// One chain of a table was exchanged for another that differs from it in the
/// entry of one key alone: the table then maps that key to the new value and
/// every other key as before.
proof fn lemma_bucket_changed<K: MapKey, V>(
    before: &RcuHashMap<K, V>,
    after: &RcuHashMap<K, V>,
    key: K,
    value: V,
)
    requires
        before.wf(),
        after.chains().len() == before.chains().len(),
        after.chains() == before.chains().update(
            bucket_of(key, before.chains().len()),
            after.chain_of(key),
        ),
        chain_distinct(after.chain_of(key)),
        forall|i: int|
            0 <= i < after.chain_of(key).len() ==> bucket_of(
                (#[trigger] after.chain_of(key)[i]).key,
                before.chains().len(),
            ) == bucket_of(key, before.chains().len()),
        forall|k: K|
            chain_has(after.chain_of(key), k) <==> (k == key || chain_has(before.chain_of(key), k)),
        forall|k: K|
            chain_has(after.chain_of(key), k) ==> #[trigger] chain_value(after.chain_of(key), k)
                == if k == key {
                value
            } else {
                chain_value(before.chain_of(key), k)
            },
    ensures
        after.wf(),
        after@ == before@.insert(key, value),
{
    let n = before.chains().len();
    let b = bucket_of(key, n);
    assert forall|c: int, i: int|
        0 <= c < after.chains().len() && 0 <= i < after.chains()[c].len() implies bucket_of(
        (#[trigger] after.chains()[c][i]).key,
        after.chains().len(),
    ) == c by {
        if c != b {
            assert(after.chains()[c] == before.chains()[c]);
        }
    }
    assert forall|c: int| 0 <= c < after.chains().len() implies chain_distinct(
        #[trigger] after.chains()[c],
    ) by {
        if c != b {
            assert(after.chains()[c] == before.chains()[c]);
        }
    }
    assert forall|k: K| after@.contains_key(k) <==> before@.insert(key, value).contains_key(
        k,
    ) by {
        if bucket_of(k, n) != b {
            assert(after.chain_of(k) == before.chain_of(k));
        } else {
            assert(after.chain_of(k) == after.chain_of(key));
            assert(before.chain_of(k) == before.chain_of(key));
        }
    }
    assert forall|k: K| after@.contains_key(k) implies after@[k] == before@.insert(
        key,
        value,
    )[k] by {
        if bucket_of(k, n) != b {
            assert(after.chain_of(k) == before.chain_of(k));
        } else {
            assert(after.chain_of(k) == after.chain_of(key));
            assert(before.chain_of(k) == before.chain_of(key));
        }
    }
    assert(after@ =~= before@.insert(key, value));
}

/// One chain of a table lost the node of one key: the table then lacks that
/// key and maps every other key as before.
proof fn lemma_bucket_unlinked<K: MapKey, V>(before: &RcuHashMap<K, V>, after: &RcuHashMap<K, V>, key: K)
    requires
        before.wf(),
        after.chains().len() == before.chains().len(),
        after.chains() == before.chains().update(
            bucket_of(key, before.chains().len()),
            after.chain_of(key),
        ),
        chain_distinct(after.chain_of(key)),
        forall|i: int|
            0 <= i < after.chain_of(key).len() ==> bucket_of(
                (#[trigger] after.chain_of(key)[i]).key,
                before.chains().len(),
            ) == bucket_of(key, before.chains().len()),
        forall|k: K|
            chain_has(after.chain_of(key), k) <==> (k != key && chain_has(before.chain_of(key), k)),
        forall|k: K|
            chain_has(after.chain_of(key), k) ==> #[trigger] chain_value(after.chain_of(key), k)
                == chain_value(before.chain_of(key), k),
    ensures
        after.wf(),
        after@ == before@.remove(key),
{
    let n = before.chains().len();
    let b = bucket_of(key, n);
    assert forall|c: int, i: int|
        0 <= c < after.chains().len() && 0 <= i < after.chains()[c].len() implies bucket_of(
        (#[trigger] after.chains()[c][i]).key,
        after.chains().len(),
    ) == c by {
        if c != b {
            assert(after.chains()[c] == before.chains()[c]);
        }
    }
    assert forall|c: int| 0 <= c < after.chains().len() implies chain_distinct(
        #[trigger] after.chains()[c],
    ) by {
        if c != b {
            assert(after.chains()[c] == before.chains()[c]);
        }
    }
    assert forall|k: K| after@.contains_key(k) <==> before@.remove(key).contains_key(k) by {
        if bucket_of(k, n) != b {
            assert(after.chain_of(k) == before.chain_of(k));
        } else {
            assert(after.chain_of(k) == after.chain_of(key));
            assert(before.chain_of(k) == before.chain_of(key));
        }
    }
    assert forall|k: K| after@.contains_key(k) implies after@[k] == before@.remove(key)[k] by {
        if bucket_of(k, n) != b {
            assert(after.chain_of(k) == before.chain_of(k));
        } else {
            assert(after.chain_of(k) == after.chain_of(key));
            assert(before.chain_of(k) == before.chain_of(key));
        }
    }
    assert(after@ =~= before@.remove(key));
}

} // verus!
