//! What sequences of changes do to a map: the order in which writers on
//! different keys take their turns does not matter, a key is replaced and
//! removed once, and what went in comes out unchanged.

use vstd::prelude::*;
use crate::hashmap::container::{
    bucket_of, chain_has, chain_value, detached, flat, is_teardown_of, lemma_flat_lists_exactly,
    lists_exactly, table_view, table_wf,
};
use crate::hashmap::key::MapKey;
use crate::hashmap::reference::{Node, Ref, RefOwned};
use crate::rcu::context::{
    lemma_grace_elapsed_is_monotone, lemma_open_section_holds_back_reclamation, RcuDomain, ReadGuard,
};
use crate::rcu::reference::{all_yield, latest_due, lemma_latest_due_is_bounded, RcuRef};

verus! {

/// One change to a map.
#[derive(Debug)]
pub enum Op<K, V> {
    /// Insert the key with the value, or replace the key's value.
    Insert(K, V),
    /// Remove the key.
    Remove(K),
}

impl<K, V> Op<K, V> {
    /// The key that the change is about.
    pub open spec fn key(&self) -> K {
        match self {
            Op::Insert(k, _) => *k,
            Op::Remove(k) => *k,
        }
    }
}

/// The map after one change.
pub open spec fn apply<K, V>(m: Map<K, V>, op: Op<K, V>) -> Map<K, V> {
    match op {
        Op::Insert(k, v) => m.insert(k, v),
        Op::Remove(k) => m.remove(k),
    }
}

/// The map after a sequence of changes, first to last.
pub open spec fn apply_all<K, V>(m: Map<K, V>, ops: Seq<Op<K, V>>) -> Map<K, V>
    decreases ops.len(),
{
    if ops.len() == 0 {
        m
    } else {
        apply(apply_all(m, ops.drop_last()), ops.last())
    }
}

/// The last change of the sequence that is about the key, if there is one.
pub open spec fn last_on<K, V>(ops: Seq<Op<K, V>>, key: K) -> Option<Op<K, V>>
    decreases ops.len(),
{
    if ops.len() == 0 {
        None
    } else if ops.last().key() == key {
        Some(ops.last())
    } else {
        last_on(ops.drop_last(), key)
    }
}

/// `merged` takes the changes of `a` and of `b`, each in its own order, in
/// some order of turns.
pub open spec fn interleaves<K, V>(merged: Seq<Op<K, V>>, a: Seq<Op<K, V>>, b: Seq<Op<K, V>>) -> bool
    decreases merged.len(),
{
    if merged.len() == 0 {
        a.len() == 0 && b.len() == 0
    } else {
        ||| (a.len() > 0 && a.last() == merged.last() && interleaves(
            merged.drop_last(),
            a.drop_last(),
            b,
        ))
        ||| (b.len() > 0 && b.last() == merged.last() && interleaves(
            merged.drop_last(),
            a,
            b.drop_last(),
        ))
    }
}

/// No change of `a` is about a key that a change of `b` is about.
pub open spec fn disjoint_keys<K, V>(a: Seq<Op<K, V>>, b: Seq<Op<K, V>>) -> bool {
    forall|i: int, j: int|
        0 <= i < a.len() && 0 <= j < b.len() ==> (#[trigger] a[i]).key() != (#[trigger] b[j]).key()
}

/// Two changes about different keys give the same map in either order.
pub proof fn lemma_changes_commute<K, V>(m: Map<K, V>, first: Op<K, V>, second: Op<K, V>)
    requires
        first.key() != second.key(),
    ensures
        apply(apply(m, first), second) == apply(apply(m, second), first),
{
    assert(apply(apply(m, first), second) =~= apply(apply(m, second), first));
}

/// A change about a key that a sequence of changes leaves alone may be made
/// before the sequence or after it.
pub proof fn lemma_change_moves_past<K, V>(m: Map<K, V>, op: Op<K, V>, ops: Seq<Op<K, V>>)
    requires
        forall|j: int| 0 <= j < ops.len() ==> (#[trigger] ops[j]).key() != op.key(),
    ensures
        apply(apply_all(m, ops), op) == apply_all(apply(m, op), ops),
    decreases ops.len(),
{
    if ops.len() > 0 {
        let init = ops.drop_last();
        assert forall|j: int| 0 <= j < init.len() implies (#[trigger] init[j]).key()
            != op.key() by {
            assert(init[j] == ops[j]);
        }
        lemma_change_moves_past(m, op, init);
        lemma_changes_commute(apply_all(m, init), ops.last(), op);
    }
}

/// Writers on disjoint keys: whatever the order of their turns, the map ends
/// as if one writer had made all its changes before the other began.
pub proof fn lemma_interleaving_does_not_matter<K, V>(
    m: Map<K, V>,
    merged: Seq<Op<K, V>>,
    a: Seq<Op<K, V>>,
    b: Seq<Op<K, V>>,
)
    requires
        interleaves(merged, a, b),
        disjoint_keys(a, b),
    ensures
        apply_all(m, merged) == apply_all(apply_all(m, a), b),
    decreases merged.len(),
{
    if merged.len() > 0 {
        let init = merged.drop_last();
        if a.len() > 0 && a.last() == merged.last() && interleaves(init, a.drop_last(), b) {
            let rest = a.drop_last();
            assert forall|i: int, j: int| 0 <= i < rest.len() && 0 <= j < b.len() implies (
            #[trigger] rest[i]).key() != (#[trigger] b[j]).key() by {
                assert(rest[i] == a[i]);
            }
            lemma_interleaving_does_not_matter(m, init, rest, b);
            assert forall|j: int| 0 <= j < b.len() implies (#[trigger] b[j]).key()
                != a.last().key() by {
                assert(a[a.len() - 1].key() != b[j].key());
            }
            lemma_change_moves_past(apply_all(m, rest), a.last(), b);
        } else {
            let rest = b.drop_last();
            assert forall|i: int, j: int| 0 <= i < a.len() && 0 <= j < rest.len() implies (
            #[trigger] a[i]).key() != (#[trigger] rest[j]).key() by {
                assert(rest[j] == b[j]);
            }
            lemma_interleaving_does_not_matter(m, init, a, rest);
        }
    }
}

/// After a sequence of changes a key is in the map exactly if the last
/// change about it was an insertion, or if no change was about it and the
/// map had it before; its value is then the one last inserted, or the old
/// one.
pub proof fn lemma_net_effect<K, V>(m: Map<K, V>, ops: Seq<Op<K, V>>, key: K)
    ensures
        apply_all(m, ops).contains_key(key) <==> match last_on(ops, key) {
            Some(Op::Insert(_, _)) => true,
            Some(Op::Remove(_)) => false,
            None => m.contains_key(key),
        },
        apply_all(m, ops).contains_key(key) ==> apply_all(m, ops)[key] == match last_on(ops, key) {
            Some(Op::Insert(_, v)) => v,
            _ => m[key],
        },
    decreases ops.len(),
{
    if ops.len() > 0 {
        lemma_net_effect(m, ops.drop_last(), key);
    }
}

/// Changes about other keys leave a key as it is: in the map or not, and
/// with the same value.
pub proof fn lemma_other_changes_keep_key<K, V>(m: Map<K, V>, ops: Seq<Op<K, V>>, key: K)
    requires
        forall|j: int| 0 <= j < ops.len() ==> (#[trigger] ops[j]).key() != key,
    ensures
        apply_all(m, ops).contains_key(key) == m.contains_key(key),
        m.contains_key(key) ==> apply_all(m, ops)[key] == m[key],
    decreases ops.len(),
{
    if ops.len() > 0 {
        let init = ops.drop_last();
        assert forall|j: int| 0 <= j < init.len() implies (#[trigger] init[j]).key() != key by {
            assert(init[j] == ops[j]);
        }
        lemma_other_changes_keep_key(m, init, key);
        assert(ops[ops.len() - 1].key() != key);
    }
}

/// A key that is in the map sits in the chain of its bucket, with its value:
/// a traversal that reads that chain while the key is in the map sees it.
pub proof fn lemma_live_key_is_in_its_chain<K: MapKey, V>(chains: Seq<Seq<Node<K, V>>>, key: K)
    requires
        table_wf(chains),
        table_view(chains).contains_key(key),
    ensures
        chain_has(chains[bucket_of(key, chains.len())], key),
        chain_value(chains[bucket_of(key, chains.len())], key) == table_view(chains)[key],
{
}

/// Inserting a key twice leaves one entry for it, with the second value, and
/// no other entry changes; the second insertion detaches exactly the node
/// that the first one put in.
pub proof fn lemma_second_insert_replaces<K, V>(m: Map<K, V>, key: K, v1: V, v2: V)
    ensures
        detached(m.insert(key, v1), key) == Some(Node { key, value: v1 }),
        m.insert(key, v1).insert(key, v2) == m.insert(key, v2),
        m.insert(key, v1).insert(key, v2)[key] == v2,
        m.insert(key, v1).insert(key, v2).dom() == m.insert(key, v1).dom(),
        detached(m.insert(key, v1).insert(key, v2), key) == Some(Node { key, value: v2 }),
{
    assert(m.insert(key, v1).insert(key, v2) =~= m.insert(key, v2));
    assert(m.insert(key, v1).insert(key, v2).dom() =~= m.insert(key, v1).dom());
}

/// A key of the map has exactly one live node: among all the nodes of the
/// table there is one with that key, and no second one.
pub proof fn lemma_one_node_per_key<K: MapKey, V>(chains: Seq<Seq<Node<K, V>>>, key: K)
    requires
        table_wf(chains),
        table_view(chains).contains_key(key),
    ensures
        chain_has(flat(chains), key),
        forall|i: int, j: int|
            0 <= i < flat(chains).len() && 0 <= j < flat(chains).len() && (#[trigger] flat(
                chains,
            )[i]).key == key && (#[trigger] flat(chains)[j]).key == key ==> i == j,
{
    lemma_flat_lists_exactly(chains);
    let nodes = flat(chains);
    assert forall|i: int, j: int|
        0 <= i < nodes.len() && 0 <= j < nodes.len() && (#[trigger] nodes[i]).key == key && (
        #[trigger] nodes[j]).key == key implies i == j by {
        if i < j {
            assert(nodes[i].key != nodes[j].key);
        } else if j < i {
            assert(nodes[j].key != nodes[i].key);
        }
    }
}

/// Of two removals of one key, whichever comes first gets the node and the
/// other gets nothing; the map is the same after one as after both.
pub proof fn lemma_one_removal_wins<K, V>(m: Map<K, V>, key: K)
    ensures
        m.contains_key(key) ==> detached(m, key) is Some,
        detached(m.remove(key), key) is None,
        m.remove(key).remove(key) == m.remove(key),
{
    assert(m.remove(key).remove(key) =~= m.remove(key));
}

/// What was inserted is what comes out: the node detached by removing a key
/// right after its insertion holds the inserted value, and the owned value
/// that its reference converts to holds the same key and value.
pub proof fn lemma_round_trip<K, V>(
    m: Map<K, V>,
    key: K,
    value: V,
    removed: Ref<K, V>,
    owned: RefOwned<K, V>,
)
    requires
        Some(removed.node()) == detached(m.insert(key, value), key),
        removed.yields(&owned),
    ensures
        owned.node().key == key,
        owned.node().value == value,
{
}

/// A node detached while a reader's critical section is open stays out of
/// reach of reclamation for as long as that section is open: the grace
/// period of the reference has not elapsed in any state of the domain in
/// which the guard is still active.
pub proof fn lemma_reader_outlives_removal<K, V>(
    at_removal: &RcuDomain,
    later: &RcuDomain,
    guard: ReadGuard,
    removed: Ref<K, V>,
)
    requires
        at_removal.wf(),
        at_removal.guard_active(guard),
        removed.detached_at() == at_removal.now(),
        later.guard_active(guard),
    ensures
        !later.grace_elapsed(removed.due()),
{
    lemma_open_section_holds_back_reclamation(at_removal, later, guard);
}

/// Once every section that was open at the removal has been closed, the
/// conversion is owed: a barrier that completes in a later state of the
/// domain covers every node detached before it.
pub proof fn lemma_barrier_releases_removed<K, V>(
    at_removal: &RcuDomain,
    later: &RcuDomain,
    removed: Ref<K, V>,
)
    requires
        at_removal.precedes(later),
        removed.detached_at() == at_removal.now(),
        later.grace_elapsed(later.now()),
    ensures
        later.grace_elapsed(removed.due()),
{
    lemma_grace_elapsed_is_monotone(later, removed.due(), later.now());
}

/// Taking a map apart loses nothing and waits for nothing but its own
/// instant: the batch waits for the instant of the teardown at the latest,
/// and the owned nodes that it converts to are the nodes of the map, each
/// key once, with its value.
pub proof fn lemma_teardown_reclaims_every_node<K: MapKey, V>(
    chains: Seq<Seq<Node<K, V>>>,
    batch: Seq<Ref<K, V>>,
    owned: Seq<RefOwned<K, V>>,
    stamp: u64,
)
    requires
        table_wf(chains),
        is_teardown_of(batch, chains, stamp),
        all_yield(batch, owned),
    ensures
        latest_due(batch) <= stamp,
        owned.len() == flat(chains).len(),
        forall|j: int| 0 <= j < owned.len() ==> (#[trigger] owned[j]).node() == flat(chains)[j],
        lists_exactly(flat(chains), table_view(chains)),
{
    lemma_latest_due_is_bounded(batch, stamp);
    lemma_flat_lists_exactly(chains);
    assert forall|j: int| 0 <= j < owned.len() implies (#[trigger] owned[j]).node() == flat(
        chains,
    )[j] by {
        assert(batch[j].yields(&owned[j]));
    }
}

} // verus!
