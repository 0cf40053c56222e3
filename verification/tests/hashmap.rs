use std::sync::atomic::{AtomicUsize, Ordering};
use std::sync::Arc;

use urcu::hashmap::container::{RcuHashMap, DEFAULT_BUCKETS};
use urcu::hashmap::key::MapKey;
use urcu::hashmap::reference::{Node, Ref, RefOwned};
use urcu::rcu::cleanup::{run_batch, CleanupCoordinator};
use urcu::rcu::context::{RcuDomain, RcuParticipant, ReadGuard};
use urcu::rcu::reference::RcuRef;

struct Counted {
    label: &'static str,
    live: Arc<AtomicUsize>,
}

impl Counted {
    fn new(label: &'static str, live: &Arc<AtomicUsize>) -> Counted {
        live.fetch_add(1, Ordering::SeqCst);
        Counted { label, live: Arc::clone(live) }
    }
}

impl Drop for Counted {
    fn drop(&mut self) {
        self.live.fetch_sub(1, Ordering::SeqCst);
    }
}

fn reader(domain: &mut RcuDomain, thread: u64) -> ReadGuard {
    let p = domain.register(thread, true, true).unwrap();
    domain.read_lock(&p).unwrap()
}

fn sorted(entries: Vec<(&u64, &&'static str)>) -> Vec<(u64, &'static str)> {
    let mut out: Vec<(u64, &'static str)> = entries.into_iter().map(|(k, v)| (*k, *v)).collect();
    out.sort();
    out
}

#[test]
fn new_map_is_empty_with_default_buckets() {
    let mut domain = RcuDomain::new();
    let guard = reader(&mut domain, 1);
    let map = RcuHashMap::<u64, u32>::new();
    assert_eq!(DEFAULT_BUCKETS, 16);
    assert_eq!(map.bucket_count(), 16);
    assert!(!map.contains(&0, &domain, &guard));
    assert_eq!(map.get(&0, &domain, &guard), None);
    assert!(map.iter(&domain, &guard).is_empty());
}

#[test]
fn lookup_in_empty_bucket_finds_nothing() {
    let mut domain = RcuDomain::new();
    let guard = reader(&mut domain, 2);
    let mut map = RcuHashMap::<u64, &'static str>::with_buckets(4).unwrap();
    assert!(map.insert(1, "one", &domain, &guard).is_none());
    assert_eq!(map.get(&2, &domain, &guard), None);
    assert_eq!(map.get(&5, &domain, &guard), None);
    assert!(!map.contains(&5, &domain, &guard));
    assert!(map.contains(&1, &domain, &guard));
}

#[test]
fn insert_lookup_iterate_remove() {
    let mut domain = RcuDomain::new();
    let guard = reader(&mut domain, 3);
    let mut map = RcuHashMap::<u64, &'static str>::new();
    assert!(map.insert(1, "a", &domain, &guard).is_none());
    assert!(map.insert(2, "b", &domain, &guard).is_none());
    let replaced = map.insert(1, "c", &domain, &guard).unwrap();
    assert_eq!(*replaced.key(), 1);
    assert_eq!(*replaced.value(), "a");
    assert_eq!(map.get(&1, &domain, &guard), Some(&"c"));
    assert_eq!(sorted(map.iter(&domain, &guard)), vec![(1, "c"), (2, "b")]);
    let removed = map.remove(&2, &domain, &guard).unwrap();
    assert_eq!(*removed.key(), 2);
    assert_eq!(*removed.value(), "b");
    assert_eq!(map.get(&2, &domain, &guard), None);
    assert!(!map.contains(&2, &domain, &guard));
    assert_eq!(sorted(map.iter(&domain, &guard)), vec![(1, "c")]);
}

#[test]
fn second_insert_leaves_one_node_and_detaches_the_first_once() {
    let live = Arc::new(AtomicUsize::new(0));
    let mut domain = RcuDomain::new();
    let guard = reader(&mut domain, 4);
    let mut map = RcuHashMap::<u64, Counted>::new();
    assert!(map.insert(7, Counted::new("v1", &live), &domain, &guard).is_none());
    let old = map.insert(7, Counted::new("v2", &live), &domain, &guard).unwrap();
    assert_eq!(live.load(Ordering::SeqCst), 2);
    assert_eq!(old.value().label, "v1");
    assert_eq!(map.get(&7, &domain, &guard).unwrap().label, "v2");
    assert_eq!(map.iter(&domain, &guard).len(), 1);
    domain.read_unlock(guard).unwrap();
    let me = domain.register(50, false, false).unwrap();
    let owned = match old.take_ownership(&me, &domain) {
        Ok(owned) => owned,
        Err(_) => panic!("the grace period has elapsed"),
    };
    assert_eq!(live.load(Ordering::SeqCst), 2);
    drop(owned);
    assert_eq!(live.load(Ordering::SeqCst), 1);
    let batch = map.teardown(&domain);
    assert_eq!(batch.len(), 1);
    drop(batch);
    assert_eq!(live.load(Ordering::SeqCst), 0);
}

#[test]
fn second_removal_finds_nothing() {
    let mut domain = RcuDomain::new();
    let first = reader(&mut domain, 5);
    let second = reader(&mut domain, 6);
    let mut map = RcuHashMap::<u64, u8>::new();
    map.insert(4, 40, &domain, &first);
    let a = map.remove(&4, &domain, &first);
    let b = map.remove(&4, &domain, &second);
    assert!(a.is_some());
    assert!(b.is_none());
    assert_eq!(*a.unwrap().value(), 40);
}

#[test]
fn removing_a_missing_key_changes_nothing() {
    let mut domain = RcuDomain::new();
    let guard = reader(&mut domain, 7);
    let mut map = RcuHashMap::<u64, u8>::with_buckets(2).unwrap();
    map.insert(1, 10, &domain, &guard);
    map.insert(3, 30, &domain, &guard);
    assert!(map.remove(&5, &domain, &guard).is_none());
    assert!(map.remove(&2, &domain, &guard).is_none());
    assert_eq!(map.iter(&domain, &guard), vec![(&3, &30), (&1, &10)]);
}

#[test]
fn new_key_becomes_head_of_its_chain_and_replacement_keeps_its_place() {
    let mut domain = RcuDomain::new();
    let guard = reader(&mut domain, 8);
    let mut map = RcuHashMap::<u64, &'static str>::new();
    map.insert(1, "one", &domain, &guard);
    map.insert(17, "seventeen", &domain, &guard);
    map.insert(33, "thirty-three", &domain, &guard);
    map.insert(0, "zero", &domain, &guard);
    map.insert(2, "two", &domain, &guard);
    assert_eq!(
        map.iter(&domain, &guard),
        vec![(&0, &"zero"), (&33, &"thirty-three"), (&17, &"seventeen"), (&1, &"one"), (&2, &"two")]
    );
    let old = map.insert(17, "XVII", &domain, &guard).unwrap();
    assert_eq!(*old.value(), "seventeen");
    assert_eq!(
        map.iter(&domain, &guard),
        vec![(&0, &"zero"), (&33, &"thirty-three"), (&17, &"XVII"), (&1, &"one"), (&2, &"two")]
    );
    let gone = map.remove(&33, &domain, &guard).unwrap();
    assert_eq!(*gone.key(), 33);
    assert_eq!(
        map.iter(&domain, &guard),
        vec![(&0, &"zero"), (&17, &"XVII"), (&1, &"one"), (&2, &"two")]
    );
}

#[test]
fn largest_key_has_a_bucket() {
    let mut domain = RcuDomain::new();
    let guard = reader(&mut domain, 9);
    let mut map = RcuHashMap::<u64, u8>::with_buckets(7).unwrap();
    assert_eq!(map.bucket_count(), 7);
    map.insert(u64::MAX, 1, &domain, &guard);
    map.insert(0, 2, &domain, &guard);
    assert_eq!(map.get(&u64::MAX, &domain, &guard), Some(&1));
    // u64::MAX is 1 modulo 7, so it comes after bucket 0
    assert_eq!(map.iter(&domain, &guard), vec![(&0, &2), (&u64::MAX, &1)]);
}

#[test]
fn writers_on_disjoint_keys_reach_the_same_map_in_any_order() {
    let mut domain = RcuDomain::new();
    let a = reader(&mut domain, 10);
    let b = reader(&mut domain, 11);

    let mut one = RcuHashMap::<u64, &'static str>::new();
    one.insert(1, "x", &domain, &a);
    one.insert(3, "y", &domain, &a);
    one.remove(&1, &domain, &a);
    one.insert(2, "p", &domain, &b);
    one.insert(4, "q", &domain, &b);
    one.remove(&4, &domain, &b);

    let mut two = RcuHashMap::<u64, &'static str>::new();
    two.insert(2, "p", &domain, &b);
    two.insert(1, "x", &domain, &a);
    two.insert(4, "q", &domain, &b);
    two.insert(3, "y", &domain, &a);
    two.remove(&4, &domain, &b);
    two.remove(&1, &domain, &a);

    let expected = vec![(2, "p"), (3, "y")];
    assert_eq!(sorted(one.iter(&domain, &a)), expected);
    assert_eq!(sorted(two.iter(&domain, &b)), expected);
}

#[test]
fn removed_node_is_held_back_until_the_reader_has_left() {
    let mut domain = RcuDomain::new();
    let reader_p = domain.register(116, false, false).unwrap();
    let writer_p = domain.register(117, false, false).unwrap();
    let mut map = RcuHashMap::<u64, &'static str>::new();

    let w = domain.read_lock(&writer_p).unwrap();
    map.insert(9, "nine", &domain, &w);
    domain.read_unlock(w).unwrap();

    let r = domain.read_lock(&reader_p).unwrap();
    assert_eq!(map.get(&9, &domain, &r), Some(&"nine"));

    let w = domain.read_lock(&writer_p).unwrap();
    let removed = map.remove(&9, &domain, &w).unwrap();
    domain.read_unlock(w).unwrap();
    assert_eq!(removed.stamp(), domain.barrier());
    assert!(r.section_stamp() < removed.stamp());

    // the reader is still inside: the node can be read but not owned
    assert!(!domain.poll(removed.due_stamp()));
    let removed = match removed.take_ownership(&writer_p, &domain) {
        Ok(_) => panic!("a reader is still inside its critical section"),
        Err(back) => back,
    };
    assert_eq!(*removed.value(), "nine");
    assert_eq!(*removed.key(), 9);

    domain.read_unlock(r).unwrap();
    assert!(domain.synchronize(&writer_p));
    // somebody the domain does not know cannot take it
    let stranger = RcuParticipant { id: 40, can_defer: true, can_call: true };
    let removed = match removed.take_ownership(&stranger, &domain) {
        Ok(_) => panic!("the caller is not a participant"),
        Err(back) => back,
    };
    let owned = match removed.take_ownership(&writer_p, &domain) {
        Ok(owned) => owned,
        Err(_) => panic!("every reader has left"),
    };
    assert_eq!(*owned.key(), 9);
    assert_eq!(*owned.value(), "nine");
}

#[test]
fn what_was_inserted_comes_out_unchanged() {
    let mut domain = RcuDomain::new();
    let guard = reader(&mut domain, 12);
    let mut map = RcuHashMap::<u64, Vec<u8>>::new();
    let bytes: Vec<u8> = vec![0, 255, 7, 7, 128];
    map.insert(0xdead_beef, bytes.clone(), &domain, &guard);
    let removed = map.remove(&0xdead_beef, &domain, &guard).unwrap();
    domain.read_unlock(guard).unwrap();
    let me = domain.register(60, false, false).unwrap();
    assert!(domain.synchronize(&me));
    assert!(domain.poll(removed.due_stamp()));
    let owned = removed.take_ownership_unchecked(&domain);
    assert_eq!(*owned.key(), 0xdead_beef);
    assert_eq!(*owned.value(), bytes);
    assert_eq!(owned.into_pair(), (0xdead_beef, bytes));
}

#[test]
fn teardown_from_an_unregistered_thread_leaves_no_node_behind() {
    let live = Arc::new(AtomicUsize::new(0));
    let mut domain = RcuDomain::new();
    let mut coordinator: CleanupCoordinator<Vec<Ref<u64, Counted>>> = CleanupCoordinator::new();
    coordinator.start(&mut domain, 118).unwrap();

    let guard = reader(&mut domain, 13);
    let mut map = RcuHashMap::<u64, Counted>::new();
    let n: u64 = 100;
    let mut k: u64 = 1;
    while k <= n {
        assert!(map.insert(k, Counted::new("node", &live), &domain, &guard).is_none());
        k += 1;
    }
    assert_eq!(live.load(Ordering::SeqCst), 100);

    // the handle is dropped by a thread that the domain does not know
    let refs = map.teardown(&domain);
    assert_eq!(refs.len(), 100);
    assert!(refs.safe_cleanup(&mut coordinator).is_ok());
    assert_eq!(coordinator.len(), 1);
    assert_eq!(live.load(Ordering::SeqCst), 100);

    let batch = coordinator.next_batch(&domain);
    assert_eq!(coordinator.len(), 0);
    // a reader is still inside: the worker has to wait
    let batch = match run_batch(batch, &domain) {
        Ok(_) => panic!("a reader is still inside its critical section"),
        Err(batch) => batch,
    };
    assert_eq!(live.load(Ordering::SeqCst), 100);
    domain.read_unlock(guard).unwrap();
    let done = match run_batch(batch, &domain) {
        Ok(done) => done,
        Err(_) => panic!("every reader has left"),
    };
    assert_eq!(done.len(), 1);
    assert_eq!(done[0].len(), 100);
    let mut keys: Vec<u64> = done[0].iter().map(|owned| *owned.key()).collect();
    keys.sort();
    assert_eq!(keys, (1..=100).collect::<Vec<u64>>());
    drop(done);
    assert_eq!(live.load(Ordering::SeqCst), 0);
}

#[test]
fn teardown_detaches_nodes_bucket_by_bucket_at_the_current_instant() {
    let mut domain = RcuDomain::starting_at(40);
    let guard = reader(&mut domain, 14);
    let mut map = RcuHashMap::<u64, char>::with_buckets(3).unwrap();
    map.insert(4, 'd', &domain, &guard);
    map.insert(1, 'a', &domain, &guard);
    map.insert(2, 'b', &domain, &guard);
    map.insert(3, 'c', &domain, &guard);
    let batch = map.teardown(&domain);
    let seen: Vec<(u64, char, u64)> =
        batch.iter().map(|r| (*r.key(), *r.value(), r.stamp())).collect();
    assert_eq!(seen, vec![(3, 'c', 41), (1, 'a', 41), (4, 'd', 41), (2, 'b', 41)]);
}

#[test]
fn reference_keeps_node_and_stamp() {
    let r = Ref::new(Node { key: 5, value: "five" }, 12);
    assert_eq!(*r.key(), 5);
    assert_eq!(*r.value(), "five");
    assert_eq!(r.stamp(), 12);
    assert_eq!(r.due_stamp(), 12);
    let owned = RefOwned(Node { key: 6, value: "six" });
    assert_eq!(*owned.key(), 6);
    assert_eq!(*owned.value(), "six");
}

#[test]
fn keys_of_other_integer_types_hash_to_their_value() {
    assert_eq!(7u64.hash(), 7);
    assert_eq!(u64::MAX.hash(), u64::MAX);
    assert_eq!(7u32.hash(), 7);
    assert_eq!(u32::MAX.hash(), 4294967295);
    assert_eq!(9usize.hash(), 9);
    assert!(5u32.same(&5));
    assert!(!5u32.same(&6));
    assert!(5u64.same(&5));
    assert!(!5usize.same(&4));

    let mut domain = RcuDomain::new();
    let guard = reader(&mut domain, 15);
    let mut map = RcuHashMap::<u32, &'static str>::with_buckets(2).unwrap();
    map.insert(2, "two", &domain, &guard);
    map.insert(1, "one", &domain, &guard);
    map.insert(4, "four", &domain, &guard);
    assert_eq!(map.iter(&domain, &guard), vec![(&4, &"four"), (&2, &"two"), (&1, &"one")]);
    assert_eq!(map.get(&4, &domain, &guard), Some(&"four"));
}

#[test]
fn map_needs_at_least_one_bucket() {
    assert!(RcuHashMap::<u64, u8>::with_buckets(0).is_none());
    let one = RcuHashMap::<u64, u8>::with_buckets(1).unwrap();
    assert_eq!(one.bucket_count(), 1);
}

#[test]
fn single_bucket_holds_every_key_in_one_chain() {
    let mut domain = RcuDomain::new();
    let guard = reader(&mut domain, 16);
    let mut map = RcuHashMap::<u64, u8>::with_buckets(1).unwrap();
    map.insert(10, 1, &domain, &guard);
    map.insert(20, 2, &domain, &guard);
    map.insert(30, 3, &domain, &guard);
    assert_eq!(map.iter(&domain, &guard), vec![(&30, &3), (&20, &2), (&10, &1)]);
    assert_eq!(*map.remove(&20, &domain, &guard).unwrap().value(), 2);
    assert_eq!(map.iter(&domain, &guard), vec![(&30, &3), (&10, &1)]);
}

#[test]
fn dispose_sends_the_nodes_to_the_coordinator_as_one_request() {
    let mut domain = RcuDomain::new();
    let mut coordinator: CleanupCoordinator<Vec<Ref<u64, char>>> = CleanupCoordinator::new();
    let guard = reader(&mut domain, 17);
    let mut map = RcuHashMap::<u64, char>::with_buckets(2).unwrap();
    map.insert(1, 'a', &domain, &guard);
    map.insert(2, 'b', &domain, &guard);
    // no coordinator runs: the nodes come back
    let back = map.dispose(&domain, &mut coordinator).unwrap_err();
    let seen: Vec<(u64, char)> = back.iter().map(|r| (*r.key(), *r.value())).collect();
    assert_eq!(seen, vec![(2, 'b'), (1, 'a')]);
    assert_eq!(coordinator.len(), 0);

    coordinator.start(&mut domain, 77).unwrap();
    let mut map = RcuHashMap::<u64, char>::with_buckets(2).unwrap();
    map.insert(1, 'a', &domain, &guard);
    map.insert(2, 'b', &domain, &guard);
    map.insert(3, 'c', &domain, &guard);
    assert!(map.dispose(&domain, &mut coordinator).is_ok());
    assert_eq!(coordinator.len(), 1);
    domain.read_unlock(guard).unwrap();
    let batch = coordinator.next_batch(&domain);
    let done = run_batch(batch, &domain).unwrap_or_else(|_| panic!("nobody reads"));
    assert_eq!(done.len(), 1);
    let seen: Vec<(u64, char)> = done[0].iter().map(|o| (*o.key(), *o.value())).collect();
    assert_eq!(seen, vec![(2, 'b'), (3, 'c'), (1, 'a')]);
}

#[test]
fn traversal_chain_by_chain_sees_every_key_that_stays() {
    let mut domain = RcuDomain::new();
    let guard = reader(&mut domain, 1);
    let mut map = RcuHashMap::<u64, char>::with_buckets(3).unwrap();
    map.insert(0, 'a', &domain, &guard);
    map.insert(1, 'b', &domain, &guard);
    map.insert(4, 'c', &domain, &guard);
    map.insert(2, 'd', &domain, &guard);
    let mut seen: Vec<(u64, char)> = Vec::new();
    seen.extend(map.iter_bucket(0, &domain, &guard).into_iter().map(|(k, v)| (*k, *v)));
    // between two steps: a key of the chain ahead leaves, one arrives behind
    map.remove(&4, &domain, &guard);
    map.insert(3, 'e', &domain, &guard);
    seen.extend(map.iter_bucket(1, &domain, &guard).into_iter().map(|(k, v)| (*k, *v)));
    map.insert(5, 'f', &domain, &guard);
    seen.extend(map.iter_bucket(2, &domain, &guard).into_iter().map(|(k, v)| (*k, *v)));
    assert_eq!(seen, vec![(0, 'a'), (1, 'b'), (5, 'f'), (2, 'd')]);
    assert!(map.iter_bucket(3, &domain, &guard).is_empty());
    assert!(map.iter_bucket(usize::MAX, &domain, &guard).is_empty());
}
