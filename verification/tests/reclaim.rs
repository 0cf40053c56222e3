use urcu::hashmap::reference::{Node, Ref, RefOwned};
use urcu::rcu::callback::{CallList, DeferQueue, RcuCall, RcuCallFn, RcuDefer, RcuDeferFn};
use urcu::rcu::cleanup::{run_batch, CleanupCoordinator, CleanupRequest};
use urcu::rcu::context::{RcuDomain, RcuError, RcuParticipant};
use urcu::rcu::reference::{later_of, RcuRef};

fn detached(key: u64, value: u32, stamp: u64) -> Ref<u64, u32> {
    Ref::new(Node { key, value }, stamp)
}

fn pairs(owned: Vec<RefOwned<u64, u32>>) -> Vec<(u64, u32)> {
    owned.into_iter().map(|o| o.into_pair()).collect()
}

#[test]
fn later_of_two_instants() {
    assert_eq!(later_of(3, 9), 9);
    assert_eq!(later_of(9, 3), 9);
    assert_eq!(later_of(4, 4), 4);
    assert_eq!(later_of(0, u64::MAX), u64::MAX);
}

#[test]
fn composite_waits_for_its_latest_part() {
    assert_eq!(detached(1, 1, 7).due_stamp(), 7);
    assert_eq!(Some(detached(1, 1, 7)).due_stamp(), 7);
    assert_eq!(None::<Ref<u64, u32>>.due_stamp(), 0);
    assert_eq!(Vec::<Ref<u64, u32>>::new().due_stamp(), 0);
    assert_eq!(vec![detached(1, 1, 7), detached(2, 2, 9), detached(3, 3, 8)].due_stamp(), 9);
    assert_eq!((detached(1, 1, 7), detached(2, 2, 3)).due_stamp(), 7);
    assert_eq!((detached(1, 1, 2), Some(detached(2, 2, 3)), vec![detached(3, 3, 5)]).due_stamp(), 5);
}

#[test]
fn composites_convert_part_by_part() {
    let domain = RcuDomain::starting_at(20);
    let some = Some(detached(1, 10, 3));
    assert!(domain.poll(some.due_stamp()));
    assert_eq!(some.take_ownership_unchecked(&domain).unwrap().into_pair(), (1, 10));
    let none: Option<Ref<u64, u32>> = None;
    assert!(none.take_ownership_unchecked(&domain).is_none());

    let many = vec![detached(1, 10, 3), detached(2, 20, 4), detached(3, 30, 5)];
    assert!(domain.poll(many.due_stamp()));
    assert_eq!(pairs(many.take_ownership_unchecked(&domain)), vec![(1, 10), (2, 20), (3, 30)]);

    let pair = (detached(4, 40, 1), detached(5, 50, 2));
    let (a, b) = pair.take_ownership_unchecked(&domain);
    assert_eq!(a.into_pair(), (4, 40));
    assert_eq!(b.into_pair(), (5, 50));

    let triple = (detached(6, 60, 1), detached(7, 70, 2), detached(8, 80, 2));
    let (a, b, c) = triple.take_ownership_unchecked(&domain);
    assert_eq!(a.into_pair(), (6, 60));
    assert_eq!(b.into_pair(), (7, 70));
    assert_eq!(c.into_pair(), (8, 80));
}

#[test]
fn take_ownership_hands_the_reference_back_before_the_grace_period() {
    let mut domain = RcuDomain::new();
    let p = domain.register(119, false, false).unwrap();
    let guard = domain.read_lock(&p).unwrap();
    let stamp = domain.barrier();
    let pair = (detached(1, 10, 0), detached(2, 20, stamp));
    let pair = match pair.take_ownership(&p, &domain) {
        Ok(_) => panic!("the second part was detached under an open section"),
        Err(back) => back,
    };
    assert_eq!(*pair.0.value(), 10);
    assert_eq!(*pair.1.value(), 20);
    // the first part alone does not wait for the reader
    let first = match pair.0.take_ownership(&p, &domain) {
        Ok(owned) => owned,
        Err(_) => panic!("nothing was open at instant zero"),
    };
    assert_eq!(first.into_pair(), (1, 10));
    domain.read_unlock(guard).unwrap();
    assert!(pair.1.take_ownership(&p, &domain).is_ok());
}

#[test]
fn deferred_callbacks_run_in_order_for_their_owner_after_the_grace_period() {
    let mut domain = RcuDomain::new();
    let owner = domain.register(120, true, false).unwrap();
    let reader = domain.register(121, false, false).unwrap();
    let mut queue: DeferQueue<Ref<u64, u32>> = DeferQueue::new(&owner);
    assert_eq!(queue.owner_id(), 0);
    let guard = domain.read_lock(&reader).unwrap();
    let stamp = domain.barrier();
    assert!(detached(1, 10, stamp).defer_cleanup(&owner, &domain, &mut queue).is_ok());
    assert!(detached(2, 20, stamp).defer_cleanup(&owner, &domain, &mut queue).is_ok());
    queue.rcu_defer(RcuDeferFn::new(detached(3, 30, stamp)));
    assert_eq!(queue.len(), 3);
    // the reader is inside
    assert!(queue.flush(&owner, &domain).is_none());
    assert_eq!(queue.len(), 3);
    domain.read_unlock(guard).unwrap();
    // another participant's thread may not run them
    assert!(queue.flush(&reader, &domain).is_none());
    assert_eq!(queue.len(), 3);
    let done = queue.flush(&owner, &domain).unwrap();
    assert_eq!(pairs(done), vec![(1, 10), (2, 20), (3, 30)]);
    assert_eq!(queue.len(), 0);
    assert!(queue.flush(&owner, &domain).unwrap().is_empty());
}

#[test]
fn defer_cleanup_needs_a_registered_owner_that_can_defer() {
    let mut domain = RcuDomain::new();
    let owner = domain.register(122, true, true).unwrap();
    let cannot = domain.register(123, false, true).unwrap();
    let other = domain.register(124, true, true).unwrap();
    let gone = domain.register(125, true, true).unwrap();
    domain.unregister(gone).unwrap();
    let mut queue: DeferQueue<Ref<u64, u32>> = DeferQueue::new(&owner);
    let back = detached(1, 10, 0).defer_cleanup(&cannot, &domain, &mut queue).unwrap_err();
    assert_eq!(*back.value(), 10);
    assert!(detached(1, 10, 0).defer_cleanup(&other, &domain, &mut queue).is_err());
    assert!(detached(1, 10, 0).defer_cleanup(&gone, &domain, &mut queue).is_err());
    let mut theirs: DeferQueue<Ref<u64, u32>> = DeferQueue::new(&cannot);
    assert!(detached(1, 10, 0).defer_cleanup(&cannot, &domain, &mut theirs).is_err());
    assert_eq!(queue.len(), 0);
    assert!(detached(1, 10, 0).defer_cleanup(&owner, &domain, &mut queue).is_ok());
    assert_eq!(queue.len(), 1);
}

#[test]
fn call_list_runs_for_the_helper_after_the_grace_period() {
    let mut domain = RcuDomain::new();
    let caller = domain.register(126, false, true).unwrap();
    let cannot = domain.register(127, true, false).unwrap();
    let mut list: CallList<Ref<u64, u32>> = CallList::new();
    let guard = domain.read_lock(&caller).unwrap();
    let stamp = domain.barrier();
    assert!(detached(1, 10, stamp).call_cleanup(&caller, &domain, &mut list).is_ok());
    let back = detached(2, 20, stamp).call_cleanup(&cannot, &domain, &mut list).unwrap_err();
    assert_eq!(*back.key(), 2);
    let stranger = RcuParticipant { id: 17, can_defer: true, can_call: true };
    assert!(detached(2, 20, stamp).call_cleanup(&stranger, &domain, &mut list).is_err());
    list.rcu_call(RcuCallFn::new(detached(3, 30, 0)));
    assert_eq!(list.len(), 2);
    assert!(list.run(&domain).is_none());
    assert_eq!(list.len(), 2);
    domain.read_unlock(guard).unwrap();
    assert_eq!(pairs(list.run(&domain).unwrap()), vec![(1, 10), (3, 30)]);
    assert_eq!(list.len(), 0);
}

#[test]
fn callbacks_configure_themselves_onto_their_queue() {
    let mut domain = RcuDomain::new();
    let owner = domain.register(128, true, true).unwrap();
    let mut queue: DeferQueue<Ref<u64, u32>> = DeferQueue::new(&owner);
    let mut list: CallList<Ref<u64, u32>> = CallList::new();
    RcuDeferFn::new(detached(1, 10, 0)).configure(&mut queue);
    RcuCallFn::new(detached(2, 20, 0)).configure(&mut list);
    assert_eq!(queue.len(), 1);
    assert_eq!(list.len(), 1);
    assert_eq!(pairs(queue.flush(&owner, &domain).unwrap()), vec![(1, 10)]);
    assert_eq!(pairs(list.run(&domain).unwrap()), vec![(2, 20)]);
    let d = RcuDeferFn::new(detached(3, 30, 0));
    assert_eq!(RcuDeferFn::callback(d, &domain).into_pair(), (3, 30));
    let c = RcuCallFn::new(detached(4, 40, 0));
    assert_eq!(RcuCallFn::rcu_callback(c, &domain).into_pair(), (4, 40));
}

#[test]
fn coordinator_that_does_not_run_hands_the_request_back() {
    let mut coordinator: CleanupCoordinator<Ref<u64, u32>> = CleanupCoordinator::new();
    assert!(!coordinator.running());
    let back = detached(1, 10, 0).safe_cleanup(&mut coordinator).unwrap_err();
    assert_eq!(*back.value(), 10);
    let request = CleanupRequest::new(detached(2, 20, 0));
    let request = coordinator.submit(request).unwrap_err();
    assert_eq!(*request.into_reference().value(), 20);
    assert_eq!(coordinator.len(), 0);
    let mut domain = RcuDomain::new();
    assert!(matches!(coordinator.shutdown(&mut domain), Err(RcuError::NotRegistered)));
}

#[test]
fn coordinator_starts_once_and_registers_its_worker() {
    let mut domain = RcuDomain::new();
    let someone = domain.register(129, false, false).unwrap();
    let mut coordinator: CleanupCoordinator<Ref<u64, u32>> = CleanupCoordinator::new();
    let worker = coordinator.start(&mut domain, 132).unwrap();
    assert_eq!(worker, RcuParticipant { id: 1, can_defer: false, can_call: false });
    assert!(coordinator.running());
    assert!(domain.registered(&worker));
    let again = coordinator.start(&mut domain, 133).unwrap();
    assert_eq!(again, worker);
    let next = domain.register(130, false, false).unwrap();
    assert_eq!(next.id, 2);
    assert!(domain.registered(&someone));
}

#[test]
fn batches_keep_the_order_of_submission_and_wait_for_one_grace_period() {
    let mut domain = RcuDomain::new();
    let mut coordinator: CleanupCoordinator<Ref<u64, u32>> = CleanupCoordinator::new();
    coordinator.start(&mut domain, 134).unwrap();
    let reader = domain.register(131, false, false).unwrap();
    let guard = domain.read_lock(&reader).unwrap();
    let stamp = domain.barrier();
    assert!(detached(1, 10, stamp).safe_cleanup(&mut coordinator).is_ok());
    assert!(detached(2, 20, stamp).safe_cleanup(&mut coordinator).is_ok());
    let first = coordinator.next_batch(&domain);
    assert_eq!(first.len(), 2);
    assert_eq!(first.barrier_stamp(), stamp);
    // submitted after the batch was taken: belongs to the next one
    assert!(detached(3, 30, stamp).safe_cleanup(&mut coordinator).is_ok());
    assert_eq!(coordinator.len(), 1);
    let first = match run_batch(first, &domain) {
        Ok(_) => panic!("a reader is still inside its critical section"),
        Err(batch) => batch,
    };
    domain.read_unlock(guard).unwrap();
    let done = match run_batch(first, &domain) {
        Ok(done) => done,
        Err(_) => panic!("every reader has left"),
    };
    assert_eq!(pairs(done), vec![(1, 10), (2, 20)]);
    let second = coordinator.next_batch(&domain);
    assert_eq!(second.len(), 1);
    assert_eq!(coordinator.len(), 0);
    let done = match run_batch(second, &domain) {
        Ok(done) => done,
        Err(_) => panic!("nobody is inside a critical section"),
    };
    assert_eq!(pairs(done), vec![(3, 30)]);
}

#[test]
fn batch_waits_for_a_request_stamped_after_the_current_instant() {
    let mut domain = RcuDomain::starting_at(5);
    let mut coordinator: CleanupCoordinator<Ref<u64, u32>> = CleanupCoordinator::new();
    coordinator.start(&mut domain, 135).unwrap();
    assert!(detached(1, 10, 9).safe_cleanup(&mut coordinator).is_ok());
    assert!(detached(2, 20, 2).safe_cleanup(&mut coordinator).is_ok());
    let batch = coordinator.next_batch(&domain);
    assert_eq!(batch.barrier_stamp(), 9);
    let empty = coordinator.next_batch(&domain);
    assert_eq!(empty.len(), 0);
    assert_eq!(empty.barrier_stamp(), 5);
    assert!(run_batch(empty, &domain).unwrap_or_else(|_| panic!("nothing waits")).is_empty());
    assert_eq!(run_batch(batch, &domain).unwrap_or_else(|_| panic!("nobody reads")).len(), 2);
}

#[test]
fn shutdown_returns_what_still_waits_and_unregisters_the_worker() {
    let mut domain = RcuDomain::new();
    let mut coordinator: CleanupCoordinator<Ref<u64, u32>> = CleanupCoordinator::new();
    let worker = coordinator.start(&mut domain, 136).unwrap();
    assert!(detached(1, 10, 0).safe_cleanup(&mut coordinator).is_ok());
    let guard = domain.read_lock(&worker).unwrap();
    assert!(matches!(coordinator.shutdown(&mut domain), Err(RcuError::OpenSections)));
    assert!(coordinator.running());
    assert_eq!(coordinator.len(), 1);
    domain.read_unlock(guard).unwrap();
    let rest = match coordinator.shutdown(&mut domain) {
        Ok(rest) => rest,
        Err(_) => panic!("the worker has no section open"),
    };
    assert_eq!(rest.len(), 1);
    assert!(!coordinator.running());
    assert!(!domain.registered(&worker));
    assert_eq!(coordinator.len(), 0);
    assert!(detached(2, 20, 0).safe_cleanup(&mut coordinator).is_err());
}

#[test]
fn worker_cannot_start_on_a_thread_that_is_a_participant() {
    let mut domain = RcuDomain::new();
    domain.register(5, false, false).unwrap();
    let mut coordinator: CleanupCoordinator<Ref<u64, u32>> = CleanupCoordinator::new();
    assert_eq!(coordinator.start(&mut domain, 5), Err(RcuError::AlreadyRegistered));
    assert!(!coordinator.running());
    let worker = coordinator.start(&mut domain, 6).unwrap();
    assert_eq!(worker.id, 1);
    // a service that runs is left as it is, whatever thread asks
    assert_eq!(coordinator.start(&mut domain, 5), Ok(worker));
}

#[test]
fn larger_tuples_convert_part_by_part() {
    let domain = RcuDomain::new();
    let seven = (
        detached(1, 10, 0),
        detached(2, 20, 0),
        detached(3, 30, 0),
        detached(4, 40, 0),
        detached(5, 50, 0),
        detached(6, 60, 0),
        detached(7, 70, 0),
    );
    assert_eq!(seven.due_stamp(), 0);
    let (a, b, c, d, e, f, g) = seven.take_ownership_unchecked(&domain);
    assert_eq!(a.into_pair(), (1, 10));
    assert_eq!(b.into_pair(), (2, 20));
    assert_eq!(c.into_pair(), (3, 30));
    assert_eq!(d.into_pair(), (4, 40));
    assert_eq!(e.into_pair(), (5, 50));
    assert_eq!(f.into_pair(), (6, 60));
    assert_eq!(g.into_pair(), (7, 70));
    let four = (detached(1, 10, 4), detached(2, 20, 9), detached(3, 30, 1), detached(4, 40, 2));
    assert_eq!(four.due_stamp(), 9);
    let five = (
        detached(1, 10, 4),
        detached(2, 20, 3),
        detached(3, 30, 1),
        detached(4, 40, 2),
        detached(5, 50, 8),
    );
    assert_eq!(five.due_stamp(), 8);
    let six = (
        detached(1, 10, 4),
        detached(2, 20, 3),
        detached(3, 30, 11),
        detached(4, 40, 2),
        detached(5, 50, 8),
        detached(6, 60, 8),
    );
    assert_eq!(six.due_stamp(), 11);
}
