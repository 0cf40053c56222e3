//! The grace-period domain: participants, read-side critical sections and
//! the test that decides whether a grace period has elapsed.

use vstd::prelude::*;

verus! {

/// Why a call on the domain was turned down.
#[derive(Clone, Copy, Debug, PartialEq, Eq, Structural)]
pub enum RcuError {
    /// The participant is unknown to the domain or has left it.
    NotRegistered,
    /// The participant still has read-side critical sections open.
    OpenSections,
    /// A counter of the domain has reached its largest value.
    Exhausted,
    /// The guard does not belong to an open critical section.
    NotInSection,
    /// The thread already has a registered participant.
    AlreadyRegistered,
}

/// What the domain records for one participant.
#[derive(Clone, Copy, Debug, PartialEq, Eq, Structural)]
pub struct Reader {
    /// The thread that the participant stands for.
    pub thread: u64,
    /// Whether the participant is currently registered.
    pub registered: bool,
    /// How many read-side critical sections it has open, nested.
    pub depth: u64,
    /// The instant at which its outermost open section began.
    pub section: u64,
}

/// The handle a thread gets when it registers with the domain.
#[derive(Clone, Copy, Debug, PartialEq, Eq, Structural)]
pub struct RcuParticipant {
    /// Index of the participant in the domain.
    pub id: usize,
    /// Whether it may queue work on its own deferred queue.
    pub can_defer: bool,
    /// Whether it may hand work to the shared callback list.
    pub can_call: bool,
}

/// Token for one open read-side critical section. Only the domain makes
/// one, and closing the section uses it up.
#[derive(Debug, PartialEq, Eq)]
pub struct ReadGuard {
    participant: usize,
    section: u64,
}

impl ReadGuard {
    /// The participant that opened the section.
    pub closed spec fn participant(&self) -> usize {
        self.participant
    }

    /// The instant at which the participant's outermost open section began.
    pub closed spec fn section(&self) -> u64 {
        self.section
    }

    /// Returns the index of the participant that opened the section.
    pub fn participant_id(&self) -> (id: usize)
        ensures
            id == self.participant(),
    {
        self.participant
    }

    /// Returns the instant at which the participant's outermost open
    /// section began.
    pub fn section_stamp(&self) -> (stamp: u64)
        ensures
            stamp == self.section(),
    {
        self.section
    }
}

/// The grace-period domain.
///
/// Time is a counter that moves forward each time an outermost critical
/// section begins. A node detached at instant `t` may be reclaimed once no
/// section that began before `t` is still open.
#[derive(Debug)]
pub struct RcuDomain {
    readers: Vec<Reader>,
    clock: u64,
}

impl RcuDomain {
    /// The record of every participant, by its index.
    pub closed spec fn readers(&self) -> Seq<Reader> {
        self.readers@
    }

    /// The current instant.
    pub closed spec fn now(&self) -> u64 {
        self.clock
    }

    /// An open section always belongs to a registered participant and began
    /// before the current instant.
    pub open spec fn wf(&self) -> bool {
        forall|i: int|
            0 <= i < self.readers().len() && (#[trigger] self.readers()[i]).depth > 0 ==> {
                &&& self.readers()[i].registered
                &&& self.readers()[i].section < self.now()
            }
    }

    /// The thread has a registered participant.
    pub open spec fn thread_registered(&self, thread: u64) -> bool {
        exists|i: int|
            0 <= i < self.readers().len() && (#[trigger] self.readers()[i]).registered
                && self.readers()[i].thread == thread
    }

    /// The participant with this index is registered.
    pub open spec fn is_registered(&self, id: usize) -> bool {
        id < self.readers().len() && self.readers()[id as int].registered
    }

    /// The participant cannot open one more section: an outermost one would
    /// need an instant after the last, a nested one a depth beyond the
    /// largest.
    pub open spec fn exhausted_for(&self, id: usize) -> bool {
        let reader = self.readers()[id as int];
        (reader.depth == 0 && self.now() == u64::MAX) || reader.depth == u64::MAX
    }

    /// The guard's section is still open.
    pub open spec fn guard_active(&self, guard: ReadGuard) -> bool {
        &&& guard.participant() < self.readers().len()
        &&& self.readers()[guard.participant() as int].depth > 0
        &&& self.readers()[guard.participant() as int].section == guard.section()
    }

    /// No section that began before `stamp` is still open.
    pub open spec fn grace_elapsed(&self, stamp: u64) -> bool {
        forall|i: int|
            0 <= i < self.readers().len() && (#[trigger] self.readers()[i]).depth > 0
                ==> self.readers()[i].section >= stamp
    }

    /// No section is open at all.
    pub open spec fn quiescent(&self) -> bool {
        forall|i: int| 0 <= i < self.readers().len() ==> (#[trigger] self.readers()[i]).depth == 0
    }

    /// `later` can be reached from `self`: time has not gone back, nobody was
    /// forgotten, and every section open in `later` either was already open in
    /// `self` or began at or after the instant of `self`.
    pub open spec fn precedes(&self, later: &RcuDomain) -> bool {
        &&& self.now() <= later.now()
        &&& self.readers().len() <= later.readers().len()
        &&& forall|i: int|
            0 <= i < later.readers().len() && (#[trigger] later.readers()[i]).depth > 0 ==> {
                ||| later.readers()[i].section >= self.now()
                ||| (i < self.readers().len() && self.readers()[i].depth > 0
                    && self.readers()[i].section == later.readers()[i].section)
            }
    }

    /// A domain without participants, at instant zero.
    pub fn new() -> (domain: Self)
        ensures
            domain.wf(),
            domain.readers() == Seq::<Reader>::empty(),
            domain.now() == 0,
    {
        RcuDomain { readers: Vec::new(), clock: 0 }
    }

    /// A domain without participants whose time begins at `instant`.
    pub fn starting_at(instant: u64) -> (domain: Self)
        ensures
            domain.wf(),
            domain.readers() == Seq::<Reader>::empty(),
            domain.now() == instant,
    {
        RcuDomain { readers: Vec::new(), clock: instant }
    }

    /// The current instant: the stamp for a node detached now.
    pub fn barrier(&self) -> (stamp: u64)
        ensures
            stamp == self.now(),
    {
        self.clock
    }

    /// Registers the thread as a new participant with the given
    /// capabilities. A thread that has a registered participant cannot
    /// register again before that participant has left.
    pub fn register(&mut self, thread: u64, can_defer: bool, can_call: bool) -> (r: Result<
        RcuParticipant,
        RcuError,
    >)
        requires
            old(self).wf(),
        ensures
            final(self).wf(),
            final(self).now() == old(self).now(),
            old(self).precedes(final(self)),
            r is Ok <==> !old(self).thread_registered(thread),
            r is Err ==> r == Err::<RcuParticipant, RcuError>(RcuError::AlreadyRegistered)
                && final(self).readers() == old(self).readers(),
            r is Ok ==> {
                let p = r->Ok_0;
                &&& p.id == old(self).readers().len()
                &&& p.can_defer == can_defer
                &&& p.can_call == can_call
                &&& final(self).is_registered(p.id)
                &&& final(self).readers() == old(self).readers().push(
                    Reader { thread, registered: true, depth: 0, section: 0 },
                )
            },
    {
        let mut i: usize = 0;
        while i < self.readers.len()
            invariant
                i <= self.readers.len(),
                *self == *old(self),
                self.wf(),
                forall|j: int|
                    0 <= j < i ==> !((#[trigger] self.readers()[j]).registered
                        && self.readers()[j].thread == thread),
            decreases self.readers.len() - i,
        {
            if self.readers[i].registered && self.readers[i].thread == thread {
                assert(self.readers()[i as int].registered);
                return Err(RcuError::AlreadyRegistered);
            }
            i = i + 1;
        }
        let id: usize = self.readers.len();
        self.readers.push(Reader { thread, registered: true, depth: 0, section: 0 });
        proof {
            assert forall|i: int|
                0 <= i < self.readers().len() && (#[trigger] self.readers()[i]).depth
                    > 0 implies self.readers()[i].registered && self.readers()[i].section
                < self.now() by {
                assert(self.readers()[i] == old(self).readers()[i]);
            }
        }
        Ok(RcuParticipant { id, can_defer, can_call })
    }

    /// Whether the participant is registered.
    pub fn registered(&self, p: &RcuParticipant) -> (b: bool)
        ensures
            b == self.is_registered(p.id),
    {
        p.id < self.readers.len() && self.readers[p.id].registered
    }

    /// How many critical sections the participant has open.
    pub fn nesting_depth(&self, p: &RcuParticipant) -> (depth: u64)
        ensures
            depth == if p.id < self.readers().len() {
                self.readers()[p.id as int].depth
            } else {
                0
            },
    {
        if p.id < self.readers.len() {
            self.readers[p.id].depth
        } else {
            0
        }
    }

    /// Takes the participant out of the domain. Refused while it has a
    /// critical section open, and for a participant that is not registered.
    pub fn unregister(&mut self, p: RcuParticipant) -> (r: Result<(), RcuError>)
        requires
            old(self).wf(),
        ensures
            final(self).wf(),
            final(self).now() == old(self).now(),
            old(self).precedes(final(self)),
            r is Ok <==> old(self).is_registered(p.id) && old(self).readers()[p.id as int].depth
                == 0,
            r == Err::<(), RcuError>(RcuError::NotRegistered) <==> !old(self).is_registered(p.id),
            r == Err::<(), RcuError>(RcuError::OpenSections) <==> old(self).is_registered(p.id)
                && old(self).readers()[p.id as int].depth > 0,
            r is Err ==> final(self).readers() == old(self).readers(),
            r is Ok ==> final(self).readers() == old(self).readers().update(
                p.id as int,
                Reader {
                    thread: old(self).readers()[p.id as int].thread,
                    registered: false,
                    depth: 0,
                    section: 0,
                },
            ),
    {
        if p.id >= self.readers.len() || !self.readers[p.id].registered {
            return Err(RcuError::NotRegistered);
        }
        if self.readers[p.id].depth > 0 {
            return Err(RcuError::OpenSections);
        }
        let thread = self.readers[p.id].thread;
        self.readers.set(p.id, Reader { thread, registered: false, depth: 0, section: 0 });
        Ok(())
    }

    /// Opens a read-side critical section for the participant. The outermost
    /// section of a participant begins at the current instant and moves time
    /// forward; a nested one joins the section already open.
    pub fn read_lock(&mut self, p: &RcuParticipant) -> (r: Result<ReadGuard, RcuError>)
        requires
            old(self).wf(),
        ensures
            final(self).wf(),
            old(self).precedes(final(self)),
            r == Err::<ReadGuard, RcuError>(RcuError::Exhausted) <==> old(self).is_registered(p.id)
                && old(self).exhausted_for(p.id),
            r is Ok <==> old(self).is_registered(p.id) && !old(self).exhausted_for(p.id),
            r == Err::<ReadGuard, RcuError>(RcuError::NotRegistered) <==> !old(self).is_registered(
                p.id,
            ),
            r is Err ==> final(self).readers() == old(self).readers() && final(self).now() == old(self).now(),
            r is Ok ==> {
                let before = old(self).readers()[p.id as int];
                let section = if before.depth == 0 {
                    old(self).now()
                } else {
                    before.section
                };
                &&& r->Ok_0.participant() == p.id
                &&& r->Ok_0.section() == section
                &&& final(self).readers() == old(self).readers().update(
                    p.id as int,
                    Reader {
                        thread: before.thread,
                        registered: true,
                        depth: (before.depth + 1) as u64,
                        section,
                    },
                )
                &&& final(self).now() == if before.depth == 0 {
                    old(self).now() + 1
                } else {
                    old(self).now() as int
                }
                &&& final(self).guard_active(r->Ok_0)
            },
    {
        if p.id >= self.readers.len() || !self.readers[p.id].registered {
            return Err(RcuError::NotRegistered);
        }
        let before = self.readers[p.id];
        if (before.depth == 0 && self.clock == u64::MAX) || before.depth == u64::MAX {
            return Err(RcuError::Exhausted);
        }
        let section: u64 = if before.depth == 0 {
            self.clock
        } else {
            before.section
        };
        if before.depth == 0 {
            self.clock = self.clock + 1;
        }
        self.readers.set(
            p.id,
            Reader { thread: before.thread, registered: true, depth: before.depth + 1, section },
        );
        Ok(ReadGuard { participant: p.id, section })
    }

    /// Closes the critical section that the guard stands for.
    pub fn read_unlock(&mut self, guard: ReadGuard) -> (r: Result<(), RcuError>)
        requires
            old(self).wf(),
        ensures
            final(self).wf(),
            final(self).now() == old(self).now(),
            old(self).precedes(final(self)),
            r is Ok <==> old(self).guard_active(guard),
            r is Err ==> r == Err::<(), RcuError>(RcuError::NotInSection) && final(self).readers()
                == old(self).readers(),
            r is Ok ==> {
                let before = old(self).readers()[guard.participant() as int];
                final(self).readers() == old(self).readers().update(
                    guard.participant() as int,
                    Reader {
                        thread: before.thread,
                        registered: before.registered,
                        depth: (before.depth - 1) as u64,
                        section: before.section,
                    },
                )
            },
    {
        if guard.participant >= self.readers.len() {
            return Err(RcuError::NotInSection);
        }
        let before = self.readers[guard.participant];
        if before.depth == 0 || before.section != guard.section {
            return Err(RcuError::NotInSection);
        }
        assert(old(self).readers()[guard.participant() as int].depth > 0);
        self.readers.set(
            guard.participant,
            Reader {
                thread: before.thread,
                registered: before.registered,
                depth: before.depth - 1,
                section: before.section,
            },
        );
        Ok(())
    }

    /// Whether the guard's section is still open.
    pub fn is_active(&self, guard: &ReadGuard) -> (b: bool)
        ensures
            b == self.guard_active(*guard),
    {
        guard.participant < self.readers.len() && self.readers[guard.participant].depth > 0
            && self.readers[guard.participant].section == guard.section
    }

    /// Whether a grace period has elapsed for a node detached at `stamp`:
    /// every section that was open then has been closed.
    pub fn poll(&self, stamp: u64) -> (elapsed: bool)
        ensures
            elapsed == self.grace_elapsed(stamp),
    {
        let mut i: usize = 0;
        while i < self.readers.len()
            invariant
                i <= self.readers.len(),
                forall|j: int|
                    0 <= j < i && (#[trigger] self.readers()[j]).depth > 0
                        ==> self.readers()[j].section >= stamp,
            decreases self.readers.len() - i,
        {
            let reader = self.readers[i];
            if reader.depth > 0 && reader.section < stamp {
                assert(self.readers()[i as int].depth > 0);
                return false;
            }
            i = i + 1;
        }
        true
    }

    /// The grace-period barrier of a registered participant, as one step: it
    /// is done when every section that is open at the call has been closed,
    /// which for a call made now means that none is open. A caller that must
    /// wait repeats the call. For a participant that is not registered it is
    /// never done.
    pub fn synchronize(&self, p: &RcuParticipant) -> (done: bool)
        requires
            self.wf(),
        ensures
            done == (self.is_registered(p.id) && self.grace_elapsed(self.now())),
            done == (self.is_registered(p.id) && self.quiescent()),
    {
        self.registered(p) && self.poll(self.clock)
    }
}

/// A grace period that has elapsed stays elapsed: whatever the domain does
/// after the instant `stamp`, no section that began before it can reopen.
pub proof fn lemma_grace_period_is_stable(earlier: &RcuDomain, later: &RcuDomain, stamp: u64)
    requires
        earlier.precedes(later),
        stamp <= earlier.now(),
        earlier.grace_elapsed(stamp),
    ensures
        later.grace_elapsed(stamp),
{
}

/// Reachability of domains composes.
pub proof fn lemma_precedes_is_transitive(a: &RcuDomain, b: &RcuDomain, c: &RcuDomain)
    requires
        a.wf(),
        b.wf(),
        a.precedes(b),
        b.precedes(c),
    ensures
        a.precedes(c),
{
}

/// A node detached while a guard's section is open cannot be reclaimed before
/// that section is closed: as long as the guard is active, the grace period of
/// any stamp taken after the section began has not elapsed.
pub proof fn lemma_open_section_holds_back_reclamation(
    at_detach: &RcuDomain,
    later: &RcuDomain,
    guard: ReadGuard,
)
    requires
        at_detach.wf(),
        at_detach.guard_active(guard),
        later.guard_active(guard),
    ensures
        guard.section() < at_detach.now(),
        !later.grace_elapsed(at_detach.now()),
{
    assert(at_detach.readers()[guard.participant() as int].depth > 0);
    assert(later.readers()[guard.participant() as int].depth > 0);
}

/// An earlier stamp is never harder to satisfy than a later one.
pub proof fn lemma_grace_elapsed_is_monotone(domain: &RcuDomain, early: u64, late: u64)
    requires
        early <= late,
        domain.grace_elapsed(late),
    ensures
        domain.grace_elapsed(early),
{
}

} // verus!
