//! The cleanup coordinator: one queue of requests from any thread, and one
//! worker that reclaims them batch by batch, each batch after one grace
//! period.

use vstd::prelude::*;
use crate::rcu::context::{RcuDomain, RcuError, RcuParticipant, Reader};
use crate::rcu::reference::{all_yield, later, later_of, latest_due, RcuRef};

verus! {

/// One unit of work for the coordinator: a reference to convert once the
/// worker has waited for a grace period. It is made at submission and
/// consumed by its single run.
#[derive(Debug)]
pub struct CleanupRequest<R> {
    /// The reference that the request will convert.
    pub reference: R,
}

impl<R> CleanupRequest<R> {
    /// A request to convert the reference.
    pub fn new(reference: R) -> (request: Self)
        ensures
            request == (CleanupRequest { reference }),
    {
        CleanupRequest { reference }
    }

    /// Gives the reference back, unconverted.
    pub fn into_reference(self) -> (reference: R)
        ensures
            reference == self.reference,
    {
        self.reference
    }
}

/// A request converts as its reference does.
impl<R: RcuRef> RcuRef for CleanupRequest<R> {
    type Output = R::Output;

    open spec fn due(&self) -> u64 {
        self.reference.due()
    }

    open spec fn yields(&self, out: &Self::Output) -> bool {
        self.reference.yields(out)
    }

    fn due_stamp(&self) -> (stamp: u64) {
        self.reference.due_stamp()
    }

    fn take_ownership_unchecked(self, ctx: &RcuDomain) -> (out: Self::Output) {
        self.reference.take_ownership_unchecked(ctx)
    }
}

/// The requests that the worker took from the queue in one go, with the
/// instant whose grace period it waits for before it runs them.
#[derive(Debug)]
pub struct CleanupBatch<R> {
    requests: Vec<CleanupRequest<R>>,
    barrier: u64,
}

impl<R> CleanupBatch<R> {
    /// The requests of the batch, in the order of submission.
    pub closed spec fn requests(&self) -> Seq<CleanupRequest<R>> {
        self.requests@
    }

    /// The instant whose grace period the batch waits for.
    pub closed spec fn barrier(&self) -> u64 {
        self.barrier
    }

    /// How many requests the batch holds.
    pub fn len(&self) -> (n: usize)
        ensures
            n == self.requests().len(),
    {
        self.requests.len()
    }

    /// Returns the instant whose grace period the batch waits for.
    pub fn barrier_stamp(&self) -> (stamp: u64)
        ensures
            stamp == self.barrier(),
    {
        self.barrier
    }
}

impl<R: RcuRef> CleanupBatch<R> {
    /// No request of the batch waits for a later instant than the batch.
    pub open spec fn wf(&self) -> bool {
        latest_due(self.requests()) <= self.barrier()
    }
}

/// The process-wide cleanup service. Any thread may submit; only the worker,
/// a participant registered for as long as the service runs, converts.
///
/// The queue has no bound: a submission never waits and is never turned down
/// for want of room.
#[derive(Debug)]
pub struct CleanupCoordinator<R> {
    worker: Option<RcuParticipant>,
    queue: Vec<CleanupRequest<R>>,
}

impl<R> CleanupCoordinator<R> {
    /// The worker, while the service runs.
    pub closed spec fn worker(&self) -> Option<RcuParticipant> {
        self.worker
    }

    /// The requests that wait for the worker, in the order of submission.
    pub closed spec fn queue(&self) -> Seq<CleanupRequest<R>> {
        self.queue@
    }

    /// Whether the service runs.
    pub open spec fn is_running(&self) -> bool {
        self.worker() is Some
    }

    /// A service that has not been started, with an empty queue.
    pub fn new() -> (coordinator: Self)
        ensures
            !coordinator.is_running(),
            coordinator.queue() == Seq::<CleanupRequest<R>>::empty(),
    {
        CleanupCoordinator { worker: None, queue: Vec::new() }
    }

    /// Whether the service runs.
    pub fn running(&self) -> (b: bool)
        ensures
            b == self.is_running(),
    {
        self.worker.is_some()
    }

    /// How many requests wait.
    pub fn len(&self) -> (n: usize)
        ensures
            n == self.queue().len(),
    {
        self.queue.len()
    }

    /// Starts the service on first use: registers `thread` with the domain
    /// as the worker. A service that runs already is left as it is, and so is
    /// one whose worker cannot register because the thread is a participant
    /// already.
    pub fn start(&mut self, ctx: &mut RcuDomain, thread: u64) -> (r: Result<
        RcuParticipant,
        RcuError,
    >)
        requires
            old(ctx).wf(),
        ensures
            final(ctx).wf(),
            final(ctx).now() == old(ctx).now(),
            old(ctx).precedes(final(ctx)),
            final(self).queue() == old(self).queue(),
            r is Ok <==> old(self).is_running() || !old(ctx).thread_registered(thread),
            r is Ok ==> final(self).worker() == Some(r->Ok_0),
            r is Err ==> {
                &&& r == Err::<RcuParticipant, RcuError>(RcuError::AlreadyRegistered)
                &&& !final(self).is_running()
                &&& final(ctx).readers() == old(ctx).readers()
            },
            old(self).is_running() ==> {
                &&& final(self).worker() == old(self).worker()
                &&& final(ctx).readers() == old(ctx).readers()
            },
            r is Ok && !old(self).is_running() ==> {
                &&& r->Ok_0 == (RcuParticipant {
                    id: old(ctx).readers().len() as usize,
                    can_defer: false,
                    can_call: false,
                })
                &&& r->Ok_0.id == old(ctx).readers().len()
                &&& final(ctx).is_registered(r->Ok_0.id)
                &&& final(ctx).readers() == old(ctx).readers().push(
                    Reader { thread, registered: true, depth: 0, section: 0 },
                )
            },
    {
        let current: Option<RcuParticipant> = self.worker;
        match current {
            Some(worker) => Ok(worker),
            None => {
                match ctx.register(thread, false, false) {
                    Ok(worker) => {
                        self.worker = Some(worker);
                        Ok(worker)
                    },
                    Err(e) => Err(e),
                }
            },
        }
    }

    /// Hands a request to the service. A service that does not run cannot
    /// take it, and says so by handing it back.
    pub fn submit(&mut self, request: CleanupRequest<R>) -> (r: Result<(), CleanupRequest<R>>)
        ensures
            final(self).worker() == old(self).worker(),
            r is Ok <==> old(self).is_running(),
            r is Ok ==> final(self).queue() == old(self).queue().push(request),
            r is Err ==> r->Err_0 == request && final(self).queue() == old(self).queue(),
    {
        if self.worker.is_none() {
            return Err(request);
        }
        self.queue.push(request);
        Ok(())
    }
}

impl<R: RcuRef> CleanupCoordinator<R> {
    /// The worker's first step: takes every request that waits, as one
    /// batch, and notes the instant whose grace period the batch waits for.
    /// What is submitted from now on belongs to a later batch.
    pub fn next_batch(&mut self, ctx: &RcuDomain) -> (batch: CleanupBatch<R>)
        ensures
            final(self).worker() == old(self).worker(),
            final(self).queue() == Seq::<CleanupRequest<R>>::empty(),
            batch.requests() == old(self).queue(),
            batch.barrier() == later(ctx.now(), latest_due(old(self).queue())),
            batch.wf(),
    {
        let mut requests: Vec<CleanupRequest<R>> = Vec::new();
        core::mem::swap(&mut self.queue, &mut requests);
        let barrier = later_of(ctx.barrier(), requests.due_stamp());
        CleanupBatch { requests, barrier }
    }

    /// Stops the service: the worker leaves the domain, and the requests
    /// that still wait come back to the caller. Refused while the worker has
    /// a critical section open; a service that does not run has no worker to
    /// take out.
    pub fn shutdown(&mut self, ctx: &mut RcuDomain) -> (r: Result<
        Vec<CleanupRequest<R>>,
        RcuError,
    >)
        requires
            old(ctx).wf(),
        ensures
            final(ctx).wf(),
            final(ctx).now() == old(ctx).now(),
            old(ctx).precedes(final(ctx)),
            r is Ok <==> {
                &&& old(self).is_running()
                &&& old(ctx).is_registered(old(self).worker()->Some_0.id)
                &&& old(ctx).readers()[old(self).worker()->Some_0.id as int].depth == 0
            },
            r is Ok ==> {
                let id = old(self).worker()->Some_0.id as int;
                &&& !final(self).is_running()
                &&& r->Ok_0@ == old(self).queue()
                &&& final(self).queue() == Seq::<CleanupRequest<R>>::empty()
                &&& final(ctx).readers() == old(ctx).readers().update(
                    id,
                    Reader {
                        thread: old(ctx).readers()[id].thread,
                        registered: false,
                        depth: 0,
                        section: 0,
                    },
                )
            },
            r is Err ==> {
                &&& final(self).worker() == old(self).worker()
                &&& final(self).queue() == old(self).queue()
                &&& final(ctx).readers() == old(ctx).readers()
                &&& r->Err_0 == if old(self).is_running() && old(ctx).is_registered(
                    old(self).worker()->Some_0.id,
                ) {
                    RcuError::OpenSections
                } else {
                    RcuError::NotRegistered
                }
            },
    {
        let current: Option<RcuParticipant> = self.worker;
        match current {
            None => Err(RcuError::NotRegistered),
            Some(worker) => {
                match ctx.unregister(worker) {
                    Err(e) => Err(e),
                    Ok(()) => {
                        self.worker = None;
                        let mut rest: Vec<CleanupRequest<R>> = Vec::new();
                        core::mem::swap(&mut self.queue, &mut rest);
                        Ok(rest)
                    },
                }
            },
        }
    }
}

/// The worker's second step: runs every request of the batch, in order, if
/// the grace period of the batch has elapsed. If it has not, the batch comes
/// back unchanged, for the worker to wait and try again.
pub fn run_batch<R: RcuRef>(batch: CleanupBatch<R>, ctx: &RcuDomain) -> (r: Result<
    Vec<R::Output>,
    CleanupBatch<R>,
>)
    requires
        batch.wf(),
    ensures
        r is Ok <==> ctx.grace_elapsed(batch.barrier()),
        r is Ok ==> all_yield(batch.requests(), r->Ok_0@),
        r is Err ==> r->Err_0 == batch,
{
    if ctx.poll(batch.barrier) {
        Ok(batch.requests.take_ownership_unchecked(ctx))
    } else {
        Err(batch)
    }
}

} // verus!
