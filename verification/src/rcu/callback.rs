//! Callbacks that run after a grace period, and the two queues of the domain
//! that hold them: the deferred queue of one participant and the shared
//! callback list.

use vstd::prelude::*;
use crate::rcu::context::{RcuDomain, RcuParticipant};
use crate::rcu::reference::{all_yield, latest_due, RcuRef};

verus! {

/// A callback for the deferred queue of a participant. It can be queued,
/// which hands its work to that queue.
pub trait RcuDefer: Sized {
    /// What the callback converts when it runs.
    type Work: RcuRef;

    /// The work that the callback carries.
    spec fn work(&self) -> Self::Work;

    /// Configures the callback for execution: its work joins the end of the
    /// queue.
    fn configure(self: Box<Self>, queue: &mut DeferQueue<Self::Work>)
        ensures
            final(queue).pending() == old(queue).pending().push(self.work()),
            final(queue).owner() == old(queue).owner(),
    ;
}

/// A callback for the shared callback list of the domain.
pub trait RcuCall: Sized {
    /// What the callback converts when it runs.
    type Work: RcuRef;

    /// The work that the callback carries.
    spec fn work(&self) -> Self::Work;

    /// Configures the callback for execution: its work joins the end of the
    /// list.
    fn configure(self: Box<Self>, list: &mut CallList<Self::Work>)
        ensures
            final(list).pending() == old(list).pending().push(self.work()),
    ;
}

/// Defines a defer callback executed after the next RCU grace period.
#[derive(Debug)]
pub struct RcuDeferFn<F> {
    func: F,
}

impl<F> RcuDeferFn<F> {
    /// What the callback will convert.
    pub closed spec fn func(&self) -> F {
        self.func
    }

    /// Creates a callback.
    pub fn new(func: F) -> (callback: Box<Self>)
        ensures
            callback.func() == func,
    {
        Box::new(RcuDeferFn { func })
    }

    /// Runs the callback: converts its work, whose grace period has elapsed.
    pub fn callback(node: Box<Self>, ctx: &RcuDomain) -> (out: F::Output) where F: RcuRef
        requires
            ctx.grace_elapsed(node.func().due()),
        ensures
            node.func().yields(&out),
    {
        let node: RcuDeferFn<F> = *node;
        node.func.take_ownership_unchecked(ctx)
    }
}

impl<F: RcuRef> RcuDefer for RcuDeferFn<F> {
    type Work = F;

    open spec fn work(&self) -> F {
        self.func()
    }

    fn configure(self: Box<Self>, queue: &mut DeferQueue<F>) {
        queue.rcu_defer(self);
    }
}

/// Defines a callback executed after the next RCU grace period.
#[derive(Debug)]
pub struct RcuCallFn<F> {
    func: F,
}

impl<F> RcuCallFn<F> {
    /// What the callback will convert.
    pub closed spec fn func(&self) -> F {
        self.func
    }

    /// Create a simple RCU callback.
    pub fn new(func: F) -> (callback: Box<Self>)
        ensures
            callback.func() == func,
    {
        Box::new(RcuCallFn { func })
    }

    /// Runs the callback: converts its work, whose grace period has elapsed.
    pub fn rcu_callback(node: Box<Self>, ctx: &RcuDomain) -> (out: F::Output) where F: RcuRef
        requires
            ctx.grace_elapsed(node.func().due()),
        ensures
            node.func().yields(&out),
    {
        let node: RcuCallFn<F> = *node;
        node.func.take_ownership_unchecked(ctx)
    }
}

impl<F: RcuRef> RcuCall for RcuCallFn<F> {
    type Work = F;

    open spec fn work(&self) -> F {
        self.func()
    }

    fn configure(self: Box<Self>, list: &mut CallList<F>) {
        list.rcu_call(self);
    }
}

/// The deferred-work queue of one participant. Its callbacks run on the
/// thread of that participant, all at once, when the participant flushes the
/// queue after their grace periods.
#[derive(Debug)]
pub struct DeferQueue<R> {
    owner: usize,
    pending: Vec<R>,
}

impl<R> DeferQueue<R> {
    /// The participant to which the queue belongs.
    pub closed spec fn owner(&self) -> usize {
        self.owner
    }

    /// The work that waits, oldest first.
    pub closed spec fn pending(&self) -> Seq<R> {
        self.pending@
    }

    /// An empty queue for the participant.
    pub fn new(p: &RcuParticipant) -> (queue: Self)
        ensures
            queue.owner() == p.id,
            queue.pending() == Seq::<R>::empty(),
    {
        DeferQueue { owner: p.id, pending: Vec::new() }
    }

    /// How much work waits.
    pub fn len(&self) -> (n: usize)
        ensures
            n == self.pending().len(),
    {
        self.pending.len()
    }

    /// Returns the participant to which the queue belongs.
    pub fn owner_id(&self) -> (id: usize)
        ensures
            id == self.owner(),
    {
        self.owner
    }

    /// Queues a callback.
    pub fn rcu_defer(&mut self, callback: Box<RcuDeferFn<R>>)
        ensures
            final(self).pending() == old(self).pending().push(callback.func()),
            final(self).owner() == old(self).owner(),
    {
        let callback: RcuDeferFn<R> = *callback;
        self.pending.push(callback.func);
    }
}

impl<R: RcuRef> DeferQueue<R> {
    /// Runs every queued callback, in the order of queuing, if `p` owns the
    /// queue and the grace period of all the queued work has elapsed.
    /// Otherwise nothing runs and the queue stays as it is.
    pub fn flush(&mut self, p: &RcuParticipant, ctx: &RcuDomain) -> (done: Option<Vec<R::Output>>)
        ensures
            final(self).owner() == old(self).owner(),
            done is Some <==> p.id == old(self).owner() && ctx.grace_elapsed(
                latest_due(old(self).pending()),
            ),
            done is Some ==> final(self).pending() == Seq::<R>::empty() && all_yield(
                old(self).pending(),
                done->Some_0@,
            ),
            done is None ==> final(self).pending() == old(self).pending(),
    {
        if p.id != self.owner {
            return None;
        }
        drain(&mut self.pending, ctx)
    }
}

/// The callback list that all participants of a domain share. A helper runs
/// its callbacks, all at once, after their grace periods.
#[derive(Debug)]
pub struct CallList<R> {
    pending: Vec<R>,
}

impl<R> CallList<R> {
    /// The work that waits, oldest first.
    pub closed spec fn pending(&self) -> Seq<R> {
        self.pending@
    }

    /// An empty list.
    pub fn new() -> (list: Self)
        ensures
            list.pending() == Seq::<R>::empty(),
    {
        CallList { pending: Vec::new() }
    }

    /// How much work waits.
    pub fn len(&self) -> (n: usize)
        ensures
            n == self.pending().len(),
    {
        self.pending.len()
    }

    /// Queues a callback.
    pub fn rcu_call(&mut self, callback: Box<RcuCallFn<R>>)
        ensures
            final(self).pending() == old(self).pending().push(callback.func()),
    {
        let callback: RcuCallFn<R> = *callback;
        self.pending.push(callback.func);
    }
}

impl<R: RcuRef> CallList<R> {
    /// The helper's step: runs every queued callback, in the order of
    /// queuing, if the grace period of all the queued work has elapsed.
    /// Otherwise nothing runs and the list stays as it is.
    pub fn run(&mut self, ctx: &RcuDomain) -> (done: Option<Vec<R::Output>>)
        ensures
            done is Some <==> ctx.grace_elapsed(latest_due(old(self).pending())),
            done is Some ==> final(self).pending() == Seq::<R>::empty() && all_yield(
                old(self).pending(),
                done->Some_0@,
            ),
            done is None ==> final(self).pending() == old(self).pending(),
    {
        drain(&mut self.pending, ctx)
    }
}

/// Converts everything that waits, if the grace period of all of it has
/// elapsed; leaves it waiting if not.
pub(crate) fn drain<R: RcuRef>(pending: &mut Vec<R>, ctx: &RcuDomain) -> (done: Option<
    Vec<R::Output>,
>)
    ensures
        done is Some <==> ctx.grace_elapsed(latest_due(old(pending)@)),
        done is Some ==> final(pending)@ == Seq::<R>::empty() && all_yield(
            old(pending)@,
            done->Some_0@,
        ),
        done is None ==> final(pending)@ == old(pending)@,
{
    if ctx.poll(pending.due_stamp()) {
        let mut batch: Vec<R> = Vec::new();
        core::mem::swap(pending, &mut batch);
        Some(batch.take_ownership_unchecked(ctx))
    } else {
        None
    }
}

} // verus!
