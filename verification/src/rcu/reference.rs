//! Deferred references: what can be turned into an owned value once a grace
//! period has elapsed, and the ways to get there.

use vstd::prelude::*;
use crate::rcu::callback::{CallList, DeferQueue, RcuCallFn, RcuDeferFn};
use crate::rcu::cleanup::{CleanupCoordinator, CleanupRequest};
use crate::rcu::context::{RcuDomain, RcuParticipant};

verus! {

/// The same items in the opposite order.
pub(crate) fn reversed<T>(items: Vec<T>) -> (turned: Vec<T>)
    ensures
        turned@.len() == items@.len(),
        forall|i: int| 0 <= i < items@.len() ==> #[trigger] turned@[i] == items@[items@.len() - 1 - i],
{
    let mut items = items;
    let ghost start = items@;
    let mut turned: Vec<T> = Vec::new();
    while items.len() > 0
        invariant
            items@.len() + turned@.len() == start.len(),
            forall|i: int| 0 <= i < items@.len() ==> #[trigger] items@[i] == start[i],
            forall|i: int|
                0 <= i < turned@.len() ==> #[trigger] turned@[i] == start[start.len() - 1 - i],
        decreases items@.len(),
    {
        let item = items.pop().unwrap();
        turned.push(item);
    }
    turned
}

/// The later of two instants.
pub open spec fn later(a: u64, b: u64) -> u64 {
    if a >= b {
        a
    } else {
        b
    }
}

/// The later of two instants.
pub fn later_of(a: u64, b: u64) -> (stamp: u64)
    ensures
        stamp == later(a, b),
{
    if a >= b {
        a
    } else {
        b
    }
}

/// A reference to something that was taken out of a shared structure and
/// that becomes the holder's own once a grace period has elapsed.
///
/// Readers that were inside a critical section when the thing was detached
/// may still look at it. The conversion to an owned value is therefore only
/// open once the domain says that the grace period of [`RcuRef::due`] has
/// elapsed. A reference is consumed by its conversion, so it is converted at
/// most once.
#[must_use]
pub trait RcuRef: Sized {
    /// The output type after taking ownership.
    type Output;

    /// The instant whose grace period must have elapsed before the
    /// conversion: the latest instant at which a part of the reference was
    /// detached, zero where it holds nothing.
    spec fn due(&self) -> u64;

    /// What the conversion hands out: `out` holds, unchanged, what the
    /// reference held.
    spec fn yields(&self, out: &Self::Output) -> bool;

    /// Returns the instant whose grace period the conversion waits for.
    fn due_stamp(&self) -> (stamp: u64)
        ensures
            stamp == self.due(),
    ;

    /// Take ownership of the reference.
    ///
    /// The caller shows, by the state of the domain, that the grace period
    /// has elapsed.
    fn take_ownership_unchecked(self, ctx: &RcuDomain) -> (out: Self::Output)
        requires
            ctx.grace_elapsed(self.due()),
        ensures
            self.yields(&out),
    ;

    /// Take ownership of the reference, for a registered participant, if the
    /// grace period has elapsed. The reference comes back unchanged if it
    /// has not, or if the participant is not registered. A caller that wants
    /// to wait repeats the call once readers have moved on.
    fn take_ownership(self, p: &RcuParticipant, ctx: &RcuDomain) -> (r: Result<Self::Output, Self>)
        ensures
            r is Ok <==> ctx.is_registered(p.id) && ctx.grace_elapsed(self.due()),
            r is Ok ==> self.yields(&r->Ok_0),
            r is Err ==> r->Err_0 == self,
    {
        if ctx.registered(p) && ctx.poll(self.due_stamp()) {
            Ok(self.take_ownership_unchecked(ctx))
        } else {
            Err(self)
        }
    }

    /// Configure a cleanup callback to be called after the grace period, on
    /// the deferred queue of the participant, which runs it on the
    /// participant's own thread.
    ///
    /// The participant must be registered, able to defer, and the owner of
    /// the queue; the reference comes back if it is not.
    fn defer_cleanup(self, p: &RcuParticipant, ctx: &RcuDomain, queue: &mut DeferQueue<Self>) -> (r:
        Result<(), Self>)
        ensures
            final(queue).owner() == old(queue).owner(),
            r is Ok <==> ctx.is_registered(p.id) && p.can_defer && p.id == old(queue).owner(),
            r is Ok ==> final(queue).pending() == old(queue).pending().push(self),
            r is Err ==> r->Err_0 == self && final(queue).pending() == old(queue).pending(),
    {
        if ctx.registered(p) && p.can_defer && p.id == queue.owner_id() {
            queue.rcu_defer(RcuDeferFn::new(self));
            Ok(())
        } else {
            Err(self)
        }
    }

    /// Configure a cleanup callback to be called after the grace period, on
    /// the shared callback list, which a helper runs on a thread of its own:
    /// the reference must be fit to be sent there.
    ///
    /// The participant must be registered and able to call; the reference
    /// comes back if it is not.
    fn call_cleanup(self, p: &RcuParticipant, ctx: &RcuDomain, list: &mut CallList<Self>) -> (r:
        Result<(), Self>) where Self: Send + 'static
        ensures
            r is Ok <==> ctx.is_registered(p.id) && p.can_call,
            r is Ok ==> final(list).pending() == old(list).pending().push(self),
            r is Err ==> r->Err_0 == self && final(list).pending() == old(list).pending(),
    {
        if ctx.registered(p) && p.can_call {
            list.rcu_call(RcuCallFn::new(self));
            Ok(())
        } else {
            Err(self)
        }
    }

    /// Hands the reference to the cleanup coordinator, whose worker converts
    /// it after a grace period on its own thread. The caller need not be a
    /// participant. The reference comes back if the coordinator does not
    /// run.
    fn safe_cleanup(self, coordinator: &mut CleanupCoordinator<Self>) -> (r: Result<(), Self>) where
        Self: Send + 'static,
        ensures
            final(coordinator).worker() == old(coordinator).worker(),
            r is Ok <==> old(coordinator).is_running(),
            r is Ok ==> final(coordinator).queue() == old(coordinator).queue().push(
                CleanupRequest { reference: self },
            ),
            r is Err ==> r->Err_0 == self && final(coordinator).queue() == old(coordinator).queue(),
    {
        match coordinator.submit(CleanupRequest::new(self)) {
            Ok(()) => Ok(()),
            Err(request) => Err(request.into_reference()),
        }
    }
}

/// An optional reference converts to the optional owned value.
impl<T: RcuRef> RcuRef for Option<T> {
    type Output = Option<T::Output>;

    open spec fn due(&self) -> u64 {
        match self {
            Some(r) => r.due(),
            None => 0,
        }
    }

    open spec fn yields(&self, out: &Self::Output) -> bool {
        match (self, out) {
            (Some(r), Some(o)) => r.yields(o),
            (None, None) => true,
            _ => false,
        }
    }

    fn due_stamp(&self) -> (stamp: u64) {
        match self {
            Some(r) => r.due_stamp(),
            None => 0,
        }
    }

    fn take_ownership_unchecked(self, ctx: &RcuDomain) -> (out: Self::Output) {
        match self {
            Some(r) => Some(r.take_ownership_unchecked(ctx)),
            None => None,
        }
    }
}

/// The latest instant for which a reference of the sequence waits.
pub open spec fn latest_due<T: RcuRef>(refs: Seq<T>) -> u64
    decreases refs.len(),
{
    if refs.len() == 0 {
        0
    } else {
        later(latest_due(refs.drop_last()), refs.last().due())
    }
}

/// No reference of a sequence waits for a later instant than the sequence.
pub proof fn lemma_latest_due_bounds<T: RcuRef>(refs: Seq<T>, i: int)
    requires
        0 <= i < refs.len(),
    ensures
        refs[i].due() <= latest_due(refs),
    decreases refs.len(),
{
    if i < refs.len() - 1 {
        lemma_latest_due_bounds(refs.drop_last(), i);
    }
}

/// A sequence waits for no later instant than the latest that one of its
/// references waits for: a bound on each is a bound on the sequence.
pub proof fn lemma_latest_due_is_bounded<T: RcuRef>(refs: Seq<T>, bound: u64)
    requires
        forall|i: int| 0 <= i < refs.len() ==> (#[trigger] refs[i]).due() <= bound,
    ensures
        latest_due(refs) <= bound,
    decreases refs.len(),
{
    if refs.len() > 0 {
        let init = refs.drop_last();
        assert forall|i: int| 0 <= i < init.len() implies (#[trigger] init[i]).due() <= bound by {
            assert(init[i] == refs[i]);
        }
        lemma_latest_due_is_bounded(init, bound);
        assert(refs[refs.len() - 1].due() <= bound);
    }
}

/// Each owned value is what the reference at its place hands out.
pub open spec fn all_yield<T: RcuRef>(refs: Seq<T>, outs: Seq<T::Output>) -> bool {
    &&& outs.len() == refs.len()
    &&& forall|i: int| 0 <= i < refs.len() ==> (#[trigger] refs[i]).yields(&outs[i])
}

/// A sequence of references converts element by element, in order, once the
/// grace period of its latest element has elapsed.
impl<T: RcuRef> RcuRef for Vec<T> {
    type Output = Vec<T::Output>;

    open spec fn due(&self) -> u64 {
        latest_due(self@)
    }

    open spec fn yields(&self, out: &Self::Output) -> bool {
        all_yield(self@, out@)
    }

    fn due_stamp(&self) -> (stamp: u64) {
        let mut stamp: u64 = 0;
        let mut i: usize = 0;
        while i < self.len()
            invariant
                i <= self.len(),
                stamp == latest_due(self@.take(i as int)),
            decreases self.len() - i,
        {
            proof {
                assert(self@.take(i + 1).drop_last() =~= self@.take(i as int));
            }
            stamp = later_of(stamp, self[i].due_stamp());
            i = i + 1;
        }
        proof {
            assert(self@.take(self.len() as int) =~= self@);
        }
        stamp
    }

    fn take_ownership_unchecked(self, ctx: &RcuDomain) -> (out: Self::Output) {
        let ghost refs = self@;
        let count = self.len();
        let mut rest = reversed(self);
        let mut out: Vec<T::Output> = Vec::new();
        let mut i: usize = 0;
        while i < count
            invariant
                i <= count,
                count == refs.len(),
                ctx.grace_elapsed(latest_due(refs)),
                rest@.len() == count - i,
                forall|j: int| 0 <= j < count - i ==> #[trigger] rest@[j] == refs[count - 1 - j],
                out@.len() == i,
                forall|j: int| 0 <= j < i ==> (#[trigger] refs[j]).yields(&out@[j]),
            decreases count - i,
        {
            let r = rest.pop().unwrap();
            proof {
                assert(r == refs[i as int]);
                lemma_latest_due_bounds(refs, i as int);
            }
            let owned = r.take_ownership_unchecked(ctx);
            out.push(owned);
            i = i + 1;
        }
        out
    }
}

/// A pair of references converts to the pair of owned values.
impl<A: RcuRef, B: RcuRef> RcuRef for (A, B) {
    type Output = (A::Output, B::Output);

    open spec fn due(&self) -> u64 {
        later(self.0.due(), self.1.due())
    }

    open spec fn yields(&self, out: &Self::Output) -> bool {
        self.0.yields(&out.0) && self.1.yields(&out.1)
    }

    fn due_stamp(&self) -> (stamp: u64) {
        later_of(self.0.due_stamp(), self.1.due_stamp())
    }

    fn take_ownership_unchecked(self, ctx: &RcuDomain) -> (out: Self::Output) {
        (self.0.take_ownership_unchecked(ctx), self.1.take_ownership_unchecked(ctx))
    }
}

/// Three references convert to the three owned values.
impl<A: RcuRef, B: RcuRef, C: RcuRef> RcuRef for (A, B, C) {
    type Output = (A::Output, B::Output, C::Output);

    open spec fn due(&self) -> u64 {
        later(later(self.0.due(), self.1.due()), self.2.due())
    }

    open spec fn yields(&self, out: &Self::Output) -> bool {
        self.0.yields(&out.0) && self.1.yields(&out.1) && self.2.yields(&out.2)
    }

    fn due_stamp(&self) -> (stamp: u64) {
        later_of(later_of(self.0.due_stamp(), self.1.due_stamp()), self.2.due_stamp())
    }

    fn take_ownership_unchecked(self, ctx: &RcuDomain) -> (out: Self::Output) {
        (
            self.0.take_ownership_unchecked(ctx),
            self.1.take_ownership_unchecked(ctx),
            self.2.take_ownership_unchecked(ctx),
        )
    }
}

/// Four references convert to the four owned values.
impl<A: RcuRef, B: RcuRef, C: RcuRef, D: RcuRef> RcuRef for (A, B, C, D) {
    type Output = (A::Output, B::Output, C::Output, D::Output);

    open spec fn due(&self) -> u64 {
        later(later(later(self.0.due(), self.1.due()), self.2.due()), self.3.due())
    }

    open spec fn yields(&self, out: &Self::Output) -> bool {
        &&& self.0.yields(&out.0)
        &&& self.1.yields(&out.1)
        &&& self.2.yields(&out.2)
        &&& self.3.yields(&out.3)
    }

    fn due_stamp(&self) -> (stamp: u64) {
        later_of(later_of(later_of(self.0.due_stamp(), self.1.due_stamp()), self.2.due_stamp()), self.3.due_stamp())
    }

    fn take_ownership_unchecked(self, ctx: &RcuDomain) -> (out: Self::Output) {
        (
            self.0.take_ownership_unchecked(ctx),
            self.1.take_ownership_unchecked(ctx),
            self.2.take_ownership_unchecked(ctx),
            self.3.take_ownership_unchecked(ctx),
        )
    }
}

/// Five references convert to the five owned values.
impl<A: RcuRef, B: RcuRef, C: RcuRef, D: RcuRef, E: RcuRef> RcuRef for (A, B, C, D, E) {
    type Output = (A::Output, B::Output, C::Output, D::Output, E::Output);

    open spec fn due(&self) -> u64 {
        later(later(later(later(self.0.due(), self.1.due()), self.2.due()), self.3.due()), self.4.due())
    }

    open spec fn yields(&self, out: &Self::Output) -> bool {
        &&& self.0.yields(&out.0)
        &&& self.1.yields(&out.1)
        &&& self.2.yields(&out.2)
        &&& self.3.yields(&out.3)
        &&& self.4.yields(&out.4)
    }

    fn due_stamp(&self) -> (stamp: u64) {
        later_of(later_of(later_of(later_of(self.0.due_stamp(), self.1.due_stamp()), self.2.due_stamp()), self.3.due_stamp()), self.4.due_stamp())
    }

    fn take_ownership_unchecked(self, ctx: &RcuDomain) -> (out: Self::Output) {
        (
            self.0.take_ownership_unchecked(ctx),
            self.1.take_ownership_unchecked(ctx),
            self.2.take_ownership_unchecked(ctx),
            self.3.take_ownership_unchecked(ctx),
            self.4.take_ownership_unchecked(ctx),
        )
    }
}

/// Six references convert to the six owned values.
impl<A: RcuRef, B: RcuRef, C: RcuRef, D: RcuRef, E: RcuRef, F: RcuRef> RcuRef for (A, B, C, D, E, F) {
    type Output = (A::Output, B::Output, C::Output, D::Output, E::Output, F::Output);

    open spec fn due(&self) -> u64 {
        later(later(later(later(later(self.0.due(), self.1.due()), self.2.due()), self.3.due()), self.4.due()), self.5.due())
    }

    open spec fn yields(&self, out: &Self::Output) -> bool {
        &&& self.0.yields(&out.0)
        &&& self.1.yields(&out.1)
        &&& self.2.yields(&out.2)
        &&& self.3.yields(&out.3)
        &&& self.4.yields(&out.4)
        &&& self.5.yields(&out.5)
    }

    fn due_stamp(&self) -> (stamp: u64) {
        later_of(later_of(later_of(later_of(later_of(self.0.due_stamp(), self.1.due_stamp()), self.2.due_stamp()), self.3.due_stamp()), self.4.due_stamp()), self.5.due_stamp())
    }

    fn take_ownership_unchecked(self, ctx: &RcuDomain) -> (out: Self::Output) {
        (
            self.0.take_ownership_unchecked(ctx),
            self.1.take_ownership_unchecked(ctx),
            self.2.take_ownership_unchecked(ctx),
            self.3.take_ownership_unchecked(ctx),
            self.4.take_ownership_unchecked(ctx),
            self.5.take_ownership_unchecked(ctx),
        )
    }
}

/// Seven references convert to the seven owned values.
impl<A: RcuRef, B: RcuRef, C: RcuRef, D: RcuRef, E: RcuRef, F: RcuRef, G: RcuRef> RcuRef for (A, B, C, D, E, F, G) {
    type Output = (A::Output, B::Output, C::Output, D::Output, E::Output, F::Output, G::Output);

    open spec fn due(&self) -> u64 {
        later(later(later(later(later(later(self.0.due(), self.1.due()), self.2.due()), self.3.due()), self.4.due()), self.5.due()), self.6.due())
    }

    open spec fn yields(&self, out: &Self::Output) -> bool {
        &&& self.0.yields(&out.0)
        &&& self.1.yields(&out.1)
        &&& self.2.yields(&out.2)
        &&& self.3.yields(&out.3)
        &&& self.4.yields(&out.4)
        &&& self.5.yields(&out.5)
        &&& self.6.yields(&out.6)
    }

    fn due_stamp(&self) -> (stamp: u64) {
        later_of(later_of(later_of(later_of(later_of(later_of(self.0.due_stamp(), self.1.due_stamp()), self.2.due_stamp()), self.3.due_stamp()), self.4.due_stamp()), self.5.due_stamp()), self.6.due_stamp())
    }

    fn take_ownership_unchecked(self, ctx: &RcuDomain) -> (out: Self::Output) {
        (
            self.0.take_ownership_unchecked(ctx),
            self.1.take_ownership_unchecked(ctx),
            self.2.take_ownership_unchecked(ctx),
            self.3.take_ownership_unchecked(ctx),
            self.4.take_ownership_unchecked(ctx),
            self.5.take_ownership_unchecked(ctx),
            self.6.take_ownership_unchecked(ctx),
        )
    }
}

} // verus!
