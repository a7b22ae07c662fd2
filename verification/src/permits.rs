//! Accounting of the bounded concurrency budget.
//!
//! Every handler task must take one permit before its body runs and gives
//! it back, unconditionally, when the task ends. The permit counter carries
//! its own history as a ghost trace, so what holds of every valid trace
//! holds of every execution it admits — in particular, under a bound of
//! one, no two task bodies ever overlap.

use vstd::prelude::*;

verus! {

/// One transition of the permit gate.
pub enum GateEvent {
    Acquire,
    Release,
}

/// Permits outstanding after a sequence of transitions.
pub open spec fn count_after(evs: Seq<GateEvent>) -> int
    decreases evs.len(),
{
    if evs.len() == 0 {
        0
    } else {
        count_after(evs.drop_last()) + (if evs.last() is Acquire {
            1int
        } else {
            -1int
        })
    }
}

/// A sequence of transitions is admissible iff every acquire happens under
/// the bound and every release matches an outstanding permit.
pub open spec fn valid_trace(evs: Seq<GateEvent>, limit: int) -> bool
    decreases evs.len(),
{
    if evs.len() == 0 {
        true
    } else {
        &&& valid_trace(evs.drop_last(), limit)
        &&& (evs.last() is Acquire ==> count_after(evs.drop_last()) < limit)
        &&& (evs.last() is Release ==> count_after(evs.drop_last()) > 0)
    }
}

/// In a valid trace the outstanding count never leaves `0..=limit`.
pub proof fn lemma_count_bounds(evs: Seq<GateEvent>, limit: int)
    requires
        valid_trace(evs, limit),
        limit >= 0,
    ensures
        0 <= count_after(evs) <= limit,
    decreases evs.len(),
{
    if evs.len() > 0 {
        lemma_count_bounds(evs.drop_last(), limit);
    }
}

/// Every prefix of a valid trace is itself valid.
pub proof fn lemma_prefix_valid(evs: Seq<GateEvent>, limit: int, m: int)
    requires
        valid_trace(evs, limit),
        0 <= m <= evs.len(),
    ensures
        valid_trace(evs.take(m), limit),
    decreases evs.len() - m,
{
    if m == evs.len() {
        assert(evs.take(m) =~= evs);
    } else {
        lemma_prefix_valid(evs, limit, m + 1);
        assert(evs.take(m + 1).drop_last() =~= evs.take(m));
        assert(valid_trace(evs.take(m + 1), limit));
    }
}

proof fn lemma_count_stays_positive(evs: Seq<GateEvent>, i: int, m: int)
    requires
        0 <= i < m <= evs.len(),
        count_after(evs.take(i + 1)) >= 1,
        forall|k: int| i < k < m ==> !((#[trigger] evs[k]) is Release),
    ensures
        count_after(evs.take(m)) >= 1,
    decreases m - i,
{
    if m > i + 1 {
        lemma_count_stays_positive(evs, i, m - 1);
        assert(evs.take(m).drop_last() =~= evs.take(m - 1));
        assert(evs.take(m).last() == evs[m - 1]);
    }
}

/// Mutual exclusion under a bound of one: between any two acquisitions of a
/// valid trace stands a release — the second task's body begins only after
/// the first task's permit is back.
pub proof fn lemma_exclusive_under_unit_bound(evs: Seq<GateEvent>, i: int, j: int)
    requires
        valid_trace(evs, 1),
        0 <= i < j < evs.len(),
        evs[i] is Acquire,
        evs[j] is Acquire,
    ensures
        exists|k: int| i < k < j && (#[trigger] evs[k]) is Release,
{
    if !(exists|k: int| i < k < j && (#[trigger] evs[k]) is Release) {
        assert forall|k: int| i < k < j implies !((#[trigger] evs[k]) is Release) by {}
        lemma_prefix_valid(evs, 1, i + 1);
        assert(evs.take(i + 1).drop_last() =~= evs.take(i));
        assert(evs.take(i + 1).last() == evs[i]);
        lemma_prefix_valid(evs, 1, i);
        lemma_count_bounds(evs.take(i), 1);
        assert(count_after(evs.take(i + 1)) >= 1);
        lemma_count_stays_positive(evs, i, j);
        lemma_prefix_valid(evs, 1, j + 1);
        assert(evs.take(j + 1).drop_last() =~= evs.take(j));
        assert(evs.take(j + 1).last() == evs[j]);
        assert(count_after(evs.take(j)) < 1);
        assert(false);
    }
}

/// The permits a well-formed counter has out never exceed its bound: the
/// number of handler bodies running at once stays within the configured
/// limit.
pub proof fn lemma_outstanding_bounded(g: PermitGate)
    requires
        g.wf(),
    ensures
        g.outstanding() <= g.spec_limit(),
{
    lemma_count_bounds(g.trace(), g.spec_limit() as int);
}

/// The concurrency gate: counts permits out against the bound and carries
/// its own transition history.
pub struct PermitGate {
    limit: u64,
    in_flight: u64,
    history: Ghost<Seq<GateEvent>>,
}

impl PermitGate {
    /// The configured bound.
    pub closed spec fn spec_limit(self) -> u64 {
        self.limit
    }

    /// Permits currently out.
    pub closed spec fn outstanding(self) -> u64 {
        self.in_flight
    }

    /// Every transition performed so far, in order.
    pub closed spec fn trace(self) -> Seq<GateEvent> {
        self.history@
    }

    /// The invariant: the history is a valid trace that accounts for every
    /// outstanding permit. In particular the outstanding permits never
    /// exceed the bound.
    pub open spec fn wf(self) -> bool {
        &&& valid_trace(self.trace(), self.spec_limit() as int)
        &&& count_after(self.trace()) == self.outstanding()
    }

    /// A fresh gate with `limit` permits and none out.
    pub fn new(limit: u64) -> (r: PermitGate)
        ensures
            r.wf(),
            r.spec_limit() == limit,
            r.outstanding() == 0,
            r.trace() == Seq::<GateEvent>::empty(),
    {
        PermitGate { limit, in_flight: 0, history: Ghost(Seq::empty()) }
    }

    /// Takes a permit when one is free: succeeds exactly when the
    /// outstanding permits are under the bound.
    pub fn try_acquire(&mut self) -> (r: bool)
        requires
            old(self).wf(),
        ensures
            final(self).wf(),
            final(self).spec_limit() == old(self).spec_limit(),
            r == (old(self).outstanding() < old(self).spec_limit()),
            r ==> final(self).outstanding() == old(self).outstanding() + 1 && final(self).trace()
                == old(self).trace().push(GateEvent::Acquire),
            !r ==> *final(self) == *old(self),
    {
        if self.in_flight < self.limit {
            self.in_flight = self.in_flight + 1;
            proof {
                let tr = self.history@.push(GateEvent::Acquire);
                assert(tr.drop_last() =~= old(self).trace());
            }
            self.history = Ghost(self.history@.push(GateEvent::Acquire));
            true
        } else {
            false
        }
    }

    /// Gives a permit back; every task does this when it ends, however it
    /// ends.
    pub fn release(&mut self)
        requires
            old(self).wf(),
            old(self).outstanding() >= 1,
        ensures
            final(self).wf(),
            final(self).spec_limit() == old(self).spec_limit(),
            final(self).outstanding() == old(self).outstanding() - 1,
            final(self).trace() == old(self).trace().push(GateEvent::Release),
    {
        self.in_flight = self.in_flight - 1;
        proof {
            let tr = self.history@.push(GateEvent::Release);
            assert(tr.drop_last() =~= old(self).trace());
        }
        self.history = Ghost(self.history@.push(GateEvent::Release));
    }
}

} // verus!
