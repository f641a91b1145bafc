//! Bookkeeping of the worker pool: how many accepted jobs are still running,
//! and when waiters must be woken.
use vstd::prelude::*;

verus! {

/// The number of jobs that workers have taken and not yet finished.
pub struct ActiveJobs {
    pub count: usize,
}

/// The number of running jobs after a history of events, where `true` is a
/// job taken by a worker and `false` a job finished.
pub open spec fn active_after(events: Seq<bool>) -> int
    decreases events.len(),
{
    if events.len() == 0 {
        0
    } else {
        active_after(events.drop_last()) + if events.last() {
            1int
        } else {
            -1int
        }
    }
}

/// The number of `true` events (jobs taken) in the history.
pub open spec fn taken(events: Seq<bool>) -> nat
    decreases events.len(),
{
    if events.len() == 0 {
        0
    } else {
        taken(events.drop_last()) + if events.last() {
            1nat
        } else {
            0nat
        }
    }
}

/// A history in which no job finishes before it was taken.
pub open spec fn is_valid_history(events: Seq<bool>) -> bool {
    forall|k: int| 0 <= k <= events.len() ==> #[trigger] active_after(events.subrange(0, k)) >= 0
}

impl ActiveJobs {
    /// No job is running.
    pub fn new() -> (r: ActiveJobs)
        ensures
            r.count == 0,
    {
        ActiveJobs { count: 0 }
    }

    /// A worker took a job.
    pub fn job_taken(&mut self)
        requires
            old(self).count < usize::MAX,
        ensures
            final(self).count == old(self).count + 1,
    {
        self.count = self.count + 1;
    }

    /// A worker finished a job; the result says whether this left the pool
    /// idle, in which case waiters must be woken.
    pub fn job_finished(&mut self) -> (wake: bool)
        requires
            old(self).count > 0,
        ensures
            final(self).count == old(self).count - 1,
            wake == (final(self).count == 0),
    {
        self.count = self.count - 1;
        self.count == 0
    }

    /// Whether no job is running, so that a waiter may return.
    pub fn is_idle(&self) -> (r: bool)
        ensures
            r == (self.count == 0),
    {
        self.count == 0
    }
}

/// Quiescence: over any valid history, the number of running jobs is the
/// number taken minus the number finished, so the pool is idle exactly when
/// every job taken has finished.
pub proof fn lemma_quiescence(events: Seq<bool>)
    requires
        is_valid_history(events),
    ensures
        active_after(events) == taken(events) - (events.len() - taken(events)),
        (active_after(events) == 0) <==> (2 * taken(events) == events.len()),
        active_after(events) >= 0,
    decreases events.len(),
{
    assert(events.subrange(0, events.len() as int) =~= events);
    if events.len() > 0 {
        let prev = events.drop_last();
        assert forall|k: int| 0 <= k <= prev.len() implies #[trigger] active_after(prev.subrange(0, k)) >= 0 by {
            assert(prev.subrange(0, k) =~= events.subrange(0, k));
        };
        lemma_quiescence(prev);
    }
}

} // verus!
