//! The pre-copy migration sender's decisions.
//!
//! After the bulk pass the sender runs numbered dirty passes. Each pass
//! ships the pages dirtied since the last one, appends their count to a
//! history, and then decides: once the recent counts have settled — or
//! unconditionally at the hard ceiling — it schedules the final
//! stop-and-copy pass, captures a live CPU snapshot, and finishes on that
//! pass. The functions here take the dirty count as a plain value and
//! return the decisions; moving the bytes is the caller's affair.

use vstd::prelude::*;

verus! {

/// Dirty passes needed before the stability check may cut over.
pub const MIN_DIRTY_PASSES: u64 = 3;

/// The pass at which the sender cuts over no matter what.
pub const FORCED_CUT_PASS: u64 = 13;

/// History entries the stability check averages over.
pub const STABILITY_WINDOW: u64 = 5;

/// Mean absolute change allowed between settled dirty counts.
pub const STABILITY_THRESHOLD: u64 = 100;

/// The distance between two counts.
pub open spec fn abs_delta(a: u64, b: u64) -> int {
    if a >= b { a - b } else { b - a }
}

/// Sum of the distances between the last `m + 1` entries' neighbours.
pub open spec fn sum_abs_deltas(h: Seq<u64>, m: int) -> int
    recommends m + 1 <= h.len(),
    decreases m,
{
    if m <= 0 {
        0
    } else {
        abs_delta(h[h.len() - m], h[h.len() - m - 1]) + sum_abs_deltas(h, m - 1)
    }
}

/// The history has settled: at least six entries, and the last five
/// deltas average under the threshold.
pub open spec fn history_stable(h: Seq<u64>) -> bool {
    h.len() >= STABILITY_WINDOW + 1
        && sum_abs_deltas(h, STABILITY_WINDOW as int) / (STABILITY_WINDOW as int)
            < STABILITY_THRESHOLD
}

/// Whether the recent dirty counts have settled.
pub fn is_stabilized(history: &Vec<u64>) -> (r: bool)
    ensures
        r == history_stable(history@),
{
    if history.len() < (STABILITY_WINDOW + 1) as usize {
        return false;
    }
    let n = history.len();
    let mut sum: u128 = 0;
    let mut t: usize = 0;
    while t < STABILITY_WINDOW as usize
        invariant
            t <= STABILITY_WINDOW,
            n == history@.len(),
            n >= STABILITY_WINDOW + 1,
            sum == sum_abs_deltas(history@, t as int),
            sum <= t * (u64::MAX as u128),
        decreases STABILITY_WINDOW - t,
    {
        let a = history[n - 1 - t];
        let b = history[n - 2 - t];
        let d: u64 = if a >= b { a - b } else { b - a };
        proof {
            assert(sum_abs_deltas(history@, t + 1) == abs_delta(history@[n - 1 - t],
                history@[n - 2 - t]) + sum_abs_deltas(history@, t as int));
        }
        sum = sum + d as u128;
        t = t + 1;
    }
    sum / (STABILITY_WINDOW as u128) < STABILITY_THRESHOLD as u128
}

/// The sender's position in the pre-copy run.
pub struct SenderState {
    /// Number of the dirty pass about to run or running; the bulk pass
    /// is pass zero.
    pub iteration: u64,
    /// Dirty counts so far; entry zero is the bulk pass's page count.
    pub dirty_history: Vec<u64>,
    /// The scheduled final pass, once the cut-over is decided.
    pub last_iteration: Option<u64>,
    /// Whether the live CPU snapshot has been captured.
    pub cpu_snapshot_taken: bool,
}

/// What one dirty pass asks the caller to do.
#[derive(Clone, Copy, PartialEq, Eq, Structural, Debug)]
pub struct SenderDecision {
    /// The message of this pass carries the terminator flag.
    pub is_last: bool,
    /// Capture the live CPU snapshot now.
    pub capture_cpu: bool,
    /// The run is over after this pass.
    pub done: bool,
}

impl SenderState {
    /// States the run can reach: the cut is scheduled by pass thirteen,
    /// for the pass after it at the latest, and a schedule exists before
    /// any pass past it runs.
    pub open spec fn wf(self) -> bool {
        &&& self.iteration >= 1
        &&& match self.last_iteration {
            Some(l) => 2 <= l <= FORCED_CUT_PASS + 1 && self.iteration <= l,
            None => self.iteration <= FORCED_CUT_PASS && !self.cpu_snapshot_taken,
        }
        &&& (self.cpu_snapshot_taken <==> self.last_iteration is Some)
    }

    /// A sender before its first dirty pass, its history holding the bulk
    /// pass's page count.
    pub fn new(bulk_pages: u64) -> (r: SenderState)
        ensures
            r.wf(),
            r.iteration == 1,
            r.dirty_history@ == seq![bulk_pages],
            r.last_iteration is None,
            !r.cpu_snapshot_taken,
    {
        let mut dirty_history: Vec<u64> = Vec::new();
        dirty_history.push(bulk_pages);
        proof {
            assert(dirty_history@ =~= seq![bulk_pages]);
        }
        SenderState {
            iteration: 1,
            dirty_history,
            last_iteration: None,
            cpu_snapshot_taken: false,
        }
    }

    /// Runs the bookkeeping of one dirty pass: records the count, marks
    /// the pass's message as last when this is the scheduled final pass,
    /// and decides the cut-over.
    ///
    /// The cut-over — capturing the live CPU snapshot and scheduling the
    /// next pass as the final one — happens on the first pass where the
    /// history has settled after the minimum passes, and at the forced
    /// ceiling no matter what; so it happens on a pass no later than the
    /// ceiling.
    pub fn dirty_pass(&mut self, dirty_count: u64) -> (d: SenderDecision)
        requires
            old(self).wf(),
        ensures
            final(self).wf(),
            final(self).dirty_history@ == old(self).dirty_history@.push(dirty_count),
            d.is_last == (old(self).last_iteration == Some(old(self).iteration)),
            d.done == d.is_last,
            d.capture_cpu == (old(self).last_iteration is None
                && ((old(self).iteration > MIN_DIRTY_PASSES
                        && history_stable(old(self).dirty_history@.push(dirty_count)))
                    || old(self).iteration >= FORCED_CUT_PASS)),
            d.capture_cpu ==> final(self).last_iteration == Some((old(self).iteration + 1) as u64)
                && final(self).cpu_snapshot_taken,
            !d.capture_cpu ==> final(self).last_iteration == old(self).last_iteration
                && final(self).cpu_snapshot_taken == old(self).cpu_snapshot_taken,
            d.capture_cpu ==> old(self).iteration <= FORCED_CUT_PASS,
            !d.done ==> final(self).iteration == old(self).iteration + 1,
            d.done ==> final(self).iteration == old(self).iteration,
    {
        let is_last = match self.last_iteration {
            Some(l) => l == self.iteration,
            None => false,
        };
        self.dirty_history.push(dirty_count);
        let stable = is_stabilized(&self.dirty_history);
        let capture_cpu = self.last_iteration.is_none()
            && ((self.iteration > MIN_DIRTY_PASSES && stable)
                || self.iteration >= FORCED_CUT_PASS);
        if capture_cpu {
            self.last_iteration = Some(self.iteration + 1);
            self.cpu_snapshot_taken = true;
        }
        if !is_last {
            self.iteration = self.iteration + 1;
        }
        SenderDecision { is_last, capture_cpu, done: is_last }
    }
}

/// Convergence bound: whatever the dirty counts do, a reachable sender
/// state never runs a pass past the forced ceiling plus the one final
/// stop-and-copy pass.
pub proof fn lemma_convergence_bound(s: SenderState)
    requires
        s.wf(),
    ensures
        s.iteration <= FORCED_CUT_PASS + 1,
        s.last_iteration matches Some(l) ==> l <= FORCED_CUT_PASS + 1,
{
}

} // verus!
