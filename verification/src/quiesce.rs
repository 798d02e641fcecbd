//! The vCPU quiesce protocol, as a state machine.
//!
//! A pause stores a non-running state in the shared cell, notifies, and
//! kicks every vCPU out of its run call with the reserved realtime
//! signal. Each vCPU then reads the cell; if it is not running any more,
//! the vCPU posts one acknowledgement and parks or exits. The controller
//! counts acknowledgements: when every vCPU has posted one, no vCPU is
//! inside the run call, so registers and guest RAM are quiescent until a
//! resume. The model below carries each vCPU's phase so that this is a
//! provable statement, not a comment.

use vstd::prelude::*;

verus! {

/// The shared run-state cell.
#[derive(Clone, Copy, PartialEq, Eq, Structural, Debug)]
pub enum VmRunState {
    Running,
    Suspending,
    Exiting,
}

/// Where one vCPU thread stands.
#[derive(Clone, Copy, PartialEq, Eq, Structural, Debug)]
pub enum VcpuPhase {
    /// Inside the run call, executing guest code.
    InGuest,
    /// Acknowledged a suspend; blocked until the cell turns running.
    Parked,
    /// Acknowledged an exit; the thread is gone.
    Exited,
}

/// What a vCPU must do after its run call is interrupted, given the cell.
#[derive(Clone, Copy, PartialEq, Eq, Structural, Debug)]
pub enum VcpuAction {
    /// The cell still says running: re-enter the run call.
    Reenter,
    /// Post one acknowledgement, then block until the cell says running.
    AckAndPark,
    /// Post one acknowledgement, then exit the thread.
    AckAndExit,
}

/// The per-vCPU obligation: what to do on returning from an interrupted
/// run call with the cell's value in hand.
pub fn vcpu_on_interrupt(cell: VmRunState) -> (a: VcpuAction)
    ensures
        a == match cell {
            VmRunState::Running => VcpuAction::Reenter,
            VmRunState::Suspending => VcpuAction::AckAndPark,
            VmRunState::Exiting => VcpuAction::AckAndExit,
        },
{
    match cell {
        VmRunState::Running => VcpuAction::Reenter,
        VmRunState::Suspending => VcpuAction::AckAndPark,
        VmRunState::Exiting => VcpuAction::AckAndExit,
    }
}

/// Acknowledgements a phase vector accounts for: one per vCPU no longer
/// in the guest.
pub open spec fn acked_count(phases: Seq<VcpuPhase>) -> int
    decreases phases.len(),
{
    if phases.len() == 0 {
        0
    } else {
        acked_count(phases.drop_last()) + if phases.last() == VcpuPhase::InGuest {
            0int
        } else {
            1int
        }
    }
}

/// The acknowledgement count never exceeds the vCPU count, and reaches it
/// only when no vCPU is left in the guest.
pub proof fn lemma_acked_count_full(phases: Seq<VcpuPhase>)
    ensures
        0 <= acked_count(phases) <= phases.len(),
        acked_count(phases) == phases.len()
            ==> forall|i: int| 0 <= i < phases.len()
                ==> (#[trigger] phases[i]) != VcpuPhase::InGuest,
    decreases phases.len(),
{
    if phases.len() > 0 {
        lemma_acked_count_full(phases.drop_last());
        if acked_count(phases) == phases.len() {
            assert forall|i: int| 0 <= i < phases.len()
                implies (#[trigger] phases[i]) != VcpuPhase::InGuest by {
                if i < phases.len() - 1 {
                    assert(phases.drop_last()[i] == phases[i]);
                }
            }
        }
    }
}

/// The quiesce controller: the cell, the vCPU phases, and the
/// acknowledgements drained from the channel.
pub struct QuiesceController {
    pub run_state: VmRunState,
    pub phases: Vec<VcpuPhase>,
    pub acks: usize,
}

impl QuiesceController {
    /// The controller accounts exactly for the acknowledgements posted.
    pub open spec fn wf(self) -> bool {
        &&& self.acks == acked_count(self.phases@)
        &&& (self.run_state == VmRunState::Running
            ==> forall|i: int| 0 <= i < self.phases@.len()
                ==> (#[trigger] self.phases@[i]) != VcpuPhase::Parked)
    }

    /// All vCPUs have acknowledged the pause.
    pub open spec fn quiesced(self) -> bool {
        self.acks == self.phases@.len()
    }

    /// A running VM with `num_vcpus` vCPUs in the guest.
    pub fn new(num_vcpus: usize) -> (r: QuiesceController)
        ensures
            r.wf(),
            r.run_state == VmRunState::Running,
            r.phases@.len() == num_vcpus,
            forall|i: int| 0 <= i < num_vcpus
                ==> (#[trigger] r.phases@[i]) == VcpuPhase::InGuest,
            r.acks == 0,
    {
        let mut phases: Vec<VcpuPhase> = Vec::new();
        let mut i: usize = 0;
        while i < num_vcpus
            invariant
                i <= num_vcpus,
                phases@.len() == i,
                forall|j: int| 0 <= j < i ==> (#[trigger] phases@[j]) == VcpuPhase::InGuest,
                acked_count(phases@) == 0,
            decreases num_vcpus - i,
        {
            let ghost before = phases@;
            phases.push(VcpuPhase::InGuest);
            proof {
                assert(phases@.drop_last() =~= before);
            }
            i = i + 1;
        }
        QuiesceController { run_state: VmRunState::Running, phases, acks: 0 }
    }

    /// Stores a non-running state in the cell and notifies; the caller
    /// then kicks each vCPU thread with the reserved signal.
    pub fn request_pause(&mut self, mode: VmRunState)
        requires
            old(self).wf(),
            mode != VmRunState::Running,
            old(self).run_state == VmRunState::Running,
        ensures
            final(self).wf(),
            final(self).run_state == mode,
            final(self).phases@ == old(self).phases@,
            final(self).acks == old(self).acks,
    {
        self.run_state = mode;
    }

    /// vCPU `i`, kicked out of its run call, observes the non-running
    /// cell and posts its acknowledgement.
    pub fn vcpu_acknowledge(&mut self, i: usize)
        requires
            old(self).wf(),
            old(self).run_state != VmRunState::Running,
            i < old(self).phases@.len(),
            old(self).phases@[i as int] == VcpuPhase::InGuest,
        ensures
            final(self).wf(),
            final(self).run_state == old(self).run_state,
            final(self).phases@ == old(self).phases@.update(i as int,
                if old(self).run_state == VmRunState::Suspending {
                    VcpuPhase::Parked
                } else {
                    VcpuPhase::Exited
                }),
            final(self).acks == old(self).acks + 1,
    {
        proof {
            lemma_acked_count_full(self.phases@);
            assert(self.phases@.len() == self.phases.len());
            assert(self.acks < self.phases@.len());
        }
        let phase = if self.run_state == VmRunState::Suspending {
            VcpuPhase::Parked
        } else {
            VcpuPhase::Exited
        };
        self.phases.set(i, phase);
        self.acks = self.acks + 1;
        proof {
            lemma_acked_count_update(old(self).phases@, i as int, phase);
        }
    }

    /// Whether every vCPU has acknowledged: the pause call returns only
    /// once this holds.
    pub fn pause_complete(&self) -> (r: bool)
        requires
            self.wf(),
        ensures
            r == self.quiesced(),
            r ==> forall|i: int| 0 <= i < self.phases@.len()
                ==> (#[trigger] self.phases@[i]) != VcpuPhase::InGuest,
    {
        proof {
            lemma_acked_count_full(self.phases@);
        }
        self.acks == self.phases.len()
    }

    /// Stores running and notifies: parked vCPUs re-enter the run call.
    pub fn resume(&mut self)
        requires
            old(self).wf(),
            old(self).run_state == VmRunState::Suspending,
            old(self).quiesced(),
        ensures
            final(self).wf(),
            final(self).run_state == VmRunState::Running,
            final(self).phases@.len() == old(self).phases@.len(),
            forall|i: int| 0 <= i < old(self).phases@.len()
                ==> (#[trigger] final(self).phases@[i]) == if old(self).phases@[i]
                    == VcpuPhase::Parked {
                    VcpuPhase::InGuest
                } else {
                    old(self).phases@[i]
                },
            final(self).acks == acked_count(final(self).phases@),
    {
        let n = self.phases.len();
        let mut i: usize = 0;
        let mut acks: usize = 0;
        proof {
            assert(self.phases@.take(0) =~= Seq::<VcpuPhase>::empty());
            lemma_acked_count_full(self.phases@);
        }
        while i < n
            invariant
                i <= n,
                n == self.phases@.len(),
                forall|j: int| 0 <= j < n
                    ==> (#[trigger] old(self).phases@[j]) != VcpuPhase::InGuest,
                self.phases@.len() == old(self).phases@.len(),
                forall|j: int| i <= j < n
                    ==> (#[trigger] self.phases@[j]) == old(self).phases@[j],
                forall|j: int| 0 <= j < i
                    ==> (#[trigger] self.phases@[j]) == if old(self).phases@[j]
                        == VcpuPhase::Parked {
                        VcpuPhase::InGuest
                    } else {
                        old(self).phases@[j]
                    },
                acks == acked_count(self.phases@.take(i as int)),
                acks <= i,
            decreases n - i,
        {
            let ghost before = self.phases@;
            if self.phases[i] == VcpuPhase::Parked {
                self.phases.set(i, VcpuPhase::InGuest);
            } else {
                acks = acks + 1;
            }
            proof {
                assert(self.phases@.take(i + 1).drop_last() =~= before.take(i as int));
                assert(before.take(i as int) =~= self.phases@.take(i as int));
            }
            i = i + 1;
        }
        proof {
            assert(self.phases@.take(n as int) =~= self.phases@);
        }
        self.acks = acks;
        self.run_state = VmRunState::Running;
    }
}

/// Updating a phase from in-guest to acknowledged raises the count by one.
proof fn lemma_acked_count_update(phases: Seq<VcpuPhase>, i: int, phase: VcpuPhase)
    requires
        0 <= i < phases.len(),
        phases[i] == VcpuPhase::InGuest,
        phase != VcpuPhase::InGuest,
    ensures
        acked_count(phases.update(i, phase)) == acked_count(phases) + 1,
    decreases phases.len(),
{
    if i == phases.len() - 1 {
        assert(phases.update(i, phase).drop_last() =~= phases.drop_last());
    } else {
        assert(phases.update(i, phase).drop_last() =~= phases.drop_last().update(i, phase));
        lemma_acked_count_update(phases.drop_last(), i, phase);
    }
}

/// Quiesce safety: once every vCPU has acknowledged, none is inside the
/// run call, so no vCPU mutates its registers or guest RAM until a
/// resume.
pub proof fn lemma_quiesce_safety(q: QuiesceController)
    requires
        q.wf(),
        q.quiesced(),
    ensures
        forall|i: int| 0 <= i < q.phases@.len()
            ==> (#[trigger] q.phases@[i]) != VcpuPhase::InGuest,
{
    lemma_acked_count_full(q.phases@);
}

} // verus!
