//! Snapshot control: the RPC request decoder and the orchestrator.
//!
//! The event loop drains a control cell each round: 1 asks for a
//! pause-and-exit snapshot, 2 for a snapshot with resume, anything else
//! for nothing. The orchestrator sequences the snapshot itself: park the
//! vCPUs, write the CPU state, then persist RAM, then resume or exit. The
//! CPU state is written before RAM persistence starts, so a restore that
//! finds CPU state without RAM can be diagnosed and discarded.

use vstd::prelude::*;

verus! {

/// What the control cell asks for.
#[derive(Clone, Copy, PartialEq, Eq, Structural, Debug)]
pub enum RpcEvent {
    /// Nothing pending.
    Nothing,
    /// Snapshot, then exit.
    Pause,
    /// Snapshot, then keep running.
    Resume,
}

/// Decodes the control cell's value: 1 is a pause, 2 a resume, anything
/// else nothing.
pub fn which_event(val: u16) -> (r: RpcEvent)
    ensures
        r == RpcEvent::Pause <==> val == 1,
        r == RpcEvent::Resume <==> val == 2,
        r == RpcEvent::Nothing <==> (val != 1 && val != 2),
{
    if val == 1 {
        RpcEvent::Pause
    } else if val == 2 {
        RpcEvent::Resume
    } else {
        RpcEvent::Nothing
    }
}

/// Where a snapshot operation stands.
#[derive(Clone, Copy, PartialEq, Eq, Structural, Debug)]
pub enum OrchestratorPhase {
    /// The guest is executing.
    Running,
    /// A snapshot was requested; the vCPUs are being parked.
    PauseRequested,
    /// Every vCPU acknowledged; state is readable.
    Quiesced,
    /// The CPU-state blob is on disk.
    CpuSaved,
    /// RAM has been dumped and deduplicated; about to resume.
    Resumed,
    /// RAM has been dumped and deduplicated; the VMM exits.
    Exited,
}

/// What the orchestrator asks its caller to do next.
#[derive(Clone, Copy, PartialEq, Eq, Structural, Debug)]
pub enum SnapshotAction {
    /// Park all vCPUs and wait for their acknowledgements.
    KickVcpus,
    /// Serialize the CPU state and write its blob.
    SerializeCpu,
    /// Dump RAM, flush and sync it, and deduplicate it into the store.
    PersistRam,
    /// Store running and notify the parked vCPUs.
    ResumeVcpus,
    /// Kick the event loop so the VMM exits.
    ExitVmm,
}

/// The snapshot orchestrator's state.
pub struct SnapshotOrchestrator {
    pub phase: OrchestratorPhase,
    /// The guest resumes after the snapshot instead of exiting.
    pub resume_after: bool,
    /// The CPU-state blob has been written in this operation.
    pub cpu_saved: bool,
}

impl SnapshotOrchestrator {
    /// RAM is never persisted before the CPU state is on disk.
    pub open spec fn wf(self) -> bool {
        &&& (self.phase == OrchestratorPhase::CpuSaved ==> self.cpu_saved)
        &&& (self.phase == OrchestratorPhase::Resumed ==> self.cpu_saved)
        &&& (self.phase == OrchestratorPhase::Exited ==> self.cpu_saved)
        &&& (self.phase == OrchestratorPhase::Running ==> !self.cpu_saved)
        &&& (self.phase == OrchestratorPhase::PauseRequested ==> !self.cpu_saved)
        &&& (self.phase == OrchestratorPhase::Quiesced ==> !self.cpu_saved)
    }

    /// An orchestrator with the guest running.
    pub fn new() -> (r: SnapshotOrchestrator)
        ensures
            r.wf(),
            r.phase == OrchestratorPhase::Running,
            !r.cpu_saved,
    {
        SnapshotOrchestrator {
            phase: OrchestratorPhase::Running,
            resume_after: false,
            cpu_saved: false,
        }
    }

    /// A snapshot request arrived: remember whether to resume, and park
    /// the vCPUs.
    pub fn on_request(&mut self, resume: bool) -> (a: SnapshotAction)
        requires
            old(self).wf(),
            old(self).phase == OrchestratorPhase::Running,
        ensures
            final(self).wf(),
            final(self).phase == OrchestratorPhase::PauseRequested,
            final(self).resume_after == resume,
            a == SnapshotAction::KickVcpus,
    {
        self.phase = OrchestratorPhase::PauseRequested;
        self.resume_after = resume;
        SnapshotAction::KickVcpus
    }

    /// All vCPUs acknowledged: write the CPU state first.
    pub fn on_quiesced(&mut self) -> (a: SnapshotAction)
        requires
            old(self).wf(),
            old(self).phase == OrchestratorPhase::PauseRequested,
        ensures
            final(self).wf(),
            final(self).phase == OrchestratorPhase::Quiesced,
            final(self).resume_after == old(self).resume_after,
            a == SnapshotAction::SerializeCpu,
    {
        self.phase = OrchestratorPhase::Quiesced;
        SnapshotAction::SerializeCpu
    }

    /// The CPU-state blob is on disk: only now persist RAM.
    pub fn on_cpu_saved(&mut self) -> (a: SnapshotAction)
        requires
            old(self).wf(),
            old(self).phase == OrchestratorPhase::Quiesced,
        ensures
            final(self).wf(),
            final(self).phase == OrchestratorPhase::CpuSaved,
            final(self).cpu_saved,
            final(self).resume_after == old(self).resume_after,
            a == SnapshotAction::PersistRam,
    {
        self.phase = OrchestratorPhase::CpuSaved;
        self.cpu_saved = true;
        SnapshotAction::PersistRam
    }

    /// RAM is dumped and deduplicated: resume the guest or exit the VMM,
    /// as the request asked.
    pub fn on_ram_persisted(&mut self) -> (a: SnapshotAction)
        requires
            old(self).wf(),
            old(self).phase == OrchestratorPhase::CpuSaved,
        ensures
            final(self).wf(),
            old(self).resume_after ==> final(self).phase == OrchestratorPhase::Resumed
                && a == SnapshotAction::ResumeVcpus,
            !old(self).resume_after ==> final(self).phase == OrchestratorPhase::Exited
                && a == SnapshotAction::ExitVmm,
    {
        if self.resume_after {
            self.phase = OrchestratorPhase::Resumed;
            SnapshotAction::ResumeVcpus
        } else {
            self.phase = OrchestratorPhase::Exited;
            SnapshotAction::ExitVmm
        }
    }
}

/// Ordering guarantee: in every state at or past RAM persistence, the
/// CPU-state blob is already on disk.
pub proof fn lemma_snapshot_ordering(s: SnapshotOrchestrator)
    requires
        s.wf(),
        s.phase == OrchestratorPhase::CpuSaved || s.phase == OrchestratorPhase::Resumed
            || s.phase == OrchestratorPhase::Exited,
    ensures
        s.cpu_saved,
{
}

} // verus!
