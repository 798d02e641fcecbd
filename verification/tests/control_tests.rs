use vmm::boot::{compute_kernel_load_addr, SetupHeaderInfo};
use vmm::control::{which_event, OrchestratorPhase, RpcEvent, SnapshotAction,
    SnapshotOrchestrator};
use vmm::errors::VmmError;
use vmm::memory_snapshot::get_memory_state;
use vmm::quiesce::{vcpu_on_interrupt, QuiesceController, VcpuAction, VmRunState};

#[test]
fn rpc_event_decoding() {
    assert_eq!(which_event(0), RpcEvent::Nothing);
    assert_eq!(which_event(1), RpcEvent::Pause);
    assert_eq!(which_event(2), RpcEvent::Resume);
    assert_eq!(which_event(7), RpcEvent::Nothing);
}

#[test]
fn memory_state_is_one_flat_region() {
    let state = get_memory_state(64 * 1024 * 1024);
    assert_eq!(state.regions.len(), 1);
    assert_eq!(state.regions[0].base_address, 0);
    assert_eq!(state.regions[0].size, 64 * 1024 * 1024);
    assert_eq!(state.regions[0].offset, 0);
}

#[test]
fn kernel_load_addr_plain_and_bzimage() {
    // No header: rip points at the load address.
    assert_eq!(compute_kernel_load_addr(1 << 20, 0x1000, None), Ok(0x1000));
    // A bzImage: rip points 0x200 past it.
    let bz = SetupHeaderInfo { version: 0x020c, loadflags: 0x01 };
    assert_eq!(
        compute_kernel_load_addr(1 << 20, 0x1000, Some(bz)),
        Ok(0x1200)
    );
    // An old protocol is not a bzImage.
    let old = SetupHeaderInfo { version: 0x01ff, loadflags: 0x01 };
    assert_eq!(
        compute_kernel_load_addr(1 << 20, 0x1000, Some(old)),
        Ok(0x1000)
    );
    // Out of guest memory.
    assert_eq!(
        compute_kernel_load_addr(0x1000, 0x1000, None),
        Err(VmmError::RipOutOfGuestMemory)
    );
    assert_eq!(
        compute_kernel_load_addr(0x1100, 0x1000, Some(bz)),
        Err(VmmError::RipOutOfGuestMemory)
    );
}

#[test]
fn vcpu_obligation_follows_cell() {
    assert_eq!(vcpu_on_interrupt(VmRunState::Running), VcpuAction::Reenter);
    assert_eq!(vcpu_on_interrupt(VmRunState::Suspending), VcpuAction::AckAndPark);
    assert_eq!(vcpu_on_interrupt(VmRunState::Exiting), VcpuAction::AckAndExit);
}

#[test]
fn quiesce_waits_for_every_vcpu() {
    let mut q = QuiesceController::new(2);
    q.request_pause(VmRunState::Exiting);
    assert!(!q.pause_complete());
    q.vcpu_acknowledge(0);
    assert!(!q.pause_complete());
    q.vcpu_acknowledge(1);
    assert!(q.pause_complete());
}

#[test]
fn quiesce_suspend_then_resume() {
    let mut q = QuiesceController::new(3);
    q.request_pause(VmRunState::Suspending);
    q.vcpu_acknowledge(2);
    q.vcpu_acknowledge(0);
    q.vcpu_acknowledge(1);
    assert!(q.pause_complete());
    q.resume();
    assert_eq!(q.run_state, VmRunState::Running);
    assert_eq!(q.acks, 0);
    assert!(!q.pause_complete());
}

#[test]
fn snapshot_orchestration_exit_path() {
    let mut o = SnapshotOrchestrator::new();
    assert_eq!(o.on_request(false), SnapshotAction::KickVcpus);
    assert_eq!(o.on_quiesced(), SnapshotAction::SerializeCpu);
    // The CPU blob lands on disk before RAM persistence begins.
    assert_eq!(o.on_cpu_saved(), SnapshotAction::PersistRam);
    assert!(o.cpu_saved);
    assert_eq!(o.on_ram_persisted(), SnapshotAction::ExitVmm);
    assert_eq!(o.phase, OrchestratorPhase::Exited);
}

#[test]
fn snapshot_orchestration_resume_path() {
    let mut o = SnapshotOrchestrator::new();
    o.on_request(true);
    o.on_quiesced();
    o.on_cpu_saved();
    assert_eq!(o.on_ram_persisted(), SnapshotAction::ResumeVcpus);
    assert_eq!(o.phase, OrchestratorPhase::Resumed);
}
