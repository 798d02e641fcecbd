//! The shape of a guest memory snapshot: its regions as plain values.

use vstd::prelude::*;

verus! {

/// One memory region of a snapshot: where it sits in the guest, how large
/// it is, and where its bytes start in the image file.
#[derive(Clone, Copy, PartialEq, Eq, Structural, Debug)]
pub struct GuestMemoryRegionState {
    pub base_address: u64,
    pub size: usize,
    pub offset: u64,
}

/// The regions of a guest memory snapshot, in guest-address order.
pub struct GuestMemoryState {
    pub regions: Vec<GuestMemoryRegionState>,
}

/// The memory state of this hypervisor's guests: one flat region of `size`
/// bytes at guest address zero, at offset zero of the image file.
pub fn get_memory_state(size: usize) -> (r: GuestMemoryState)
    ensures
        r.regions@.len() == 1,
        r.regions@[0] == (GuestMemoryRegionState { base_address: 0, size: size, offset: 0 }),
{
    let region_state = GuestMemoryRegionState {
        base_address: 0,
        size: size,
        offset: 0,
    };

    GuestMemoryState {
        regions: vec![region_state],
    }
}

} // verus!
