//! Where to point the instruction pointer after loading a kernel.

use vstd::prelude::*;
use crate::errors::VmmError;

verus! {

/// The offset of the real-mode entry inside a bzImage.
pub const BZIMAGE_ENTRY_OFFSET: u64 = 0x200;

/// The fields of the kernel's setup header that the entry decision reads.
#[derive(Clone, Copy, PartialEq, Eq, Structural, Debug)]
pub struct SetupHeaderInfo {
    /// Boot protocol version.
    pub version: u16,
    /// Load flags; bit 0 set means the kernel was loaded high (bzImage).
    pub loadflags: u8,
}

/// The header marks a bzImage: protocol 2.00 or newer with the high-load
/// flag set.
pub open spec fn is_bzimage(h: SetupHeaderInfo) -> bool {
    h.version >= 0x200 && h.loadflags & 0x1 == 0x1
}

/// Computes the guest address of the first instruction: the load address
/// itself, or 0x200 past it for a bzImage, checked against guest memory
/// of `mem_size` bytes; an address outside it is the rip error.
pub fn compute_kernel_load_addr(mem_size: u64, kernel_load: u64,
    setup_header: Option<SetupHeaderInfo>) -> (r: Result<u64, VmmError>)
    ensures
        match r {
            Ok(addr) => {
                &&& kernel_load < mem_size
                &&& match setup_header {
                    Some(h) => if is_bzimage(h) {
                        addr == kernel_load + BZIMAGE_ENTRY_OFFSET && addr < mem_size
                    } else {
                        addr == kernel_load
                    },
                    None => addr == kernel_load,
                }
            },
            Err(e) => {
                &&& e == VmmError::RipOutOfGuestMemory
                &&& (kernel_load >= mem_size
                    || (setup_header matches Some(h) && is_bzimage(h)
                        && (kernel_load + BZIMAGE_ENTRY_OFFSET >= mem_size)))
            },
        },
        r is Err <==> (kernel_load >= mem_size
            || (setup_header matches Some(h) && is_bzimage(h)
                && kernel_load + BZIMAGE_ENTRY_OFFSET >= mem_size)),
{
    if kernel_load >= mem_size {
        return Err(VmmError::RipOutOfGuestMemory);
    }
    let mut addr = kernel_load;
    if let Some(h) = setup_header {
        if h.version >= 0x200 && h.loadflags & 0x1 == 0x1 {
            // The bzImage real-mode code starts 0x200 past the load
            // address, so that is where rip must point.
            if mem_size - kernel_load <= BZIMAGE_ENTRY_OFFSET {
                return Err(VmmError::RipOutOfGuestMemory);
            }
            addr = kernel_load + BZIMAGE_ENTRY_OFFSET;
        }
    }
    Ok(addr)
}

} // verus!
