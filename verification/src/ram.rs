//! Guest RAM behind an mmap-backed guest memory region.
//!
//! The region lives in the host process through the `vm-memory` crate and
//! is written through the mapping, so the Rust value never changes when the
//! bytes do. The struct below therefore hides the region and exposes only
//! `&mut` operations, and the contents are named by `ram_seq`: every
//! contract over guest RAM speaks of that sequence.

use vstd::prelude::*;
use vm_memory::{Bytes, GuestMemoryBackend};
use crate::errors::VmmError;

verus! {

/// A single guest memory region starting at guest address zero.
#[verifier::external_body]
pub struct GuestRam {
    mem: vm_memory::GuestMemoryMmap<()>,
}

/// The bytes the guest RAM holds, in guest-address order.
pub uninterp spec fn ram_seq(ram: GuestRam) -> Seq<u8>;

impl GuestRam {
    /// Relies on vm_memory::GuestMemoryMmap::from_ranges: one anonymous
    /// mapping of `size` bytes at guest address zero, zero-filled by the
    /// host kernel.
    #[verifier::external_body]
    pub fn new(size: u64) -> (r: Result<GuestRam, VmmError>)
        ensures
            match r {
                Ok(ram) => ram_seq(ram).len() == size
                    && forall|i: int| 0 <= i < size ==> ram_seq(ram)[i] == 0u8,
                Err(e) => e == VmmError::GuestMemoryAccess,
            },
    {
        if size > usize::MAX as u64 {
            return Err(VmmError::GuestMemoryAccess);
        }
        let ranges = [(vm_memory::GuestAddress(0), size as usize)];
        match vm_memory::GuestMemoryMmap::<()>::from_ranges(&ranges) {
            Ok(mem) => Ok(GuestRam { mem }),
            Err(_) => Err(VmmError::GuestMemoryAccess),
        }
    }

    /// Relies on vm_memory::GuestMemoryBackend::last_addr: the region runs
    /// from guest address zero to its last byte.
    #[verifier::external_body]
    pub fn size(&self) -> (n: u64)
        ensures
            n == ram_seq(*self).len(),
    {
        self.mem.last_addr().0.wrapping_add(1)
    }

    /// Relies on vm_memory's Bytes::read_slice: a whole-or-nothing read of
    /// `len` bytes at `addr`; it succeeds exactly when the range lies in
    /// the region, an empty read trivially so.
    #[verifier::external_body]
    pub fn read_region(&self, addr: u64, len: usize) -> (r: Result<Vec<u8>, VmmError>)
        ensures
            r is Ok <==> (len == 0 || addr + len <= ram_seq(*self).len()),
            match r {
                Ok(v) => v@.len() == len && (addr + len <= ram_seq(*self).len()
                    ==> v@ == ram_seq(*self).subrange(addr as int, addr + len)),
                Err(e) => e == VmmError::GuestMemoryAccess,
            },
    {
        let mut buf: Vec<u8> = vec![0u8; len];
        match self.mem.read_slice(&mut buf, vm_memory::GuestAddress(addr)) {
            Ok(()) => Ok(buf),
            Err(_) => Err(VmmError::GuestMemoryAccess),
        }
    }

    /// Relies on vm_memory's Bytes::write_slice: writes all of `data` at
    /// `addr`; it succeeds exactly when the range lies in the region, an
    /// empty write trivially so, and on failure bytes outside the
    /// addressed range are untouched.
    #[verifier::external_body]
    pub fn write_region(&mut self, addr: u64, data: &Vec<u8>) -> (r: Result<(), VmmError>)
        ensures
            ram_seq(*final(self)).len() == ram_seq(*old(self)).len(),
            r is Ok <==> (data@.len() == 0
                || addr + data@.len() <= ram_seq(*old(self)).len()),
            r is Ok ==> ram_seq(*final(self))
                == write_seq(ram_seq(*old(self)), addr as int, data@),
            r is Err ==> forall|i: int| 0 <= i < ram_seq(*old(self)).len()
                && !(addr <= i < addr + data@.len())
                ==> ram_seq(*final(self))[i] == ram_seq(*old(self))[i],
            r is Err ==> (r matches Err(e) && e == VmmError::GuestMemoryAccess),
    {
        match self.mem.write_slice(data.as_slice(), vm_memory::GuestAddress(addr)) {
            Ok(()) => Ok(()),
            Err(_) => Err(VmmError::GuestMemoryAccess),
        }
    }
}

/// `base` with `bytes` written at `addr`, everything else unchanged.
pub open spec fn write_seq(base: Seq<u8>, addr: int, bytes: Seq<u8>) -> Seq<u8> {
    Seq::new(base.len(), |i: int| if addr <= i < addr + bytes.len() {
        bytes[i - addr]
    } else {
        base[i]
    })
}

} // verus!
