//! Snapshot, restore and live-migration core for a small hosted hypervisor.
//!
//! The library holds the logic of the subsystem: a content-addressed chunk
//! store that deduplicates guest RAM images, the dirty-page bitmap scan, the
//! versioned CPU-state codec, the length-prefixed migration wire protocol,
//! the pre-copy sender's convergence machine, the receiver's page-apply
//! logic, and the vCPU quiesce model. Host-kernel ioctls, sockets and files
//! stay outside; they hand the library plain values.

pub mod boot;
pub mod codec;
pub mod control;
pub mod cpu_state;
pub mod dirty;
pub mod errors;
pub mod hash;
pub mod memory_snapshot;
pub mod message;
pub mod quiesce;
pub mod ram;
pub mod receiver;
pub mod sender;
pub mod store;
pub mod store_codec;
pub mod text;

pub use crate::memory_snapshot::get_memory_state;
pub use crate::message::MigrationMessage;

use vstd::prelude::*;

verus! {

/// Size in bytes of one guest page.
pub const PAGE_SIZE: usize = 4096;

/// Default size in bytes of one deduplication chunk (1 MiB).
pub const DEFAULT_CHUNK_SIZE: usize = 1048576;

} // verus!
