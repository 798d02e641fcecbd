//! Error kinds surfaced by the snapshot, restore and migration core.

use vstd::prelude::*;

verus! {

/// Why an operation of the core failed.
///
/// Snapshot and restore are all-or-nothing: any of these aborts the
/// operation and surfaces to the caller. Migration is fail-stop: a framing
/// error drops the partially built guest.
#[derive(Debug, Clone, Copy, PartialEq, Eq, Structural)]
pub enum VmmError {
    /// Two distinct chunks hashed to the same identifier; the save aborts.
    HashCollision,
    /// A snapshot or message carries a schema version newer than this build.
    SchemaVersionUnsupported,
    /// A buffer ended before its advertised length.
    TruncatedInput,
    /// A field of a decoded record holds a value outside its encoding.
    MalformedInput,
    /// A decoded path is not valid UTF-8.
    InvalidUtf8,
    /// A page index points outside guest memory.
    PageOutOfRange,
    /// The address in the rip register does not fit in guest memory.
    RipOutOfGuestMemory,
    /// Guest memory refused a read or a write.
    GuestMemoryAccess,
}

impl VmmError {
    /// One-line diagnostic for the standard error stream.
    pub fn describe(&self) -> (r: &'static str)
        ensures r@.len() > 0,
    {
        let r: &'static str = match self {
            VmmError::HashCollision => "hash collision between distinct chunks",
            VmmError::SchemaVersionUnsupported => "snapshot schema version is not supported",
            VmmError::TruncatedInput => "input ends before its advertised length",
            VmmError::MalformedInput => "malformed field in encoded input",
            VmmError::InvalidUtf8 => "path field is not valid utf-8",
            VmmError::PageOutOfRange => "page index outside guest memory",
            VmmError::RipOutOfGuestMemory => "rip register points outside guest memory",
            VmmError::GuestMemoryAccess => "guest memory access failed",
        };
        proof {
            reveal_strlit("hash collision between distinct chunks");
            reveal_strlit("snapshot schema version is not supported");
            reveal_strlit("input ends before its advertised length");
            reveal_strlit("malformed field in encoded input");
            reveal_strlit("path field is not valid utf-8");
            reveal_strlit("page index outside guest memory");
            reveal_strlit("rip register points outside guest memory");
            reveal_strlit("guest memory access failed");
        }
        r
    }
}

} // verus!
