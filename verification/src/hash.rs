//! Chunk identifiers: a stable 64-bit hash over chunk bytes.
//!
//! The store's contract asks only that the identifier is deterministic and a
//! function of the chunk bytes alone; this module uses the FNV-1a folding,
//! whose whole behaviour is the short specification below. Collisions are
//! possible and are handled by the store, which compares bytes on a hash
//! match before deduplicating.

use vstd::prelude::*;

verus! {

/// FNV-1a starting value.
pub const FNV_OFFSET_BASIS: u64 = 0xcbf2_9ce4_8422_2325;

/// FNV-1a multiplier.
pub const FNV_PRIME: u64 = 0x0000_0100_0000_01b3;

/// One FNV-1a folding step: xor the byte in, multiply by the prime mod 2^64.
pub open spec fn fnv1a_step(h: u64, b: u8) -> u64 {
    vstd::wrapping::u64_specs::wrapping_mul(h ^ (b as u64), FNV_PRIME)
}

/// The chunk identifier of a byte sequence: FNV-1a folded left to right.
pub open spec fn fnv1a(bytes: Seq<u8>) -> u64
    decreases bytes.len(),
{
    if bytes.len() == 0 {
        FNV_OFFSET_BASIS
    } else {
        fnv1a_step(fnv1a(bytes.drop_last()), bytes.last())
    }
}

/// Computes the chunk identifier of `bytes`.
pub fn chunk_hash(bytes: &Vec<u8>) -> (h: u64)
    ensures
        h == fnv1a(bytes@),
{
    let mut h: u64 = FNV_OFFSET_BASIS;
    let mut i: usize = 0;
    proof {
        assert(bytes@.take(0) =~= Seq::<u8>::empty());
    }
    while i < bytes.len()
        invariant
            i <= bytes.len(),
            h == fnv1a(bytes@.take(i as int)),
        decreases bytes.len() - i,
    {
        h = (h ^ (bytes[i] as u64)).wrapping_mul(FNV_PRIME);
        proof {
            assert(bytes@.take(i + 1).drop_last() =~= bytes@.take(i as int));
            assert(bytes@.take(i + 1).last() == bytes@[i as int]);
        }
        i = i + 1;
    }
    proof {
        assert(bytes@.take(bytes@.len() as int) =~= bytes@);
    }
    h
}

} // verus!
