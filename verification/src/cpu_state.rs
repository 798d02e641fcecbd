//! The versioned CPU-state blob.
//!
//! A snapshot carries the full VM state — every vCPU's register blob plus
//! the VM-wide state needed to rebuild the kernel objects — as one
//! length-prefixed, versioned byte stream: the schema version first, then
//! the vCPU blobs, then the VM-wide blob. Deserialization rejects schema
//! versions newer than this build.

use vstd::prelude::*;
use crate::codec::{
    enc_bytes, push_byte_vec, push_u16_le, push_u64_le, read_byte_vec, read_u16_le, read_u64_le,
    sp_bytes, sp_u16, sp_u64, u16_le, u64_le,
};
use crate::errors::VmmError;

verus! {

/// The schema version this build writes and the newest it reads.
pub const CPU_SCHEMA_VERSION: u16 = 1;

/// The composite VM state of a snapshot: one opaque register blob per
/// vCPU, and the VM-wide state blob.
pub struct CpuStateRecord {
    /// Schema version the record was written under.
    pub version: u16,
    /// Per-vCPU register/segment/MSR/LAPIC blobs, in vCPU order.
    pub vcpu_states: Vec<Vec<u8>>,
    /// VM-wide state needed to rebuild the virtualization objects.
    pub vm_state: Vec<u8>,
}

/// The mathematical content of a CPU-state record.
#[verifier::ext_equal]
pub struct CpuStateModel {
    pub version: u16,
    pub vcpu_states: Seq<Seq<u8>>,
    pub vm_state: Seq<u8>,
}

impl CpuStateRecord {
    /// The model of this record.
    pub open spec fn model(self) -> CpuStateModel {
        CpuStateModel {
            version: self.version,
            vcpu_states: self.vcpu_states@.map_values(|v: Vec<u8>| v@),
            vm_state: self.vm_state@,
        }
    }

    /// A record of the current schema version.
    pub fn new(vcpu_states: Vec<Vec<u8>>, vm_state: Vec<u8>) -> (r: CpuStateRecord)
        ensures
            r.version == CPU_SCHEMA_VERSION,
            r.vcpu_states@ == vcpu_states@,
            r.vm_state@ == vm_state@,
    {
        CpuStateRecord { version: CPU_SCHEMA_VERSION, vcpu_states, vm_state }
    }
}

impl CpuStateModel {
    /// A model the executable codec can represent.
    pub open spec fn wf(self) -> bool {
        &&& self.version <= CPU_SCHEMA_VERSION
        &&& self.vcpu_states.len() <= usize::MAX
        &&& forall|i: int| 0 <= i < self.vcpu_states.len()
            ==> (#[trigger] self.vcpu_states[i]).len() <= usize::MAX
        &&& self.vm_state.len() <= usize::MAX
    }
}

/// The concatenated length-prefixed blobs, first blob first.
pub open spec fn blobs_bytes(s: Seq<Seq<u8>>) -> Seq<u8>
    decreases s.len(),
{
    if s.len() == 0 {
        Seq::<u8>::empty()
    } else {
        enc_bytes(s.first()) + blobs_bytes(s.drop_first())
    }
}

/// Appending a blob appends its encoding.
pub proof fn lemma_blobs_bytes_push(s: Seq<Seq<u8>>, x: Seq<u8>)
    ensures blobs_bytes(s.push(x)) == blobs_bytes(s) + enc_bytes(x),
    decreases s.len(),
{
    if s.len() == 0 {
        let t = s.push(x);
        assert(t.first() == x);
        assert(t.drop_first() =~= Seq::<Seq<u8>>::empty());
        assert(Seq::<Seq<u8>>::empty().len() == 0);
        assert(blobs_bytes(t.drop_first()) == Seq::<u8>::empty());
        assert(blobs_bytes(t) == enc_bytes(x) + blobs_bytes(t.drop_first()));
        assert(blobs_bytes(t) =~= blobs_bytes(s) + enc_bytes(x));
    } else {
        assert(s.push(x).drop_first() =~= s.drop_first().push(x));
        assert(s.push(x).first() == s.first());
        lemma_blobs_bytes_push(s.drop_first(), x);
        assert(blobs_bytes(s.push(x)) =~= blobs_bytes(s) + enc_bytes(x));
    }
}

/// The byte stream of a CPU-state record: version, vCPU count, vCPU
/// blobs, VM-wide blob.
pub open spec fn enc_cpu_state(x: CpuStateModel) -> Seq<u8> {
    u16_le(x.version) + u64_le(x.vcpu_states.len() as u64) + blobs_bytes(x.vcpu_states)
        + enc_bytes(x.vm_state)
}

/// Parse `n` length-prefixed blobs at `pos`.
pub open spec fn sp_blobs(b: Seq<u8>, pos: int, n: nat) -> Result<(Seq<Seq<u8>>, int), VmmError>
    decreases n,
{
    if n == 0 {
        Ok((Seq::<Seq<u8>>::empty(), pos))
    } else {
        match sp_bytes(b, pos) {
            Ok((blob, p)) => match sp_blobs(b, p, (n - 1) as nat) {
                Ok((rest, p2)) => Ok((seq![blob] + rest, p2)),
                Err(e) => Err(e),
            },
            Err(e) => Err(e),
        }
    }
}

/// Parsing `rem` blobs after having already collected `acc`.
pub open spec fn sp_blobs_cont(b: Seq<u8>, pos: int, rem: nat, acc: Seq<Seq<u8>>)
    -> Result<(Seq<Seq<u8>>, int), VmmError>
{
    match sp_blobs(b, pos, rem) {
        Ok((rest, p)) => Ok((acc + rest, p)),
        Err(e) => Err(e),
    }
}

/// One step of blob parsing folds the first blob into the collection.
proof fn lemma_blobs_cont_step(b: Seq<u8>, pos: int, rem: nat, acc: Seq<Seq<u8>>)
    requires
        rem > 0,
    ensures
        sp_blobs_cont(b, pos, rem, acc) == match sp_bytes(b, pos) {
            Ok((blob, p)) => sp_blobs_cont(b, p, (rem - 1) as nat, acc.push(blob)),
            Err(e) => Err(e),
        },
{
    match sp_bytes(b, pos) {
        Ok((blob, p)) => {
            match sp_blobs(b, p, (rem - 1) as nat) {
                Ok((rest, p2)) => {
                    assert(acc + (seq![blob] + rest) =~= acc.push(blob) + rest);
                },
                Err(_) => {},
            }
        },
        Err(_) => {},
    }
}

/// Parse a whole buffer as a CPU-state record; future schema versions are
/// rejected, and nothing may be left over.
pub open spec fn sp_cpu_state(b: Seq<u8>) -> Result<CpuStateModel, VmmError> {
    match sp_u16(b, 0) {
        Ok((version, p1)) => {
            if version > CPU_SCHEMA_VERSION {
                Err(VmmError::SchemaVersionUnsupported)
            } else {
                match sp_u64(b, p1) {
                    Ok((n, p2)) => {
                        if n > usize::MAX as u64 {
                            Err(VmmError::MalformedInput)
                        } else {
                            match sp_blobs(b, p2, n as nat) {
                                Ok((blobs, p3)) => match sp_bytes(b, p3) {
                                    Ok((vm_state, p4)) => {
                                        if p4 != b.len() {
                                            Err(VmmError::MalformedInput)
                                        } else {
                                            Ok(CpuStateModel {
                                                version: version,
                                                vcpu_states: blobs,
                                                vm_state: vm_state,
                                            })
                                        }
                                    },
                                    Err(e) => Err(e),
                                },
                                Err(e) => Err(e),
                            }
                        }
                    },
                    Err(e) => Err(e),
                }
            }
        },
        Err(e) => Err(e),
    }
}

/// Serializes a CPU-state record to its byte stream.
pub fn serialize_cpu_state(rec: &CpuStateRecord) -> (r: Vec<u8>)
    ensures
        r@ == enc_cpu_state(rec.model()),
        rec.version <= CPU_SCHEMA_VERSION ==> rec.model().wf(),
{
    let mut out: Vec<u8> = Vec::new();
    push_u16_le(&mut out, rec.version);
    push_u64_le(&mut out, rec.vcpu_states.len() as u64);
    let ghost blobs = rec.model().vcpu_states;
    let mut i: usize = 0;
    while i < rec.vcpu_states.len()
        invariant
            i <= rec.vcpu_states.len(),
            blobs == rec.vcpu_states@.map_values(|v: Vec<u8>| v@),
            blobs.len() == rec.vcpu_states@.len(),
            out@ == u16_le(rec.version) + u64_le(rec.vcpu_states@.len() as u64)
                + blobs_bytes(blobs.take(i as int)),
        decreases rec.vcpu_states.len() - i,
    {
        push_byte_vec(&mut out, &rec.vcpu_states[i]);
        proof {
            assert(blobs.take(i + 1) =~= blobs.take(i as int).push(blobs[i as int]));
            lemma_blobs_bytes_push(blobs.take(i as int), blobs[i as int]);
            assert(blobs[i as int] == rec.vcpu_states@[i as int]@);
            assert(out@ =~= u16_le(rec.version) + u64_le(rec.vcpu_states@.len() as u64)
                + blobs_bytes(blobs.take(i + 1)));
        }
        i = i + 1;
    }
    proof {
        assert(blobs.take(blobs.len() as int) =~= blobs);
    }
    push_byte_vec(&mut out, &rec.vm_state);
    proof {
        assert(out@ =~= enc_cpu_state(rec.model()));
        assert(rec.vm_state.len() == rec.vm_state@.len());
        assert(rec.vcpu_states.len() == rec.vcpu_states@.len());
        assert forall|k: int| 0 <= k < blobs.len()
            implies (#[trigger] blobs[k]).len() <= usize::MAX by {
            let v: &Vec<u8> = &rec.vcpu_states[k];
            assert(v.len() == v@.len());
        }
    }
    out
}

/// Deserializes a byte stream into a CPU-state record; the exact
/// conditions for each outcome are those of `sp_cpu_state`.
#[verifier::loop_isolation(false)]
pub fn deserialize_cpu_state(buf: &Vec<u8>) -> (r: Result<CpuStateRecord, VmmError>)
    ensures
        match sp_cpu_state(buf@) {
            Ok(x) => r matches Ok(rec) && rec.model() == x,
            Err(e) => r matches Err(e2) && e2 == e,
        },
{
    let mut pos: usize = 0;
    let version = read_u16_le(buf, &mut pos)?;
    if version > CPU_SCHEMA_VERSION {
        return Err(VmmError::SchemaVersionUnsupported);
    }
    let n64 = read_u64_le(buf, &mut pos)?;
    if n64 > usize::MAX as u64 {
        return Err(VmmError::MalformedInput);
    }
    let n = n64 as usize;
    let ghost start = pos as int;
    let ghost whole = sp_blobs(buf@, start, n as nat);
    let mut blobs: Vec<Vec<u8>> = Vec::new();
    let mut k: usize = 0;
    proof {
        match whole {
            Ok((rest, _)) => {
                assert(Seq::<Seq<u8>>::empty() + rest =~= rest);
            },
            Err(_) => {},
        }
        assert(blobs@.map_values(|v: Vec<u8>| v@) =~= Seq::<Seq<u8>>::empty());
    }
    while k < n
        invariant
            k <= n,
            whole == sp_blobs(buf@, start, n as nat),
            whole == sp_blobs_cont(buf@, pos as int, (n - k) as nat,
                blobs@.map_values(|v: Vec<u8>| v@)),
        decreases n - k,
    {
        let ghost pos0 = pos as int;
        let ghost acc0 = blobs@.map_values(|v: Vec<u8>| v@);
        proof {
            lemma_blobs_cont_step(buf@, pos0, (n - k) as nat, acc0);
        }
        let blob = match read_byte_vec(buf, &mut pos) {
            Ok(v) => v,
            Err(e) => {
                return Err(e);
            },
        };
        blobs.push(blob);
        proof {
            assert(blobs@.map_values(|v: Vec<u8>| v@) =~= acc0.push(blob@));
        }
        k = k + 1;
    }
    let vm_state = read_byte_vec(buf, &mut pos)?;
    if pos != buf.len() {
        return Err(VmmError::MalformedInput);
    }
    let rec = CpuStateRecord { version: version, vcpu_states: blobs, vm_state: vm_state };
    proof {
        assert(blobs@.map_values(|v: Vec<u8>| v@) + Seq::<Seq<u8>>::empty()
            =~= blobs@.map_values(|v: Vec<u8>| v@));
        assert(rec.model() =~= sp_cpu_state(buf@).unwrap());
    }
    Ok(rec)
}

/// Blob streams parse back to the blobs they encode.
proof fn lemma_blobs_round_trip(b: Seq<u8>, pos: int, s: Seq<Seq<u8>>)
    requires
        0 <= pos,
        pos + blobs_bytes(s).len() <= b.len(),
        b.subrange(pos, pos + blobs_bytes(s).len()) == blobs_bytes(s),
        forall|i: int| 0 <= i < s.len() ==> (#[trigger] s[i]).len() <= usize::MAX,
    ensures
        sp_blobs(b, pos, s.len()) == Ok::<_, VmmError>((s, pos + blobs_bytes(s).len())),
    decreases s.len(),
{
    if s.len() == 0 {
        assert(sp_blobs(b, pos, 0) == Ok::<_, VmmError>((Seq::<Seq<u8>>::empty(), pos)));
        assert(s =~= Seq::<Seq<u8>>::empty());
    } else {
        let first = s.first();
        let head = enc_bytes(first);
        let tail = blobs_bytes(s.drop_first());
        let bb = blobs_bytes(s);
        assert(bb == head + tail);
        crate::codec::lemma_subrange_pointwise(b, pos, bb);
        assert forall|j: int| 0 <= j < head.len() implies b[pos + j] == head[j] by {
            assert(b[pos + j] == bb[j]);
        }
        crate::codec::lemma_sp_bytes_at(b, pos, first);
        let pos2 = pos + head.len();
        assert(b.subrange(pos2, pos2 + tail.len() as int) =~= tail) by {
            assert forall|j: int| 0 <= j < tail.len() implies b.subrange(pos2,
                pos2 + tail.len() as int)[j] == tail[j] by {
                assert(b.subrange(pos2, pos2 + tail.len() as int)[j] == b[pos2 + j]);
                assert(b[pos + (head.len() + j)] == bb[head.len() + j]);
                assert(bb[head.len() + j] == tail[j]);
            }
        }
        lemma_blobs_round_trip(b, pos2, s.drop_first());
        assert(seq![first] + s.drop_first() =~= s);
    }
}

/// Deserialization inverts serialization: the schema round-trips every
/// valid VM state under the current version.
#[verifier::rlimit(100)]
pub proof fn lemma_cpu_state_round_trip(x: CpuStateModel)
    requires
        x.wf(),
    ensures
        sp_cpu_state(enc_cpu_state(x)) == Ok::<CpuStateModel, VmmError>(x),
{
    let b = enc_cpu_state(x);
    let s1 = u16_le(x.version);
    let s2 = u64_le(x.vcpu_states.len() as u64);
    let s3 = blobs_bytes(x.vcpu_states);
    let s4 = enc_bytes(x.vm_state);
    let o3: int = 10 + s3.len() as int;
    assert forall|j: int| 0 <= j < 2 implies b[j] == s1[j] by {}
    assert forall|j: int| 0 <= j < 8 implies b[2 + j] == s2[j] by {}
    assert forall|j: int| 0 <= j < s3.len() implies b[10 + j] == s3[j] by {}
    assert forall|j: int| 0 <= j < s4.len() implies b[o3 + j] == s4[j] by {}
    assert(b.subrange(0, 2) =~= s1) by {
        assert forall|j: int| 0 <= j < 2 implies #[trigger] b.subrange(0, 2)[j] == s1[j] by {
            assert(b[j] == s1[j]);
        }
    }
    crate::codec::lemma_u16_le_round_trip(x.version);
    assert(b.subrange(2, 10) =~= s2) by {
        assert forall|j: int| 0 <= j < 8 implies #[trigger] b.subrange(2, 10)[j] == s2[j] by {
            assert(b[2 + j] == s2[j]);
        }
    }
    crate::codec::lemma_u64_le_round_trip(x.vcpu_states.len() as u64);
    assert(b.subrange(10, o3) =~= s3) by {
        assert forall|j: int| 0 <= j < s3.len() implies #[trigger] b.subrange(10, o3)[j]
            == s3[j] by {
            assert(b[10 + j] == s3[j]);
        }
    }
    lemma_blobs_round_trip(b, 10, x.vcpu_states);
    crate::codec::lemma_sp_bytes_at(b, o3, x.vm_state);
    assert(sp_cpu_state(b) matches Ok(y) && y =~= x);
}

} // verus!
