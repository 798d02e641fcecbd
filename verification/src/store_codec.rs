//! The chunk store's on-disk encoding.
//!
//! A store persists as three tables: the state record (format version,
//! chunk size, image length), the layout (ordered offset/identifier
//! rows), and the payload (identifier-keyed chunk bytes). Each table is a
//! little-endian byte stream; decoding is strict, and a decoded store is
//! reassembled only after every structural invariant has been checked, so
//! a load from disk either yields a well-formed store or an error.

use vstd::prelude::*;
use crate::codec::{
    enc_bytes, push_byte_vec, push_u64_le, read_byte_vec, read_u64_le, sp_bytes, sp_u64, u64_le,
};
use crate::errors::VmmError;
use crate::store::{
    has_hash, keys_unique, ChunkStore, LayoutEntry, PayloadEntry,
};

verus! {

/// The state table: version, chunk size, image length.
pub open spec fn enc_store_state(version: u64, chunk_size: u64, image_len: u64) -> Seq<u8> {
    u64_le(version) + u64_le(chunk_size) + u64_le(image_len)
}

/// Parse a whole buffer as a state table.
pub open spec fn sp_store_state(b: Seq<u8>) -> Result<(u64, u64, u64), VmmError> {
    match sp_u64(b, 0) {
        Ok((version, p1)) => match sp_u64(b, p1) {
            Ok((chunk_size, p2)) => match sp_u64(b, p2) {
                Ok((image_len, p3)) => {
                    if p3 != b.len() {
                        Err(VmmError::MalformedInput)
                    } else {
                        Ok((version, chunk_size, image_len))
                    }
                },
                Err(e) => Err(e),
            },
            Err(e) => Err(e),
        },
        Err(e) => Err(e),
    }
}

/// Encodes the state table of a store.
pub fn encode_store_state(s: &ChunkStore) -> (r: Vec<u8>)
    ensures
        r@ == enc_store_state(s.version, s.chunk_size as u64, s.image_len as u64),
{
    let mut out: Vec<u8> = Vec::new();
    push_u64_le(&mut out, s.version);
    push_u64_le(&mut out, s.chunk_size as u64);
    push_u64_le(&mut out, s.image_len as u64);
    proof {
        assert(out@ =~= enc_store_state(s.version, s.chunk_size as u64, s.image_len as u64));
    }
    out
}

/// Decodes a state table; the exact conditions for each outcome are those
/// of `sp_store_state`.
pub fn decode_store_state(buf: &Vec<u8>) -> (r: Result<(u64, u64, u64), VmmError>)
    ensures
        r == sp_store_state(buf@),
{
    let mut pos: usize = 0;
    let version = read_u64_le(buf, &mut pos)?;
    let chunk_size = read_u64_le(buf, &mut pos)?;
    let image_len = read_u64_le(buf, &mut pos)?;
    if pos != buf.len() {
        return Err(VmmError::MalformedInput);
    }
    Ok((version, chunk_size, image_len))
}

/// The layout rows, first row first: each row an offset word then an
/// identifier word.
pub open spec fn layout_rows_bytes(rows: Seq<LayoutEntry>) -> Seq<u8>
    decreases rows.len(),
{
    if rows.len() == 0 {
        Seq::<u8>::empty()
    } else {
        u64_le(rows.first().offset) + u64_le(rows.first().hash)
            + layout_rows_bytes(rows.drop_first())
    }
}

/// Appending a row appends its sixteen bytes.
pub proof fn lemma_layout_rows_push(rows: Seq<LayoutEntry>, e: LayoutEntry)
    ensures
        layout_rows_bytes(rows.push(e))
            == layout_rows_bytes(rows) + u64_le(e.offset) + u64_le(e.hash),
    decreases rows.len(),
{
    if rows.len() == 0 {
        let t = rows.push(e);
        assert(t.first() == e);
        assert(t.drop_first() =~= Seq::<LayoutEntry>::empty());
        assert(Seq::<LayoutEntry>::empty().len() == 0);
        assert(layout_rows_bytes(t.drop_first()) == Seq::<u8>::empty());
        assert(layout_rows_bytes(t)
            == u64_le(e.offset) + u64_le(e.hash) + layout_rows_bytes(t.drop_first()));
        assert(layout_rows_bytes(t)
            =~= layout_rows_bytes(rows) + u64_le(e.offset) + u64_le(e.hash));
    } else {
        assert(rows.push(e).first() == rows.first());
        assert(rows.push(e).drop_first() =~= rows.drop_first().push(e));
        lemma_layout_rows_push(rows.drop_first(), e);
        assert(layout_rows_bytes(rows.push(e))
            =~= layout_rows_bytes(rows) + u64_le(e.offset) + u64_le(e.hash));
    }
}

/// The layout table: the row count, then the rows.
pub open spec fn enc_layout(rows: Seq<LayoutEntry>) -> Seq<u8> {
    u64_le(rows.len() as u64) + layout_rows_bytes(rows)
}

/// Parse `n` layout rows at `pos`.
pub open spec fn sp_layout_rows(b: Seq<u8>, pos: int, n: nat)
    -> Result<(Seq<LayoutEntry>, int), VmmError>
    decreases n,
{
    if n == 0 {
        Ok((Seq::<LayoutEntry>::empty(), pos))
    } else {
        match sp_u64(b, pos) {
            Ok((offset, p1)) => match sp_u64(b, p1) {
                Ok((hash, p2)) => match sp_layout_rows(b, p2, (n - 1) as nat) {
                    Ok((rest, p3)) => Ok((seq![LayoutEntry { offset, hash }] + rest, p3)),
                    Err(e) => Err(e),
                },
                Err(e) => Err(e),
            },
            Err(e) => Err(e),
        }
    }
}

/// Parse a whole buffer as a layout table.
pub open spec fn sp_layout(b: Seq<u8>) -> Result<Seq<LayoutEntry>, VmmError> {
    match sp_u64(b, 0) {
        Ok((n, p1)) => {
            if n > usize::MAX as u64 {
                Err(VmmError::MalformedInput)
            } else {
                match sp_layout_rows(b, p1, n as nat) {
                    Ok((rows, p2)) => {
                        if p2 != b.len() {
                            Err(VmmError::MalformedInput)
                        } else {
                            Ok(rows)
                        }
                    },
                    Err(e) => Err(e),
                }
            }
        },
        Err(e) => Err(e),
    }
}

/// Encodes the layout table of a store.
pub fn encode_layout(s: &ChunkStore) -> (r: Vec<u8>)
    ensures
        r@ == enc_layout(s.layout@),
{
    let mut out: Vec<u8> = Vec::new();
    push_u64_le(&mut out, s.layout.len() as u64);
    let mut i: usize = 0;
    while i < s.layout.len()
        invariant
            i <= s.layout@.len(),
            out@ == u64_le(s.layout@.len() as u64) + layout_rows_bytes(s.layout@.take(i as int)),
        decreases s.layout@.len() - i,
    {
        push_u64_le(&mut out, s.layout[i].offset);
        push_u64_le(&mut out, s.layout[i].hash);
        proof {
            assert(s.layout@.take(i + 1) =~= s.layout@.take(i as int).push(s.layout@[i as int]));
            lemma_layout_rows_push(s.layout@.take(i as int), s.layout@[i as int]);
            assert(out@ =~= u64_le(s.layout@.len() as u64)
                + layout_rows_bytes(s.layout@.take(i + 1)));
        }
        i = i + 1;
    }
    proof {
        assert(s.layout@.take(s.layout@.len() as int) =~= s.layout@);
    }
    out
}

/// Parsing `rem` rows after having already collected `acc`.
pub open spec fn sp_layout_cont(b: Seq<u8>, pos: int, rem: nat, acc: Seq<LayoutEntry>)
    -> Result<(Seq<LayoutEntry>, int), VmmError>
{
    match sp_layout_rows(b, pos, rem) {
        Ok((rest, p)) => Ok((acc + rest, p)),
        Err(e) => Err(e),
    }
}

/// One row of layout parsing folds into the collection.
proof fn lemma_layout_cont_step(b: Seq<u8>, pos: int, rem: nat, acc: Seq<LayoutEntry>)
    requires
        rem > 0,
    ensures
        sp_layout_cont(b, pos, rem, acc) == match sp_u64(b, pos) {
            Ok((offset, p1)) => match sp_u64(b, p1) {
                Ok((hash, p2)) => sp_layout_cont(b, p2, (rem - 1) as nat,
                    acc.push(LayoutEntry { offset, hash })),
                Err(e) => Err(e),
            },
            Err(e) => Err(e),
        },
{
    match sp_u64(b, pos) {
        Ok((offset, p1)) => match sp_u64(b, p1) {
            Ok((hash, p2)) => {
                match sp_layout_rows(b, p2, (rem - 1) as nat) {
                    Ok((rest, _)) => {
                        assert(acc + (seq![LayoutEntry { offset, hash }] + rest)
                            =~= acc.push(LayoutEntry { offset, hash }) + rest);
                    },
                    Err(_) => {},
                }
            },
            Err(_) => {},
        },
        Err(_) => {},
    }
}

/// Decodes a layout table; the exact conditions for each outcome are
/// those of `sp_layout`.
#[verifier::loop_isolation(false)]
pub fn decode_layout(buf: &Vec<u8>) -> (r: Result<Vec<LayoutEntry>, VmmError>)
    ensures
        match sp_layout(buf@) {
            Ok(rows) => r matches Ok(v) && v@ == rows,
            Err(e) => r matches Err(e2) && e2 == e,
        },
{
    let mut pos: usize = 0;
    let n64 = read_u64_le(buf, &mut pos)?;
    if n64 > usize::MAX as u64 {
        return Err(VmmError::MalformedInput);
    }
    let n = n64 as usize;
    let ghost start = pos as int;
    let ghost whole = sp_layout_rows(buf@, start, n as nat);
    let mut rows: Vec<LayoutEntry> = Vec::new();
    let mut k: usize = 0;
    proof {
        match whole {
            Ok((rest, _)) => {
                assert(Seq::<LayoutEntry>::empty() + rest =~= rest);
            },
            Err(_) => {},
        }
        assert(rows@ =~= Seq::<LayoutEntry>::empty());
    }
    while k < n
        invariant
            k <= n,
            whole == sp_layout_rows(buf@, start, n as nat),
            whole == sp_layout_cont(buf@, pos as int, (n - k) as nat, rows@),
        decreases n - k,
    {
        let ghost pos0 = pos as int;
        let ghost acc0 = rows@;
        proof {
            lemma_layout_cont_step(buf@, pos0, (n - k) as nat, acc0);
        }
        let offset = read_u64_le(buf, &mut pos)?;
        let hash = read_u64_le(buf, &mut pos)?;
        rows.push(LayoutEntry { offset, hash });
        proof {
            assert(rows@ =~= acc0.push(LayoutEntry { offset, hash }));
        }
        k = k + 1;
    }
    if pos != buf.len() {
        return Err(VmmError::MalformedInput);
    }
    proof {
        assert(rows@ + Seq::<LayoutEntry>::empty() =~= rows@);
    }
    Ok(rows)
}

/// The payload entries, first entry first: each an identifier word, then
/// the length-prefixed chunk bytes.
pub open spec fn payload_entries_bytes(p: Seq<PayloadEntry>) -> Seq<u8>
    decreases p.len(),
{
    if p.len() == 0 {
        Seq::<u8>::empty()
    } else {
        u64_le(p.first().hash) + enc_bytes(p.first().bytes@)
            + payload_entries_bytes(p.drop_first())
    }
}

/// Appending an entry appends its bytes.
pub proof fn lemma_payload_entries_push(p: Seq<PayloadEntry>, e: PayloadEntry)
    ensures
        payload_entries_bytes(p.push(e))
            == payload_entries_bytes(p) + u64_le(e.hash) + enc_bytes(e.bytes@),
    decreases p.len(),
{
    if p.len() == 0 {
        let t = p.push(e);
        assert(t.first() == e);
        assert(t.drop_first() =~= Seq::<PayloadEntry>::empty());
        assert(Seq::<PayloadEntry>::empty().len() == 0);
        assert(payload_entries_bytes(t.drop_first()) == Seq::<u8>::empty());
        assert(payload_entries_bytes(t)
            == u64_le(e.hash) + enc_bytes(e.bytes@) + payload_entries_bytes(t.drop_first()));
        assert(payload_entries_bytes(t)
            =~= payload_entries_bytes(p) + u64_le(e.hash) + enc_bytes(e.bytes@));
    } else {
        assert(p.push(e).first() == p.first());
        assert(p.push(e).drop_first() =~= p.drop_first().push(e));
        lemma_payload_entries_push(p.drop_first(), e);
        assert(payload_entries_bytes(p.push(e))
            =~= payload_entries_bytes(p) + u64_le(e.hash) + enc_bytes(e.bytes@));
    }
}

/// The payload table: the entry count, then the entries.
pub open spec fn enc_payload(p: Seq<PayloadEntry>) -> Seq<u8> {
    u64_le(p.len() as u64) + payload_entries_bytes(p)
}

/// Parse `n` payload entries at `pos`.
pub open spec fn sp_payload_entries(b: Seq<u8>, pos: int, n: nat)
    -> Result<(Seq<(u64, Seq<u8>)>, int), VmmError>
    decreases n,
{
    if n == 0 {
        Ok((Seq::<(u64, Seq<u8>)>::empty(), pos))
    } else {
        match sp_u64(b, pos) {
            Ok((hash, p1)) => match sp_bytes(b, p1) {
                Ok((bytes, p2)) => match sp_payload_entries(b, p2, (n - 1) as nat) {
                    Ok((rest, p3)) => Ok((seq![(hash, bytes)] + rest, p3)),
                    Err(e) => Err(e),
                },
                Err(e) => Err(e),
            },
            Err(e) => Err(e),
        }
    }
}

/// Parse a whole buffer as a payload table.
pub open spec fn sp_payload(b: Seq<u8>) -> Result<Seq<(u64, Seq<u8>)>, VmmError> {
    match sp_u64(b, 0) {
        Ok((n, p1)) => {
            if n > usize::MAX as u64 {
                Err(VmmError::MalformedInput)
            } else {
                match sp_payload_entries(b, p1, n as nat) {
                    Ok((entries, p2)) => {
                        if p2 != b.len() {
                            Err(VmmError::MalformedInput)
                        } else {
                            Ok(entries)
                        }
                    },
                    Err(e) => Err(e),
                }
            }
        },
        Err(e) => Err(e),
    }
}

/// The entries of a payload as identifier/bytes pairs.
pub open spec fn payload_pairs(p: Seq<PayloadEntry>) -> Seq<(u64, Seq<u8>)> {
    p.map_values(|e: PayloadEntry| (e.hash, e.bytes@))
}

/// Encodes the payload table of a store.
pub fn encode_payload(s: &ChunkStore) -> (r: Vec<u8>)
    ensures
        r@ == enc_payload(s.payload@),
{
    let mut out: Vec<u8> = Vec::new();
    push_u64_le(&mut out, s.payload.len() as u64);
    let mut i: usize = 0;
    while i < s.payload.len()
        invariant
            i <= s.payload@.len(),
            out@ == u64_le(s.payload@.len() as u64)
                + payload_entries_bytes(s.payload@.take(i as int)),
        decreases s.payload@.len() - i,
    {
        push_u64_le(&mut out, s.payload[i].hash);
        push_byte_vec(&mut out, &s.payload[i].bytes);
        proof {
            assert(s.payload@.take(i + 1)
                =~= s.payload@.take(i as int).push(s.payload@[i as int]));
            lemma_payload_entries_push(s.payload@.take(i as int), s.payload@[i as int]);
            assert(out@ =~= u64_le(s.payload@.len() as u64)
                + payload_entries_bytes(s.payload@.take(i + 1)));
        }
        i = i + 1;
    }
    proof {
        assert(s.payload@.take(s.payload@.len() as int) =~= s.payload@);
    }
    out
}

/// Parsing `rem` entries after having already collected `acc`.
pub open spec fn sp_payload_cont(b: Seq<u8>, pos: int, rem: nat, acc: Seq<(u64, Seq<u8>)>)
    -> Result<(Seq<(u64, Seq<u8>)>, int), VmmError>
{
    match sp_payload_entries(b, pos, rem) {
        Ok((rest, p)) => Ok((acc + rest, p)),
        Err(e) => Err(e),
    }
}

/// One entry of payload parsing folds into the collection.
proof fn lemma_payload_cont_step(b: Seq<u8>, pos: int, rem: nat, acc: Seq<(u64, Seq<u8>)>)
    requires
        rem > 0,
    ensures
        sp_payload_cont(b, pos, rem, acc) == match sp_u64(b, pos) {
            Ok((hash, p1)) => match sp_bytes(b, p1) {
                Ok((bytes, p2)) => sp_payload_cont(b, p2, (rem - 1) as nat,
                    acc.push((hash, bytes))),
                Err(e) => Err(e),
            },
            Err(e) => Err(e),
        },
{
    match sp_u64(b, pos) {
        Ok((hash, p1)) => match sp_bytes(b, p1) {
            Ok((bytes, p2)) => {
                match sp_payload_entries(b, p2, (rem - 1) as nat) {
                    Ok((rest, _)) => {
                        assert(acc + (seq![(hash, bytes)] + rest)
                            =~= acc.push((hash, bytes)) + rest);
                    },
                    Err(_) => {},
                }
            },
            Err(_) => {},
        },
        Err(_) => {},
    }
}

/// Decodes a payload table; the exact conditions for each outcome are
/// those of `sp_payload`.
#[verifier::loop_isolation(false)]
pub fn decode_payload(buf: &Vec<u8>) -> (r: Result<Vec<PayloadEntry>, VmmError>)
    ensures
        match sp_payload(buf@) {
            Ok(entries) => r matches Ok(v) && payload_pairs(v@) == entries,
            Err(e) => r matches Err(e2) && e2 == e,
        },
{
    let mut pos: usize = 0;
    let n64 = read_u64_le(buf, &mut pos)?;
    if n64 > usize::MAX as u64 {
        return Err(VmmError::MalformedInput);
    }
    let n = n64 as usize;
    let ghost start = pos as int;
    let ghost whole = sp_payload_entries(buf@, start, n as nat);
    let mut entries: Vec<PayloadEntry> = Vec::new();
    let mut k: usize = 0;
    proof {
        match whole {
            Ok((rest, _)) => {
                assert(Seq::<(u64, Seq<u8>)>::empty() + rest =~= rest);
            },
            Err(_) => {},
        }
        assert(payload_pairs(entries@) =~= Seq::<(u64, Seq<u8>)>::empty());
    }
    while k < n
        invariant
            k <= n,
            whole == sp_payload_entries(buf@, start, n as nat),
            whole == sp_payload_cont(buf@, pos as int, (n - k) as nat, payload_pairs(entries@)),
        decreases n - k,
    {
        let ghost pos0 = pos as int;
        let ghost acc0 = payload_pairs(entries@);
        proof {
            lemma_payload_cont_step(buf@, pos0, (n - k) as nat, acc0);
        }
        let hash = read_u64_le(buf, &mut pos)?;
        let bytes = read_byte_vec(buf, &mut pos)?;
        entries.push(PayloadEntry { hash, bytes });
        proof {
            assert(payload_pairs(entries@) =~= acc0.push((hash, bytes@)));
        }
        k = k + 1;
    }
    if pos != buf.len() {
        return Err(VmmError::MalformedInput);
    }
    proof {
        assert(payload_pairs(entries@) + Seq::<(u64, Seq<u8>)>::empty()
            =~= payload_pairs(entries@));
    }
    Ok(entries)
}

/// Checks that no two entries share an identifier.
pub fn check_keys_unique(payload: &Vec<PayloadEntry>) -> (r: bool)
    ensures
        r == keys_unique(payload@),
{
    let mut i: usize = 0;
    while i < payload.len()
        invariant
            i <= payload@.len(),
            forall|a: int, b: int| 0 <= a < b < payload@.len() && b < i
                ==> (#[trigger] payload@[a]).hash != (#[trigger] payload@[b]).hash,
        decreases payload@.len() - i,
    {
        let mut j: usize = 0;
        while j < i
            invariant
                j <= i < payload@.len(),
                forall|a: int| 0 <= a < j
                    ==> (#[trigger] payload@[a]).hash != payload@[i as int].hash,
            decreases i - j,
        {
            if payload[j].hash == payload[i].hash {
                return false;
            }
            j = j + 1;
        }
        i = i + 1;
    }
    true
}

/// Rebuilds a store from its three decoded tables, admitting exactly the
/// well-formed ones: chunk size positive, payload keys unique, every
/// payload entry one chunk long, offsets in chunk order, every layout
/// identifier present, and the image length within the layout's reach.
#[verifier::loop_isolation(false)]
pub fn assemble_store(version: u64, chunk_size: u64, image_len: u64,
    layout: Vec<LayoutEntry>, payload: Vec<PayloadEntry>)
    -> (r: Result<ChunkStore, VmmError>)
    ensures
        match r {
            Ok(s) => {
                &&& s.wf()
                &&& s.version == version
                &&& s.chunk_size == chunk_size
                &&& s.image_len == image_len
                &&& s.layout@ == layout@
                &&& s.payload@ == payload@
            },
            Err(e) => e == VmmError::MalformedInput,
        },
        r is Ok <==> (chunk_size >= 1 && chunk_size <= usize::MAX
            && image_len <= usize::MAX
            && (ChunkStore {
                chunk_size: chunk_size as usize,
                image_len: image_len as usize,
                version,
                layout,
                payload,
            }).wf()),
{
    if chunk_size < 1 || chunk_size > usize::MAX as u64 || image_len > usize::MAX as u64 {
        return Err(VmmError::MalformedInput);
    }
    let k = chunk_size as usize;
    let m = image_len as usize;
    if !check_keys_unique(&payload) {
        return Err(VmmError::MalformedInput);
    }
    let mut i: usize = 0;
    while i < payload.len()
        invariant
            i <= payload@.len(),
            forall|a: int| 0 <= a < i ==> (#[trigger] payload@[a]).bytes@.len() == k,
        decreases payload@.len() - i,
    {
        if payload[i].bytes.len() != k {
            return Err(VmmError::MalformedInput);
        }
        i = i + 1;
    }
    let mut expected: u64 = 0;
    let mut j: usize = 0;
    proof {
        assert(0int * k == 0) by (nonlinear_arith);
    }
    while j < layout.len()
        invariant
            j <= layout@.len(),
            k == chunk_size,
            1 <= k <= usize::MAX,
            j < layout@.len() ==> expected == j * k,
            forall|a: int| 0 <= a < j ==> (#[trigger] layout@[a]).offset == a * k,
            forall|a: int| 0 <= a < j ==> has_hash(payload@, (#[trigger] layout@[a]).hash),
        decreases layout@.len() - j,
    {
        if layout[j].offset != expected {
            return Err(VmmError::MalformedInput);
        }
        let mut found = false;
        let mut w: usize = 0;
        while w < payload.len()
            invariant
                w <= payload@.len(),
                found ==> has_hash(payload@, layout@[j as int].hash),
                !found ==> forall|a: int| 0 <= a < w
                    ==> (#[trigger] payload@[a]).hash != layout@[j as int].hash,
                j < layout@.len(),
            decreases payload@.len() - w,
        {
            if payload[w].hash == layout[j].hash {
                found = true;
                break;
            }
            w = w + 1;
        }
        if !found {
            return Err(VmmError::MalformedInput);
        }
        let ghost j0 = j as int;
        j = j + 1;
        if j < layout.len() {
            proof {
                assert(j * k == expected + k) by (nonlinear_arith)
                    requires expected == j0 * k, j == j0 + 1,
                ;
            }
            if expected > u64::MAX - chunk_size {
                // The next row's offset would have to be `(j0 + 1) * k`,
                // which no stored offset word can equal.
                proof {
                    let cand = ChunkStore {
                        chunk_size: k,
                        image_len: m,
                        version,
                        layout: layout,
                        payload: payload,
                    };
                    assert(!cand.wf()) by {
                        if cand.wf() {
                            assert(cand.layout@[j as int].offset == (j as int) * k);
                        }
                    }
                }
                return Err(VmmError::MalformedInput);
            }
            expected = expected + chunk_size;
        }
    }
    let store = ChunkStore {
        chunk_size: k,
        image_len: m,
        version,
        layout,
        payload,
    };
    proof {
        let ll = store.layout@.len() as int;
        let kk = k as int;
        assert(ll * kk <= u128::MAX) by (nonlinear_arith)
            requires 0 <= ll <= u64::MAX, 0 <= kk <= u64::MAX,
        ;
    }
    if (store.layout.len() as u128) * (k as u128) < m as u128 {
        proof {
            assert(store.layout@.len() * store.chunk_size < store.image_len);
        }
        return Err(VmmError::MalformedInput);
    }
    if store.layout.len() as u128 * (k as u128) >= m as u128 + k as u128 {
        proof {
            assert(!(store.layout@.len() * store.chunk_size < store.image_len
                + store.chunk_size));
        }
        return Err(VmmError::MalformedInput);
    }
    proof {
        assert(store.wf());
    }
    Ok(store)
}

} // verus!

