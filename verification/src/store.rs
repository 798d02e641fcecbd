//! The content-addressed chunk store.
//!
//! A guest RAM image is split into fixed-size chunks; each chunk is keyed
//! by a 64-bit identifier and stored once. The store keeps two tables: the
//! payload, a write-once map from identifier to chunk bytes with unique
//! keys, and the layout, the ordered list of (offset, identifier) pairs
//! that covers the image. Because identifiers may collide, an insert
//! compares bytes on a key match and refuses to overwrite different bytes:
//! deduplication never substitutes a wrong chunk.

use vstd::prelude::*;
use crate::errors::VmmError;
use crate::hash::{chunk_hash, fnv1a};

verus! {

/// One stored chunk: its identifier and its bytes.
pub struct PayloadEntry {
    pub hash: u64,
    pub bytes: Vec<u8>,
}

/// One layout row: the image offset a chunk belongs at, and the chunk's
/// identifier.
#[derive(Clone, Copy, PartialEq, Eq, Structural, Debug)]
pub struct LayoutEntry {
    pub offset: u64,
    pub hash: u64,
}

/// The deduplicating store for one guest RAM image.
pub struct ChunkStore {
    /// Chunk size in bytes; fixed for the life of the store.
    pub chunk_size: usize,
    /// Byte length of the most recently saved image.
    pub image_len: usize,
    /// Format version of the store.
    pub version: u64,
    /// Ordered (offset, identifier) rows covering the image.
    pub layout: Vec<LayoutEntry>,
    /// Identifier-keyed chunk bytes; keys unique, entries never rewritten.
    pub payload: Vec<PayloadEntry>,
}

/// `n` zero bytes.
pub open spec fn zeros(n: nat) -> Seq<u8> {
    Seq::new(n, |i: int| 0u8)
}

/// The first index holding identifier `h`, or -1.
pub open spec fn find_hash(p: Seq<PayloadEntry>, h: u64) -> int
    decreases p.len(),
{
    if p.len() == 0 {
        -1
    } else if p.first().hash == h {
        0
    } else {
        let rest = find_hash(p.drop_first(), h);
        if rest == -1 { -1 } else { rest + 1 }
    }
}

/// Whether some entry holds identifier `h`.
pub open spec fn has_hash(p: Seq<PayloadEntry>, h: u64) -> bool {
    exists|i: int| 0 <= i < p.len() && p[i].hash == h
}

/// The bytes stored under identifier `h`.
pub open spec fn payload_at(p: Seq<PayloadEntry>, h: u64) -> Seq<u8> {
    p[find_hash(p, h)].bytes@
}

/// No two entries share an identifier.
pub open spec fn keys_unique(p: Seq<PayloadEntry>) -> bool {
    forall|i: int, j: int| 0 <= i < j < p.len()
        ==> (#[trigger] p[i]).hash != (#[trigger] p[j]).hash
}

/// `find_hash` finds exactly the entries that are there.
pub proof fn lemma_find_hash(p: Seq<PayloadEntry>, h: u64)
    ensures
        has_hash(p, h) <==> (0 <= find_hash(p, h) < p.len() && p[find_hash(p, h)].hash == h),
        !has_hash(p, h) <==> find_hash(p, h) == -1,
    decreases p.len(),
{
    if p.len() > 0 {
        lemma_find_hash(p.drop_first(), h);
        if p.first().hash == h {
        } else {
            assert forall|i: int| 0 <= i < p.len() && p[i].hash == h implies
                0 <= i - 1 < p.drop_first().len() && p.drop_first()[i - 1].hash == h by {
                assert(p[0].hash != h);
            }
        }
    }
}

/// Appending an entry with a fresh identifier leaves old lookups alone.
pub proof fn lemma_find_hash_push(p: Seq<PayloadEntry>, e: PayloadEntry, h: u64)
    ensures
        h != e.hash ==> find_hash(p.push(e), h) == find_hash(p, h),
        !has_hash(p, e.hash) ==> find_hash(p.push(e), e.hash) == p.len(),
    decreases p.len(),
{
    lemma_find_hash(p, h);
    lemma_find_hash(p.push(e), h);
    lemma_find_hash(p, e.hash);
    lemma_find_hash(p.push(e), e.hash);
    if p.len() == 0 {
        assert(p.push(e).first() == e);
        assert(p.push(e).drop_first() =~= Seq::<PayloadEntry>::empty());
    } else {
        assert(p.push(e).first() == p.first());
        assert(p.push(e).drop_first() =~= p.drop_first().push(e));
        lemma_find_hash_push(p.drop_first(), e, h);
        if !has_hash(p, e.hash) {
            assert(!has_hash(p.drop_first(), e.hash)) by {
                assert forall|i: int| 0 <= i < p.drop_first().len()
                    implies (#[trigger] p.drop_first()[i]).hash == p[i + 1].hash by {}
            }
        }
    }
}

impl ChunkStore {
    /// The store's structural invariant.
    pub open spec fn wf(self) -> bool {
        &&& self.chunk_size >= 1
        &&& keys_unique(self.payload@)
        &&& forall|i: int| 0 <= i < self.payload@.len()
            ==> (#[trigger] self.payload@[i]).bytes@.len() == self.chunk_size
        &&& forall|i: int| 0 <= i < self.layout@.len()
            ==> (#[trigger] self.layout@[i]).offset == i * self.chunk_size
        &&& forall|i: int| 0 <= i < self.layout@.len()
            ==> has_hash(self.payload@, (#[trigger] self.layout@[i]).hash)
        &&& self.image_len <= self.layout@.len() * self.chunk_size
        &&& self.layout@.len() * self.chunk_size < self.image_len + self.chunk_size
    }

    /// The bytes the layout's `i`-th row points at.
    pub open spec fn stored_chunk(self, i: int) -> Seq<u8> {
        payload_at(self.payload@, self.layout@[i].hash)
    }

    /// The first `n` stored chunks, concatenated.
    pub open spec fn stored_prefix(self, n: int) -> Seq<u8>
        decreases n,
    {
        if n <= 0 {
            Seq::<u8>::empty()
        } else {
            self.stored_prefix(n - 1) + self.stored_chunk(n - 1)
        }
    }

    /// The image the store holds: the layout's chunks in order, cut to the
    /// image length.
    pub open spec fn stored_image(self) -> Seq<u8> {
        self.stored_prefix(self.layout@.len() as int).take(self.image_len as int)
    }

    /// An empty store for chunks of `chunk_size` bytes.
    pub fn new(chunk_size: usize, version: u64) -> (r: ChunkStore)
        requires
            chunk_size >= 1,
        ensures
            r.wf(),
            r.chunk_size == chunk_size,
            r.version == version,
            r.image_len == 0,
            r.layout@.len() == 0,
            r.payload@.len() == 0,
    {
        ChunkStore {
            chunk_size,
            image_len: 0,
            version,
            layout: Vec::new(),
            payload: Vec::new(),
        }
    }

    /// The first payload index holding `h`, if any.
    fn find_payload(&self, h: u64) -> (r: Option<usize>)
        ensures
            match r {
                Some(i) => i == find_hash(self.payload@, h) && i < self.payload@.len()
                    && self.payload@[i as int].hash == h,
                None => !has_hash(self.payload@, h),
            },
    {
        let mut i: usize = 0;
        while i < self.payload.len()
            invariant
                i <= self.payload@.len(),
                forall|j: int| 0 <= j < i ==> (#[trigger] self.payload@[j]).hash != h,
            decreases self.payload@.len() - i,
        {
            if self.payload[i].hash == h {
                proof {
                    lemma_find_hash(self.payload@, h);
                    lemma_find_first(self.payload@, h, i as int);
                }
                return Some(i);
            }
            i = i + 1;
        }
        proof {
            lemma_find_hash(self.payload@, h);
        }
        None
    }

    /// Adds chunk bytes under identifier `h`, deduplicating on a byte-equal
    /// match and refusing a colliding one.
    ///
    /// Returns whether the chunk was newly added. The payload is append-only:
    /// existing entries are never rewritten.
    pub fn insert_chunk(&mut self, h: u64, chunk: Vec<u8>) -> (r: Result<bool, VmmError>)
        requires
            old(self).wf(),
            chunk@.len() == old(self).chunk_size,
        ensures
            final(self).wf(),
            final(self).chunk_size == old(self).chunk_size,
            final(self).version == old(self).version,
            final(self).image_len == old(self).image_len,
            final(self).layout@ == old(self).layout@,
            match r {
                Ok(added) => {
                    &&& has_hash(final(self).payload@, h)
                    &&& payload_at(final(self).payload@, h) == chunk@
                    &&& (added <==> !has_hash(old(self).payload@, h))
                    &&& (added ==> final(self).payload@
                        == old(self).payload@.push(PayloadEntry { hash: h, bytes: chunk }))
                    &&& (!added ==> final(self).payload@ == old(self).payload@)
                },
                Err(e) => {
                    &&& e == VmmError::HashCollision
                    &&& has_hash(old(self).payload@, h)
                    &&& payload_at(old(self).payload@, h) != chunk@
                    &&& final(self).payload@ == old(self).payload@
                },
            },
            // Ok or not is decided by the bytes already there.
            r is Err <==> has_hash(old(self).payload@, h)
                && payload_at(old(self).payload@, h) != chunk@,
    {
        match self.find_payload(h) {
            Some(i) => {
                if bytes_equal(&self.payload[i].bytes, &chunk) {
                    Ok(false)
                } else {
                    Err(VmmError::HashCollision)
                }
            },
            None => {
                proof {
                    lemma_find_hash_push(self.payload@, PayloadEntry { hash: h, bytes: chunk }, h);
                    lemma_find_hash(self.payload@.push(PayloadEntry { hash: h, bytes: chunk }), h);
                }
                let ghost p0 = self.payload@;
                self.payload.push(PayloadEntry { hash: h, bytes: chunk });
                proof {
                    let p1 = self.payload@;
                    assert(keys_unique(p1)) by {
                        assert forall|i: int, j: int| 0 <= i < j < p1.len()
                            implies (#[trigger] p1[i]).hash != (#[trigger] p1[j]).hash by {
                            if j == p1.len() - 1 {
                                assert(p1[i] == p0[i]);
                            }
                        }
                    }
                    assert forall|i: int| 0 <= i < final(self).layout@.len()
                        implies has_hash(p1, (#[trigger] final(self).layout@[i]).hash) by {
                        let hh = final(self).layout@[i].hash;
                        assert(has_hash(p0, hh));
                        let w = choose|w: int| 0 <= w < p0.len() && p0[w].hash == hh;
                        assert(p1[w].hash == hh);
                    }
                }
                Ok(true)
            },
        }
    }
}

/// How many chunks of size `k` cover `len` bytes, the last one padded.
pub open spec fn num_chunks(len: nat, k: nat) -> int
    recommends k >= 1,
{
    if len as int % (k as int) == 0 {
        len as int / (k as int)
    } else {
        len as int / (k as int) + 1
    }
}

/// The `i`-th chunk of an image: `k` bytes from offset `i * k`, the tail
/// zero-padded.
pub open spec fn chunk_of(image: Seq<u8>, k: nat, i: int) -> Seq<u8>
    recommends k >= 1, 0 <= i < num_chunks(image.len(), k),
{
    let lo = i * k;
    let hi = if (i + 1) * k <= image.len() { (i + 1) * k } else { image.len() as int };
    image.subrange(lo, hi) + zeros((k - (hi - lo)) as nat)
}

/// The layout a save of `image` produces: a function of the image and the
/// chunk size alone.
pub open spec fn layout_of(image: Seq<u8>, k: nat) -> Seq<LayoutEntry> {
    Seq::new(num_chunks(image.len(), k) as nat, |i: int| LayoutEntry {
        offset: (i * k) as u64,
        hash: fnv1a(chunk_of(image, k, i)),
    })
}

/// Chunk `i` of the image collides: its identifier is already bound — by
/// the store as found, or by an earlier chunk of the same image — to
/// different bytes.
pub open spec fn chunk_collides_at(p0: Seq<PayloadEntry>, image: Seq<u8>, k: nat, i: int) -> bool {
    let c = chunk_of(image, k, i);
    let h = fnv1a(c);
    ||| (has_hash(p0, h) && payload_at(p0, h) != c)
    ||| (exists|j: int| 0 <= j < i && fnv1a(#[trigger] chunk_of(image, k, j)) == h
            && chunk_of(image, k, j) != c)
}

/// Some chunk of the image collides.
pub open spec fn save_collides(p0: Seq<PayloadEntry>, image: Seq<u8>, k: nat) -> bool {
    exists|i: int| 0 <= i < num_chunks(image.len(), k) && chunk_collides_at(p0, image, k, i)
}

/// The chunks of an image, concatenated in order.
pub open spec fn chunks_concat(image: Seq<u8>, k: nat, n: int) -> Seq<u8>
    decreases n,
{
    if n <= 0 {
        Seq::<u8>::empty()
    } else {
        chunks_concat(image, k, n - 1) + chunk_of(image, k, n - 1)
    }
}

/// Every chunk is `k` bytes long.
pub proof fn lemma_chunk_of_len(image: Seq<u8>, k: nat, i: int)
    requires k >= 1, 0 <= i < num_chunks(image.len(), k),
    ensures chunk_of(image, k, i).len() == k,
{
    let lo = i * k;
    let hi = if (i + 1) * k <= image.len() { (i + 1) * k } else { image.len() as int };
    assert(0 <= lo && lo <= hi && hi <= image.len() && hi - lo <= k) by (nonlinear_arith)
        requires k >= 1, 0 <= i < num_chunks(image.len(), k),
            lo == i * k,
            hi == if (i + 1) * k <= image.len() { (i + 1) * k } else { image.len() as int },
            num_chunks(image.len(), k) == if image.len() as int % (k as int) == 0 {
                image.len() as int / (k as int)
            } else {
                image.len() as int / (k as int) + 1
            },
    {
        vstd::arithmetic::div_mod::lemma_fundamental_div_mod(image.len() as int, k as int);
    }
}

/// The concatenation of `n` chunks is `n * k` bytes long.
pub proof fn lemma_chunks_concat_len(image: Seq<u8>, k: nat, n: int)
    requires k >= 1, 0 <= n <= num_chunks(image.len(), k),
    ensures chunks_concat(image, k, n).len() == n * k,
    decreases n,
{
    if n > 0 {
        lemma_chunks_concat_len(image, k, n - 1);
        lemma_chunk_of_len(image, k, n - 1);
        assert((n - 1) * k + k == n * k) by (nonlinear_arith);
    } else {
        assert(n * k == 0) by (nonlinear_arith)
            requires n == 0,
        ;
    }
}

/// Within the image, the concatenated chunks give the image's bytes; past
/// it, the padding's zeros.
pub proof fn lemma_chunks_concat_index(image: Seq<u8>, k: nat, n: int, p: int)
    requires
        k >= 1,
        0 <= n <= num_chunks(image.len(), k),
        0 <= p < n * k,
    ensures
        chunks_concat(image, k, n)[p] == if p < image.len() { image[p] } else { 0u8 },
    decreases n,
{
    assert(n >= 1) by (nonlinear_arith)
        requires k >= 1, 0 <= p < n * k,
    ;
    lemma_chunks_concat_len(image, k, n - 1);
    lemma_chunk_of_len(image, k, n - 1);
    if p < (n - 1) * k {
        lemma_chunks_concat_index(image, k, n - 1, p);
    } else {
        let i = n - 1;
        let lo = i * k;
        let hi = if (i + 1) * k <= image.len() { (i + 1) * k } else { image.len() as int };
        let c = chunk_of(image, k, i);
        assert(lo + k == n * k && lo == (n - 1) * k && i + 1 == n) by (nonlinear_arith)
            requires lo == (n - 1) * k, i == n - 1,
        ;
        assert(chunks_concat(image, k, n)[p] == c[p - lo]);
        if p < hi {
            assert(c[p - lo] == image.subrange(lo, hi)[p - lo]);
            assert(p < image.len()) by (nonlinear_arith)
                requires p < hi, hi <= image.len(),
            ;
        } else {
            assert(c[p - lo] == 0u8);
            assert(p >= image.len()) by {
                if hi == (i + 1) * k {
                    assert(p < n * k);
                    assert(n * k == (i + 1) * k);
                    assert(false);
                }
            }
        }
    }
}

/// The concatenated chunks, cut to the image length, give the image back.
///
/// This is the round-trip heart: a store whose chunks are the image's
/// chunks reconstructs the image byte for byte.
pub proof fn lemma_chunks_concat_image(image: Seq<u8>, k: nat)
    requires k >= 1,
    ensures
        chunks_concat(image, k, num_chunks(image.len(), k)).take(image.len() as int) == image,
{
    let n = num_chunks(image.len(), k);
    assert(0 <= n && image.len() <= n * k) by (nonlinear_arith)
        requires k >= 1,
            n == if image.len() as int % (k as int) == 0 {
                image.len() as int / (k as int)
            } else {
                image.len() as int / (k as int) + 1
            },
    {
        vstd::arithmetic::div_mod::lemma_fundamental_div_mod(image.len() as int, k as int);
    }
    lemma_chunks_concat_len(image, k, n);
    assert forall|p: int| 0 <= p < image.len()
        implies chunks_concat(image, k, n).take(image.len() as int)[p] == image[p] by {
        lemma_chunks_concat_index(image, k, n, p);
    }
    assert(chunks_concat(image, k, n).take(image.len() as int) =~= image);
}

/// The chunk count sits between `len / k` and `(len + k - 1) / k`.
pub proof fn lemma_num_chunks_bounds(len: nat, k: nat)
    requires k >= 1,
    ensures
        num_chunks(len, k) >= 0,
        len <= num_chunks(len, k) * k,
        num_chunks(len, k) * k < len + k,
        len == 0 ==> num_chunks(len, k) == 0,
        len > 0 ==> num_chunks(len, k) >= 1,
{
    let x = len as int;
    let kk = k as int;
    vstd::arithmetic::div_mod::lemma_fundamental_div_mod(x, kk);
    vstd::arithmetic::div_mod::lemma_mod_bound(x, kk);
    let d = x / kk;
    let m = x % kk;
    assert(x == kk * d + m);
    if m == 0 {
        assert(num_chunks(len, k) == d);
        assert(d * kk == x && d >= 0 && (x >= 1 ==> d >= 1)) by (nonlinear_arith)
            requires x == kk * d + m, m == 0, kk >= 1, x >= 0,
        ;
    } else {
        assert(num_chunks(len, k) == d + 1);
        assert((d + 1) * kk == x - m + kk && d + 1 >= 1 && x <= (d + 1) * kk
            && (d + 1) * kk < x + kk) by (nonlinear_arith)
            requires x == kk * d + m, 0 < m < kk, kk >= 1, x >= 0,
        ;
    }
}

/// Finding in a longer table agrees with finding in its prefix, wherever
/// the prefix already has the identifier.
pub proof fn lemma_find_hash_prefix(p0: Seq<PayloadEntry>, p: Seq<PayloadEntry>, h: u64)
    requires
        p0.is_prefix_of(p),
        has_hash(p0, h),
    ensures
        has_hash(p, h),
        find_hash(p, h) == find_hash(p0, h),
        payload_at(p, h) == payload_at(p0, h),
{
    lemma_find_hash(p0, h);
    lemma_find_is_first(p0, h);
    let idx = find_hash(p0, h);
    assert(p[idx] == p0[idx]);
    assert forall|j: int| 0 <= j < idx implies (#[trigger] p[j]).hash != h by {
        assert(p[j] == p0[j]);
    }
    lemma_find_first(p, h, idx);
}

/// Entries before the found one never hold the identifier.
pub proof fn lemma_find_is_first(p: Seq<PayloadEntry>, h: u64)
    ensures
        forall|j: int| 0 <= j < find_hash(p, h) ==> (#[trigger] p[j]).hash != h,
    decreases p.len(),
{
    if p.len() > 0 && p.first().hash != h {
        lemma_find_is_first(p.drop_first(), h);
        lemma_find_hash(p, h);
        lemma_find_hash(p.drop_first(), h);
        assert forall|j: int| 0 <= j < find_hash(p, h) implies (#[trigger] p[j]).hash != h by {
            if j > 0 {
                assert(p.drop_first()[j - 1] == p[j]);
            }
        }
    }
}

/// Chunks before `i` all sit in the payload under their identifier.
pub open spec fn chunks_present(p: Seq<PayloadEntry>, image: Seq<u8>, k: nat, i: int) -> bool {
    forall|j: int| 0 <= j < i ==> {
        let hj = fnv1a(#[trigger] chunk_of(image, k, j));
        has_hash(p, hj) && payload_at(p, hj) == chunk_of(image, k, j)
    }
}

/// Entries past the pre-save payload hold chunks of this image before `i`.
pub open spec fn additions_from_chunks(p0: Seq<PayloadEntry>, p: Seq<PayloadEntry>,
    image: Seq<u8>, k: nat, i: int) -> bool
{
    forall|idx: int| p0.len() <= idx < p.len()
        ==> exists|j: int| 0 <= j < i
            && (#[trigger] p[idx]).bytes@ == chunk_of(image, k, j)
            && p[idx].hash == fnv1a(chunk_of(image, k, j))
}

/// No chunk before `i` collides.
pub open spec fn no_collisions_before(p0: Seq<PayloadEntry>, image: Seq<u8>, k: nat,
    i: int) -> bool
{
    forall|j: int| 0 <= j < i ==> !(#[trigger] chunk_collides_at(p0, image, k, j))
}

/// One successful insert keeps all three save invariants.
proof fn lemma_save_step(p0: Seq<PayloadEntry>, pb: Seq<PayloadEntry>, pa: Seq<PayloadEntry>,
    image: Seq<u8>, k: nat, i: int)
    requires
        p0.is_prefix_of(pb),
        chunks_present(pb, image, k, i),
        additions_from_chunks(p0, pb, image, k, i),
        no_collisions_before(p0, image, k, i),
        has_hash(pa, fnv1a(chunk_of(image, k, i))),
        payload_at(pa, fnv1a(chunk_of(image, k, i))) == chunk_of(image, k, i),
        pa == pb || (pb.len() < pa.len() && pa == pb.push(pa.last())
            && pa.last().hash == fnv1a(chunk_of(image, k, i))
            && pa.last().bytes@ == chunk_of(image, k, i)
            && !has_hash(pb, fnv1a(chunk_of(image, k, i)))),
        !(has_hash(pb, fnv1a(chunk_of(image, k, i)))
            && payload_at(pb, fnv1a(chunk_of(image, k, i))) != chunk_of(image, k, i)),
        0 <= i,
    ensures
        chunks_present(pa, image, k, i + 1),
        additions_from_chunks(p0, pa, image, k, i + 1),
        no_collisions_before(p0, image, k, i + 1),
{
    let c = chunk_of(image, k, i);
    let h = fnv1a(c);
    // Earlier chunks stay present: a push, if any, used a fresh identifier.
    assert forall|j2: int| 0 <= j2 < i + 1 implies {
        let hj = fnv1a(#[trigger] chunk_of(image, k, j2));
        has_hash(pa, hj) && payload_at(pa, hj) == chunk_of(image, k, j2)
    } by {
        if j2 < i {
            let hj = fnv1a(chunk_of(image, k, j2));
            if pa != pb {
                lemma_find_hash(pb, hj);
                assert(hj != h);
                lemma_find_hash_push(pb, pa.last(), hj);
                lemma_find_hash(pa, hj);
            }
        }
    }
    // No collision on this chunk either.
    assert(!chunk_collides_at(p0, image, k, i)) by {
        if has_hash(p0, h) {
            lemma_find_hash_prefix(p0, pb, h);
            assert(payload_at(p0, h) == c);
        }
        assert forall|j2: int| 0 <= j2 < i && fnv1a(#[trigger] chunk_of(image, k, j2)) == h
            implies chunk_of(image, k, j2) == c by {
            assert(payload_at(pb, fnv1a(chunk_of(image, k, j2))) == chunk_of(image, k, j2));
            assert(payload_at(pb, h) == c);
        }
    }
    assert forall|j2: int| 0 <= j2 < i + 1
        implies !(#[trigger] chunk_collides_at(p0, image, k, j2)) by {}
    // Every new entry still comes from a chunk of this image.
    assert forall|idx: int| p0.len() <= idx < pa.len()
        implies exists|j2: int| 0 <= j2 < i + 1
            && (#[trigger] pa[idx]).bytes@ == chunk_of(image, k, j2)
            && pa[idx].hash == fnv1a(chunk_of(image, k, j2)) by {
        if idx < pb.len() {
            assert(pa[idx] == pb[idx]);
            let w = choose|w: int| 0 <= w < i
                && (#[trigger] pb[idx]).bytes@ == chunk_of(image, k, w)
                && pb[idx].hash == fnv1a(chunk_of(image, k, w));
            assert(0 <= w < i + 1 && pa[idx].bytes@ == chunk_of(image, k, w)
                && pa[idx].hash == fnv1a(chunk_of(image, k, w)));
        } else {
            assert(pa[idx] == pa.last());
            assert(0 <= i < i + 1 && pa[idx].bytes@ == chunk_of(image, k, i)
                && pa[idx].hash == fnv1a(chunk_of(image, k, i)));
        }
    }
}

/// A refused insert exhibits a collision for this save.
proof fn lemma_save_collision(p0: Seq<PayloadEntry>, pb: Seq<PayloadEntry>, image: Seq<u8>,
    k: nat, i: int)
    requires
        p0.is_prefix_of(pb),
        additions_from_chunks(p0, pb, image, k, i),
        has_hash(pb, fnv1a(chunk_of(image, k, i))),
        payload_at(pb, fnv1a(chunk_of(image, k, i))) != chunk_of(image, k, i),
        0 <= i < num_chunks(image.len(), k),
    ensures
        save_collides(p0, image, k),
{
    let c = chunk_of(image, k, i);
    let h = fnv1a(c);
    lemma_find_hash(pb, h);
    let idx = find_hash(pb, h);
    if idx < p0.len() {
        assert(p0[idx] == pb[idx]);
        assert(has_hash(p0, h));
        lemma_find_hash_prefix(p0, pb, h);
        assert(chunk_collides_at(p0, image, k, i));
    } else {
        let w = choose|w: int| 0 <= w < i
            && (#[trigger] pb[idx]).bytes@ == chunk_of(image, k, w)
            && pb[idx].hash == fnv1a(chunk_of(image, k, w));
        assert(fnv1a(chunk_of(image, k, w)) == h);
        assert(chunk_of(image, k, w) != c);
        assert(chunk_collides_at(p0, image, k, i));
    }
}

impl ChunkStore {
    /// Splits the image into chunks, deduplicates them into the payload,
    /// and rewrites the layout whole.
    ///
    /// The payload is write-once: entries already there stay untouched.
    /// The save aborts with a collision error exactly when some chunk's
    /// identifier is already bound to different bytes; the layout and the
    /// image length then keep their previous, still-consistent value.
    #[verifier::rlimit(100)]
    #[verifier::spinoff_prover]
    pub fn save(&mut self, image: &Vec<u8>) -> (r: Result<(), VmmError>)
        requires
            old(self).wf(),
        ensures
            final(self).wf(),
            final(self).chunk_size == old(self).chunk_size,
            final(self).version == old(self).version,
            old(self).payload@.is_prefix_of(final(self).payload@),
            r is Err <==> save_collides(old(self).payload@, image@, old(self).chunk_size as nat),
            match r {
                Ok(_) => {
                    &&& final(self).image_len == image@.len()
                    &&& final(self).layout@ == layout_of(image@, old(self).chunk_size as nat)
                    &&& final(self).stored_image() == image@
                },
                Err(e) => {
                    &&& e == VmmError::HashCollision
                    &&& final(self).layout@ == old(self).layout@
                    &&& final(self).image_len == old(self).image_len
                },
            },
    {
        let k = self.chunk_size;
        let len = image.len();
        let ghost p0 = self.payload@;
        let ghost kn = k as nat;
        let ghost n = num_chunks(image@.len(), kn);
        proof {
            lemma_num_chunks_bounds(image@.len(), kn);
        }
        let mut new_layout: Vec<LayoutEntry> = Vec::new();
        let mut lo: usize = 0;
        let mut i: usize = 0;
        proof {
            assert(0 * kn == 0) by (nonlinear_arith);
            assert(new_layout@ =~= layout_of(image@, kn).take(0));
        }
        while lo < len
            invariant
                self.wf(),
                self.chunk_size == k,
                k >= 1,
                self.version == old(self).version,
                self.layout@ == old(self).layout@,
                self.image_len == old(self).image_len,
                p0.is_prefix_of(self.payload@),
                p0 == old(self).payload@,
                len == image@.len(),
                kn == k as nat,
                n == num_chunks(image@.len(), kn),
                i <= n,
                0 <= n,
                len <= n * kn,
                n * kn < len + kn,
                k == old(self).chunk_size,
                lo == i * kn || (lo == len && i == n),
                new_layout@ == layout_of(image@, kn).take(i as int),
                chunks_present(self.payload@, image@, kn, i as int),
                additions_from_chunks(p0, self.payload@, image@, kn, i as int),
                no_collisions_before(p0, image@, kn, i as int),
            decreases len - lo,
        {
            proof {
                assert(lo == i * kn);
                assert(i < n) by (nonlinear_arith)
                    requires lo == i * kn, (lo as int) < len, len <= n * kn, kn >= 1, i >= 0,
                ;
                assert(i < len) by (nonlinear_arith)
                    requires lo == i * kn, (lo as int) < len, kn >= 1, i >= 0,
                ;
            }
            let hi = if len - lo >= k { lo + k } else { len };
            let ghost spec_hi = if (i + 1) * kn <= image@.len() { (i + 1) * kn } else {
                image@.len() as int
            };
            proof {
                assert((i + 1) * kn == lo + kn) by (nonlinear_arith)
                    requires lo == i * kn,
                ;
                assert(hi == spec_hi);
            }
            let mut chunk: Vec<u8> = Vec::new();
            let mut j: usize = lo;
            while j < hi
                invariant
                    lo <= j <= hi <= len,
                    len == image@.len(),
                    chunk@ == image@.subrange(lo as int, j as int),
                decreases hi - j,
            {
                chunk.push(image[j]);
                proof {
                    assert(image@.subrange(lo as int, j + 1)
                        =~= image@.subrange(lo as int, j as int).push(image@[j as int]));
                }
                j = j + 1;
            }
            while chunk.len() < k
                invariant
                    hi - lo <= chunk@.len() <= k,
                    chunk@ == image@.subrange(lo as int, hi as int)
                        + zeros((chunk@.len() - (hi - lo)) as nat),
                decreases k - chunk@.len(),
            {
                chunk.push(0u8);
                proof {
                    assert(chunk@ =~= image@.subrange(lo as int, hi as int)
                        + zeros((chunk@.len() - (hi - lo)) as nat));
                }
            }
            proof {
                assert(chunk@ =~= chunk_of(image@, kn, i as int));
            }
            let h = chunk_hash(&chunk);
            let ghost c = chunk_of(image@, kn, i as int);
            let ghost pay_before = self.payload@;
            match self.insert_chunk(h, chunk) {
                Ok(_) => {},
                Err(e) => {
                    proof {
                        lemma_save_collision(p0, pay_before, image@, kn, i as int);
                    }
                    return Err(e);
                },
            }
            proof {
                if self.payload@ != pay_before {
                    assert(self.payload@ == pay_before.push(self.payload@.last()));
                }
                lemma_save_step(p0, pay_before, self.payload@, image@, kn, i as int);
            }
            new_layout.push(LayoutEntry { offset: lo as u64, hash: h });
            proof {
                let lof = layout_of(image@, kn);
                assert(lof[i as int] == LayoutEntry { offset: (i * kn) as u64, hash: fnv1a(c) });
                assert(new_layout@ =~= lof.take(i + 1));
            }
            proof {
                if (i + 1) * kn <= image@.len() {
                    assert(hi == (i + 1) * kn);
                } else {
                    assert(hi == len);
                    assert(i + 1 == n) by (nonlinear_arith)
                        requires
                            (i + 1) * kn > len,
                            i + 1 <= n,
                            n * kn < len + kn,
                            kn >= 1,
                            len >= 0,
                    ;
                }
            }
            i = i + 1;
            lo = hi;
        }
        proof {
            if lo == i * kn {
                assert(i == n) by (nonlinear_arith)
                    requires
                        lo == i * kn,
                        lo >= len,
                        i <= n,
                        kn >= 1,
                        n * kn < len + kn,
                        i >= 0,
                        n >= 0,
                ;
            }
            assert(i == n);
            assert(new_layout@ =~= layout_of(image@, kn));
        }
        self.layout = new_layout;
        self.image_len = len;
        proof {
            let s = *self;
            assert(s.wf()) by {
                assert forall|q: int| 0 <= q < s.layout@.len()
                    implies (#[trigger] s.layout@[q]).offset == q * s.chunk_size by {
                    assert(s.layout@[q] == layout_of(image@, kn)[q]);
                    assert(0 <= q * kn && q * kn < len) by (nonlinear_arith)
                        requires 0 <= q <= n - 1, kn >= 1, n * kn < len + kn, len >= 0,
                    ;
                }
                assert forall|q: int| 0 <= q < s.layout@.len()
                    implies has_hash(s.payload@, (#[trigger] s.layout@[q]).hash) by {
                    assert(s.layout@[q].hash == fnv1a(chunk_of(image@, kn, q)));
                }
            }
            assert forall|q: int| 0 <= q < n
                implies #[trigger] s.stored_chunk(q) == chunk_of(image@, kn, q) by {
                assert(s.layout@[q].hash == fnv1a(chunk_of(image@, kn, q)));
                assert(payload_at(s.payload@, fnv1a(chunk_of(image@, kn, q)))
                    == chunk_of(image@, kn, q));
            }
            lemma_stored_prefix_chunks(s, image@, kn, n);
            lemma_chunks_concat_image(image@, kn);
            assert(s.stored_image() == image@);
            assert(!save_collides(p0, image@, kn)) by {
                assert forall|q: int| 0 <= q < n
                    implies !chunk_collides_at(p0, image@, kn, q) by {}
            }
        }
        Ok(())
    }

    /// Rebuilds the image the store holds: the layout's chunks in order,
    /// cut to the image length.
    pub fn load(&self) -> (r: Vec<u8>)
        requires
            self.wf(),
        ensures
            r@ == self.stored_image(),
    {
        let mut out: Vec<u8> = Vec::new();
        let mut i: usize = 0;
        while i < self.layout.len()
            invariant
                self.wf(),
                i <= self.layout@.len(),
                out@ == self.stored_prefix(i as int),
            decreases self.layout@.len() - i,
        {
            let h = self.layout[i].hash;
            let idx = match self.find_payload(h) {
                Some(idx) => idx,
                None => {
                    proof {
                        assert(has_hash(self.payload@, self.layout@[i as int].hash));
                        assert(false);
                    }
                    0
                },
            };
            let ghost before = out@;
            let mut j: usize = 0;
            while j < self.payload[idx].bytes.len()
                invariant
                    idx < self.payload@.len(),
                    j <= self.payload@[idx as int].bytes@.len(),
                    out@ == before + self.payload@[idx as int].bytes@.take(j as int),
                decreases self.payload@[idx as int].bytes@.len() - j,
            {
                out.push(self.payload[idx].bytes[j]);
                proof {
                    assert(before + self.payload@[idx as int].bytes@.take(j + 1)
                        =~= (before + self.payload@[idx as int].bytes@.take(j as int))
                            .push(self.payload@[idx as int].bytes@[j as int]));
                }
                j = j + 1;
            }
            proof {
                assert(self.payload@[idx as int].bytes@.take(
                    self.payload@[idx as int].bytes@.len() as int)
                    =~= self.payload@[idx as int].bytes@);
                assert(self.stored_chunk(i as int) == self.payload@[idx as int].bytes@);
            }
            i = i + 1;
        }
        out.truncate(self.image_len);
        proof {
            lemma_stored_prefix_len(*self, self.layout@.len() as int);
            assert(out@ == self.stored_image());
        }
        out
    }
}

/// A store whose chunks are the image's chunks concatenates to the image's
/// chunk stream.
proof fn lemma_stored_prefix_chunks(s: ChunkStore, image: Seq<u8>, k: nat, n: int)
    requires
        forall|q: int| 0 <= q < n ==> #[trigger] s.stored_chunk(q) == chunk_of(image, k, q),
    ensures
        s.stored_prefix(n) == chunks_concat(image, k, n),
    decreases n,
{
    if n > 0 {
        lemma_stored_prefix_chunks(s, image, k, n - 1);
        assert(s.stored_chunk(n - 1) == chunk_of(image, k, n - 1));
    }
}

/// A well-formed store's chunk stream is `layout.len() * chunk_size` bytes.
proof fn lemma_stored_prefix_len(s: ChunkStore, n: int)
    requires
        s.wf(),
        0 <= n <= s.layout@.len(),
    ensures
        s.stored_prefix(n).len() == n * s.chunk_size,
    decreases n,
{
    if n > 0 {
        lemma_stored_prefix_len(s, n - 1);
        let h = s.layout@[n - 1].hash;
        lemma_find_hash(s.payload@, h);
        assert(s.stored_chunk(n - 1).len() == s.chunk_size);
        assert((n - 1) * s.chunk_size + s.chunk_size == n * s.chunk_size) by (nonlinear_arith);
    } else {
        assert(n * s.chunk_size == 0) by (nonlinear_arith)
            requires n == 0,
        ;
    }
}

/// Round-trip equality: a successful save leaves the store holding the
/// saved image, so a load — which returns exactly what the store holds —
/// gives the image back byte for byte.
pub proof fn lemma_round_trip_equality(s: ChunkStore, image: Seq<u8>, loaded: Seq<u8>)
    requires
        s.wf(),
        s.stored_image() == image,
        loaded == s.stored_image(),
    ensures
        loaded == image,
{
}

/// Dedup idempotence: two successful saves of the same image under the
/// same chunk size produce the same layout, and a well-formed payload
/// never holds two entries with one identifier.
pub proof fn lemma_dedup_idempotence(s1: ChunkStore, s2: ChunkStore, image: Seq<u8>)
    requires
        s1.wf(),
        s2.wf(),
        s1.chunk_size == s2.chunk_size,
        s1.layout@ == layout_of(image, s1.chunk_size as nat),
        s2.layout@ == layout_of(image, s2.chunk_size as nat),
    ensures
        s1.layout@ == s2.layout@,
        keys_unique(s1.payload@),
        keys_unique(s2.payload@),
{
}

/// `find_hash` returns the first match.
proof fn lemma_find_first(p: Seq<PayloadEntry>, h: u64, i: int)
    requires
        0 <= i < p.len(),
        p[i].hash == h,
        forall|j: int| 0 <= j < i ==> (#[trigger] p[j]).hash != h,
    ensures
        find_hash(p, h) == i,
    decreases p.len(),
{
    if i == 0 {
    } else {
        assert(p.first().hash != h);
        assert forall|j: int| 0 <= j < i - 1 implies (#[trigger] p.drop_first()[j]).hash != h by {
            assert(p.drop_first()[j] == p[j + 1]);
        }
        assert(p.drop_first()[i - 1] == p[i]);
        lemma_find_first(p.drop_first(), h, i - 1);
    }
}

/// Byte-for-byte equality of two buffers.
pub fn bytes_equal(a: &Vec<u8>, b: &Vec<u8>) -> (r: bool)
    ensures
        r <==> a@ == b@,
{
    if a.len() != b.len() {
        proof {
            assert(a@ != b@);
        }
        return false;
    }
    let mut i: usize = 0;
    while i < a.len()
        invariant
            a@.len() == b@.len(),
            i <= a@.len(),
            forall|j: int| 0 <= j < i ==> a@[j] == b@[j],
        decreases a@.len() - i,
    {
        if a[i] != b[i] {
            return false;
        }
        i = i + 1;
    }
    proof {
        assert(a@ =~= b@);
    }
    true
}

} // verus!
