//! The dirty-page tracker's bitmap logic.
//!
//! The host kernel reports written pages as a sequence of 64-bit words,
//! bit `j` of word `w` standing for page `64 * w + j`, and clears the
//! bitmap as it is read. The scan below turns such a bitmap into the
//! strictly ascending list of dirty page indices; the `DirtyBitmap` type
//! models the kernel's read-and-clear cell, so that what successive
//! collects report can be stated exactly.

use vstd::prelude::*;

verus! {

/// Page `p` is marked in the bitmap.
pub open spec fn page_dirty(words: Seq<u64>, p: int) -> bool {
    &&& 0 <= p < words.len() * 64
    &&& (words[p / 64] >> ((p % 64) as u64)) & 1 == 1
}

/// Turns a dirty bitmap into the strictly ascending list of its set pages.
pub fn collect_dirty_pages(words: &Vec<u64>) -> (r: Vec<u64>)
    requires
        words@.len() * 64 <= u64::MAX,
    ensures
        forall|q: int| 0 <= q < r@.len() ==> page_dirty(words@, (#[trigger] r@[q]) as int),
        forall|p: int| page_dirty(words@, p) ==> r@.contains(p as u64),
        forall|a: int, b: int| 0 <= a < b < r@.len() ==> r@[a] < r@[b],
{
    let mut r: Vec<u64> = Vec::new();
    let mut w: usize = 0;
    while w < words.len()
        invariant
            w <= words@.len(),
            words@.len() * 64 <= u64::MAX,
            forall|q: int| 0 <= q < r@.len() ==> page_dirty(words@, (#[trigger] r@[q]) as int),
            forall|q: int| 0 <= q < r@.len() ==> (#[trigger] r@[q]) < w * 64,
            forall|p: int| 0 <= p < w * 64 && page_dirty(words@, p) ==> r@.contains(p as u64),
            forall|a: int, b: int| 0 <= a < b < r@.len() ==> r@[a] < r@[b],
        decreases words@.len() - w,
    {
        let word = words[w];
        let mut bit: u64 = 0;
        proof {
            assert((w + 1) * 64 == w * 64 + 64 && w * 64 >= 0 && (w as int) * 64 < words@.len()
                * 64) by (nonlinear_arith)
                requires 0 <= w < words@.len(),
            ;
        }
        while bit < 64
            invariant
                bit <= 64,
                w < words@.len(),
                words@.len() * 64 <= u64::MAX,
                word == words@[w as int],
                forall|q: int| 0 <= q < r@.len()
                    ==> page_dirty(words@, (#[trigger] r@[q]) as int),
                forall|q: int| 0 <= q < r@.len() ==> (#[trigger] r@[q]) < w * 64 + bit,
                forall|p: int| 0 <= p < w * 64 + bit && page_dirty(words@, p)
                    ==> r@.contains(p as u64),
                forall|a: int, b: int| 0 <= a < b < r@.len() ==> r@[a] < r@[b],
            decreases 64 - bit,
        {
            let page: u64 = (w as u64) * 64 + bit;
            proof {
                assert(page == w * 64 + bit && page < words@.len() * 64) by (nonlinear_arith)
                    requires
                        page == (w as int) * 64 + bit,
                        0 <= w < words@.len(),
                        bit < 64,
                        words@.len() * 64 <= u64::MAX,
                ;
                vstd::arithmetic::div_mod::lemma_fundamental_div_mod_converse(
                    page as int, 64, w as int, bit as int);
            }
            if (word >> bit) & 1 == 1 {
                let ghost r0 = r@;
                r.push(page);
                proof {
                    assert(page_dirty(words@, page as int));
                    assert forall|p: int| 0 <= p < w * 64 + bit + 1 && page_dirty(words@, p)
                        implies r@.contains(p as u64) by {
                        if p < w * 64 + bit {
                            assert(r0.contains(p as u64));
                            let q = choose|q: int| 0 <= q < r0.len() && r0[q] == p as u64;
                            assert(r@[q] == p as u64);
                        } else {
                            assert(r@[r@.len() - 1] == page);
                        }
                    }
                }
            } else {
                proof {
                    assert forall|p: int| 0 <= p < w * 64 + bit + 1 && page_dirty(words@, p)
                        implies r@.contains(p as u64) by {
                        if p == w * 64 + bit {
                            assert((words@[w as int] >> (bit as u64)) & 1 == 1);
                            assert((word >> bit) & 1 != 1);
                            assert(false);
                        }
                    }
                }
            }
            bit = bit + 1;
        }
        proof {
            assert(w * 64 + 64 == (w + 1) * 64) by (nonlinear_arith);
        }
        w = w + 1;
    }
    proof {
        assert forall|p: int| page_dirty(words@, p) implies r@.contains(p as u64) by {
            assert(0 <= p < words@.len() * 64);
        }
    }
    r
}

/// The kernel's dirty cell as a value: a bitmap that marking sets and
/// collecting reads and clears.
pub struct DirtyBitmap {
    pub words: Vec<u64>,
}

impl DirtyBitmap {
    /// A clear bitmap of `num_words * 64` pages.
    pub fn new(num_words: usize) -> (r: DirtyBitmap)
        ensures
            r.words@.len() == num_words,
            forall|p: int| !page_dirty(r.words@, p),
    {
        let mut words: Vec<u64> = Vec::new();
        let mut i: usize = 0;
        while i < num_words
            invariant
                i <= num_words,
                words@.len() == i,
                forall|j: int| 0 <= j < i ==> words@[j] == 0u64,
            decreases num_words - i,
        {
            words.push(0u64);
            i = i + 1;
        }
        proof {
            assert forall|p: int| !page_dirty(words@, p) by {
                if 0 <= p < words@.len() * 64 {
                    assert(0 <= p / 64 < words@.len()) by (nonlinear_arith)
                        requires 0 <= p < words@.len() * 64,
                    ;
                    assert(words@[p / 64] == 0u64);
                    let b = (p % 64) as u64;
                    assert((0u64 >> b) & 1 == 0) by (bit_vector);
                }
            }
        }
        DirtyBitmap { words }
    }

    /// Records a write to page `p`.
    pub fn mark(&mut self, p: u64)
        requires
            p < old(self).words@.len() * 64,
        ensures
            final(self).words@.len() == old(self).words@.len(),
            forall|q: int| page_dirty(final(self).words@, q)
                <==> (page_dirty(old(self).words@, q) || q == p),
    {
        proof {
            let ghost wl = old(self).words@.len() as int;
            assert(0 <= p as int / 64 < wl && 0 <= p as int % 64 < 64)
                by (nonlinear_arith)
                requires 0 <= p < wl * 64,
            ;
        }
        let w = (p / 64) as usize;
        let bit = p % 64;
        let old_word = self.words[w];
        let new_word = old_word | (1u64 << bit);
        self.words.set(w, new_word);
        proof {
            let ow = old(self).words@;
            let nw = self.words@;
            vstd::arithmetic::div_mod::lemma_fundamental_div_mod(p as int, 64);
            vstd::arithmetic::div_mod::lemma_mod_bound(p as int, 64);
            assert forall|q: int| page_dirty(nw, q)
                <==> (page_dirty(ow, q) || q == p) by {
                if 0 <= q < nw.len() * 64 {
                    assert(0 <= q / 64 < nw.len() && 0 <= q % 64 < 64) by (nonlinear_arith)
                        requires 0 <= q < nw.len() * 64,
                    ;
                    vstd::arithmetic::div_mod::lemma_fundamental_div_mod(q, 64);
                    let c = (q % 64) as u64;
                    if q / 64 == w {
                        let x = ow[q / 64];
                        assert(nw[q / 64] == (x | (1u64 << bit)));
                        assert((((x | (1u64 << bit)) >> c) & 1 == 1)
                            <==> (((x >> c) & 1 == 1) || c == bit)) by (bit_vector)
                            requires c < 64u64, bit < 64u64,
                        ;
                        assert(q == p <==> c == bit);
                    } else {
                        assert(nw[q / 64] == ow[q / 64]);
                        assert(q != p);
                    }
                } else {
                    assert(!page_dirty(nw, q) && !page_dirty(ow, q) && q != p);
                }
            }
        }
    }

    /// Reads the dirty pages, strictly ascending, and clears the bitmap:
    /// the next collect reports only writes made after this one.
    pub fn collect(&mut self) -> (r: Vec<u64>)
        requires
            old(self).words@.len() * 64 <= u64::MAX,
        ensures
            final(self).words@.len() == old(self).words@.len(),
            forall|q: int| 0 <= q < r@.len()
                ==> page_dirty(old(self).words@, (#[trigger] r@[q]) as int),
            forall|p: int| page_dirty(old(self).words@, p) ==> r@.contains(p as u64),
            forall|a: int, b: int| 0 <= a < b < r@.len() ==> r@[a] < r@[b],
            forall|p: int| !page_dirty(final(self).words@, p),
    {
        let r = collect_dirty_pages(&self.words);
        let n = self.words.len();
        let mut i: usize = 0;
        while i < n
            invariant
                i <= n,
                self.words@.len() == n,
                forall|j: int| 0 <= j < i ==> self.words@[j] == 0u64,
            decreases n - i,
        {
            self.words.set(i, 0u64);
            i = i + 1;
        }
        proof {
            assert forall|p: int| !page_dirty(self.words@, p) by {
                if 0 <= p < self.words@.len() * 64 {
                    assert(0 <= p / 64 < self.words@.len()) by (nonlinear_arith)
                        requires 0 <= p < self.words@.len() * 64,
                    ;
                    assert(self.words@[p / 64] == 0u64);
                    let b = (p % 64) as u64;
                    assert((0u64 >> b) & 1 == 0) by (bit_vector);
                }
            }
        }
        r
    }
}

/// Dirty-log monotonicity over the cell: right after a collect the cell is
/// clear, so a page written since then is reported by the next collect,
/// and a page not written is not.
pub proof fn lemma_dirty_log_monotonic(cleared: Seq<u64>, written: Seq<u64>, p: int, q: int)
    requires
        forall|c: int| !page_dirty(cleared, c),
        forall|c: int| page_dirty(written, c) <==> (page_dirty(cleared, c) || c == p),
    ensures
        page_dirty(written, q) <==> q == p,
{
}

} // verus!
