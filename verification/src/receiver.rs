//! The migration receiver's page-apply logic.
//!
//! The receiver rebuilds guest RAM from the wire: the first body is the
//! raw bulk image, planted whole at guest address zero; every
//! later body is a migration message whose payload carries one page-sized
//! slice per dirty page index. Migration is fail-stop: a body that does
//! not parse, a payload that does not match its page count, or a page
//! outside guest memory aborts the restore with no guest produced.

use vstd::prelude::*;
use crate::errors::VmmError;
use crate::message::{decode_migration_message, sp_message, MigrationMessage};
use crate::ram::{ram_seq, write_seq, GuestRam};
use crate::PAGE_SIZE;

verus! {

/// `base` after writing, for each `k`, the `k`-th page-sized slice of
/// `data` at page `pages[k]`, in order.
pub open spec fn apply_pages_upto(base: Seq<u8>, pages: Seq<u64>, data: Seq<u8>, n: int)
    -> Seq<u8>
    decreases n,
{
    if n <= 0 {
        base
    } else {
        write_seq(apply_pages_upto(base, pages, data, n - 1), pages[n - 1] * PAGE_SIZE,
            data.subrange((n - 1) * PAGE_SIZE, n * PAGE_SIZE))
    }
}

/// Applying pages never changes the RAM size.
pub proof fn lemma_apply_pages_len(base: Seq<u8>, pages: Seq<u64>, data: Seq<u8>, n: int)
    ensures
        apply_pages_upto(base, pages, data, n).len() == base.len(),
    decreases n,
{
    if n > 0 {
        lemma_apply_pages_len(base, pages, data, n - 1);
    }
}

/// Migration equivalence at the page level: when a message's payload was
/// read page for page from a source image, applying it plants the
/// source's bytes — every shipped page then equals the source page, and
/// every byte of a page not shipped is untouched.
pub proof fn lemma_apply_reproduces_source(base: Seq<u8>, src: Seq<u8>, pages: Seq<u64>,
    data: Seq<u8>, n: int, i: int)
    requires
        base.len() == src.len(),
        data.len() == pages.len() * PAGE_SIZE,
        0 <= n <= pages.len(),
        forall|k: int| 0 <= k < pages.len()
            ==> ((#[trigger] pages[k]) + 1) * PAGE_SIZE <= src.len(),
        forall|k: int| 0 <= k < pages.len()
            ==> data.subrange(k * PAGE_SIZE, (k + 1) * PAGE_SIZE)
                == src.subrange((#[trigger] pages[k]) * PAGE_SIZE,
                    (pages[k] + 1) * PAGE_SIZE),
        0 <= i < base.len(),
    ensures
        (exists|k: int| 0 <= k < n
            && (#[trigger] pages[k]) * PAGE_SIZE <= i < (pages[k] + 1) * PAGE_SIZE)
            ==> apply_pages_upto(base, pages, data, n)[i] == src[i],
        (forall|k: int| 0 <= k < n
            ==> !((#[trigger] pages[k]) * PAGE_SIZE <= i < (pages[k] + 1) * PAGE_SIZE))
            ==> apply_pages_upto(base, pages, data, n)[i] == base[i],
    decreases n,
{
    if n > 0 {
        lemma_apply_reproduces_source(base, src, pages, data, n - 1, i);
        lemma_apply_pages_len(base, pages, data, n - 1);
        let p = pages[n - 1];
        assert(0 <= (n - 1) * PAGE_SIZE && n * PAGE_SIZE <= data.len()
            && (n - 1) * PAGE_SIZE + PAGE_SIZE == n * PAGE_SIZE
            && 0 <= p * PAGE_SIZE && p * PAGE_SIZE + PAGE_SIZE == (p + 1) * PAGE_SIZE)
            by (nonlinear_arith)
            requires 0 < n <= pages.len(), data.len() == pages.len() * PAGE_SIZE, p >= 0,
        ;
        let slice = data.subrange((n - 1) * PAGE_SIZE, n * PAGE_SIZE);
        let out = apply_pages_upto(base, pages, data, n);
        if p * PAGE_SIZE <= i < (p + 1) * PAGE_SIZE {
            assert(out[i] == slice[i - p * PAGE_SIZE]);
            assert(slice[i - p * PAGE_SIZE]
                == src.subrange(p * PAGE_SIZE, (p + 1) * PAGE_SIZE)[i - p * PAGE_SIZE]);
            assert(out[i] == src[i]);
        } else {
            assert(out[i] == apply_pages_upto(base, pages, data, n - 1)[i]);
            if exists|k: int| 0 <= k < n
                && (#[trigger] pages[k]) * PAGE_SIZE <= i < (pages[k] + 1) * PAGE_SIZE {
                let k = choose|k: int| 0 <= k < n
                    && (#[trigger] pages[k]) * PAGE_SIZE <= i < (pages[k] + 1) * PAGE_SIZE;
                assert(k < n - 1);
            }
        }
    }
}

/// A message the receiver can apply: its lengths agree, its payload is
/// one page per dirty index, and every page lies in guest RAM.
pub open spec fn message_applies(m: MigrationMessage, ram_len: int) -> bool {
    &&& m.dirty_pages_len == m.dirty_pages@.len()
    &&& m.data_len == m.data@.len()
    &&& m.data@.len() == m.dirty_pages@.len() * PAGE_SIZE
    &&& forall|k: int| 0 <= k < m.dirty_pages@.len()
        ==> ((#[trigger] m.dirty_pages@[k]) + 1) * PAGE_SIZE <= ram_len
}

/// Writes the bulk image at guest address zero; the byte count must be
/// whole pages that fit in guest RAM.
pub fn apply_initial(ram: &mut GuestRam, data: &Vec<u8>) -> (r: Result<(), VmmError>)
    ensures
        ram_seq(*final(ram)).len() == ram_seq(*old(ram)).len(),
        r is Ok <==> (data@.len() as int % (PAGE_SIZE as int) == 0
            && data@.len() <= ram_seq(*old(ram)).len()),
        r is Ok ==> ram_seq(*final(ram)) == write_seq(ram_seq(*old(ram)), 0, data@),
        r is Err ==> (r matches Err(e)
            && (e == VmmError::MalformedInput || e == VmmError::PageOutOfRange)),
        r is Err ==> ram_seq(*final(ram)) == ram_seq(*old(ram)),
    {
    if data.len() % PAGE_SIZE != 0 {
        return Err(VmmError::MalformedInput);
    }
    let ram_len = ram.size();
    if data.len() as u64 > ram_len {
        return Err(VmmError::PageOutOfRange);
    }
    match ram.write_region(0, data) {
        Ok(()) => Ok(()),
        Err(_) => {
            proof {
                assert(false);
            }
            Err(VmmError::PageOutOfRange)
        },
    }
}

/// Applies one migration message: for each `k`, writes the `k`-th
/// page-sized slice of the payload at page `dirty_pages[k]`.
///
/// Succeeds exactly on messages whose lengths agree and whose pages fit;
/// a length mismatch is malformed input, and with the lengths right an
/// out-of-range page index is the page error. On failure guest RAM is
/// unchanged.
#[verifier::loop_isolation(false)]
pub fn apply_migration_message(ram: &mut GuestRam, msg: &MigrationMessage)
    -> (r: Result<(), VmmError>)
    ensures
        ram_seq(*final(ram)).len() == ram_seq(*old(ram)).len(),
        r is Ok <==> message_applies(*msg, ram_seq(*old(ram)).len() as int),
        r is Ok ==> ram_seq(*final(ram)) == apply_pages_upto(ram_seq(*old(ram)),
            msg.dirty_pages@, msg.data@, msg.dirty_pages@.len() as int),
        r is Err ==> ram_seq(*final(ram)) == ram_seq(*old(ram)),
        r is Err ==> (r matches Err(e) && (if msg.dirty_pages_len != msg.dirty_pages@.len()
            || msg.data_len != msg.data@.len()
            || msg.data@.len() != msg.dirty_pages@.len() * PAGE_SIZE {
            e == VmmError::MalformedInput
        } else {
            e == VmmError::PageOutOfRange
        })),
{
    let num_pages = msg.dirty_pages.len();
    if msg.dirty_pages_len != num_pages || msg.data_len != msg.data.len() {
        return Err(VmmError::MalformedInput);
    }
    if msg.data.len() / PAGE_SIZE != num_pages || msg.data.len() % PAGE_SIZE != 0 {
        proof {
            let dl = msg.data@.len() as int;
            let np = msg.dirty_pages@.len() as int;
            vstd::arithmetic::div_mod::lemma_fundamental_div_mod(dl, PAGE_SIZE as int);
            assert(dl == np * PAGE_SIZE ==> (dl / (PAGE_SIZE as int) == np
                && dl % (PAGE_SIZE as int) == 0)) by (nonlinear_arith)
                requires dl >= 0, np >= 0, dl == (PAGE_SIZE as int) * (dl / (PAGE_SIZE as int))
                    + dl % (PAGE_SIZE as int), 0 <= dl % (PAGE_SIZE as int) < PAGE_SIZE,
            ;
        }
        return Err(VmmError::MalformedInput);
    }
    proof {
        assert(msg.data@.len() == msg.dirty_pages@.len() * PAGE_SIZE) by (nonlinear_arith)
            requires
                msg.data@.len() as int / (PAGE_SIZE as int) == msg.dirty_pages@.len(),
                msg.data@.len() as int % (PAGE_SIZE as int) == 0,
                msg.data@.len() >= 0,
        {
            vstd::arithmetic::div_mod::lemma_fundamental_div_mod(msg.data@.len() as int,
                PAGE_SIZE as int);
        }
    }
    let ram_len = ram.size();
    let pages_cap = ram_len / (PAGE_SIZE as u64);
    proof {
        vstd::arithmetic::div_mod::lemma_fundamental_div_mod(ram_len as int, PAGE_SIZE as int);
        vstd::arithmetic::div_mod::lemma_mod_bound(ram_len as int, PAGE_SIZE as int);
    }
    let mut k: usize = 0;
    while k < num_pages
        invariant
            k <= num_pages,
            forall|q: int| 0 <= q < k
                ==> ((#[trigger] msg.dirty_pages@[q]) + 1) * PAGE_SIZE <= ram_len,
        decreases num_pages - k,
    {
        let page = msg.dirty_pages[k];
        let ghost cap = ram_len as int / (PAGE_SIZE as int);
        let ghost rem = ram_len as int % (PAGE_SIZE as int);
        if page >= pages_cap {
            proof {
                assert((page + 1) * PAGE_SIZE > ram_len) by (nonlinear_arith)
                    requires
                        page >= cap,
                        ram_len == (PAGE_SIZE as int) * cap + rem,
                        0 <= rem < PAGE_SIZE,
                        PAGE_SIZE == 4096,
                ;
            }
            return Err(VmmError::PageOutOfRange);
        }
        proof {
            assert((page + 1) * PAGE_SIZE <= ram_len) by (nonlinear_arith)
                requires
                    page < cap,
                    ram_len == (PAGE_SIZE as int) * cap + rem,
                    0 <= rem < PAGE_SIZE,
                    PAGE_SIZE == 4096,
            ;
        }
        k = k + 1;
    }
    let ghost base = ram_seq(*ram);
    let mut k2: usize = 0;
    while k2 < num_pages
        invariant
            k2 <= num_pages,
            ram_seq(*ram) == apply_pages_upto(base, msg.dirty_pages@, msg.data@, k2 as int),
            ram_seq(*ram).len() == base.len(),
        decreases num_pages - k2,
    {
        proof {
            assert((k2 + 1) * PAGE_SIZE <= num_pages * PAGE_SIZE
                && k2 * PAGE_SIZE >= 0
                && (k2 + 1) * PAGE_SIZE == k2 * PAGE_SIZE + PAGE_SIZE) by (nonlinear_arith)
                requires 0 <= k2 < num_pages,
            ;
        }
        let mut slice: Vec<u8> = Vec::new();
        let start = k2 * PAGE_SIZE;
        let mut j: usize = 0;
        while j < PAGE_SIZE
            invariant
                j <= PAGE_SIZE,
                start == k2 * PAGE_SIZE,
                start + PAGE_SIZE <= msg.data@.len(),
                slice@ == msg.data@.subrange(start as int, start + j),
            decreases PAGE_SIZE - j,
        {
            slice.push(msg.data[start + j]);
            proof {
                assert(msg.data@.subrange(start as int, start + j + 1)
                    =~= msg.data@.subrange(start as int, start + j)
                        .push(msg.data@[start + j]));
            }
            j = j + 1;
        }
        let page = msg.dirty_pages[k2];
        proof {
            assert(page * PAGE_SIZE >= 0 && page * PAGE_SIZE + PAGE_SIZE
                == (page + 1) * PAGE_SIZE) by (nonlinear_arith);
            assert((page + 1) * PAGE_SIZE <= ram_len);
        }
        let addr = page * (PAGE_SIZE as u64);
        match ram.write_region(addr, &slice) {
            Ok(()) => {},
            Err(_) => {
                proof {
                    assert(false);
                }
                return Err(VmmError::PageOutOfRange);
            },
        }
        k2 = k2 + 1;
    }
    Ok(())
}

/// The receiver's position in the restore.
pub struct ReceiverState {
    /// Bodies handled so far; the bulk image is body zero.
    pub iteration: u64,
    /// The CPU-state path named by the latest message.
    pub cpu_state_file_path: String,
    /// A terminator message has arrived.
    pub done: bool,
}

impl ReceiverState {
    /// A receiver before the bulk image has arrived.
    pub fn new() -> (r: ReceiverState)
        ensures
            r.iteration == 0,
            r.cpu_state_file_path@ == Seq::<char>::empty(),
            !r.done,
    {
        ReceiverState {
            iteration: 0,
            cpu_state_file_path: String::new(),
            done: false,
        }
    }

    /// Handles one length-delimited body: the bulk image on the first
    /// call, a migration message afterwards. On a message, remembers its
    /// CPU-state path and its terminator flag.
    pub fn handle_body(&mut self, ram: &mut GuestRam, body: &Vec<u8>)
        -> (r: Result<(), VmmError>)
        requires
            old(self).iteration < u64::MAX,
        ensures
            ram_seq(*final(ram)).len() == ram_seq(*old(ram)).len(),
            r is Ok ==> final(self).iteration == old(self).iteration + 1,
            r is Err ==> *final(self) == *old(self) && ram_seq(*final(ram))
                == ram_seq(*old(ram)),
            old(self).iteration == 0 ==> {
                &&& (r is Ok <==> (body@.len() as int % (PAGE_SIZE as int) == 0
                    && body@.len() <= ram_seq(*old(ram)).len()))
                &&& (r is Ok ==> ram_seq(*final(ram))
                    == write_seq(ram_seq(*old(ram)), 0, body@)
                    && final(self).done == old(self).done
                    && final(self).cpu_state_file_path@ == old(self).cpu_state_file_path@)
            },
            old(self).iteration > 0 ==> match sp_message(body@) {
                Ok(x) => {
                    &&& (r is Ok <==> message_applies_model(x,
                        ram_seq(*old(ram)).len() as int))
                    &&& (r is Ok ==> ram_seq(*final(ram)) == apply_pages_upto(
                        ram_seq(*old(ram)), x.dirty_pages, x.data,
                        x.dirty_pages.len() as int)
                        && final(self).cpu_state_file_path@ == x.cpu_state_file_path
                        && final(self).done == x.is_last)
                },
                Err(_) => r is Err,
            },
    {
        if self.iteration == 0 {
            apply_initial(ram, body)?;
            self.iteration = self.iteration + 1;
            Ok(())
        } else {
            let msg = decode_migration_message(body)?;
            apply_migration_message(ram, &msg)?;
            self.cpu_state_file_path = msg.cpu_state_file_path;
            self.done = msg.is_last;
            self.iteration = self.iteration + 1;
            Ok(())
        }
    }
}

/// `message_applies` stated over a message's model.
pub open spec fn message_applies_model(x: crate::message::MessageModel, ram_len: int) -> bool {
    &&& x.dirty_pages_len == x.dirty_pages.len()
    &&& x.data_len == x.data.len()
    &&& x.data.len() == x.dirty_pages.len() * PAGE_SIZE
    &&& forall|k: int| 0 <= k < x.dirty_pages.len()
        ==> ((#[trigger] x.dirty_pages[k]) + 1) * PAGE_SIZE <= ram_len
}

} // verus!
