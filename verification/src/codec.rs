//! Little-endian wire primitives shared by the snapshot and migration codecs.
//!
//! Every on-disk and on-wire record of the core is a concatenation of these
//! fields: fixed-width little-endian integers, single-byte booleans, and
//! length-prefixed byte or integer arrays. Each primitive has a spec-level
//! encoder, a spec-level parser returning the exact error the executable
//! parser returns, and executable halves proved against them.

use vstd::prelude::*;
use crate::errors::VmmError;

verus! {

/// The eight bytes of `x`, least significant first.
pub open spec fn u64_le(x: u64) -> Seq<u8> {
    seq![
        (x & 0xff) as u8,
        ((x >> 8) & 0xff) as u8,
        ((x >> 16) & 0xff) as u8,
        ((x >> 24) & 0xff) as u8,
        ((x >> 32) & 0xff) as u8,
        ((x >> 40) & 0xff) as u8,
        ((x >> 48) & 0xff) as u8,
        ((x >> 56) & 0xff) as u8,
    ]
}

/// The integer held by eight little-endian bytes.
pub open spec fn u64_of_le(b: Seq<u8>) -> u64
    recommends b.len() == 8,
{
    ((b[0] as u64) | ((b[1] as u64) << 8) | ((b[2] as u64) << 16) | ((b[3] as u64) << 24)
        | ((b[4] as u64) << 32) | ((b[5] as u64) << 40) | ((b[6] as u64) << 48)
        | ((b[7] as u64) << 56)) as u64
}

/// The two bytes of `x`, least significant first.
pub open spec fn u16_le(x: u16) -> Seq<u8> {
    seq![(x & 0xff) as u8, ((x >> 8) & 0xff) as u8]
}

/// The integer held by two little-endian bytes.
pub open spec fn u16_of_le(b: Seq<u8>) -> u16
    recommends b.len() == 2,
{
    ((b[0] as u16) | ((b[1] as u16) << 8)) as u16
}

/// Decoding the eight bytes of an integer gives the integer back.
pub proof fn lemma_u64_le_round_trip(x: u64)
    ensures u64_of_le(u64_le(x)) == x,
{
    assert(((((x & 0xff) as u8) as u64)
        | (((((x >> 8) & 0xff) as u8) as u64) << 8)
        | (((((x >> 16) & 0xff) as u8) as u64) << 16)
        | (((((x >> 24) & 0xff) as u8) as u64) << 24)
        | (((((x >> 32) & 0xff) as u8) as u64) << 32)
        | (((((x >> 40) & 0xff) as u8) as u64) << 40)
        | (((((x >> 48) & 0xff) as u8) as u64) << 48)
        | (((((x >> 56) & 0xff) as u8) as u64) << 56)) == x) by (bit_vector);
}

/// Re-encoding the integer held by eight bytes gives the bytes back.
pub proof fn lemma_u64_of_le_round_trip(b: Seq<u8>)
    requires b.len() == 8,
    ensures u64_le(u64_of_le(b)) == b,
{
    let b0 = b[0]; let b1 = b[1]; let b2 = b[2]; let b3 = b[3];
    let b4 = b[4]; let b5 = b[5]; let b6 = b[6]; let b7 = b[7];
    let x = u64_of_le(b);
    assert(x == (((b0 as u64) | ((b1 as u64) << 8) | ((b2 as u64) << 16) | ((b3 as u64) << 24)
        | ((b4 as u64) << 32) | ((b5 as u64) << 40) | ((b6 as u64) << 48)
        | ((b7 as u64) << 56)) as u64));
    assert({
        let y = (((b0 as u64) | ((b1 as u64) << 8) | ((b2 as u64) << 16) | ((b3 as u64) << 24)
            | ((b4 as u64) << 32) | ((b5 as u64) << 40) | ((b6 as u64) << 48)
            | ((b7 as u64) << 56)) as u64);
        (y & 0xff) as u8 == b0 && ((y >> 8) & 0xff) as u8 == b1
            && ((y >> 16) & 0xff) as u8 == b2 && ((y >> 24) & 0xff) as u8 == b3
            && ((y >> 32) & 0xff) as u8 == b4 && ((y >> 40) & 0xff) as u8 == b5
            && ((y >> 48) & 0xff) as u8 == b6 && ((y >> 56) & 0xff) as u8 == b7
    }) by (bit_vector);
    assert(u64_le(x) =~= b);
}

/// Eight-byte blocks re-encode to the region they were read from.
pub proof fn lemma_u64s_bytes_of_blocks(b: Seq<u8>, start: int, n: nat)
    requires
        0 <= start,
        start + 8 * n <= b.len(),
    ensures
        u64s_bytes(Seq::new(n, |k: int| u64_of_le(b.subrange(start + 8 * k, start + 8 * k + 8))))
            == b.subrange(start, start + 8 * n),
    decreases n,
{
    let v = Seq::new(n, |k: int| u64_of_le(b.subrange(start + 8 * k, start + 8 * k + 8)));
    if n == 0 {
        assert(u64s_bytes(v) =~= b.subrange(start, start));
    } else {
        let m = (n - 1) as nat;
        let w = Seq::new(m, |k: int| u64_of_le(b.subrange(start + 8 * k, start + 8 * k + 8)));
        assert(v.drop_last() =~= w);
        lemma_u64s_bytes_of_blocks(b, start, m);
        lemma_u64_of_le_round_trip(b.subrange(start + 8 * m, start + 8 * m + 8));
        assert(u64_le(v.last()) == b.subrange(start + 8 * m, start + 8 * m + 8));
        assert(u64s_bytes(v) =~= b.subrange(start, start + 8 * n));
    }
}

/// Decoding the two bytes of an integer gives the integer back.
pub proof fn lemma_u16_le_round_trip(x: u16)
    ensures u16_of_le(u16_le(x)) == x,
{
    assert(((((x & 0xff) as u8) as u16)
        | (((((x >> 8) & 0xff) as u8) as u16) << 8)) == x) by (bit_vector);
}

/// The single byte encoding a boolean.
pub open spec fn bool_byte(v: bool) -> u8 {
    if v { 1u8 } else { 0u8 }
}

/// A length-prefixed byte array: the count as a little-endian word, then
/// the bytes.
pub open spec fn enc_bytes(b: Seq<u8>) -> Seq<u8> {
    u64_le(b.len() as u64) + b
}

/// The concatenated little-endian words of `s`, without a prefix.
pub open spec fn u64s_bytes(s: Seq<u64>) -> Seq<u8>
    decreases s.len(),
{
    if s.len() == 0 {
        Seq::<u8>::empty()
    } else {
        u64s_bytes(s.drop_last()) + u64_le(s.last())
    }
}

/// A length-prefixed array of little-endian words.
pub open spec fn enc_u64s(s: Seq<u64>) -> Seq<u8> {
    u64_le(s.len() as u64) + u64s_bytes(s)
}

/// Each encoded word occupies eight bytes.
pub proof fn lemma_u64s_bytes_len(s: Seq<u64>)
    ensures u64s_bytes(s).len() == 8 * s.len(),
    decreases s.len(),
{
    if s.len() > 0 {
        lemma_u64s_bytes_len(s.drop_last());
    }
}

/// The encoding of a word sequence exposes each word at its offset.
pub proof fn lemma_u64s_bytes_index(s: Seq<u64>, k: int)
    requires 0 <= k < s.len(),
    ensures
        u64s_bytes(s).subrange(8 * k, 8 * k + 8) == u64_le(s[k]),
    decreases s.len(),
{
    lemma_u64s_bytes_len(s);
    if k == s.len() - 1 {
        lemma_u64s_bytes_len(s.drop_last());
        assert(u64s_bytes(s).subrange(8 * k, 8 * k + 8) =~= u64_le(s.last()));
    } else {
        lemma_u64s_bytes_index(s.drop_last(), k);
        lemma_u64s_bytes_len(s.drop_last());
        assert(u64s_bytes(s).subrange(8 * k, 8 * k + 8)
            =~= u64s_bytes(s.drop_last()).subrange(8 * k, 8 * k + 8));
    }
}

/// A buffer region equal to a subsequence is equal to it pointwise.
pub proof fn lemma_subrange_pointwise(b: Seq<u8>, pos: int, s: Seq<u8>)
    requires
        0 <= pos,
        pos + s.len() <= b.len(),
        b.subrange(pos, pos + s.len() as int) == s,
    ensures
        forall|j: int| 0 <= j < s.len() ==> b[pos + j] == s[j],
{
    assert forall|j: int| 0 <= j < s.len() implies b[pos + j] == s[j] by {
        assert(b.subrange(pos, pos + s.len() as int)[j] == b[pos + j]);
    }
}

// ---------------------------------------------------------------------------
// Spec-level parsers. Each takes the buffer and a cursor and gives either the
// parsed value with the cursor after it, or the exact error the executable
// parser reports.
// ---------------------------------------------------------------------------

/// Parse a little-endian word at `pos`.
pub open spec fn sp_u64(b: Seq<u8>, pos: int) -> Result<(u64, int), VmmError> {
    if pos + 8 <= b.len() {
        Ok((u64_of_le(b.subrange(pos, pos + 8)), pos + 8))
    } else {
        Err(VmmError::TruncatedInput)
    }
}

/// Parse a little-endian half word at `pos`.
pub open spec fn sp_u16(b: Seq<u8>, pos: int) -> Result<(u16, int), VmmError> {
    if pos + 2 <= b.len() {
        Ok((u16_of_le(b.subrange(pos, pos + 2)), pos + 2))
    } else {
        Err(VmmError::TruncatedInput)
    }
}

/// Parse a single-byte boolean at `pos`; bytes other than 0 and 1 are
/// malformed.
pub open spec fn sp_bool(b: Seq<u8>, pos: int) -> Result<(bool, int), VmmError> {
    if pos + 1 <= b.len() {
        if b[pos] == 0u8 {
            Ok((false, pos + 1))
        } else if b[pos] == 1u8 {
            Ok((true, pos + 1))
        } else {
            Err(VmmError::MalformedInput)
        }
    } else {
        Err(VmmError::TruncatedInput)
    }
}

/// Parse a length-prefixed byte array at `pos`.
pub open spec fn sp_bytes(b: Seq<u8>, pos: int) -> Result<(Seq<u8>, int), VmmError> {
    match sp_u64(b, pos) {
        Ok((n, p)) => {
            if n > usize::MAX as u64 {
                Err(VmmError::MalformedInput)
            } else if p + n <= b.len() {
                Ok((b.subrange(p, p + n), p + n))
            } else {
                Err(VmmError::TruncatedInput)
            }
        },
        Err(e) => Err(e),
    }
}

/// Parse a length-prefixed array of little-endian words at `pos`.
pub open spec fn sp_u64s(b: Seq<u8>, pos: int) -> Result<(Seq<u64>, int), VmmError> {
    match sp_u64(b, pos) {
        Ok((n, p)) => {
            if n > usize::MAX as u64 {
                Err(VmmError::MalformedInput)
            } else if p + 8 * n <= b.len() {
                Ok((Seq::new(n as nat, |k: int| u64_of_le(b.subrange(p + 8 * k, p + 8 * k + 8))),
                    p + 8 * n))
            } else {
                Err(VmmError::TruncatedInput)
            }
        },
        Err(e) => Err(e),
    }
}

/// Where a length-prefixed array sits in a buffer, the parser finds it.
pub proof fn lemma_sp_bytes_at(b: Seq<u8>, pos: int, v: Seq<u8>)
    requires
        0 <= pos,
        v.len() <= usize::MAX,
        pos + 8 + v.len() <= b.len(),
        forall|j: int| 0 <= j < 8 + v.len() ==> b[pos + j] == enc_bytes(v)[j],
    ensures
        sp_bytes(b, pos) == Ok::<_, VmmError>((v, pos + 8 + v.len())),
{
    let e = enc_bytes(v);
    assert(b.subrange(pos, pos + 8) =~= u64_le(v.len() as u64)) by {
        assert forall|j: int| 0 <= j < 8 implies #[trigger] b.subrange(pos, pos + 8)[j]
            == u64_le(v.len() as u64)[j] by {
            assert(b[pos + j] == e[j]);
        }
    }
    lemma_u64_le_round_trip(v.len() as u64);
    assert(sp_u64(b, pos) == Ok::<_, VmmError>((v.len() as u64, pos + 8)));
    assert(b.subrange(pos + 8, pos + 8 + v.len() as int) =~= v) by {
        assert forall|j: int| 0 <= j < v.len() implies b.subrange(pos + 8,
            pos + 8 + v.len() as int)[j] == v[j] by {
            assert(b.subrange(pos + 8, pos + 8 + v.len() as int)[j] == b[pos + 8 + j]);
            assert(b[pos + (8 + j)] == e[8 + j]);
            assert(e[8 + j] == v[j]);
        }
    }
}

// ---------------------------------------------------------------------------
// Executable encoders.
// ---------------------------------------------------------------------------

/// Appends the eight little-endian bytes of `x`.
pub fn push_u64_le(out: &mut Vec<u8>, x: u64)
    ensures final(out)@ == old(out)@ + u64_le(x),
{
    out.push((x & 0xff) as u8);
    out.push(((x >> 8) & 0xff) as u8);
    out.push(((x >> 16) & 0xff) as u8);
    out.push(((x >> 24) & 0xff) as u8);
    out.push(((x >> 32) & 0xff) as u8);
    out.push(((x >> 40) & 0xff) as u8);
    out.push(((x >> 48) & 0xff) as u8);
    out.push(((x >> 56) & 0xff) as u8);
    proof {
        assert(out@ =~= old(out)@ + u64_le(x));
    }
}

/// Appends the two little-endian bytes of `x`.
pub fn push_u16_le(out: &mut Vec<u8>, x: u16)
    ensures final(out)@ == old(out)@ + u16_le(x),
{
    out.push((x & 0xff) as u8);
    out.push(((x >> 8) & 0xff) as u8);
    proof {
        assert(out@ =~= old(out)@ + u16_le(x));
    }
}

/// Appends the byte of a boolean.
pub fn push_bool(out: &mut Vec<u8>, v: bool)
    ensures final(out)@ == old(out)@ + seq![bool_byte(v)],
{
    out.push(if v { 1u8 } else { 0u8 });
    proof {
        assert(out@ =~= old(out)@ + seq![bool_byte(v)]);
    }
}

/// Appends the bytes of `v` without a prefix.
pub fn push_raw(out: &mut Vec<u8>, v: &Vec<u8>)
    ensures final(out)@ == old(out)@ + v@,
{
    let mut k: usize = 0;
    while k < v.len()
        invariant
            k <= v.len(),
            out@ == old(out)@ + v@.take(k as int),
        decreases v.len() - k,
    {
        out.push(v[k]);
        proof {
            assert(old(out)@ + v@.take(k + 1) =~= (old(out)@ + v@.take(k as int)).push(v@[k as int]));
        }
        k = k + 1;
    }
    proof {
        assert(v@.take(v@.len() as int) =~= v@);
    }
}

/// Appends a length-prefixed byte array.
pub fn push_byte_vec(out: &mut Vec<u8>, v: &Vec<u8>)
    ensures final(out)@ == old(out)@ + enc_bytes(v@),
{
    push_u64_le(out, v.len() as u64);
    push_raw(out, v);
    proof {
        assert(out@ =~= old(out)@ + enc_bytes(v@));
    }
}

/// Appends a length-prefixed array of little-endian words.
pub fn push_u64_vec(out: &mut Vec<u8>, v: &Vec<u64>)
    ensures final(out)@ == old(out)@ + enc_u64s(v@),
{
    push_u64_le(out, v.len() as u64);
    let mut k: usize = 0;
    while k < v.len()
        invariant
            k <= v.len(),
            out@ == old(out)@ + u64_le(v@.len() as u64) + u64s_bytes(v@.take(k as int)),
        decreases v.len() - k,
    {
        push_u64_le(out, v[k]);
        proof {
            assert(v@.take(k + 1).drop_last() =~= v@.take(k as int));
            assert(v@.take(k + 1).last() == v@[k as int]);
            assert(old(out)@ + u64_le(v@.len() as u64) + u64s_bytes(v@.take(k + 1))
                =~= (old(out)@ + u64_le(v@.len() as u64) + u64s_bytes(v@.take(k as int)))
                    + u64_le(v@[k as int]));
        }
        k = k + 1;
    }
    proof {
        assert(v@.take(v@.len() as int) =~= v@);
        assert(out@ =~= old(out)@ + enc_u64s(v@));
    }
}

// ---------------------------------------------------------------------------
// Executable parsers, each proved to agree with its spec-level parser.
// ---------------------------------------------------------------------------

/// Reads a little-endian word, advancing the cursor.
pub fn read_u64_le(buf: &Vec<u8>, pos: &mut usize) -> (r: Result<u64, VmmError>)
    ensures
        match sp_u64(buf@, *old(pos) as int) {
            Ok((x, p)) => r == Ok::<u64, VmmError>(x) && *final(pos) == p,
            Err(e) => r == Err::<u64, VmmError>(e) && *final(pos) == *old(pos),
        },
{
    if *pos > buf.len() || buf.len() - *pos < 8 {
        return Err(VmmError::TruncatedInput);
    }
    let p = *pos;
    let x = (buf[p] as u64)
        | ((buf[p + 1] as u64) << 8)
        | ((buf[p + 2] as u64) << 16)
        | ((buf[p + 3] as u64) << 24)
        | ((buf[p + 4] as u64) << 32)
        | ((buf[p + 5] as u64) << 40)
        | ((buf[p + 6] as u64) << 48)
        | ((buf[p + 7] as u64) << 56);
    *pos = p + 8;
    proof {
        let sub = buf@.subrange(p as int, p + 8);
        assert(sub[0] == buf@[p as int]);
        assert(sub[1] == buf@[p + 1]);
        assert(sub[2] == buf@[p + 2]);
        assert(sub[3] == buf@[p + 3]);
        assert(sub[4] == buf@[p + 4]);
        assert(sub[5] == buf@[p + 5]);
        assert(sub[6] == buf@[p + 6]);
        assert(sub[7] == buf@[p + 7]);
    }
    Ok(x)
}

/// Reads a little-endian half word, advancing the cursor.
pub fn read_u16_le(buf: &Vec<u8>, pos: &mut usize) -> (r: Result<u16, VmmError>)
    ensures
        match sp_u16(buf@, *old(pos) as int) {
            Ok((x, p)) => r == Ok::<u16, VmmError>(x) && *final(pos) == p,
            Err(e) => r == Err::<u16, VmmError>(e) && *final(pos) == *old(pos),
        },
{
    if *pos > buf.len() || buf.len() - *pos < 2 {
        return Err(VmmError::TruncatedInput);
    }
    let p = *pos;
    let x = (buf[p] as u16) | ((buf[p + 1] as u16) << 8);
    *pos = p + 2;
    proof {
        let sub = buf@.subrange(p as int, p + 2);
        assert(sub[0] == buf@[p as int]);
        assert(sub[1] == buf@[p + 1]);
    }
    Ok(x)
}

/// Reads a single-byte boolean, advancing the cursor.
pub fn read_bool(buf: &Vec<u8>, pos: &mut usize) -> (r: Result<bool, VmmError>)
    ensures
        match sp_bool(buf@, *old(pos) as int) {
            Ok((x, p)) => r == Ok::<bool, VmmError>(x) && *final(pos) == p,
            Err(e) => r == Err::<bool, VmmError>(e) && *final(pos) == *old(pos),
        },
{
    if *pos >= buf.len() {
        return Err(VmmError::TruncatedInput);
    }
    let b = buf[*pos];
    if b == 0 {
        *pos = *pos + 1;
        Ok(false)
    } else if b == 1 {
        *pos = *pos + 1;
        Ok(true)
    } else {
        Err(VmmError::MalformedInput)
    }
}

/// Reads a length-prefixed byte array, advancing the cursor.
pub fn read_byte_vec(buf: &Vec<u8>, pos: &mut usize) -> (r: Result<Vec<u8>, VmmError>)
    ensures
        match sp_bytes(buf@, *old(pos) as int) {
            Ok((x, p)) => r matches Ok(v) && v@ == x && *final(pos) == p,
            Err(e) => r matches Err(e2) && e2 == e,
        },
{
    let n64 = read_u64_le(buf, pos)?;
    if n64 > usize::MAX as u64 {
        return Err(VmmError::MalformedInput);
    }
    let n = n64 as usize;
    if *pos > buf.len() || buf.len() - *pos < n {
        return Err(VmmError::TruncatedInput);
    }
    let start = *pos;
    let mut v: Vec<u8> = Vec::new();
    let mut k: usize = 0;
    while k < n
        invariant
            k <= n,
            start + n <= buf@.len(),
            buf@.len() == buf.len(),
            v@ == buf@.subrange(start as int, start + k),
        decreases n - k,
    {
        v.push(buf[start + k]);
        proof {
            assert(buf@.subrange(start as int, start + k + 1)
                =~= buf@.subrange(start as int, start + k).push(buf@[start + k]));
        }
        k = k + 1;
    }
    *pos = start + n;
    Ok(v)
}

/// Reads a length-prefixed array of little-endian words, advancing the
/// cursor.
pub fn read_u64_vec(buf: &Vec<u8>, pos: &mut usize) -> (r: Result<Vec<u64>, VmmError>)
    ensures
        match sp_u64s(buf@, *old(pos) as int) {
            Ok((x, p)) => r matches Ok(v) && v@ == x && *final(pos) == p,
            Err(e) => r matches Err(e2) && e2 == e,
        },
{
    let n64 = read_u64_le(buf, pos)?;
    if n64 > usize::MAX as u64 {
        return Err(VmmError::MalformedInput);
    }
    let n = n64 as usize;
    // Dividing the remaining length rather than multiplying the count keeps
    // the bound check free of overflow.
    if *pos > buf.len() || (buf.len() - *pos) / 8 < n {
        return Err(VmmError::TruncatedInput);
    }
    let start = *pos;
    let ghost target = Seq::new(n as nat,
        |k: int| u64_of_le(buf@.subrange(start + 8 * k, start + 8 * k + 8)));
    let mut v: Vec<u64> = Vec::new();
    let mut k: usize = 0;
    while k < n
        invariant
            k <= n,
            start + 8 * n <= buf@.len(),
            *pos == start + 8 * k,
            target =~= Seq::new(n as nat,
                |j: int| u64_of_le(buf@.subrange(start + 8 * j, start + 8 * j + 8))),
            v@ == target.take(k as int),
        decreases n - k,
    {
        let x = match read_u64_le(buf, pos) {
            Ok(x) => x,
            Err(_) => {
                proof { assert(false); }
                0
            },
        };
        v.push(x);
        proof {
            assert(target.take(k + 1) =~= target.take(k as int).push(target[k as int]));
        }
        k = k + 1;
    }
    proof {
        assert(v@ =~= target);
    }
    Ok(v)
}

} // verus!
