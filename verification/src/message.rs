//! The migration message and its wire codec.
//!
//! Every pre-copy iteration past the first ships one `MigrationMessage`:
//! the dirty page indices, the concatenated page bytes in the same order,
//! the path of the CPU-state blob once one has been captured, and the
//! terminator flag. The encoding is self-describing: little-endian
//! integers, length-prefixed byte arrays and strings, single-byte
//! booleans, in field order.

use vstd::prelude::*;
use vstd::utf8::{decode_utf8, encode_utf8, valid_utf8};
use crate::codec::{
    bool_byte, enc_bytes, enc_u64s, push_bool, push_byte_vec, push_raw, push_u64_le,
    push_u64_vec, read_bool, read_byte_vec, read_u64_le, read_u64_vec, sp_bool, sp_bytes,
    sp_u64, sp_u64s, u64_le, u64s_bytes,
};
use crate::errors::VmmError;
use crate::text::{bytes_to_string, string_bytes};

verus! {

/// One iteration's shipment of dirty pages, plus migration control flags.
pub struct MigrationMessage {
    /// Concatenation of exactly `dirty_pages_len` page-sized slices, in the
    /// order of `dirty_pages`.
    pub data: Vec<u8>,
    /// Byte length of `data`, repeated on the wire.
    pub data_len: usize,
    /// Guest page indices shipped in this iteration.
    pub dirty_pages: Vec<u64>,
    /// Count of `dirty_pages`, repeated on the wire.
    pub dirty_pages_len: usize,
    /// Path of the CPU-state blob; empty until one has been captured.
    pub cpu_state_file_path: String,
    /// Set on the final stop-and-copy message.
    pub is_last: bool,
    /// Set on a message that opens a migration.
    pub init_migration: bool,
}

/// The mathematical content of a message: each field as a sequence or
/// scalar.
#[verifier::ext_equal]
pub struct MessageModel {
    pub data: Seq<u8>,
    pub data_len: u64,
    pub dirty_pages: Seq<u64>,
    pub dirty_pages_len: u64,
    pub cpu_state_file_path: Seq<char>,
    pub is_last: bool,
    pub init_migration: bool,
}

impl MigrationMessage {
    /// The model of this message.
    pub open spec fn model(self) -> MessageModel {
        MessageModel {
            data: self.data@,
            data_len: self.data_len as u64,
            dirty_pages: self.dirty_pages@,
            dirty_pages_len: self.dirty_pages_len as u64,
            cpu_state_file_path: self.cpu_state_file_path@,
            is_last: self.is_last,
            init_migration: self.init_migration,
        }
    }
}

impl MessageModel {
    /// A model the executable codec can represent: lengths fit the machine.
    pub open spec fn wf(self) -> bool {
        &&& self.data.len() <= usize::MAX
        &&& self.dirty_pages.len() <= usize::MAX
        &&& encode_utf8(self.cpu_state_file_path).len() <= usize::MAX
        &&& self.data_len <= usize::MAX
        &&& self.dirty_pages_len <= usize::MAX
    }
}

/// The wire bytes of a message: its fields encoded in order.
pub open spec fn enc_message(x: MessageModel) -> Seq<u8> {
    enc_bytes(x.data) + u64_le(x.data_len) + enc_u64s(x.dirty_pages) + u64_le(x.dirty_pages_len)
        + enc_bytes(encode_utf8(x.cpu_state_file_path)) + seq![bool_byte(x.is_last)]
        + seq![bool_byte(x.init_migration)]
}

/// Parse a whole buffer as a message: fields in order, nothing left over,
/// the path valid UTF-8, every length within the machine.
pub open spec fn sp_message(b: Seq<u8>) -> Result<MessageModel, VmmError> {
    match sp_bytes(b, 0) {
        Ok((data, p1)) => match sp_u64(b, p1) {
            Ok((data_len, p2)) => {
                if data_len > usize::MAX as u64 {
                    Err(VmmError::MalformedInput)
                } else {
                    match sp_u64s(b, p2) {
                        Ok((pages, p3)) => match sp_u64(b, p3) {
                            Ok((pages_len, p4)) => {
                                if pages_len > usize::MAX as u64 {
                                    Err(VmmError::MalformedInput)
                                } else {
                                    match sp_bytes(b, p4) {
                                        Ok((path_bytes, p5)) => {
                                            if !valid_utf8(path_bytes) {
                                                Err(VmmError::InvalidUtf8)
                                            } else {
                                                match sp_bool(b, p5) {
                                                    Ok((last, p6)) => match sp_bool(b, p6) {
                                                        Ok((init, p7)) => {
                                                            if p7 != b.len() {
                                                                Err(VmmError::MalformedInput)
                                                            } else {
                                                                Ok(MessageModel {
                                                                    data: data,
                                                                    data_len: data_len,
                                                                    dirty_pages: pages,
                                                                    dirty_pages_len: pages_len,
                                                                    cpu_state_file_path:
                                                                        decode_utf8(path_bytes),
                                                                    is_last: last,
                                                                    init_migration: init,
                                                                })
                                                            }
                                                        },
                                                        Err(e) => Err(e),
                                                    },
                                                    Err(e) => Err(e),
                                                }
                                            }
                                        },
                                        Err(e) => Err(e),
                                    }
                                }
                            },
                            Err(e) => Err(e),
                        },
                        Err(e) => Err(e),
                    }
                }
            },
            Err(e) => Err(e),
        },
        Err(e) => Err(e),
    }
}

/// Encodes a message for the wire.
pub fn encode_migration_message(m: &MigrationMessage) -> (r: Vec<u8>)
    ensures
        r@ == enc_message(m.model()),
        m.model().wf(),
{
    let mut out: Vec<u8> = Vec::new();
    push_byte_vec(&mut out, &m.data);
    push_u64_le(&mut out, m.data_len as u64);
    push_u64_vec(&mut out, &m.dirty_pages);
    push_u64_le(&mut out, m.dirty_pages_len as u64);
    let path_bytes = string_bytes(&m.cpu_state_file_path);
    push_byte_vec(&mut out, &path_bytes);
    push_bool(&mut out, m.is_last);
    push_bool(&mut out, m.init_migration);
    proof {
        assert(out@ =~= enc_message(m.model()));
        assert(m.data.len() == m.data@.len());
        assert(m.dirty_pages.len() == m.dirty_pages@.len());
        assert(path_bytes.len() == path_bytes@.len());
    }
    out
}

/// Decodes a wire buffer into a message; the exact conditions for each
/// outcome are those of `sp_message`.
pub fn decode_migration_message(buf: &Vec<u8>) -> (r: Result<MigrationMessage, VmmError>)
    ensures
        match sp_message(buf@) {
            Ok(x) => r matches Ok(m) && m.model() == x,
            Err(e) => r matches Err(e2) && e2 == e,
        },
{
    let mut pos: usize = 0;
    let data = read_byte_vec(buf, &mut pos)?;
    let data_len64 = read_u64_le(buf, &mut pos)?;
    if data_len64 > usize::MAX as u64 {
        return Err(VmmError::MalformedInput);
    }
    let dirty_pages = read_u64_vec(buf, &mut pos)?;
    let pages_len64 = read_u64_le(buf, &mut pos)?;
    if pages_len64 > usize::MAX as u64 {
        return Err(VmmError::MalformedInput);
    }
    let path_bytes = read_byte_vec(buf, &mut pos)?;
    let path = match bytes_to_string(&path_bytes) {
        Some(s) => s,
        None => {
            return Err(VmmError::InvalidUtf8);
        },
    };
    let is_last = read_bool(buf, &mut pos)?;
    let init_migration = read_bool(buf, &mut pos)?;
    if pos != buf.len() {
        return Err(VmmError::MalformedInput);
    }
    proof {
        vstd::utf8::encode_utf8_decode_utf8(path@);
    }
    let m = MigrationMessage {
        data: data,
        data_len: data_len64 as usize,
        dirty_pages: dirty_pages,
        dirty_pages_len: pages_len64 as usize,
        cpu_state_file_path: path,
        is_last: is_last,
        init_migration: init_migration,
    };
    proof {
        assert(m.model() =~= sp_message(buf@).unwrap());
    }
    Ok(m)
}

/// Decoding inverts encoding: a message that goes out comes back whole.
///
/// Together with the codec contracts above, this says that for any message
/// the receiver decodes the sender's bytes to a message with the same
/// fields.
#[verifier::rlimit(100)]
#[verifier::spinoff_prover]
pub proof fn lemma_message_round_trip(x: MessageModel)
    requires
        x.wf(),
    ensures
        sp_message(enc_message(x)) == Ok::<MessageModel, VmmError>(x),
{
    let s1 = enc_bytes(x.data);
    let s2 = u64_le(x.data_len);
    let s3 = enc_u64s(x.dirty_pages);
    let s4 = u64_le(x.dirty_pages_len);
    let path_bytes = encode_utf8(x.cpu_state_file_path);
    let s5 = enc_bytes(path_bytes);
    let s6 = seq![bool_byte(x.is_last)];
    let s7 = seq![bool_byte(x.init_migration)];
    let b = enc_message(x);
    assert(b =~= s1 + s2 + s3 + s4 + s5 + s6 + s7);
    crate::codec::lemma_u64s_bytes_len(x.dirty_pages);
    let o1 = s1.len() as int;
    let o2 = o1 + 8;
    let o3 = o2 + s3.len();
    let o4 = o3 + 8;
    let o5 = o4 + s5.len();
    let o6 = o5 + 1;
    let o7 = o6 + 1;
    assert(b.len() == o7);

    // Field 1: data.
    assert(b.subrange(0, 8) =~= u64_le(x.data.len() as u64));
    crate::codec::lemma_u64_le_round_trip(x.data.len() as u64);
    assert(b.subrange(8, o1) =~= x.data);
    assert(sp_bytes(b, 0) == Ok::<_, VmmError>((x.data, o1)));

    // Field 2: data_len.
    assert(b.subrange(o1, o2) =~= u64_le(x.data_len));
    crate::codec::lemma_u64_le_round_trip(x.data_len);
    assert(sp_u64(b, o1) == Ok::<_, VmmError>((x.data_len, o2)));

    // Field 3: dirty_pages.
    assert(b.subrange(o2, o2 + 8) =~= u64_le(x.dirty_pages.len() as u64));
    crate::codec::lemma_u64_le_round_trip(x.dirty_pages.len() as u64);
    let pstart = o2 + 8;
    assert(b.subrange(pstart, o3) =~= u64s_bytes(x.dirty_pages));
    assert forall|k: int| 0 <= k < x.dirty_pages.len()
        implies u64_of_le_at(b, pstart + 8 * k) == x.dirty_pages[k] by {
        crate::codec::lemma_u64s_bytes_index(x.dirty_pages, k);
        assert(b.subrange(pstart + 8 * k, pstart + 8 * k + 8)
            =~= u64s_bytes(x.dirty_pages).subrange(8 * k, 8 * k + 8));
        crate::codec::lemma_u64_le_round_trip(x.dirty_pages[k]);
    }
    assert(sp_u64s(b, o2) matches Ok((v, p)) && p == o3 && v =~= x.dirty_pages);

    // Field 4: dirty_pages_len.
    assert(b.subrange(o3, o4) =~= u64_le(x.dirty_pages_len));
    crate::codec::lemma_u64_le_round_trip(x.dirty_pages_len);
    assert(sp_u64(b, o3) == Ok::<_, VmmError>((x.dirty_pages_len, o4)));

    // Field 5: the path.
    assert(b.subrange(o4, o4 + 8) =~= u64_le(path_bytes.len() as u64));
    crate::codec::lemma_u64_le_round_trip(path_bytes.len() as u64);
    assert(b.subrange(o4 + 8, o5) =~= path_bytes);
    assert(sp_bytes(b, o4) == Ok::<_, VmmError>((path_bytes, o5)));
    vstd::utf8::encode_utf8_valid_utf8(x.cpu_state_file_path);
    vstd::utf8::encode_utf8_decode_utf8(x.cpu_state_file_path);

    // Fields 6 and 7: the flags.
    assert(b[o5] == bool_byte(x.is_last));
    assert(b[o6] == bool_byte(x.init_migration));
    assert(sp_bool(b, o5) == Ok::<_, VmmError>((x.is_last, o6)));
    assert(sp_bool(b, o6) == Ok::<_, VmmError>((x.init_migration, o7)));

    assert(sp_message(b) matches Ok(y) && y =~= x);
}

/// The word parsed at `pos`, as a plain value.
pub open spec fn u64_of_le_at(b: Seq<u8>, pos: int) -> u64 {
    crate::codec::u64_of_le(b.subrange(pos, pos + 8))
}

/// The parser accepts only canonical encodings: a buffer it parses is the
/// encoding of the message it returns, so no two distinct buffers decode
/// to equal messages and nothing else is accepted.
#[verifier::rlimit(100)]
pub proof fn lemma_message_decode_canonical(b: Seq<u8>)
    requires
        sp_message(b) is Ok,
    ensures
        sp_message(b) matches Ok(x) && enc_message(x) == b && x.wf(),
{
    let x = sp_message(b)->Ok_0;
    let (data, p1) = sp_bytes(b, 0)->Ok_0;
    let (data_len, p2) = sp_u64(b, p1)->Ok_0;
    let (pages, p3) = sp_u64s(b, p2)->Ok_0;
    let (pages_len, p4) = sp_u64(b, p3)->Ok_0;
    let (path_bytes, p5) = sp_bytes(b, p4)->Ok_0;
    let (last, p6) = sp_bool(b, p5)->Ok_0;
    let (init, p7) = sp_bool(b, p6)->Ok_0;

    // Field 1: the data array re-encodes to its region.
    crate::codec::lemma_u64_of_le_round_trip(b.subrange(0, 8));
    assert(enc_bytes(data) =~= b.subrange(0, p1));

    // Field 2: data_len.
    crate::codec::lemma_u64_of_le_round_trip(b.subrange(p1, p2));
    assert(u64_le(data_len) == b.subrange(p1, p2));

    // Field 3: the dirty pages.
    crate::codec::lemma_u64_of_le_round_trip(b.subrange(p2, p2 + 8));
    crate::codec::lemma_u64s_bytes_of_blocks(b, p2 + 8, pages.len());
    crate::codec::lemma_u64s_bytes_len(pages);
    assert(enc_u64s(pages) =~= b.subrange(p2, p3));

    // Field 4: dirty_pages_len.
    crate::codec::lemma_u64_of_le_round_trip(b.subrange(p3, p4));
    assert(u64_le(pages_len) == b.subrange(p3, p4));

    // Field 5: the path round-trips through UTF-8.
    vstd::utf8::decode_utf8_encode_utf8(path_bytes);
    assert(encode_utf8(x.cpu_state_file_path) == path_bytes);
    crate::codec::lemma_u64_of_le_round_trip(b.subrange(p4, p4 + 8));
    assert(enc_bytes(path_bytes) =~= b.subrange(p4, p5));

    // Fields 6 and 7: the flag bytes.
    assert(seq![bool_byte(last)] =~= b.subrange(p5, p6));
    assert(seq![bool_byte(init)] =~= b.subrange(p6, p7));

    assert(enc_message(x) =~= b.subrange(0, p1) + b.subrange(p1, p2) + b.subrange(p2, p3)
        + b.subrange(p3, p4) + b.subrange(p4, p5) + b.subrange(p5, p6) + b.subrange(p6, p7));
    assert(enc_message(x) =~= b);
}

/// Builds the message of one dirty pass: the payload, its page indices,
/// the CPU-state path so far, and the terminator flag, with both length
/// fields filled from their arrays.
pub fn build_migration_message(data: Vec<u8>, dirty_pages: Vec<u64>, cpu_state_file_path: String,
    is_last: bool) -> (m: MigrationMessage)
    ensures
        m.data@ == data@,
        m.data_len == data@.len(),
        m.dirty_pages@ == dirty_pages@,
        m.dirty_pages_len == dirty_pages@.len(),
        m.cpu_state_file_path@ == cpu_state_file_path@,
        m.is_last == is_last,
        !m.init_migration,
{
    let data_len = data.len();
    let dirty_pages_len = dirty_pages.len();
    MigrationMessage {
        data,
        data_len,
        dirty_pages,
        dirty_pages_len,
        cpu_state_file_path,
        is_last,
        init_migration: false,
    }
}

/// Frames a body for the stream: its length as a little-endian word, then
/// the body.
pub fn frame_body(body: &Vec<u8>) -> (r: Vec<u8>)
    ensures
        r@ == u64_le(body@.len() as u64) + body@,
{
    let mut out: Vec<u8> = Vec::new();
    push_u64_le(&mut out, body.len() as u64);
    push_raw(&mut out, body);
    proof {
        assert(out@ =~= u64_le(body@.len() as u64) + body@);
    }
    out
}

/// Takes one whole frame apart: the advertised length, then exactly that
/// many body bytes. A buffer shorter than its advertised length is
/// truncated input; one longer is malformed.
pub fn unframe_body(buf: &Vec<u8>) -> (r: Result<Vec<u8>, VmmError>)
    ensures
        match sp_bytes(buf@, 0) {
            Ok((body, p)) => {
                if p == buf@.len() {
                    r matches Ok(v) && v@ == body
                } else {
                    r matches Err(e) && e == VmmError::MalformedInput
                }
            },
            Err(e) => r matches Err(e2) && e2 == e,
        },
{
    let mut pos: usize = 0;
    let body = read_byte_vec(buf, &mut pos)?;
    if pos != buf.len() {
        return Err(VmmError::MalformedInput);
    }
    Ok(body)
}

} // verus!
