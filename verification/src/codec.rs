//! Fixed-capacity serialization of receipt records.
//!
//! A record is stored in a cell of exactly [`RECORD_SIZE`] bytes regardless
//! of the actual field lengths: a fixed eight-byte header, then each bounded
//! field as a four-byte little-endian length prefix followed by its bytes,
//! zero-padded to the field's maximum, with the fixed-size identities and the
//! timestamp laid out in between. Decoding rejects a cell whose recorded
//! length exceeds a field's maximum.

use vstd::bytes::{
    lemma_auto_spec_u32_to_from_le_bytes, lemma_auto_spec_u64_to_from_le_bytes,
    spec_u32_from_le_bytes, spec_u32_to_le_bytes, spec_u64_from_le_bytes, spec_u64_to_le_bytes,
    u32_from_le_bytes, u64_from_le_bytes,
};
use vstd::assert_seqs_equal;
use vstd::prelude::*;
use vstd::slice::{slice_subrange, slice_to_vec};

use crate::record::{
    ReceiptRecord, RecordView, IDENTITY_LEN, MAX_JOB_ID_LEN, MAX_RECEIPT_HASH_LEN,
};

verus! {

/// Length in bytes of the fixed header that opens every cell.
pub const HEADER_LEN: usize = 8;

/// Offset of the job identifier's length prefix.
pub const JOB_LEN_OFFSET: usize = 8;

/// Offset of the job identifier's (zero-padded) bytes.
pub const JOB_OFFSET: usize = 12;

/// Offset of the executor identity.
pub const EXECUTOR_OFFSET: usize = 76;

/// Offset of the receipt fingerprint's length prefix.
pub const HASH_LEN_OFFSET: usize = 108;

/// Offset of the receipt fingerprint's (zero-padded) bytes.
pub const HASH_OFFSET: usize = 112;

/// Offset of the completion timestamp.
pub const COMPLETED_AT_OFFSET: usize = 176;

/// Offset of the anchoring party's identity.
pub const ANCHOR_OFFSET: usize = 184;

/// Total size in bytes of a serialized record cell: header, length-prefixed
/// job identifier and receipt fingerprint each padded to 64 bytes, two
/// 32-byte identities, and an 8-byte timestamp.
pub const RECORD_SIZE: usize = 8 + (4 + 64) + 32 + (4 + 64) + 8 + 32;

/// The fixed eight-byte header: the bytes of `"RECEIPT"` and a version byte.
pub open spec fn spec_header() -> Seq<u8> {
    seq![0x52u8, 0x45u8, 0x43u8, 0x45u8, 0x49u8, 0x50u8, 0x54u8, 0x01u8]
}

/// A run of `n` zero bytes, the padding of a bounded field's unused capacity.
pub open spec fn spec_zeros(n: int) -> Seq<u8> {
    Seq::new(n as nat, |i: int| 0u8)
}

/// The serialized form of a record (meaningful when the record is valid).
pub open spec fn spec_encode(r: RecordView) -> Seq<u8> {
    spec_header() + spec_u32_to_le_bytes(r.job_id.len() as u32) + r.job_id + spec_zeros(
        MAX_JOB_ID_LEN - r.job_id.len(),
    ) + r.executor_identity + spec_u32_to_le_bytes(r.receipt_hash.len() as u32) + r.receipt_hash
        + spec_zeros(MAX_RECEIPT_HASH_LEN - r.receipt_hash.len()) + spec_u64_to_le_bytes(
        r.completed_at as u64,
    ) + r.anchor_identity
}

/// The record a cell holds, or `None` for a cell of the wrong size, with the
/// wrong header, or whose recorded field length exceeds that field's maximum.
pub open spec fn spec_decode(b: Seq<u8>) -> Option<RecordView> {
    if b.len() != RECORD_SIZE {
        None
    } else if b.subrange(0, HEADER_LEN as int) != spec_header() {
        None
    } else {
        let job_len = spec_u32_from_le_bytes(
            b.subrange(JOB_LEN_OFFSET as int, JOB_OFFSET as int),
        ) as int;
        let hash_len = spec_u32_from_le_bytes(
            b.subrange(HASH_LEN_OFFSET as int, HASH_OFFSET as int),
        ) as int;
        if job_len > MAX_JOB_ID_LEN || hash_len > MAX_RECEIPT_HASH_LEN {
            None
        } else {
            Some(
                (RecordView {
                    job_id: b.subrange(JOB_OFFSET as int, JOB_OFFSET + job_len),
                    executor_identity: b.subrange(EXECUTOR_OFFSET as int, HASH_LEN_OFFSET as int),
                    receipt_hash: b.subrange(HASH_OFFSET as int, HASH_OFFSET + hash_len),
                    completed_at: spec_u64_from_le_bytes(
                        b.subrange(COMPLETED_AT_OFFSET as int, ANCHOR_OFFSET as int),
                    ) as i64,
                    anchor_identity: b.subrange(ANCHOR_OFFSET as int, RECORD_SIZE as int),
                }),
            )
        }
    }
}

/// Round trip: decoding the encoding of any valid record yields that record.
pub proof fn lemma_codec_round_trip(r: RecordView)
    requires
        r.valid(),
    ensures
        spec_decode(spec_encode(r)) == Some(r),
{
    lemma_auto_spec_u32_to_from_le_bytes();
    lemma_auto_spec_u64_to_from_le_bytes();
    let b = spec_encode(r);
    let job_len = r.job_id.len() as int;
    let hash_len = r.receipt_hash.len() as int;
    assert(b.len() == RECORD_SIZE);
    assert_seqs_equal!(b.subrange(0, 8) == spec_header());
    assert_seqs_equal!(b.subrange(8, 12) == spec_u32_to_le_bytes(r.job_id.len() as u32));
    assert_seqs_equal!(
        b.subrange(108, 112) == spec_u32_to_le_bytes(r.receipt_hash.len() as u32)
    );
    assert_seqs_equal!(b.subrange(12, 12 + job_len) == r.job_id);
    assert_seqs_equal!(b.subrange(76, 108) == r.executor_identity);
    assert_seqs_equal!(b.subrange(112, 112 + hash_len) == r.receipt_hash);
    assert_seqs_equal!(b.subrange(176, 184) == spec_u64_to_le_bytes(r.completed_at as u64));
    assert_seqs_equal!(b.subrange(184, 216) == r.anchor_identity);
    let t = r.completed_at;
    assert(((t as u64) as i64) == t) by (bit_vector);
    assert(spec_decode(b) is Some);
    assert(spec_decode(b).unwrap() =~= r);
}

/// Append every byte of `src` to `out`.
fn push_bytes(out: &mut Vec<u8>, src: &Vec<u8>)
    ensures
        final(out)@ == old(out)@ + src@,
{
    let ghost orig: Seq<u8> = out@;
    let mut i: usize = 0;
    proof {
        assert(out@ =~= orig + src@.subrange(0, 0));
    }
    while i < src.len()
        invariant
            i <= src@.len(),
            out@ == orig + src@.subrange(0, i as int),
        decreases src@.len() - i,
    {
        out.push(src[i]);
        i += 1;
        proof {
            assert(out@ =~= orig + src@.subrange(0, i as int));
        }
    }
    proof {
        assert(src@.subrange(0, src@.len() as int) =~= src@);
    }
}

/// Append `n` zero bytes to `out`.
fn push_zeros(out: &mut Vec<u8>, n: usize)
    ensures
        final(out)@ == old(out)@ + spec_zeros(n as int),
{
    let ghost orig: Seq<u8> = out@;
    let mut i: usize = 0;
    proof {
        assert(out@ =~= orig + spec_zeros(0));
    }
    while i < n
        invariant
            i <= n,
            out@ == orig + spec_zeros(i as int),
        decreases n - i,
    {
        out.push(0);
        i += 1;
        proof {
            assert(out@ =~= orig + spec_zeros(i as int));
        }
    }
}

/// Append the four-byte little-endian encoding of `x` to `out`.
fn push_u32_le(out: &mut Vec<u8>, x: u32)
    ensures
        final(out)@ == old(out)@ + spec_u32_to_le_bytes(x),
{
    let bytes = vstd::bytes::u32_to_le_bytes(x);
    push_bytes(out, &bytes);
}

/// Append the eight-byte little-endian encoding of `x` to `out`.
fn push_u64_le(out: &mut Vec<u8>, x: u64)
    ensures
        final(out)@ == old(out)@ + spec_u64_to_le_bytes(x),
{
    let bytes = vstd::bytes::u64_to_le_bytes(x);
    push_bytes(out, &bytes);
}

/// The fixed header as a byte vector.
fn header_bytes() -> (h: Vec<u8>)
    ensures
        h@ == spec_header(),
{
    let mut h: Vec<u8> = Vec::new();
    h.push(0x52);
    h.push(0x45);
    h.push(0x43);
    h.push(0x45);
    h.push(0x49);
    h.push(0x50);
    h.push(0x54);
    h.push(0x01);
    proof {
        assert(h@ =~= spec_header());
    }
    h
}

/// Serialize a valid record into a cell of exactly [`RECORD_SIZE`] bytes,
/// reserving each bounded field's maximum capacity regardless of its actual
/// length.
pub fn encode_record(r: &ReceiptRecord) -> (out: Vec<u8>)
    requires
        r@.valid(),
    ensures
        out@ == spec_encode(r@),
        out@.len() == RECORD_SIZE,
{
    let mut out: Vec<u8> = Vec::new();
    let header = header_bytes();
    push_bytes(&mut out, &header);
    push_u32_le(&mut out, r.job_id.len() as u32);
    push_bytes(&mut out, &r.job_id);
    push_zeros(&mut out, MAX_JOB_ID_LEN - r.job_id.len());
    push_bytes(&mut out, &r.executor_identity);
    push_u32_le(&mut out, r.receipt_hash.len() as u32);
    push_bytes(&mut out, &r.receipt_hash);
    push_zeros(&mut out, MAX_RECEIPT_HASH_LEN - r.receipt_hash.len());
    push_u64_le(&mut out, #[verifier::truncate] (r.completed_at as u64));
    push_bytes(&mut out, &r.anchor_identity);
    proof {
        lemma_auto_spec_u32_to_from_le_bytes();
        lemma_auto_spec_u64_to_from_le_bytes();
        assert(out@ =~= spec_encode(r@));
    }
    out
}

/// Read the four-byte little-endian integer at `off`.
fn read_u32_le(b: &Vec<u8>, off: usize) -> (x: u32)
    requires
        off + 4 <= b@.len(),
    ensures
        x == spec_u32_from_le_bytes(b@.subrange(off as int, off as int + 4)),
{
    // The executable length bounds b@.len() by usize, so off + 4 cannot overflow.
    let _n = b.len();
    let s = slice_subrange(b.as_slice(), off, off + 4);
    u32_from_le_bytes(s)
}

/// Read the eight-byte little-endian integer at `off`.
fn read_u64_le(b: &Vec<u8>, off: usize) -> (x: u64)
    requires
        off + 8 <= b@.len(),
    ensures
        x == spec_u64_from_le_bytes(b@.subrange(off as int, off as int + 8)),
{
    // The executable length bounds b@.len() by usize, so off + 8 cannot overflow.
    let _n = b.len();
    let s = slice_subrange(b.as_slice(), off, off + 8);
    u64_from_le_bytes(s)
}

/// Copy `len` bytes of `b` starting at `off` into a fresh vector.
fn copy_range(b: &Vec<u8>, off: usize, len: usize) -> (out: Vec<u8>)
    requires
        off + len <= b@.len(),
    ensures
        out@ == b@.subrange(off as int, off as int + len as int),
{
    // The executable length bounds b@.len() by usize, so off + len cannot overflow.
    let _n = b.len();
    slice_to_vec(slice_subrange(b.as_slice(), off, off + len))
}

/// Deserialize a cell back into a record, or `None` for a cell that is not a
/// well-formed encoding: wrong size, wrong header, or a recorded field length
/// above that field's maximum.
pub fn decode_record(cell: &Vec<u8>) -> (r: Option<ReceiptRecord>)
    ensures
        match r {
            Some(rec) => spec_decode(cell@) == Some(rec@) && rec@.valid(),
            None => spec_decode(cell@) is None,
        },
{
    if cell.len() != RECORD_SIZE {
        return None;
    }
    let header = header_bytes();
    let mut i: usize = 0;
    while i < HEADER_LEN
        invariant
            i <= HEADER_LEN,
            cell@.len() == RECORD_SIZE,
            header@ == spec_header(),
            forall|k: int| 0 <= k < i ==> cell@[k] == spec_header()[k],
        decreases HEADER_LEN - i,
    {
        if cell[i] != header[i] {
            proof {
                assert(cell@.subrange(0, HEADER_LEN as int)[i as int] != spec_header()[i as int]);
            }
            return None;
        }
        i += 1;
    }
    proof {
        assert_seqs_equal!(cell@.subrange(0, 8) == spec_header());
    }
    let job_len = read_u32_le(cell, JOB_LEN_OFFSET);
    if job_len > 64 {
        return None;
    }
    let hash_len = read_u32_le(cell, HASH_LEN_OFFSET);
    if hash_len > 64 {
        return None;
    }
    let job_id = copy_range(cell, JOB_OFFSET, job_len as usize);
    let executor_identity = copy_range(cell, EXECUTOR_OFFSET, IDENTITY_LEN);
    let receipt_hash = copy_range(cell, HASH_OFFSET, hash_len as usize);
    let bits = read_u64_le(cell, COMPLETED_AT_OFFSET);
    let completed_at = #[verifier::truncate] (bits as i64);
    let anchor_identity = copy_range(cell, ANCHOR_OFFSET, IDENTITY_LEN);
    let rec = ReceiptRecord { job_id, executor_identity, receipt_hash, completed_at, anchor_identity };
    proof {
        assert(spec_decode(cell@) is Some);
        assert(rec@ =~= spec_decode(cell@).unwrap());
    }
    Some(rec)
}

} // verus!
