//! The record store: an append-only keyed store with strict write-once
//! insertion. A record is committed at the address derived from its job
//! identifier, only if no record exists there yet; field lengths are
//! validated before any mutation, and every failure leaves the store exactly
//! as it was.

use vstd::prelude::*;

use crate::address::{derive_address, receipt_tag, spec_receipt_address};
use crate::codec::{decode_record, encode_record, spec_decode, spec_encode, RECORD_SIZE};
use crate::record::{
    ReceiptRecord, RecordView, IDENTITY_LEN, MAX_JOB_ID_LEN, MAX_RECEIPT_HASH_LEN,
};

verus! {

/// Why an insertion was rejected. Every failure is reported as a specific
/// kind and leaves the store in its prior state.
#[derive(Clone, Copy, Debug, PartialEq, Eq, Structural)]
pub enum ReceiptError {
    /// The job identifier exceeds 64 bytes.
    JobIdTooLong,
    /// The receipt fingerprint exceeds 64 bytes.
    ReceiptHashTooLong,
    /// A record already exists for this job identifier.
    DuplicateJobId,
}

/// An append-only store of receipt records, keyed by derived address.
///
/// Each committed record occupies a cell of exactly the fixed serialized
/// capacity; addresses are pairwise distinct, so at most one record ever
/// exists per distinct job identifier.
pub struct ReceiptStore {
    records: Vec<([u8; 32], Vec<u8>)>,
}

/// The cell a sequence of (address, cell) entries holds at address `a`.
spec fn seq_cell(entries: Seq<([u8; 32], Vec<u8>)>, a: Seq<u8>) -> Option<Seq<u8>>
    decreases entries.len(),
{
    if entries.len() == 0 {
        None
    } else if entries.last().0@ == a {
        Some(entries.last().1@)
    } else {
        seq_cell(entries.drop_last(), a)
    }
}

/// Addresses of the entries are pairwise distinct.
spec fn distinct_addresses(entries: Seq<([u8; 32], Vec<u8>)>) -> bool {
    forall|i: int, j: int| 0 <= i < j < entries.len() ==> entries[i].0@ != entries[j].0@
}

proof fn lemma_seq_cell_push(entries: Seq<([u8; 32], Vec<u8>)>, e: ([u8; 32], Vec<u8>), a: Seq<u8>)
    ensures
        seq_cell(entries.push(e), a) == if e.0@ == a {
            Some(e.1@)
        } else {
            seq_cell(entries, a)
        },
{
    let p = entries.push(e);
    assert(p.last() == e);
    assert(p.drop_last() =~= entries);
}

proof fn lemma_seq_cell_absent(entries: Seq<([u8; 32], Vec<u8>)>, a: Seq<u8>)
    requires
        forall|i: int| 0 <= i < entries.len() ==> (#[trigger] entries[i]).0@ != a,
    ensures
        seq_cell(entries, a) is None,
    decreases entries.len(),
{
    if entries.len() > 0 {
        assert(entries.last() == entries[entries.len() - 1]);
        assert(forall|i: int|
            0 <= i < entries.drop_last().len() ==> (#[trigger] entries.drop_last()[i])
                == entries[i]);
        lemma_seq_cell_absent(entries.drop_last(), a);
    }
}

proof fn lemma_seq_cell_at_index(entries: Seq<([u8; 32], Vec<u8>)>, a: Seq<u8>, i: int)
    requires
        distinct_addresses(entries),
        0 <= i < entries.len(),
        entries[i].0@ == a,
    ensures
        seq_cell(entries, a) == Some(entries[i].1@),
    decreases entries.len(),
{
    assert(entries.last() == entries[entries.len() - 1]);
    if i < entries.len() - 1 {
        assert(entries[entries.len() - 1].0@ != a);
        assert(forall|k: int|
            0 <= k < entries.drop_last().len() ==> (#[trigger] entries.drop_last()[k])
                == entries[k]);
        lemma_seq_cell_at_index(entries.drop_last(), a, i);
    }
}

proof fn lemma_seq_cell_is_entry(entries: Seq<([u8; 32], Vec<u8>)>, a: Seq<u8>)
    requires
        seq_cell(entries, a) is Some,
    ensures
        exists|i: int|
            0 <= i < entries.len() && (#[trigger] entries[i]).0@ == a && entries[i].1@ == seq_cell(
                entries,
                a,
            ).unwrap(),
    decreases entries.len(),
{
    assert(entries.last() == entries[entries.len() - 1]);
    if entries.last().0@ != a {
        lemma_seq_cell_is_entry(entries.drop_last(), a);
        let i = choose|i: int|
            0 <= i < entries.drop_last().len() && (#[trigger] entries.drop_last()[i]).0@ == a
                && entries.drop_last()[i].1@ == seq_cell(entries.drop_last(), a).unwrap();
        assert(entries[i] == entries.drop_last()[i]);
    }
}

impl ReceiptStore {
    /// The serialized cell committed at each address, if any.
    pub closed spec fn spec_get_cell(self, a: Seq<u8>) -> Option<Seq<u8>> {
        seq_cell(self.records@, a)
    }

    /// The store's contents: the record committed at each address, if any.
    pub open spec fn spec_get(self, a: Seq<u8>) -> Option<RecordView> {
        match self.spec_get_cell(a) {
            Some(cell) => spec_decode(cell),
            None => None,
        }
    }

    /// Well-formedness: every cell is a well-formed encoding of a valid
    /// record, and addresses are pairwise distinct.
    pub closed spec fn wf(self) -> bool {
        &&& distinct_addresses(self.records@)
        &&& forall|i: int|
            0 <= i < self.records@.len() ==> {
                let d = #[trigger] spec_decode(self.records@[i].1@);
                d is Some && d.unwrap().valid()
            }
    }

    /// The condition under which an insertion for `job_id` succeeds: both
    /// bounded fields are within their maxima and no record exists at the
    /// derived address.
    pub open spec fn insert_allowed(self, job_id: Seq<u8>, receipt_hash: Seq<u8>) -> bool {
        &&& job_id.len() <= MAX_JOB_ID_LEN
        &&& receipt_hash.len() <= MAX_RECEIPT_HASH_LEN
        &&& self.spec_get(spec_receipt_address(job_id)) is None
    }

    /// Every record present in `self` is present, unchanged, in `later`:
    /// `later` extends `self` without mutating or deleting anything.
    pub open spec fn extends_to(self, later: ReceiptStore) -> bool {
        forall|a: Seq<u8>|
            (#[trigger] self.spec_get(a)) is Some ==> later.spec_get(a) == self.spec_get(a)
    }

    /// An empty store: well-formed, with no record at any address.
    pub fn new() -> (s: ReceiptStore)
        ensures
            s.wf(),
            forall|a: Seq<u8>| (#[trigger] s.spec_get(a)) is None,
    {
        let s = ReceiptStore { records: Vec::new() };
        proof {
            assert forall|a: Seq<u8>| (#[trigger] s.spec_get(a)) is None by {
                lemma_seq_cell_absent(s.records@, a);
            }
        }
        s
    }

    /// Find the entry stored at `address`, if any.
    fn find_cell(&self, address: &[u8; 32]) -> (r: Option<usize>)
        requires
            self.wf(),
        ensures
            match r {
                Some(i) => i < self.records@.len() && self.records@[i as int].0@ == address@
                    && self.spec_get_cell(address@) == Some(self.records@[i as int].1@),
                None => self.spec_get_cell(address@) is None,
            },
    {
        let n = self.records.len();
        let mut i: usize = 0;
        while i < n
            invariant
                self.wf(),
                n == self.records@.len(),
                i <= n,
                forall|k: int| 0 <= k < i ==> (#[trigger] self.records@[k]).0@ != address@,
            decreases n - i,
        {
            if bytes32_eq(&self.records[i].0, address) {
                proof {
                    lemma_seq_cell_at_index(self.records@, address@, i as int);
                }
                return Some(i);
            }
            i += 1;
        }
        proof {
            lemma_seq_cell_absent(self.records@, address@);
        }
        None
    }

    /// Validate, derive the address, and atomically commit a new record, or
    /// reject without any mutation.
    ///
    /// Exactly one of four outcomes holds: the job identifier is oversized
    /// (`JobIdTooLong`), the fingerprint is oversized (`ReceiptHashTooLong`),
    /// a record already exists at the derived address (`DuplicateJobId`), or
    /// a cell of exactly the fixed serialized capacity is committed there
    /// and its address is returned as the record's handle. Validation
    /// precedes every mutation: on any failure the store is unchanged. Only
    /// the upper length bounds are enforced; empty fields are accepted.
    pub fn insert_receipt(
        &mut self,
        job_id: Vec<u8>,
        receipt_hash: Vec<u8>,
        executor_identity: Vec<u8>,
        completed_at: i64,
        anchor_identity: Vec<u8>,
    ) -> (r: Result<[u8; 32], ReceiptError>)
        requires
            old(self).wf(),
            executor_identity@.len() == IDENTITY_LEN,
            anchor_identity@.len() == IDENTITY_LEN,
        ensures
            final(self).wf(),
            old(self).extends_to(*final(self)),
            r is Ok <==> old(self).insert_allowed(job_id@, receipt_hash@),
            r matches Ok(handle) ==> {
                &&& handle@ == spec_receipt_address(job_id@)
                &&& final(self).spec_get_cell(spec_receipt_address(job_id@)) == Some(
                    spec_encode(RecordView::new(
                        job_id@,
                        executor_identity@,
                        receipt_hash@,
                        completed_at,
                        anchor_identity@,
                    )),
                )
                &&& final(self).spec_get(spec_receipt_address(job_id@)) == Some(
                    RecordView::new(
                        job_id@,
                        executor_identity@,
                        receipt_hash@,
                        completed_at,
                        anchor_identity@,
                    ),
                )
                &&& forall|a: Seq<u8>|
                    a != spec_receipt_address(job_id@) ==> final(self).spec_get_cell(a)
                        == old(self).spec_get_cell(a)
            },
            job_id@.len() > MAX_JOB_ID_LEN ==> r == Err::<[u8; 32], ReceiptError>(
                ReceiptError::JobIdTooLong,
            ) && *final(self) == *old(self),
            job_id@.len() <= MAX_JOB_ID_LEN && receipt_hash@.len() > MAX_RECEIPT_HASH_LEN ==> r
                == Err::<[u8; 32], ReceiptError>(ReceiptError::ReceiptHashTooLong) && *final(self)
                == *old(self),
            job_id@.len() <= MAX_JOB_ID_LEN && receipt_hash@.len() <= MAX_RECEIPT_HASH_LEN && old(
                self,
            ).spec_get(spec_receipt_address(job_id@)) is Some ==> r == Err::<
                [u8; 32],
                ReceiptError,
            >(ReceiptError::DuplicateJobId) && *final(self) == *old(self),
    {
        if job_id.len() > MAX_JOB_ID_LEN {
            return Err(ReceiptError::JobIdTooLong);
        }
        if receipt_hash.len() > MAX_RECEIPT_HASH_LEN {
            return Err(ReceiptError::ReceiptHashTooLong);
        }
        let tag = receipt_tag();
        let address = derive_address(&tag, &job_id);
        if self.find_cell(&address).is_some() {
            return Err(ReceiptError::DuplicateJobId);
        }
        let rec = ReceiptRecord {
            job_id,
            executor_identity,
            receipt_hash,
            completed_at,
            anchor_identity,
        };
        let cell = encode_record(&rec);
        proof {
            crate::codec::lemma_codec_round_trip(rec@);
        }
        let ghost pre = *self;
        self.records.push((address, cell));
        proof {
            let entries = pre.records@;
            let e = (address, cell);
            assert(self.records@ == entries.push(e));
            assert forall|a: Seq<u8>| true implies #[trigger] self.spec_get_cell(a) == if a
                == address@ {
                Some(cell@)
            } else {
                pre.spec_get_cell(a)
            } by {
                lemma_seq_cell_push(entries, e, a);
            }
            assert forall|i: int, j: int|
                0 <= i < j < self.records@.len() implies self.records@[i].0@
                != self.records@[j].0@ by {
                if j == entries.len() {
                    if self.records@[i].0@ == address@ {
                        lemma_seq_cell_at_index(entries, address@, i);
                    }
                }
            }
        }
        Ok(address)
    }

    /// Look up the record for a job identifier: recompute the derived
    /// address and return the record stored there, if any. Reading never
    /// changes the store.
    pub fn get_receipt(&self, job_id: &Vec<u8>) -> (r: Option<ReceiptRecord>)
        requires
            self.wf(),
        ensures
            match r {
                Some(rec) => self.spec_get(spec_receipt_address(job_id@)) == Some(rec@)
                    && rec@.valid(),
                None => self.spec_get(spec_receipt_address(job_id@)) is None,
            },
    {
        let tag = receipt_tag();
        let address = derive_address(&tag, job_id);
        match self.find_cell(&address) {
            Some(i) => {
                let rec = decode_record(&self.records[i].1);
                proof {
                    assert(rec is Some);
                }
                rec
            },
            None => None,
        }
    }
}

/// Compare two 32-byte addresses.
fn bytes32_eq(a: &[u8; 32], b: &[u8; 32]) -> (r: bool)
    ensures
        r <==> a@ == b@,
{
    let mut i: usize = 0;
    while i < 32
        invariant
            i <= 32,
            forall|k: int| 0 <= k < i ==> a@[k] == b@[k],
        decreases 32 - i,
    {
        if a[i] != b[i] {
            return false;
        }
        i += 1;
    }
    proof {
        assert(a@ =~= b@);
    }
    true
}

/// Exact space accounting: every committed cell has exactly the fixed
/// serialized capacity, and the record the store reports at that address is
/// the cell's decoding.
pub proof fn lemma_cell_fixed_capacity(s: ReceiptStore, a: Seq<u8>)
    requires
        s.wf(),
        s.spec_get_cell(a) is Some,
    ensures
        s.spec_get_cell(a).unwrap().len() == RECORD_SIZE,
        s.spec_get(a) == spec_decode(s.spec_get_cell(a).unwrap()),
        s.spec_get(a) is Some,
{
    lemma_seq_cell_is_entry(s.records@, a);
}

/// Immutability: a store that extends one already holding a record at `a`
/// still holds that record, unchanged.
pub proof fn lemma_records_immutable(earlier: ReceiptStore, later: ReceiptStore, a: Seq<u8>)
    requires
        earlier.extends_to(later),
        earlier.spec_get(a) is Some,
    ensures
        later.spec_get(a) == earlier.spec_get(a),
{
}

/// Extension is transitive, so immutability carries over any chain of
/// operations.
pub proof fn lemma_extends_transitive(s1: ReceiptStore, s2: ReceiptStore, s3: ReceiptStore)
    requires
        s1.extends_to(s2),
        s2.extends_to(s3),
    ensures
        s1.extends_to(s3),
{
}

/// Uniqueness: once a record exists for a job identifier, no insertion for
/// that identifier can succeed in any later state of the store, whatever the
/// other fields are.
pub proof fn lemma_write_once(
    earlier: ReceiptStore,
    later: ReceiptStore,
    job_id: Seq<u8>,
    receipt_hash: Seq<u8>,
)
    requires
        earlier.extends_to(later),
        earlier.spec_get(spec_receipt_address(job_id)) is Some,
    ensures
        !later.insert_allowed(job_id, receipt_hash),
{
}

} // verus!
