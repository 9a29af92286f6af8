//! The receipt record: the immutable unit of truth, together with its
//! mathematical model and validity bounds.

use vstd::prelude::*;

verus! {

/// Maximum length in bytes of a job identifier.
pub const MAX_JOB_ID_LEN: usize = 64;

/// Maximum length in bytes of a receipt fingerprint (a hex-encoded digest in
/// the observed encoding).
pub const MAX_RECEIPT_HASH_LEN: usize = 64;

/// Length in bytes of a public identity (executor or anchoring party).
pub const IDENTITY_LEN: usize = 32;

/// Mathematical model of a receipt record.
#[verifier::ext_equal]
pub struct RecordView {
    pub job_id: Seq<u8>,
    pub executor_identity: Seq<u8>,
    pub receipt_hash: Seq<u8>,
    pub completed_at: i64,
    pub anchor_identity: Seq<u8>,
}

impl RecordView {
    /// The model of a record assembled from its five fields.
    pub open spec fn new(
        job_id: Seq<u8>,
        executor_identity: Seq<u8>,
        receipt_hash: Seq<u8>,
        completed_at: i64,
        anchor_identity: Seq<u8>,
    ) -> RecordView {
        RecordView { job_id, executor_identity, receipt_hash, completed_at, anchor_identity }
    }

    /// A record the store accepts: bounded variable-length fields and
    /// fixed-size identities.
    ///
    /// Only the upper bounds are enforced; an empty job identifier or
    /// fingerprint is accepted, mirroring the validation the store performs.
    pub open spec fn valid(self) -> bool {
        &&& self.job_id.len() <= MAX_JOB_ID_LEN
        &&& self.receipt_hash.len() <= MAX_RECEIPT_HASH_LEN
        &&& self.executor_identity.len() == IDENTITY_LEN
        &&& self.anchor_identity.len() == IDENTITY_LEN
    }
}

/// A receipt record binding a job to its executor, fingerprint, completion
/// time, and anchoring party. Once a store has committed one, it is never
/// mutated or deleted.
pub struct ReceiptRecord {
    /// Caller-chosen byte string naming the job; at most 64 bytes.
    pub job_id: Vec<u8>,
    /// 32-byte public identity of the party that performed the job.
    pub executor_identity: Vec<u8>,
    /// Fingerprint of the job's output; at most 64 bytes.
    pub receipt_hash: Vec<u8>,
    /// Signed timestamp (seconds since epoch) when the job completed.
    pub completed_at: i64,
    /// 32-byte public identity of the party that anchored this record.
    pub anchor_identity: Vec<u8>,
}

impl View for ReceiptRecord {
    type V = RecordView;

    open spec fn view(&self) -> RecordView {
        RecordView {
            job_id: self.job_id@,
            executor_identity: self.executor_identity@,
            receipt_hash: self.receipt_hash@,
            completed_at: self.completed_at,
            anchor_identity: self.anchor_identity@,
        }
    }
}

} // verus!
