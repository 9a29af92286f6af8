use receipt_anchor::address::{derive_address, receipt_tag};
use receipt_anchor::record::ReceiptRecord;
use receipt_anchor::store::{ReceiptError, ReceiptStore};

fn executor() -> Vec<u8> {
    vec![0x11u8; 32]
}

fn anchor() -> Vec<u8> {
    vec![0x22u8; 32]
}

fn hex64() -> Vec<u8> {
    // "deadbeef" repeated eight times: 64 hex characters.
    let mut h = Vec::new();
    for _ in 0..8 {
        h.extend_from_slice(b"deadbeef");
    }
    h
}

#[test]
fn receipt_tag_is_receipt() {
    assert_eq!(receipt_tag(), b"receipt".to_vec());
}

#[test]
fn derive_address_deterministic() {
    let tag = receipt_tag();
    let job = b"job-001".to_vec();
    let a1 = derive_address(&tag, &job);
    let a2 = derive_address(&tag, &job);
    assert_eq!(a1, a2);
}

#[test]
fn derive_address_is_sha256_of_tag_and_job_id() {
    // SHA-256("receipt" || "job-001"), computed independently.
    let expected: [u8; 32] = [
        80, 71, 171, 160, 131, 41, 130, 229, 159, 98, 179, 114, 38, 203, 93, 15, 56, 26, 126,
        187, 38, 87, 8, 78, 214, 62, 98, 140, 172, 63, 30, 170,
    ];
    let addr = derive_address(&receipt_tag(), &b"job-001".to_vec());
    assert_eq!(addr, expected);
}

#[test]
fn derive_address_depends_on_every_input() {
    let tag = receipt_tag();
    let a1 = derive_address(&tag, &b"job-001".to_vec());
    let a2 = derive_address(&tag, &b"job-002".to_vec());
    assert_ne!(a1, a2);
    let other_tag = b"receipts".to_vec();
    let a3 = derive_address(&other_tag, &b"job-001".to_vec());
    assert_ne!(a1, a3);
}

#[test]
fn round_trip_insert_then_get() {
    let mut store = ReceiptStore::new();
    let r = store.insert_receipt(
        b"job-001".to_vec(),
        hex64(),
        executor(),
        1_700_000_000,
        anchor(),
    );
    assert!(r.is_ok());
    let rec: ReceiptRecord = store.get_receipt(&b"job-001".to_vec()).unwrap();
    assert_eq!(rec.job_id, b"job-001".to_vec());
    assert_eq!(rec.receipt_hash, hex64());
    assert_eq!(rec.executor_identity, executor());
    assert_eq!(rec.completed_at, 1_700_000_000);
    assert_eq!(rec.anchor_identity, anchor());
}

#[test]
fn insert_returns_derived_address_as_handle() {
    let mut store = ReceiptStore::new();
    let handle = store
        .insert_receipt(b"job-001".to_vec(), hex64(), executor(), 1, anchor())
        .unwrap();
    assert_eq!(handle, derive_address(&receipt_tag(), &b"job-001".to_vec()));
}

#[test]
fn job_id_of_64_bytes_succeeds() {
    let mut store = ReceiptStore::new();
    let job = vec![0x61u8; 64];
    assert!(store
        .insert_receipt(job.clone(), hex64(), executor(), 2, anchor())
        .is_ok());
    let rec = store.get_receipt(&job).unwrap();
    assert_eq!(rec.job_id, job);
}

#[test]
fn job_id_of_65_bytes_fails_with_job_id_too_long() {
    let mut store = ReceiptStore::new();
    let job = vec![0x61u8; 65];
    let r = store.insert_receipt(job.clone(), hex64(), executor(), 2, anchor());
    assert_eq!(r, Err(ReceiptError::JobIdTooLong));
    assert!(store.get_receipt(&job).is_none());
}

#[test]
fn receipt_hash_of_64_bytes_succeeds() {
    let mut store = ReceiptStore::new();
    let r = store.insert_receipt(b"job-003".to_vec(), vec![0x62u8; 64], executor(), 3, anchor());
    assert!(r.is_ok());
}

#[test]
fn receipt_hash_of_65_bytes_fails_with_receipt_hash_too_long() {
    let mut store = ReceiptStore::new();
    let r = store.insert_receipt(b"job-003".to_vec(), vec![0x62u8; 65], executor(), 3, anchor());
    assert_eq!(r, Err(ReceiptError::ReceiptHashTooLong));
    assert!(store.get_receipt(&b"job-003".to_vec()).is_none());
}

#[test]
fn duplicate_scenario() {
    let mut store = ReceiptStore::new();
    assert!(store
        .insert_receipt(b"job-001".to_vec(), hex64(), executor(), 10, anchor())
        .is_ok());
    // A second insert for the same job identifier fails, whatever the other
    // field values are.
    let r = store.insert_receipt(
        b"job-001".to_vec(),
        b"other-hash".to_vec(),
        vec![0x33u8; 32],
        99,
        vec![0x44u8; 32],
    );
    assert_eq!(r, Err(ReceiptError::DuplicateJobId));
    // A different job identifier succeeds independently.
    assert!(store
        .insert_receipt(b"job-002".to_vec(), hex64(), executor(), 11, anchor())
        .is_ok());
}

#[test]
fn validation_failure_leaves_store_unchanged() {
    let mut store = ReceiptStore::new();
    let oversized_job = vec![0x61u8; 65];
    let r = store.insert_receipt(oversized_job.clone(), hex64(), executor(), 4, anchor());
    assert_eq!(r, Err(ReceiptError::JobIdTooLong));
    assert!(store.get_receipt(&oversized_job).is_none());
    let r = store.insert_receipt(b"job-005".to_vec(), vec![0x62u8; 65], executor(), 4, anchor());
    assert_eq!(r, Err(ReceiptError::ReceiptHashTooLong));
    assert!(store.get_receipt(&b"job-005".to_vec()).is_none());
    // The store still accepts a well-formed insert afterwards.
    assert!(store
        .insert_receipt(b"job-005".to_vec(), hex64(), executor(), 4, anchor())
        .is_ok());
}

#[test]
fn records_are_immutable_once_committed() {
    let mut store = ReceiptStore::new();
    store
        .insert_receipt(b"job-001".to_vec(), hex64(), executor(), 5, anchor())
        .unwrap();
    let first = store.get_receipt(&b"job-001".to_vec()).unwrap();
    // A failed duplicate insert must not disturb the committed record.
    let _ = store.insert_receipt(
        b"job-001".to_vec(),
        b"zzz".to_vec(),
        vec![0x55u8; 32],
        -5,
        vec![0x66u8; 32],
    );
    let second = store.get_receipt(&b"job-001".to_vec()).unwrap();
    assert_eq!(first.job_id, second.job_id);
    assert_eq!(first.receipt_hash, second.receipt_hash);
    assert_eq!(first.executor_identity, second.executor_identity);
    assert_eq!(first.completed_at, second.completed_at);
    assert_eq!(first.anchor_identity, second.anchor_identity);
}

#[test]
fn empty_job_id_and_hash_are_accepted() {
    // Only the upper length bounds are validated; empty fields are the
    // documented implementer's choice.
    let mut store = ReceiptStore::new();
    assert!(store
        .insert_receipt(Vec::new(), Vec::new(), executor(), 0, anchor())
        .is_ok());
    let rec = store.get_receipt(&Vec::new()).unwrap();
    assert!(rec.job_id.is_empty());
    assert!(rec.receipt_hash.is_empty());
}

#[test]
fn repeated_inserts_yield_exactly_one_success() {
    let mut store = ReceiptStore::new();
    let mut successes = 0;
    let mut duplicates = 0;
    for k in 0..10u8 {
        match store.insert_receipt(b"job-001".to_vec(), vec![k], executor(), k as i64, anchor()) {
            Ok(_) => successes += 1,
            Err(ReceiptError::DuplicateJobId) => duplicates += 1,
            Err(e) => panic!("unexpected error {:?}", e),
        }
    }
    assert_eq!(successes, 1);
    assert_eq!(duplicates, 9);
    // The record that survives is the one committed by the single success.
    let rec = store.get_receipt(&b"job-001".to_vec()).unwrap();
    assert_eq!(rec.receipt_hash, vec![0u8]);
}

#[test]
fn get_receipt_of_absent_job_is_none() {
    let store = ReceiptStore::new();
    assert!(store.get_receipt(&b"job-404".to_vec()).is_none());
}
