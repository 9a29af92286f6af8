//! Anchors externally computed job receipts in a tamper-evident, append-only
//! record store, keyed by a deterministic hash of the job identifier.
//!
//! The crate has three parts: address derivation (a SHA-256 digest over a
//! fixed domain tag and the job identifier), a fixed-capacity serialization of
//! records with length-prefixed bounded fields, and a keyed store with strict
//! write-once insertion: an insert succeeds only if no record exists at the
//! derived address, and every failure leaves the store unchanged.

pub mod address;
pub mod codec;
pub mod record;
pub mod store;
