//! Address derivation: maps a domain tag and a job identifier to a fixed
//! 32-byte storage address through SHA-256, so that any party holding the job
//! identifier can recompute the record's location without an index.

use vstd::prelude::*;

verus! {

/// The SHA-256 digest of a domain tag followed by a payload, as computed by
/// `solana_sha256_hasher::hashv`. The digest depends on the bytes of the two
/// seeds alone.
pub uninterp spec fn spec_hash_tagged(tag: Seq<u8>, payload: Seq<u8>) -> Seq<u8>;

/// Relies on `solana_sha256_hasher::hashv`: a pure SHA-256 digest over the
/// concatenated seed slices, 32 bytes wide, a function of the seed bytes
/// alone. It is the hash the storage substrate itself uses to derive program
/// addresses.
#[verifier::external_body]
fn hash_tagged(tag: &Vec<u8>, payload: &Vec<u8>) -> (r: [u8; 32])
    ensures
        r@ == spec_hash_tagged(tag@, payload@),
{
    solana_sha256_hasher::hashv(&[tag.as_slice(), payload.as_slice()]).to_bytes()
}

/// The fixed domain-separation tag under which receipt records are addressed:
/// the bytes of `"receipt"`.
pub open spec fn spec_receipt_tag() -> Seq<u8> {
    seq![0x72u8, 0x65u8, 0x63u8, 0x65u8, 0x69u8, 0x70u8, 0x74u8]
}

/// The address at which the record for a job identifier lives: the digest of
/// the `"receipt"` tag and the identifier bytes.
pub open spec fn spec_receipt_address(job_id: Seq<u8>) -> Seq<u8> {
    spec_hash_tagged(spec_receipt_tag(), job_id)
}

/// The domain tag `"receipt"` as a byte vector.
pub fn receipt_tag() -> (tag: Vec<u8>)
    ensures
        tag@ == spec_receipt_tag(),
{
    let mut tag: Vec<u8> = Vec::new();
    tag.push(0x72);
    tag.push(0x65);
    tag.push(0x63);
    tag.push(0x65);
    tag.push(0x69);
    tag.push(0x70);
    tag.push(0x74);
    proof {
        assert(tag@ =~= spec_receipt_tag());
    }
    tag
}

/// Derive the storage address for a job identifier under a domain tag.
///
/// Pure and deterministic: the result is a function of the tag and identifier
/// bytes alone, so the same inputs always yield the same address, and any
/// third party can recompute a record's location from the job identifier.
/// Defined for every byte string; the store validates lengths before it
/// trusts the derivation as an insertion key.
pub fn derive_address(domain_tag: &Vec<u8>, job_id: &Vec<u8>) -> (addr: [u8; 32])
    ensures
        addr@ == spec_hash_tagged(domain_tag@, job_id@),
{
    hash_tagged(domain_tag, job_id)
}

/// Determinism of address derivation: any two results of deriving with the
/// same domain tag and job identifier are the same address.
pub proof fn lemma_derive_deterministic(
    tag: Seq<u8>,
    job_id: Seq<u8>,
    addr1: Seq<u8>,
    addr2: Seq<u8>,
)
    requires
        addr1 == spec_hash_tagged(tag, job_id),
        addr2 == spec_hash_tagged(tag, job_id),
    ensures
        addr1 == addr2,
{
}

} // verus!
