//! Content hashes: BLAKE3, as the `blake3` crate computes them.
use vstd::prelude::*;

verus! {

/// The 32-byte BLAKE3 hash of some bytes.
pub uninterp spec fn blake3_digest(data: Seq<u8>) -> Seq<u8>;

/// Calls `blake3::hash` and hands over the hash's bytes
/// (`Hash::as_bytes`).  The contract only names the result.
#[verifier::external_body]
pub fn blake3_hash(data: &[u8]) -> (r: [u8; 32])
    ensures
        r@ == blake3_digest(data@),
{
    *blake3::hash(data).as_bytes()
}

} // verus!
