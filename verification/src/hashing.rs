//! The 256-bit hash that names accounts and calls.

use vstd::prelude::*;

verus! {

/// The 32-byte BLAKE2b digest of `data`, as the ledger's hashing computes it.
pub uninterp spec fn blake2_256_digest(data: Seq<u8>) -> Seq<u8>;

/// Calls `blake2_256` of `sp_core`, as `subxt` re-exports it: unkeyed BLAKE2b
/// with a 32-byte output over `data`. Believed, not proved: that what comes
/// back depends on the bytes of `data` alone, so that it has a name. The
/// call returns for every input.
#[verifier::external_body]
pub(crate) fn blake2_256(data: &[u8]) -> (digest: [u8; 32])
    ensures
        digest@ == blake2_256_digest(data@),
{
    subxt::sp_core::blake2_256(data)
}

} // verus!
