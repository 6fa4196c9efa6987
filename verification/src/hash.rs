//! SHA-256.

use sha2::Digest;
use vstd::prelude::*;

verus! {

/// The SHA-256 digest of a byte string.
pub uninterp spec fn sha256(data: Seq<u8>) -> [u8; 32];

/// `sha2::Sha256::digest`: the digest depends on the bytes alone.
#[verifier::external_body]
pub(crate) fn digest_of(data: &[u8]) -> (digest: [u8; 32])
    ensures
        digest == sha256(data@),
{
    sha2::Sha256::digest(data).into()
}

} // verus!
