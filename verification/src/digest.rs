//! SHA-256 from the `sha2` crate.
use vstd::prelude::*;
use sha2::{Digest, Sha256};

verus! {

/// The SHA-256 digest of the bytes.
pub uninterp spec fn sha256_spec(b: Seq<u8>) -> Seq<u8>;

/// The SHA-256 digest of the bytes (`Sha256::digest`): the named digest, 32 bytes long.
#[verifier::external_body]
pub(crate) fn sha256(b: &[u8]) -> (d: Vec<u8>)
    ensures
        d@ == sha256_spec(b@),
        d@.len() == 32,
{
    Sha256::digest(b).to_vec()
}

} // verus!
