//! SHA-1 digests, computed by the `sha1` crate.
use sha1::{Digest, Sha1};
use vstd::prelude::*;

verus! {

/// The SHA-1 digest of `data`, as the `sha1` crate computes it.
pub uninterp spec fn sha1(data: Seq<u8>) -> Seq<u8>;

/// Calls `sha1::Sha1::digest`. The contract claims only that the 20 bytes returned are the
/// SHA-1 digest of the input, a function of the input alone; what that digest is, is not stated.
#[verifier::external_body]
pub(crate) fn sha1_digest(data: &[u8]) -> (digest: [u8; 20])
    ensures
        digest@ == sha1(data@),
{
    Sha1::digest(data).into()
}

} // verus!
