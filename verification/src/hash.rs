//! SHA-512 digests, as the `sha2` crate computes them.
use vstd::prelude::*;
use sha2::Digest;

verus! {

/// The SHA-512 digest of `data`, as `sha2` computes it.
pub uninterp spec fn sha512_digest(data: Seq<u8>) -> Seq<u8>;

/// `sha2::Sha512::digest`: the SHA-512 digest of `data`. Its result is
/// named, not stated; the crate's output type for SHA-512 holds 64 bytes.
#[verifier::external_body]
pub(crate) fn sha512(data: &[u8]) -> (r: Vec<u8>)
    ensures
        r@ == sha512_digest(data@),
        r@.len() == 64,
{
    sha2::Sha512::digest(data).to_vec()
}

} // verus!
