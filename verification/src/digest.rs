use sha2::Digest;
use vstd::prelude::*;

verus! {

/// The MD5 digest of a byte sequence, as the `md-5` crate computes it.
pub uninterp spec fn md5_digest(data: Seq<u8>) -> Seq<u8>;

/// The SHA-256 digest of a byte sequence, as the `sha2` crate computes it.
pub uninterp spec fn sha256_digest(data: Seq<u8>) -> Seq<u8>;

/// Calls `md5::Md5::digest` (crate `md-5`): the result is the digest of the
/// bytes, named by [`md5_digest`], 16 bytes long as MD5 defines.
#[verifier::external_body]
pub(crate) fn md5_of(data: &[u8]) -> (d: Vec<u8>)
    ensures
        d@ == md5_digest(data@),
        d@.len() == 16,
{
    md5::Md5::digest(data).to_vec()
}

/// Calls `sha2::Sha256::digest`: the result is the digest of the bytes,
/// named by [`sha256_digest`], 32 bytes long as SHA-256 defines.
#[verifier::external_body]
pub(crate) fn sha256_of(data: &[u8]) -> (d: Vec<u8>)
    ensures
        d@ == sha256_digest(data@),
        d@.len() == 32,
{
    sha2::Sha256::digest(data).to_vec()
}

} // verus!
