//! SHA-256, from the `sha2` crate.

use sha2::Digest;
use vstd::prelude::*;

verus! {

/// The SHA-256 digest of a byte string.
pub uninterp spec fn sha256_spec(data: Seq<u8>) -> Seq<u8>;

/// `sha2::Sha256::digest`.
///
/// Trusted: the result is the named SHA-256 digest of `data`; that it has 32
/// bytes is in its type. Nothing else about SHA-256 is stated.
#[verifier::external_body]
pub(crate) fn sha256(data: &[u8]) -> (r: [u8; 32])
    ensures
        r@ == sha256_spec(data@),
{
    sha2::Sha256::digest(data).into()
}

/// Hash arbitrary-length message bytes down to the 32-byte digest that is signed.
pub fn hash_message_to_digest(message: &[u8]) -> (r: [u8; 32])
    ensures
        r@ == sha256_spec(message@),
{
    sha256(message)
}

} // verus!
