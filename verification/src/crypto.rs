//! Digests and randomness, from `sha2` and `rand`.
use vstd::prelude::*;

verus! {

/// What `sha2::Sha256::digest` returns for a message.
pub uninterp spec fn sha256(data: Seq<u8>) -> Seq<u8>;

/// SHA-256 of `data`, through `sha2::Sha256::digest`. The contract claims
/// only that the digest is the named function of the message and is 32
/// bytes long (the array type).
#[verifier::external_body]
pub(crate) fn sha256_digest(data: &[u8]) -> (r: [u8; 32])
    ensures
        r@ == sha256(data@),
{
    <sha2::Sha256 as sha2::Digest>::digest(data).into()
}

/// What `sha2::Sha384::digest` returns for a message.
pub uninterp spec fn sha384(data: Seq<u8>) -> Seq<u8>;

/// SHA-384 of `data`, through `sha2::Sha384::digest`. The contract claims
/// only that the digest is the named function of the message and is 48
/// bytes long (the array type).
#[verifier::external_body]
pub(crate) fn sha384_digest(data: &[u8]) -> (r: [u8; 48])
    ensures
        r@ == sha384(data@),
{
    <sha2::Sha384 as sha2::Digest>::digest(data).into()
}

/// 32 random bytes from `rand::thread_rng()` (`RngCore::fill_bytes`).
/// Nothing is claimed of the bytes.
#[verifier::external_body]
pub(crate) fn random_nonce() -> (r: [u8; 32]) {
    let mut nonce = [0u8; 32];
    rand::RngCore::fill_bytes(&mut rand::thread_rng(), &mut nonce);
    nonce
}

} // verus!
