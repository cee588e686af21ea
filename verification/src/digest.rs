//! BLAKE3, SHA-256 and Keccak-256 digests.

use vstd::prelude::*;

verus! {

/// The incremental BLAKE3 state, `blake3::Hasher`.
#[verifier::external_type_specification]
#[verifier::external_body]
pub struct ExHasher(blake3::Hasher);

/// The bytes that a BLAKE3 state has absorbed so far, in order.
pub uninterp spec fn absorbed(hasher: blake3::Hasher) -> Seq<u8>;

/// The 32-byte BLAKE3 digest of `input`.
pub uninterp spec fn blake3_digest(input: Seq<u8>) -> [u8; 32];

/// `blake3::Hasher::new`: a state that has absorbed nothing.
#[verifier::external_body]
pub(crate) fn hasher_new() -> (hasher: blake3::Hasher)
    ensures
        absorbed(hasher) == Seq::<u8>::empty(),
{
    blake3::Hasher::new()
}

/// `blake3::Hasher::update`: the state absorbs `input` after all it has
/// absorbed before.
#[verifier::external_body]
pub(crate) fn hasher_update(hasher: &mut blake3::Hasher, input: &[u8])
    ensures
        absorbed(*final(hasher)) == absorbed(*old(hasher)) + input@,
{
    hasher.update(input);
}

/// `blake3::Hasher::finalize`: the digest of everything absorbed, the same as
/// hashing those bytes at once. The state is left as it is.
#[verifier::external_body]
pub(crate) fn hasher_finalize(hasher: &blake3::Hasher) -> (digest: [u8; 32])
    ensures
        digest == blake3_digest(absorbed(*hasher)),
{
    *hasher.finalize().as_bytes()
}

/// `blake3::hash`: the digest of `input`.
#[verifier::external_body]
pub(crate) fn blake3_hash(input: &[u8]) -> (digest: [u8; 32])
    ensures
        digest == blake3_digest(input@),
{
    *blake3::hash(input).as_bytes()
}

/// The 32-byte SHA-256 digest of `input`.
pub uninterp spec fn sha256_digest(input: Seq<u8>) -> [u8; 32];

/// `sha2::Sha256::digest`: the digest of `input`.
#[verifier::external_body]
pub(crate) fn sha256(input: &[u8]) -> (digest: [u8; 32])
    ensures
        digest == sha256_digest(input@),
{
    <sha2::Sha256 as sha2::Digest>::digest(input).into()
}

/// The 32-byte Keccak-256 digest of `input`.
pub uninterp spec fn keccak256_digest(input: Seq<u8>) -> [u8; 32];

/// `alloy_primitives::keccak256`: the digest of `input`.
#[verifier::external_body]
pub(crate) fn keccak256(input: &[u8]) -> (digest: [u8; 32])
    ensures
        digest == keccak256_digest(input@),
{
    alloy_primitives::keccak256(input).0
}

} // verus!
