//! Ed25519 signatures and SHA-256 digests, computed by `ed25519-dalek` and
//! `sha2`.

use ed25519_dalek::{Signature, Signer, SigningKey, VerifyingKey};
use sha2::{Digest, Sha256};
use vstd::prelude::*;

verus! {

/// The SHA-256 digest of `data`.
pub uninterp spec fn sha256(data: Seq<u8>) -> Seq<u8>;

/// `sha2::Sha256::digest`. The contract claims only that the 32-byte result
/// is a function of `data`.
#[verifier::external_body]
pub(crate) fn sha256_digest(data: &[u8]) -> (r: [u8; 32])
    ensures
        r@ == sha256(data@),
{
    Sha256::digest(data).into()
}

/// Whether 32 bytes are the compressed form of a point of the Ed25519 curve.
pub uninterp spec fn ed25519_point_decodes(key: Seq<u8>) -> bool;

/// `ed25519_dalek::VerifyingKey::from_bytes` succeeds. The contract claims
/// only that the answer is a function of the bytes.
#[verifier::external_body]
pub(crate) fn ed25519_key_decodes(key: &[u8; 32]) -> (r: bool)
    ensures
        r == ed25519_point_decodes(key@),
{
    VerifyingKey::from_bytes(key).is_ok()
}

/// Whether Ed25519 strict verification accepts `signature` on `message`
/// under the public key `key`.
pub uninterp spec fn ed25519_verify_strict(key: Seq<u8>, message: Seq<u8>, signature: Seq<u8>) -> bool;

/// `ed25519_dalek::VerifyingKey::verify_strict` on the key decoded from
/// `key` and `ed25519_dalek::Signature::from_bytes(signature)`. The contract
/// claims only that the verdict is a function of the three byte strings.
#[verifier::external_body]
pub(crate) fn ed25519_verifies_strictly(key: &[u8; 32], message: &[u8], signature: &[u8; 64]) -> (r:
    bool)
    requires
        ed25519_point_decodes(key@),
    ensures
        r == ed25519_verify_strict(key@, message@, signature@),
{
    match VerifyingKey::from_bytes(key) {
        Ok(verifying_key) => verifying_key.verify_strict(
            message,
            &Signature::from_bytes(signature),
        ).is_ok(),
        Err(_) => false,
    }
}

/// The Ed25519 public key of the secret key `seed`.
pub uninterp spec fn ed25519_public_key(seed: Seq<u8>) -> Seq<u8>;

/// `ed25519_dalek::SigningKey::from_bytes(seed).verifying_key().to_bytes()`.
/// The contract claims that the 32-byte result is a function of `seed`, and
/// that it is the compression of a curve point (it is computed by compressing
/// the point `expand(seed) * B`), so `VerifyingKey::from_bytes` accepts it.
#[verifier::external_body]
pub(crate) fn ed25519_public_key_of(seed: &[u8; 32]) -> (r: [u8; 32])
    ensures
        r@ == ed25519_public_key(seed@),
        ed25519_point_decodes(r@),
{
    SigningKey::from_bytes(seed).verifying_key().to_bytes()
}

/// The Ed25519 signature of `message` under the secret key `seed`.
pub uninterp spec fn ed25519_signature(seed: Seq<u8>, message: Seq<u8>) -> Seq<u8>;

/// `ed25519_dalek::SigningKey::from_bytes(seed).sign(message).to_bytes()`.
/// Ed25519 signing is deterministic; the contract claims only that the
/// 64-byte result is a function of `seed` and `message`.
#[verifier::external_body]
pub(crate) fn ed25519_sign(seed: &[u8; 32], message: &[u8]) -> (r: [u8; 64])
    ensures
        r@ == ed25519_signature(seed@, message@),
{
    SigningKey::from_bytes(seed).sign(message).to_bytes()
}

} // verus!
