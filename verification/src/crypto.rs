//! SHA-256 and ed25519.
//!
//! What the primitives compute is named, not spelled out. What is said of the
//! names beyond that is what makes signatures useful: what a key signs, its
//! public half verifies.

use vstd::prelude::*;
use ed25519_dalek::{Signature, Signer, SigningKey, Verifier, VerifyingKey};
use sha2::{Digest, Sha256};

verus! {

/// The SHA-256 digest of a byte string.
pub uninterp spec fn sha256(data: Seq<u8>) -> Seq<u8>;

#[verifier::external_type_specification]
#[verifier::external_body]
pub struct ExSigningKey(SigningKey);

#[verifier::external_type_specification]
#[verifier::external_body]
pub struct ExVerifyingKey(VerifyingKey);

#[verifier::external_type_specification]
#[verifier::external_body]
pub struct ExSignature(Signature);

/// The 32 secret bytes a signing key is made of.
pub uninterp spec fn seed_of(key: SigningKey) -> Seq<u8>;

/// The 32 bytes of a public key.
pub uninterp spec fn key_bytes(key: VerifyingKey) -> Seq<u8>;

/// The 64 bytes of a signature.
pub uninterp spec fn signature_bytes(sig: Signature) -> Seq<u8>;

/// The public key that belongs to a seed.
pub uninterp spec fn public_key(seed: Seq<u8>) -> Seq<u8>;

/// Whether these 32 bytes are a public key.
pub uninterp spec fn is_public_key(bytes: Seq<u8>) -> bool;

/// The signature that the key with this seed makes over a message.
pub uninterp spec fn signature_over(seed: Seq<u8>, message: Seq<u8>) -> Seq<u8>;

/// Whether these 64 bytes are a signature over the message by this public key.
pub uninterp spec fn signature_holds(key: Seq<u8>, message: Seq<u8>, sig: Seq<u8>) -> bool;

/// `sha2::Sha256::digest`: the digest named [`sha256`].
#[verifier::external_body]
pub(crate) fn digest(data: &[u8]) -> (r: [u8; 32])
    ensures
        r@ == sha256(data@),
{
    Sha256::digest(data).into()
}

/// `ed25519_dalek::SigningKey::from_bytes`: the key holds the seed it is given.
#[verifier::external_body]
pub(crate) fn signing_key(seed: &[u8; 32]) -> (key: SigningKey)
    ensures
        seed_of(key) == seed@,
{
    SigningKey::from_bytes(seed)
}

/// `ed25519_dalek::SigningKey::verifying_key`: the public key that belongs to
/// the seed. It is a public key.
#[verifier::external_body]
pub(crate) fn verifying_key(key: &SigningKey) -> (r: VerifyingKey)
    ensures
        key_bytes(r) == public_key(seed_of(*key)),
        is_public_key(key_bytes(r)),
{
    key.verifying_key()
}

/// `ed25519_dalek::VerifyingKey::to_bytes`: the bytes of the key.
#[verifier::external_body]
pub(crate) fn verifying_key_bytes(key: &VerifyingKey) -> (r: [u8; 32])
    ensures
        r@ == key_bytes(*key),
{
    key.to_bytes()
}

/// `ed25519_dalek::VerifyingKey::from_bytes`: the key with these bytes, and
/// nothing where they are no public key.
#[verifier::external_body]
pub(crate) fn read_verifying_key(bytes: &[u8; 32]) -> (r: Option<VerifyingKey>)
    ensures
        match r {
            Some(key) => is_public_key(bytes@) && key_bytes(key) == bytes@,
            None => !is_public_key(bytes@),
        },
{
    VerifyingKey::from_bytes(bytes).ok()
}

/// `ed25519_dalek::Signer::sign`: the signature named [`signature_over`]. It
/// holds for the public key that belongs to the seed.
#[verifier::external_body]
pub(crate) fn sign(key: &SigningKey, message: &[u8]) -> (sig: Signature)
    ensures
        signature_bytes(sig) == signature_over(seed_of(*key), message@),
        signature_holds(public_key(seed_of(*key)), message@, signature_bytes(sig)),
{
    key.sign(message)
}

/// `ed25519_dalek::Signature::to_bytes`: the 64 bytes of the signature.
#[verifier::external_body]
pub(crate) fn signature_to_bytes(sig: &Signature) -> (r: [u8; 64])
    ensures
        r@ == signature_bytes(*sig),
{
    sig.to_bytes()
}

/// `ed25519_dalek::Signature::from_slice`: a signature of these bytes, if and
/// only if there are 64 of them.
#[verifier::external_body]
pub(crate) fn read_signature(bytes: &[u8]) -> (r: Option<Signature>)
    ensures
        match r {
            Some(sig) => bytes@.len() == 64 && signature_bytes(sig) == bytes@,
            None => bytes@.len() != 64,
        },
{
    Signature::from_slice(bytes).ok()
}

/// `ed25519_dalek::Verifier::verify`: whether the signature holds.
#[verifier::external_body]
pub(crate) fn signature_verifies(key: &VerifyingKey, message: &[u8], sig: &Signature) -> (r: bool)
    ensures
        r == signature_holds(key_bytes(*key), message@, signature_bytes(*sig)),
{
    key.verify(message, sig).is_ok()
}

} // verus!
