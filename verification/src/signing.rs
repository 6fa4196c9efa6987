//! Ed25519 keys and signatures, held as bytes.

use ed25519_dalek::{Signer, Verifier};
use vstd::prelude::*;

verus! {

/// Whether a signature of a message verifies under a key by the strict rules.
pub uninterp spec fn ed25519_strictly_verifies(
    key: Seq<u8>,
    message: Seq<u8>,
    signature: Seq<u8>,
) -> bool;

/// The verifying key that belongs to a secret key.
pub uninterp spec fn ed25519_public(secret: Seq<u8>) -> [u8; 32];

/// The signature of a message under a secret key.
pub uninterp spec fn ed25519_signed(secret: Seq<u8>, message: Seq<u8>) -> [u8; 64];

/// Whether a byte string is the encoding of a verifying key.
pub uninterp spec fn ed25519_key(bytes: Seq<u8>) -> bool;

/// Whether a signature of a message verifies under a verifying key.
pub uninterp spec fn ed25519_verifies(
    key: Seq<u8>,
    message: Seq<u8>,
    signature: Seq<u8>,
) -> bool;

/// `ed25519_dalek::SigningKey::verifying_key`: the key follows from the secret key, and what it
/// encodes to decodes again.
#[verifier::external_body]
fn public_of(secret: &[u8; 32]) -> (key: [u8; 32])
    ensures
        key == ed25519_public(secret@),
        ed25519_key(key@),
{
    ed25519_dalek::SigningKey::from_bytes(secret).verifying_key().to_bytes()
}

/// `ed25519_dalek::SigningKey::sign`: the signature follows from the secret key and the message,
/// and it verifies under the key that belongs to the secret key.
#[verifier::external_body]
fn sign_with(secret: &[u8; 32], message: &[u8]) -> (signature: [u8; 64])
    ensures
        signature == ed25519_signed(secret@, message@),
        ed25519_verifies(ed25519_public(secret@)@, message@, signature@),
{
    ed25519_dalek::SigningKey::from_bytes(secret).sign(message).to_bytes()
}

/// `ed25519_dalek::VerifyingKey::from_bytes`: whether the bytes decode depends on them alone.
#[verifier::external_body]
fn is_key(bytes: &[u8; 32]) -> (valid: bool)
    ensures
        valid == ed25519_key(bytes@),
{
    ed25519_dalek::VerifyingKey::from_bytes(bytes).is_ok()
}

/// `ed25519_dalek::VerifyingKey::verify`: whether a signature verifies depends on the key, the
/// message and the signature. Bytes that are no key verify nothing.
#[verifier::external_body]
pub(crate) fn verify_with(key: &[u8; 32], message: &[u8], signature: &[u8; 64]) -> (verified: bool)
    ensures
        verified == ed25519_verifies(key@, message@, signature@),
        verified ==> ed25519_key(key@),
{
    let signature = ed25519_dalek::Signature::from_bytes(signature);
    match ed25519_dalek::VerifyingKey::from_bytes(key) {
        Ok(key) => key.verify(message, &signature).is_ok(),
        Err(_) => false,
    }
}

/// `ed25519_dalek::VerifyingKey::verify_strict`: the answer depends on the key, the message and the
/// signature. Bytes that encode no key verify nothing.
#[verifier::external_body]
pub(crate) fn strictly_verify_with(key: &[u8; 32], message: &[u8], signature: &[u8; 64]) -> (verified:
    bool)
    ensures
        verified == ed25519_strictly_verifies(key@, message@, signature@),
{
    let signature = ed25519_dalek::Signature::from_bytes(signature);
    match ed25519_dalek::VerifyingKey::from_bytes(key) {
        Ok(key) => key.verify_strict(message, &signature).is_ok(),
        Err(_) => false,
    }
}

/// A secret key.
pub struct SigningKey {
    secret: [u8; 32],
}

impl SigningKey {
    /// The bytes of the secret key.
    pub closed spec fn secret(&self) -> [u8; 32] {
        self.secret
    }

    /// The bytes of the verifying key that belongs to it.
    pub open spec fn public(&self) -> [u8; 32] {
        ed25519_public(self.secret()@)
    }

    pub fn from_bytes(secret: &[u8; 32]) -> (key: Self)
        ensures
            key.secret() == *secret,
    {
        SigningKey { secret: *secret }
    }

    pub fn to_bytes(&self) -> (secret: [u8; 32])
        ensures
            secret == self.secret(),
    {
        self.secret
    }

    pub fn verifying_key(&self) -> (key: VerifyingKey)
        ensures
            key.wf(),
            key@ == self.public(),
    {
        VerifyingKey { bytes: public_of(&self.secret) }
    }

    /// Signs a message. The signature verifies under the key that belongs to this one.
    pub fn sign(&self, message: &[u8]) -> (signature: [u8; 64])
        ensures
            signature == ed25519_signed(self.secret()@, message@),
            ed25519_verifies(self.public()@, message@, signature@),
    {
        sign_with(&self.secret, message)
    }
}

/// A verifying key.
#[derive(Clone, Copy, Debug, PartialEq, Eq)]
pub struct VerifyingKey {
    bytes: [u8; 32],
}

impl View for VerifyingKey {
    type V = [u8; 32];

    closed spec fn view(&self) -> [u8; 32] {
        self.bytes
    }
}

impl VerifyingKey {
    #[verifier::type_invariant]
    spec fn decodes(self) -> bool {
        ed25519_key(self.bytes@)
    }

    /// Every key that exists decodes.
    pub open spec fn wf(&self) -> bool {
        ed25519_key(self@@)
    }

    /// The key that bytes encode, where they encode one.
    pub fn from_bytes(bytes: &[u8; 32]) -> (key: Option<Self>)
        ensures
            match key {
                Some(key) => key.wf() && key@ == *bytes,
                None => !ed25519_key(bytes@),
            },
    {
        if is_key(bytes) {
            Some(VerifyingKey { bytes: *bytes })
        } else {
            None
        }
    }

    pub fn to_bytes(&self) -> (bytes: [u8; 32])
        ensures
            bytes == self@,
            self.wf(),
    {
        proof {
            use_type_invariant(self);
        }
        self.bytes
    }

    /// Whether a signature of a message verifies under this key.
    pub fn verify(&self, message: &[u8], signature: &[u8; 64]) -> (verified: bool)
        ensures
            verified == ed25519_verifies(self@@, message@, signature@),
    {
        verify_with(&self.bytes, message, signature)
    }
}

} // verus!
