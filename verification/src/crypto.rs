//! Signed orders, funded authorizations, encrypted submissions, and the policy that admits them.

use crate::admission::UnsignedFundedAuthorizationV1;
use crate::bytes::{append, copy_range, is_zero, read_array, same_array, zeros};
use crate::codec::Entry;
use crate::domain::{
    intent_bytes, intent_error, intent_valid, lemma_intent_layout, IntentBodyV1, IntentFields,
};
use crate::hash::{digest_of, sha256};
use crate::signing::{
    ed25519_key, ed25519_signed, ed25519_verifies, verify_with, SigningKey, VerifyingKey,
};
use crate::threshold::{
    ciphertext_valid, ciphertext_verifies,
};
use vstd::bytes::{
    lemma_auto_spec_u64_to_from_le_bytes, spec_u64_from_le_bytes, spec_u64_to_le_bytes,
    u64_from_le_bytes, u64_to_le_bytes,
};
use vstd::prelude::*;
use vstd::slice::slice_subrange;
use vstd::string::*;
use vstd::utf8::encode_utf8;

verus! {

pub const SIGNED_INTENT_LEN: usize = 192;

pub const FUNDED_AUTHORIZATION_V1_LEN: usize = 249;

pub const ENCRYPTED_INTENT_V1_LEN: usize = 344;

pub const ENCRYPTED_SUBMISSION_V1_LEN: usize = 689;

#[derive(Clone, Copy, Debug, PartialEq, Eq, Structural)]
pub enum CryptoError {
    EntropyUnavailable,
    InvalidAuthorization,
    InvalidInnerSignature,
    InvalidOuterSignature,
    InvalidSignedIntent,
    InvalidCiphertext,
    InvalidReceipt,
    WrongEpoch,
    WrongParticipant,
    InsufficientCrowd { valid: usize, minimum: usize },
    InsufficientShares,
    DuplicateShare,
    InvalidShare,
    InvalidMinimum,
    WrongTradingKey,
}

/// What an admission policy asks for.
pub struct PolicyFields {
    pub epoch_id: [u8; 32],
    pub operator_key: [u8; 32],
    pub minimum: usize,
    pub base_atoms: u64,
    pub quote_atoms: u64,
    pub current_slot: u64,
}

/// The terms under which submissions are admitted to an epoch.
#[derive(Clone, Copy, Debug, PartialEq, Eq)]
pub struct AdmissionPolicyV1 {
    epoch_id: [u8; 32],
    operator_key: [u8; 32],
    minimum: usize,
    base_atoms: u64,
    quote_atoms: u64,
    current_slot: u64,
}

impl View for AdmissionPolicyV1 {
    type V = PolicyFields;

    closed spec fn view(&self) -> PolicyFields {
        PolicyFields {
            epoch_id: self.epoch_id,
            operator_key: self.operator_key,
            minimum: self.minimum,
            base_atoms: self.base_atoms,
            quote_atoms: self.quote_atoms,
            current_slot: self.current_slot,
        }
    }
}

impl AdmissionPolicyV1 {
    /// A policy. A zero minimum is refused first, then a zero amount on either side.
    pub fn new(
        epoch_id: [u8; 32],
        operator_key: VerifyingKey,
        minimum: usize,
        base_atoms: u64,
        quote_atoms: u64,
        current_slot: u64,
    ) -> (policy: Result<Self, CryptoError>)
        ensures
            match policy {
                Ok(policy) => minimum != 0 && base_atoms != 0 && quote_atoms != 0 && policy@ == (
                PolicyFields {
                    epoch_id,
                    operator_key: operator_key@,
                    minimum,
                    base_atoms,
                    quote_atoms,
                    current_slot,
                }),
                Err(error) => if minimum == 0 {
                    error == CryptoError::InvalidMinimum
                } else {
                    error == CryptoError::InvalidAuthorization && (base_atoms == 0 || quote_atoms
                        == 0)
                },
            },
    {
        if minimum == 0 {
            return Err(CryptoError::InvalidMinimum);
        }
        if base_atoms == 0 || quote_atoms == 0 {
            return Err(CryptoError::InvalidAuthorization);
        }
        Ok(
            AdmissionPolicyV1 {
                epoch_id,
                operator_key: operator_key.to_bytes(),
                minimum,
                base_atoms,
                quote_atoms,
                current_slot,
            },
        )
    }

    pub fn operator_key(&self) -> (key: [u8; 32])
        ensures
            key == self@.operator_key,
    {
        self.operator_key
    }

    pub fn minimum(&self) -> (minimum: usize)
        ensures
            minimum == self@.minimum,
    {
        self.minimum
    }
}

/// What a funded authorization says.
pub struct FundedFields {
    pub version: u8,
    pub operator_key: [u8; 32],
    pub epoch_id: [u8; 32],
    pub participant_id: [u8; 32],
    pub trading_key: [u8; 32],
    pub nonce: [u8; 32],
    pub base_atoms: u64,
    pub quote_atoms: u64,
    pub expiry_slot: u64,
    pub operator_signature: [u8; 64],
}

/// The part of an authorization that the operator signs.
pub open spec fn unsigned_bytes(fields: FundedFields) -> Seq<u8> {
    seq![fields.version] + fields.operator_key@ + fields.epoch_id@ + fields.participant_id@
        + fields.trading_key@ + fields.nonce@ + spec_u64_to_le_bytes(fields.base_atoms)
        + spec_u64_to_le_bytes(fields.quote_atoms) + spec_u64_to_le_bytes(fields.expiry_slot)
}

/// The wire form of an authorization.
pub open spec fn funded_bytes(fields: FundedFields) -> Seq<u8> {
    unsigned_bytes(fields) + fields.operator_signature@
}

/// The message that the operator signs.
pub open spec fn funded_message(fields: FundedFields) -> Seq<u8> {
    encode_utf8("KAGEB_FUNDED_AUTH_V1\0"@) + unsigned_bytes(fields)
}

/// The digest that stands for an authorization.
pub open spec fn funded_hash(fields: FundedFields) -> [u8; 32] {
    sha256(encode_utf8("KAGEB_FUNDED_AUTH_V1\0"@) + funded_bytes(fields))
}

/// Whether an authorization can be read: its version is known and both keys decode.
pub open spec fn funded_valid(fields: FundedFields) -> bool {
    fields.version == 1 && ed25519_key(fields.trading_key@) && ed25519_key(fields.operator_key@)
}

/// Why a policy refuses an authorization, where it does: first for its terms, then for another
/// epoch, then for the operator's signature.
pub open spec fn authorization_refusal(fields: FundedFields, policy: PolicyFields) -> Option<
    CryptoError,
> {
    if fields.version != 1 || fields.operator_key != policy.operator_key || fields.base_atoms
        != policy.base_atoms || fields.quote_atoms != policy.quote_atoms || fields.expiry_slot
        < policy.current_slot {
        Some(CryptoError::InvalidAuthorization)
    } else if fields.epoch_id != policy.epoch_id {
        Some(CryptoError::WrongEpoch)
    } else if !ed25519_verifies(
        fields.operator_key@,
        funded_message(fields),
        fields.operator_signature@,
    ) {
        Some(CryptoError::InvalidAuthorization)
    } else {
        None
    }
}

/// Where each field of an authorization stands in its wire form.
pub proof fn lemma_funded_layout(fields: FundedFields)
    ensures
        unsigned_bytes(fields).len() == 185,
        funded_bytes(fields).len() == 249,
        funded_bytes(fields)[0] == fields.version,
        funded_bytes(fields).subrange(1, 33) == fields.operator_key@,
        funded_bytes(fields).subrange(33, 65) == fields.epoch_id@,
        funded_bytes(fields).subrange(65, 97) == fields.participant_id@,
        funded_bytes(fields).subrange(97, 129) == fields.trading_key@,
        funded_bytes(fields).subrange(129, 161) == fields.nonce@,
        spec_u64_from_le_bytes(funded_bytes(fields).subrange(161, 169)) == fields.base_atoms,
        spec_u64_from_le_bytes(funded_bytes(fields).subrange(169, 177)) == fields.quote_atoms,
        spec_u64_from_le_bytes(funded_bytes(fields).subrange(177, 185)) == fields.expiry_slot,
        funded_bytes(fields).subrange(185, 249) == fields.operator_signature@,
{
    lemma_auto_spec_u64_to_from_le_bytes();
    let bytes = funded_bytes(fields);
    assert(bytes.subrange(1, 33) =~= fields.operator_key@);
    assert(bytes.subrange(33, 65) =~= fields.epoch_id@);
    assert(bytes.subrange(65, 97) =~= fields.participant_id@);
    assert(bytes.subrange(97, 129) =~= fields.trading_key@);
    assert(bytes.subrange(129, 161) =~= fields.nonce@);
    assert(bytes.subrange(161, 169) =~= spec_u64_to_le_bytes(fields.base_atoms));
    assert(bytes.subrange(169, 177) =~= spec_u64_to_le_bytes(fields.quote_atoms));
    assert(bytes.subrange(177, 185) =~= spec_u64_to_le_bytes(fields.expiry_slot));
    assert(bytes.subrange(185, 249) =~= fields.operator_signature@);
}

/// Authorizations with one wire form are one authorization.
pub proof fn law_authorization_wire_is_injective(a: FundedFields, b: FundedFields)
    ensures
        funded_bytes(a) == funded_bytes(b) ==> a == b,
{
    lemma_funded_layout(a);
    lemma_funded_layout(b);
    if funded_bytes(a) == funded_bytes(b) {
        assert(a.operator_key =~= b.operator_key);
        assert(a.epoch_id =~= b.epoch_id);
        assert(a.participant_id =~= b.participant_id);
        assert(a.trading_key =~= b.trading_key);
        assert(a.nonce =~= b.nonce);
        assert(a.operator_signature =~= b.operator_signature);
    }
}

/// The operator's word that a participant's trading key may submit one funded order.
#[derive(Clone, Copy, PartialEq, Eq)]
pub struct FundedAuthorizationV1 {
    version: u8,
    operator_key: [u8; 32],
    epoch_id: [u8; 32],
    participant_id: [u8; 32],
    trading_key: [u8; 32],
    nonce: [u8; 32],
    base_atoms: u64,
    quote_atoms: u64,
    expiry_slot: u64,
    operator_signature: [u8; 64],
}

impl View for FundedAuthorizationV1 {
    type V = FundedFields;

    closed spec fn view(&self) -> FundedFields {
        FundedFields {
            version: self.version,
            operator_key: self.operator_key,
            epoch_id: self.epoch_id,
            participant_id: self.participant_id,
            trading_key: self.trading_key,
            nonce: self.nonce,
            base_atoms: self.base_atoms,
            quote_atoms: self.quote_atoms,
            expiry_slot: self.expiry_slot,
            operator_signature: self.operator_signature,
        }
    }
}

impl FundedAuthorizationV1 {
    /// Signs an authorization for a recorded reservation. Every policy with its terms accepts it.
    pub fn sign(
        reserved: UnsignedFundedAuthorizationV1,
        epoch_id: [u8; 32],
        trading_key: VerifyingKey,
        operator: &SigningKey,
        expiry_slot: u64,
    ) -> (authorization: Self)
        ensures
            ({
                let fields = authorization@;
                &&& fields.version == 1
                &&& fields.operator_key == operator.public()
                &&& fields.epoch_id == epoch_id
                &&& fields.participant_id == reserved@.participant_id
                &&& fields.trading_key == trading_key@
                &&& fields.nonce == reserved@.nonce
                &&& fields.base_atoms == reserved@.base_atoms
                &&& fields.quote_atoms == reserved@.quote_atoms
                &&& fields.expiry_slot == expiry_slot
                &&& fields.operator_signature == ed25519_signed(
                    operator.secret()@,
                    funded_message(fields),
                )
                &&& forall|policy: PolicyFields|
                    policy.operator_key == operator.public() && policy.epoch_id == epoch_id
                        && policy.base_atoms == reserved@.base_atoms && policy.quote_atoms
                        == reserved@.quote_atoms && policy.current_slot <= expiry_slot ==> (
                    #[trigger] authorization_refusal(fields, policy)) is None
            }),
    {
        let (nonce, participant_id, base_atoms, quote_atoms) = reserved.into_parts();
        let mut authorization = FundedAuthorizationV1 {
            version: 1,
            operator_key: operator.verifying_key().to_bytes(),
            epoch_id,
            participant_id,
            trading_key: trading_key.to_bytes(),
            nonce,
            base_atoms,
            quote_atoms,
            expiry_slot,
            operator_signature: [0u8; 64],
        };
        let message = authorization.message();
        authorization.operator_signature = operator.sign(message.as_slice());
        assert(funded_message(authorization@) =~= message@);
        authorization
    }

    pub fn epoch_id(&self) -> (epoch_id: [u8; 32])
        ensures
            epoch_id == self@.epoch_id,
    {
        self.epoch_id
    }

    pub fn participant_id(&self) -> (participant_id: [u8; 32])
        ensures
            participant_id == self@.participant_id,
    {
        self.participant_id
    }

    pub fn trading_key(&self) -> (trading_key: [u8; 32])
        ensures
            trading_key == self@.trading_key,
    {
        self.trading_key
    }

    pub fn nonce(&self) -> (nonce: [u8; 32])
        ensures
            nonce == self@.nonce,
    {
        self.nonce
    }

    pub fn base_atoms(&self) -> (base_atoms: u64)
        ensures
            base_atoms == self@.base_atoms,
    {
        self.base_atoms
    }

    pub fn quote_atoms(&self) -> (quote_atoms: u64)
        ensures
            quote_atoms == self@.quote_atoms,
    {
        self.quote_atoms
    }

    fn write_unsigned(&self, out: &mut Vec<u8>)
        ensures
            final(out)@ == old(out)@ + unsigned_bytes(self@),
    {
        out.push(self.version);
        append(out, self.operator_key.as_slice());
        append(out, self.epoch_id.as_slice());
        append(out, self.participant_id.as_slice());
        append(out, self.trading_key.as_slice());
        append(out, self.nonce.as_slice());
        append(out, u64_to_le_bytes(self.base_atoms).as_slice());
        append(out, u64_to_le_bytes(self.quote_atoms).as_slice());
        append(out, u64_to_le_bytes(self.expiry_slot).as_slice());
        assert(out@ =~= old(out)@ + unsigned_bytes(self@));
    }

    fn message(&self) -> (message: Vec<u8>)
        ensures
            message@ == funded_message(self@),
    {
        let mut out: Vec<u8> = Vec::new();
        append(&mut out, "KAGEB_FUNDED_AUTH_V1\0".as_bytes());
        self.write_unsigned(&mut out);
        assert(out@ =~= funded_message(self@));
        out
    }

    /// Checks an authorization against a policy.
    pub fn verify(&self, policy: &AdmissionPolicyV1) -> (outcome: Result<(), CryptoError>)
        ensures
            outcome == (match authorization_refusal(self@, policy@) {
                Some(error) => Err::<(), _>(error),
                None => Ok(()),
            }),
    {
        if self.version != 1 || !same_array(&self.operator_key, &policy.operator_key)
            || self.base_atoms != policy.base_atoms || self.quote_atoms != policy.quote_atoms
            || self.expiry_slot < policy.current_slot {
            return Err(CryptoError::InvalidAuthorization);
        }
        if !same_array(&self.epoch_id, &policy.epoch_id) {
            return Err(CryptoError::WrongEpoch);
        }
        let message = self.message();
        if verify_with(
            &self.operator_key,
            message.as_slice(),
            &self.operator_signature,
        ) {
            Ok(())
        } else {
            Err(CryptoError::InvalidAuthorization)
        }
    }

    /// The digest that stands for the authorization.
    pub fn hash(&self) -> (hash: [u8; 32])
        ensures
            hash == funded_hash(self@),
    {
        let mut out: Vec<u8> = Vec::new();
        append(&mut out, "KAGEB_FUNDED_AUTH_V1\0".as_bytes());
        let encoded = self.encode();
        append(&mut out, encoded.as_slice());
        digest_of(out.as_slice())
    }

    /// The wire form.
    pub fn encode(&self) -> (encoded: [u8; 249])
        ensures
            encoded@ == funded_bytes(self@),
    {
        proof {
            lemma_funded_layout(self@);
        }
        let mut out: Vec<u8> = Vec::new();
        self.write_unsigned(&mut out);
        append(&mut out, self.operator_signature.as_slice());
        assert(out@ =~= funded_bytes(self@));
        let encoded: [u8; 249] = read_array::<249>(out.as_slice(), 0);
        assert(encoded@ =~= funded_bytes(self@));
        encoded
    }

    /// Reads a wire form; another length or version, or a key that does not decode, is refused.
    pub fn decode(encoded: &[u8]) -> (authorization: Result<Self, CryptoError>)
        ensures
            match authorization {
                Ok(authorization) => funded_valid(authorization@) && encoded@ == funded_bytes(
                    authorization@,
                ),
                Err(error) => error == CryptoError::InvalidAuthorization && (forall|
                    fields: FundedFields,
                |
                    funded_valid(fields) ==> encoded@ != #[trigger] funded_bytes(fields)),
            },
    {
        if encoded.len() != FUNDED_AUTHORIZATION_V1_LEN || encoded[0] != 1 {
            proof {
                assert forall|fields: FundedFields| funded_valid(fields) implies encoded@
                    != #[trigger] funded_bytes(fields) by {
                    lemma_funded_layout(fields);
                }
            }
            return Err(CryptoError::InvalidAuthorization);
        }
        let authorization = FundedAuthorizationV1 {
            version: encoded[0],
            operator_key: read_array::<32>(encoded, 1),
            epoch_id: read_array::<32>(encoded, 33),
            participant_id: read_array::<32>(encoded, 65),
            trading_key: read_array::<32>(encoded, 97),
            nonce: read_array::<32>(encoded, 129),
            base_atoms: u64_from_le_bytes(slice_subrange(encoded, 161, 169)),
            quote_atoms: u64_from_le_bytes(slice_subrange(encoded, 169, 177)),
            expiry_slot: u64_from_le_bytes(slice_subrange(encoded, 177, 185)),
            operator_signature: read_array::<64>(encoded, 185),
        };
        proof {
            lemma_auto_spec_u64_to_from_le_bytes();
            let fields = authorization@;
            assert(spec_u64_to_le_bytes(fields.base_atoms) == encoded@.subrange(161, 169));
            assert(spec_u64_to_le_bytes(fields.quote_atoms) == encoded@.subrange(169, 177));
            assert(spec_u64_to_le_bytes(fields.expiry_slot) == encoded@.subrange(177, 185));
            assert(encoded@ =~= funded_bytes(fields));
            assert forall|other: FundedFields| encoded@ == #[trigger] funded_bytes(
                other,
            ) implies other == fields by {
                law_authorization_wire_is_injective(fields, other);
            }
        }
        if VerifyingKey::from_bytes(&authorization.trading_key).is_none()
            || VerifyingKey::from_bytes(&authorization.operator_key).is_none() {
            return Err(CryptoError::InvalidAuthorization);
        }
        Ok(authorization)
    }
}

/// The message that a trader signs over an order.
pub open spec fn intent_message(fields: IntentFields) -> Seq<u8> {
    encode_utf8("KAGEB_INTENT_V1\0"@) + intent_bytes(fields)
}

/// Why a signed order is refused, where it is.
pub open spec fn intent_refusal(
    signed: (IntentFields, [u8; 64]),
    trading_key: [u8; 32],
    expected_epoch: [u8; 32],
    expected_participant: [u8; 32],
) -> Option<CryptoError> {
    if signed.0.epoch_id != expected_epoch {
        Some(CryptoError::WrongEpoch)
    } else if signed.0.participant_id != expected_participant {
        Some(CryptoError::WrongParticipant)
    } else if !ed25519_verifies(trading_key@, intent_message(signed.0), signed.1@) {
        Some(CryptoError::InvalidInnerSignature)
    } else {
        None
    }
}

/// The wire form of a signed order.
pub open spec fn signed_intent_bytes(fields: IntentFields, signature: [u8; 64]) -> Seq<u8> {
    intent_bytes(fields) + signature@
}

/// An order and the trader's signature over it.
#[derive(Clone, Copy, PartialEq, Eq)]
pub struct SignedIntentV1 {
    body: IntentBodyV1,
    signature: [u8; 64],
}

impl View for SignedIntentV1 {
    type V = (IntentFields, [u8; 64]);

    closed spec fn view(&self) -> (IntentFields, [u8; 64]) {
        (self.body@, self.signature)
    }
}

impl SignedIntentV1 {
    /// The order inside is valid.
    pub open spec fn wf(&self) -> bool {
        intent_valid(self@.0)
    }

    /// Signs an order. The signature verifies under the key that belongs to the signer.
    pub fn sign(body: IntentBodyV1, trading_key: &SigningKey) -> (signed: Self)
        ensures
            signed@ == (body@, ed25519_signed(trading_key.secret()@, intent_message(body@))),
            ed25519_verifies(trading_key.public()@, intent_message(body@), signed@.1@),
            body.wf() ==> signed.wf(),
    {
        let message = intent_message_bytes(&body);
        SignedIntentV1 { body, signature: trading_key.sign(message.as_slice()) }
    }

    /// Checks that an order belongs to an epoch and a participant and was signed by their key.
    pub fn verify(
        &self,
        trading_key: &VerifyingKey,
        expected_epoch: [u8; 32],
        expected_participant: [u8; 32],
    ) -> (outcome: Result<(), CryptoError>)
        ensures
            outcome == (match intent_refusal(
                self@,
                trading_key@,
                expected_epoch,
                expected_participant,
            ) {
                Some(error) => Err::<(), _>(error),
                None => Ok(()),
            }),
    {
        if !same_array(&self.body.epoch_id(), &expected_epoch) {
            return Err(CryptoError::WrongEpoch);
        }
        if !same_array(&self.body.participant_id(), &expected_participant) {
            return Err(CryptoError::WrongParticipant);
        }
        let message = intent_message_bytes(&self.body);
        if trading_key.verify(message.as_slice(), &self.signature) {
            Ok(())
        } else {
            Err(CryptoError::InvalidInnerSignature)
        }
    }

    /// The wire form.
    pub fn encode(&self) -> (encoded: [u8; 192])
        ensures
            encoded@ == signed_intent_bytes(self@.0, self@.1),
    {
        proof {
            lemma_intent_layout(self@.0);
        }
        let mut out: Vec<u8> = Vec::new();
        let body = self.body.encode();
        append(&mut out, body.as_slice());
        append(&mut out, self.signature.as_slice());
        assert(out@ =~= signed_intent_bytes(self@.0, self@.1));
        let encoded: [u8; 192] = read_array::<192>(out.as_slice(), 0);
        assert(encoded@ =~= out@);
        encoded
    }

    /// Reads a wire form; another length, or an order that does not decode, is refused.
    pub fn decode(encoded: &[u8]) -> (signed: Result<Self, CryptoError>)
        ensures
            match signed {
                Ok(signed) => signed.wf() && encoded@ == signed_intent_bytes(signed@.0, signed@.1),
                Err(error) => error == CryptoError::InvalidSignedIntent && (encoded@.len() != 192
                    || intent_error(encoded@.take(128)) is Some),
            },
    {
        if encoded.len() != SIGNED_INTENT_LEN {
            return Err(CryptoError::InvalidSignedIntent);
        }
        let first = slice_subrange(encoded, 0, 128);
        assert(first@ =~= encoded@.take(128));
        match IntentBodyV1::decode(first) {
            Ok(body) => {
                let signature: [u8; 64] = read_array::<64>(encoded, 128);
                assert(encoded@ =~= signed_intent_bytes(body@, signature));
                Ok(SignedIntentV1 { body, signature })
            },
            Err(_) => Err(CryptoError::InvalidSignedIntent),
        }
    }

    pub fn body(&self) -> (body: &IntentBodyV1)
        ensures
            body@ == self@.0,
    {
        &self.body
    }
}

fn intent_message_bytes(body: &IntentBodyV1) -> (message: Vec<u8>)
    ensures
        message@ == intent_message(body@),
{
    let mut out: Vec<u8> = Vec::new();
    append(&mut out, "KAGEB_INTENT_V1\0".as_bytes());
    let encoded = body.encode();
    append(&mut out, encoded.as_slice());
    assert(out@ =~= intent_message(body@));
    out
}

/// A signed order comes back from its wire form, and no other has it.
pub proof fn law_signed_intent_round_trip(
    fields: IntentFields,
    signature: [u8; 64],
    other: IntentFields,
    other_signature: [u8; 64],
)
    requires
        intent_valid(fields),
    ensures
        signed_intent_bytes(fields, signature).len() == 192,
        intent_error(signed_intent_bytes(fields, signature).take(128)) is None,
        signed_intent_bytes(fields, signature) == signed_intent_bytes(other, other_signature)
            ==> fields == other && signature == other_signature,
{
    lemma_intent_layout(fields);
    lemma_intent_layout(other);
    let a = signed_intent_bytes(fields, signature);
    let b = signed_intent_bytes(other, other_signature);
    assert(a.take(128) =~= intent_bytes(fields));
    assert(b.take(128) =~= intent_bytes(other));
    assert(a.skip(128) =~= signature@);
    assert(b.skip(128) =~= other_signature@);
    crate::domain::law_intent_round_trip(fields, other);
    if a == b {
        assert(signature =~= other_signature);
    }
}

/// Whether a byte string is an encrypted order: of the fixed width, and valid.
pub open spec fn is_encrypted_intent(encoded: Seq<u8>) -> bool {
    encoded.len() == ENCRYPTED_INTENT_V1_LEN && ciphertext_valid(encoded)
}

/// An encrypted order.
#[derive(PartialEq, Eq)]
pub struct EncryptedIntentV1 {
    encoded: Vec<u8>,
}

impl View for EncryptedIntentV1 {
    type V = Seq<u8>;

    closed spec fn view(&self) -> Seq<u8> {
        self.encoded@
    }
}

impl EncryptedIntentV1 {
    pub fn as_bytes(&self) -> (bytes: &[u8])
        ensures
            bytes@ == self@,
    {
        self.encoded.as_slice()
    }

    /// Gives up the bytes.
    pub fn into_bytes(self) -> (bytes: Vec<u8>)
        ensures
            bytes@ == self@,
    {
        self.encoded
    }
}

impl Clone for EncryptedIntentV1 {
    fn clone(&self) -> (copy: Self)
        ensures
            copy@ == self@,
    {
        EncryptedIntentV1 { encoded: copy_range(self.encoded.as_slice(), 0, self.encoded.len()) }
    }
}

/// Reads an encrypted order; another width, or a ciphertext that is not valid, is refused.
pub fn decode_ciphertext(encoded: &[u8]) -> (encrypted: Result<EncryptedIntentV1, CryptoError>)
    ensures
        match encrypted {
            Ok(encrypted) => is_encrypted_intent(encoded@) && encrypted@ == encoded@,
            Err(error) => error == CryptoError::InvalidCiphertext && !is_encrypted_intent(encoded@),
        },
{
    if encoded.len() != ENCRYPTED_INTENT_V1_LEN || !ciphertext_verifies(encoded) {
        return Err(CryptoError::InvalidCiphertext);
    }
    let copy = copy_range(encoded, 0, encoded.len());
    assert(copy@ =~= encoded@);
    Ok(EncryptedIntentV1 { encoded: copy })
}

/// What a submission says.
pub struct SubmissionFields {
    pub authorization: FundedFields,
    pub ciphertext: Seq<u8>,
    pub receipt: [u8; 32],
    pub outer_signature: [u8; 64],
}

/// The message that a trader signs over a submission.
pub open spec fn submission_message(
    epoch_id: [u8; 32],
    authorization_hash: [u8; 32],
    ciphertext_hash: [u8; 32],
    receipt: [u8; 32],
) -> Seq<u8> {
    encode_utf8("KAGEB_SUBMISSION_V1\0"@) + epoch_id@ + authorization_hash@ + ciphertext_hash@
        + receipt@
}

/// The message that a trader signs over a submission with these parts.
pub open spec fn outer_message(
    authorization: FundedFields,
    ciphertext: Seq<u8>,
    receipt: [u8; 32],
) -> Seq<u8> {
    submission_message(
        authorization.epoch_id,
        funded_hash(authorization),
        sha256(ciphertext),
        receipt,
    )
}

/// Why a policy refuses a submission, where it does: first for its authorization, then for a zero
/// receipt, the ciphertext, the trading key, and the trader's signature.
pub open spec fn submission_refusal(fields: SubmissionFields, policy: PolicyFields) -> Option<
    CryptoError,
> {
    if authorization_refusal(fields.authorization, policy) is Some {
        authorization_refusal(fields.authorization, policy)
    } else if fields.receipt@ == zeros(32) {
        Some(CryptoError::InvalidReceipt)
    } else if !is_encrypted_intent(fields.ciphertext) {
        Some(CryptoError::InvalidCiphertext)
    } else if !ed25519_key(fields.authorization.trading_key@) {
        Some(CryptoError::InvalidAuthorization)
    } else if !ed25519_verifies(
        fields.authorization.trading_key@,
        outer_message(fields.authorization, fields.ciphertext, fields.receipt),
        fields.outer_signature@,
    ) {
        Some(CryptoError::InvalidOuterSignature)
    } else {
        None
    }
}

/// What a submission commits a batch to: everything but the ciphertext, which its digest stands
/// for.
pub open spec fn commitment_bytes_of(fields: SubmissionFields) -> Seq<u8> {
    funded_bytes(fields.authorization) + sha256(fields.ciphertext)@ + fields.receipt@
        + fields.outer_signature@
}

/// The wire form of a submission.
pub open spec fn submission_bytes(fields: SubmissionFields) -> Seq<u8> {
    funded_bytes(fields.authorization) + fields.ciphertext + fields.receipt@
        + fields.outer_signature@
}

/// An encrypted order with its authorization, a receipt, and the trader's signature over all three.
#[derive(PartialEq, Eq)]
pub struct EncryptedSubmissionV1 {
    authorization: FundedAuthorizationV1,
    ciphertext: Vec<u8>,
    receipt: [u8; 32],
    outer_signature: [u8; 64],
}

impl View for EncryptedSubmissionV1 {
    type V = SubmissionFields;

    closed spec fn view(&self) -> SubmissionFields {
        SubmissionFields {
            authorization: self.authorization@,
            ciphertext: self.ciphertext@,
            receipt: self.receipt,
            outer_signature: self.outer_signature,
        }
    }
}

impl Clone for EncryptedSubmissionV1 {
    fn clone(&self) -> (copy: Self)
        ensures
            copy@ == self@,
    {
        let ciphertext = copy_range(self.ciphertext.as_slice(), 0, self.ciphertext.len());
        assert(ciphertext@ =~= self.ciphertext@);
        EncryptedSubmissionV1 {
            authorization: self.authorization,
            ciphertext,
            receipt: self.receipt,
            outer_signature: self.outer_signature,
        }
    }
}

fn submission_message_bytes(
    epoch_id: &[u8; 32],
    authorization_hash: &[u8; 32],
    ciphertext_hash: &[u8; 32],
    receipt: &[u8; 32],
) -> (message: Vec<u8>)
    ensures
        message@ == submission_message(*epoch_id, *authorization_hash, *ciphertext_hash, *receipt),
{
    let mut out: Vec<u8> = Vec::new();
    append(&mut out, "KAGEB_SUBMISSION_V1\0".as_bytes());
    append(&mut out, epoch_id.as_slice());
    append(&mut out, authorization_hash.as_slice());
    append(&mut out, ciphertext_hash.as_slice());
    append(&mut out, receipt.as_slice());
    assert(out@ =~= submission_message(
        *epoch_id,
        *authorization_hash,
        *ciphertext_hash,
        *receipt,
    ));
    out
}

impl EncryptedSubmissionV1 {
    pub fn participant_id(&self) -> (participant_id: [u8; 32])
        ensures
            participant_id == self@.authorization.participant_id,
    {
        self.authorization.participant_id
    }

    pub fn authorization(&self) -> (authorization: &FundedAuthorizationV1)
        ensures
            authorization@ == self@.authorization,
    {
        &self.authorization
    }

    pub fn ciphertext(&self) -> (ciphertext: &[u8])
        ensures
            ciphertext@ == self@.ciphertext,
    {
        self.ciphertext.as_slice()
    }

    pub fn receipt(&self) -> (receipt: [u8; 32])
        ensures
            receipt == self@.receipt,
    {
        self.receipt
    }

    /// Signs a submission. A zero receipt is refused first, then a key that is not the authorized
    /// one. A policy that accepts the authorization accepts the submission of a valid ciphertext.
    pub fn sign(
        authorization: FundedAuthorizationV1,
        encrypted: EncryptedIntentV1,
        receipt: [u8; 32],
        trading_key: &SigningKey,
    ) -> (submission: Result<Self, CryptoError>)
        ensures
            match submission {
                Ok(submission) => {
                    &&& receipt@ != zeros(32)
                    &&& trading_key.public() == authorization@.trading_key
                    &&& submission@ == (SubmissionFields {
                        authorization: authorization@,
                        ciphertext: encrypted@,
                        receipt,
                        outer_signature: ed25519_signed(
                            trading_key.secret()@,
                            outer_message(authorization@, encrypted@, receipt),
                        ),
                    })
                    &&& forall|policy: PolicyFields|
                        is_encrypted_intent(encrypted@) && authorization_refusal(
                            authorization@,
                            policy,
                        ) is None ==> (#[trigger] submission_refusal(submission@, policy)) is None
                },
                Err(error) => if receipt@ == zeros(32) {
                    error == CryptoError::InvalidReceipt
                } else {
                    error == CryptoError::WrongTradingKey && trading_key.public()
                        != authorization@.trading_key
                },
            },
    {
        if is_zero(receipt.as_slice()) {
            return Err(CryptoError::InvalidReceipt);
        }
        let public = trading_key.verifying_key();
        if !same_array(&public.to_bytes(), &authorization.trading_key) {
            return Err(CryptoError::WrongTradingKey);
        }
        let ciphertext = encrypted.into_bytes();
        let message = submission_message_bytes(
            &authorization.epoch_id,
            &authorization.hash(),
            &digest_of(ciphertext.as_slice()),
            &receipt,
        );
        let outer_signature = trading_key.sign(message.as_slice());
        Ok(EncryptedSubmissionV1 { authorization, ciphertext, receipt, outer_signature })
    }

    pub fn from_wire_parts(
        authorization: FundedAuthorizationV1,
        ciphertext: Vec<u8>,
        receipt: [u8; 32],
        outer_signature: [u8; 64],
    ) -> (submission: Self)
        ensures
            submission@ == (SubmissionFields {
                authorization: authorization@,
                ciphertext: ciphertext@,
                receipt,
                outer_signature,
            }),
    {
        EncryptedSubmissionV1 { authorization, ciphertext, receipt, outer_signature }
    }

    pub fn into_wire_parts(self) -> (parts: (FundedAuthorizationV1, Vec<u8>, [u8; 32], [u8; 64]))
        ensures
            parts.0@ == self@.authorization,
            parts.1@ == self@.ciphertext,
            parts.2 == self@.receipt,
            parts.3 == self@.outer_signature,
    {
        (self.authorization, self.ciphertext, self.receipt, self.outer_signature)
    }

    /// Checks a submission against a policy, without looking into the ciphertext.
    pub fn verify_admission(&self, policy: &AdmissionPolicyV1) -> (outcome: Result<(), CryptoError>)
        ensures
            outcome == (match submission_refusal(self@, policy@) {
                Some(error) => Err::<(), _>(error),
                None => Ok(()),
            }),
    {
        match self.authorization.verify(policy) {
            Ok(_) => {},
            Err(error) => {
                return Err(error);
            },
        }
        if is_zero(self.receipt.as_slice()) {
            return Err(CryptoError::InvalidReceipt);
        }
        match decode_ciphertext(self.ciphertext.as_slice()) {
            Ok(_) => {},
            Err(error) => {
                return Err(error);
            },
        }
        let trading_key = match VerifyingKey::from_bytes(&self.authorization.trading_key) {
            Some(trading_key) => trading_key,
            None => {
                return Err(CryptoError::InvalidAuthorization);
            },
        };
        let message = submission_message_bytes(
            &self.authorization.epoch_id,
            &self.authorization.hash(),
            &digest_of(self.ciphertext.as_slice()),
            &self.receipt,
        );
        if trading_key.verify(message.as_slice(), &self.outer_signature) {
            Ok(())
        } else {
            Err(CryptoError::InvalidOuterSignature)
        }
    }

    /// What the submission commits a batch to.
    pub fn commitment_bytes(&self) -> (bytes: Vec<u8>)
        ensures
            bytes@ == commitment_bytes_of(self@),
    {
        let mut out: Vec<u8> = Vec::new();
        let authorization = self.authorization.encode();
        let digest = digest_of(self.ciphertext.as_slice());
        append(&mut out, authorization.as_slice());
        append(&mut out, digest.as_slice());
        append(&mut out, self.receipt.as_slice());
        append(&mut out, self.outer_signature.as_slice());
        assert(out@ =~= commitment_bytes_of(self@));
        out
    }

    /// The wire form.
    pub fn encode_wire(&self) -> (bytes: Vec<u8>)
        ensures
            bytes@ == submission_bytes(self@),
    {
        let mut out: Vec<u8> = Vec::new();
        self.write(&mut out);
        assert(out@ =~= submission_bytes(self@));
        out
    }

    /// Reads a wire form; another width is refused first, then an authorization that does not
    /// decode.
    pub fn decode_wire(bytes: &[u8]) -> (submission: Result<Self, CryptoError>)
        ensures
            match submission {
                Ok(submission) => <Self as Entry>::valid(submission@) && bytes@ == submission_bytes(
                    submission@,
                ),
                Err(error) => if bytes@.len() != ENCRYPTED_SUBMISSION_V1_LEN {
                    error == CryptoError::InvalidCiphertext
                } else {
                    error == CryptoError::InvalidAuthorization && (forall|fields: FundedFields|
                        funded_valid(fields) ==> bytes@.take(249) != #[trigger] funded_bytes(
                            fields,
                        ))
                },
            },
    {
        if bytes.len() != ENCRYPTED_SUBMISSION_V1_LEN {
            return Err(CryptoError::InvalidCiphertext);
        }
        let first = slice_subrange(bytes, 0, 249);
        assert(first@ =~= bytes@.take(249));
        let authorization = match FundedAuthorizationV1::decode(first) {
            Ok(authorization) => authorization,
            Err(error) => {
                return Err(error);
            },
        };
        let submission = EncryptedSubmissionV1 {
            authorization,
            ciphertext: copy_range(bytes, 249, 593),
            receipt: read_array::<32>(bytes, 593),
            outer_signature: read_array::<64>(bytes, 625),
        };
        assert(bytes@ =~= submission_bytes(submission@));
        Ok(submission)
    }
}

impl Entry for EncryptedSubmissionV1 {
    open spec fn width() -> nat {
        689
    }

    open spec fn valid(value: SubmissionFields) -> bool {
        funded_valid(value.authorization) && value.ciphertext.len() == 344
    }

    open spec fn encoded(value: SubmissionFields) -> Seq<u8> {
        submission_bytes(value)
    }

    proof fn lemma_encoded(a: SubmissionFields, b: SubmissionFields) {
        if Self::valid(a) {
            lemma_submission_layout(a);
        }
        if Self::valid(a) && Self::valid(b) && Self::encoded(a) == Self::encoded(b) {
            lemma_submission_layout(b);
            law_authorization_wire_is_injective(a.authorization, b.authorization);
            assert(a.receipt =~= b.receipt);
            assert(a.outer_signature =~= b.outer_signature);
        }
    }

    fn size() -> (size: usize) {
        689
    }

    fn parse(bytes: &[u8]) -> (record: Option<Self>) {
        match Self::decode_wire(bytes) {
            Ok(submission) => Some(submission),
            Err(_) => {
                proof {
                    assert forall|value: SubmissionFields| Self::valid(value) implies bytes@
                        != #[trigger] Self::encoded(value) by {
                        if bytes@ == Self::encoded(value) {
                            lemma_submission_layout(value);
                            assert(bytes@.take(249) =~= funded_bytes(value.authorization));
                        }
                    }
                }
                None
            },
        }
    }

    fn write(&self, out: &mut Vec<u8>) {
        let authorization = self.authorization.encode();
        append(out, authorization.as_slice());
        append(out, self.ciphertext.as_slice());
        append(out, self.receipt.as_slice());
        append(out, self.outer_signature.as_slice());
        assert(out@ =~= old(out)@ + submission_bytes(self@));
    }
}

/// A submission comes back from its wire form, and no other has it: bytes that are changed, cut or
/// added to are not its wire form.
pub proof fn law_submission_round_trip(fields: SubmissionFields, other: SubmissionFields)
    requires
        <EncryptedSubmissionV1 as Entry>::valid(fields),
        <EncryptedSubmissionV1 as Entry>::valid(other),
    ensures
        submission_bytes(fields).len() == ENCRYPTED_SUBMISSION_V1_LEN,
        submission_bytes(fields).take(249) == funded_bytes(fields.authorization),
        submission_bytes(fields) == submission_bytes(other) ==> fields == other,
{
    lemma_submission_layout(fields);
    assert(submission_bytes(fields).take(249) =~= submission_bytes(fields).subrange(0, 249));
    <EncryptedSubmissionV1 as Entry>::lemma_encoded(fields, other);
}

proof fn lemma_submission_layout(fields: SubmissionFields)
    requires
        fields.ciphertext.len() == 344,
    ensures
        submission_bytes(fields).len() == 689,
        submission_bytes(fields).subrange(0, 249) == funded_bytes(fields.authorization),
        submission_bytes(fields).subrange(249, 593) == fields.ciphertext,
        submission_bytes(fields).subrange(593, 625) == fields.receipt@,
        submission_bytes(fields).subrange(625, 689) == fields.outer_signature@,
{
    lemma_funded_layout(fields.authorization);
    let bytes = submission_bytes(fields);
    assert(bytes.subrange(0, 249) =~= funded_bytes(fields.authorization));
    assert(bytes.subrange(249, 593) =~= fields.ciphertext);
    assert(bytes.subrange(593, 625) =~= fields.receipt@);
    assert(bytes.subrange(625, 689) =~= fields.outer_signature@);
}

/// A signed order stands exactly where it is of the expected epoch and participant and the trading key
/// signed it under the tag of orders; what fails first is named.
pub proof fn law_signed_orders_are_exact(
    signed: (IntentFields, [u8; 64]),
    trading_key: [u8; 32],
    epoch: [u8; 32],
    participant: [u8; 32],
)
    ensures
        ({
            let refusal = intent_refusal(signed, trading_key, epoch, participant);
            let signs = ed25519_verifies(
                trading_key@,
                encode_utf8("KAGEB_INTENT_V1\0"@) + intent_bytes(signed.0),
                signed.1@,
            );
            &&& refusal is None <==> signed.0.epoch_id == epoch && signed.0.participant_id
                == participant && signs
            &&& refusal == Some(CryptoError::WrongEpoch) <==> signed.0.epoch_id != epoch
            &&& refusal == Some(CryptoError::WrongParticipant) <==> signed.0.epoch_id == epoch
                && signed.0.participant_id != participant
            &&& refusal == Some(CryptoError::InvalidInnerSignature) <==> signed.0.epoch_id == epoch
                && signed.0.participant_id == participant && !signs
        }),
{
}

} // verus!
