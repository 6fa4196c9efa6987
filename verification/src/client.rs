//! What a participant's client prepares and checks.

use crate::bytes::{is_zero, read_array, same_array, same_bytes, zeros};
use crate::crypto::{
    authorization_refusal, funded_bytes, intent_message, is_encrypted_intent, outer_message,
    signed_intent_bytes, submission_bytes, submission_refusal, EncryptedSubmissionV1,
    FundedAuthorizationV1, FundedFields, PolicyFields, SignedIntentV1, SubmissionFields,
};
use crate::domain::{IntentBodyV1, IntentFields, Side};
use crate::encodings::{
    base58_decode, base58_decoded, base58_encode, base58_text, base64_decode, base64_decoded,
    base64_encode, base64_text, same_text,
};
use crate::hash::{digest_of, sha256};
use crate::ledger::PoolBalance;
use crate::shares::EpochPublicKeys;
use crate::signing::{ed25519_signed, SigningKey};
use crate::threshold::{key_set, opens_to, random_bytes, KEY_SET_LEN};
use vstd::prelude::*;
use vstd::slice::slice_subrange;
use vstd::string::*;

verus! {

pub const CLIENT_SCHEMA_VERSION: u8 = 1;

pub const MAX_CLIENT_REQUEST_LEN: usize = 16384;

pub const MAX_KEYPAIR_FILE_LEN: usize = 1024;

pub const SOLANA_KEYPAIR_LEN: usize = 64;

/// Why a client refuses.
#[derive(Clone, Copy, Debug, PartialEq, Eq, Structural)]
pub enum ClientPrepareError {
    Input,
    KeyFile,
    Request,
    Entropy,
    Output,
}

impl ClientPrepareError {
    /// The sentence that describes a failure.
    pub open spec fn text(self) -> Seq<char> {
        match self {
            ClientPrepareError::Input => "input unavailable or too large"@,
            ClientPrepareError::KeyFile => "keypair file rejected"@,
            ClientPrepareError::Request => "request rejected"@,
            ClientPrepareError::Entropy => "OS randomness unavailable"@,
            ClientPrepareError::Output => "output unavailable"@,
        }
    }

    /// The sentence that describes a failure.
    pub fn message(&self) -> (message: &'static str)
        ensures
            message@ == self.text(),
    {
        match self {
            ClientPrepareError::Input => "input unavailable or too large",
            ClientPrepareError::KeyFile => "keypair file rejected",
            ClientPrepareError::Request => "request rejected",
            ClientPrepareError::Entropy => "OS randomness unavailable",
            ClientPrepareError::Output => "output unavailable",
        }
    }
}

/// The bytes of an identifier that text names in base58, where it is the one text for them.
pub open spec fn id_named(text: Seq<char>) -> Option<Seq<u8>> {
    match base58_decoded(text) {
        Some(bytes) => if bytes.len() == 32 && base58_text(bytes) == text {
            Some(bytes)
        } else {
            None
        },
        None => None,
    }
}

/// The identifier that text names in base58.
pub fn decode_base58_32(encoded: &str) -> (id: Result<[u8; 32], ClientPrepareError>)
    ensures
        match id {
            Ok(id) => id_named(encoded@) == Some(id@),
            Err(error) => error == ClientPrepareError::Request && id_named(encoded@) is None,
        },
{
    let decoded = match base58_decode(encoded) {
        Some(decoded) => decoded,
        None => {
            return Err(ClientPrepareError::Request);
        },
    };
    if decoded.len() != 32 {
        return Err(ClientPrepareError::Request);
    }
    let again = base58_encode(decoded.as_slice());
    if !same_text(again.as_str(), encoded) {
        return Err(ClientPrepareError::Request);
    }
    let id = read_array::<32>(decoded.as_slice(), 0);
    assert(id@ =~= decoded@);
    Ok(id)
}

/// The bytes that text holds in base64, where it is the one text for them.
pub open spec fn bytes_named(text: Seq<char>) -> Option<Seq<u8>> {
    match base64_decoded(text) {
        Some(bytes) => if base64_text(bytes) == text {
            Some(bytes)
        } else {
            None
        },
        None => None,
    }
}

/// The bytes that text holds in base64.
pub fn decode_canonical_base64(encoded: &str) -> (bytes: Result<Vec<u8>, ClientPrepareError>)
    ensures
        match bytes {
            Ok(bytes) => bytes_named(encoded@) == Some(bytes@),
            Err(error) => error == ClientPrepareError::Request && bytes_named(encoded@) is None,
        },
{
    let decoded = match base64_decode(encoded) {
        Some(decoded) => decoded,
        None => {
            return Err(ClientPrepareError::Request);
        },
    };
    let again = base64_encode(decoded.as_slice());
    if !same_text(again.as_str(), encoded) {
        return Err(ClientPrepareError::Request);
    }
    Ok(decoded)
}

/// Whether a request is one that is read.
pub open spec fn request_fits(len: int) -> bool {
    0 < len <= MAX_CLIENT_REQUEST_LEN
}

/// Whether a key file is a small file that its owner alone can read and write.
pub open spec fn key_file_private(is_file: bool, len: u64, mode: u32) -> bool {
    is_file && len <= MAX_KEYPAIR_FILE_LEN && mode & 0o777u32 == 0o600u32
}

/// Checks the length of a request that a client was sent.
pub fn check_request_len(len: usize) -> (outcome: Result<(), ClientPrepareError>)
    ensures
        outcome == (if request_fits(len as int) {
            Ok::<(), _>(())
        } else {
            Err(ClientPrepareError::Input)
        }),
{
    if len == 0 || len > MAX_CLIENT_REQUEST_LEN {
        Err(ClientPrepareError::Input)
    } else {
        Ok(())
    }
}

/// Checks what a key file is: a regular file of a bounded length that only its owner may read and
/// write.
pub fn check_key_file(is_file: bool, len: u64, mode: u32) -> (outcome: Result<
    (),
    ClientPrepareError,
>)
    ensures
        outcome == (if key_file_private(is_file, len, mode) {
            Ok::<(), _>(())
        } else {
            Err(ClientPrepareError::KeyFile)
        }),
{
    if !is_file || len > MAX_KEYPAIR_FILE_LEN as u64 || mode & 0o777u32 != 0o600u32 {
        Err(ClientPrepareError::KeyFile)
    } else {
        Ok(())
    }
}

/// The bytes that a JSON text lists as an array of numbers.
pub uninterp spec fn json_bytes(encoded: Seq<u8>) -> Option<Seq<u8>>;

/// `serde_json::from_slice` into `Vec<u8>`: the bytes depend on the text.
#[verifier::external_body]
fn read_json_bytes(encoded: &[u8]) -> (bytes: Option<Vec<u8>>)
    ensures
        match bytes {
            Some(bytes) => json_bytes(encoded@) == Some(bytes@),
            None => json_bytes(encoded@) is None,
        },
{
    serde_json::from_slice::<Vec<u8>>(encoded).ok()
}

/// Whether bytes are a keypair: a secret, and the verifying key that belongs to it.
pub open spec fn is_keypair(bytes: Seq<u8>, secret: [u8; 32], public: [u8; 32]) -> bool {
    bytes.len() == SOLANA_KEYPAIR_LEN && bytes.subrange(0, 32) == secret@ && bytes.subrange(32, 64)
        == public@
}

/// The signing key of a keypair.
pub fn trading_key_from_keypair(bytes: &[u8]) -> (key: Result<SigningKey, ClientPrepareError>)
    ensures
        match key {
            Ok(key) => is_keypair(bytes@, key.secret(), key.public()),
            Err(error) => error == ClientPrepareError::KeyFile && (forall|key: SigningKey|
                !is_keypair(bytes@, #[trigger] key.secret(), key.public())),
        },
{
    if bytes.len() != SOLANA_KEYPAIR_LEN {
        return Err(ClientPrepareError::KeyFile);
    }
    let seed = read_array::<32>(bytes, 0);
    let key = SigningKey::from_bytes(&seed);
    let public = key.verifying_key().to_bytes();
    if !same_bytes(public.as_slice(), slice_subrange(bytes, 32, 64)) {
        proof {
            assert forall|other: SigningKey| !is_keypair(
                bytes@,
                #[trigger] other.secret(),
                other.public(),
            ) by {
                if is_keypair(bytes@, other.secret(), other.public()) {
                    assert(other.secret() =~= seed);
                }
            }
        }
        return Err(ClientPrepareError::KeyFile);
    }
    Ok(key)
}

/// The signing key of a key file: a JSON array of the bytes of a keypair, not empty and of a bounded
/// length.
pub fn trading_key_from_file(encoded: &[u8]) -> (key: Result<SigningKey, ClientPrepareError>)
    ensures
        match key {
            Ok(key) => 0 < encoded@.len() <= MAX_KEYPAIR_FILE_LEN && (json_bytes(encoded@) matches Some(
                bytes,
            ) && is_keypair(bytes, key.secret(), key.public())),
            Err(error) => error == ClientPrepareError::KeyFile && (encoded@.len() == 0
                || encoded@.len() > MAX_KEYPAIR_FILE_LEN || match json_bytes(encoded@) {
                Some(bytes) => forall|key: SigningKey|
                    !is_keypair(bytes, #[trigger] key.secret(), key.public()),
                None => true,
            }),
        },
{
    if encoded.len() == 0 || encoded.len() > MAX_KEYPAIR_FILE_LEN {
        return Err(ClientPrepareError::KeyFile);
    }
    match read_json_bytes(encoded) {
        Some(bytes) => trading_key_from_keypair(bytes.as_slice()),
        None => Err(ClientPrepareError::KeyFile),
    }
}

/// What an order to prepare says.
pub struct PrepareFields {
    pub side: Side,
    pub limit_price: u64,
    pub epoch_id: [u8; 32],
    pub participant_id: [u8; 32],
    pub authorization: FundedFields,
    pub keys: Seq<u8>,
}

/// An order to prepare.
pub struct PrepareOrderV1 {
    side: Side,
    limit_price: u64,
    epoch_id: [u8; 32],
    participant_id: [u8; 32],
    authorization: FundedAuthorizationV1,
    public_keys: EpochPublicKeys,
}

impl View for PrepareOrderV1 {
    type V = PrepareFields;

    closed spec fn view(&self) -> PrepareFields {
        PrepareFields {
            side: self.side,
            limit_price: self.limit_price,
            epoch_id: self.epoch_id,
            participant_id: self.participant_id,
            authorization: self.authorization@,
            keys: self.public_keys@,
        }
    }
}

/// Whether an order may be prepared: at a limit, under an authorization of its epoch and participant.
pub open spec fn order_preparable(
    limit_price: u64,
    epoch_id: [u8; 32],
    participant_id: [u8; 32],
    authorization: FundedFields,
) -> bool {
    limit_price != 0 && authorization.epoch_id == epoch_id && authorization.participant_id
        == participant_id
}

impl PrepareOrderV1 {
    /// Every order to prepare has a limit and an authorization of its own.
    pub open spec fn wf(&self) -> bool {
        order_preparable(
            self@.limit_price,
            self@.epoch_id,
            self@.participant_id,
            self@.authorization,
        )
    }

    /// An order to prepare; no limit, or an authorization of another epoch or participant, is
    /// refused.
    pub fn new(
        side: Side,
        limit_price: u64,
        epoch_id: [u8; 32],
        participant_id: [u8; 32],
        authorization: FundedAuthorizationV1,
        public_keys: EpochPublicKeys,
    ) -> (order: Result<Self, ClientPrepareError>)
        ensures
            match order {
                Ok(order) => order.wf() && order@ == (PrepareFields {
                    side,
                    limit_price,
                    epoch_id,
                    participant_id,
                    authorization: authorization@,
                    keys: public_keys@,
                }),
                Err(error) => error == ClientPrepareError::Request && !order_preparable(
                    limit_price,
                    epoch_id,
                    participant_id,
                    authorization@,
                ),
            },
    {
        if limit_price == 0 || !same_array(&authorization.epoch_id(), &epoch_id) || !same_array(
            &authorization.participant_id(),
            &participant_id,
        ) {
            return Err(ClientPrepareError::Request);
        }
        Ok(
            PrepareOrderV1 {
                side,
                limit_price,
                epoch_id,
                participant_id,
                authorization,
                public_keys,
            },
        )
    }
}

/// A prepared order: the signed order, and the submission that carries it encrypted.
pub struct PreparedOrderV1 {
    signed_intent: SignedIntentV1,
    submission: EncryptedSubmissionV1,
}

impl PreparedOrderV1 {
    /// The signed order.
    pub closed spec fn intent(&self) -> (IntentFields, [u8; 64]) {
        self.signed_intent@
    }

    /// The submission.
    pub closed spec fn sent(&self) -> SubmissionFields {
        self.submission@
    }

    pub fn signed_intent(&self) -> (intent: &SignedIntentV1)
        ensures
            intent@ == self.intent(),
    {
        &self.signed_intent
    }

    pub fn submission(&self) -> (submission: &EncryptedSubmissionV1)
        ensures
            submission@ == self.sent(),
    {
        &self.submission
    }
}

/// The order that an order to prepare becomes.
pub open spec fn intent_to_sign(order: PrepareFields, intent_nonce: [u8; 16]) -> IntentFields {
    IntentFields {
        side: order.side,
        lots: 1,
        limit_price: order.limit_price,
        epoch_id: order.epoch_id,
        participant_id: order.participant_id,
        client_nonce: intent_nonce,
    }
}

/// Whether a submission is that of an order: it carries the order encrypted, so that any two shares
/// open it, under the authorization and the receipt, signed by the trading key.
pub open spec fn submits(
    submission: SubmissionFields,
    order: PrepareFields,
    intent: (IntentFields, [u8; 64]),
    secret: [u8; 32],
    receipt: [u8; 32],
) -> bool {
    &&& submission.authorization == order.authorization
    &&& submission.receipt == receipt
    &&& is_encrypted_intent(submission.ciphertext)
    &&& opens_to(order.keys, submission.ciphertext, signed_intent_bytes(intent.0, intent.1))
    &&& submission.outer_signature == ed25519_signed(
        secret@,
        outer_message(order.authorization, submission.ciphertext, receipt),
    )
}

/// Whether every policy that accepts the authorization of a submission admits the submission.
pub open spec fn admitted_where_authorized(submission: SubmissionFields) -> bool {
    forall|policy: PolicyFields|
        authorization_refusal(submission.authorization, policy) is None ==> (
        #[trigger] submission_refusal(submission, policy)) is None
}

/// Prepares an order: signs it, encrypts it and signs its submission. A zero receipt and a key that is
/// not the authorized one are refused. The ciphertext is drawn at random; whatever it is, a policy that
/// accepts the authorization admits the submission.
pub fn prepare_order(
    request: PrepareOrderV1,
    trading_key: &SigningKey,
    intent_nonce: [u8; 16],
    receipt: [u8; 32],
) -> (prepared: Result<PreparedOrderV1, ClientPrepareError>)
    requires
        request.wf(),
    ensures
        match prepared {
            Ok(prepared) => {
                let intent = intent_to_sign(request@, intent_nonce);
                &&& receipt@ != zeros(32)
                &&& request@.authorization.trading_key == trading_key.public()
                &&& prepared.intent() == (
                    intent,
                    ed25519_signed(
                        trading_key.secret()@,
                        intent_message(intent),
                    ),
                )
                &&& submits(
                    prepared.sent(),
                    request@,
                    prepared.intent(),
                    trading_key.secret(),
                    receipt,
                )
                &&& admitted_where_authorized(prepared.sent())
            },
            Err(error) => error == ClientPrepareError::Request && (receipt@ == zeros(32)
                || request@.authorization.trading_key != trading_key.public()),
        },
{
    if is_zero(receipt.as_slice()) || !same_array(
        &request.authorization.trading_key(),
        &trading_key.verifying_key().to_bytes(),
    ) {
        return Err(ClientPrepareError::Request);
    }
    let body = match IntentBodyV1::new(
        request.side,
        1,
        request.limit_price,
        request.epoch_id,
        request.participant_id,
        intent_nonce,
    ) {
        Ok(body) => body,
        Err(_) => {
            return Err(ClientPrepareError::Request);
        },
    };
    let signed_intent = SignedIntentV1::sign(body, trading_key);
    let encrypted = match request.public_keys.encrypt(&signed_intent) {
        Ok(encrypted) => encrypted,
        Err(_) => {
            return Err(ClientPrepareError::Request);
        },
    };
    match EncryptedSubmissionV1::sign(request.authorization, encrypted, receipt, trading_key) {
        Ok(submission) => Ok(PreparedOrderV1 { signed_intent, submission }),
        Err(_) => Err(ClientPrepareError::Request),
    }
}

/// The receipt that random bytes become: the zero one is avoided.
pub open spec fn receipt_bytes(random: Seq<u8>) -> Seq<u8> {
    if random == zeros(32) {
        zeros(32).update(0, 1u8)
    } else {
        random
    }
}

/// A receipt made of random bytes: never the zero one.
pub fn receipt_from(random: [u8; 32]) -> (receipt: [u8; 32])
    ensures
        receipt@ != zeros(32),
        receipt@ == receipt_bytes(random@),
{
    if !is_zero(random.as_slice()) {
        return random;
    }
    let mut receipt = random;
    receipt[0] = 1;
    assert(receipt@ =~= zeros(32).update(0, 1u8));
    assert(receipt@[0] == 1);
    receipt
}

/// A request to prepare an order.
pub struct ClientPrepareRequest {
    pub schema_version: u8,
    pub side: Side,
    pub limit_price: u64,
    pub epoch_id: String,
    pub participant_id: String,
    pub funded_authorization_base64: String,
    pub epoch_public_keys_base64: String,
}

/// Whether text holds the wire form of an authorization.
pub open spec fn holds_authorization(text: Seq<char>, fields: FundedFields) -> bool {
    crate::crypto::funded_valid(fields) && bytes_named(text) == Some(funded_bytes(fields))
}

/// The keys that text holds, where it holds a key set of threshold one.
pub open spec fn keys_named(text: Seq<char>) -> Option<Seq<u8>> {
    match bytes_named(text) {
        Some(bytes) => match key_set(bytes) {
            Some((keys, threshold)) => if bytes.len() == KEY_SET_LEN && threshold == 1 {
                Some(keys)
            } else {
                None
            },
            None => None,
        },
        None => None,
    }
}

/// What a request to prepare an order asks for, before it is known whether its authorization is of its
/// epoch and participant.
pub struct PrepareTerms {
    side: Side,
    limit_price: u64,
    epoch_id: [u8; 32],
    participant_id: [u8; 32],
    authorization: FundedAuthorizationV1,
    public_keys: EpochPublicKeys,
}

impl View for PrepareTerms {
    type V = PrepareFields;

    closed spec fn view(&self) -> PrepareFields {
        PrepareFields {
            side: self.side,
            limit_price: self.limit_price,
            epoch_id: self.epoch_id,
            participant_id: self.participant_id,
            authorization: self.authorization@,
            keys: self.public_keys@,
        }
    }
}

impl PrepareTerms {
    /// The order that is asked for; an authorization of another epoch or participant is refused.
    pub fn into_order(self) -> (order: Result<PrepareOrderV1, ClientPrepareError>)
        ensures
            match order {
                Ok(order) => order.wf() && order@ == self@,
                Err(error) => error == ClientPrepareError::Request && !fields_preparable(self@),
            },
    {
        PrepareOrderV1::new(
            self.side,
            self.limit_price,
            self.epoch_id,
            self.participant_id,
            self.authorization,
            self.public_keys,
        )
    }
}

/// Whether what is asked for may be prepared.
pub open spec fn fields_preparable(order: PrepareFields) -> bool {
    order_preparable(
        order.limit_price,
        order.epoch_id,
        order.participant_id,
        order.authorization,
    )
}

/// Whether a request to prepare an order asks for an order at a limit, whatever its authorization is
/// of.
pub open spec fn asks_to_prepare(request: ClientPrepareRequest, order: PrepareFields) -> bool {
    &&& request.schema_version == CLIENT_SCHEMA_VERSION
    &&& order.side == request.side
    &&& order.limit_price == request.limit_price
    &&& order.limit_price != 0
    &&& id_named(request.epoch_id@) == Some(order.epoch_id@)
    &&& id_named(request.participant_id@) == Some(order.participant_id@)
    &&& holds_authorization(request.funded_authorization_base64@, order.authorization)
    &&& keys_named(request.epoch_public_keys_base64@) == Some(order.keys)
}

/// Reads a request to prepare an order. Whether its authorization is of its epoch and participant is
/// left to the preparation, which follows the reading of the trading key.
pub fn read_prepare_request(request: &ClientPrepareRequest) -> (terms: Result<
    PrepareTerms,
    ClientPrepareError,
>)
    ensures
        match terms {
            Ok(terms) => asks_to_prepare(*request, terms@),
            Err(error) => error == ClientPrepareError::Request && (forall|order: PrepareFields|
                !#[trigger] asks_to_prepare(*request, order)),
        },
{
    if request.schema_version != CLIENT_SCHEMA_VERSION || request.limit_price == 0 {
        return Err(ClientPrepareError::Request);
    }
    let epoch_id = match decode_base58_32(request.epoch_id.as_str()) {
        Ok(id) => id,
        Err(error) => {
            return Err(error);
        },
    };
    let participant_id = match decode_base58_32(request.participant_id.as_str()) {
        Ok(id) => id,
        Err(error) => {
            return Err(error);
        },
    };
    let authorization_wire = match decode_canonical_base64(
        request.funded_authorization_base64.as_str(),
    ) {
        Ok(bytes) => bytes,
        Err(error) => {
            return Err(error);
        },
    };
    let authorization = match FundedAuthorizationV1::decode(authorization_wire.as_slice()) {
        Ok(authorization) => authorization,
        Err(_) => {
            proof {
                assert forall|fields: FundedFields| !#[trigger] holds_authorization(
                    request.funded_authorization_base64@,
                    fields,
                ) by {
                    crate::crypto::lemma_funded_layout(fields);
                }
            }
            return Err(ClientPrepareError::Request);
        },
    };
    let keys_wire = match decode_canonical_base64(request.epoch_public_keys_base64.as_str()) {
        Ok(bytes) => bytes,
        Err(error) => {
            return Err(error);
        },
    };
    let public_keys = match EpochPublicKeys::decode_wire(keys_wire.as_slice()) {
        Ok(keys) => keys,
        Err(_) => {
            return Err(ClientPrepareError::Request);
        },
    };
    Ok(
        PrepareTerms {
            side: request.side,
            limit_price: request.limit_price,
            epoch_id,
            participant_id,
            authorization,
            public_keys,
        },
    )
}

/// The answer to a request to prepare an order.
pub struct ClientPrepareResponse {
    pub schema_version: u8,
    pub epoch_id: String,
    pub participant_id: String,
    pub trading_key: String,
    pub ciphertext_sha256_base64: String,
    pub submission_sha256_base64: String,
    pub encrypted_submission_base64: String,
}

/// Whether a response is that of a submission.
pub open spec fn answers_with(
    response: ClientPrepareResponse,
    order: PrepareFields,
    public: [u8; 32],
    submission: SubmissionFields,
) -> bool {
    &&& response.schema_version == CLIENT_SCHEMA_VERSION
    &&& response.epoch_id@ == base58_text(order.epoch_id@)
    &&& response.participant_id@ == base58_text(order.participant_id@)
    &&& response.trading_key@ == base58_text(public@)
    &&& response.ciphertext_sha256_base64@ == base64_text(sha256(submission.ciphertext)@)
    &&& response.submission_sha256_base64@ == base64_text(sha256(submission_bytes(submission))@)
    &&& response.encrypted_submission_base64@ == base64_text(submission_bytes(submission))
}

/// The answer with a prepared order.
pub fn prepare_response(
    epoch_id: [u8; 32],
    participant_id: [u8; 32],
    trading_key: &SigningKey,
    prepared: &PreparedOrderV1,
) -> (response: ClientPrepareResponse)
    ensures
        forall|order: PrepareFields|
            order.epoch_id == epoch_id && order.participant_id == participant_id
                ==> #[trigger] answers_with(
                response,
                order,
                trading_key.public(),
                prepared.sent(),
            ),
{
    let public = trading_key.verifying_key().to_bytes();
    let wire = prepared.submission.encode_wire();
    let ciphertext_hash = digest_of(prepared.submission.ciphertext());
    let submission_hash = digest_of(wire.as_slice());
    ClientPrepareResponse {
        schema_version: CLIENT_SCHEMA_VERSION,
        epoch_id: base58_encode(epoch_id.as_slice()),
        participant_id: base58_encode(participant_id.as_slice()),
        trading_key: base58_encode(public.as_slice()),
        ciphertext_sha256_base64: base64_encode(ciphertext_hash.as_slice()),
        submission_sha256_base64: base64_encode(submission_hash.as_slice()),
        encrypted_submission_base64: base64_encode(wire.as_slice()),
    }
}

/// Why a submission is not prepared of drawn bytes, where it is not: for want of a receipt first, then
/// for an authorization of another epoch or participant, then for want of a nonce, then for another
/// trading key.
pub open spec fn submission_unprepared(
    terms: PrepareFields,
    public: [u8; 32],
    receipt: Option<[u8; 32]>,
    nonce: Option<[u8; 16]>,
) -> Option<ClientPrepareError> {
    if receipt is None {
        Some(ClientPrepareError::Entropy)
    } else if !fields_preparable(terms) {
        Some(ClientPrepareError::Request)
    } else if nonce is None {
        Some(ClientPrepareError::Entropy)
    } else if terms.authorization.trading_key != public {
        Some(ClientPrepareError::Request)
    } else {
        None
    }
}

/// Whether a response answers with a submission of what is asked for, under the receipt and the nonce
/// that were drawn, and one that every policy which accepts its authorization admits.
pub open spec fn response_prepares(
    response: ClientPrepareResponse,
    terms: PrepareFields,
    secret: [u8; 32],
    public: [u8; 32],
    receipt: [u8; 32],
    nonce: [u8; 16],
) -> bool {
    let intent = intent_to_sign(terms, nonce);
    exists|submission: SubmissionFields|
        {
            &&& submission.receipt@ == receipt_bytes(receipt@)
            &&& submits(
                submission,
                terms,
                (intent, ed25519_signed(secret@, intent_message(intent))),
                secret,
                submission.receipt,
            )
            &&& admitted_where_authorized(submission)
            &&& #[trigger] answers_with(response, terms, public, submission)
        }
}

/// Prepares a submission of what is asked for, of the bytes that were drawn for its receipt and its
/// nonce; without them it is refused.
pub fn prepare_submission_of(
    terms: PrepareTerms,
    trading_key: &SigningKey,
    receipt: Option<[u8; 32]>,
    nonce: Option<[u8; 16]>,
) -> (response: Result<ClientPrepareResponse, ClientPrepareError>)
    ensures
        match submission_unprepared(terms@, trading_key.public(), receipt, nonce) {
            Some(error) => response == Err::<ClientPrepareResponse, _>(error),
            None => response matches Ok(response) && response_prepares(
                response,
                terms@,
                trading_key.secret(),
                trading_key.public(),
                receipt->Some_0,
                nonce->Some_0,
            ),
        },
{
    let epoch_id = terms.epoch_id;
    let participant_id = terms.participant_id;
    let ghost fields = terms@;
    let receipt = match receipt {
        Some(random) => receipt_from(random),
        None => {
            return Err(ClientPrepareError::Entropy);
        },
    };
    let order = match terms.into_order() {
        Ok(order) => order,
        Err(error) => {
            return Err(error);
        },
    };
    let nonce = match nonce {
        Some(nonce) => nonce,
        None => {
            return Err(ClientPrepareError::Entropy);
        },
    };
    let prepared = match prepare_order(order, trading_key, nonce, receipt) {
        Ok(prepared) => prepared,
        Err(error) => {
            return Err(error);
        },
    };
    let response = prepare_response(epoch_id, participant_id, trading_key, &prepared);
    assert(answers_with(response, fields, trading_key.public(), prepared.sent()));
    Ok(response)
}

/// Prepares a submission of what is asked for, with a receipt and a nonce that the operating system
/// drew. Nothing determines them, and drawing them can fail.
pub fn prepare_submission(terms: PrepareTerms, trading_key: &SigningKey) -> (response: Result<
    ClientPrepareResponse,
    ClientPrepareError,
>)
    ensures
        match response {
            Ok(response) => {
                &&& fields_preparable(terms@)
                &&& terms@.authorization.trading_key == trading_key.public()
                &&& exists|receipt: [u8; 32], nonce: [u8; 16]| #[trigger]
                    response_prepares(
                        response,
                        terms@,
                        trading_key.secret(),
                        trading_key.public(),
                        receipt,
                        nonce,
                    )
            },
            Err(error) => error == ClientPrepareError::Entropy || (error
                == ClientPrepareError::Request && (!fields_preparable(terms@)
                || terms@.authorization.trading_key != trading_key.public())),
        },
{
    let receipt = random_bytes::<32>();
    let nonce = random_bytes::<16>();
    prepare_submission_of(terms, trading_key, receipt, nonce)
}

/// A request to register an account.
pub struct ClientAccountRequest {
    pub schema_version: u8,
    pub participant_id: String,
    pub base_atoms: u64,
    pub quote_atoms: u64,
}

/// The answer to a request to register an account.
pub struct ClientAccountResponse {
    pub schema_version: u8,
    pub participant_id: String,
    pub trading_key: String,
    pub base_atoms: u64,
    pub quote_atoms: u64,
}

/// Whether a request is for an account of a participant and a balance.
pub open spec fn asks_to_open(
    request: ClientAccountRequest,
    id: Seq<u8>,
    balance: PoolBalance,
) -> bool {
    &&& request.schema_version == CLIENT_SCHEMA_VERSION
    &&& request.base_atoms != 0
    &&& request.quote_atoms != 0
    &&& id_named(request.participant_id@) == Some(id)
    &&& balance == (PoolBalance {
        base_atoms: request.base_atoms,
        quote_atoms: request.quote_atoms,
    })
}

/// Reads a request to register an account: the participant, and a balance with both sides funded.
pub fn read_account_request(request: &ClientAccountRequest) -> (account: Result<
    ([u8; 32], PoolBalance),
    ClientPrepareError,
>)
    ensures
        match account {
            Ok((id, balance)) => asks_to_open(*request, id@, balance),
            Err(error) => error == ClientPrepareError::Request && (request.schema_version
                != CLIENT_SCHEMA_VERSION || request.base_atoms == 0 || request.quote_atoms == 0
                || id_named(request.participant_id@) is None),
        },
{
    if request.schema_version != CLIENT_SCHEMA_VERSION || request.base_atoms == 0
        || request.quote_atoms == 0 {
        return Err(ClientPrepareError::Request);
    }
    match decode_base58_32(request.participant_id.as_str()) {
        Ok(id) => Ok((id, PoolBalance::new(request.base_atoms, request.quote_atoms))),
        Err(error) => Err(error),
    }
}

/// The answer with a registered account.
pub fn account_response(
    participant_id: [u8; 32],
    trading_key: [u8; 32],
    balance: PoolBalance,
) -> (response: ClientAccountResponse)
    ensures
        response.schema_version == CLIENT_SCHEMA_VERSION,
        response.participant_id@ == base58_text(participant_id@),
        response.trading_key@ == base58_text(trading_key@),
        response.base_atoms == balance.base_atoms,
        response.quote_atoms == balance.quote_atoms,
{
    ClientAccountResponse {
        schema_version: CLIENT_SCHEMA_VERSION,
        participant_id: base58_encode(participant_id.as_slice()),
        trading_key: base58_encode(trading_key.as_slice()),
        base_atoms: balance.base_atoms,
        quote_atoms: balance.quote_atoms,
    }
}

/// A request for the result of an epoch.
pub struct ClientResultRequest {
    pub schema_version: u8,
    pub participant_id: String,
}

/// The answer to a request for the result of an epoch.
pub struct ClientResultResponse {
    pub schema_version: u8,
    pub participant_id: String,
    pub epoch_id: String,
    pub base_atoms: u64,
    pub quote_atoms: u64,
}

/// Reads a request for the result of an epoch.
pub fn read_result_request(request: &ClientResultRequest) -> (participant: Result<
    [u8; 32],
    ClientPrepareError,
>)
    ensures
        match participant {
            Ok(id) => request.schema_version == CLIENT_SCHEMA_VERSION && id_named(
                request.participant_id@,
            ) == Some(id@),
            Err(error) => error == ClientPrepareError::Request && (request.schema_version
                != CLIENT_SCHEMA_VERSION || id_named(request.participant_id@) is None),
        },
{
    if request.schema_version != CLIENT_SCHEMA_VERSION {
        return Err(ClientPrepareError::Request);
    }
    decode_base58_32(request.participant_id.as_str())
}

/// The answer with the result of an epoch.
pub fn result_response(
    participant_id: [u8; 32],
    epoch_id: [u8; 32],
    balance: PoolBalance,
) -> (response: ClientResultResponse)
    ensures
        response.schema_version == CLIENT_SCHEMA_VERSION,
        response.participant_id@ == base58_text(participant_id@),
        response.epoch_id@ == base58_text(epoch_id@),
        response.base_atoms == balance.base_atoms,
        response.quote_atoms == balance.quote_atoms,
{
    ClientResultResponse {
        schema_version: CLIENT_SCHEMA_VERSION,
        participant_id: base58_encode(participant_id.as_slice()),
        epoch_id: base58_encode(epoch_id.as_slice()),
        base_atoms: balance.base_atoms,
        quote_atoms: balance.quote_atoms,
    }
}

/// What a client is told of an epoch.
pub struct ClientEpochView {
    pub schema_version: u8,
    pub epoch_id: String,
    pub base_mint: String,
    pub quote_mint: String,
    pub base_lot_atoms: u64,
    pub quote_atoms_per_lot: u64,
    pub minimum_count: u32,
    pub keyper_threshold: u8,
    pub lock_deadline: i64,
    pub abort_deadline: i64,
    pub epoch_public_keys_base64: String,
}

/// Whether a client accepts what it is told of an epoch, at a time: identifiers that are named and
/// differ, one lot at a price, a crowd of four, two of three keypers, deadlines that are still to
/// come, and keys.
pub open spec fn epoch_acceptable(view: ClientEpochView, now: i64) -> bool {
    match (id_named(view.epoch_id@), id_named(view.base_mint@), id_named(view.quote_mint@)) {
        (Some(epoch_id), Some(base_mint), Some(quote_mint)) => {
            &&& view.schema_version == CLIENT_SCHEMA_VERSION
            &&& epoch_id != zeros(32)
            &&& base_mint != zeros(32)
            &&& quote_mint != zeros(32)
            &&& base_mint != quote_mint
            &&& view.base_lot_atoms != 0
            &&& view.quote_atoms_per_lot != 0
            &&& view.minimum_count >= 4
            &&& view.keyper_threshold == 2
            &&& view.lock_deadline > now
            &&& view.abort_deadline > view.lock_deadline
            &&& keys_named(view.epoch_public_keys_base64@) is Some
        },
        _ => false,
    }
}

/// Checks what a client is told of an epoch, at a time.
pub fn check_epoch(view: &ClientEpochView, now: i64) -> (outcome: Result<(), ClientPrepareError>)
    ensures
        outcome == (if epoch_acceptable(*view, now) {
            Ok::<(), _>(())
        } else {
            Err(ClientPrepareError::Request)
        }),
{
    let (epoch_id, base_mint, quote_mint) = match (
        decode_base58_32(view.epoch_id.as_str()),
        decode_base58_32(view.base_mint.as_str()),
        decode_base58_32(view.quote_mint.as_str()),
    ) {
        (Ok(epoch_id), Ok(base_mint), Ok(quote_mint)) => (epoch_id, base_mint, quote_mint),
        _ => {
            return Err(ClientPrepareError::Request);
        },
    };
    let keys = match decode_canonical_base64(view.epoch_public_keys_base64.as_str()) {
        Ok(keys) => keys,
        Err(error) => {
            return Err(error);
        },
    };
    if view.schema_version != CLIENT_SCHEMA_VERSION || is_zero(epoch_id.as_slice()) || is_zero(
        base_mint.as_slice(),
    ) || is_zero(quote_mint.as_slice()) || same_array(&base_mint, &quote_mint)
        || view.base_lot_atoms == 0 || view.quote_atoms_per_lot == 0 || view.minimum_count < 4
        || view.keyper_threshold != 2 || view.lock_deadline <= now || view.abort_deadline
        <= view.lock_deadline || EpochPublicKeys::decode_wire(keys.as_slice()).is_err() {
        return Err(ClientPrepareError::Request);
    }
    Ok(())
}

} // verus!
