//! What a client asks for, what is prepared for it, and what it joins with.

use crate::bytes::zeros;
use crate::client::{
    answers_with, asks_to_open, asks_to_prepare, bytes_named, epoch_acceptable, fields_preparable,
    id_named, intent_to_sign, is_keypair, key_file_private, keys_named, order_preparable,
    receipt_bytes, request_fits, response_prepares, submission_unprepared, submits,
    ClientAccountRequest, ClientEpochView, ClientPrepareError, ClientPrepareRequest,
    ClientPrepareResponse, PrepareFields,
};
use crate::crypto::{
    funded_bytes, funded_valid, submission_bytes, submission_refusal, FundedFields, PolicyFields,
    SubmissionFields,
};
use crate::domain::Side;
use crate::encodings::{base58_decoded, base58_text, base64_decoded, base64_text};
use crate::hash::sha256;
use crate::ledger::PoolBalance;
use crate::signing::{ed25519_key, ed25519_signed};
use crate::threshold::{ciphertext_valid, key_set, opens_to};
use vstd::bytes::{
    lemma_auto_spec_u32_to_from_le_bytes, lemma_auto_spec_u64_to_from_le_bytes,
    spec_u32_to_le_bytes, spec_u64_to_le_bytes,
};
use vstd::prelude::*;
use vstd::string::*;
use vstd::utf8::encode_utf8;

verus! {

/// Text names an id exactly where it is the base58 of thirty-two bytes as it would be written, and bytes
/// where it is their base64 as it would be written; keys of an epoch are named by the base64 of a set of
/// two of their number.
pub proof fn law_names_are_canonical(text: Seq<char>, bytes: Seq<u8>)
    ensures
        id_named(text) == Some(bytes) <==> base58_decoded(text) == Some(bytes) && bytes.len() == 32
            && base58_text(bytes) == text,
        bytes_named(text) == Some(bytes) <==> base64_decoded(text) == Some(bytes) && base64_text(
            bytes,
        ) == text,
        keys_named(text) == Some(bytes) <==> {
            &&& bytes_named(text) matches Some(encoded) && encoded.len() == 104 && key_set(encoded)
                == Some((bytes, 1usize))
        },
{
}

/// A key file holds a secret and the public key behind it.
pub proof fn law_keypairs_are_exact(bytes: Seq<u8>, secret: [u8; 32], public: [u8; 32])
    ensures
        is_keypair(bytes, secret, public) <==> bytes.len() == 64 && bytes == secret@ + public@,
{
    if bytes.len() == 64 && bytes.subrange(0, 32) == secret@ && bytes.subrange(32, 64) == public@ {
        assert(bytes =~= secret@ + public@);
    }
    if bytes == secret@ + public@ {
        assert(bytes.subrange(0, 32) =~= secret@);
        assert(bytes.subrange(32, 64) =~= public@);
    }
}

/// A request is for the order that it names, in the first schema: its side, its limit, which is not zero,
/// its epoch, its participant, its authorization and the epoch's keys, each named as it would be written.
pub proof fn law_requests_are_exact(request: ClientPrepareRequest, order: PrepareFields)
    ensures
        asks_to_prepare(request, order) <==> {
            &&& request.schema_version == 1
            &&& request.side == order.side
            &&& request.limit_price == order.limit_price
            &&& request.limit_price > 0
            &&& id_named(request.epoch_id@) == Some(order.epoch_id@)
            &&& id_named(request.participant_id@) == Some(order.participant_id@)
            &&& order.authorization.version == 1
            &&& ed25519_key(order.authorization.trading_key@)
            &&& ed25519_key(order.authorization.operator_key@)
            &&& bytes_named(request.funded_authorization_base64@) == Some(
                funded_bytes(order.authorization),
            )
            &&& keys_named(request.epoch_public_keys_base64@) == Some(order.keys)
        },
{
}

/// An order can be prepared exactly where it has a limit and its authorization is for its own epoch and
/// its own participant.
pub proof fn law_preparable_orders_are_exact(order: PrepareFields)
    ensures
        fields_preparable(order) <==> {
            &&& order.limit_price > 0
            &&& order.authorization.epoch_id == order.epoch_id
            &&& order.authorization.participant_id == order.participant_id
        },
        order_preparable(
            order.limit_price,
            order.epoch_id,
            order.participant_id,
            order.authorization,
        ) <==> fields_preparable(order),
{
}

/// A submission is prepared exactly where there was randomness for its receipt and for its nonce, the
/// order can be prepared, and the trading key is the authorized one. What was lacking is named.
pub proof fn law_unprepared_submissions_are_named(
    terms: PrepareFields,
    public: [u8; 32],
    receipt: Option<[u8; 32]>,
    nonce: Option<[u8; 16]>,
)
    ensures
        submission_unprepared(terms, public, receipt, nonce) is None <==> {
            &&& receipt is Some
            &&& nonce is Some
            &&& fields_preparable(terms)
            &&& terms.authorization.trading_key == public
        },
        submission_unprepared(terms, public, receipt, nonce) == Some(ClientPrepareError::Request)
            ==> !fields_preparable(terms) || terms.authorization.trading_key != public,
        submission_unprepared(terms, public, receipt, nonce) == Some(ClientPrepareError::Entropy)
            ==> receipt is None || nonce is None,
{
}

/// The order that is signed is the one that was asked for, for one lot.
pub proof fn law_signed_order_is_the_asked_one(order: PrepareFields, nonce: [u8; 16])
    ensures
        ({
            let intent = intent_to_sign(order, nonce);
            &&& intent.side == order.side
            &&& intent.lots == 1
            &&& intent.limit_price == order.limit_price
            &&& intent.epoch_id == order.epoch_id
            &&& intent.participant_id == order.participant_id
            &&& intent.client_nonce == nonce
        }),
{
}

/// A receipt is the randomness that was drawn for it, and never zero.
pub proof fn law_receipts_are_not_zero(random: Seq<u8>)
    requires
        random.len() == 32,
    ensures
        random != zeros(32) ==> receipt_bytes(random) == random,
        receipt_bytes(random) != zeros(32),
        random == zeros(32) ==> receipt_bytes(random) == seq![1u8] + zeros(31),
{
    if random == zeros(32) {
        assert(receipt_bytes(random)[0] == 1);
        assert(zeros(32)[0] == 0);
        assert(receipt_bytes(random) =~= seq![1u8] + zeros(31));
    }
}

/// A prepared submission carries the asked order and nothing else: its ciphertext opens, by any two shares
/// of the epoch's dealer, to the order that was asked for, signed with the trading key; it has the asked
/// authorization and the drawn receipt, is admitted wherever its authorization is, and is answered with
/// itself, its digest, its ciphertext's digest, the epoch, the participant and the trading key.
pub proof fn law_prepared_submission_carries_the_order(
    response: ClientPrepareResponse,
    terms: PrepareFields,
    secret: [u8; 32],
    public: [u8; 32],
    receipt: [u8; 32],
    nonce: [u8; 16],
)
    requires
        response_prepares(response, terms, secret, public, receipt, nonce),
    ensures
        exists|submission: SubmissionFields, plaintext: Seq<u8>|
            {
                &&& #[trigger] opens_to(terms.keys, submission.ciphertext, plaintext)
                &&& plaintext.len() == 192
                &&& plaintext[0] == 1
                &&& terms.side == Side::Buy ==> plaintext[1] == 0
                &&& terms.side == Side::Sell ==> plaintext[1] == 1
                &&& plaintext.subrange(2, 6) == spec_u32_to_le_bytes(1)
                &&& plaintext.subrange(6, 14) == spec_u64_to_le_bytes(terms.limit_price)
                &&& plaintext.subrange(14, 46) == terms.epoch_id@
                &&& plaintext.subrange(46, 78) == terms.participant_id@
                &&& plaintext.subrange(78, 94) == nonce@
                &&& plaintext.subrange(128, 192) == ed25519_signed(
                    secret@,
                    encode_utf8("KAGEB_INTENT_V1\0"@) + plaintext.take(128),
                )@
                &&& submission.authorization == terms.authorization
                &&& receipt@ != zeros(32) ==> submission.receipt == receipt
                &&& submission.receipt@ != zeros(32)
                &&& submission.ciphertext.len() == 344
                &&& ciphertext_valid(submission.ciphertext)
                &&& submission.outer_signature == ed25519_signed(
                    secret@,
                    encode_utf8("KAGEB_SUBMISSION_V1\0"@) + terms.authorization.epoch_id@ + sha256(
                        encode_utf8("KAGEB_FUNDED_AUTH_V1\0"@) + funded_bytes(terms.authorization),
                    )@ + sha256(submission.ciphertext)@ + submission.receipt@,
                )
                &&& forall|policy: PolicyFields|
                    crate::crypto::authorization_refusal(terms.authorization, policy) is None ==> (
                    #[trigger] submission_refusal(submission, policy)) is None
                &&& response.schema_version == 1
                &&& response.epoch_id@ == base58_text(terms.epoch_id@)
                &&& response.participant_id@ == base58_text(terms.participant_id@)
                &&& response.trading_key@ == base58_text(public@)
                &&& response.ciphertext_sha256_base64@ == base64_text(
                    sha256(submission.ciphertext)@,
                )
                &&& response.submission_sha256_base64@ == base64_text(
                    sha256(submission_bytes(submission))@,
                )
                &&& response.encrypted_submission_base64@ == base64_text(
                    submission_bytes(submission),
                )
            },
{
    lemma_auto_spec_u32_to_from_le_bytes();
    lemma_auto_spec_u64_to_from_le_bytes();
    let intent = intent_to_sign(terms, nonce);
    let signature = ed25519_signed(secret@, crate::crypto::intent_message(intent));
    let submission = choose|submission: SubmissionFields|
        {
            &&& submission.receipt@ == receipt_bytes(receipt@)
            &&& submits(submission, terms, (intent, signature), secret, submission.receipt)
            &&& crate::client::admitted_where_authorized(submission)
            &&& #[trigger] answers_with(response, terms, public, submission)
        };
    let plaintext = crate::crypto::signed_intent_bytes(intent, signature);
    crate::layouts::law_orders_are_laid_out(intent);
    crate::layouts::law_signed_orders_are_laid_out(intent, signature);
    law_receipts_are_not_zero(receipt@);
    let bytes = crate::domain::intent_bytes(intent);
    assert(plaintext.take(128) == bytes);
    assert(plaintext.subrange(2, 6) =~= bytes.subrange(2, 6));
    assert(plaintext.subrange(6, 14) =~= bytes.subrange(6, 14));
    assert(plaintext.subrange(14, 46) =~= bytes.subrange(14, 46));
    assert(plaintext.subrange(46, 78) =~= bytes.subrange(46, 78));
    assert(plaintext.subrange(78, 94) =~= bytes.subrange(78, 94));
    assert(plaintext.subrange(128, 192) =~= plaintext.skip(128));
    assert(plaintext[0] == bytes[0] && plaintext[1] == bytes[1]);
    if receipt@ != zeros(32) {
        assert(submission.receipt =~= receipt);
    }
    assert(opens_to(terms.keys, submission.ciphertext, plaintext));
}

/// An epoch is one to trade in exactly where it is of the first schema, its own id and its two mints are
/// named, not zero, and the mints differ, its lot and its price are something, it waits for a crowd of at
/// least four, asks two keypers, has keys, and is still before its deadline, with the one to abort behind.
pub proof fn law_tradable_epochs_are_exact(
    view: ClientEpochView,
    now: i64,
    epoch_id: Seq<u8>,
    base_mint: Seq<u8>,
    quote_mint: Seq<u8>,
)
    requires
        id_named(view.epoch_id@) == Some(epoch_id),
        id_named(view.base_mint@) == Some(base_mint),
        id_named(view.quote_mint@) == Some(quote_mint),
    ensures
        epoch_acceptable(view, now) <==> {
            &&& view.schema_version == 1
            &&& epoch_id != zeros(32)
            &&& base_mint != zeros(32)
            &&& quote_mint != zeros(32)
            &&& base_mint != quote_mint
            &&& view.base_lot_atoms > 0
            &&& view.quote_atoms_per_lot > 0
            &&& view.minimum_count >= 4
            &&& view.keyper_threshold == 2
            &&& now < view.lock_deadline
            &&& view.lock_deadline < view.abort_deadline
            &&& keys_named(view.epoch_public_keys_base64@) is Some
        },
{
}

/// An epoch whose id or one of whose mints is not named is none to trade in.
pub proof fn law_unnamed_epochs_are_refused(view: ClientEpochView, now: i64)
    requires
        id_named(view.epoch_id@) is None || id_named(view.base_mint@) is None || id_named(
            view.quote_mint@,
        ) is None,
    ensures
        !epoch_acceptable(view, now),
{
}

/// A valid authorization is one of the first version whose trading key and operator are keys.
pub proof fn law_valid_authorizations_are_exact(fields: FundedFields)
    ensures
        funded_valid(fields) <==> fields.version == 1 && ed25519_key(fields.trading_key@)
            && ed25519_key(fields.operator_key@),
{
}

/// A request is read exactly where it is not empty and no longer than sixteen kibibytes.
pub proof fn law_read_requests_are_exact(len: int)
    ensures
        request_fits(len) <==> 1 <= len <= 16 * 1024,
{
}

/// A key file is read exactly where it is a file of no more than a kibibyte that its owner can read and
/// write and nobody else can read, write or execute.
pub proof fn law_key_files_are_private(is_file: bool, len: u64, mode: u32)
    ensures
        key_file_private(is_file, len, mode) ==> is_file && len <= 1024 && mode & 0o077u32 == 0
            && mode & 0o400u32 == 0o400 && mode & 0o200u32 == 0o200 && mode & 0o100u32 == 0,
        is_file && len <= 1024 && mode & 0o077u32 == 0 && mode & 0o400u32 == 0o400 && mode
            & 0o200u32 == 0o200 && mode & 0o100u32 == 0 ==> key_file_private(is_file, len, mode),
{
    assert(mode & 0o777u32 == 0o600u32 <==> mode & 0o077u32 == 0 && mode & 0o400u32 == 0o400
        && mode & 0o200u32 == 0o200 && mode & 0o100u32 == 0) by (bit_vector);
}

/// A request opens an account exactly where it is of the first schema and names a participant and both
/// amounts, which are the balance of the account.
pub proof fn law_account_requests_are_exact(
    request: ClientAccountRequest,
    id: Seq<u8>,
    balance: PoolBalance,
)
    ensures
        asks_to_open(request, id, balance) <==> {
            &&& request.schema_version == 1
            &&& id_named(request.participant_id@) == Some(id)
            &&& balance.base_atoms == request.base_atoms
            &&& balance.quote_atoms == request.quote_atoms
            &&& balance.base_atoms > 0
            &&& balance.quote_atoms > 0
        },
{
}

} // verus!
