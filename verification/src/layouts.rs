//! Where each field of a message, of a record and of a file stands.

use crate::account::{
    account_list, accounts_payload, balance_list, balances_bytes,
    settlement_digest_of, AccountRecord, Accounts,
};
use crate::admission::{
    reservation_payload, reservation_valid, BoundReservation, ReservationFields, ReservationState, UnboundReservation,
};
use crate::bytes::zeros;
use crate::codec::{encode_all, Entry, IdPair};
use crate::commitment::{root_of, CommitmentDomain, CommitmentError};
use crate::crypto::{
    commitment_bytes_of, funded_bytes, funded_hash, funded_message, intent_message,
    is_encrypted_intent, outer_message, signed_intent_bytes, submission_bytes,
    EncryptedSubmissionV1, FundedFields, SubmissionFields,
};
use crate::domain::{
    intent_bytes, intent_error, intent_valid, IntentFields, ProtocolError, Side,
};
use crate::hash::sha256;
use crate::journal::{journal_payload, marker_header};
use crate::ledger::{BatchResult, PoolBalance};
use crate::shares::{keys_leaf, released_bytes, ReleasedFields};
use crate::snapshot::{
    balance_bytes, balance_leaves, balance_root_of, balance_valid, member_leaves, member_root_of,
    snapshot_bytes, snapshot_message, BalanceFields, BalanceRecordV1, LockValidationError,
    SnapshotFields,
};
use crate::suspension::{registry_payload, SuspendedKey};
use crate::threshold::ciphertext_valid;
use vstd::bytes::{
    lemma_auto_spec_u32_to_from_le_bytes, lemma_auto_spec_u64_to_from_le_bytes,
    spec_u32_from_le_bytes, spec_u32_to_le_bytes, spec_u64_from_le_bytes, spec_u64_to_le_bytes,
};
use vstd::prelude::*;
use vstd::string::*;
use vstd::utf8::encode_utf8;

verus! {

/// An order is a version, its side, its lots, its limit, the epoch, the participant and a nonce, filled up
/// with zeros; a buy is side zero and a sell side one.
pub proof fn law_orders_are_laid_out(fields: IntentFields)
    ensures
        ({
            let bytes = intent_bytes(fields);
            &&& bytes.len() == 128
            &&& bytes[0] == 1
            &&& fields.side == Side::Buy <==> bytes[1] == 0
            &&& fields.side == Side::Sell <==> bytes[1] == 1
            &&& bytes.subrange(2, 6) == spec_u32_to_le_bytes(fields.lots)
            &&& bytes.subrange(6, 14) == spec_u64_to_le_bytes(fields.limit_price)
            &&& bytes.subrange(14, 46) == fields.epoch_id@
            &&& bytes.subrange(46, 78) == fields.participant_id@
            &&& bytes.subrange(78, 94) == fields.client_nonce@
            &&& bytes.subrange(94, 128) == zeros(34)
        }),
        intent_message(fields) == encode_utf8("KAGEB_INTENT_V1\0"@) + intent_bytes(fields),
        intent_valid(fields) <==> fields.lots == 1 && fields.limit_price != 0,
{
    crate::domain::lemma_intent_layout(fields);
    let bytes = intent_bytes(fields);
    assert(bytes.subrange(2, 6) =~= spec_u32_to_le_bytes(fields.lots));
    assert(bytes.subrange(6, 14) =~= spec_u64_to_le_bytes(fields.limit_price));
    assert(bytes.subrange(14, 46) =~= fields.epoch_id@);
    assert(bytes.subrange(46, 78) =~= fields.participant_id@);
    assert(bytes.subrange(78, 94) =~= fields.client_nonce@);
    assert(bytes.subrange(94, 128) =~= zeros(34));
}

/// A signed order is an order with a signature behind it.
pub proof fn law_signed_orders_are_laid_out(fields: IntentFields, signature: [u8; 64])
    ensures
        signed_intent_bytes(fields, signature).len() == 192,
        signed_intent_bytes(fields, signature).take(128) == intent_bytes(fields),
        signed_intent_bytes(fields, signature).skip(128) == signature@,
{
    law_orders_are_laid_out(fields);
    assert(signed_intent_bytes(fields, signature).take(128) =~= intent_bytes(fields));
    assert(signed_intent_bytes(fields, signature).skip(128) =~= signature@);
}

/// Bytes are an order exactly where they have its length, its version and its zeros, a side, one lot and a
/// limit that is not zero; what is refused is named with the value that was found.
pub proof fn law_orders_are_read_exactly(bytes: Seq<u8>)
    ensures
        intent_error(bytes) is None <==> {
            &&& bytes.len() == 128
            &&& bytes[0] == 1
            &&& bytes[1] == 0 || bytes[1] == 1
            &&& spec_u32_from_le_bytes(bytes.subrange(2, 6)) == 1
            &&& spec_u64_from_le_bytes(bytes.subrange(6, 14)) != 0
            &&& forall|i: int| 94 <= i < 128 ==> #[trigger] bytes[i] == 0
        },
        bytes.len() != 128 && bytes.len() <= usize::MAX ==> intent_error(bytes) == Some(
            ProtocolError::InvalidIntentLength(bytes.len() as usize),
        ),
        intent_error(bytes) matches Some(ProtocolError::InvalidVersion(version)) ==> version
            == bytes[0] && version != 1,
        intent_error(bytes) matches Some(ProtocolError::InvalidSide(side)) ==> side == bytes[1]
            && side > 1,
        intent_error(bytes) matches Some(ProtocolError::InvalidLots(lots)) ==> lots
            == spec_u32_from_le_bytes(bytes.subrange(2, 6)) && lots != 1,
        intent_error(bytes) == Some(ProtocolError::InvalidLimitPrice) ==> spec_u64_from_le_bytes(
            bytes.subrange(6, 14),
        ) == 0,
{
    if bytes.len() == 128 {
        let tail = bytes.subrange(94, 128);
        if forall|i: int| 94 <= i < 128 ==> #[trigger] bytes[i] == 0 {
            assert(tail =~= zeros(34));
        }
        if tail == zeros(34) {
            assert forall|i: int| 94 <= i < 128 implies #[trigger] bytes[i] == 0 by {
                assert(tail[i - 94] == bytes[i]);
            }
        }
    }
}

/// An authorization is a version, the operator, the epoch, the participant, the trading key, a nonce, the
/// base and the quote amounts, the last slot that it holds for, and the operator's signature. The operator
/// signs all but the signature under a tag, and its digest covers all of it under the same tag.
pub proof fn law_authorizations_are_laid_out(fields: FundedFields)
    ensures
        ({
            let bytes = funded_bytes(fields);
            &&& bytes.len() == 249
            &&& bytes[0] == fields.version
            &&& bytes.subrange(1, 33) == fields.operator_key@
            &&& bytes.subrange(33, 65) == fields.epoch_id@
            &&& bytes.subrange(65, 97) == fields.participant_id@
            &&& bytes.subrange(97, 129) == fields.trading_key@
            &&& bytes.subrange(129, 161) == fields.nonce@
            &&& bytes.subrange(161, 169) == spec_u64_to_le_bytes(fields.base_atoms)
            &&& bytes.subrange(169, 177) == spec_u64_to_le_bytes(fields.quote_atoms)
            &&& bytes.subrange(177, 185) == spec_u64_to_le_bytes(fields.expiry_slot)
            &&& bytes.subrange(185, 249) == fields.operator_signature@
            &&& funded_message(fields) == encode_utf8("KAGEB_FUNDED_AUTH_V1\0"@) + bytes.take(185)
            &&& funded_hash(fields) == sha256(encode_utf8("KAGEB_FUNDED_AUTH_V1\0"@) + bytes)
        }),
{
    lemma_auto_spec_u32_to_from_le_bytes();
    lemma_auto_spec_u64_to_from_le_bytes();
    let bytes = funded_bytes(fields);
    assert(bytes.subrange(1, 33) =~= fields.operator_key@);
    assert(bytes.subrange(33, 65) =~= fields.epoch_id@);
    assert(bytes.subrange(65, 97) =~= fields.participant_id@);
    assert(bytes.subrange(97, 129) =~= fields.trading_key@);
    assert(bytes.subrange(129, 161) =~= fields.nonce@);
    assert(bytes.subrange(161, 169) =~= spec_u64_to_le_bytes(fields.base_atoms));
    assert(bytes.subrange(169, 177) =~= spec_u64_to_le_bytes(fields.quote_atoms));
    assert(bytes.subrange(177, 185) =~= spec_u64_to_le_bytes(fields.expiry_slot));
    assert(bytes.subrange(185, 249) =~= fields.operator_signature@);
    assert(bytes.take(185) =~= crate::crypto::unsigned_bytes(fields));
}

/// A submission is an authorization, a ciphertext, a receipt and the outer signature; it is committed to by
/// the same with the ciphertext's digest in place of the ciphertext. The outer signature covers, under its
/// tag, the epoch, the authorization's digest, the ciphertext's digest and the receipt.
pub proof fn law_submissions_are_laid_out(fields: SubmissionFields)
    requires
        fields.ciphertext.len() == 344,
    ensures
        ({
            let bytes = submission_bytes(fields);
            &&& bytes.len() == 689
            &&& bytes.subrange(0, 249) == funded_bytes(fields.authorization)
            &&& bytes.subrange(249, 593) == fields.ciphertext
            &&& bytes.subrange(593, 625) == fields.receipt@
            &&& bytes.subrange(625, 689) == fields.outer_signature@
        }),
        ({
            let bytes = commitment_bytes_of(fields);
            &&& bytes.len() == 377
            &&& bytes.subrange(0, 249) == funded_bytes(fields.authorization)
            &&& bytes.subrange(249, 281) == sha256(fields.ciphertext)@
            &&& bytes.subrange(281, 313) == fields.receipt@
            &&& bytes.subrange(313, 377) == fields.outer_signature@
        }),
        outer_message(fields.authorization, fields.ciphertext, fields.receipt) == encode_utf8(
            "KAGEB_SUBMISSION_V1\0"@,
        ) + fields.authorization.epoch_id@ + sha256(
            encode_utf8("KAGEB_FUNDED_AUTH_V1\0"@) + funded_bytes(fields.authorization),
        )@ + sha256(fields.ciphertext)@ + fields.receipt@,
        is_encrypted_intent(fields.ciphertext) <==> ciphertext_valid(fields.ciphertext),
{
    law_authorizations_are_laid_out(fields.authorization);
    let bytes = submission_bytes(fields);
    assert(bytes.subrange(0, 249) =~= funded_bytes(fields.authorization));
    assert(bytes.subrange(249, 593) =~= fields.ciphertext);
    assert(bytes.subrange(593, 625) =~= fields.receipt@);
    assert(bytes.subrange(625, 689) =~= fields.outer_signature@);
    let committed = commitment_bytes_of(fields);
    assert(committed.subrange(0, 249) =~= funded_bytes(fields.authorization));
    assert(committed.subrange(249, 281) =~= sha256(fields.ciphertext)@);
    assert(committed.subrange(281, 313) =~= fields.receipt@);
    assert(committed.subrange(313, 377) =~= fields.outer_signature@);
}

/// A balance is its participant, its base and quote amounts, and how much of each is reserved; it stands
/// where the participant is not zero, both reservations are something, and both are covered.
pub proof fn law_balances_are_laid_out(fields: BalanceFields)
    ensures
        ({
            let bytes = balance_bytes(fields);
            &&& bytes.len() == 64
            &&& bytes.subrange(0, 32) == fields.participant_id@
            &&& bytes.subrange(32, 40) == spec_u64_to_le_bytes(fields.base_atoms)
            &&& bytes.subrange(40, 48) == spec_u64_to_le_bytes(fields.quote_atoms)
            &&& bytes.subrange(48, 56) == spec_u64_to_le_bytes(fields.reserved_base_atoms)
            &&& bytes.subrange(56, 64) == spec_u64_to_le_bytes(fields.reserved_quote_atoms)
        }),
        balance_valid(fields) <==> {
            &&& fields.participant_id@ != zeros(32)
            &&& 0 < fields.reserved_base_atoms <= fields.base_atoms
            &&& 0 < fields.reserved_quote_atoms <= fields.quote_atoms
        },
{
    lemma_auto_spec_u32_to_from_le_bytes();
    lemma_auto_spec_u64_to_from_le_bytes();
    let bytes = balance_bytes(fields);
    assert(bytes.subrange(0, 32) =~= fields.participant_id@);
    assert(bytes.subrange(32, 40) =~= spec_u64_to_le_bytes(fields.base_atoms));
    assert(bytes.subrange(40, 48) =~= spec_u64_to_le_bytes(fields.quote_atoms));
    assert(bytes.subrange(48, 56) =~= spec_u64_to_le_bytes(fields.reserved_base_atoms));
    assert(bytes.subrange(56, 64) =~= spec_u64_to_le_bytes(fields.reserved_quote_atoms));
}

/// A snapshot is its epoch, the number of its records, their root, the operator and the signature; the
/// operator signs the first three under a tag.
pub proof fn law_snapshots_are_laid_out(fields: SnapshotFields)
    ensures
        ({
            let bytes = snapshot_bytes(fields);
            &&& bytes.len() == 164
            &&& bytes.subrange(0, 32) == fields.epoch_id@
            &&& bytes.subrange(32, 36) == spec_u32_to_le_bytes(fields.record_count)
            &&& bytes.subrange(36, 68) == fields.balance_root@
            &&& bytes.subrange(68, 100) == fields.operator_key@
            &&& bytes.subrange(100, 164) == fields.signature@
            &&& snapshot_message(fields.epoch_id, fields.record_count, fields.balance_root)
                == encode_utf8("KAGEB_BALANCE_SNAPSHOT_V1\0"@) + bytes.take(68)
        }),
{
    lemma_auto_spec_u32_to_from_le_bytes();
    lemma_auto_spec_u64_to_from_le_bytes();
    let bytes = snapshot_bytes(fields);
    assert(bytes.subrange(0, 32) =~= fields.epoch_id@);
    assert(bytes.subrange(32, 36) =~= spec_u32_to_le_bytes(fields.record_count));
    assert(bytes.subrange(36, 68) =~= fields.balance_root@);
    assert(bytes.subrange(68, 100) =~= fields.operator_key@);
    assert(bytes.subrange(100, 164) =~= fields.signature@);
    assert(snapshot_message(fields.epoch_id, fields.record_count, fields.balance_root)
        =~= encode_utf8("KAGEB_BALANCE_SNAPSHOT_V1\0"@) + bytes.take(68));
}

/// A released share is a version, the keyper's index, the epoch, the lock and the ciphertext that it is
/// for, and the share with its length.
pub proof fn law_released_shares_are_laid_out(fields: ReleasedFields)
    ensures
        ({
            let bytes = released_bytes(fields);
            &&& bytes.len() == 157
            &&& bytes[0] == 1
            &&& bytes.subrange(1, 9) == spec_u64_to_le_bytes(fields.index as u64)
            &&& bytes.subrange(9, 41) == fields.epoch_account@
            &&& bytes.subrange(41, 73) == fields.lock_digest@
            &&& bytes.subrange(73, 105) == fields.ciphertext_hash@
            &&& bytes.subrange(105, 109) == spec_u32_to_le_bytes(48)
            &&& bytes.subrange(109, 157) == fields.share@
        }),
{
    lemma_auto_spec_u32_to_from_le_bytes();
    lemma_auto_spec_u64_to_from_le_bytes();
    let bytes = released_bytes(fields);
    assert(bytes.subrange(1, 9) =~= spec_u64_to_le_bytes(fields.index as u64));
    assert(bytes.subrange(9, 41) =~= fields.epoch_account@);
    assert(bytes.subrange(41, 73) =~= fields.lock_digest@);
    assert(bytes.subrange(73, 105) =~= fields.ciphertext_hash@);
    assert(bytes.subrange(105, 109) =~= spec_u32_to_le_bytes(48));
    assert(bytes.subrange(109, 157) =~= fields.share@);
}

/// The leaves of a crowd are its keys under their tag and one commitment for each submission, under the
/// tag of members; the leaves of balances are their wire forms, under the tag of balances.
pub proof fn law_roots_have_their_leaves(
    keys: Seq<u8>,
    submissions: Seq<SubmissionFields>,
    records: Seq<BalanceFields>,
    root: [u8; 32],
)
    ensures
        member_leaves(keys, submissions).len() == submissions.len() + 1,
        member_leaves(keys, submissions)[0] == encode_utf8("KAGEB_EPOCH_KEY_SET_V1\0"@) + keys,
        forall|i: int|
            0 <= i < submissions.len() ==> #[trigger] member_leaves(keys, submissions)[i + 1]
                == commitment_bytes_of(submissions[i]),
        balance_leaves(records).len() == records.len(),
        forall|i: int|
            0 <= i < records.len() ==> #[trigger] balance_leaves(records)[i] == balance_bytes(
                records[i],
            ),
        member_root_of(keys, submissions) == Ok::<[u8; 32], LockValidationError>(root) <==> root_of(
            CommitmentDomain::MemberSet,
            member_leaves(keys, submissions),
        ) == Ok::<[u8; 32], CommitmentError>(root),
        balance_root_of(records) == Ok::<[u8; 32], LockValidationError>(root) <==> root_of(
            CommitmentDomain::BalanceSet,
            balance_leaves(records),
        ) == Ok::<[u8; 32], CommitmentError>(root),
        member_root_of(keys, submissions) is Err ==> member_root_of(keys, submissions) == Err::<
            [u8; 32],
            _,
        >(LockValidationError::InvalidSubmission),
        balance_root_of(records) is Err ==> balance_root_of(records) == Err::<[u8; 32], _>(
            LockValidationError::InvalidBalance,
        ),
        keys_leaf(keys) == encode_utf8("KAGEB_EPOCH_KEY_SET_V1\0"@) + keys,
{
}

/// A reservation is its nonce, the epoch where it is bound to one, its participant, its base and quote
/// amounts and the number of its state: one while it is reserved, two once it is used and three once it
/// was given back. Amounts of nothing are no reservation.
pub proof fn law_reservations_are_laid_out(fields: ReservationFields)
    ensures
        ({
            let bytes = UnboundReservation::encoded(fields);
            &&& bytes.len() == 81
            &&& UnboundReservation::width() == 81
            &&& bytes.subrange(0, 32) == fields.nonce@
            &&& bytes.subrange(32, 64) == fields.participant_id@
            &&& bytes.subrange(64, 72) == spec_u64_to_le_bytes(fields.base_atoms)
            &&& bytes.subrange(72, 80) == spec_u64_to_le_bytes(fields.quote_atoms)
            &&& fields.state == ReservationState::Reserved <==> bytes[80] == 1
            &&& fields.state == ReservationState::Used <==> bytes[80] == 2
            &&& fields.state == ReservationState::Released <==> bytes[80] == 3
        }),
        ({
            let bytes = BoundReservation::encoded(fields);
            &&& bytes.len() == 113
            &&& BoundReservation::width() == 113
            &&& bytes.subrange(0, 32) == fields.nonce@
            &&& bytes.subrange(32, 64) == fields.epoch_id@
            &&& bytes.subrange(64, 96) == fields.participant_id@
            &&& bytes.subrange(96, 104) == spec_u64_to_le_bytes(fields.base_atoms)
            &&& bytes.subrange(104, 112) == spec_u64_to_le_bytes(fields.quote_atoms)
            &&& fields.state == ReservationState::Reserved <==> bytes[112] == 1
            &&& fields.state == ReservationState::Used <==> bytes[112] == 2
            &&& fields.state == ReservationState::Released <==> bytes[112] == 3
        }),
        reservation_valid(fields) <==> fields.base_atoms > 0 && fields.quote_atoms > 0,
        BoundReservation::valid(fields) <==> fields.base_atoms > 0 && fields.quote_atoms > 0,
        UnboundReservation::valid(fields) <==> fields.base_atoms > 0 && fields.quote_atoms > 0
            && fields.epoch_id@ == zeros(32),
{
    lemma_auto_spec_u32_to_from_le_bytes();
    lemma_auto_spec_u64_to_from_le_bytes();
    let bytes = UnboundReservation::encoded(fields);
    assert(bytes.subrange(0, 32) =~= fields.nonce@);
    assert(bytes.subrange(32, 64) =~= fields.participant_id@);
    assert(bytes.subrange(64, 72) =~= spec_u64_to_le_bytes(fields.base_atoms));
    assert(bytes.subrange(72, 80) =~= spec_u64_to_le_bytes(fields.quote_atoms));
    let bound = BoundReservation::encoded(fields);
    assert(bound.subrange(0, 32) =~= fields.nonce@);
    assert(bound.subrange(32, 64) =~= fields.epoch_id@);
    assert(bound.subrange(64, 96) =~= fields.participant_id@);
    assert(bound.subrange(96, 104) =~= spec_u64_to_le_bytes(fields.base_atoms));
    assert(bound.subrange(104, 112) =~= spec_u64_to_le_bytes(fields.quote_atoms));
}

/// An account is its participant, its trading key, its base and quote amounts and the epoch of its last
/// result; it stands where the participant is not zero, it holds something, and the key is one.
pub proof fn law_accounts_are_laid_out(record: AccountRecord)
    ensures
        ({
            let bytes = AccountRecord::encoded(record);
            &&& bytes.len() == 112
            &&& AccountRecord::width() == 112
            &&& bytes.subrange(0, 32) == record.participant_id@
            &&& bytes.subrange(32, 64) == record.trading_key@
            &&& bytes.subrange(64, 72) == spec_u64_to_le_bytes(record.balance.base_atoms)
            &&& bytes.subrange(72, 80) == spec_u64_to_le_bytes(record.balance.quote_atoms)
            &&& bytes.subrange(80, 112) == record.last_epoch@
        }),
        AccountRecord::valid(record) <==> {
            &&& record.participant_id@ != zeros(32)
            &&& record.balance.base_atoms > 0 || record.balance.quote_atoms > 0
            &&& crate::signing::ed25519_key(record.trading_key@)
        },
{
    lemma_auto_spec_u32_to_from_le_bytes();
    lemma_auto_spec_u64_to_from_le_bytes();
    let bytes = AccountRecord::encoded(record);
    assert(bytes.subrange(0, 32) =~= record.participant_id@);
    assert(bytes.subrange(32, 64) =~= record.trading_key@);
    assert(bytes.subrange(64, 72) =~= spec_u64_to_le_bytes(record.balance.base_atoms));
    assert(bytes.subrange(72, 80) =~= spec_u64_to_le_bytes(record.balance.quote_atoms));
    assert(bytes.subrange(80, 112) =~= record.last_epoch@);
}

/// Every file begins with its own name, and counts its records where it says how many there are.
pub proof fn law_files_are_laid_out(
    accounts: Accounts,
    reservations: Seq<ReservationFields>,
    locks: Seq<([u8; 32], [u8; 32])>,
    keys: Seq<[u8; 32]>,
)
    ensures
        accounts_payload(accounts) == seq![75u8, 71u8, 66u8, 65u8, 67u8, 67u8, 50u8, 0u8]
            + spec_u32_to_le_bytes(accounts.records.len() as u32) + spec_u32_to_le_bytes(
            accounts.applied.len() as u32,
        ) + encode_all::<AccountRecord>(account_list(accounts.records)) + encode_all::<IdPair>(
            accounts.applied,
        ),
        (forall|i: int|
            0 <= i < reservations.len() ==> (#[trigger] reservations[i]).epoch_id@ == zeros(32))
            ==> reservation_payload(reservations) == seq![
            75u8,
            71u8,
            66u8,
            82u8,
            83u8,
            86u8,
            49u8,
            0u8,
        ] + spec_u32_to_le_bytes(reservations.len() as u32) + encode_all::<UnboundReservation>(
            reservations,
        ),
        (exists|i: int|
            0 <= i < reservations.len() && (#[trigger] reservations[i]).epoch_id@ != zeros(32))
            ==> reservation_payload(reservations) == seq![
            75u8,
            71u8,
            66u8,
            82u8,
            83u8,
            86u8,
            50u8,
            0u8,
        ] + spec_u32_to_le_bytes(reservations.len() as u32) + encode_all::<BoundReservation>(
            reservations,
        ),
        journal_payload(locks) == seq![75u8, 71u8, 66u8, 76u8, 67u8, 75u8, 49u8, 0u8]
            + spec_u32_to_le_bytes(locks.len() as u32) + encode_all::<IdPair>(locks),
        registry_payload(keys) == seq![75u8, 71u8, 66u8, 83u8, 85u8, 83u8, 49u8, 0u8]
            + encode_all::<SuspendedKey>(keys),
        marker_header() == seq![75u8, 71u8, 66u8, 73u8, 78u8, 73u8, 49u8, 0u8],
        IdPair::width() == 64,
        SuspendedKey::width() == 32,
        EncryptedSubmissionV1::width() == 689,
        BalanceRecordV1::width() == 64,
{
    if exists|i: int|
        0 <= i < reservations.len() && (#[trigger] reservations[i]).epoch_id@ != zeros(32) {
        let i = choose|i: int|
            0 <= i < reservations.len() && (#[trigger] reservations[i]).epoch_id@ != zeros(32);
        assert(!crate::admission::unbound(reservations[i]));
    }
}

/// A pair is its first part and its second, and a suspended key is itself.
pub proof fn law_pairs_are_laid_out(pair: ([u8; 32], [u8; 32]), key: [u8; 32])
    ensures
        IdPair::encoded(pair).subrange(0, 32) == pair.0@,
        IdPair::encoded(pair).subrange(32, 64) == pair.1@,
        IdPair::encoded(pair).len() == 64,
        SuspendedKey::encoded(key) == key@,
{
    assert(IdPair::encoded(pair).subrange(0, 32) =~= pair.0@);
    assert(IdPair::encoded(pair).subrange(32, 64) =~= pair.1@);
}

/// A list of balances holds each participant with its base and quote amounts, in order.
pub proof fn law_settled_balances_are_laid_out(entries: Seq<([u8; 32], PoolBalance)>, i: int)
    requires
        0 <= i < entries.len(),
    ensures
        balance_list(entries).len() == 48 * entries.len(),
        balance_list(entries).subrange(48 * i, 48 * i + 32) == entries[i].0@,
        balance_list(entries).subrange(48 * i + 32, 48 * i + 40) == spec_u64_to_le_bytes(
            entries[i].1.base_atoms,
        ),
        balance_list(entries).subrange(48 * i + 40, 48 * i + 48) == spec_u64_to_le_bytes(
            entries[i].1.quote_atoms,
        ),
        entries.len() <= u32::MAX ==> balances_bytes(entries) == spec_u32_to_le_bytes(
            entries.len() as u32,
        ) + balance_list(entries),
    decreases entries.len(),
{
    lemma_auto_spec_u32_to_from_le_bytes();
    lemma_auto_spec_u64_to_from_le_bytes();
    let bytes = balance_list(entries);
    let rest = balance_list(entries.drop_last());
    if entries.len() > 1 {
        law_settled_balances_are_laid_out(
            entries.drop_last(),
            if i < entries.len() - 1 {
                i
            } else {
                0
            },
        );
    } else {
        assert(rest.len() == 0);
    }
    if i < entries.len() - 1 {
        assert(entries.drop_last()[i] == entries[i]);
        assert(bytes.subrange(48 * i, 48 * i + 32) =~= rest.subrange(48 * i, 48 * i + 32));
        assert(bytes.subrange(48 * i + 32, 48 * i + 40) =~= rest.subrange(48 * i + 32, 48 * i + 40));
        assert(bytes.subrange(48 * i + 40, 48 * i + 48) =~= rest.subrange(48 * i + 40, 48 * i + 48));
    } else {
        assert(bytes.subrange(48 * i, 48 * i + 32) =~= entries[i].0@);
        assert(bytes.subrange(48 * i + 32, 48 * i + 40) =~= spec_u64_to_le_bytes(
            entries[i].1.base_atoms,
        ));
        assert(bytes.subrange(48 * i + 40, 48 * i + 48) =~= spec_u64_to_le_bytes(
            entries[i].1.quote_atoms,
        ));
    }
}

/// A result is remembered by the digest of a tag, the balances before it and the balances after it.
pub proof fn law_results_are_remembered_whole(result: BatchResult)
    ensures
        settlement_digest_of(result) == sha256(
            encode_utf8("kageb-account-settlement-v1"@) + balances_bytes(result.before())
                + balances_bytes(result.after()),
        ),
{
}

} // verus!
