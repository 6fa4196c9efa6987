//! Joining an epoch: a reservation, an authorization, and an encrypted one-lot order.

use crate::admission::{
    reserved_base, reserved_quote, JournalError, ReservationJournal, ReservationRecord,
    ReservationState,
};
use crate::bytes::{append, zeros};
use crate::codec::views;
use crate::crypto::{
    intent_message, is_encrypted_intent, signed_intent_bytes, submission_refusal, CryptoError,
    EncryptedSubmissionV1, PolicyFields, SignedIntentV1,
};
use crate::domain::{
    intent_bytes, intent_error, intent_valid, lemma_intent_layout, IntentBodyV1, IntentFields,
    ProtocolError, Side,
};
use crate::idmap::{has_id, value_of};
use crate::ledger::PoolBalance;
use crate::program::EpochConfigurationV1;
use crate::shares::EpochPublicKeys;
use crate::signing::{ed25519_signed, SigningKey};
use crate::snapshot::{balance_valid, BalanceFields, BalanceRecordV1, LockValidationError};
use crate::suspension::{SuspensionError, SuspensionRegistry};
use crate::threshold::opens_to;
use vstd::bytes::{lemma_auto_spec_u32_to_from_le_bytes, spec_u32_to_le_bytes, u32_to_le_bytes};
use vstd::prelude::*;
use vstd::slice::slice_subrange;

verus! {

/// Base atoms of the one lot that a member reserves.
pub const MEMBER_BASE_ATOMS: u64 = 1;

/// Quote atoms of the one lot that a member reserves, which are also its limit.
pub const MEMBER_QUOTE_ATOMS: u64 = 100;

/// What a member brings to an epoch. The identifiers, the nonces and the receipt are drawn at random
/// by the caller. A spoiled order says two lots where one is allowed.
#[derive(Clone, Copy, Debug, PartialEq, Eq)]
pub struct JoinTerms {
    pub side: Side,
    pub epoch_id: [u8; 32],
    pub participant_id: [u8; 32],
    pub reservation_nonce: [u8; 32],
    pub client_nonce: [u8; 16],
    pub receipt: [u8; 32],
    pub expiry_slot: u64,
    pub spoiled: bool,
}

/// Why a member cannot join.
#[derive(Clone, Debug, PartialEq, Eq)]
pub enum JoinError {
    Reservation(JournalError),
    Authorization(SuspensionError),
    Intent(ProtocolError),
    Encryption(CryptoError),
    Submission(CryptoError),
}

/// The order of a member.
pub open spec fn joined_intent(terms: JoinTerms) -> IntentFields {
    IntentFields {
        side: terms.side,
        lots: 1,
        limit_price: MEMBER_QUOTE_ATOMS,
        epoch_id: terms.epoch_id,
        participant_id: terms.participant_id,
        client_nonce: terms.client_nonce,
    }
}

/// The wire form of an order, with two lots written over the one.
pub open spec fn spoiled_bytes(encoded: Seq<u8>) -> Seq<u8> {
    encoded.take(2) + spec_u32_to_le_bytes(2) + encoded.skip(6)
}

/// What a member encrypts.
pub open spec fn joined_plaintext(terms: JoinTerms, signature: [u8; 64]) -> Seq<u8> {
    let encoded = signed_intent_bytes(joined_intent(terms), signature);
    if terms.spoiled {
        spoiled_bytes(encoded)
    } else {
        encoded
    }
}

/// Why a journal refuses the reservation of a member who holds one lot, where it does.
pub open spec fn join_refusal(
    entries: Seq<([u8; 32], ReservationRecord)>,
    terms: JoinTerms,
) -> Option<JournalError> {
    let base = reserved_base(entries, terms.participant_id) + MEMBER_BASE_ATOMS;
    let quote = reserved_quote(entries, terms.participant_id) + MEMBER_QUOTE_ATOMS;
    if has_id(entries, terms.reservation_nonce) {
        Some(JournalError::DuplicateNonce)
    } else if base > u64::MAX || quote > u64::MAX {
        Some(JournalError::ArithmeticOverflow)
    } else if base > MEMBER_BASE_ATOMS || quote > MEMBER_QUOTE_ATOMS {
        Some(JournalError::InsufficientBalance)
    } else if entries.len() >= u32::MAX {
        Some(JournalError::ArithmeticOverflow)
    } else {
        None
    }
}

/// Whether a journal holds the reservation of a member, and what it held before.
pub open spec fn reservation_recorded(
    before: Seq<([u8; 32], ReservationRecord)>,
    after: Seq<([u8; 32], ReservationRecord)>,
    terms: JoinTerms,
) -> bool {
    &&& value_of(after, terms.reservation_nonce) matches Some(record) && record@.nonce
        == terms.reservation_nonce && record@.epoch_id == terms.epoch_id && record@.participant_id
        == terms.participant_id && record@.base_atoms == MEMBER_BASE_ATOMS && record@.quote_atoms == MEMBER_QUOTE_ATOMS
        && record@.state == ReservationState::Reserved
    &&& forall|nonce: [u8; 32]|
        nonce != terms.reservation_nonce ==> #[trigger] value_of(after, nonce) == value_of(
            before,
            nonce,
        )
}

/// Whether a policy is that of the member's epoch and operator, not after its expiry.
pub open spec fn policy_covers(policy: PolicyFields, terms: JoinTerms, operator: [u8; 32]) -> bool {
    &&& policy.operator_key == operator
    &&& policy.epoch_id == terms.epoch_id
    &&& policy.base_atoms == MEMBER_BASE_ATOMS
    &&& policy.quote_atoms == MEMBER_QUOTE_ATOMS
    &&& policy.current_slot <= terms.expiry_slot
}

/// Whether a submission is that of a member: authorized for their trading key, with a ciphertext that
/// any two shares open to their order, and accepted by every policy of their epoch.
pub open spec fn submission_joins(
    submission: EncryptedSubmissionV1,
    signature: [u8; 64],
    terms: JoinTerms,
    keys: Seq<u8>,
    operator: [u8; 32],
    trading: [u8; 32],
) -> bool {
    let authorization = submission@.authorization;
    &&& authorization.operator_key == operator
    &&& authorization.epoch_id == terms.epoch_id
    &&& authorization.participant_id == terms.participant_id
    &&& authorization.trading_key == trading
    &&& authorization.nonce == terms.reservation_nonce
    &&& authorization.base_atoms == MEMBER_BASE_ATOMS
    &&& authorization.quote_atoms == MEMBER_QUOTE_ATOMS
    &&& authorization.expiry_slot == terms.expiry_slot
    &&& submission@.receipt == terms.receipt
    &&& is_encrypted_intent(submission@.ciphertext)
    &&& opens_to(keys, submission@.ciphertext, joined_plaintext(terms, signature))
    &&& forall|policy: PolicyFields|
        policy_covers(policy, terms, operator) ==> (#[trigger] submission_refusal(
            submission@,
            policy,
        )) is None
}

fn spoil(encoded: &[u8; 192]) -> (spoiled: Vec<u8>)
    ensures
        spoiled@ == spoiled_bytes(encoded@),
        spoiled@.len() == 192,
{
    proof {
        lemma_auto_spec_u32_to_from_le_bytes();
    }
    let mut spoiled: Vec<u8> = Vec::new();
    append(&mut spoiled, slice_subrange(encoded.as_slice(), 0, 2));
    append(&mut spoiled, u32_to_le_bytes(2).as_slice());
    append(&mut spoiled, slice_subrange(encoded.as_slice(), 6, 192));
    assert(spoiled@ =~= spoiled_bytes(encoded@));
    spoiled
}

/// Joins an epoch: reserves both sides of one lot for it against a balance of one lot, has the operator
/// authorize the trading key, and signs and encrypts the order.
///
/// A reservation stays recorded where a later step is refused.
pub fn join_epoch(
    reservations: &mut ReservationJournal,
    suspensions: &SuspensionRegistry,
    keys: &EpochPublicKeys,
    operator: &SigningKey,
    trading: &SigningKey,
    terms: &JoinTerms,
) -> (joined: Result<(SignedIntentV1, EncryptedSubmissionV1), JoinError>)
    requires
        old(reservations).wf(),
    ensures
        final(reservations).wf(),
        match join_refusal(old(reservations)@, *terms) {
            Some(error) => joined == Err::<(SignedIntentV1, EncryptedSubmissionV1), _>(
                JoinError::Reservation(error),
            ) && *final(reservations) == *old(reservations),
            None => reservation_recorded(old(reservations)@, final(reservations)@, *terms)
                && match joined {
                Ok((signed, submission)) => {
                    &&& !suspensions@.contains(trading.public())
                    &&& terms.receipt@ != zeros(32)
                    &&& signed.wf()
                    &&& signed@ == (
                        joined_intent(*terms),
                        ed25519_signed(
                            trading.secret()@,
                            intent_message(joined_intent(*terms)),
                        ),
                    )
                    &&& submission_joins(
                        submission,
                        signed@.1,
                        *terms,
                        keys@,
                        operator.public(),
                        trading.public(),
                    )
                },
                Err(JoinError::Authorization(error)) => error == SuspensionError::Suspended
                    && suspensions@.contains(trading.public()),
                Err(JoinError::Submission(error)) => error == CryptoError::InvalidReceipt
                    && terms.receipt@ == zeros(32) && !suspensions@.contains(trading.public()),
                Err(_) => false,
            },
        },
{
    let record = match ReservationRecord::for_epoch(
        terms.reservation_nonce,
        terms.epoch_id,
        terms.participant_id,
        MEMBER_BASE_ATOMS,
        MEMBER_QUOTE_ATOMS,
    ) {
        Ok(record) => record,
        Err(error) => {
            return Err(JoinError::Reservation(error));
        },
    };
    let available = PoolBalance::new(MEMBER_BASE_ATOMS, MEMBER_QUOTE_ATOMS);
    let reserved = match reservations.reserve(record, available) {
        Ok(reserved) => reserved,
        Err(error) => {
            return Err(JoinError::Reservation(error));
        },
    };
    assert(reservation_recorded(old(reservations)@, reservations@, *terms)) by {
        assert(value_of(reservations@, terms.reservation_nonce) == Some(record));
    }
    let public = trading.verifying_key();
    let authorization = match suspensions.issue_authorization(
        reserved,
        terms.epoch_id,
        public,
        operator,
        terms.expiry_slot,
    ) {
        Ok(authorization) => authorization,
        Err(error) => {
            return Err(JoinError::Authorization(error));
        },
    };
    let body = match IntentBodyV1::new(
        terms.side,
        1,
        MEMBER_QUOTE_ATOMS,
        terms.epoch_id,
        terms.participant_id,
        terms.client_nonce,
    ) {
        Ok(body) => body,
        Err(error) => {
            return Err(JoinError::Intent(error));
        },
    };
    let signed = SignedIntentV1::sign(body, trading);
    let encrypted = if terms.spoiled {
        let spoiled = spoil(&signed.encode());
        keys.encrypt_encoded_intent(spoiled.as_slice())
    } else {
        keys.encrypt(&signed)
    };
    let encrypted = match encrypted {
        Ok(encrypted) => encrypted,
        Err(error) => {
            return Err(JoinError::Encryption(error));
        },
    };
    match EncryptedSubmissionV1::sign(authorization, encrypted, terms.receipt, trading) {
        Ok(submission) => {
            assert forall|policy: PolicyFields|
                policy_covers(policy, *terms, operator.public()) implies (
            #[trigger] submission_refusal(submission@, policy)) is None by {
                assert(crate::crypto::authorization_refusal(authorization@, policy) is None);
            }
            Ok((signed, submission))
        },
        Err(error) => Err(JoinError::Submission(error)),
    }
}

/// A spoiled order is no order: whatever opens to it recovers nothing.
pub proof fn law_spoiled_order_is_refused(fields: IntentFields, signature: [u8; 64])
    requires
        intent_valid(fields),
    ensures
        spoiled_bytes(signed_intent_bytes(fields, signature)).len() == 192,
        intent_error(spoiled_bytes(signed_intent_bytes(fields, signature)).take(128)) == Some(
            ProtocolError::InvalidLots(2),
        ),
{
    lemma_intent_layout(fields);
    lemma_auto_spec_u32_to_from_le_bytes();
    let encoded = signed_intent_bytes(fields, signature);
    let spoiled = spoiled_bytes(encoded);
    let body = spoiled.take(128);
    assert(encoded.take(128) =~= intent_bytes(fields));
    assert(body[0] == intent_bytes(fields)[0]);
    assert(body[1] == intent_bytes(fields)[1]);
    assert(body.subrange(94, 128) =~= intent_bytes(fields).subrange(94, 128));
    assert(body.subrange(2, 6) =~= spec_u32_to_le_bytes(2));
}

/// The balances of members who hold one lot each, all of it reserved.
pub open spec fn member_balances_of(ids: Seq<[u8; 32]>) -> Seq<BalanceFields> {
    ids.map_values(
        |id: [u8; 32]|
            BalanceFields {
                participant_id: id,
                base_atoms: MEMBER_BASE_ATOMS,
                quote_atoms: MEMBER_QUOTE_ATOMS,
                reserved_base_atoms: MEMBER_BASE_ATOMS,
                reserved_quote_atoms: MEMBER_QUOTE_ATOMS,
            },
    )
}

/// The balances of members who hold one lot each. The participant of zeros is refused.
pub fn member_balances(ids: &[[u8; 32]]) -> (balances: Result<
    Vec<BalanceRecordV1>,
    LockValidationError,
>)
    ensures
        match balances {
            Ok(balances) => {
                &&& forall|i: int| 0 <= i < ids@.len() ==> (#[trigger] ids@[i])@ != zeros(32)
                &&& views(balances@) == member_balances_of(ids@)
                &&& forall|i: int| 0 <= i < balances@.len() ==> (#[trigger] balances@[i]).wf()
            },
            Err(error) => error == LockValidationError::InvalidBalance && exists|i: int|
                0 <= i < ids@.len() && (#[trigger] ids@[i])@ == zeros(32),
        },
{
    let mut balances: Vec<BalanceRecordV1> = Vec::new();
    let ghost expected = member_balances_of(ids@);
    let mut i: usize = 0;
    while i < ids.len()
        invariant
            i <= ids@.len() == expected.len(),
            expected == member_balances_of(ids@),
            balances@.len() == i,
            forall|k: int| 0 <= k < i ==> (#[trigger] balances@[k])@ == expected[k],
            forall|k: int| 0 <= k < i ==> (#[trigger] balances@[k]).wf(),
            forall|k: int| 0 <= k < i ==> (#[trigger] ids@[k])@ != zeros(32),
        decreases ids@.len() - i,
    {
        match BalanceRecordV1::new(
            ids[i],
            MEMBER_BASE_ATOMS,
            MEMBER_QUOTE_ATOMS,
            MEMBER_BASE_ATOMS,
            MEMBER_QUOTE_ATOMS,
        ) {
            Ok(balance) => {
                assert(balance@ == expected[i as int]);
                balances.push(balance);
            },
            Err(error) => {
                assert(!balance_valid(expected[i as int]));
                assert(ids@[i as int]@ == zeros(32));
                return Err(error);
            },
        }
        i += 1;
    }
    assert(views(balances@) =~= expected);
    Ok(balances)
}

/// The terms of an epoch of four members, two of three keypers, and lots of one and a hundred.
pub fn member_configuration(
    pool: [u8; 32],
    epoch_id: [u8; 32],
    base_mint: [u8; 32],
    quote_mint: [u8; 32],
    keypers: [[u8; 32]; 3],
    lock_deadline: i64,
    abort_deadline: i64,
) -> (configuration: EpochConfigurationV1)
    ensures
        configuration == (EpochConfigurationV1 {
            pool,
            epoch_id,
            base_mint,
            quote_mint,
            base_lot_atoms: MEMBER_BASE_ATOMS,
            quote_atoms_per_lot: MEMBER_QUOTE_ATOMS,
            minimum_count: 4,
            lock_threshold: 2,
            settlement_threshold: 2,
            keypers,
            lock_deadline,
            abort_deadline,
        }),
{
    EpochConfigurationV1 {
        pool,
        epoch_id,
        base_mint,
        quote_mint,
        base_lot_atoms: MEMBER_BASE_ATOMS,
        quote_atoms_per_lot: MEMBER_QUOTE_ATOMS,
        minimum_count: 4,
        lock_threshold: 2,
        settlement_threshold: 2,
        keypers,
        lock_deadline,
        abort_deadline,
    }
}

/// A member joins exactly where its nonce is new, none of its reservations is still reserved, and another
/// one can be counted: it has one lot, which one open reservation takes.
pub proof fn law_member_joins_once(entries: Seq<([u8; 32], ReservationRecord)>, terms: JoinTerms)
    requires
        forall|i: int|
            0 <= i < entries.len() ==> (#[trigger] entries[i]).1@.base_atoms > 0
                && entries[i].1@.quote_atoms > 0,
    ensures
        join_refusal(entries, terms) is None <==> {
            &&& !has_id(entries, terms.reservation_nonce)
            &&& entries.len() < u32::MAX
            &&& forall|i: int|
                0 <= i < entries.len() && (#[trigger] entries[i]).1@.participant_id
                    == terms.participant_id ==> entries[i].1@.state != ReservationState::Reserved
        },
        has_id(entries, terms.reservation_nonce) ==> join_refusal(entries, terms) == Some(
            JournalError::DuplicateNonce,
        ),
{
    if forall|i: int|
        0 <= i < entries.len() && (#[trigger] entries[i]).1@.participant_id == terms.participant_id
            ==> entries[i].1@.state != ReservationState::Reserved {
        crate::admission::lemma_nothing_reserved(entries, terms.participant_id);
    } else {
        let i = choose|i: int|
            0 <= i < entries.len() && (#[trigger] entries[i]).1@.participant_id
                == terms.participant_id && entries[i].1@.state == ReservationState::Reserved;
        crate::admission::law_open_reservation_holds_its_amounts(entries, i);
        assert(entries[i].1@.base_atoms > 0);
    }
}

/// A member's order is for one lot on its own side, with a limit of a hundred, of its own epoch and
/// participant; a spoiled one differs from it in the number of lots alone, which is two.
pub proof fn law_joined_orders_are_exact(terms: JoinTerms, signature: [u8; 64], i: int)
    ensures
        joined_intent(terms).side == terms.side,
        joined_intent(terms).lots == 1,
        joined_intent(terms).limit_price == 100,
        joined_intent(terms).epoch_id == terms.epoch_id,
        joined_intent(terms).participant_id == terms.participant_id,
        joined_intent(terms).client_nonce == terms.client_nonce,
        ({
            let plaintext = joined_plaintext(terms, signature);
            let order = signed_intent_bytes(joined_intent(terms), signature);
            &&& plaintext.len() == 192
            &&& !terms.spoiled ==> plaintext == order
            &&& terms.spoiled ==> plaintext.subrange(2, 6) == spec_u32_to_le_bytes(2)
            &&& 0 <= i < 192 && !(2 <= i < 6) ==> plaintext[i] == order[i]
        }),
{
    lemma_auto_spec_u32_to_from_le_bytes();
    lemma_intent_layout(joined_intent(terms));
    let order = signed_intent_bytes(joined_intent(terms), signature);
    assert(order.len() == 192);
    assert(spoiled_bytes(order).subrange(2, 6) =~= spec_u32_to_le_bytes(2));
}

/// A member who joined has one lot and its price reserved for the epoch under its nonce, and nobody else's
/// reservation changed.
pub proof fn law_joined_members_hold_one_lot(
    before: Seq<([u8; 32], ReservationRecord)>,
    after: Seq<([u8; 32], ReservationRecord)>,
    terms: JoinTerms,
    nonce: [u8; 32],
)
    requires
        reservation_recorded(before, after, terms),
    ensures
        value_of(after, terms.reservation_nonce) matches Some(record) && record@.base_atoms == 1
            && record@.quote_atoms == 100 && record@.epoch_id == terms.epoch_id
            && record@.participant_id == terms.participant_id && record@.state
            == ReservationState::Reserved,
        nonce != terms.reservation_nonce ==> value_of(after, nonce) == value_of(before, nonce),
{
}

/// A member's submission is of its participant, its epoch, its nonce and its receipt, for one lot at a
/// hundred, and every policy of that operator, epoch, lot and price admits it until its last slot.
pub proof fn law_joined_submissions_are_admitted(
    submission: EncryptedSubmissionV1,
    signature: [u8; 64],
    terms: JoinTerms,
    keys: Seq<u8>,
    operator: [u8; 32],
    trading: [u8; 32],
    policy: PolicyFields,
)
    requires
        submission_joins(submission, signature, terms, keys, operator, trading),
    ensures
        submission@.authorization.operator_key == operator,
        submission@.authorization.epoch_id == terms.epoch_id,
        submission@.authorization.participant_id == terms.participant_id,
        submission@.authorization.trading_key == trading,
        submission@.authorization.nonce == terms.reservation_nonce,
        submission@.authorization.base_atoms == 1,
        submission@.authorization.quote_atoms == 100,
        submission@.authorization.expiry_slot == terms.expiry_slot,
        submission@.receipt == terms.receipt,
        opens_to(keys, submission@.ciphertext, joined_plaintext(terms, signature)),
        policy.operator_key == operator && policy.epoch_id == terms.epoch_id && policy.base_atoms
            == 1 && policy.quote_atoms == 100 && policy.current_slot <= terms.expiry_slot
            ==> submission_refusal(submission@, policy) is None,
        policy.current_slot > terms.expiry_slot ==> submission_refusal(submission@, policy) is Some,
{
    if policy.operator_key == operator && policy.epoch_id == terms.epoch_id && policy.base_atoms
        == 1 && policy.quote_atoms == 100 && policy.current_slot <= terms.expiry_slot {
        assert(policy_covers(policy, terms, operator));
    }
}

/// Members hold one lot and its price each, all of it reserved, in the order of their participants.
pub proof fn law_member_balances_are_exact(ids: Seq<[u8; 32]>, i: int)
    requires
        0 <= i < ids.len(),
    ensures
        member_balances_of(ids).len() == ids.len(),
        member_balances_of(ids)[i].participant_id == ids[i],
        member_balances_of(ids)[i].base_atoms == 1,
        member_balances_of(ids)[i].quote_atoms == 100,
        member_balances_of(ids)[i].reserved_base_atoms == 1,
        member_balances_of(ids)[i].reserved_quote_atoms == 100,
{
}

} // verus!
