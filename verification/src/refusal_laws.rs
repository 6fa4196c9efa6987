//! By what name each wrong input is refused, and which of several wrongs is named.

use crate::account::{finalize_refusal, settlement_refusal, AccountError, Accounts};
use crate::admission::{JournalError, ReservationRecord, ReservationState};
use crate::bytes::zeros;
use crate::crypto::{
    authorization_refusal, submission_refusal, CryptoError, FundedFields, PolicyFields,
    SignedIntentV1, SubmissionFields,
};
use crate::encodings::{pubkey_decoded, signature_decoded};
use crate::evidence::{loader_id, DevnetEvidenceContentV1, DevnetEvidenceError};
use crate::evidence_checks::{
    authority_refusal, extraction_refusal, reported, source_of, source_refusal, transaction_of,
    transaction_refusal, FinalizedTransactionSnapshotV1, PublicAccountSnapshotV1,
};
use crate::idmap::{has_id, value_of};
use crate::ledger::{BatchResult, Residual};
use crate::lock::{
    lock_refusal, locked_refusal, member_refusal, members_refusal, release_refusal, sign_refusal,
    LockedFields, OpenFields, PackageFields,
};
use crate::observer::{
    confirmed, is_approved_call, kageb_trace, last_kageb, lock_call_refusal, settlement_call,
    KagebObserverAccounts, KagebRead, ObserverError, ProgramIds, PublicAction,
};
use crate::shares::{recovery, KeyperSecretShare, ReleasedFields};
use crate::signing::ed25519_key;
use crate::snapshot::{
    balance_root_of, member_root_of, snapshot_refusal, BalanceFields, LockValidationError,
    SnapshotFields,
};
use crate::threshold::{ciphertext_valid, key_share, share_public, share_verifies};
use crate::transaction::{FetchedTransaction, ObservedParts};
use vstd::bytes::spec_u32_from_le_bytes;
use vstd::prelude::*;

verus! {

/// An authorization with a wrong field or past its slot is invalid, one of another epoch is of the wrong
/// epoch, and one that its operator did not sign is invalid.
pub proof fn law_wrong_authorizations_are_named(fields: FundedFields, policy: PolicyFields)
    ensures
        ({
            let refusal = authorization_refusal(fields, policy);
            let plain = fields.version == 1 && fields.operator_key == policy.operator_key
                && fields.base_atoms == policy.base_atoms && fields.quote_atoms
                == policy.quote_atoms && policy.current_slot <= fields.expiry_slot;
            let here = fields.epoch_id == policy.epoch_id;
            &&& !plain ==> refusal == Some(CryptoError::InvalidAuthorization)
            &&& plain && !here ==> refusal == Some(CryptoError::WrongEpoch)
            &&& plain && here && refusal is Some ==> refusal == Some(
                CryptoError::InvalidAuthorization,
            )
        }),
{
}

/// A submission is refused as its authorization is; behind that, a receipt of zeros, a ciphertext that is
/// none, a trading key that is none and an outer signature that does not stand are each named.
pub proof fn law_wrong_submissions_are_named(fields: SubmissionFields, policy: PolicyFields)
    ensures
        ({
            let refusal = submission_refusal(fields, policy);
            let funded = authorization_refusal(fields.authorization, policy) is None;
            let receipted = fields.receipt@ != zeros(32);
            let sealed = fields.ciphertext.len() == 344 && ciphertext_valid(fields.ciphertext);
            let keyed = ed25519_key(fields.authorization.trading_key@);
            &&& !funded ==> refusal == authorization_refusal(fields.authorization, policy)
            &&& funded && !receipted ==> refusal == Some(CryptoError::InvalidReceipt)
            &&& funded && receipted && !sealed ==> refusal == Some(CryptoError::InvalidCiphertext)
            &&& funded && receipted && sealed && !keyed ==> refusal == Some(
                CryptoError::InvalidAuthorization,
            )
            &&& funded && receipted && sealed && keyed && refusal is Some ==> refusal == Some(
                CryptoError::InvalidOuterSignature,
            )
        }),
{
}

/// A snapshot is refused as one, but for balances that have no root.
pub proof fn law_wrong_snapshots_are_named(
    fields: SnapshotFields,
    epoch_id: [u8; 32],
    records: Seq<BalanceFields>,
    operator_key: [u8; 32],
)
    ensures
        ({
            let refusal = snapshot_refusal(fields, epoch_id, records, operator_key);
            let plain = records.len() <= u32::MAX && fields.epoch_id == epoch_id
                && fields.record_count == records.len() && fields.operator_key == operator_key;
            &&& !plain ==> refusal == Some(LockValidationError::InvalidSnapshot)
            &&& plain && balance_root_of(records) is Err ==> refusal == Some(
                LockValidationError::InvalidBalance,
            )
            &&& plain && balance_root_of(records) is Ok && refusal is Some ==> refusal == Some(
                LockValidationError::InvalidSnapshot,
            )
        }),
{
}

/// A member is refused as its submission, for its participant, for its nonce or for its receipt, in this
/// order, where one before it has the same; the first member that is refused is named.
pub proof fn law_wrong_members_are_named(
    submissions: Seq<SubmissionFields>,
    policy: PolicyFields,
    i: int,
)
    requires
        0 <= i < submissions.len(),
    ensures
        ({
            let refusal = member_refusal(submissions, policy, i);
            let admitted = submission_refusal(submissions[i], policy) is None;
            let participant = forall|k: int|
                0 <= k < i ==> (#[trigger] submissions[k]).authorization.participant_id
                    != submissions[i].authorization.participant_id;
            let nonce = forall|k: int|
                0 <= k < i ==> (#[trigger] submissions[k]).authorization.nonce
                    != submissions[i].authorization.nonce;
            let receipt = forall|k: int|
                0 <= k < i ==> (#[trigger] submissions[k]).receipt != submissions[i].receipt;
            &&& !admitted ==> refusal == Some(LockValidationError::InvalidSubmission)
            &&& admitted && !participant ==> refusal == Some(
                LockValidationError::DuplicateParticipant,
            )
            &&& admitted && participant && !nonce ==> refusal == Some(
                LockValidationError::DuplicateAuthorization,
            )
            &&& admitted && participant && nonce && !receipt ==> refusal == Some(
                LockValidationError::DuplicateReceipt,
            )
            &&& admitted && participant && nonce && receipt ==> refusal is None
        }),
        member_refusal(submissions, policy, i) is Some && (forall|k: int|
            0 <= k < i ==> #[trigger] member_refusal(submissions, policy, k) is None)
            ==> members_refusal(submissions, policy, submissions.len() as int) == member_refusal(
            submissions,
            policy,
            i,
        ),
{
    if member_refusal(submissions, policy, i) is Some && (forall|k: int|
        0 <= k < i ==> #[trigger] member_refusal(submissions, policy, k) is None) {
        lemma_first_member(submissions, policy, i, submissions.len() as int);
    }
}

proof fn lemma_first_member(
    submissions: Seq<SubmissionFields>,
    policy: PolicyFields,
    i: int,
    n: int,
)
    requires
        0 <= i < submissions.len(),
        0 <= n <= submissions.len(),
        member_refusal(submissions, policy, i) is Some,
        forall|k: int| 0 <= k < i ==> #[trigger] member_refusal(submissions, policy, k) is None,
    ensures
        n <= i ==> members_refusal(submissions, policy, n) is None,
        n > i ==> members_refusal(submissions, policy, n) == member_refusal(submissions, policy, i),
    decreases n,
{
    if n > 0 {
        lemma_first_member(submissions, policy, i, n - 1);
        if n - 1 < i {
            assert(member_refusal(submissions, policy, n - 1) is None);
        }
    }
}

/// A package is refused, in this order, for its configuration or its nonce, for the deadline, for more
/// members or balances than fit, for a count that is not theirs, for a crowd below the minimum, as its
/// first wrong member, for its members' root, as its snapshot, and for its balances.
pub proof fn law_wrong_packages_are_named(package: PackageFields, open: OpenFields)
    ensures
        ({
            let refusal = lock_refusal(package, open);
            let terms = package.configuration;
            let keypers = terms.keypers@;
            let configured = package.epoch_account == open.epoch_account && terms
                == open.configuration && package.lock_nonce@ != zeros(32) && terms.minimum_count
                >= 4 && terms.lock_threshold == 2 && terms.settlement_threshold == 2 && terms.pool@
                != zeros(32) && terms.base_mint@ != zeros(32) && terms.quote_mint@ != zeros(32)
                && terms.base_mint != terms.quote_mint && keypers[0]@ != zeros(32) && keypers[1]@
                != zeros(32) && keypers[2]@ != zeros(32) && keypers[0] != keypers[1] && keypers[0]
                != keypers[2] && keypers[1] != keypers[2] && terms.lock_deadline
                < terms.abort_deadline;
            let timely = open.current_timestamp < terms.lock_deadline;
            let fits = package.submissions.len() <= 64 && package.balances.len() <= 64;
            let counted = package.member_count == package.submissions.len();
            let crowd = package.member_count >= terms.minimum_count;
            let members = members_refusal(
                package.submissions,
                open.policy,
                package.submissions.len() as int,
            );
            let root = member_root_of(package.keys, package.submissions);
            let snapshot = snapshot_refusal(
                package.snapshot,
                terms.epoch_id,
                package.balances,
                open.policy.operator_key,
            );
            let before = configured && timely && fits && counted && crowd;
            &&& !configured ==> refusal == Some(LockValidationError::InvalidConfiguration)
            &&& configured && !timely ==> refusal == Some(LockValidationError::DeadlinePassed)
            &&& configured && timely && !fits ==> refusal == Some(
                LockValidationError::MemberLimitExceeded,
            )
            &&& configured && timely && fits && !counted ==> refusal == Some(
                LockValidationError::MemberCountMismatch,
            )
            &&& configured && timely && fits && counted && !crowd ==> refusal == Some(
                LockValidationError::CrowdBelowMinimum,
            )
            &&& before && members is Some ==> refusal == members
            &&& before && members is None && root is Err ==> refusal == Some(
                LockValidationError::InvalidSubmission,
            )
            &&& before && members is None && root is Ok && root != Ok::<
                [u8; 32],
                LockValidationError,
            >(package.member_root) ==> refusal == Some(LockValidationError::MemberRootMismatch)
            &&& before && members is None && root == Ok::<[u8; 32], LockValidationError>(
                package.member_root,
            ) && snapshot is Some ==> refusal == snapshot
            &&& before && members is None && root == Ok::<[u8; 32], LockValidationError>(
                package.member_root,
            ) && snapshot is None && refusal is Some ==> refusal == Some(
                LockValidationError::InvalidBalance,
            )
        }),
{
}

/// A keyper refuses to sign first where it is not the keyper that is meant, then as the package is refused,
/// then where it signed another lock of the epoch.
pub proof fn law_unsigned_locks_are_named(
    index: usize,
    key: [u8; 32],
    journal: Seq<([u8; 32], [u8; 32])>,
    package: PackageFields,
    open: OpenFields,
    secret: KeyperSecretShare,
    lock_digest: [u8; 32],
)
    ensures
        ({
            let refusal = sign_refusal(index, key, journal, package, open, secret, lock_digest);
            let meant = index < 3 && open.configuration.keypers@[index as int] == key
                && secret.position() == index && secret.epoch() == package.epoch_account
                && key_share(package.keys, index) is Some && key_share(package.keys, index)
                == share_public(secret.secret()@);
            &&& !meant ==> refusal == Some(LockValidationError::WrongKeyper)
            &&& meant && lock_refusal(package, open) is Some ==> refusal == lock_refusal(
                package,
                open,
            )
            &&& meant && lock_refusal(package, open) is None && refusal is Some ==> refusal == Some(
                LockValidationError::ConflictingLock,
            )
        }),
{
}

/// A share is refused first as the package is not the locked one, then where the keyper is not the one that
/// is meant or signed another lock or none, then for the member's submission.
pub proof fn law_unreleased_shares_are_named(
    index: usize,
    key: [u8; 32],
    journal: Seq<([u8; 32], [u8; 32])>,
    package: PackageFields,
    locked: LockedFields,
    secret: KeyperSecretShare,
    member_index: usize,
    lock_digest: [u8; 32],
)
    ensures
        ({
            let refusal = release_refusal(
                index,
                key,
                journal,
                package,
                locked,
                secret,
                member_index,
                lock_digest,
            );
            let is_locked = locked_refusal(package, locked, lock_digest) is None;
            let meant = index < 3 && locked.pool.unwrap().keypers@[index as int] == key
                && secret.position() == index && secret.epoch() == package.epoch_account
                && key_share(package.keys, index) is Some && key_share(package.keys, index)
                == share_public(secret.secret()@) && value_of(journal, package.epoch_account)
                == Some(lock_digest);
            &&& !is_locked ==> refusal == locked_refusal(package, locked, lock_digest)
            &&& is_locked && !meant ==> refusal == Some(LockValidationError::WrongKeyper)
            &&& is_locked && meant && refusal is Some ==> refusal == Some(
                LockValidationError::InvalidSubmission,
            )
            &&& is_locked && meant && member_index >= package.submissions.len() ==> refusal == Some(
                LockValidationError::InvalidSubmission,
            )
        }),
{
}

/// Fewer than two shares are too few; the first share that repeats an index is a repeated one, the first
/// that does not match is an invalid one, whichever comes first; what does not open is too few, and what
/// opens to no order is named as that.
pub proof fn law_unrecovered_orders_are_named(
    keys: Seq<u8>,
    ciphertext: Seq<u8>,
    shares: Seq<ReleasedFields>,
    outcome: Result<SignedIntentV1, CryptoError>,
    i: int,
)
    requires
        recovery(keys, ciphertext, shares, outcome),
    ensures
        shares.len() < 2 ==> outcome == Err::<SignedIntentV1, _>(CryptoError::InsufficientShares),
        shares.len() >= 2 && 0 <= i < shares.len() && (forall|k: int|
            0 <= k < i ==> share_verifies(
                keys,
                (#[trigger] shares[k]).index,
                shares[k].share@,
                ciphertext,
            )) && (forall|j: int, k: int|
            0 <= j < k < i ==> (#[trigger] shares[j]).index != (#[trigger] shares[k]).index) ==> {
            &&& (exists|k: int| 0 <= k < i && (#[trigger] shares[k]).index == shares[i].index)
                ==> outcome == Err::<SignedIntentV1, _>(CryptoError::DuplicateShare)
            &&& (forall|k: int| 0 <= k < i ==> (#[trigger] shares[k]).index != shares[i].index)
                && !share_verifies(keys, shares[i].index, shares[i].share@, ciphertext) ==> outcome
                == Err::<SignedIntentV1, _>(CryptoError::InvalidShare)
        },
{
    if shares.len() >= 2 && 0 <= i < shares.len() && (forall|k: int|
        0 <= k < i ==> share_verifies(
            keys,
            (#[trigger] shares[k]).index,
            shares[k].share@,
            ciphertext,
        )) && (forall|j: int, k: int|
        0 <= j < k < i ==> (#[trigger] shares[j]).index != (#[trigger] shares[k]).index) {
        assert forall|k: int| 0 <= k < i implies #[trigger] crate::shares::share_refusal(
            keys,
            ciphertext,
            shares,
            k,
        ) is None by {}
        let own = crate::shares::share_refusal(keys, ciphertext, shares, i);
        if own is Some {
            assert(!crate::shares::shares_usable(keys, ciphertext, shares));
            let error = outcome->Err_0;
            let j = choose|j: int| #[trigger]
                crate::shares::first_share_refusal(keys, ciphertext, shares, j, error);
            assert(crate::shares::first_share_refusal(keys, ciphertext, shares, j, error));
            assert(j == i) by {
                if j < i {
                    assert(crate::shares::share_refusal(keys, ciphertext, shares, j) is None);
                }
                if j > i {
                    assert(crate::shares::share_refusal(keys, ciphertext, shares, i) is None);
                }
            }
        }
    }
}

/// A deployment that is none is named by what is wrong with it: the loader of the program, the kind of its
/// account, the address of its data, the owner of that, the kind of that, too few bytes, no executable, or
/// something behind it.
pub proof fn law_wrong_deployments_are_named(
    program: PublicAccountSnapshotV1,
    expected: Seq<u8>,
    programdata: PublicAccountSnapshotV1,
    size: nat,
)
    ensures
        ({
            let refusal = extraction_refusal(program, expected, programdata, size);
            let data = programdata.data@;
            let loaded = program.owner@ == loader_id() && program.executable;
            let kind = program.data@.len() >= 36 && spec_u32_from_le_bytes(
                program.data@.subrange(0, 4),
            ) == 2;
            let address = program.data@.subrange(4, 36) == expected;
            let owned = programdata.owner@ == loader_id() && !programdata.executable;
            let metadata = data.len() >= 45 && spec_u32_from_le_bytes(
                data.take(45).subrange(0, 4),
            ) == 3 && data[12] <= 1;
            let whole = data.len() >= 45 + size;
            let elf = size >= 4 && data[45] == 0x7f && data[46] == 69 && data[47] == 76 && data[48]
                == 70;
            let before = loaded && kind && address && owned;
            &&& !loaded ==> refusal == Some(DevnetEvidenceError::WrongLoader)
            &&& loaded && !kind ==> refusal == Some(DevnetEvidenceError::MalformedLoaderMetadata)
            &&& loaded && kind && !address ==> refusal == Some(
                DevnetEvidenceError::WrongProgramDataAddress,
            )
            &&& loaded && kind && address && !owned ==> refusal == Some(
                DevnetEvidenceError::WrongProgramDataOwner,
            )
            &&& before && !metadata ==> refusal == Some(
                DevnetEvidenceError::MalformedLoaderMetadata,
            )
            &&& before && metadata && !whole ==> refusal == Some(
                DevnetEvidenceError::TruncatedExecutable,
            )
            &&& before && metadata && whole && !elf ==> refusal == Some(
                DevnetEvidenceError::InvalidElf,
            )
            &&& before && metadata && whole && elf && refusal is Some ==> refusal == Some(
                DevnetEvidenceError::NonZeroProgramDataTail,
            )
        }),
{
    let data = programdata.data@;
    if data.len() >= 45 + size {
        let executable = crate::evidence_checks::executable_of(data, size);
        assert(executable.len() == size);
        if size >= 4 {
            assert(executable[0] == data[45] && executable[1] == data[46] && executable[2]
                == data[47] && executable[3] == data[48]);
        }
    }
    if data.len() >= 45 {
        assert(data.take(45)[12] == data[12]);
    }
}

/// A transaction that evidence names is refused where its signature is none, where it is named twice, where
/// the cluster does not know it, where it is not final, where it failed, and where its slot is another.
pub proof fn law_wrong_transactions_are_named(
    evidence: DevnetEvidenceContentV1,
    snapshots: Seq<FinalizedTransactionSnapshotV1>,
    i: int,
)
    requires
        0 <= i < 6,
    ensures
        ({
            let refusal = transaction_refusal(evidence, snapshots, i);
            let named = transaction_of(evidence, i);
            let known = reported(snapshots, named.signature@);
            let signed = signature_decoded(named.signature@) is Some;
            let once = forall|k: int|
                0 <= k < i ==> (#[trigger] transaction_of(evidence, k)).signature@
                    != named.signature@;
            &&& !signed ==> refusal == Some(DevnetEvidenceError::InvalidPublicField)
            &&& signed && !once ==> refusal == Some(DevnetEvidenceError::UnexpectedInstruction)
            &&& signed && once && known is None ==> refusal == Some(
                DevnetEvidenceError::MissingTransaction,
            )
            &&& signed && once && known is Some && !known.unwrap().finalized ==> refusal == Some(
                DevnetEvidenceError::UnfinalizedTransaction,
            )
            &&& signed && once && known is Some && known.unwrap().finalized
                && !known.unwrap().succeeded ==> refusal == Some(
                DevnetEvidenceError::FailedTransaction,
            )
            &&& signed && once && known is Some && known.unwrap().finalized
                && known.unwrap().succeeded && (known.unwrap().slot != named.slot
                || known.unwrap().status_slot != named.slot) ==> refusal == Some(
                DevnetEvidenceError::TransactionSlotMismatch,
            )
        }),
{
}

/// A funding's authority or source that names no key is an invalid field; one that another funding has, and
/// an authority of zeros, is a repeated one.
pub proof fn law_wrong_fundings_are_named(evidence: DevnetEvidenceContentV1, i: int, s: int)
    requires
        0 <= i < 4,
        0 <= s < 8,
    ensures
        ({
            let refusal = authority_refusal(evidence, i);
            let authority = pubkey_decoded(evidence.transactions.funding@[i].authority@);
            let once = forall|k: int|
                0 <= k < i ==> pubkey_decoded(
                    (#[trigger] evidence.transactions.funding@[k]).authority@,
                ) != authority;
            &&& authority is None ==> refusal == Some(DevnetEvidenceError::InvalidPublicField)
            &&& authority is Some && (authority.unwrap()@ == zeros(32) || !once) ==> refusal == Some(
                DevnetEvidenceError::RepeatedFundingAuthority,
            )
            &&& authority is Some && authority.unwrap()@ != zeros(32) && once ==> refusal is None
        }),
        ({
            let refusal = source_refusal(evidence, s);
            let source = pubkey_decoded(source_of(evidence, s));
            let once = forall|k: int|
                0 <= k < s ==> pubkey_decoded(#[trigger] source_of(evidence, k)) != source;
            &&& source is None ==> refusal == Some(DevnetEvidenceError::InvalidPublicField)
            &&& source is Some && !once ==> refusal == Some(
                DevnetEvidenceError::RepeatedFundingSource,
            )
            &&& source is Some && once ==> refusal is None
        }),
{
}

/// A transaction without a status, or one that failed, is a failed one to an observer; one that does not
/// decode is an encoding that is none.
pub proof fn law_unconfirmed_transactions_are_named(fetched: FetchedTransaction)
    ensures
        !fetched.has_status || fetched.failed ==> confirmed(fetched) == Err::<ObservedParts, _>(
            ObserverError::FailedTransaction,
        ),
        fetched.has_status && !fetched.failed && fetched.observed() is None ==> confirmed(fetched)
            == Err::<ObservedParts, _>(ObserverError::InvalidEncoding),
        fetched.has_status && !fetched.failed && fetched.observed() is Some ==> confirmed(fetched)
            == Ok::<_, ObserverError>(fetched.observed().unwrap()),
{
}

/// A result that cannot be applied is named: a stale one for the epoch of zeros, for another result of the
/// epoch, or for balances that have changed since; an unknown account for a member without one; and one too
/// many where another result cannot be counted.
pub proof fn law_unapplied_results_are_named(
    accounts: Accounts,
    epoch_id: [u8; 32],
    result: BatchResult,
)
    ensures
        ({
            let refusal = settlement_refusal(accounts, epoch_id, result);
            let known = forall|i: int|
                0 <= i < result.after().len() ==> has_id(
                    accounts.records,
                    (#[trigger] result.after()[i]).0,
                );
            let current = forall|i: int|
                0 <= i < result.before().len() ==> (value_of(
                    accounts.records,
                    (#[trigger] result.before()[i]).0,
                ) matches Some(record) && record.balance == result.before()[i].1);
            &&& epoch_id@ == zeros(32) ==> refusal == Some(AccountError::StaleSettlement)
            &&& epoch_id@ != zeros(32) && !known ==> refusal == Some(AccountError::UnknownAccount)
            &&& epoch_id@ != zeros(32) && known && value_of(accounts.applied, epoch_id) is Some
                && refusal is Some ==> refusal == Some(AccountError::StaleSettlement)
            &&& epoch_id@ != zeros(32) && known && value_of(accounts.applied, epoch_id) is None
                && !current ==> refusal == Some(AccountError::StaleSettlement)
            &&& epoch_id@ != zeros(32) && known && value_of(accounts.applied, epoch_id) is None
                && current && accounts.applied.len() >= u32::MAX ==> refusal == Some(
                AccountError::ArithmeticOverflow,
            )
            &&& epoch_id@ != zeros(32) && known && value_of(accounts.applied, epoch_id) is None
                && current && accounts.applied.len() < u32::MAX ==> refusal is None
        }),
{
    let known = forall|i: int|
        0 <= i < result.after().len() ==> has_id(
            accounts.records,
            (#[trigger] result.after()[i]).0,
        );
    assert(known == crate::account::members_known(accounts.records, result));
    let current = forall|i: int|
        0 <= i < result.before().len() ==> (value_of(
            accounts.records,
            (#[trigger] result.before()[i]).0,
        ) matches Some(record) && record.balance == result.before()[i].1);
    assert(current == crate::account::accounts_current(accounts.records, result));
}

/// A result that cannot be made final is named by its reservations first: an unknown nonce, then one of
/// another epoch, given back, of nobody in the batch, or a second one of one participant, or another number
/// of them than members; used ones make a result stale that is not the one that stands; and behind that it
/// is refused as it would be without them.
pub proof fn law_unfinal_results_are_named(
    accounts: Accounts,
    reservations: Seq<([u8; 32], ReservationRecord)>,
    epoch_id: [u8; 32],
    result: BatchResult,
    nonces: Seq<[u8; 32]>,
)
    ensures
        ({
            let refusal = finalize_refusal(accounts, reservations, epoch_id, result, nonces);
            let known = forall|i: int|
                0 <= i < nonces.len() ==> value_of(reservations, #[trigger] nonces[i]) is Some;
            let own = nonces.len() == result.after().len() && (forall|i: int|
                0 <= i < nonces.len() ==> {
                    let fields = value_of(reservations, #[trigger] nonces[i]).unwrap()@;
                    &&& fields.epoch_id == epoch_id
                    &&& fields.state != ReservationState::Released
                    &&& has_id(result.after(), fields.participant_id)
                }) && (forall|i: int, j: int|
                0 <= i < j < nonces.len() ==> value_of(
                    reservations,
                    #[trigger] nonces[i],
                ).unwrap()@.participant_id != value_of(
                    reservations,
                    #[trigger] nonces[j],
                ).unwrap()@.participant_id);
            let used = exists|i: int|
                0 <= i < nonces.len() && value_of(
                    reservations,
                    #[trigger] nonces[i],
                ).unwrap()@.state == ReservationState::Used;
            &&& !known ==> refusal == Some(AccountError::Reservation(JournalError::UnknownNonce))
            &&& known && !own ==> refusal == Some(
                AccountError::Reservation(JournalError::InvalidTransition),
            )
            &&& known && own && used && value_of(accounts.applied, epoch_id) is None ==> refusal
                == Some(AccountError::StaleSettlement)
            &&& known && own && !used ==> refusal == settlement_refusal(accounts, epoch_id, result)
        }),
{
    let known = forall|i: int|
        0 <= i < nonces.len() ==> value_of(reservations, #[trigger] nonces[i]) is Some;
    assert(known == crate::admission::all_known(reservations, nonces)) by {
        if known {
            assert forall|i: int| 0 <= i < nonces.len() implies has_id(
                reservations,
                #[trigger] nonces[i],
            ) by {
                assert(value_of(reservations, nonces[i]) is Some);
            }
        }
    }
    let members = result.after();
    let own = nonces.len() == members.len() && (forall|i: int|
        0 <= i < nonces.len() ==> {
            let fields = value_of(reservations, #[trigger] nonces[i]).unwrap()@;
            &&& fields.epoch_id == epoch_id
            &&& fields.state != ReservationState::Released
            &&& has_id(members, fields.participant_id)
        }) && (forall|i: int, j: int|
        0 <= i < j < nonces.len() ==> value_of(
            reservations,
            #[trigger] nonces[i],
        ).unwrap()@.participant_id != value_of(
            reservations,
            #[trigger] nonces[j],
        ).unwrap()@.participant_id);
    assert(own == crate::admission::finalizable(reservations, epoch_id, nonces, members)) by {
        if crate::admission::finalizable(reservations, epoch_id, nonces, members) {
            assert forall|i: int| 0 <= i < nonces.len() implies {
                let fields = value_of(reservations, #[trigger] nonces[i]).unwrap()@;
                &&& fields.epoch_id == epoch_id
                &&& fields.state != ReservationState::Released
                &&& has_id(members, fields.participant_id)
            } by {
                assert(crate::admission::finalizable_one(
                    reservations,
                    epoch_id,
                    nonces[i],
                    members,
                ));
            }
            assert forall|i: int, j: int| 0 <= i < j < nonces.len() implies value_of(
                reservations,
                #[trigger] nonces[i],
            ).unwrap()@.participant_id != value_of(
                reservations,
                #[trigger] nonces[j],
            ).unwrap()@.participant_id by {
                assert(crate::admission::reservation_of(reservations, nonces[i]).participant_id
                    != crate::admission::reservation_of(reservations, nonces[j]).participant_id);
            }
        }
        if own {
            assert forall|i: int, j: int| 0 <= i < j < nonces.len() implies
                crate::admission::reservation_of(
                reservations,
                #[trigger] nonces[i],
            ).participant_id != crate::admission::reservation_of(
                reservations,
                #[trigger] nonces[j],
            ).participant_id by {
                assert(value_of(reservations, nonces[i]).unwrap()@.participant_id != value_of(
                    reservations,
                    nonces[j],
                ).unwrap()@.participant_id);
            }
        }
    }
    let used = exists|i: int|
        0 <= i < nonces.len() && value_of(reservations, #[trigger] nonces[i]).unwrap()@.state
            == ReservationState::Used;
    assert(used == crate::admission::some_used(reservations, nonces)) by {
        if used {
            let i = choose|i: int|
                0 <= i < nonces.len() && value_of(
                    reservations,
                    #[trigger] nonces[i],
                ).unwrap()@.state == ReservationState::Used;
            assert(crate::admission::reservation_of(reservations, nonces[i]).state
                == ReservationState::Used);
        }
    }
}

/// A lock and a settlement that are none are named: a fee payer, keys or accounts that are others are an
/// unexpected account, instructions that are others an unexpected instruction, and numbers that are none
/// of a residual an invalid one.
pub proof fn law_unobserved_settlements_are_named(
    lock: ObservedParts,
    settlement: ObservedParts,
    accounts: KagebObserverAccounts,
    ids: ProgramIds,
)
    ensures
        ({
            let trace = kageb_trace(lock, settlement, accounts, ids);
            let paid = lock.keys.len() > 0 && lock.keys[0] == accounts.fee_payer
                && settlement.keys.len() > 0 && settlement.keys[0] == accounts.fee_payer;
            let called = is_approved_call(lock, 2, ids) && is_approved_call(settlement, 3, ids)
                && lock.instructions.len() == 3 && settlement.instructions.len() == 3;
            &&& !paid ==> trace == Err::<Seq<PublicAction>, _>(ObserverError::UnexpectedAccount)
            &&& paid && !called ==> trace == Err::<Seq<PublicAction>, _>(
                ObserverError::UnexpectedInstruction,
            )
            &&& paid && called && lock_call_refusal(lock, accounts, ids) is Some ==> trace == Err::<
                Seq<PublicAction>,
                _,
            >(lock_call_refusal(lock, accounts, ids).unwrap())
            &&& paid && called && lock_call_refusal(lock, accounts, ids) is None
                && settlement_call(settlement, accounts, ids) is Err ==> trace == Err::<
                Seq<PublicAction>,
                _,
            >(settlement_call(settlement, accounts, ids)->Err_0)
            &&& trace is Ok ==> paid && called && lock_call_refusal(lock, accounts, ids) is None
                && settlement_call(settlement, accounts, ids) is Ok
        }),
        lock_call_refusal(lock, accounts, ids) matches Some(error) ==> error
            == ObserverError::UnexpectedAccount || error == ObserverError::UnexpectedInstruction,
        settlement_call(settlement, accounts, ids) == Err::<(Residual, [u8; 32]), _>(
            ObserverError::InvalidResidual,
        ) ==> (last_kageb(settlement) matches Some(KagebRead::Settle { terms })
            && (terms.residual_side > 2 || (terms.residual_side == 0 && terms.residual_lots > 0)
            || (terms.residual_side > 0 && terms.residual_lots == 0))),
{
}

} // verus!
