//! The lock gate: which batches a keyper signs, and which shares it releases.

use crate::bytes::{is_zero, same_array, zeros};
use crate::codec::views;
use crate::crypto::{
    is_encrypted_intent, submission_refusal, AdmissionPolicyV1, EncryptedSubmissionV1,
    PolicyFields, SubmissionFields,
};
use crate::hash::{digest_of, sha256};
use crate::idmap::value_of;
use crate::journal::LockJournal;
use crate::program::{
    clock_of, configuration_of, decode_clock, epoch_configuration, DerivedAddress,
    EpochConfigurationV1, EpochStateV1, EpochTerminalState, LockPayloadV1, PoolStateV1,
};
use crate::shares::{EpochPublicKeys, KeyperSecretShare, ReleasedShareV1};
use crate::signing::{ed25519_key, ed25519_signed, ed25519_verifies, verify_with, SigningKey, VerifyingKey};
use crate::snapshot::{
    balance_root, balance_root_of, member_root, member_root_of, snapshot_refusal, BalanceFields,
    BalanceRecordV1, LockValidationError, SignedBalanceSnapshotV1, SnapshotFields,
};
use crate::threshold::{decryption_share, key_share, share_public};
use vstd::prelude::*;

verus! {

pub const MAX_BATCH_MEMBERS: usize = 64;

/// What a lock package says.
pub struct PackageFields {
    pub epoch_account: [u8; 32],
    pub configuration: EpochConfigurationV1,
    pub keys: Seq<u8>,
    pub submissions: Seq<SubmissionFields>,
    pub balances: Seq<BalanceFields>,
    pub snapshot: SnapshotFields,
    pub pre_balance_root: [u8; 32],
    pub member_root: [u8; 32],
    pub member_count: u32,
    pub lock_nonce: [u8; 32],
}

/// A batch that is put to keypers to be locked.
#[derive(Clone, PartialEq, Eq)]
pub struct LockPackageV1 {
    pub epoch_account: [u8; 32],
    pub configuration: EpochConfigurationV1,
    pub epoch_public_keys: EpochPublicKeys,
    pub submissions: Vec<EncryptedSubmissionV1>,
    pub balances: Vec<BalanceRecordV1>,
    pub balance_snapshot: SignedBalanceSnapshotV1,
    pub pre_balance_root: [u8; 32],
    pub member_root: [u8; 32],
    pub member_count: u32,
    pub lock_nonce: [u8; 32],
}

impl View for LockPackageV1 {
    type V = PackageFields;

    open spec fn view(&self) -> PackageFields {
        PackageFields {
            epoch_account: self.epoch_account,
            configuration: self.configuration,
            keys: self.epoch_public_keys@,
            submissions: views(self.submissions@),
            balances: views(self.balances@),
            snapshot: self.balance_snapshot@,
            pre_balance_root: self.pre_balance_root,
            member_root: self.member_root,
            member_count: self.member_count,
            lock_nonce: self.lock_nonce,
        }
    }
}

/// What a confirmed read showed of an open epoch.
pub struct OpenFields {
    pub epoch_account: [u8; 32],
    pub configuration: EpochConfigurationV1,
    pub policy: PolicyFields,
    pub current_timestamp: i64,
}

/// Whether three keypers are named and differ.
pub open spec fn keypers_usable(keypers: [[u8; 32]; 3]) -> bool {
    &&& keypers@[0]@ != zeros(32)
    &&& keypers@[1]@ != zeros(32)
    &&& keypers@[2]@ != zeros(32)
    &&& keypers@[0] != keypers@[1]
    &&& keypers@[0] != keypers@[2]
    &&& keypers@[1] != keypers@[2]
}

/// Whether a keyper may sign under a configuration: a crowd of four, two of three keypers for the
/// lock and for the settlement, a named pool, two mints, and deadlines in order.
pub open spec fn configuration_usable(configuration: EpochConfigurationV1) -> bool {
    &&& configuration.minimum_count >= 4
    &&& configuration.lock_threshold == 2
    &&& configuration.settlement_threshold == 2
    &&& configuration.pool@ != zeros(32)
    &&& configuration.base_mint@ != zeros(32)
    &&& configuration.quote_mint@ != zeros(32)
    &&& configuration.base_mint != configuration.quote_mint
    &&& keypers_usable(configuration.keypers)
    &&& configuration.abort_deadline > configuration.lock_deadline
}

/// Whether an earlier submission is of the same participant.
pub open spec fn participant_taken(submissions: Seq<SubmissionFields>, i: int) -> bool {
    exists|k: int|
        0 <= k < i && (#[trigger] submissions[k]).authorization.participant_id
            == submissions[i].authorization.participant_id
}

/// Whether an earlier submission uses the same authorization nonce.
pub open spec fn nonce_taken(submissions: Seq<SubmissionFields>, i: int) -> bool {
    exists|k: int|
        0 <= k < i && (#[trigger] submissions[k]).authorization.nonce
            == submissions[i].authorization.nonce
}

/// Whether an earlier submission has the same receipt.
pub open spec fn receipt_taken(submissions: Seq<SubmissionFields>, i: int) -> bool {
    exists|k: int| 0 <= k < i && (#[trigger] submissions[k]).receipt == submissions[i].receipt
}

/// Why the submission at `i` cannot be a member, where it cannot.
pub open spec fn member_refusal(
    submissions: Seq<SubmissionFields>,
    policy: PolicyFields,
    i: int,
) -> Option<LockValidationError> {
    if submission_refusal(submissions[i], policy) is Some {
        Some(LockValidationError::InvalidSubmission)
    } else if participant_taken(submissions, i) {
        Some(LockValidationError::DuplicateParticipant)
    } else if nonce_taken(submissions, i) {
        Some(LockValidationError::DuplicateAuthorization)
    } else if receipt_taken(submissions, i) {
        Some(LockValidationError::DuplicateReceipt)
    } else {
        None
    }
}

/// Why the first of the first `n` submissions that cannot be a member cannot, where there is one.
pub open spec fn members_refusal(
    submissions: Seq<SubmissionFields>,
    policy: PolicyFields,
    n: int,
) -> Option<LockValidationError>
    decreases n,
{
    if n <= 0 {
        None
    } else if members_refusal(submissions, policy, n - 1) is Some {
        members_refusal(submissions, policy, n - 1)
    } else {
        member_refusal(submissions, policy, n - 1)
    }
}

/// Whether a balance covers the reserve that a submission was authorized for.
pub open spec fn covers(balance: BalanceFields, submission: SubmissionFields) -> bool {
    &&& balance.participant_id == submission.authorization.participant_id
    &&& balance.reserved_base_atoms == submission.authorization.base_atoms
    &&& balance.reserved_quote_atoms == submission.authorization.quote_atoms
    &&& balance.base_atoms >= balance.reserved_base_atoms
    &&& balance.quote_atoms >= balance.reserved_quote_atoms
}

/// Whether one of the balances covers a submission.
pub open spec fn covered(balances: Seq<BalanceFields>, submission: SubmissionFields) -> bool {
    exists|k: int| 0 <= k < balances.len() && covers(#[trigger] balances[k], submission)
}

/// Whether no participant has two balances.
pub open spec fn holders_distinct(balances: Seq<BalanceFields>) -> bool {
    forall|i: int, j: int|
        0 <= i < j < balances.len() ==> (#[trigger] balances[i]).participant_id != (
        #[trigger] balances[j]).participant_id
}

/// Whether the balances are one for each submission, and cover it.
pub open spec fn balances_cover(
    balances: Seq<BalanceFields>,
    submissions: Seq<SubmissionFields>,
) -> bool {
    &&& balances.len() == submissions.len()
    &&& holders_distinct(balances)
    &&& forall|i: int|
        0 <= i < submissions.len() ==> #[trigger] covered(balances, submissions[i])
}

/// Why a keyper does not sign a package, where it does not. The configuration is tested first, then
/// the deadline, the size, the crowd, the members one by one, the root of the batch, the snapshot,
/// and last the balances.
pub open spec fn lock_refusal(package: PackageFields, open: OpenFields) -> Option<
    LockValidationError,
> {
    if package.epoch_account != open.epoch_account || package.configuration != open.configuration
        || !configuration_usable(package.configuration) || package.lock_nonce@ == zeros(32) {
        Some(LockValidationError::InvalidConfiguration)
    } else if open.current_timestamp >= package.configuration.lock_deadline {
        Some(LockValidationError::DeadlinePassed)
    } else if package.submissions.len() > MAX_BATCH_MEMBERS || package.balances.len()
        > MAX_BATCH_MEMBERS {
        Some(LockValidationError::MemberLimitExceeded)
    } else if package.member_count != package.submissions.len() {
        Some(LockValidationError::MemberCountMismatch)
    } else if package.member_count < package.configuration.minimum_count {
        Some(LockValidationError::CrowdBelowMinimum)
    } else if members_refusal(
        package.submissions,
        open.policy,
        package.submissions.len() as int,
    ) is Some {
        members_refusal(package.submissions, open.policy, package.submissions.len() as int)
    } else if member_root_of(package.keys, package.submissions) is Err {
        Some(LockValidationError::InvalidSubmission)
    } else if member_root_of(package.keys, package.submissions) != Ok::<
        [u8; 32],
        LockValidationError,
    >(package.member_root) {
        Some(LockValidationError::MemberRootMismatch)
    } else if snapshot_refusal(
        package.snapshot,
        package.configuration.epoch_id,
        package.balances,
        open.policy.operator_key,
    ) is Some {
        snapshot_refusal(
            package.snapshot,
            package.configuration.epoch_id,
            package.balances,
            open.policy.operator_key,
        )
    } else if balance_root_of(package.balances) != Ok::<[u8; 32], LockValidationError>(
        package.pre_balance_root,
    ) || !balances_cover(package.balances, package.submissions) {
        Some(LockValidationError::InvalidBalance)
    } else {
        None
    }
}

/// What a refusal makes of an outcome.
pub open spec fn refused_or<T>(refusal: Option<LockValidationError>, value: T) -> Result<
    T,
    LockValidationError,
> {
    match refusal {
        Some(error) => Err(error),
        None => Ok(value),
    }
}

fn keypers_are_usable(keypers: &[[u8; 32]; 3]) -> (usable: bool)
    ensures
        usable == keypers_usable(*keypers),
{
    !is_zero(keypers[0].as_slice()) && !is_zero(keypers[1].as_slice()) && !is_zero(
        keypers[2].as_slice(),
    ) && !same_array(&keypers[0], &keypers[1]) && !same_array(&keypers[0], &keypers[2])
        && !same_array(&keypers[1], &keypers[2])
}

fn configuration_is_usable(configuration: &EpochConfigurationV1) -> (usable: bool)
    ensures
        usable == configuration_usable(*configuration),
{
    configuration.minimum_count >= 4 && configuration.lock_threshold == 2
        && configuration.settlement_threshold == 2 && !is_zero(configuration.pool.as_slice())
        && !is_zero(configuration.base_mint.as_slice()) && !is_zero(
        configuration.quote_mint.as_slice(),
    ) && !same_array(&configuration.base_mint, &configuration.quote_mint) && keypers_are_usable(
        &configuration.keypers,
    ) && configuration.abort_deadline > configuration.lock_deadline
}

/// Tests the submission at `i` against the policy and against those before it.
fn check_member(
    submissions: &[EncryptedSubmissionV1],
    policy: &AdmissionPolicyV1,
    i: usize,
) -> (outcome: Result<(), LockValidationError>)
    requires
        i < submissions@.len(),
    ensures
        outcome == refused_or(member_refusal(views(submissions@), policy@, i as int), ()),
{
    let ghost all = views(submissions@);
    let submission = &submissions[i];
    assert(all[i as int] == submission@);
    match submission.verify_admission(policy) {
        Ok(_) => {},
        Err(_) => {
            return Err(LockValidationError::InvalidSubmission);
        },
    }
    let participant = submission.participant_id();
    let nonce = submission.authorization().nonce();
    let receipt = submission.receipt();
    let mut same_participant = false;
    let mut same_nonce = false;
    let mut same_receipt = false;
    let mut k: usize = 0;
    while k < i
        invariant
            k <= i < submissions@.len(),
            all == views(submissions@),
            participant == all[i as int].authorization.participant_id,
            nonce == all[i as int].authorization.nonce,
            receipt == all[i as int].receipt,
            same_participant <==> exists|m: int|
                0 <= m < k && (#[trigger] all[m]).authorization.participant_id == participant,
            same_nonce <==> exists|m: int|
                0 <= m < k && (#[trigger] all[m]).authorization.nonce == nonce,
            same_receipt <==> exists|m: int| 0 <= m < k && (#[trigger] all[m]).receipt == receipt,
        decreases i - k,
    {
        let other = &submissions[k];
        assert(all[k as int] == other@);
        if same_array(&other.participant_id(), &participant) {
            same_participant = true;
        }
        if same_array(&other.authorization().nonce(), &nonce) {
            same_nonce = true;
        }
        if same_array(&other.receipt(), &receipt) {
            same_receipt = true;
        }
        k += 1;
    }
    if same_participant {
        return Err(LockValidationError::DuplicateParticipant);
    }
    if same_nonce {
        return Err(LockValidationError::DuplicateAuthorization);
    }
    if same_receipt {
        return Err(LockValidationError::DuplicateReceipt);
    }
    Ok(())
}

fn check_members(submissions: &[EncryptedSubmissionV1], policy: &AdmissionPolicyV1) -> (outcome:
    Result<(), LockValidationError>)
    ensures
        outcome == refused_or(
            members_refusal(views(submissions@), policy@, submissions@.len() as int),
            (),
        ),
{
    let ghost all = views(submissions@);
    let mut i: usize = 0;
    while i < submissions.len()
        invariant
            i <= submissions@.len(),
            all == views(submissions@),
            members_refusal(all, policy@, i as int) is None,
        decreases submissions@.len() - i,
    {
        match check_member(submissions, policy, i) {
            Ok(_) => {},
            Err(error) => {
                proof {
                    lemma_first_refusal(all, policy@, i as int, submissions@.len() as int);
                }
                return Err(error);
            },
        }
        i += 1;
    }
    Ok(())
}

proof fn lemma_first_refusal(
    submissions: Seq<SubmissionFields>,
    policy: PolicyFields,
    i: int,
    n: int,
)
    requires
        0 <= i < n,
        members_refusal(submissions, policy, i) is None,
        member_refusal(submissions, policy, i) is Some,
    ensures
        members_refusal(submissions, policy, n) == member_refusal(submissions, policy, i),
    decreases n,
{
    if n > i + 1 {
        lemma_first_refusal(submissions, policy, i, n - 1);
    }
}

/// Where members are admitted, no two of them share a participant, a nonce or a receipt.
pub proof fn law_locked_members_are_distinct(
    submissions: Seq<SubmissionFields>,
    policy: PolicyFields,
    i: int,
    j: int,
)
    requires
        members_refusal(submissions, policy, submissions.len() as int) is None,
        0 <= i < j < submissions.len(),
    ensures
        submission_refusal(submissions[i], policy) is None,
        submissions[i].authorization.participant_id != submissions[j].authorization.participant_id,
        submissions[i].authorization.nonce != submissions[j].authorization.nonce,
        submissions[i].receipt != submissions[j].receipt,
{
    lemma_no_refusal(submissions, policy, i, submissions.len() as int);
    lemma_no_refusal(submissions, policy, j, submissions.len() as int);
}

proof fn lemma_no_refusal(submissions: Seq<SubmissionFields>, policy: PolicyFields, i: int, n: int)
    requires
        0 <= i < n,
        members_refusal(submissions, policy, n) is None,
    ensures
        member_refusal(submissions, policy, i) is None,
    decreases n,
{
    if i < n - 1 {
        lemma_no_refusal(submissions, policy, i, n - 1);
    }
}

fn holders_are_distinct(balances: &[BalanceRecordV1]) -> (distinct: bool)
    ensures
        distinct == holders_distinct(views(balances@)),
{
    let ghost all = views(balances@);
    let mut i: usize = 0;
    while i < balances.len()
        invariant
            i <= balances@.len(),
            all == views(balances@),
            forall|a: int, b: int|
                0 <= a < b < i ==> (#[trigger] all[a]).participant_id != (
                #[trigger] all[b]).participant_id,
        decreases balances@.len() - i,
    {
        let id = balances[i].participant_id();
        assert(all[i as int].participant_id == id);
        let mut k: usize = 0;
        while k < i
            invariant
                k <= i < balances@.len(),
                all == views(balances@),
                all[i as int].participant_id == id,
                forall|a: int| 0 <= a < k ==> (#[trigger] all[a]).participant_id != id,
            decreases i - k,
        {
            assert(all[k as int] == balances@[k as int]@);
            if same_array(&balances[k].participant_id(), &id) {
                assert(all[k as int].participant_id == all[i as int].participant_id);
                return false;
            }
            k += 1;
        }
        i += 1;
    }
    true
}

fn is_covered(balances: &[BalanceRecordV1], submission: &EncryptedSubmissionV1) -> (is: bool)
    requires
        forall|k: int| 0 <= k < balances@.len() ==> (#[trigger] balances@[k]).wf(),
    ensures
        is == covered(views(balances@), submission@),
{
    let ghost all = views(balances@);
    let mut k: usize = 0;
    while k < balances.len()
        invariant
            k <= balances@.len(),
            all == views(balances@),
            forall|m: int| 0 <= m < balances@.len() ==> (#[trigger] balances@[m]).wf(),
            forall|m: int| 0 <= m < k ==> !covers(#[trigger] all[m], submission@),
        decreases balances@.len() - k,
    {
        let balance = balances[k];
        assert(all[k as int] == balance@);
        assert(balances@[k as int].wf());
        if same_array(&balance.participant_id(), &submission.participant_id())
            && balance.reserved_base_atoms() == submission.authorization().base_atoms()
            && balance.reserved_quote_atoms() == submission.authorization().quote_atoms() {
            assert(covers(all[k as int], submission@));
            return true;
        }
        k += 1;
    }
    false
}

fn check_balances(balances: &[BalanceRecordV1], submissions: &[EncryptedSubmissionV1]) -> (cover:
    bool)
    requires
        forall|k: int| 0 <= k < balances@.len() ==> (#[trigger] balances@[k]).wf(),
    ensures
        cover == balances_cover(views(balances@), views(submissions@)),
{
    if balances.len() != submissions.len() || !holders_are_distinct(balances) {
        return false;
    }
    let ghost all = views(submissions@);
    let mut i: usize = 0;
    while i < submissions.len()
        invariant
            i <= submissions@.len(),
            all == views(submissions@),
            forall|k: int| 0 <= k < balances@.len() ==> (#[trigger] balances@[k]).wf(),
            forall|k: int| 0 <= k < i ==> #[trigger] covered(views(balances@), all[k]),
        decreases submissions@.len() - i,
    {
        assert(all[i as int] == submissions@[i as int]@);
        if !is_covered(balances, &submissions[i]) {
            return false;
        }
        i += 1;
    }
    true
}

impl LockPackageV1 {
    /// The balance records of a package are records that may exist, and its keys have the width of
    /// a key set.
    pub open spec fn wf(&self) -> bool {
        &&& forall|k: int| 0 <= k < self.balances@.len() ==> (#[trigger] self.balances@[k]).wf()
        &&& self.epoch_public_keys.wf()
    }

    /// A package, with its roots and its count. More members than a batch may have are refused
    /// first, then members that repeat, then balances that repeat.
    pub fn new(
        epoch_account: [u8; 32],
        configuration: EpochConfigurationV1,
        epoch_public_keys: EpochPublicKeys,
        submissions: Vec<EncryptedSubmissionV1>,
        balances: Vec<BalanceRecordV1>,
        balance_snapshot: SignedBalanceSnapshotV1,
        lock_nonce: [u8; 32],
    ) -> (package: Result<Self, LockValidationError>)
        ensures
            match package {
                Ok(package) => {
                    &&& submissions@.len() <= MAX_BATCH_MEMBERS
                    &&& balances@.len() <= MAX_BATCH_MEMBERS
                    &&& package.epoch_account == epoch_account
                    &&& package.configuration == configuration
                    &&& package.epoch_public_keys == epoch_public_keys
                    &&& package.submissions == submissions
                    &&& package.balances == balances
                    &&& package.balance_snapshot == balance_snapshot
                    &&& package.lock_nonce == lock_nonce
                    &&& package.member_count == submissions@.len()
                    &&& member_root_of(epoch_public_keys@, views(submissions@)) == Ok::<
                        [u8; 32],
                        LockValidationError,
                    >(package.member_root)
                    &&& balance_root_of(views(balances@)) == Ok::<[u8; 32], LockValidationError>(
                        package.pre_balance_root,
                    )
                },
                Err(error) => if submissions@.len() > MAX_BATCH_MEMBERS || balances@.len()
                    > MAX_BATCH_MEMBERS {
                    error == LockValidationError::MemberLimitExceeded
                } else if member_root_of(epoch_public_keys@, views(submissions@)) is Err {
                    error == LockValidationError::InvalidSubmission
                } else {
                    error == LockValidationError::InvalidBalance && balance_root_of(
                        views(balances@),
                    ) is Err
                },
            },
    {
        if submissions.len() > MAX_BATCH_MEMBERS || balances.len() > MAX_BATCH_MEMBERS {
            return Err(LockValidationError::MemberLimitExceeded);
        }
        let members = match member_root(&epoch_public_keys, submissions.as_slice()) {
            Ok(root) => root,
            Err(error) => {
                return Err(error);
            },
        };
        let pre_balance_root = match balance_root(balances.as_slice()) {
            Ok(root) => root,
            Err(error) => {
                return Err(error);
            },
        };
        let member_count: u32 = submissions.len() as u32;
        Ok(
            LockPackageV1 {
                epoch_account,
                configuration,
                epoch_public_keys,
                submissions,
                balances,
                balance_snapshot,
                pre_balance_root,
                member_root: members,
                member_count,
                lock_nonce,
            },
        )
    }

    pub fn epoch_account(&self) -> (epoch_account: [u8; 32])
        ensures
            epoch_account == self@.epoch_account,
    {
        self.epoch_account
    }

    /// What keypers sign to lock the package, given the program's digest of its configuration.
    pub fn lock_payload(&self, configuration_hash: [u8; 32]) -> (payload: LockPayloadV1)
        ensures
            payload == (LockPayloadV1 {
                epoch_account: self@.epoch_account,
                configuration_hash,
                pre_balance_root: self@.pre_balance_root,
                member_root: self@.member_root,
                member_count: self@.member_count,
                lock_deadline: self@.configuration.lock_deadline,
                lock_nonce: self@.lock_nonce,
            }),
    {
        LockPayloadV1 {
            epoch_account: self.epoch_account,
            configuration_hash,
            pre_balance_root: self.pre_balance_root,
            member_root: self.member_root,
            member_count: self.member_count,
            lock_deadline: self.configuration.lock_deadline,
            lock_nonce: self.lock_nonce,
        }
    }

    /// Checks a package against an open epoch. `lock_digest` is the program's digest of the
    /// package's lock payload, and comes back where nothing is refused.
    pub fn validate(&self, confirmed: &ConfirmedOpenEpoch, lock_digest: [u8; 32]) -> (outcome:
        Result<[u8; 32], LockValidationError>)
        requires
            self.wf(),
        ensures
            outcome == refused_or(lock_refusal(self@, confirmed@), lock_digest),
    {
        if !same_array(&self.epoch_account, &confirmed.epoch_account) || !self.configuration.same(
            &confirmed.configuration,
        ) || !configuration_is_usable(&self.configuration) || is_zero(
            self.lock_nonce.as_slice(),
        ) {
            return Err(LockValidationError::InvalidConfiguration);
        }
        if confirmed.current_timestamp >= self.configuration.lock_deadline {
            return Err(LockValidationError::DeadlinePassed);
        }
        if self.submissions.len() > MAX_BATCH_MEMBERS || self.balances.len() > MAX_BATCH_MEMBERS {
            return Err(LockValidationError::MemberLimitExceeded);
        }
        if self.member_count as usize != self.submissions.len() {
            return Err(LockValidationError::MemberCountMismatch);
        }
        if self.member_count < self.configuration.minimum_count {
            return Err(LockValidationError::CrowdBelowMinimum);
        }
        match check_members(self.submissions.as_slice(), &confirmed.policy) {
            Ok(_) => {},
            Err(error) => {
                return Err(error);
            },
        }
        match member_root(&self.epoch_public_keys, self.submissions.as_slice()) {
            Ok(root) => if !same_array(&root, &self.member_root) {
                return Err(LockValidationError::MemberRootMismatch);
            },
            Err(error) => {
                return Err(error);
            },
        }
        match self.balance_snapshot.verify(
            self.configuration.epoch_id,
            self.balances.as_slice(),
            confirmed.policy.operator_key(),
        ) {
            Ok(_) => {},
            Err(error) => {
                return Err(error);
            },
        }
        match balance_root(self.balances.as_slice()) {
            Ok(root) => if !same_array(&root, &self.pre_balance_root) {
                return Err(LockValidationError::InvalidBalance);
            },
            Err(error) => {
                return Err(error);
            },
        }
        if !check_balances(self.balances.as_slice(), self.submissions.as_slice()) {
            return Err(LockValidationError::InvalidBalance);
        }
        Ok(lock_digest)
    }

    /// Checks a package against a locked epoch. `lock_digest` is the program's digest of the
    /// package's lock payload, and comes back where nothing is refused.
    pub fn validate_locked(&self, confirmed: &ConfirmedLock, lock_digest: [u8; 32]) -> (outcome:
        Result<[u8; 32], LockValidationError>)
        requires
            self.wf(),
        ensures
            outcome == refused_or(locked_refusal(self@, confirmed@, lock_digest), lock_digest),
    {
        let pool = match confirmed.pool {
            Some(pool) => pool,
            None => {
                return Err(LockValidationError::InvalidOnchainLock);
            },
        };
        let configuration = epoch_configuration(&confirmed.state, &pool);
        let operator = match VerifyingKey::from_bytes(&pool.operator) {
            Some(operator) => operator,
            None => {
                return Err(LockValidationError::InvalidOnchainLock);
            },
        };
        let policy = match AdmissionPolicyV1::new(
            configuration.epoch_id,
            operator,
            configuration.minimum_count as usize,
            configuration.base_lot_atoms,
            configuration.quote_atoms_per_lot,
            confirmed.confirmation_slot,
        ) {
            Ok(policy) => policy,
            Err(_) => {
                return Err(LockValidationError::InvalidOnchainLock);
            },
        };
        let open = ConfirmedOpenEpoch {
            epoch_account: confirmed.epoch_account,
            configuration,
            configuration_hash: confirmed.state.configuration_hash,
            policy,
            current_timestamp: if configuration.lock_deadline == i64::MIN {
                i64::MIN
            } else {
                configuration.lock_deadline - 1
            },
            confirmation_slot: confirmed.confirmation_slot,
        };
        assert(open@ == locked_as_open(confirmed@, pool));
        let digest = match self.validate(&open, lock_digest) {
            Ok(digest) => digest,
            Err(error) => {
                return Err(error);
            },
        };
        if !same_array(&digest, &confirmed.state.lock_digest) || !same_array(
            &self.pre_balance_root,
            &confirmed.state.pre_balance_root,
        ) || !same_array(&self.member_root, &confirmed.state.member_root) || self.member_count
            != confirmed.state.member_count {
            return Err(LockValidationError::InvalidOnchainLock);
        }
        Ok(digest)
    }
}

/// A capability: the open epoch that a confirmed read of its account, its pool and the clock showed.
pub struct ConfirmedOpenEpoch {
    epoch_account: [u8; 32],
    configuration: EpochConfigurationV1,
    configuration_hash: [u8; 32],
    policy: AdmissionPolicyV1,
    current_timestamp: i64,
    confirmation_slot: u64,
}

impl View for ConfirmedOpenEpoch {
    type V = OpenFields;

    closed spec fn view(&self) -> OpenFields {
        OpenFields {
            epoch_account: self.epoch_account,
            configuration: self.configuration,
            policy: self.policy@,
            current_timestamp: self.current_timestamp,
        }
    }
}

impl ConfirmedOpenEpoch {
    /// The program's digest of the configuration.
    pub closed spec fn digest(&self) -> [u8; 32] {
        self.configuration_hash
    }

    /// The slot of the read.
    pub closed spec fn slot(&self) -> u64 {
        self.confirmation_slot
    }

    pub fn epoch_account(&self) -> (epoch_account: [u8; 32])
        ensures
            epoch_account == self@.epoch_account,
    {
        self.epoch_account
    }

    pub fn confirmation_slot(&self) -> (slot: u64)
        ensures
            slot == self.slot(),
    {
        self.confirmation_slot
    }

    pub fn configuration_hash(&self) -> (hash: [u8; 32])
        ensures
            hash == self.digest(),
    {
        self.configuration_hash
    }
}

/// What a confirmed read showed of a locked epoch.
pub struct LockedFields {
    pub epoch_account: [u8; 32],
    pub state: EpochStateV1,
    pub pool: Option<PoolStateV1>,
    pub confirmation_slot: u64,
}

/// The open epoch, a moment before its deadline, that a locked epoch was.
pub open spec fn locked_as_open(locked: LockedFields, pool: PoolStateV1) -> OpenFields {
    let configuration = configuration_of(locked.state, pool);
    OpenFields {
        epoch_account: locked.epoch_account,
        configuration,
        policy: PolicyFields {
            epoch_id: configuration.epoch_id,
            operator_key: pool.operator,
            minimum: configuration.minimum_count as usize,
            base_atoms: configuration.base_lot_atoms,
            quote_atoms: configuration.quote_atoms_per_lot,
            current_slot: locked.confirmation_slot,
        },
        current_timestamp: if configuration.lock_deadline == i64::MIN {
            i64::MIN
        } else {
            (configuration.lock_deadline - 1) as i64
        },
    }
}

/// Why a package is not the one that was locked, where it is not: the read lacks a pool that a
/// policy can be made of, or the package would not have been signed, or it differs from the lock.
pub open spec fn locked_refusal(
    package: PackageFields,
    locked: LockedFields,
    lock_digest: [u8; 32],
) -> Option<LockValidationError> {
    match locked.pool {
        None => Some(LockValidationError::InvalidOnchainLock),
        Some(pool) => if !ed25519_key(pool.operator@) || locked.state.minimum_count == 0
            || pool.base_lot_atoms == 0 || locked.state.quote_atoms_per_lot == 0 {
            Some(LockValidationError::InvalidOnchainLock)
        } else if lock_refusal(package, locked_as_open(locked, pool)) is Some {
            lock_refusal(package, locked_as_open(locked, pool))
        } else if lock_digest != locked.state.lock_digest || package.pre_balance_root
            != locked.state.pre_balance_root || package.member_root != locked.state.member_root
            || package.member_count != locked.state.member_count {
            Some(LockValidationError::InvalidOnchainLock)
        } else {
            None
        },
    }
}

/// A capability: the locked epoch that a confirmed read of its account showed.
pub struct ConfirmedLock {
    epoch_account: [u8; 32],
    state: EpochStateV1,
    pool: Option<PoolStateV1>,
    confirmation_slot: u64,
}

impl View for ConfirmedLock {
    type V = LockedFields;

    closed spec fn view(&self) -> LockedFields {
        LockedFields {
            epoch_account: self.epoch_account,
            state: self.state,
            pool: self.pool,
            confirmation_slot: self.confirmation_slot,
        }
    }
}

impl ConfirmedLock {
    pub fn epoch_account(&self) -> (epoch_account: [u8; 32])
        ensures
            epoch_account == self@.epoch_account,
    {
        self.epoch_account
    }

    pub fn lock_digest(&self) -> (digest: [u8; 32])
        ensures
            digest == self@.state.lock_digest,
    {
        self.state.lock_digest
    }

    pub fn member_root(&self) -> (root: [u8; 32])
        ensures
            root == self@.state.member_root,
    {
        self.state.member_root
    }

    pub fn confirmation_slot(&self) -> (slot: u64)
        ensures
            slot == self@.confirmation_slot,
    {
        self.confirmation_slot
    }

    pub fn state(&self) -> (state: EpochStateV1)
        ensures
            state == self@.state,
    {
        self.state
    }

    pub fn pool(&self) -> (pool: Option<PoolStateV1>)
        ensures
            pool == self@.pool,
    {
        self.pool
    }
}

/// What a read of an epoch's account gave: its owner, what its data decodes to, and the address that
/// the program derives for that state.
#[derive(Clone, Copy, Debug, PartialEq, Eq)]
pub struct EpochRead {
    pub owner: [u8; 32],
    pub state: Option<EpochStateV1>,
    pub derived: DerivedAddress,
}

/// What a read of a pool's account gave: its owner, what its data decodes to, the address that the
/// program derives for that state, the bump of its vault authority, and the program's digest of the
/// configuration that the epoch and the pool make up.
#[derive(Clone, Copy, Debug, PartialEq, Eq)]
pub struct PoolRead {
    pub owner: [u8; 32],
    pub state: Option<PoolStateV1>,
    pub derived: DerivedAddress,
    pub vault_bump: u8,
    pub configuration_digest: [u8; 32],
}

/// The state that a read of an epoch's account shows, where the program owns the account, the state
/// decodes and stands at the address that the program derives for it.
pub open spec fn program_epoch(
    epoch_account: [u8; 32],
    program_id: [u8; 32],
    read: EpochRead,
) -> Option<EpochStateV1> {
    match read.state {
        Some(state) => if read.owner == program_id && read.derived.address == epoch_account
            && state.epoch_bump == read.derived.bump {
            Some(state)
        } else {
            None
        },
        None => None,
    }
}

/// Reads an epoch's account.
pub fn decode_program_epoch(epoch_account: [u8; 32], program_id: [u8; 32], read: &EpochRead) -> (
    state: Result<EpochStateV1, LockValidationError>)
    ensures
        state == (match program_epoch(epoch_account, program_id, *read) {
            Some(state) => Ok::<EpochStateV1, LockValidationError>(state),
            None => Err(LockValidationError::InvalidOnchainEpoch),
        }),
{
    match read.state {
        Some(state) => if same_array(&read.owner, &program_id) && same_array(
            &read.derived.address,
            &epoch_account,
        ) && state.epoch_bump == read.derived.bump {
            Ok(state)
        } else {
            Err(LockValidationError::InvalidOnchainEpoch)
        },
        None => Err(LockValidationError::InvalidOnchainEpoch),
    }
}

/// Whether a pool is one that the program makes: at the address that the program derives, with its
/// bumps, two of three keypers for the lock and for the settlement, a lot, and two mints.
pub open spec fn pool_sound(
    state: EpochStateV1,
    pool: PoolStateV1,
    read: PoolRead,
    program_id: [u8; 32],
) -> bool {
    &&& read.owner == program_id
    &&& read.derived.address == state.pool
    &&& pool.pool_bump == read.derived.bump
    &&& pool.vault_bump == read.vault_bump
    &&& pool.lock_threshold == 2
    &&& pool.settlement_threshold == 2
    &&& pool.base_lot_atoms != 0
    &&& pool.base_mint != pool.quote_mint
    &&& state.configuration_hash == read.configuration_digest
}

fn pool_is_sound(
    state: &EpochStateV1,
    pool: &PoolStateV1,
    read: &PoolRead,
    program_id: &[u8; 32],
) -> (sound: bool)
    ensures
        sound == pool_sound(*state, *pool, *read, *program_id),
{
    same_array(&read.owner, program_id) && same_array(&read.derived.address, &state.pool)
        && pool.pool_bump == read.derived.bump && pool.vault_bump == read.vault_bump
        && pool.lock_threshold == 2 && pool.settlement_threshold == 2 && pool.base_lot_atoms != 0
        && !same_array(&pool.base_mint, &pool.quote_mint) && same_array(
        &state.configuration_hash,
        &read.configuration_digest,
    )
}

/// Whether the state of an epoch is that of an open one: nothing of a lock or of a settlement is
/// recorded, the crowd is at least four, the lot is the pool's, and the deadlines stand in order.
pub open spec fn open_state(state: EpochStateV1, pool: PoolStateV1) -> bool {
    &&& state.terminal_state == EpochTerminalState::Open
    &&& state.residual_side == 0
    &&& state.pre_balance_root@ == zeros(32)
    &&& state.member_root@ == zeros(32)
    &&& state.lock_digest@ == zeros(32)
    &&& state.result_commitment@ == zeros(32)
    &&& state.settlement_digest@ == zeros(32)
    &&& state.lock_nonce@ == zeros(32)
    &&& state.settlement_nonce@ == zeros(32)
    &&& state.member_count == 0
    &&& state.minimum_count >= 4
    &&& state.residual_lots == 0
    &&& state.base_lot_atoms == pool.base_lot_atoms
    &&& state.quote_atoms_per_lot != 0
    &&& state.abort_deadline > state.lock_deadline
}

fn is_open_state(state: &EpochStateV1, pool: &PoolStateV1) -> (open: bool)
    ensures
        open == open_state(*state, *pool),
{
    let open = match state.terminal_state {
        EpochTerminalState::Open => true,
        _ => false,
    };
    open && state.residual_side == 0 && is_zero(state.pre_balance_root.as_slice()) && is_zero(
        state.member_root.as_slice(),
    ) && is_zero(state.lock_digest.as_slice()) && is_zero(state.result_commitment.as_slice())
        && is_zero(state.settlement_digest.as_slice()) && is_zero(state.lock_nonce.as_slice())
        && is_zero(state.settlement_nonce.as_slice()) && state.member_count == 0
        && state.minimum_count >= 4 && state.residual_lots == 0 && state.base_lot_atoms
        == pool.base_lot_atoms && state.quote_atoms_per_lot != 0 && state.abort_deadline
        > state.lock_deadline
}

/// Whether a read shows an open epoch before its lock deadline: the epoch and the pool are those of
/// the first read, the program owns both, the clock is the system's and not ahead of the read.
pub open spec fn open_epoch(
    epoch_account: [u8; 32],
    program_id: [u8; 32],
    epoch: EpochRead,
    pool_address: [u8; 32],
    pool: PoolRead,
    sysvar_id: [u8; 32],
    clock_owner: [u8; 32],
    clock_data: Seq<u8>,
    confirmation_slot: u64,
) -> bool {
    match (program_epoch(epoch_account, program_id, epoch), pool.state, clock_of(clock_data)) {
        (Some(state), Some(pool_state), Some(clock)) => {
            &&& state.pool == pool_address
            &&& clock_owner == sysvar_id
            &&& pool_sound(state, pool_state, pool, program_id)
            &&& keypers_usable(pool_state.keypers)
            &&& open_state(state, pool_state)
            &&& clock.slot <= confirmation_slot
            &&& clock.unix_timestamp < state.lock_deadline
            &&& ed25519_key(pool_state.operator@)
        },
        _ => false,
    }
}

/// The open epoch that a confirmed read shows.
pub fn confirmed_open_epoch_from_accounts(
    epoch_account: [u8; 32],
    program_id: [u8; 32],
    epoch: &EpochRead,
    pool_address: [u8; 32],
    pool: &PoolRead,
    sysvar_id: [u8; 32],
    clock_owner: [u8; 32],
    clock_data: &[u8],
    confirmation_slot: u64,
) -> (confirmed: Result<ConfirmedOpenEpoch, LockValidationError>)
    ensures
        match confirmed {
            Ok(confirmed) => {
                let state = epoch.state.unwrap();
                let pool_state = pool.state.unwrap();
                let clock = clock_of(clock_data@).unwrap();
                &&& open_epoch(
                    epoch_account,
                    program_id,
                    *epoch,
                    pool_address,
                    *pool,
                    sysvar_id,
                    clock_owner,
                    clock_data@,
                    confirmation_slot,
                )
                &&& confirmed@ == (OpenFields {
                    epoch_account,
                    configuration: configuration_of(state, pool_state),
                    policy: PolicyFields {
                        epoch_id: state.epoch_id,
                        operator_key: pool_state.operator,
                        minimum: state.minimum_count as usize,
                        base_atoms: state.base_lot_atoms,
                        quote_atoms: state.quote_atoms_per_lot,
                        current_slot: clock.slot,
                    },
                    current_timestamp: clock.unix_timestamp,
                })
                &&& confirmed.digest() == state.configuration_hash
                &&& confirmed.slot() == confirmation_slot
            },
            Err(error) => error == LockValidationError::InvalidOnchainEpoch && !open_epoch(
                epoch_account,
                program_id,
                *epoch,
                pool_address,
                *pool,
                sysvar_id,
                clock_owner,
                clock_data@,
                confirmation_slot,
            ),
        },
{
    let state = match decode_program_epoch(epoch_account, program_id, epoch) {
        Ok(state) => state,
        Err(error) => {
            return Err(error);
        },
    };
    if !same_array(&state.pool, &pool_address) || !same_array(&clock_owner, &sysvar_id) {
        return Err(LockValidationError::InvalidOnchainEpoch);
    }
    let pool_state = match pool.state {
        Some(pool_state) => pool_state,
        None => {
            return Err(LockValidationError::InvalidOnchainEpoch);
        },
    };
    let clock = match decode_clock(clock_data) {
        Some(clock) => clock,
        None => {
            return Err(LockValidationError::InvalidOnchainEpoch);
        },
    };
    if !pool_is_sound(&state, &pool_state, pool, &program_id) || !keypers_are_usable(
        &pool_state.keypers,
    ) || !is_open_state(&state, &pool_state) || clock.slot > confirmation_slot
        || clock.unix_timestamp >= state.lock_deadline {
        return Err(LockValidationError::InvalidOnchainEpoch);
    }
    let operator = match VerifyingKey::from_bytes(&pool_state.operator) {
        Some(operator) => operator,
        None => {
            return Err(LockValidationError::InvalidOnchainEpoch);
        },
    };
    match AdmissionPolicyV1::new(
        state.epoch_id,
        operator,
        state.minimum_count as usize,
        state.base_lot_atoms,
        state.quote_atoms_per_lot,
        clock.slot,
    ) {
        Ok(policy) => Ok(
            ConfirmedOpenEpoch {
                epoch_account,
                configuration: epoch_configuration(&state, &pool_state),
                configuration_hash: state.configuration_hash,
                policy,
                current_timestamp: clock.unix_timestamp,
                confirmation_slot,
            },
        ),
        Err(_) => Err(LockValidationError::InvalidOnchainEpoch),
    }
}

/// What keypers signed to lock an epoch, as its account records it.
pub fn recorded_lock_payload(epoch_account: [u8; 32], state: &EpochStateV1) -> (payload:
    LockPayloadV1)
    ensures
        payload == (LockPayloadV1 {
            epoch_account,
            configuration_hash: state.configuration_hash,
            pre_balance_root: state.pre_balance_root,
            member_root: state.member_root,
            member_count: state.member_count,
            lock_deadline: state.lock_deadline,
            lock_nonce: state.lock_nonce,
        }),
{
    LockPayloadV1 {
        epoch_account,
        configuration_hash: state.configuration_hash,
        pre_balance_root: state.pre_balance_root,
        member_root: state.member_root,
        member_count: state.member_count,
        lock_deadline: state.lock_deadline,
        lock_nonce: state.lock_nonce,
    }
}

/// Whether the state of an epoch is that of a locked one whose recorded digest is that of its
/// recorded payload.
pub open spec fn locked_state(state: EpochStateV1, lock_digest: [u8; 32]) -> bool {
    &&& state.terminal_state == EpochTerminalState::Locked
    &&& state.minimum_count >= 4
    &&& state.member_count >= state.minimum_count
    &&& state.base_lot_atoms != 0
    &&& state.quote_atoms_per_lot != 0
    &&& state.abort_deadline > state.lock_deadline
    &&& state.configuration_hash@ != zeros(32)
    &&& state.lock_nonce@ != zeros(32)
    &&& state.pre_balance_root@ != zeros(32)
    &&& state.member_root@ != zeros(32)
    &&& state.lock_digest == lock_digest
}

/// The locked epoch that a confirmed read of its account shows. `lock_digest` is the program's
/// digest of the payload that the account records.
pub fn confirmed_lock_from_account(
    epoch_account: [u8; 32],
    program_id: [u8; 32],
    read: &EpochRead,
    lock_digest: [u8; 32],
    confirmation_slot: u64,
) -> (confirmed: Result<ConfirmedLock, LockValidationError>)
    ensures
        match confirmed {
            Ok(confirmed) => program_epoch(epoch_account, program_id, *read) == Some(
                confirmed@.state,
            ) && locked_state(confirmed@.state, lock_digest) && confirmed@ == (LockedFields {
                epoch_account,
                state: confirmed@.state,
                pool: None,
                confirmation_slot,
            }),
            Err(error) => error == LockValidationError::InvalidOnchainLock && !(program_epoch(
                epoch_account,
                program_id,
                *read,
            ) matches Some(state) && locked_state(state, lock_digest)),
        },
{
    let state = match decode_program_epoch(epoch_account, program_id, read) {
        Ok(state) => state,
        Err(_) => {
            return Err(LockValidationError::InvalidOnchainLock);
        },
    };
    let locked = match state.terminal_state {
        EpochTerminalState::Locked => true,
        _ => false,
    };
    if !locked || state.minimum_count < 4 || state.member_count < state.minimum_count
        || state.base_lot_atoms == 0 || state.quote_atoms_per_lot == 0 || state.abort_deadline
        <= state.lock_deadline || is_zero(state.configuration_hash.as_slice()) || is_zero(
        state.lock_nonce.as_slice(),
    ) || is_zero(state.pre_balance_root.as_slice()) || is_zero(state.member_root.as_slice())
        || !same_array(&state.lock_digest, &lock_digest) {
        return Err(LockValidationError::InvalidOnchainLock);
    }
    Ok(ConfirmedLock { epoch_account, state, pool: None, confirmation_slot })
}

/// The locked epoch that a confirmed read of its account and of its pool shows.
pub fn confirmed_lock_from_accounts(
    epoch_account: [u8; 32],
    program_id: [u8; 32],
    epoch: &EpochRead,
    pool: &PoolRead,
    lock_digest: [u8; 32],
    confirmation_slot: u64,
) -> (confirmed: Result<ConfirmedLock, LockValidationError>)
    ensures
        match confirmed {
            Ok(confirmed) => {
                &&& program_epoch(epoch_account, program_id, *epoch) == Some(confirmed@.state)
                &&& locked_state(confirmed@.state, lock_digest)
                &&& pool.state matches Some(pool_state) && pool_sound(
                    confirmed@.state,
                    pool_state,
                    *pool,
                    program_id,
                )
                &&& confirmed@ == (LockedFields {
                    epoch_account,
                    state: confirmed@.state,
                    pool: pool.state,
                    confirmation_slot,
                })
            },
            Err(error) => error == LockValidationError::InvalidOnchainLock && !((program_epoch(
                epoch_account,
                program_id,
                *epoch,
            ) matches Some(state) && locked_state(state, lock_digest) && (
            pool.state matches Some(pool_state) && pool_sound(
                state,
                pool_state,
                *pool,
                program_id,
            )))),
        },
{
    let mut confirmed = match confirmed_lock_from_account(
        epoch_account,
        program_id,
        epoch,
        lock_digest,
        confirmation_slot,
    ) {
        Ok(confirmed) => confirmed,
        Err(error) => {
            return Err(error);
        },
    };
    match pool.state {
        Some(pool_state) => if pool_is_sound(&confirmed.state, &pool_state, pool, &program_id) {
            confirmed.pool = Some(pool_state);
            Ok(confirmed)
        } else {
            Err(LockValidationError::InvalidOnchainLock)
        },
        None => Err(LockValidationError::InvalidOnchainLock),
    }
}

/// Checks the frame of a second read: no earlier than the first, of as many accounts as were asked
/// for, and with every account there.
pub fn check_read(first_slot: u64, slot: u64, expected: usize, present: &[bool]) -> (outcome: Result<
    (),
    LockValidationError,
>)
    ensures
        outcome == (if slot < first_slot || present@.len() != expected {
            Err::<(), _>(LockValidationError::Rpc)
        } else if exists|i: int| 0 <= i < present@.len() && !(#[trigger] present@[i]) {
            Err(LockValidationError::MissingAccount)
        } else {
            Ok(())
        }),
{
    if slot < first_slot || present.len() != expected {
        return Err(LockValidationError::Rpc);
    }
    let mut i: usize = 0;
    while i < present.len()
        invariant
            i <= present@.len(),
            slot >= first_slot,
            present@.len() == expected,
            forall|k: int| 0 <= k < i ==> #[trigger] present@[k],
        decreases present@.len() - i,
    {
        if !present[i] {
            return Err(LockValidationError::MissingAccount);
        }
        i += 1;
    }
    Ok(())
}

/// What an approval says.
pub struct ApprovalFields {
    pub keyper_key: [u8; 32],
    pub digest: [u8; 32],
    pub signature: [u8; 64],
}

/// A keyper's signature over the digest of a lock.
#[derive(Clone, Copy, PartialEq, Eq)]
pub struct LockApprovalV1 {
    keyper_key: [u8; 32],
    digest: [u8; 32],
    signature: [u8; 64],
}

impl View for LockApprovalV1 {
    type V = ApprovalFields;

    closed spec fn view(&self) -> ApprovalFields {
        ApprovalFields {
            keyper_key: self.keyper_key,
            digest: self.digest,
            signature: self.signature,
        }
    }
}

impl LockApprovalV1 {
    pub fn digest(&self) -> (digest: [u8; 32])
        ensures
            digest == self@.digest,
    {
        self.digest
    }

    pub fn keyper_key(&self) -> (key: [u8; 32])
        ensures
            key == self@.keyper_key,
    {
        self.keyper_key
    }

    pub fn signature(&self) -> (signature: [u8; 64])
        ensures
            signature == self@.signature,
    {
        self.signature
    }

    pub fn from_parts(keyper_key: [u8; 32], digest: [u8; 32], signature: [u8; 64]) -> (approval:
        Self)
        ensures
            approval@ == (ApprovalFields { keyper_key, digest, signature }),
    {
        LockApprovalV1 { keyper_key, digest, signature }
    }

    /// Whether the signature verifies under the key that the approval names.
    pub fn verify(&self) -> (verified: bool)
        ensures
            verified == ed25519_verifies(self@.keyper_key@, self@.digest@, self@.signature@),
    {
        verify_with(&self.keyper_key, self.digest.as_slice(), &self.signature)
    }
}

/// Whether a secret share belongs to keys.
pub open spec fn share_belongs(keys: Seq<u8>, secret: KeyperSecretShare) -> bool {
    key_share(keys, secret.position()) is Some && key_share(keys, secret.position())
        == share_public(secret.secret()@)
}

/// Whether a keyper is the one that a configuration names at its index, with a share of the package.
pub open spec fn is_configured(
    index: usize,
    key: [u8; 32],
    keypers: [[u8; 32]; 3],
    package: PackageFields,
    secret: KeyperSecretShare,
) -> bool {
    &&& index < 3
    &&& keypers@[index as int] == key
    &&& secret.position() == index
    &&& secret.epoch() == package.epoch_account
    &&& share_belongs(package.keys, secret)
}

/// Why a keyper does not sign a lock, where it does not: it is not the configured one, or the
/// package is refused, or the journal holds another lock of the epoch.
pub open spec fn sign_refusal(
    index: usize,
    key: [u8; 32],
    journal: Seq<([u8; 32], [u8; 32])>,
    package: PackageFields,
    open: OpenFields,
    secret: KeyperSecretShare,
    lock_digest: [u8; 32],
) -> Option<LockValidationError> {
    if !is_configured(index, key, open.configuration.keypers, package, secret) {
        Some(LockValidationError::WrongKeyper)
    } else if lock_refusal(package, open) is Some {
        lock_refusal(package, open)
    } else if value_of(journal, package.epoch_account) is Some && value_of(
        journal,
        package.epoch_account,
    ) != Some(lock_digest) {
        Some(LockValidationError::ConflictingLock)
    } else {
        None
    }
}

/// Whether no two submissions have the same ciphertext digest.
pub open spec fn ciphertexts_distinct(submissions: Seq<SubmissionFields>) -> bool {
    forall|i: int, j: int|
        0 <= i < j < submissions.len() ==> sha256((#[trigger] submissions[i]).ciphertext) != sha256(
            (#[trigger] submissions[j]).ciphertext,
        )
}

/// Why a keyper does not release a share, where it does not: the package is not the one that was
/// locked, or the keyper is not the configured one or did not sign that lock, or there is no such
/// member, or two members share a ciphertext, or the ciphertext has no share.
pub open spec fn release_refusal(
    index: usize,
    key: [u8; 32],
    journal: Seq<([u8; 32], [u8; 32])>,
    package: PackageFields,
    locked: LockedFields,
    secret: KeyperSecretShare,
    member_index: usize,
    lock_digest: [u8; 32],
) -> Option<LockValidationError> {
    if locked_refusal(package, locked, lock_digest) is Some {
        locked_refusal(package, locked, lock_digest)
    } else if !is_configured(index, key, locked.pool.unwrap().keypers, package, secret) || value_of(
        journal,
        package.epoch_account,
    ) != Some(lock_digest) {
        Some(LockValidationError::WrongKeyper)
    } else if member_index >= package.submissions.len() || !ciphertexts_distinct(
        package.submissions,
    ) || !is_encrypted_intent(package.submissions[member_index as int].ciphertext)
        || decryption_share(
        secret.secret()@,
        package.submissions[member_index as int].ciphertext,
    ) is None {
        Some(LockValidationError::InvalidSubmission)
    } else {
        None
    }
}

fn are_ciphertexts_distinct(submissions: &[EncryptedSubmissionV1]) -> (distinct: bool)
    ensures
        distinct == ciphertexts_distinct(views(submissions@)),
{
    let ghost all = views(submissions@);
    let mut i: usize = 0;
    while i < submissions.len()
        invariant
            i <= submissions@.len(),
            all == views(submissions@),
            forall|a: int, b: int|
                0 <= a < b < i ==> sha256((#[trigger] all[a]).ciphertext) != sha256(
                    (#[trigger] all[b]).ciphertext,
                ),
        decreases submissions@.len() - i,
    {
        let digest = digest_of(submissions[i].ciphertext());
        assert(digest == sha256(all[i as int].ciphertext));
        let mut k: usize = 0;
        while k < i
            invariant
                k <= i < submissions@.len(),
                all == views(submissions@),
                digest == sha256(all[i as int].ciphertext),
                forall|a: int| 0 <= a < k ==> sha256((#[trigger] all[a]).ciphertext) != digest,
            decreases i - k,
        {
            assert(all[k as int] == submissions@[k as int]@);
            let other = digest_of(submissions[k].ciphertext());
            if same_array(&other, &digest) {
                assert(sha256(all[k as int].ciphertext) == sha256(all[i as int].ciphertext));
                return false;
            }
            k += 1;
        }
        i += 1;
    }
    true
}

/// A keyper that signs locks and releases shares by the rules.
pub struct ReferenceKeyper {
    index: usize,
    signing_key: SigningKey,
    journal: LockJournal,
}

impl ReferenceKeyper {
    /// The keyper's index.
    pub closed spec fn position(&self) -> usize {
        self.index
    }

    /// The keyper's secret signing key.
    pub closed spec fn secret(&self) -> [u8; 32] {
        self.signing_key.secret()
    }

    /// The keyper's verifying key.
    pub closed spec fn key(&self) -> [u8; 32] {
        self.signing_key.public()
    }

    /// What the keyper signed.
    pub closed spec fn signed(&self) -> Seq<([u8; 32], [u8; 32])> {
        self.journal@
    }

    /// The journal is well formed.
    pub closed spec fn wf(&self) -> bool {
        self.journal.wf()
    }

    pub fn new(index: usize, signing_key: SigningKey, journal: LockJournal) -> (keyper: Self)
        requires
            journal.wf(),
        ensures
            keyper.wf(),
            keyper.position() == index,
            keyper.secret() == signing_key.secret(),
            keyper.key() == signing_key.public(),
            keyper.signed() == journal@,
    {
        ReferenceKeyper { index, signing_key, journal }
    }

    pub fn journal(&self) -> (journal: &LockJournal)
        requires
            self.wf(),
        ensures
            journal.wf(),
            journal@ == self.signed(),
    {
        &self.journal
    }

    pub fn index(&self) -> (index: usize)
        ensures
            index == self.position(),
    {
        self.index
    }

    pub fn signing_key(&self) -> (key: &SigningKey)
        ensures
            key.secret() == self.secret(),
            key.public() == self.key(),
    {
        &self.signing_key
    }

    /// Signs the lock of a package and records it. `lock_digest` is the program's digest of the
    /// package's lock payload. A refusal leaves the keyper as it was.
    pub fn sign_lock(
        &mut self,
        package: &LockPackageV1,
        confirmed: &ConfirmedOpenEpoch,
        secret: &KeyperSecretShare,
        lock_digest: [u8; 32],
    ) -> (approval: Result<LockApprovalV1, LockValidationError>)
        requires
            old(self).wf(),
            package.wf(),
        ensures
            final(self).wf(),
            final(self).position() == old(self).position(),
            final(self).secret() == old(self).secret(),
            final(self).key() == old(self).key(),
            match sign_refusal(
                old(self).position(),
                old(self).key(),
                old(self).signed(),
                package@,
                confirmed@,
                *secret,
                lock_digest,
            ) {
                Some(error) => approval == Err::<LockApprovalV1, _>(error) && final(self).signed()
                    == old(self).signed(),
                None => {
                    &&& approval matches Ok(approval) && approval@.keyper_key == old(self).key()
                        && approval@.digest == lock_digest && approval@.signature == ed25519_signed(
                        old(self).secret()@,
                        lock_digest@,
                    ) && ed25519_verifies(old(self).key()@, lock_digest@, approval@.signature@)
                    &&& forall|epoch: [u8; 32]| #[trigger]
                        value_of(final(self).signed(), epoch) == (if epoch
                            == package@.epoch_account {
                            Some(lock_digest)
                        } else {
                            value_of(old(self).signed(), epoch)
                        })
                },
            },
    {
        let keyper_key = self.signing_key.verifying_key().to_bytes();
        if self.index >= 3 || !same_array(
            &confirmed.configuration.keypers[self.index],
            &keyper_key,
        ) || secret.index() != self.index || !same_array(
            &secret.epoch_account(),
            &package.epoch_account,
        ) || !package.epoch_public_keys.matches_share(secret) {
            return Err(LockValidationError::WrongKeyper);
        }
        let digest = match package.validate(confirmed, lock_digest) {
            Ok(digest) => digest,
            Err(error) => {
                return Err(error);
            },
        };
        match self.journal.record(package.epoch_account, digest) {
            Ok(_) => {},
            Err(error) => {
                return Err(error);
            },
        }
        Ok(
            LockApprovalV1 {
                keyper_key,
                digest,
                signature: self.signing_key.sign(digest.as_slice()),
            },
        )
    }

    /// Releases the share of a member of a locked package. `lock_digest` is the program's digest of
    /// the package's lock payload.
    pub fn release_share(
        &self,
        package: &LockPackageV1,
        confirmed: &ConfirmedLock,
        secret: &KeyperSecretShare,
        member_index: usize,
        lock_digest: [u8; 32],
    ) -> (released: Result<ReleasedShareV1, LockValidationError>)
        requires
            self.wf(),
            package.wf(),
        ensures
            match release_refusal(
                self.position(),
                self.key(),
                self.signed(),
                package@,
                confirmed@,
                *secret,
                member_index,
                lock_digest,
            ) {
                Some(error) => released == Err::<ReleasedShareV1, _>(error),
                None => released matches Ok(released) && ({
                    let ciphertext = package@.submissions[member_index as int].ciphertext;
                    &&& decryption_share(secret.secret()@, ciphertext) == Some(released@.share)
                    &&& released@.epoch_account == package@.epoch_account
                    &&& released@.lock_digest == lock_digest
                    &&& released@.ciphertext_hash == sha256(ciphertext)
                    &&& released@.index == self.position()
                }),
            },
    {
        let digest = match package.validate_locked(confirmed, lock_digest) {
            Ok(digest) => digest,
            Err(error) => {
                return Err(error);
            },
        };
        let keypers = match confirmed.pool {
            Some(pool) => pool.keypers,
            None => {
                return Err(LockValidationError::WrongKeyper);
            },
        };
        let keyper_key = self.signing_key.verifying_key().to_bytes();
        let signed = match self.journal.digest(package.epoch_account) {
            Some(signed) => same_array(&signed, &digest),
            None => false,
        };
        if self.index >= 3 || !same_array(&keypers[self.index], &keyper_key) || !signed
            || self.index != secret.index() || !same_array(
            &secret.epoch_account(),
            &package.epoch_account,
        ) || !package.epoch_public_keys.matches_share(secret) {
            return Err(LockValidationError::WrongKeyper);
        }
        if member_index >= package.submissions.len() {
            return Err(LockValidationError::InvalidSubmission);
        }
        if !are_ciphertexts_distinct(package.submissions.as_slice()) {
            return Err(LockValidationError::InvalidSubmission);
        }
        let submission = &package.submissions[member_index];
        assert(package@.submissions[member_index as int] == submission@);
        match secret.release(
            package.epoch_account,
            confirmed.state.lock_digest,
            submission.ciphertext(),
        ) {
            Ok(released) => Ok(released),
            Err(_) => Err(LockValidationError::InvalidSubmission),
        }
    }
}

/// A keyper signs one lock of an epoch and no other: once a digest is recorded, another digest of
/// the same epoch is refused, whatever package is put to it.
pub proof fn law_one_lock_for_each_epoch(
    index: usize,
    key: [u8; 32],
    journal: Seq<([u8; 32], [u8; 32])>,
    package: PackageFields,
    open: OpenFields,
    secret: KeyperSecretShare,
    recorded: [u8; 32],
    lock_digest: [u8; 32],
)
    requires
        value_of(journal, package.epoch_account) == Some(recorded),
        recorded != lock_digest,
    ensures
        sign_refusal(index, key, journal, package, open, secret, lock_digest) is Some,
{
}

/// A share is released only under the lock that the chain recorded and that the keyper signed.
pub proof fn law_shares_need_the_recorded_lock(
    index: usize,
    key: [u8; 32],
    journal: Seq<([u8; 32], [u8; 32])>,
    package: PackageFields,
    locked: LockedFields,
    secret: KeyperSecretShare,
    member_index: usize,
    lock_digest: [u8; 32],
)
    requires
        release_refusal(
            index,
            key,
            journal,
            package,
            locked,
            secret,
            member_index,
            lock_digest,
        ) is None,
    ensures
        lock_digest == locked.state.lock_digest,
        value_of(journal, package.epoch_account) == Some(lock_digest),
        package.member_root == locked.state.member_root,
        package.pre_balance_root == locked.state.pre_balance_root,
        package.submissions.len() >= 4,
        member_index < package.submissions.len(),
{
}

} // verus!
