//! What a policy admits, what a keyper signs, and what it releases, condition by condition.

use crate::batch::{batch_outcome, is_batch, member, member_total, taken, AdmittedBatch};
use crate::bytes::zeros;
use crate::crypto::{
    authorization_refusal, funded_bytes, submission_refusal, CryptoError, FundedFields,
    PolicyFields, SubmissionFields,
};
use crate::hash::sha256;
use crate::idmap::value_of;
use crate::lock::{
    covered, covers, lock_refusal, locked_refusal, locked_state,
    member_refusal, members_refusal, open_epoch, pool_sound, program_epoch, release_refusal,
    sign_refusal, EpochRead, LockedFields, OpenFields, PackageFields, PoolRead,
};
use crate::program::{
    clock_of, configuration_of, ended_unsettled, EpochStateV1, EpochTerminalState, PoolStateV1,
};
use crate::shares::KeyperSecretShare;
use crate::signing::{ed25519_key, ed25519_verifies};
use crate::snapshot::{
    balance_root_of, member_root_of, snapshot_refusal, BalanceFields, LockValidationError,
    SnapshotFields,
};
use crate::threshold::{ciphertext_valid, decryption_share, key_share, share_public};
use vstd::bytes::{spec_u32_to_le_bytes, spec_u64_from_le_bytes};
use vstd::prelude::*;
use vstd::string::*;
use vstd::utf8::encode_utf8;

verus! {

/// A policy accepts an authorization exactly where it is of the first version, of the operator, for the
/// epoch, for the amounts of one lot, not expired, and signed by the operator.
pub proof fn law_authorizations_are_exact(fields: FundedFields, policy: PolicyFields)
    ensures
        authorization_refusal(fields, policy) is None <==> {
            &&& fields.version == 1
            &&& fields.operator_key == policy.operator_key
            &&& fields.epoch_id == policy.epoch_id
            &&& fields.base_atoms == policy.base_atoms
            &&& fields.quote_atoms == policy.quote_atoms
            &&& policy.current_slot <= fields.expiry_slot
            &&& ed25519_verifies(
                policy.operator_key@,
                encode_utf8("KAGEB_FUNDED_AUTH_V1\0"@) + funded_bytes(fields).take(185),
                fields.operator_signature@,
            )
        },
{
    crate::crypto::lemma_funded_layout(fields);
    assert(funded_bytes(fields).take(185) =~= crate::crypto::unsigned_bytes(fields));
}

/// A policy admits a submission exactly where it accepts the authorization, the receipt is not zero, the
/// ciphertext is a valid one of an order's width, and the authorized trading key signed the epoch, the
/// authorization, the ciphertext and the receipt.
pub proof fn law_submissions_are_exact(fields: SubmissionFields, policy: PolicyFields)
    ensures
        submission_refusal(fields, policy) is None <==> {
            &&& authorization_refusal(fields.authorization, policy) is None
            &&& fields.receipt@ != zeros(32)
            &&& fields.ciphertext.len() == 344
            &&& ciphertext_valid(fields.ciphertext)
            &&& ed25519_key(fields.authorization.trading_key@)
            &&& ed25519_verifies(
                fields.authorization.trading_key@,
                encode_utf8("KAGEB_SUBMISSION_V1\0"@) + policy.epoch_id@ + sha256(
                    encode_utf8("KAGEB_FUNDED_AUTH_V1\0"@) + funded_bytes(fields.authorization),
                )@ + sha256(fields.ciphertext)@ + fields.receipt@,
                fields.outer_signature@,
            )
        },
{
}

/// An expired authorization is refused at every later slot, and one that is accepted was accepted at
/// every earlier one.
pub proof fn law_authorizations_expire(
    fields: FundedFields,
    policy: PolicyFields,
    later: PolicyFields,
)
    requires
        later == (PolicyFields { current_slot: later.current_slot, ..policy }),
        policy.current_slot <= later.current_slot,
    ensures
        authorization_refusal(fields, later) is None ==> authorization_refusal(fields, policy) is None,
        later.current_slot > fields.expiry_slot ==> authorization_refusal(fields, later) == Some(
            CryptoError::InvalidAuthorization,
        ),
{
}

/// A submission that a policy admits, and with which no earlier one shares its participant, its nonce or
/// its receipt, is a member of the batch; one that shares any of them with an earlier member is not, and
/// neither is one that the policy refuses.
pub proof fn law_first_submission_is_admitted(
    submissions: Seq<SubmissionFields>,
    policy: PolicyFields,
    i: int,
)
    requires
        0 <= i < submissions.len(),
    ensures
        submission_refusal(submissions[i], policy) is None && (forall|k: int|
            0 <= k < i ==> (#[trigger] submissions[k]).authorization.participant_id
                != submissions[i].authorization.participant_id && submissions[k].authorization.nonce
                != submissions[i].authorization.nonce && submissions[k].receipt
                != submissions[i].receipt) ==> member(submissions, policy, i),
        submission_refusal(submissions[i], policy) is Some ==> !member(submissions, policy, i),
        forall|k: int|
            0 <= k < i && #[trigger] member(submissions, policy, k) && (
            submissions[k].authorization.participant_id
                == submissions[i].authorization.participant_id || submissions[k].authorization.nonce
                == submissions[i].authorization.nonce || submissions[k].receipt
                == submissions[i].receipt) ==> !member(submissions, policy, i),
{
    if forall|k: int|
        0 <= k < i ==> (#[trigger] submissions[k]).authorization.participant_id
            != submissions[i].authorization.participant_id && submissions[k].authorization.nonce
            != submissions[i].authorization.nonce && submissions[k].receipt
            != submissions[i].receipt {
        lemma_untaken(submissions, policy, submissions[i], i);
    }
    assert forall|k: int|
        0 <= k < i && #[trigger] member(submissions, policy, k) && (
        submissions[k].authorization.participant_id == submissions[i].authorization.participant_id
            || submissions[k].authorization.nonce == submissions[i].authorization.nonce
            || submissions[k].receipt == submissions[i].receipt) implies !member(
        submissions,
        policy,
        i,
    ) by {
        if member(submissions, policy, i) {
            crate::batch::law_members_are_distinct(submissions, policy, k, i);
        }
    }
}

proof fn lemma_untaken(
    submissions: Seq<SubmissionFields>,
    policy: PolicyFields,
    submission: SubmissionFields,
    n: int,
)
    requires
        0 <= n <= submissions.len(),
        forall|k: int|
            0 <= k < n ==> (#[trigger] submissions[k]).authorization.participant_id
                != submission.authorization.participant_id && submissions[k].authorization.nonce
                != submission.authorization.nonce && submissions[k].receipt != submission.receipt,
    ensures
        !taken(submissions, policy, n).participants.contains(
            submission.authorization.participant_id,
        ),
        !taken(submissions, policy, n).nonces.contains(submission.authorization.nonce),
        !taken(submissions, policy, n).receipts.contains(submission.receipt),
    decreases n,
{
    if n > 0 {
        lemma_untaken(submissions, policy, submission, n - 1);
        assert(submissions[n - 1].receipt != submission.receipt);
    }
}

/// A batch holds its members and nobody else, each once, in the order of their participants.
pub proof fn law_batch_holds_its_members(
    members: Seq<SubmissionFields>,
    submissions: Seq<SubmissionFields>,
    policy: PolicyFields,
)
    requires
        is_batch(members, submissions, policy),
    ensures
        forall|a: int|
            0 <= a < members.len() ==> submission_refusal(#[trigger] members[a], policy) is None
                && submissions.contains(members[a]),
        forall|i: int|
            0 <= i < submissions.len() && #[trigger] member(submissions, policy, i)
                ==> members.contains(submissions[i]),
        forall|a: int, b: int|
            0 <= a < b < members.len() ==> crate::bytes::bytes_less(
                (#[trigger] members[a]).authorization.participant_id@,
                (#[trigger] members[b]).authorization.participant_id@,
            ),
{
    assert forall|a: int| 0 <= a < members.len() implies submission_refusal(
        #[trigger] members[a],
        policy,
    ) is None && submissions.contains(members[a]) by {
        assert(crate::batch::among_members(submissions, policy, members[a]));
        let i = choose|i: int|
            0 <= i < submissions.len() && #[trigger] member(submissions, policy, i)
                && submissions[i] == members[a];
        assert(submissions[i] == members[a]);
    }
    assert forall|i: int| 0 <= i < submissions.len() && #[trigger] member(
        submissions,
        policy,
        i,
    ) implies members.contains(submissions[i]) by {
        let a = choose|a: int| 0 <= a < members.len() && #[trigger] members[a] == submissions[i];
        assert(members[a] == submissions[i]);
    }
}

/// The members of a crowd are counted one by one.
pub proof fn law_members_are_counted(
    submissions: Seq<SubmissionFields>,
    policy: PolicyFields,
    n: int,
)
    requires
        0 <= n <= submissions.len(),
    ensures
        member_total(submissions, policy, n) == Seq::new(n as nat, |i: int| i).filter(
            |i: int| member(submissions, policy, i),
        ).len(),
        0 <= member_total(submissions, policy, n) <= n,
    decreases n,
{
    reveal(Seq::filter);
    let places = Seq::new(n as nat, |i: int| i);
    if n > 0 {
        law_members_are_counted(submissions, policy, n - 1);
        assert(places.drop_last() =~= Seq::new((n - 1) as nat, |i: int| i));
        assert(places.last() == n - 1);
    } else {
        assert(places =~= Seq::empty());
    }
}

proof fn lemma_members(submissions: Seq<SubmissionFields>, policy: PolicyFields, n: int)
    requires
        0 <= n <= submissions.len(),
    ensures
        members_refusal(submissions, policy, n) is None <==> (forall|i: int|
            0 <= i < n ==> #[trigger] member_refusal(submissions, policy, i) is None),
    decreases n,
{
    if n > 0 {
        lemma_members(submissions, policy, n - 1);
        assert(member_refusal(submissions, policy, n - 1) is None || member_refusal(
            submissions,
            policy,
            n - 1,
        ) is Some);
    }
}

/// Members pass together exactly where the policy admits each of them, and no two of them share a
/// participant, a nonce or a receipt.
pub proof fn law_locked_members_are_exact(submissions: Seq<SubmissionFields>, policy: PolicyFields)
    ensures
        members_refusal(submissions, policy, submissions.len() as int) is None <==> {
            &&& forall|i: int|
                0 <= i < submissions.len() ==> submission_refusal(
                    #[trigger] submissions[i],
                    policy,
                ) is None
            &&& forall|i: int, j: int|
                0 <= i < j < submissions.len() ==> {
                    &&& (#[trigger] submissions[i]).authorization.participant_id != (
                    #[trigger] submissions[j]).authorization.participant_id
                    &&& submissions[i].authorization.nonce != submissions[j].authorization.nonce
                    &&& submissions[i].receipt != submissions[j].receipt
                }
        },
{
    lemma_members(submissions, policy, submissions.len() as int);
    if members_refusal(submissions, policy, submissions.len() as int) is None {
        assert forall|i: int| 0 <= i < submissions.len() implies submission_refusal(
            #[trigger] submissions[i],
            policy,
        ) is None by {
            assert(member_refusal(submissions, policy, i) is None);
        }
        assert forall|i: int, j: int| 0 <= i < j < submissions.len() implies {
            &&& (#[trigger] submissions[i]).authorization.participant_id != (
            #[trigger] submissions[j]).authorization.participant_id
            &&& submissions[i].authorization.nonce != submissions[j].authorization.nonce
            &&& submissions[i].receipt != submissions[j].receipt
        } by {
            assert(member_refusal(submissions, policy, j) is None);
        }
    }
    if (forall|i: int|
        0 <= i < submissions.len() ==> submission_refusal(#[trigger] submissions[i], policy) is None)
        && (forall|i: int, j: int|
        0 <= i < j < submissions.len() ==> {
            &&& (#[trigger] submissions[i]).authorization.participant_id != (
            #[trigger] submissions[j]).authorization.participant_id
            &&& submissions[i].authorization.nonce != submissions[j].authorization.nonce
            &&& submissions[i].receipt != submissions[j].receipt
        }) {
        assert forall|i: int| 0 <= i < submissions.len() implies #[trigger] member_refusal(
            submissions,
            policy,
            i,
        ) is None by {
            assert(submission_refusal(submissions[i], policy) is None);
        }
    }
}

/// A balance snapshot passes exactly where it is of the epoch and the operator, counts the records, has
/// their root, and the operator signed it.
pub proof fn law_snapshots_are_exact(
    fields: SnapshotFields,
    epoch_id: [u8; 32],
    records: Seq<BalanceFields>,
    operator_key: [u8; 32],
)
    ensures
        snapshot_refusal(fields, epoch_id, records, operator_key) is None <==> {
            &&& records.len() <= u32::MAX
            &&& fields.epoch_id == epoch_id
            &&& fields.record_count == records.len()
            &&& fields.operator_key == operator_key
            &&& balance_root_of(records) == Ok::<[u8; 32], LockValidationError>(fields.balance_root)
            &&& ed25519_verifies(
                operator_key@,
                encode_utf8("KAGEB_BALANCE_SNAPSHOT_V1\0"@) + epoch_id@ + spec_u32_to_le_bytes(
                    fields.record_count,
                ) + fields.balance_root@,
                fields.signature@,
            )
        },
{
}

/// A keyper accepts a package for a lock exactly where it is of the open epoch and its configuration, the
/// configuration makes an epoch (a crowd of at least four, two of three distinct keypers, two distinct
/// mints, a deadline to abort behind the one to lock), the deadline to lock has not come, the package has
/// as many members as it counts, no fewer than the minimum and no more than fit a batch, each admitted and
/// all of them distinct, its roots are those of its members and balances, the operator signed the balances,
/// and every member's reserved funds stand in one balance of its own.
pub proof fn law_lock_packages_are_exact(package: PackageFields, open: OpenFields)
    ensures
        lock_refusal(package, open) is None <==> {
            let terms = package.configuration;
            let keypers = terms.keypers@;
            &&& package.epoch_account == open.epoch_account
            &&& package.configuration == open.configuration
            &&& package.lock_nonce@ != zeros(32)
            &&& terms.minimum_count >= 4
            &&& terms.lock_threshold == 2
            &&& terms.settlement_threshold == 2
            &&& terms.pool@ != zeros(32)
            &&& terms.base_mint@ != zeros(32)
            &&& terms.quote_mint@ != zeros(32)
            &&& terms.base_mint != terms.quote_mint
            &&& keypers[0]@ != zeros(32)
            &&& keypers[1]@ != zeros(32)
            &&& keypers[2]@ != zeros(32)
            &&& keypers[0] != keypers[1]
            &&& keypers[0] != keypers[2]
            &&& keypers[1] != keypers[2]
            &&& terms.lock_deadline < terms.abort_deadline
            &&& open.current_timestamp < terms.lock_deadline
            &&& package.submissions.len() <= 64
            &&& package.balances.len() == package.submissions.len()
            &&& package.member_count == package.submissions.len()
            &&& terms.minimum_count <= package.member_count
            &&& members_refusal(
                package.submissions,
                open.policy,
                package.submissions.len() as int,
            ) is None
            &&& member_root_of(package.keys, package.submissions) == Ok::<
                [u8; 32],
                LockValidationError,
            >(package.member_root)
            &&& snapshot_refusal(
                package.snapshot,
                terms.epoch_id,
                package.balances,
                open.policy.operator_key,
            ) is None
            &&& balance_root_of(package.balances) == Ok::<[u8; 32], LockValidationError>(
                package.pre_balance_root,
            )
            &&& forall|i: int, j: int|
                0 <= i < j < package.balances.len() ==> (
                #[trigger] package.balances[i]).participant_id != (
                #[trigger] package.balances[j]).participant_id
            &&& forall|i: int|
                0 <= i < package.submissions.len() ==> exists|k: int|
                    {
                        let held = #[trigger] package.balances[k];
                        let funded = (#[trigger] package.submissions[i]).authorization;
                        &&& 0 <= k < package.balances.len()
                        &&& held.participant_id == funded.participant_id
                        &&& held.reserved_base_atoms == funded.base_atoms
                        &&& held.reserved_quote_atoms == funded.quote_atoms
                        &&& held.base_atoms >= funded.base_atoms
                        &&& held.quote_atoms >= funded.quote_atoms
                    }
        },
{
    if lock_refusal(package, open) is None {
        assert forall|i: int| 0 <= i < package.submissions.len() implies exists|k: int|
            {
                let held = #[trigger] package.balances[k];
                let funded = (#[trigger] package.submissions[i]).authorization;
                &&& 0 <= k < package.balances.len()
                &&& held.participant_id == funded.participant_id
                &&& held.reserved_base_atoms == funded.base_atoms
                &&& held.reserved_quote_atoms == funded.quote_atoms
                &&& held.base_atoms >= funded.base_atoms
                &&& held.quote_atoms >= funded.quote_atoms
            } by {
            assert(covered(package.balances, package.submissions[i]));
            let k = choose|k: int|
                0 <= k < package.balances.len() && covers(
                    #[trigger] package.balances[k],
                    package.submissions[i],
                );
            assert(covers(package.balances[k], package.submissions[i]));
        }
    }
    if forall|i: int|
        0 <= i < package.submissions.len() ==> exists|k: int|
            {
                let held = #[trigger] package.balances[k];
                let funded = (#[trigger] package.submissions[i]).authorization;
                &&& 0 <= k < package.balances.len()
                &&& held.participant_id == funded.participant_id
                &&& held.reserved_base_atoms == funded.base_atoms
                &&& held.reserved_quote_atoms == funded.quote_atoms
                &&& held.base_atoms >= funded.base_atoms
                &&& held.quote_atoms >= funded.quote_atoms
            } {
        assert forall|i: int| 0 <= i < package.submissions.len() implies #[trigger] covered(
            package.balances,
            package.submissions[i],
        ) by {
            let k = choose|k: int|
                {
                    let held = #[trigger] package.balances[k];
                    let funded = package.submissions[i].authorization;
                    &&& 0 <= k < package.balances.len()
                    &&& held.participant_id == funded.participant_id
                    &&& held.reserved_base_atoms == funded.base_atoms
                    &&& held.reserved_quote_atoms == funded.quote_atoms
                    &&& held.base_atoms >= funded.base_atoms
                    &&& held.quote_atoms >= funded.quote_atoms
                };
            assert(covers(package.balances[k], package.submissions[i]));
        }
    }
}

/// A keyper signs a lock exactly where it is one of the three, at its own place and with the share of its
/// own place that belongs to the package's keys, the package passes, and it signed no other lock of the
/// epoch.
pub proof fn law_signed_locks_are_exact(
    index: usize,
    key: [u8; 32],
    journal: Seq<([u8; 32], [u8; 32])>,
    package: PackageFields,
    open: OpenFields,
    secret: KeyperSecretShare,
    lock_digest: [u8; 32],
)
    ensures
        sign_refusal(index, key, journal, package, open, secret, lock_digest) is None <==> {
            &&& index < 3
            &&& open.configuration.keypers@[index as int] == key
            &&& secret.position() == index
            &&& secret.epoch() == package.epoch_account
            &&& key_share(package.keys, index) is Some
            &&& key_share(package.keys, index) == share_public(secret.secret()@)
            &&& lock_refusal(package, open) is None
            &&& value_of(journal, package.epoch_account) is None || value_of(
                journal,
                package.epoch_account,
            ) == Some(lock_digest)
        },
{
}

/// A package is the locked one exactly where the chain shows the pool and a usable lock, the package
/// passes as it did a moment before the deadline, and it has the digest, the roots and the count that the
/// chain recorded.
pub proof fn law_locked_packages_are_exact(
    package: PackageFields,
    locked: LockedFields,
    lock_digest: [u8; 32],
    pool: PoolStateV1,
)
    requires
        locked.pool == Some(pool),
        i64::MIN < locked.state.lock_deadline,
    ensures
        locked_refusal(package, locked, lock_digest) is None <==> {
            let open = OpenFields {
                epoch_account: locked.epoch_account,
                configuration: configuration_of(locked.state, pool),
                policy: PolicyFields {
                    epoch_id: locked.state.epoch_id,
                    operator_key: pool.operator,
                    minimum: locked.state.minimum_count as usize,
                    base_atoms: pool.base_lot_atoms,
                    quote_atoms: locked.state.quote_atoms_per_lot,
                    current_slot: locked.confirmation_slot,
                },
                current_timestamp: (locked.state.lock_deadline - 1) as i64,
            };
            &&& ed25519_key(pool.operator@)
            &&& locked.state.minimum_count != 0
            &&& pool.base_lot_atoms != 0
            &&& locked.state.quote_atoms_per_lot != 0
            &&& lock_refusal(package, open) is None
            &&& lock_digest == locked.state.lock_digest
            &&& package.pre_balance_root == locked.state.pre_balance_root
            &&& package.member_root == locked.state.member_root
            &&& package.member_count == locked.state.member_count
        },
{
}

/// Without the pool's account no package is the locked one.
pub proof fn law_lock_needs_its_pool(
    package: PackageFields,
    locked: LockedFields,
    lock_digest: [u8; 32],
)
    requires
        locked.pool is None,
    ensures
        locked_refusal(package, locked, lock_digest) == Some(
            LockValidationError::InvalidOnchainLock,
        ),
{
}

/// A keyper releases a share exactly where the package is the locked one, the keyper is one of the three
/// at its own place with its own share and signed this very lock, the member exists, no two ciphertexts of
/// the package are the same, and the share opens a valid ciphertext.
pub proof fn law_released_shares_are_exact(
    index: usize,
    key: [u8; 32],
    journal: Seq<([u8; 32], [u8; 32])>,
    package: PackageFields,
    locked: LockedFields,
    secret: KeyperSecretShare,
    member_index: usize,
    lock_digest: [u8; 32],
)
    ensures
        release_refusal(
            index,
            key,
            journal,
            package,
            locked,
            secret,
            member_index,
            lock_digest,
        ) is None <==> {
            &&& locked_refusal(package, locked, lock_digest) is None
            &&& locked.pool is Some
            &&& index < 3
            &&& locked.pool.unwrap().keypers@[index as int] == key
            &&& secret.position() == index
            &&& secret.epoch() == package.epoch_account
            &&& key_share(package.keys, index) is Some
            &&& key_share(package.keys, index) == share_public(secret.secret()@)
            &&& value_of(journal, package.epoch_account) == Some(lock_digest)
            &&& member_index < package.submissions.len()
            &&& forall|i: int, j: int|
                0 <= i < j < package.submissions.len() ==> sha256(
                    (#[trigger] package.submissions[i]).ciphertext,
                ) != sha256((#[trigger] package.submissions[j]).ciphertext)
            &&& package.submissions[member_index as int].ciphertext.len() == 344
            &&& ciphertext_valid(package.submissions[member_index as int].ciphertext)
            &&& decryption_share(
                secret.secret()@,
                package.submissions[member_index as int].ciphertext,
            ) is Some
        },
{
}

/// An epoch is open for a lock exactly where the program owns its account and its pool's at the addresses
/// that it derives, neither has begun to lock or settle, their terms agree and make an epoch, and the
/// chain's own clock, no later than the read, stands before the deadline.
pub proof fn law_open_epochs_are_exact(
    epoch_account: [u8; 32],
    program_id: [u8; 32],
    epoch: EpochRead,
    pool_address: [u8; 32],
    pool: PoolRead,
    sysvar_id: [u8; 32],
    clock_owner: [u8; 32],
    clock_data: Seq<u8>,
    confirmation_slot: u64,
    state: EpochStateV1,
    terms: PoolStateV1,
)
    requires
        epoch.state == Some(state),
        pool.state == Some(terms),
    ensures
        open_epoch(
            epoch_account,
            program_id,
            epoch,
            pool_address,
            pool,
            sysvar_id,
            clock_owner,
            clock_data,
            confirmation_slot,
        ) <==> {
            let keypers = terms.keypers@;
            &&& epoch.owner == program_id
            &&& epoch.derived.address == epoch_account
            &&& epoch.derived.bump == state.epoch_bump
            &&& pool.owner == program_id
            &&& pool.derived.address == state.pool
            &&& pool.derived.bump == terms.pool_bump
            &&& pool.vault_bump == terms.vault_bump
            &&& state.pool == pool_address
            &&& pool.configuration_digest == state.configuration_hash
            &&& terms.lock_threshold == 2
            &&& terms.settlement_threshold == 2
            &&& terms.base_lot_atoms != 0
            &&& terms.base_lot_atoms == state.base_lot_atoms
            &&& terms.base_mint != terms.quote_mint
            &&& ed25519_key(terms.operator@)
            &&& keypers[0]@ != zeros(32)
            &&& keypers[1]@ != zeros(32)
            &&& keypers[2]@ != zeros(32)
            &&& keypers[0] != keypers[1]
            &&& keypers[0] != keypers[2]
            &&& keypers[1] != keypers[2]
            &&& state.terminal_state == EpochTerminalState::Open
            &&& state.residual_side == 0
            &&& state.residual_lots == 0
            &&& state.member_count == 0
            &&& state.minimum_count >= 4
            &&& state.quote_atoms_per_lot != 0
            &&& state.lock_deadline < state.abort_deadline
            &&& state.pre_balance_root@ == zeros(32)
            &&& state.member_root@ == zeros(32)
            &&& state.lock_digest@ == zeros(32)
            &&& state.result_commitment@ == zeros(32)
            &&& state.settlement_digest@ == zeros(32)
            &&& state.lock_nonce@ == zeros(32)
            &&& state.settlement_nonce@ == zeros(32)
            &&& clock_owner == sysvar_id
            &&& clock_data.len() >= 40
            &&& spec_u64_from_le_bytes(clock_data.subrange(0, 8)) <= confirmation_slot
            &&& (spec_u64_from_le_bytes(clock_data.subrange(32, 40)) as i64) < state.lock_deadline
        },
{
}

/// An epoch is locked exactly where its account says so with a crowd of at least its minimum, which is at
/// least four, with terms and commitments that are not empty, and with the digest of the payload that it
/// records.
pub proof fn law_locked_epochs_are_exact(state: EpochStateV1, lock_digest: [u8; 32])
    ensures
        locked_state(state, lock_digest) <==> {
            &&& state.terminal_state == EpochTerminalState::Locked
            &&& 4 <= state.minimum_count <= state.member_count
            &&& state.base_lot_atoms > 0
            &&& state.quote_atoms_per_lot > 0
            &&& state.lock_deadline < state.abort_deadline
            &&& state.configuration_hash@ != zeros(32)
            &&& state.lock_nonce@ != zeros(32)
            &&& state.pre_balance_root@ != zeros(32)
            &&& state.member_root@ != zeros(32)
            &&& state.lock_digest == lock_digest
        },
{
}

/// Accounts are the program's exactly where it owns them, at the addresses and with the bumps that it
/// derives, and a pool is sound where it also asks for two of three keypers, trades a lot between two
/// mints, and makes up the configuration that the epoch records.
pub proof fn law_program_accounts_are_exact(
    epoch_account: [u8; 32],
    program_id: [u8; 32],
    epoch: EpochRead,
    state: EpochStateV1,
    terms: PoolStateV1,
    pool: PoolRead,
)
    ensures
        program_epoch(epoch_account, program_id, epoch) == Some(state) <==> epoch.state == Some(
            state,
        ) && epoch.owner == program_id && epoch.derived.address == epoch_account
            && epoch.derived.bump == state.epoch_bump,
        pool_sound(state, terms, pool, program_id) <==> {
            &&& pool.owner == program_id
            &&& pool.derived.address == state.pool
            &&& pool.derived.bump == terms.pool_bump
            &&& pool.vault_bump == terms.vault_bump
            &&& terms.lock_threshold == 2
            &&& terms.settlement_threshold == 2
            &&& terms.base_lot_atoms > 0
            &&& terms.base_mint != terms.quote_mint
            &&& pool.configuration_digest == state.configuration_hash
        },
{
}

/// The configuration of an epoch takes its lot, its mints, its keypers and their thresholds from the pool,
/// and everything else from the epoch.
pub proof fn law_configuration_joins_epoch_and_pool(state: EpochStateV1, pool: PoolStateV1)
    ensures
        ({
            let made = configuration_of(state, pool);
            &&& made.pool == state.pool
            &&& made.epoch_id == state.epoch_id
            &&& made.quote_atoms_per_lot == state.quote_atoms_per_lot
            &&& made.minimum_count == state.minimum_count
            &&& made.lock_deadline == state.lock_deadline
            &&& made.abort_deadline == state.abort_deadline
            &&& made.base_mint == pool.base_mint
            &&& made.quote_mint == pool.quote_mint
            &&& made.base_lot_atoms == pool.base_lot_atoms
            &&& made.lock_threshold == pool.lock_threshold
            &&& made.settlement_threshold == pool.settlement_threshold
            &&& made.keypers == pool.keypers
        }),
{
}

/// Reservations may be given back for epochs that were aborted or expired, and for no others.
pub proof fn law_only_unsettled_epochs_give_back(state: EpochTerminalState)
    ensures
        ended_unsettled(state) <==> state != EpochTerminalState::Open && state
            != EpochTerminalState::Locked && state != EpochTerminalState::Settled,
{
}

/// The clock account holds its slot first and its time behind three other numbers.
pub proof fn law_clock_is_read_from_its_places(data: Seq<u8>)
    ensures
        data.len() >= 40 ==> (clock_of(data) matches Some(clock) && clock.slot
            == spec_u64_from_le_bytes(data.subrange(0, 8)) && clock.unix_timestamp
            == spec_u64_from_le_bytes(data.subrange(32, 40)) as i64),
        data.len() < 40 ==> clock_of(data) is None,
{
}

/// Whether a policy admits a submission whose participant has no member before it.
pub open spec fn comes_first(
    submissions: Seq<SubmissionFields>,
    policy: PolicyFields,
    i: int,
) -> bool {
    submission_refusal(submissions[i], policy) is None && (forall|k: int|
        0 <= k < i && #[trigger] member(submissions, policy, k)
            ==> submissions[k].authorization.participant_id
            != submissions[i].authorization.participant_id)
}

/// Whether such a submission has a nonce that none before it had.
pub open spec fn spends_its_nonce(
    submissions: Seq<SubmissionFields>,
    policy: PolicyFields,
    i: int,
) -> bool {
    comes_first(submissions, policy, i) && (forall|k: int|
        0 <= k < i && #[trigger] comes_first(submissions, policy, k)
            ==> submissions[k].authorization.nonce != submissions[i].authorization.nonce)
}

proof fn lemma_taken(
    submissions: Seq<SubmissionFields>,
    policy: PolicyFields,
    n: int,
    id: [u8; 32],
)
    requires
        0 <= n <= submissions.len(),
    ensures
        taken(submissions, policy, n).participants.contains(id) <==> exists|k: int|
            0 <= k < n && #[trigger] member(submissions, policy, k)
                && submissions[k].authorization.participant_id == id,
        taken(submissions, policy, n).nonces.contains(id) <==> exists|k: int|
            0 <= k < n && #[trigger] comes_first(submissions, policy, k)
                && submissions[k].authorization.nonce == id,
        taken(submissions, policy, n).receipts.contains(id) <==> exists|k: int|
            0 <= k < n && #[trigger] spends_its_nonce(submissions, policy, k)
                && submissions[k].receipt == id,
    decreases n,
{
    if n > 0 {
        let last = submissions[n - 1];
        lemma_taken(submissions, policy, n - 1, id);
        lemma_taken(submissions, policy, n - 1, last.authorization.participant_id);
        lemma_taken(submissions, policy, n - 1, last.authorization.nonce);
        let before = taken(submissions, policy, n - 1);
        assert(crate::batch::is_candidate(before, last, policy) <==> comes_first(
            submissions,
            policy,
            n - 1,
        ));
        assert(crate::batch::is_fresh(before, last, policy) <==> spends_its_nonce(
            submissions,
            policy,
            n - 1,
        ));
        assert(crate::batch::is_member(before, last, policy) <==> member(
            submissions,
            policy,
            n - 1,
        ));
        if taken(submissions, policy, n).participants.contains(id) && !before.participants.contains(
            id,
        ) {
            assert(member(submissions, policy, n - 1));
        }
        if taken(submissions, policy, n).nonces.contains(id) && !before.nonces.contains(id) {
            assert(comes_first(submissions, policy, n - 1));
        }
        if taken(submissions, policy, n).receipts.contains(id) && !before.receipts.contains(id) {
            assert(spends_its_nonce(submissions, policy, n - 1));
        }
    }
}

/// A submission is a member exactly where the policy admits it, no member before it is of its participant,
/// no submission that came first for another participant spent its nonce, and none that spent its own
/// nonce spent its receipt: what a submission spends stays spent where a later test refuses it.
pub proof fn law_members_are_exact(
    submissions: Seq<SubmissionFields>,
    policy: PolicyFields,
    i: int,
)
    requires
        0 <= i < submissions.len(),
    ensures
        member(submissions, policy, i) <==> {
            &&& submission_refusal(submissions[i], policy) is None
            &&& forall|k: int|
                0 <= k < i && #[trigger] member(submissions, policy, k)
                    ==> submissions[k].authorization.participant_id
                    != submissions[i].authorization.participant_id
            &&& forall|k: int|
                0 <= k < i && #[trigger] comes_first(submissions, policy, k)
                    ==> submissions[k].authorization.nonce != submissions[i].authorization.nonce
            &&& forall|k: int|
                0 <= k < i && #[trigger] spends_its_nonce(submissions, policy, k)
                    ==> submissions[k].receipt != submissions[i].receipt
        },
{
    lemma_taken(submissions, policy, i, submissions[i].authorization.participant_id);
    lemma_taken(submissions, policy, i, submissions[i].authorization.nonce);
    lemma_taken(submissions, policy, i, submissions[i].receipt);
}

/// A crowd becomes a batch exactly where its members are no fewer than the policy's minimum; fewer are
/// refused with their number and the minimum, and the batch holds each member and nobody else.
pub proof fn law_crowds_are_exact(
    submissions: Seq<SubmissionFields>,
    policy: PolicyFields,
    batch: Result<AdmittedBatch, CryptoError>,
)
    requires
        batch_outcome(submissions, policy, batch),
        submissions.len() <= usize::MAX,
    ensures
        ({
            let members = Seq::new(submissions.len(), |i: int| i).filter(
                |i: int| member(submissions, policy, i),
            );
            &&& batch is Ok <==> members.len() >= policy.minimum
            &&& batch matches Ok(batch) ==> batch@.len() == members.len()
            &&& batch is Err ==> batch == Err::<AdmittedBatch, _>(
                CryptoError::InsufficientCrowd {
                    valid: members.len() as usize,
                    minimum: policy.minimum,
                },
            )
        }),
        batch matches Ok(batch) ==> {
            &&& forall|a: int|
                0 <= a < batch@.len() ==> submission_refusal(#[trigger] batch@[a], policy) is None
                    && submissions.contains(batch@[a])
            &&& forall|i: int|
                0 <= i < submissions.len() && #[trigger] member(submissions, policy, i)
                    ==> batch@.contains(submissions[i])
        },
{
    law_members_are_counted(submissions, policy, submissions.len() as int);
    if let Ok(batch) = batch {
        law_batch_holds_its_members(batch@, submissions, policy);
    }
}

} // verus!
