//! Checks of evidence against the accounts of the program and the tokens.

use crate::bytes::{is_zero, same_array, zeros};
use crate::encodings::{pubkey_decoded, pubkey_from_text, same_text};
use crate::evidence::{
    check_digest, check_key, digest_named, digest_refusal, either, first_refusal, key_refusal,
    lemma_first_refusal, optional_text, outcome_of, parse_digest, unless,
    DecodedInstructionEvidenceV1, DevnetEvidenceBundleV1, DevnetEvidenceContentV1,
    DevnetEvidenceError, EvidenceTokenBalancesV1, InstructionFields,
};
use crate::evidence_checks::{
    authority_refusal, deployment_matches, deployment_refusal, executable_of, fields_refusal,
    funding_refusal, funding_refusals, require, source_of, source_refusal, transactions_refusal,
    chronological, validate_deployment, validate_distinct_funding_authorities,
    validate_public_fields, validate_transactions, DevnetPublicSnapshotV1, PublicAccountSnapshotV1,
};
use crate::program::{
    same_keypers, DerivedAddress, EpochStateV1, EpochTerminalState, PoolStateV1,
};
use crate::tokens::{is_token_account, mint_of, unpack_mint, unpack_token_account};
use vstd::prelude::*;
use vstd::string::*;

verus! {

/// The addresses that the program derives from what evidence names.
#[derive(Clone, Copy, Debug, PartialEq, Eq)]
pub struct DerivedAccounts {
    pub pool: DerivedAddress,
    pub vault_authority: DerivedAddress,
    pub epoch: DerivedAddress,
}

/// Whether evidence names the accounts that addresses are derived from, and those addresses.
pub open spec fn accounts_named(evidence: DevnetEvidenceContentV1) -> bool {
    &&& pubkey_decoded(evidence.accounts.operator@) is Some
    &&& pubkey_decoded(evidence.accounts.base_mint@) is Some
    &&& pubkey_decoded(evidence.accounts.quote_mint@) is Some
    &&& pubkey_decoded(evidence.accounts.pool@) is Some
    &&& pubkey_decoded(evidence.accounts.epoch@) is Some
    &&& pubkey_decoded(evidence.accounts.vault_authority@) is Some
    &&& digest_named(evidence.configuration.epoch_id@) is Some
}

fn names_accounts(evidence: &DevnetEvidenceContentV1) -> (named: bool)
    ensures
        named == accounts_named(*evidence),
{
    pubkey_from_text(evidence.accounts.operator.as_str()).is_some() && pubkey_from_text(
        evidence.accounts.base_mint.as_str(),
    ).is_some() && pubkey_from_text(evidence.accounts.quote_mint.as_str()).is_some()
        && pubkey_from_text(evidence.accounts.pool.as_str()).is_some() && pubkey_from_text(
        evidence.accounts.epoch.as_str(),
    ).is_some() && pubkey_from_text(evidence.accounts.vault_authority.as_str()).is_some()
        && parse_digest(evidence.configuration.epoch_id.as_str()).is_ok()
}

/// Why the accounts that evidence names are not the derived ones, or not those of the pool, where
/// they are not.
pub open spec fn addresses_refusal(
    evidence: DevnetEvidenceContentV1,
    pool: PoolStateV1,
    epoch: EpochStateV1,
    derived: DerivedAccounts,
) -> Option<DevnetEvidenceError> {
    let wrong = DevnetEvidenceError::WrongState;
    let accounts = evidence.accounts;
    either(
        key_refusal(accounts.pool@, derived.pool.address@, wrong),
        either(
            key_refusal(accounts.epoch@, derived.epoch.address@, wrong),
            either(
                key_refusal(accounts.vault_authority@, derived.vault_authority.address@, wrong),
                either(
                    unless(
                        pool.pool_bump == derived.pool.bump && pool.vault_bump
                            == derived.vault_authority.bump && epoch.epoch_bump
                            == derived.epoch.bump,
                        wrong,
                    ),
                    either(
                        key_refusal(accounts.operator@, pool.operator@, wrong),
                        either(
                            key_refusal(accounts.base_mint@, pool.base_mint@, wrong),
                            key_refusal(accounts.quote_mint@, pool.quote_mint@, wrong),
                        ),
                    ),
                ),
            ),
        ),
    )
}

fn check_addresses(
    evidence: &DevnetEvidenceContentV1,
    pool: &PoolStateV1,
    epoch: &EpochStateV1,
    derived: &DerivedAccounts,
) -> (outcome: Result<(), DevnetEvidenceError>)
    ensures
        outcome == outcome_of(addresses_refusal(*evidence, *pool, *epoch, *derived)),
{
    let wrong = DevnetEvidenceError::WrongState;
    let accounts = &evidence.accounts;
    let mut checked = check_key(accounts.pool.as_str(), &derived.pool.address, wrong);
    if checked.is_ok() {
        checked = check_key(accounts.epoch.as_str(), &derived.epoch.address, wrong);
    }
    if checked.is_ok() {
        checked = check_key(
            accounts.vault_authority.as_str(),
            &derived.vault_authority.address,
            wrong,
        );
    }
    if checked.is_ok() {
        checked = require(
            pool.pool_bump == derived.pool.bump && pool.vault_bump == derived.vault_authority.bump
                && epoch.epoch_bump == derived.epoch.bump,
            wrong,
        );
    }
    if checked.is_ok() {
        checked = check_key(accounts.operator.as_str(), &pool.operator, wrong);
    }
    if checked.is_ok() {
        checked = check_key(accounts.base_mint.as_str(), &pool.base_mint, wrong);
    }
    if checked.is_ok() {
        checked = check_key(accounts.quote_mint.as_str(), &pool.quote_mint, wrong);
    }
    checked
}

/// Why the vaults and the venue that evidence names are not those of the pool, or the epoch is not
/// the settled one that it names, where they are not.
pub open spec fn vaults_refusal(
    evidence: DevnetEvidenceContentV1,
    pool: PoolStateV1,
    epoch: EpochStateV1,
) -> Option<DevnetEvidenceError> {
    let wrong = DevnetEvidenceError::WrongState;
    let accounts = evidence.accounts;
    either(
        key_refusal(accounts.pool_base_vault@, pool.pool_base_vault@, wrong),
        either(
            key_refusal(accounts.pool_quote_vault@, pool.pool_quote_vault@, wrong),
            either(
                key_refusal(accounts.venue_authority@, pool.venue_authority@, wrong),
                either(
                    key_refusal(accounts.venue_base_account@, pool.venue_base_account@, wrong),
                    either(
                        key_refusal(
                            accounts.venue_quote_account@,
                            pool.venue_quote_account@,
                            wrong,
                        ),
                        either(
                            key_refusal(accounts.pool@, epoch.pool@, wrong),
                            either(
                                digest_refusal(
                                    evidence.configuration.epoch_id@,
                                    epoch.epoch_id@,
                                    wrong,
                                ),
                                unless(
                                    epoch.terminal_state == EpochTerminalState::Settled
                                        && epoch.settlement_nonce@ != zeros(32)
                                        && epoch.lock_nonce@ != zeros(32),
                                    wrong,
                                ),
                            ),
                        ),
                    ),
                ),
            ),
        ),
    )
}

fn check_vaults(evidence: &DevnetEvidenceContentV1, pool: &PoolStateV1, epoch: &EpochStateV1) -> (outcome:
    Result<(), DevnetEvidenceError>)
    ensures
        outcome == outcome_of(vaults_refusal(*evidence, *pool, *epoch)),
{
    let wrong = DevnetEvidenceError::WrongState;
    let accounts = &evidence.accounts;
    let mut checked = check_key(accounts.pool_base_vault.as_str(), &pool.pool_base_vault, wrong);
    if checked.is_ok() {
        checked = check_key(accounts.pool_quote_vault.as_str(), &pool.pool_quote_vault, wrong);
    }
    if checked.is_ok() {
        checked = check_key(accounts.venue_authority.as_str(), &pool.venue_authority, wrong);
    }
    if checked.is_ok() {
        checked = check_key(accounts.venue_base_account.as_str(), &pool.venue_base_account, wrong);
    }
    if checked.is_ok() {
        checked =
        check_key(accounts.venue_quote_account.as_str(), &pool.venue_quote_account, wrong);
    }
    if checked.is_ok() {
        checked = check_key(accounts.pool.as_str(), &epoch.pool, wrong);
    }
    if checked.is_ok() {
        checked = check_digest(evidence.configuration.epoch_id.as_str(), &epoch.epoch_id, wrong);
    }
    if checked.is_ok() {
        checked = require(
            epoch.terminal_state == EpochTerminalState::Settled && !is_zero(
                epoch.settlement_nonce.as_slice(),
            ) && !is_zero(epoch.lock_nonce.as_slice()),
            wrong,
        );
    }
    checked
}

/// Whether evidence and the epoch agree on four members.
pub open spec fn members_match(evidence: DevnetEvidenceContentV1, epoch: EpochStateV1) -> bool {
    &&& evidence.configuration.member_count == 4
    &&& evidence.configuration.minimum_count == 4
    &&& epoch.member_count == 4
    &&& epoch.minimum_count == 4
}

/// Whether evidence names three keys.
pub open spec fn keypers_named(evidence: DevnetEvidenceContentV1) -> bool {
    forall|i: int|
        0 <= i < 3 ==> pubkey_decoded((#[trigger] evidence.configuration.keypers@[i])@) is Some
}

/// Whether the keypers that evidence names are the three different ones of the pool, of which two
/// lock and two settle.
pub open spec fn keypers_match(evidence: DevnetEvidenceContentV1, pool: PoolStateV1) -> bool {
    &&& forall|i: int|
        0 <= i < 3 ==> pubkey_decoded((#[trigger] evidence.configuration.keypers@[i])@) == Some(
            pool.keypers@[i],
        )
    &&& pool.keypers@[0] != pool.keypers@[1]
    &&& pool.keypers@[0] != pool.keypers@[2]
    &&& pool.keypers@[1] != pool.keypers@[2]
    &&& evidence.configuration.lock_threshold == 2
    &&& evidence.configuration.settlement_threshold == 2
    &&& pool.lock_threshold == 2
    &&& pool.settlement_threshold == 2
}

/// Why the keypers are refused, where they are.
pub open spec fn keypers_refusal(evidence: DevnetEvidenceContentV1, pool: PoolStateV1) -> Option<
    DevnetEvidenceError,
> {
    either(
        unless(keypers_named(evidence), DevnetEvidenceError::InvalidPublicField),
        unless(keypers_match(evidence, pool), DevnetEvidenceError::WrongKeyper),
    )
}

fn check_keypers(evidence: &DevnetEvidenceContentV1, pool: &PoolStateV1) -> (outcome: Result<
    (),
    DevnetEvidenceError,
>)
    ensures
        outcome == outcome_of(keypers_refusal(*evidence, *pool)),
{
    let texts = &evidence.configuration.keypers;
    match (
        pubkey_from_text(texts[0].as_str()),
        pubkey_from_text(texts[1].as_str()),
        pubkey_from_text(texts[2].as_str()),
    ) {
        (Some(first), Some(second), Some(third)) => {
            assert(keypers_named(*evidence)) by {
                assert(pubkey_decoded(texts@[0]@) is Some);
                assert(pubkey_decoded(texts@[1]@) is Some);
                assert(pubkey_decoded(texts@[2]@) is Some);
            }
            let keys: [[u8; 32]; 3] = [first, second, third];
            let same = same_keypers(&keys, &pool.keypers);
            proof {
                let named = forall|i: int|
                    0 <= i < 3 ==> pubkey_decoded((#[trigger] texts@[i])@) == Some(
                        pool.keypers@[i],
                    );
                assert(keys@[0] == first && keys@[1] == second && keys@[2] == third);
                if same {
                    assert(named);
                }
                if named {
                    assert(pubkey_decoded(texts@[0]@) == Some(pool.keypers@[0]));
                    assert(pubkey_decoded(texts@[1]@) == Some(pool.keypers@[1]));
                    assert(pubkey_decoded(texts@[2]@) == Some(pool.keypers@[2]));
                    assert(keys@ =~= pool.keypers@);
                    assert(keys =~= pool.keypers);
                }
            }
            require(
                same && !same_array(&keys[0], &keys[1]) && !same_array(&keys[0], &keys[2])
                    && !same_array(&keys[1], &keys[2]) && evidence.configuration.lock_threshold
                    == pool.lock_threshold && evidence.configuration.settlement_threshold
                    == pool.settlement_threshold && pool.lock_threshold == 2
                    && pool.settlement_threshold == 2,
                DevnetEvidenceError::WrongKeyper,
            )
        },
        _ => {
            assert(!keypers_named(*evidence)) by {
                assert(pubkey_decoded(texts@[0]@) is None || pubkey_decoded(texts@[1]@) is None
                    || pubkey_decoded(texts@[2]@) is None);
            }
            Err(DevnetEvidenceError::InvalidPublicField)
        },
    }
}

/// Why the commitments that evidence holds are not those of the epoch, where they are not.
pub open spec fn commitments_refusal(
    evidence: DevnetEvidenceContentV1,
    epoch: EpochStateV1,
) -> Option<DevnetEvidenceError> {
    let changed = DevnetEvidenceError::ChangedCommitment;
    let said = evidence.commitments;
    either(
        digest_refusal(said.configuration_hash@, epoch.configuration_hash@, changed),
        either(
            digest_refusal(said.pre_balance_root@, epoch.pre_balance_root@, changed),
            either(
                digest_refusal(said.member_set@, epoch.member_root@, changed),
                either(
                    digest_refusal(said.lock_digest@, epoch.lock_digest@, changed),
                    either(
                        digest_refusal(said.result@, epoch.result_commitment@, changed),
                        either(
                            digest_refusal(
                                said.settlement_digest@,
                                epoch.settlement_digest@,
                                changed,
                            ),
                            unless(
                                digest_named(said.local_transcript_sha256@) is Some,
                                DevnetEvidenceError::InvalidPublicField,
                            ),
                        ),
                    ),
                ),
            ),
        ),
    )
}

fn check_commitments(evidence: &DevnetEvidenceContentV1, epoch: &EpochStateV1) -> (outcome: Result<
    (),
    DevnetEvidenceError,
>)
    ensures
        outcome == outcome_of(commitments_refusal(*evidence, *epoch)),
{
    let changed = DevnetEvidenceError::ChangedCommitment;
    let said = &evidence.commitments;
    let mut checked = check_digest(
        said.configuration_hash.as_str(),
        &epoch.configuration_hash,
        changed,
    );
    if checked.is_ok() {
        checked = check_digest(said.pre_balance_root.as_str(), &epoch.pre_balance_root, changed);
    }
    if checked.is_ok() {
        checked = check_digest(said.member_set.as_str(), &epoch.member_root, changed);
    }
    if checked.is_ok() {
        checked = check_digest(said.lock_digest.as_str(), &epoch.lock_digest, changed);
    }
    if checked.is_ok() {
        checked = check_digest(said.result.as_str(), &epoch.result_commitment, changed);
    }
    if checked.is_ok() {
        checked = check_digest(said.settlement_digest.as_str(), &epoch.settlement_digest, changed);
    }
    if checked.is_ok() {
        checked = require(
            parse_digest(said.local_transcript_sha256.as_str()).is_ok(),
            DevnetEvidenceError::InvalidPublicField,
        );
    }
    checked
}

/// Whether evidence, the pool and the epoch agree on the size and the price of a lot.
pub open spec fn lots_match(
    evidence: DevnetEvidenceContentV1,
    pool: PoolStateV1,
    epoch: EpochStateV1,
) -> bool {
    &&& evidence.configuration.base_lot_atoms == pool.base_lot_atoms
    &&& evidence.configuration.base_lot_atoms == epoch.base_lot_atoms
    &&& evidence.configuration.quote_atoms_per_lot == epoch.quote_atoms_per_lot
}

/// Whether the program owns the two accounts of an epoch.
pub open spec fn program_owns(snapshot: DevnetPublicSnapshotV1, program: Seq<u8>) -> bool {
    &&& snapshot.pool.owner@ == program
    &&& !snapshot.pool.executable
    &&& snapshot.epoch.owner@ == program
    &&& !snapshot.epoch.executable
}

/// Why the accounts of an epoch are not what evidence says, where they are not. `pool` and `epoch`
/// are what the program's decoder makes of their data, and `derived` the addresses that the program
/// derives from what evidence names.
pub open spec fn state_refusal(
    evidence: DevnetEvidenceContentV1,
    snapshot: DevnetPublicSnapshotV1,
    program: Seq<u8>,
    pool: Option<PoolStateV1>,
    epoch: Option<EpochStateV1>,
    derived: DerivedAccounts,
) -> Option<DevnetEvidenceError> {
    if !program_owns(snapshot, program) {
        Some(DevnetEvidenceError::WrongAccountOwner)
    } else {
        match (pool, epoch) {
            (Some(pool), Some(epoch)) => either(
                unless(accounts_named(evidence), DevnetEvidenceError::InvalidPublicField),
                either(
                    addresses_refusal(evidence, pool, epoch, derived),
                    either(
                        vaults_refusal(evidence, pool, epoch),
                        either(
                            unless(
                                members_match(evidence, epoch),
                                DevnetEvidenceError::WrongMemberCount,
                            ),
                            either(
                                keypers_refusal(evidence, pool),
                                either(
                                    unless(
                                        lots_match(evidence, pool, epoch),
                                        DevnetEvidenceError::WrongState,
                                    ),
                                    commitments_refusal(evidence, epoch),
                                ),
                            ),
                        ),
                    ),
                ),
            ),
            _ => Some(DevnetEvidenceError::WrongState),
        }
    }
}

/// Checks the accounts of an epoch.
pub fn validate_program_state(
    evidence: &DevnetEvidenceContentV1,
    snapshot: &DevnetPublicSnapshotV1,
    program: &[u8; 32],
    pool: &Option<PoolStateV1>,
    epoch: &Option<EpochStateV1>,
    derived: &DerivedAccounts,
) -> (states: Result<(PoolStateV1, EpochStateV1), DevnetEvidenceError>)
    ensures
        match states {
            Ok(states) => state_refusal(*evidence, *snapshot, program@, *pool, *epoch, *derived)
                is None && *pool == Some(states.0) && *epoch == Some(states.1),
            Err(error) => state_refusal(*evidence, *snapshot, program@, *pool, *epoch, *derived)
                == Some(error),
        },
{
    if !same_array(&snapshot.pool.owner, program) || snapshot.pool.executable || !same_array(
        &snapshot.epoch.owner,
        program,
    ) || snapshot.epoch.executable {
        return Err(DevnetEvidenceError::WrongAccountOwner);
    }
    match (pool, epoch) {
        (Some(pool), Some(epoch)) => {
            let mut checked = require(
                names_accounts(evidence),
                DevnetEvidenceError::InvalidPublicField,
            );
            if checked.is_ok() {
                checked = check_addresses(evidence, pool, epoch, derived);
            }
            if checked.is_ok() {
                checked = check_vaults(evidence, pool, epoch);
            }
            if checked.is_ok() {
                checked = require(
                    evidence.configuration.member_count == 4 && evidence.configuration.minimum_count
                        == 4 && epoch.member_count == evidence.configuration.member_count
                        && epoch.minimum_count == evidence.configuration.minimum_count
                        && epoch.member_count >= epoch.minimum_count,
                    DevnetEvidenceError::WrongMemberCount,
                );
            }
            if checked.is_ok() {
                checked = check_keypers(evidence, pool);
            }
            if checked.is_ok() {
                checked = require(
                    evidence.configuration.base_lot_atoms == pool.base_lot_atoms
                        && evidence.configuration.base_lot_atoms == epoch.base_lot_atoms
                        && evidence.configuration.quote_atoms_per_lot == epoch.quote_atoms_per_lot,
                    DevnetEvidenceError::WrongState,
                );
            }
            if checked.is_ok() {
                checked = check_commitments(evidence, epoch);
            }
            match checked {
                Ok(_) => Ok((*pool, *epoch)),
                Err(error) => Err(error),
            }
        },
        _ => Err(DevnetEvidenceError::WrongState),
    }
}

/// Whether an account is a mint that nobody can mint from or freeze, of a token without decimals.
pub open spec fn is_public_mint(account: PublicAccountSnapshotV1, token_program: Seq<u8>) -> bool {
    &&& account.owner@ == token_program
    &&& !account.executable
    &&& match mint_of(account.data@) {
        Some(mint) => mint.decimals == 0 && !mint.has_mint_authority && !mint.has_freeze_authority,
        None => false,
    }
}

/// Checks a mint.
pub fn validate_public_mint(account: &PublicAccountSnapshotV1, token_program: &[u8; 32]) -> (outcome:
    Result<(), DevnetEvidenceError>)
    ensures
        outcome == outcome_of(
            unless(
                is_public_mint(*account, token_program@),
                DevnetEvidenceError::InvalidTokenAccount,
            ),
        ),
{
    if !same_array(&account.owner, token_program) || account.executable {
        return Err(DevnetEvidenceError::InvalidTokenAccount);
    }
    match unpack_mint(account.data.as_slice()) {
        Some(mint) => require(
            mint.decimals == 0 && !mint.has_mint_authority && !mint.has_freeze_authority,
            DevnetEvidenceError::InvalidTokenAccount,
        ),
        None => Err(DevnetEvidenceError::InvalidTokenAccount),
    }
}

/// The mint that a token account should be of: the base and the quote in turn.
pub open spec fn expected_mint(evidence: DevnetEvidenceContentV1, i: int) -> Seq<char> {
    if i % 2 == 0 {
        evidence.accounts.base_mint@
    } else {
        evidence.accounts.quote_mint@
    }
}

/// Who should own a token account: the pool's authority the first two, the venue's the others.
pub open spec fn expected_owner(evidence: DevnetEvidenceContentV1, i: int) -> Seq<char> {
    if i < 2 {
        evidence.accounts.vault_authority@
    } else {
        evidence.accounts.venue_authority@
    }
}

/// Why a token account is refused, where it is.
pub open spec fn token_account_refusal(
    evidence: DevnetEvidenceContentV1,
    accounts: Seq<PublicAccountSnapshotV1>,
    token_program: Seq<u8>,
    i: int,
) -> Option<DevnetEvidenceError> {
    let wrong = DevnetEvidenceError::InvalidTokenAccount;
    let account = accounts[i];
    either(
        unless(
            account.owner@ == token_program && !account.executable && is_token_account(
                account.data@,
            ),
            wrong,
        ),
        either(
            key_refusal(expected_mint(evidence, i), account.data@.subrange(0, 32), wrong),
            either(
                key_refusal(expected_owner(evidence, i), account.data@.subrange(32, 64), wrong),
                unless(account.data@[108] == 1, wrong),
            ),
        ),
    )
}

/// The refusals of the token accounts, one for each.
pub open spec fn token_account_refusals(
    evidence: DevnetEvidenceContentV1,
    accounts: Seq<PublicAccountSnapshotV1>,
    token_program: Seq<u8>,
) -> spec_fn(int) -> Option<DevnetEvidenceError> {
    |i: int| token_account_refusal(evidence, accounts, token_program, i)
}

fn check_token_account(
    evidence: &DevnetEvidenceContentV1,
    accounts: &[PublicAccountSnapshotV1; 4],
    token_program: &[u8; 32],
    i: usize,
) -> (outcome: Result<(), DevnetEvidenceError>)
    requires
        i < 4,
    ensures
        outcome == outcome_of(
            token_account_refusal(*evidence, accounts@, token_program@, i as int),
        ),
{
    let wrong = DevnetEvidenceError::InvalidTokenAccount;
    let account = &accounts[i];
    if !same_array(&account.owner, token_program) || account.executable {
        return Err(wrong);
    }
    let token = match unpack_token_account(account.data.as_slice()) {
        Some(token) => token,
        None => {
            return Err(wrong);
        },
    };
    let mint = if i % 2 == 0 {
        evidence.accounts.base_mint.as_str()
    } else {
        evidence.accounts.quote_mint.as_str()
    };
    let owner = if i < 2 {
        evidence.accounts.vault_authority.as_str()
    } else {
        evidence.accounts.venue_authority.as_str()
    };
    let mut checked = check_key(mint, &token.mint, wrong);
    if checked.is_ok() {
        checked = check_key(owner, &token.owner, wrong);
    }
    if checked.is_ok() {
        checked = require(token.initialized, wrong);
    }
    checked
}

/// Checks the token accounts of the pool and the venue.
pub fn validate_current_token_accounts(
    evidence: &DevnetEvidenceContentV1,
    accounts: &[PublicAccountSnapshotV1; 4],
    token_program: &[u8; 32],
) -> (outcome: Result<(), DevnetEvidenceError>)
    ensures
        outcome == outcome_of(
            first_refusal(token_account_refusals(*evidence, accounts@, token_program@), 4),
        ),
{
    let ghost refusals = token_account_refusals(*evidence, accounts@, token_program@);
    let mut i: usize = 0;
    while i < 4
        invariant
            i <= 4,
            refusals == token_account_refusals(*evidence, accounts@, token_program@),
            first_refusal(refusals, i as nat) is None,
        decreases 4 - i,
    {
        let checked = check_token_account(evidence, accounts, token_program, i);
        assert(outcome_of(refusals(i as int)) == checked);
        if checked.is_err() {
            proof {
                lemma_first_refusal(refusals, i as nat, 4);
            }
            return checked;
        }
        i += 1;
    }
    Ok(())
}

/// Whether balances changed by what an epoch's residual moves: a buying pool gains base and gives
/// quote, a selling one the reverse, and the venue the opposite. Without a residual nothing moves.
pub open spec fn residual_moved(balances: EvidenceTokenBalancesV1, epoch: EpochStateV1) -> bool {
    let base = epoch.base_lot_atoms * epoch.residual_lots;
    let quote = epoch.quote_atoms_per_lot * epoch.residual_lots;
    let pool_base = balances.pool_base_after - balances.pool_base_before;
    let pool_quote = balances.pool_quote_after - balances.pool_quote_before;
    let venue_base = balances.venue_base_after - balances.venue_base_before;
    let venue_quote = balances.venue_quote_after - balances.venue_quote_before;
    if epoch.residual_side == 0 && epoch.residual_lots == 0 {
        pool_base == 0 && pool_quote == 0 && venue_base == 0 && venue_quote == 0
    } else if epoch.residual_side == 1 && epoch.residual_lots > 0 {
        pool_base == base && pool_quote == -quote && venue_base == -base && venue_quote == quote
    } else if epoch.residual_side == 2 && epoch.residual_lots > 0 {
        pool_base == -base && pool_quote == quote && venue_base == base && venue_quote == -quote
    } else {
        false
    }
}

/// Whether the balances of evidence are those that the chain shows, none of their totals overflows,
/// and they changed by what the epoch's residual moves.
pub open spec fn deltas_match(
    balances: EvidenceTokenBalancesV1,
    shown: EvidenceTokenBalancesV1,
    epoch: EpochStateV1,
) -> bool {
    &&& balances == shown
    &&& balances.pool_base_before + balances.venue_base_before <= u64::MAX
    &&& balances.pool_base_after + balances.venue_base_after <= u64::MAX
    &&& balances.pool_quote_before + balances.venue_quote_before <= u64::MAX
    &&& balances.pool_quote_after + balances.venue_quote_after <= u64::MAX
    &&& epoch.base_lot_atoms * epoch.residual_lots <= u64::MAX
    &&& epoch.quote_atoms_per_lot * epoch.residual_lots <= u64::MAX
    &&& residual_moved(balances, epoch)
}

fn deltas_agree(
    balances: &EvidenceTokenBalancesV1,
    shown: &EvidenceTokenBalancesV1,
    epoch: &EpochStateV1,
) -> (agree: bool)
    ensures
        agree == deltas_match(*balances, *shown, *epoch),
{
    if *balances != *shown {
        return false;
    }
    let totals = (
        balances.pool_base_before.checked_add(balances.venue_base_before),
        balances.pool_base_after.checked_add(balances.venue_base_after),
        balances.pool_quote_before.checked_add(balances.venue_quote_before),
        balances.pool_quote_after.checked_add(balances.venue_quote_after),
    );
    match totals {
        (Some(base_before), Some(base_after), Some(quote_before), Some(quote_after)) => {
            if base_before != base_after || quote_before != quote_after {
                return false;
            }
        },
        _ => {
            return false;
        },
    }
    let lots: u64 = epoch.residual_lots as u64;
    let (base, quote) = match (
        epoch.base_lot_atoms.checked_mul(lots),
        epoch.quote_atoms_per_lot.checked_mul(lots),
    ) {
        (Some(base), Some(quote)) => (base, quote),
        _ => {
            return false;
        },
    };
    let pool_base: i128 = balances.pool_base_after as i128 - balances.pool_base_before as i128;
    let pool_quote: i128 = balances.pool_quote_after as i128 - balances.pool_quote_before as i128;
    let venue_base: i128 = balances.venue_base_after as i128 - balances.venue_base_before as i128;
    let venue_quote: i128 = balances.venue_quote_after as i128
        - balances.venue_quote_before as i128;
    let base: i128 = base as i128;
    let quote: i128 = quote as i128;
    if epoch.residual_side == 0 && epoch.residual_lots == 0 {
        pool_base == 0 && pool_quote == 0 && venue_base == 0 && venue_quote == 0
    } else if epoch.residual_side == 1 && epoch.residual_lots > 0 {
        pool_base == base && pool_quote == -quote && venue_base == -base && venue_quote == quote
    } else if epoch.residual_side == 2 && epoch.residual_lots > 0 {
        pool_base == -base && pool_quote == quote && venue_base == base && venue_quote == -quote
    } else {
        false
    }
}

/// Why the tokens are not what evidence says, where they are not.
pub open spec fn tokens_refusal(
    evidence: DevnetEvidenceContentV1,
    snapshot: DevnetPublicSnapshotV1,
    token_program: Seq<u8>,
    epoch: EpochStateV1,
) -> Option<DevnetEvidenceError> {
    either(
        unless(
            is_public_mint(snapshot.base_mint, token_program) && is_public_mint(
                snapshot.quote_mint,
                token_program,
            ),
            DevnetEvidenceError::InvalidTokenAccount,
        ),
        either(
            first_refusal(
                token_account_refusals(
                    evidence,
                    snapshot.current_token_accounts@,
                    token_program,
                ),
                4,
            ),
            unless(
                deltas_match(evidence.token_balances, snapshot.token_balances, epoch),
                DevnetEvidenceError::WrongTokenDelta,
            ),
        ),
    )
}

/// Checks the mints, the token accounts, and what the settlement moved.
pub fn validate_token_deltas(
    evidence: &DevnetEvidenceContentV1,
    snapshot: &DevnetPublicSnapshotV1,
    token_program: &[u8; 32],
    epoch: &EpochStateV1,
) -> (outcome: Result<(), DevnetEvidenceError>)
    ensures
        outcome == outcome_of(tokens_refusal(*evidence, *snapshot, token_program@, *epoch)),
{
    let mut checked = validate_public_mint(&snapshot.base_mint, token_program);
    if checked.is_ok() {
        checked = validate_public_mint(&snapshot.quote_mint, token_program);
    }
    if checked.is_ok() {
        checked = validate_current_token_accounts(
            evidence,
            &snapshot.current_token_accounts,
            token_program,
        );
    }
    if checked.is_ok() {
        checked = require(
            deltas_agree(&evidence.token_balances, &snapshot.token_balances, epoch),
            DevnetEvidenceError::WrongTokenDelta,
        );
    }
    checked
}

/// What decoded instructions say.
pub open spec fn instruction_fields(list: Seq<DecodedInstructionEvidenceV1>) -> Seq<
    InstructionFields,
> {
    list.map_values(|instruction: DecodedInstructionEvidenceV1| instruction@)
}

/// How many of the instructions are of a kind.
pub open spec fn kind_count(list: Seq<InstructionFields>, kind: Seq<char>) -> nat
    decreases list.len(),
{
    if list.len() == 0 {
        0
    } else {
        kind_count(list.drop_last(), kind) + if list.last().kind == kind {
            1nat
        } else {
            0nat
        }
    }
}

fn count_kind(list: &[DecodedInstructionEvidenceV1], kind: &str) -> (count: usize)
    ensures
        count == kind_count(instruction_fields(list@), kind@),
{
    let mut count: usize = 0;
    let mut i: usize = 0;
    let ghost fields = instruction_fields(list@);
    assert(fields.take(0) =~= Seq::empty());
    while i < list.len()
        invariant
            i <= list@.len() == fields.len(),
            count <= i,
            fields == instruction_fields(list@),
            count == kind_count(fields.take(i as int), kind@),
        decreases list@.len() - i,
    {
        assert(fields.take(i + 1).drop_last() =~= fields.take(i as int));
        assert(fields.take(i + 1).last() == list@[i as int]@);
        if same_text(list[i].kind.as_str(), kind) {
            count += 1;
        }
        i += 1;
    }
    assert(fields.take(i as int) =~= fields);
    count
}

fn same_optional_text(a: &Option<String>, b: &Option<String>) -> (same: bool)
    ensures
        same == (optional_text(*a) == optional_text(*b)),
{
    match (a, b) {
        (Some(a), Some(b)) => same_text(a.as_str(), b.as_str()),
        (None, None) => true,
        _ => false,
    }
}

fn same_instruction(a: &DecodedInstructionEvidenceV1, b: &DecodedInstructionEvidenceV1) -> (same: bool)
    ensures
        same == (a@ == b@),
{
    same_text(a.transaction.as_str(), b.transaction.as_str()) && a.position == b.position
        && same_text(a.program.as_str(), b.program.as_str()) && same_text(
        a.kind.as_str(),
        b.kind.as_str(),
    ) && same_optional_text(&a.digest, &b.digest)
}

fn same_instructions(a: &[DecodedInstructionEvidenceV1], b: &[DecodedInstructionEvidenceV1]) -> (same: bool)
    ensures
        same == (instruction_fields(a@) == instruction_fields(b@)),
{
    if a.len() != b.len() {
        assert(instruction_fields(a@).len() != instruction_fields(b@).len());
        return false;
    }
    let mut i: usize = 0;
    while i < a.len()
        invariant
            i <= a@.len() == b@.len(),
            forall|k: int| 0 <= k < i ==> (#[trigger] a@[k])@ == b@[k]@,
        decreases a@.len() - i,
    {
        if !same_instruction(&a[i], &b[i]) {
            assert(instruction_fields(a@)[i as int] != instruction_fields(b@)[i as int]);
            return false;
        }
        i += 1;
    }
    assert(instruction_fields(a@) =~= instruction_fields(b@));
    true
}

/// Whether a kind of instruction carries the digest of the lock.
pub open spec fn carries_lock(kind: Seq<char>) -> bool {
    kind == "keyper-lock-approval"@ || kind == "epoch-lock"@
}

/// Whether a kind of instruction carries the digest of the settlement.
pub open spec fn carries_settlement(kind: Seq<char>) -> bool {
    kind == "keyper-settlement-approval"@ || kind == "aggregate-settlement"@
}

/// Whether a kind of instruction carries no digest.
pub open spec fn carries_nothing(kind: Seq<char>) -> bool {
    kind == "pool-funding-base"@ || kind == "pool-funding-quote"@ || kind == "aggregate-base-leg"@
        || kind == "aggregate-quote-leg"@
}

/// Why an instruction is refused, where it is: its kind is unknown, or it carries another digest
/// than its kind calls for, or one that is malformed.
pub open spec fn instruction_refusal(
    evidence: DevnetEvidenceContentV1,
    instruction: InstructionFields,
) -> Option<DevnetEvidenceError> {
    let unexpected = DevnetEvidenceError::UnexpectedInstruction;
    if carries_lock(instruction.kind) || carries_settlement(instruction.kind) {
        let digest = if carries_lock(instruction.kind) {
            evidence.commitments.lock_digest@
        } else {
            evidence.commitments.settlement_digest@
        };
        if instruction.digest != Some(digest) {
            Some(unexpected)
        } else {
            unless(digest_named(digest) is Some, DevnetEvidenceError::InvalidPublicField)
        }
    } else {
        unless(carries_nothing(instruction.kind) && instruction.digest is None, unexpected)
    }
}

/// The refusals of the instructions, one for each.
pub open spec fn instruction_refusals(
    evidence: DevnetEvidenceContentV1,
    list: Seq<InstructionFields>,
) -> spec_fn(int) -> Option<DevnetEvidenceError> {
    |i: int| instruction_refusal(evidence, list[i])
}

fn check_instruction(
    evidence: &DevnetEvidenceContentV1,
    instruction: &DecodedInstructionEvidenceV1,
) -> (outcome: Result<(), DevnetEvidenceError>)
    ensures
        outcome == outcome_of(instruction_refusal(*evidence, instruction@)),
{
    let unexpected = DevnetEvidenceError::UnexpectedInstruction;
    let kind = instruction.kind.as_str();
    let lock = same_text(kind, "keyper-lock-approval") || same_text(kind, "epoch-lock");
    if lock || same_text(kind, "keyper-settlement-approval") || same_text(
        kind,
        "aggregate-settlement",
    ) {
        let expected = if lock {
            evidence.commitments.lock_digest.as_str()
        } else {
            evidence.commitments.settlement_digest.as_str()
        };
        match &instruction.digest {
            Some(digest) => if same_text(digest.as_str(), expected) {
                require(parse_digest(expected).is_ok(), DevnetEvidenceError::InvalidPublicField)
            } else {
                Err(unexpected)
            },
            None => Err(unexpected),
        }
    } else {
        require(
            (same_text(kind, "pool-funding-base") || same_text(kind, "pool-funding-quote")
                || same_text(kind, "aggregate-base-leg") || same_text(kind, "aggregate-quote-leg"))
                && instruction.digest.is_none(),
            unexpected,
        )
    }
}

/// Why the instructions are refused, where they are: there is not one settlement, not the approvals
/// that the thresholds call for, not the instructions that evidence lists, or one that is refused.
pub open spec fn allowlist_refusal(
    evidence: DevnetEvidenceContentV1,
    shown: Seq<InstructionFields>,
    settlement_threshold: u8,
) -> Option<DevnetEvidenceError> {
    if kind_count(shown, "aggregate-settlement"@) > 1 {
        Some(DevnetEvidenceError::SecondSettlement)
    } else if kind_count(shown, "aggregate-settlement"@) != 1 || kind_count(
        shown,
        "keyper-lock-approval"@,
    ) != evidence.configuration.lock_threshold || kind_count(shown, "keyper-settlement-approval"@)
        != settlement_threshold || shown != instruction_fields(evidence.decoded_allowlist@) {
        Some(DevnetEvidenceError::UnexpectedInstruction)
    } else {
        first_refusal(instruction_refusals(evidence, shown), shown.len())
    }
}

/// Checks the instructions.
pub fn validate_allowlist(
    evidence: &DevnetEvidenceContentV1,
    snapshot: &DevnetPublicSnapshotV1,
    settlement_threshold: u8,
) -> (outcome: Result<(), DevnetEvidenceError>)
    ensures
        outcome == outcome_of(
            allowlist_refusal(
                *evidence,
                instruction_fields(snapshot.decoded_allowlist@),
                settlement_threshold,
            ),
        ),
{
    let shown = snapshot.decoded_allowlist.as_slice();
    let settlements: usize = count_kind(shown, "aggregate-settlement");
    if settlements > 1 {
        return Err(DevnetEvidenceError::SecondSettlement);
    }
    if settlements != 1 || count_kind(shown, "keyper-lock-approval")
        != evidence.configuration.lock_threshold as usize || count_kind(
        shown,
        "keyper-settlement-approval",
    ) != settlement_threshold as usize || !same_instructions(
        shown,
        evidence.decoded_allowlist.as_slice(),
    ) {
        return Err(DevnetEvidenceError::UnexpectedInstruction);
    }
    let ghost fields = instruction_fields(shown@);
    let ghost refusals = instruction_refusals(*evidence, fields);
    let mut i: usize = 0;
    while i < shown.len()
        invariant
            i <= shown@.len() == fields.len(),
            fields == instruction_fields(shown@),
            refusals == instruction_refusals(*evidence, fields),
            first_refusal(refusals, i as nat) is None,
            shown@ == snapshot.decoded_allowlist@,
            allowlist_refusal(*evidence, fields, settlement_threshold) == first_refusal(
                refusals,
                fields.len(),
            ),
        decreases shown@.len() - i,
    {
        let checked = check_instruction(evidence, &shown[i]);
        assert(fields[i as int] == shown@[i as int]@);
        assert(outcome_of(refusals(i as int)) == checked);
        if checked.is_err() {
            proof {
                lemma_first_refusal(refusals, i as nat, fields.len());
            }
            return checked;
        }
        i += 1;
    }
    Ok(())
}

/// What a verification takes from the program's own crate: its identifier and that of the token
/// program, what its decoders make of the two accounts, and the addresses that it derives.
#[derive(Clone, Copy, Debug, PartialEq, Eq)]
pub struct ProgramReads {
    pub program: [u8; 32],
    pub token_program: [u8; 32],
    pub pool: Option<PoolStateV1>,
    pub epoch: Option<EpochStateV1>,
    pub derived: DerivedAccounts,
}

/// Why evidence is refused, where it is, given the encoding of its content.
pub open spec fn evidence_refusal(
    bundle: DevnetEvidenceBundleV1,
    encoded: Seq<u8>,
    snapshot: DevnetPublicSnapshotV1,
    artifact: Seq<u8>,
    reads: ProgramReads,
) -> Option<DevnetEvidenceError> {
    let evidence = bundle.content;
    either(
        unless(bundle.is_sealed(encoded), DevnetEvidenceError::ContentHashMismatch),
        either(
            fields_refusal(evidence, artifact, reads.program@, reads.token_program@),
            either(
                deployment_refusal(evidence, snapshot, artifact),
                either(
                    transactions_refusal(evidence, snapshot.transactions@),
                    either(
                        funding_refusal(evidence),
                        either(
                            state_refusal(
                                evidence,
                                snapshot,
                                reads.program@,
                                reads.pool,
                                reads.epoch,
                                reads.derived,
                            ),
                            either(
                                tokens_refusal(
                                    evidence,
                                    snapshot,
                                    reads.token_program@,
                                    reads.epoch.unwrap(),
                                ),
                                allowlist_refusal(
                                    evidence,
                                    instruction_fields(snapshot.decoded_allowlist@),
                                    reads.pool.unwrap().settlement_threshold,
                                ),
                            ),
                        ),
                    ),
                ),
            ),
        ),
    )
}

/// Verifies evidence against what the chain shows and the artifact that the program was built to.
pub fn verify_devnet_evidence(
    bundle: &DevnetEvidenceBundleV1,
    encoded: &[u8],
    snapshot: &DevnetPublicSnapshotV1,
    checkpoint_artifact: &[u8],
    reads: &ProgramReads,
) -> (outcome: Result<(), DevnetEvidenceError>)
    ensures
        outcome == outcome_of(
            evidence_refusal(*bundle, encoded@, *snapshot, checkpoint_artifact@, *reads),
        ),
{
    let mut checked = bundle.verify_content_hash(encoded);
    let evidence = &bundle.content;
    if checked.is_ok() {
        checked = validate_public_fields(
            evidence,
            checkpoint_artifact,
            &reads.program,
            &reads.token_program,
        );
    }
    if checked.is_ok() {
        checked = validate_deployment(evidence, snapshot, checkpoint_artifact);
    }
    if checked.is_ok() {
        checked = validate_transactions(evidence, snapshot.transactions.as_slice());
    }
    if checked.is_ok() {
        checked = validate_distinct_funding_authorities(evidence);
    }
    if checked.is_err() {
        return checked;
    }
    match validate_program_state(
        evidence,
        snapshot,
        &reads.program,
        &reads.pool,
        &reads.epoch,
        &reads.derived,
    ) {
        Ok((pool, epoch)) => {
            let checked = validate_token_deltas(evidence, snapshot, &reads.token_program, &epoch);
            if checked.is_err() {
                return checked;
            }
            validate_allowlist(evidence, snapshot, pool.settlement_threshold)
        },
        Err(error) => Err(error),
    }
}

/// Verified evidence is of the very executable that is deployed: it is the artifact.
pub proof fn law_verified_evidence_is_of_the_deployed_artifact(
    bundle: DevnetEvidenceBundleV1,
    encoded: Seq<u8>,
    snapshot: DevnetPublicSnapshotV1,
    artifact: Seq<u8>,
    reads: ProgramReads,
)
    requires
        evidence_refusal(bundle, encoded, snapshot, artifact, reads) is None,
    ensures
        executable_of(snapshot.programdata.data@, artifact.len()) == artifact,
{
    assert(deployment_matches(bundle.content, snapshot.programdata.data@, artifact));
}

/// Verified evidence is of an epoch whose fundings have four different authorities and eight
/// different sources, and whose transactions lie in order.
pub proof fn law_verified_fundings_are_distinct(
    bundle: DevnetEvidenceBundleV1,
    encoded: Seq<u8>,
    snapshot: DevnetPublicSnapshotV1,
    artifact: Seq<u8>,
    reads: ProgramReads,
    i: int,
    j: int,
)
    requires
        evidence_refusal(bundle, encoded, snapshot, artifact, reads) is None,
        0 <= i < j,
    ensures
        j < 4 ==> pubkey_decoded(bundle.content.transactions.funding@[i].authority@)
            != pubkey_decoded(bundle.content.transactions.funding@[j].authority@),
        j < 8 ==> pubkey_decoded(source_of(bundle.content, i)) != pubkey_decoded(
            source_of(bundle.content, j),
        ),
        chronological(bundle.content),
{
    let evidence = bundle.content;
    let refusals = funding_refusals(evidence);
    assert(funding_refusal(evidence) is None);
    if j < 4 {
        lemma_none_refused(refusals, 4, j);
        assert(authority_refusal(evidence, j) is None);
    }
    if j < 8 {
        lemma_none_refused(refusals, 4, j / 2);
        assert(2 * (j / 2) == j || 2 * (j / 2) + 1 == j);
        assert(source_refusal(evidence, j) is None);
    }
}

proof fn lemma_none_refused(
    refusals: spec_fn(int) -> Option<DevnetEvidenceError>,
    n: nat,
    i: int,
)
    requires
        first_refusal(refusals, n) is None,
        0 <= i < n,
    ensures
        refusals(i) is None,
    decreases n,
{
    if i < n - 1 {
        lemma_none_refused(refusals, (n - 1) as nat, i);
    }
}

/// Verified evidence shows one settlement, which moved tokens between the pool and the venue and
/// left their totals as they were.
pub proof fn law_verified_settlement_conserves_tokens(
    bundle: DevnetEvidenceBundleV1,
    encoded: Seq<u8>,
    snapshot: DevnetPublicSnapshotV1,
    artifact: Seq<u8>,
    reads: ProgramReads,
)
    requires
        evidence_refusal(bundle, encoded, snapshot, artifact, reads) is None,
    ensures
        kind_count(
            instruction_fields(snapshot.decoded_allowlist@),
            "aggregate-settlement"@,
        ) == 1,
        ({
            let balances = snapshot.token_balances;
            &&& balances.pool_base_before + balances.venue_base_before
                == balances.pool_base_after + balances.venue_base_after
            &&& balances.pool_quote_before + balances.venue_quote_before
                == balances.pool_quote_after + balances.venue_quote_after
        }),
{
}

} // verus!
