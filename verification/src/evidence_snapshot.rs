//! What the fetched transactions of an epoch show together.

use crate::encodings::{
    pubkey_decoded, pubkey_from_text, same_text, signature_decoded, signature_from_text,
};
use crate::evidence::{
    either, first_refusal, lemma_first_refusal, outcome_of, unless, DecodedInstructionEvidenceV1,
    DevnetEvidenceContentV1, DevnetEvidenceError, EvidenceTokenBalancesV1, InstructionFields,
    DEVNET_GENESIS_HASH,
};
use crate::evidence_calls::{call_decode_refusal, decode_kageb_transaction, decoded_call};
use crate::evidence_checks::{transaction_at, transaction_of, FinalizedTransactionSnapshotV1};
use crate::evidence_decode::{
    decode_funding_transaction, funding_decode_refusal, funding_entries, funding_legs,
    named_balance, token_balance_at,
};
use crate::evidence_state::instruction_fields;
use crate::observer::{confirmed_trace, KagebObserverAccounts, ProgramIds, PublicTrace};
use crate::text::copy_text;
use crate::transaction::{FetchedTransaction, TokenBalanceRead, TransactionText};
use vstd::prelude::*;
use vstd::string::*;

verus! {

/// Checks that a fetched transaction is the one that was asked for, and that it is signed.
pub fn verify_queried_transaction(encoded: &TransactionText, expected: &[u8; 64]) -> (outcome:
    Result<(), DevnetEvidenceError>)
    ensures
        outcome == outcome_of(
            unless(encoded.is_queried(*expected), DevnetEvidenceError::InvalidTransaction),
        ),
{
    match encoded.queried(expected) {
        Some(_) => Ok(()),
        None => Err(DevnetEvidenceError::InvalidTransaction),
    }
}

/// Checks that the cluster is the one that evidence is of.
pub fn check_genesis(genesis: &str) -> (outcome: Result<(), DevnetEvidenceError>)
    ensures
        outcome == outcome_of(
            unless(genesis@ == DEVNET_GENESIS_HASH@, DevnetEvidenceError::WrongGenesis),
        ),
{
    if same_text(genesis, DEVNET_GENESIS_HASH) {
        Ok(())
    } else {
        Err(DevnetEvidenceError::WrongGenesis)
    }
}

/// What the cluster reports of a signature.
#[derive(Clone, Copy, Debug, PartialEq, Eq, Structural)]
pub struct StatusRead {
    pub slot: u64,
    pub finalized: bool,
    pub failed: bool,
}

/// What the cluster reports of a signature, and the slot and the transaction that it gives for it,
/// where it gives one.
pub struct FetchedAnswer {
    pub status: Option<StatusRead>,
    pub given: Option<(u64, FetchedTransaction)>,
}

/// Why a reported and fetched transaction is refused, where it is: its signature is none, the cluster
/// does not report it or does not give it, or what it gives does not decode, or is not the one that
/// was asked for.
pub open spec fn answer_refusal(signature: Seq<char>, answer: FetchedAnswer) -> Option<
    DevnetEvidenceError,
> {
    match signature_decoded(signature) {
        None => Some(DevnetEvidenceError::InvalidPublicField),
        Some(expected) => match (answer.status, answer.given) {
            (Some(_), Some((_, fetched))) => match fetched.encoded {
                Some(encoded) => unless(
                    encoded.is_queried(expected),
                    DevnetEvidenceError::InvalidTransaction,
                ),
                None => Some(DevnetEvidenceError::InvalidTransaction),
            },
            _ => Some(DevnetEvidenceError::MissingTransaction),
        },
    }
}

/// Whether a snapshot takes down a reported and fetched transaction.
pub open spec fn takes_down(
    snapshot: FinalizedTransactionSnapshotV1,
    signature: Seq<char>,
    answer: FetchedAnswer,
) -> bool {
    let status = answer.status.unwrap();
    &&& snapshot.signature@ == signature
    &&& snapshot.slot == answer.given.unwrap().0
    &&& snapshot.status_slot == status.slot
    &&& snapshot.finalized == status.finalized
    &&& snapshot.succeeded == !status.failed
}

/// Takes down a transaction: the status that the cluster reports of its signature, and the slot of
/// the transaction that the cluster gives for it.
pub fn snapshot_transaction(signature: &str, answer: &FetchedAnswer) -> (snapshot: Result<
    FinalizedTransactionSnapshotV1,
    DevnetEvidenceError,
>)
    ensures
        match snapshot {
            Ok(snapshot) => answer_refusal(signature@, *answer) is None && takes_down(
                snapshot,
                signature@,
                *answer,
            ),
            Err(error) => answer_refusal(signature@, *answer) == Some(error),
        },
{
    let expected = match signature_from_text(signature) {
        Some(expected) => expected,
        None => {
            return Err(DevnetEvidenceError::InvalidPublicField);
        },
    };
    let (status, slot, fetched) = match (&answer.status, &answer.given) {
        (Some(status), Some((slot, fetched))) => (status, *slot, fetched),
        _ => {
            return Err(DevnetEvidenceError::MissingTransaction);
        },
    };
    let encoded = match &fetched.encoded {
        Some(encoded) => encoded,
        None => {
            return Err(DevnetEvidenceError::InvalidTransaction);
        },
    };
    match verify_queried_transaction(encoded, &expected) {
        Ok(_) => {},
        Err(error) => {
            return Err(error);
        },
    }
    Ok(
        FinalizedTransactionSnapshotV1 {
            signature: copy_text(signature),
            slot,
            status_slot: status.slot,
            finalized: status.finalized,
            succeeded: !status.failed,
        },
    )
}

/// The accounts that evidence names for an observer, where it names all of them.
pub open spec fn observed_accounts(evidence: DevnetEvidenceContentV1) -> Option<
    KagebObserverAccounts,
> {
    let accounts = evidence.accounts;
    match (
        (
            pubkey_decoded(accounts.fee_payer@),
            pubkey_decoded(accounts.operator@),
            pubkey_decoded(accounts.pool@),
            pubkey_decoded(accounts.epoch@),
            pubkey_decoded(accounts.vault_authority@),
            pubkey_decoded(accounts.pool_base_vault@),
        ),
        (
            pubkey_decoded(accounts.pool_quote_vault@),
            pubkey_decoded(accounts.venue_authority@),
            pubkey_decoded(accounts.venue_base_account@),
            pubkey_decoded(accounts.venue_quote_account@),
            pubkey_decoded(accounts.base_mint@),
            pubkey_decoded(accounts.quote_mint@),
        ),
    ) {
        (
            (
                Some(fee_payer),
                Some(payer),
                Some(pool),
                Some(epoch),
                Some(vault_authority),
                Some(pool_base_vault),
            ),
            (
                Some(pool_quote_vault),
                Some(venue_authority),
                Some(venue_base_account),
                Some(venue_quote_account),
                Some(base_mint),
                Some(quote_mint),
            ),
        ) => Some(
            KagebObserverAccounts {
                fee_payer,
                payer,
                pool,
                epoch,
                vault_authority,
                pool_base_vault,
                pool_quote_vault,
                venue_authority,
                venue_base_account,
                venue_quote_account,
                base_mint,
                quote_mint,
                base_lot_atoms: evidence.configuration.base_lot_atoms,
                quote_atoms_per_lot: evidence.configuration.quote_atoms_per_lot,
            },
        ),
        _ => None,
    }
}

/// The accounts that evidence names for an observer.
pub fn observer_accounts(evidence: &DevnetEvidenceContentV1) -> (accounts: Result<
    KagebObserverAccounts,
    DevnetEvidenceError,
>)
    ensures
        accounts == (match observed_accounts(*evidence) {
            Some(accounts) => Ok::<KagebObserverAccounts, _>(accounts),
            None => Err(DevnetEvidenceError::InvalidPublicField),
        }),
{
    let accounts = &evidence.accounts;
    match (
        (
            pubkey_from_text(accounts.fee_payer.as_str()),
            pubkey_from_text(accounts.operator.as_str()),
            pubkey_from_text(accounts.pool.as_str()),
            pubkey_from_text(accounts.epoch.as_str()),
            pubkey_from_text(accounts.vault_authority.as_str()),
            pubkey_from_text(accounts.pool_base_vault.as_str()),
        ),
        (
            pubkey_from_text(accounts.pool_quote_vault.as_str()),
            pubkey_from_text(accounts.venue_authority.as_str()),
            pubkey_from_text(accounts.venue_base_account.as_str()),
            pubkey_from_text(accounts.venue_quote_account.as_str()),
            pubkey_from_text(accounts.base_mint.as_str()),
            pubkey_from_text(accounts.quote_mint.as_str()),
        ),
    ) {
        (
            (
                Some(fee_payer),
                Some(payer),
                Some(pool),
                Some(epoch),
                Some(vault_authority),
                Some(pool_base_vault),
            ),
            (
                Some(pool_quote_vault),
                Some(venue_authority),
                Some(venue_base_account),
                Some(venue_quote_account),
                Some(base_mint),
                Some(quote_mint),
            ),
        ) => Ok(
            KagebObserverAccounts {
                fee_payer,
                payer,
                pool,
                epoch,
                vault_authority,
                pool_base_vault,
                pool_quote_vault,
                venue_authority,
                venue_base_account,
                venue_quote_account,
                base_mint,
                quote_mint,
                base_lot_atoms: evidence.configuration.base_lot_atoms,
                quote_atoms_per_lot: evidence.configuration.quote_atoms_per_lot,
            },
        ),
        _ => Err(DevnetEvidenceError::InvalidPublicField),
    }
}

/// The token accounts of an epoch, each before and after its settlement: the pool's base and quote,
/// then the venue's.
pub open spec fn shown_balance(
    keys: Seq<[u8; 32]>,
    before: Seq<TokenBalanceRead>,
    after: Seq<TokenBalanceRead>,
    evidence: DevnetEvidenceContentV1,
    token_program: Seq<u8>,
    i: int,
) -> Result<u64, DevnetEvidenceError> {
    let accounts = evidence.accounts;
    let list = if i % 2 == 0 {
        before
    } else {
        after
    };
    if i < 2 {
        named_balance(
            list,
            keys,
            accounts.pool_base_vault@,
            accounts.base_mint@,
            accounts.vault_authority@,
            token_program,
        )
    } else if i < 4 {
        named_balance(
            list,
            keys,
            accounts.pool_quote_vault@,
            accounts.quote_mint@,
            accounts.vault_authority@,
            token_program,
        )
    } else if i < 6 {
        named_balance(
            list,
            keys,
            accounts.venue_base_account@,
            accounts.base_mint@,
            accounts.venue_authority@,
            token_program,
        )
    } else {
        named_balance(
            list,
            keys,
            accounts.venue_quote_account@,
            accounts.quote_mint@,
            accounts.venue_authority@,
            token_program,
        )
    }
}

fn show_balance(
    keys: &[[u8; 32]],
    before: &[TokenBalanceRead],
    after: &[TokenBalanceRead],
    evidence: &DevnetEvidenceContentV1,
    token_program: &[u8; 32],
    i: usize,
) -> (amount: Result<u64, DevnetEvidenceError>)
    requires
        i < 8,
    ensures
        amount == shown_balance(keys@, before@, after@, *evidence, token_program@, i as int),
{
    let accounts = &evidence.accounts;
    let list = if i % 2 == 0 {
        before
    } else {
        after
    };
    if i < 2 {
        token_balance_at(
            list,
            keys,
            accounts.pool_base_vault.as_str(),
            accounts.base_mint.as_str(),
            accounts.vault_authority.as_str(),
            token_program,
        )
    } else if i < 4 {
        token_balance_at(
            list,
            keys,
            accounts.pool_quote_vault.as_str(),
            accounts.quote_mint.as_str(),
            accounts.vault_authority.as_str(),
            token_program,
        )
    } else if i < 6 {
        token_balance_at(
            list,
            keys,
            accounts.venue_base_account.as_str(),
            accounts.base_mint.as_str(),
            accounts.venue_authority.as_str(),
            token_program,
        )
    } else {
        token_balance_at(
            list,
            keys,
            accounts.venue_quote_account.as_str(),
            accounts.quote_mint.as_str(),
            accounts.venue_authority.as_str(),
            token_program,
        )
    }
}

/// The refusals of the eight balances, one for each.
pub open spec fn balance_refusals(
    keys: Seq<[u8; 32]>,
    before: Seq<TokenBalanceRead>,
    after: Seq<TokenBalanceRead>,
    evidence: DevnetEvidenceContentV1,
    token_program: Seq<u8>,
) -> spec_fn(int) -> Option<DevnetEvidenceError> {
    |i: int|
        match shown_balance(keys, before, after, evidence, token_program, i) {
            Ok(_) => None,
            Err(error) => Some(error),
        }
}

/// Why balances are refused, where they are, for the keys of a transaction.
pub open spec fn amounts_refusal(
    keys: Seq<[u8; 32]>,
    before: Seq<TokenBalanceRead>,
    after: Seq<TokenBalanceRead>,
    evidence: DevnetEvidenceContentV1,
    token_program: Seq<u8>,
) -> Option<DevnetEvidenceError> {
    first_refusal(balance_refusals(keys, before, after, evidence, token_program), 8)
}

/// The amounts that balances show, for the keys of a transaction.
pub open spec fn amounts_shown(
    keys: Seq<[u8; 32]>,
    before: Seq<TokenBalanceRead>,
    after: Seq<TokenBalanceRead>,
    evidence: DevnetEvidenceContentV1,
    token_program: Seq<u8>,
) -> EvidenceTokenBalancesV1 {
    let shown = |i: int| shown_balance(keys, before, after, evidence, token_program, i).unwrap();
    EvidenceTokenBalancesV1 {
        pool_base_before: shown(0),
        pool_base_after: shown(1),
        pool_quote_before: shown(2),
        pool_quote_after: shown(3),
        venue_base_before: shown(4),
        venue_base_after: shown(5),
        venue_quote_before: shown(6),
        venue_quote_after: shown(7),
    }
}

/// The amounts that balances show, for the keys of a transaction.
pub fn settlement_amounts(
    keys: &[[u8; 32]],
    before: &[TokenBalanceRead],
    after: &[TokenBalanceRead],
    evidence: &DevnetEvidenceContentV1,
    token_program: &[u8; 32],
) -> (balances: Result<EvidenceTokenBalancesV1, DevnetEvidenceError>)
    ensures
        balances == (match amounts_refusal(keys@, before@, after@, *evidence, token_program@) {
            Some(error) => Err::<EvidenceTokenBalancesV1, _>(error),
            None => Ok(amounts_shown(keys@, before@, after@, *evidence, token_program@)),
        }),
{
    let ghost refusals = balance_refusals(
        keys@,
        before@,
        after@,
        *evidence,
        token_program@,
    );
    let mut amounts: Vec<u64> = Vec::new();
    let mut i: usize = 0;
    while i < 8
        invariant
            i <= 8,
            refusals == balance_refusals(
                keys@,
                before@,
                after@,
                *evidence,
                token_program@,
            ),
            first_refusal(refusals, i as nat) is None,
            amounts@.len() == i,
            forall|k: int|
                0 <= k < i ==> #[trigger] amounts@[k] == shown_balance(
                    keys@,
                    before@,
                    after@,
                    *evidence,
                    token_program@,
                    k,
                ).unwrap(),
        decreases 8 - i,
    {
        match show_balance(
            keys,
            before,
            after,
            evidence,
            token_program,
            i,
        ) {
            Ok(amount) => {
                assert(refusals(i as int) is None);
                amounts.push(amount);
            },
            Err(error) => {
                proof {
                    assert(refusals(i as int) == Some(error));
                    lemma_first_refusal(refusals, i as nat, 8);
                }
                return Err(error);
            },
        }
        i += 1;
    }
    Ok(
        EvidenceTokenBalancesV1 {
            pool_base_before: amounts[0],
            pool_base_after: amounts[1],
            pool_quote_before: amounts[2],
            pool_quote_after: amounts[3],
            venue_base_before: amounts[4],
            venue_base_after: amounts[5],
            venue_quote_before: amounts[6],
            venue_quote_after: amounts[7],
        },
    )
}

/// Why the balances that a settlement shows are refused, where they are.
pub open spec fn balances_refusal(
    settlement: FetchedTransaction,
    evidence: DevnetEvidenceContentV1,
    token_program: Seq<u8>,
) -> Option<DevnetEvidenceError> {
    if !settlement.has_status || settlement.observed() is None || settlement.before is None
        || settlement.after is None {
        Some(DevnetEvidenceError::InvalidTransaction)
    } else {
        amounts_refusal(
            settlement.observed().unwrap().keys,
            settlement.before.unwrap()@,
            settlement.after.unwrap()@,
            evidence,
            token_program,
        )
    }
}

/// The balances that a settlement shows.
pub open spec fn balances_shown(
    settlement: FetchedTransaction,
    evidence: DevnetEvidenceContentV1,
    token_program: Seq<u8>,
) -> EvidenceTokenBalancesV1 {
    amounts_shown(
        settlement.observed().unwrap().keys,
        settlement.before.unwrap()@,
        settlement.after.unwrap()@,
        evidence,
        token_program,
    )
}

/// The balances that a settlement shows.
pub fn transaction_token_balances(
    settlement: &FetchedTransaction,
    evidence: &DevnetEvidenceContentV1,
    token_program: &[u8; 32],
) -> (balances: Result<EvidenceTokenBalancesV1, DevnetEvidenceError>)
    ensures
        balances == (match balances_refusal(*settlement, *evidence, token_program@) {
            Some(error) => Err::<EvidenceTokenBalancesV1, _>(error),
            None => Ok(balances_shown(*settlement, *evidence, token_program@)),
        }),
{
    if !settlement.has_status {
        return Err(DevnetEvidenceError::InvalidTransaction);
    }
    match (settlement.observe(), &settlement.before, &settlement.after) {
        (Some(transaction), Some(before), Some(after)) => settlement_amounts(
            transaction.keys(),
            before.as_slice(),
            after.as_slice(),
            evidence,
            token_program,
        ),
        _ => Err(DevnetEvidenceError::InvalidTransaction),
    }
}

/// The sources that the first fundings use.
pub open spec fn used_sources(evidence: DevnetEvidenceContentV1, n: nat) -> Seq<[u8; 32]>
    decreases n,
{
    if n == 0 {
        Seq::empty()
    } else {
        let legs = funding_legs(evidence, evidence.transactions.funding@[n - 1]).unwrap();
        used_sources(evidence, (n - 1) as nat).push(legs.0.source).push(legs.1.source)
    }
}

/// The refusals of the fetched fundings, one for each.
pub open spec fn fetched_funding_refusals(
    fundings: Seq<&FetchedTransaction>,
    evidence: DevnetEvidenceContentV1,
    token_program: [u8; 32],
) -> spec_fn(int) -> Option<DevnetEvidenceError> {
    |i: int|
        funding_decode_refusal(
            *fundings[i],
            evidence.transactions.funding@[i],
            evidence,
            used_sources(evidence, i as nat),
            token_program,
        )
}

/// What the first fundings say.
pub open spec fn fundings_say(n: nat, token_program: Seq<u8>) -> Seq<InstructionFields>
    decreases n,
{
    if n == 0 {
        Seq::empty()
    } else {
        fundings_say((n - 1) as nat, token_program) + funding_entries((n - 1) as nat, token_program)
    }
}

/// Why the fetched transactions of an epoch are refused, where they are.
pub open spec fn fetched_refusal(
    fundings: Seq<&FetchedTransaction>,
    lock: FetchedTransaction,
    settlement: FetchedTransaction,
    evidence: DevnetEvidenceContentV1,
    ids: ProgramIds,
) -> Option<DevnetEvidenceError> {
    either(
        first_refusal(fetched_funding_refusals(fundings, evidence, ids.token_program), 4),
        match observed_accounts(evidence) {
            None => Some(DevnetEvidenceError::InvalidPublicField),
            Some(accounts) => either(
                unless(
                    confirmed_trace(lock, settlement, accounts, ids) is Ok,
                    DevnetEvidenceError::InvalidTransaction,
                ),
                either(
                    call_decode_refusal(lock, "lock"@, evidence, ids),
                    either(
                        call_decode_refusal(settlement, "settlement"@, evidence, ids),
                        balances_refusal(settlement, evidence, ids.token_program@),
                    ),
                ),
            ),
        },
    )
}

/// What the fetched transactions of an epoch say: the fundings, the lock and the settlement.
pub open spec fn fetched_instructions(
    lock: FetchedTransaction,
    settlement: FetchedTransaction,
    evidence: DevnetEvidenceContentV1,
    ids: ProgramIds,
) -> Seq<InstructionFields> {
    fundings_say(4, ids.token_program@) + decoded_call(
        lock.observed().unwrap(),
        "lock"@,
        evidence,
        ids,
    ) + decoded_call(settlement.observed().unwrap(), "settlement"@, evidence, ids)
}

fn append_decoded(
    out: &mut Vec<DecodedInstructionEvidenceV1>,
    more: Vec<DecodedInstructionEvidenceV1>,
)
    ensures
        instruction_fields(final(out)@) == instruction_fields(old(out)@) + instruction_fields(
            more@,
        ),
{
    let mut more = more;
    let ghost added = more@;
    out.append(&mut more);
    assert(out@ =~= old(out)@ + added);
    assert(instruction_fields(out@) =~= instruction_fields(old(out)@) + instruction_fields(added));
}

/// Decodes the fetched transactions of an epoch.
pub fn decode_transactions(
    fundings: &[&FetchedTransaction; 4],
    lock: &FetchedTransaction,
    settlement: &FetchedTransaction,
    evidence: &DevnetEvidenceContentV1,
    ids: &ProgramIds,
) -> (decoded: Result<
    (Vec<DecodedInstructionEvidenceV1>, EvidenceTokenBalancesV1),
    DevnetEvidenceError,
>)
    ensures
        match decoded {
            Ok((decoded, balances)) => {
                &&& fetched_refusal(
                    fundings@,
                    *lock,
                    *settlement,
                    *evidence,
                    *ids,
                ) is None
                &&& instruction_fields(decoded@) == fetched_instructions(
                    *lock,
                    *settlement,
                    *evidence,
                    *ids,
                )
                &&& balances == balances_shown(*settlement, *evidence, ids.token_program@)
            },
            Err(error) => fetched_refusal(
                fundings@,
                *lock,
                *settlement,
                *evidence,
                *ids,
            ) == Some(error),
        },
{
    let ghost refusals = fetched_funding_refusals(fundings@, *evidence, ids.token_program);
    let mut decoded: Vec<DecodedInstructionEvidenceV1> = Vec::new();
    let mut used: Vec<[u8; 32]> = Vec::new();
    let mut i: usize = 0;
    assert(instruction_fields(decoded@) =~= fundings_say(0, ids.token_program@));
    while i < 4
        invariant
            i <= 4,
            refusals == fetched_funding_refusals(fundings@, *evidence, ids.token_program),
            first_refusal(refusals, i as nat) is None,
            used@ == used_sources(*evidence, i as nat),
            instruction_fields(decoded@) == fundings_say(i as nat, ids.token_program@),
        decreases 4 - i,
    {
        match decode_funding_transaction(
            fundings[i],
            i,
            &evidence.transactions.funding[i],
            evidence,
            &mut used,
            &ids.token_program,
        ) {
            Ok(more) => {
                assert(refusals(i as int) is None);
                append_decoded(&mut decoded, more);
            },
            Err(error) => {
                proof {
                    assert(refusals(i as int) == Some(error));
                    lemma_first_refusal(refusals, i as nat, 4);
                }
                return Err(error);
            },
        }
        i += 1;
    }
    let accounts = match observer_accounts(evidence) {
        Ok(accounts) => accounts,
        Err(error) => {
            return Err(error);
        },
    };
    if PublicTrace::from_confirmed_kageb(lock, settlement, &accounts, ids).is_err() {
        return Err(DevnetEvidenceError::InvalidTransaction);
    }
    match decode_kageb_transaction(lock, "lock", evidence, ids) {
        Ok(more) => append_decoded(&mut decoded, more),
        Err(error) => {
            return Err(error);
        },
    }
    match decode_kageb_transaction(settlement, "settlement", evidence, ids) {
        Ok(more) => append_decoded(&mut decoded, more),
        Err(error) => {
            return Err(error);
        },
    }
    match transaction_token_balances(settlement, evidence, &ids.token_program) {
        Ok(balances) => Ok((decoded, balances)),
        Err(error) => Err(error),
    }
}

/// The refusals of the signatures that evidence names, one for each transaction.
pub open spec fn signature_refusals(evidence: DevnetEvidenceContentV1) -> spec_fn(int) -> Option<
    DevnetEvidenceError,
> {
    |i: int|
        unless(
            signature_decoded(transaction_of(evidence, i).signature@) is Some,
            DevnetEvidenceError::InvalidPublicField,
        )
}

/// The signatures that evidence names, in the order of its transactions.
pub fn evidence_signatures(evidence: &DevnetEvidenceContentV1) -> (signatures: Result<
    Vec<[u8; 64]>,
    DevnetEvidenceError,
>)
    ensures
        match signatures {
            Ok(signatures) => signatures@.len() == 6 && forall|i: int|
                0 <= i < 6 ==> signature_decoded(transaction_of(*evidence, i).signature@) == Some(
                    #[trigger] signatures@[i],
                ),
            Err(error) => first_refusal(signature_refusals(*evidence), 6) == Some(error),
        },
{
    let ghost refusals = signature_refusals(*evidence);
    let mut signatures: Vec<[u8; 64]> = Vec::new();
    let mut i: usize = 0;
    while i < 6
        invariant
            i <= 6,
            refusals == signature_refusals(*evidence),
            first_refusal(refusals, i as nat) is None,
            signatures@.len() == i,
            forall|k: int|
                0 <= k < i ==> signature_decoded(transaction_of(*evidence, k).signature@) == Some(
                    #[trigger] signatures@[k],
                ),
        decreases 6 - i,
    {
        match signature_from_text(transaction_at(evidence, i).signature.as_str()) {
            Some(signature) => {
                assert(refusals(i as int) is None);
                signatures.push(signature);
            },
            None => {
                proof {
                    assert(refusals(i as int) == Some(DevnetEvidenceError::InvalidPublicField));
                    lemma_first_refusal(refusals, i as nat, 6);
                }
                return Err(DevnetEvidenceError::InvalidPublicField);
            },
        }
        i += 1;
    }
    Ok(signatures)
}

/// The refusals of the answers for the transactions of evidence, one for each.
pub open spec fn answer_refusals(
    answers: Seq<FetchedAnswer>,
    evidence: DevnetEvidenceContentV1,
) -> spec_fn(int) -> Option<DevnetEvidenceError> {
    |i: int| answer_refusal(transaction_of(evidence, i).signature@, answers[i])
}

/// The fundings that answers give.
pub open spec fn given_fundings<'a>(answers: Seq<FetchedAnswer>) -> Seq<&'a FetchedTransaction> {
    Seq::new(4, |i: int| &answers[i].given.unwrap().1)
}

/// Why the answers for the transactions of evidence are refused, where they are: first the answers
/// one by one, then what the transactions that they give say together.
pub open spec fn epoch_refusal(
    answers: Seq<FetchedAnswer>,
    evidence: DevnetEvidenceContentV1,
    ids: ProgramIds,
) -> Option<DevnetEvidenceError> {
    either(
        first_refusal(answer_refusals(answers, evidence), 6),
        fetched_refusal(
            given_fundings(answers),
            answers[4].given.unwrap().1,
            answers[5].given.unwrap().1,
            evidence,
            ids,
        ),
    )
}

/// The transactions of an epoch, taken down and decoded.
pub struct EpochTaken {
    pub transactions: Vec<FinalizedTransactionSnapshotV1>,
    pub decoded: Vec<DecodedInstructionEvidenceV1>,
    pub balances: EvidenceTokenBalancesV1,
}

/// Whether transactions are taken down and decoded as answers give them.
pub open spec fn takes_epoch(
    taken: EpochTaken,
    answers: Seq<FetchedAnswer>,
    evidence: DevnetEvidenceContentV1,
    ids: ProgramIds,
) -> bool {
    let lock = answers[4].given.unwrap().1;
    let settlement = answers[5].given.unwrap().1;
    &&& taken.transactions@.len() == 6
    &&& forall|i: int|
        0 <= i < 6 ==> takes_down(
            #[trigger] taken.transactions@[i],
            transaction_of(evidence, i).signature@,
            answers[i],
        )
    &&& instruction_fields(taken.decoded@) == fetched_instructions(lock, settlement, evidence, ids)
    &&& taken.balances == balances_shown(settlement, evidence, ids.token_program@)
}

#[verifier::spinoff_prover]
fn take_snapshots(answers: &[FetchedAnswer; 6], evidence: &DevnetEvidenceContentV1) -> (taken: Result<
    Vec<FinalizedTransactionSnapshotV1>,
    DevnetEvidenceError,
>)
    ensures
        match taken {
            Ok(transactions) => {
                &&& first_refusal(answer_refusals(answers@, *evidence), 6) is None
                &&& transactions@.len() == 6
                &&& forall|k: int|
                    0 <= k < 6 ==> takes_down(
                        #[trigger] transactions@[k],
                        transaction_of(*evidence, k).signature@,
                        answers@[k],
                    )
                &&& forall|k: int| 0 <= k < 6 ==> (#[trigger] answers@[k]).given is Some
            },
            Err(error) => first_refusal(answer_refusals(answers@, *evidence), 6) == Some(error),
        },
{
    let ghost refusals = answer_refusals(answers@, *evidence);
    let mut transactions: Vec<FinalizedTransactionSnapshotV1> = Vec::new();
    let mut i: usize = 0;
    while i < 6
        invariant
            i <= 6,
            refusals == answer_refusals(answers@, *evidence),
            first_refusal(refusals, i as nat) is None,
            transactions@.len() == i,
            forall|k: int|
                0 <= k < i ==> takes_down(
                    #[trigger] transactions@[k],
                    transaction_of(*evidence, k).signature@,
                    answers@[k],
                ),
            forall|k: int| 0 <= k < i ==> (#[trigger] answers@[k]).given is Some,
        decreases 6 - i,
    {
        let named = transaction_at(evidence, i);
        match snapshot_transaction(named.signature.as_str(), &answers[i]) {
            Ok(snapshot) => {
                assert(refusals(i as int) is None);
                transactions.push(snapshot);
            },
            Err(error) => {
                proof {
                    assert(refusals(i as int) == Some(error));
                    lemma_first_refusal(refusals, i as nat, 6);
                }
                return Err(error);
            },
        }
        i += 1;
    }
    Ok(transactions)
}

/// Takes down and decodes the transactions of an epoch. The transaction that is decoded is the one
/// whose signatures were checked.
#[verifier::spinoff_prover]
#[verifier::rlimit(60)]
pub fn take_epoch(
    answers: &[FetchedAnswer; 6],
    evidence: &DevnetEvidenceContentV1,
    ids: &ProgramIds,
) -> (taken: Result<EpochTaken, DevnetEvidenceError>)
    ensures
        match taken {
            Ok(taken) => epoch_refusal(answers@, *evidence, *ids) is None && takes_epoch(
                taken,
                answers@,
                *evidence,
                *ids,
            ),
            Err(error) => epoch_refusal(answers@, *evidence, *ids) == Some(error),
        },
{
    let transactions = match take_snapshots(answers, evidence) {
        Ok(transactions) => transactions,
        Err(error) => {
            return Err(error);
        },
    };
    match (
        &answers[0].given,
        &answers[1].given,
        &answers[2].given,
        &answers[3].given,
        &answers[4].given,
        &answers[5].given,
    ) {
        (
            Some((_, first)),
            Some((_, second)),
            Some((_, third)),
            Some((_, fourth)),
            Some((_, lock)),
            Some((_, settlement)),
        ) => {
            let fundings = [first, second, third, fourth];
            assert(fundings@ =~= given_fundings(answers@));
            match decode_transactions(&fundings, lock, settlement, evidence, ids) {
                Ok((decoded, balances)) => Ok(EpochTaken { transactions, decoded, balances }),
                Err(error) => Err(error),
            }
        },
        _ => Err(DevnetEvidenceError::MissingTransaction),
    }
}

} // verus!
