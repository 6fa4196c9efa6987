//! Evidence of a run, put together from what the run saw.

use crate::encodings::{pubkey_decoded, pubkey_text, pubkey_to_text};
use crate::evidence::{
    first_refusal, hex_digest, DevnetEvidenceContentV1, DevnetEvidenceError, EvidenceAccountsV1,
    EvidenceBuildToolchainV1, EvidenceCommitmentsV1, EvidenceConfigurationV1, EvidenceDeploymentV1,
    EvidenceTokenBalancesV1, EvidenceTransactionV1, EvidenceTransactionsV1,
    FundingTransactionEvidenceV1, InstructionFields,
};
use crate::evidence_checks::{
    explorer_link, explorer_link_text, links_match, transaction_at, transaction_of,
    ExtractedUpgradeableProgramV1,
};

use crate::evidence_snapshot::fundings_say;
use crate::evidence_state::{
    allowlist_refusal, carries_nothing, instruction_fields, instruction_refusals, kind_count,
};
use crate::hash::{digest_of, sha256};
use crate::observer::{KagebObserverAccounts, ProgramIds};
use crate::run::{canonical_allowlist, canonical_devnet_allowlist};
use crate::text::{copy_text, hex};
use vstd::prelude::*;
use vstd::string::*;

verus! {

/// A funding that a run saw: who paid it, from where, and the transaction.
pub struct FundingSeen {
    pub authority: [u8; 32],
    pub base_source: [u8; 32],
    pub quote_source: [u8; 32],
    pub transaction: EvidenceTransactionV1,
}

/// What a run saw of its epoch.
pub struct RunSeen {
    pub public_commit: String,
    pub build_toolchain: EvidenceBuildToolchainV1,
    pub artifact: Vec<u8>,
    pub programdata: [u8; 32],
    pub loader: [u8; 32],
    pub deployed: ExtractedUpgradeableProgramV1,
    pub funding: [FundingSeen; 4],
    pub lock: EvidenceTransactionV1,
    pub settlement: EvidenceTransactionV1,
    pub accounts: KagebObserverAccounts,
    pub epoch_id: [u8; 32],
    pub keypers: [[u8; 32]; 3],
    pub configuration_hash: [u8; 32],
    pub pre_balance_root: [u8; 32],
    pub member_root: [u8; 32],
    pub lock_digest: [u8; 32],
    pub result_commitment: [u8; 32],
    pub settlement_digest: [u8; 32],
    pub transcript: Vec<u8>,
    pub before: [u64; 4],
    pub after: [u64; 4],
}

/// Whether two transactions are the same.
pub open spec fn same_transaction(a: EvidenceTransactionV1, b: EvidenceTransactionV1) -> bool {
    a.signature@ == b.signature@ && a.slot == b.slot
}

/// Whether text names a key in its canonical form.
pub open spec fn names(text: String, key: [u8; 32]) -> bool {
    text@ == pubkey_text(key@) && pubkey_decoded(text@) == Some(key)
}

/// Whether the deployment in evidence is the one that a run saw.
pub open spec fn deployment_told(
    deployment: EvidenceDeploymentV1,
    seen: RunSeen,
    program: [u8; 32],
) -> bool {
    &&& names(deployment.program, program)
    &&& names(deployment.loader, seen.loader)
    &&& names(deployment.programdata, seen.programdata)
    &&& deployment.deployment_slot == seen.deployed.deployment_slot
    &&& match (deployment.upgrade_authority, seen.deployed.upgrade_authority) {
        (Some(text), Some(key)) => names(text, key),
        (None, None) => true,
        _ => false,
    }
    &&& deployment.deployed_executable_sha256@ == seen.deployed.executable_sha256@
}

/// Whether the transactions in evidence are those that a run saw.
pub open spec fn transactions_told(transactions: EvidenceTransactionsV1, seen: RunSeen) -> bool {
    &&& forall|i: int|
        0 <= i < 4 ==> {
            let told = #[trigger] transactions.funding@[i];
            &&& names(told.authority, seen.funding@[i].authority)
            &&& names(told.base_source, seen.funding@[i].base_source)
            &&& names(told.quote_source, seen.funding@[i].quote_source)
            &&& same_transaction(told.transaction, seen.funding@[i].transaction)
        }
    &&& same_transaction(transactions.lock, seen.lock)
    &&& same_transaction(transactions.settlement, seen.settlement)
}

/// Whether the accounts in evidence are those that a run saw.
pub open spec fn accounts_told(
    told: EvidenceAccountsV1,
    seen: KagebObserverAccounts,
    token_program: [u8; 32],
) -> bool {
    &&& names(told.fee_payer, seen.fee_payer)
    &&& names(told.operator, seen.payer)
    &&& names(told.pool, seen.pool)
    &&& names(told.epoch, seen.epoch)
    &&& names(told.vault_authority, seen.vault_authority)
    &&& names(told.base_mint, seen.base_mint)
    &&& names(told.quote_mint, seen.quote_mint)
    &&& names(told.pool_base_vault, seen.pool_base_vault)
    &&& names(told.pool_quote_vault, seen.pool_quote_vault)
    &&& names(told.venue_authority, seen.venue_authority)
    &&& names(told.venue_base_account, seen.venue_base_account)
    &&& names(told.venue_quote_account, seen.venue_quote_account)
    &&& names(told.token_program, token_program)
}

/// Whether the terms in evidence are those that a run saw: four members, and two of three keypers.
pub open spec fn configuration_told(told: EvidenceConfigurationV1, seen: RunSeen) -> bool {
    &&& told.epoch_id@ == hex(seen.epoch_id@)
    &&& told.minimum_count == 4
    &&& told.member_count == 4
    &&& told.lock_threshold == 2
    &&& told.settlement_threshold == 2
    &&& names(told.keypers@[0], seen.keypers@[0])
    &&& names(told.keypers@[1], seen.keypers@[1])
    &&& names(told.keypers@[2], seen.keypers@[2])
    &&& told.base_lot_atoms == seen.accounts.base_lot_atoms
    &&& told.quote_atoms_per_lot == seen.accounts.quote_atoms_per_lot
}

/// Whether the commitments in evidence are those that a run saw.
pub open spec fn commitments_told(told: EvidenceCommitmentsV1, seen: RunSeen) -> bool {
    &&& told.configuration_hash@ == hex(seen.configuration_hash@)
    &&& told.pre_balance_root@ == hex(seen.pre_balance_root@)
    &&& told.member_set@ == hex(seen.member_root@)
    &&& told.lock_digest@ == hex(seen.lock_digest@)
    &&& told.result@ == hex(seen.result_commitment@)
    &&& told.settlement_digest@ == hex(seen.settlement_digest@)
    &&& told.local_transcript_sha256@ == hex(sha256(seen.transcript@)@)
}

/// The token balances that a run saw.
pub open spec fn balances_seen(seen: RunSeen) -> EvidenceTokenBalancesV1 {
    EvidenceTokenBalancesV1 {
        pool_base_before: seen.before@[0],
        pool_base_after: seen.after@[0],
        pool_quote_before: seen.before@[1],
        pool_quote_after: seen.after@[1],
        venue_base_before: seen.before@[2],
        venue_base_after: seen.after@[2],
        venue_quote_before: seen.before@[3],
        venue_quote_after: seen.after@[3],
    }
}

/// Whether evidence tells what a run saw.
pub open spec fn content_told(content: DevnetEvidenceContentV1, seen: RunSeen, ids: ProgramIds) -> bool {
    &&& content.cluster@ == "devnet"@
    &&& content.public_commit@ == seen.public_commit@
    &&& content.build_toolchain.solana_verify@ == seen.build_toolchain.solana_verify@
    &&& content.build_toolchain.build_image@ == seen.build_toolchain.build_image@
    &&& content.checkpoint_artifact_len == seen.artifact@.len()
    &&& content.checkpoint_artifact_sha256@ == hex(sha256(seen.artifact@)@)
    &&& deployment_told(content.deployment, seen, ids.program)
    &&& transactions_told(content.transactions, seen)
    &&& accounts_told(content.accounts, seen.accounts, ids.token_program)
    &&& configuration_told(content.configuration, seen)
    &&& commitments_told(content.commitments, seen)
    &&& content.token_balances == balances_seen(seen)
    &&& instruction_fields(content.decoded_allowlist@) == canonical_allowlist(content, ids)
    &&& links_match(content)
}

fn copy_transaction(transaction: &EvidenceTransactionV1) -> (copy: EvidenceTransactionV1)
    ensures
        same_transaction(copy, *transaction),
{
    EvidenceTransactionV1 {
        signature: copy_text(transaction.signature.as_str()),
        slot: transaction.slot,
    }
}

fn tell_funding(seen: &FundingSeen) -> (told: FundingTransactionEvidenceV1)
    ensures
        names(told.authority, seen.authority),
        names(told.base_source, seen.base_source),
        names(told.quote_source, seen.quote_source),
        same_transaction(told.transaction, seen.transaction),
{
    FundingTransactionEvidenceV1 {
        authority: pubkey_to_text(&seen.authority),
        base_source: pubkey_to_text(&seen.base_source),
        quote_source: pubkey_to_text(&seen.quote_source),
        transaction: copy_transaction(&seen.transaction),
    }
}

fn tell_transactions(seen: &RunSeen) -> (told: EvidenceTransactionsV1)
    ensures
        transactions_told(told, *seen),
{
    EvidenceTransactionsV1 {
        funding: [
            tell_funding(&seen.funding[0]),
            tell_funding(&seen.funding[1]),
            tell_funding(&seen.funding[2]),
            tell_funding(&seen.funding[3]),
        ],
        lock: copy_transaction(&seen.lock),
        settlement: copy_transaction(&seen.settlement),
    }
}

fn tell_accounts(seen: &KagebObserverAccounts, token_program: &[u8; 32]) -> (told: EvidenceAccountsV1)
    ensures
        accounts_told(told, *seen, *token_program),
{
    EvidenceAccountsV1 {
        fee_payer: pubkey_to_text(&seen.fee_payer),
        operator: pubkey_to_text(&seen.payer),
        pool: pubkey_to_text(&seen.pool),
        epoch: pubkey_to_text(&seen.epoch),
        vault_authority: pubkey_to_text(&seen.vault_authority),
        base_mint: pubkey_to_text(&seen.base_mint),
        quote_mint: pubkey_to_text(&seen.quote_mint),
        pool_base_vault: pubkey_to_text(&seen.pool_base_vault),
        pool_quote_vault: pubkey_to_text(&seen.pool_quote_vault),
        venue_authority: pubkey_to_text(&seen.venue_authority),
        venue_base_account: pubkey_to_text(&seen.venue_base_account),
        venue_quote_account: pubkey_to_text(&seen.venue_quote_account),
        token_program: pubkey_to_text(token_program),
    }
}

fn tell_deployment(seen: &RunSeen, program: &[u8; 32]) -> (told: EvidenceDeploymentV1)
    ensures
        deployment_told(told, *seen, *program),
{
    EvidenceDeploymentV1 {
        program: pubkey_to_text(program),
        loader: pubkey_to_text(&seen.loader),
        programdata: pubkey_to_text(&seen.programdata),
        deployment_slot: seen.deployed.deployment_slot,
        upgrade_authority: match &seen.deployed.upgrade_authority {
            Some(key) => Some(pubkey_to_text(key)),
            None => None,
        },
        deployed_executable_sha256: copy_text(seen.deployed.executable_sha256.as_str()),
    }
}

fn tell_configuration(seen: &RunSeen) -> (told: EvidenceConfigurationV1)
    ensures
        configuration_told(told, *seen),
{
    EvidenceConfigurationV1 {
        epoch_id: hex_digest(seen.epoch_id.as_slice()),
        minimum_count: 4,
        member_count: 4,
        lock_threshold: 2,
        settlement_threshold: 2,
        keypers: [
            pubkey_to_text(&seen.keypers[0]),
            pubkey_to_text(&seen.keypers[1]),
            pubkey_to_text(&seen.keypers[2]),
        ],
        base_lot_atoms: seen.accounts.base_lot_atoms,
        quote_atoms_per_lot: seen.accounts.quote_atoms_per_lot,
    }
}

fn tell_commitments(seen: &RunSeen) -> (told: EvidenceCommitmentsV1)
    ensures
        commitments_told(told, *seen),
{
    EvidenceCommitmentsV1 {
        configuration_hash: hex_digest(seen.configuration_hash.as_slice()),
        pre_balance_root: hex_digest(seen.pre_balance_root.as_slice()),
        member_set: hex_digest(seen.member_root.as_slice()),
        lock_digest: hex_digest(seen.lock_digest.as_slice()),
        result: hex_digest(seen.result_commitment.as_slice()),
        settlement_digest: hex_digest(seen.settlement_digest.as_slice()),
        local_transcript_sha256: hex_digest(digest_of(seen.transcript.as_slice()).as_slice()),
    }
}

/// Puts evidence together from what a run saw.
pub fn tell(seen: &RunSeen, ids: &ProgramIds) -> (content: DevnetEvidenceContentV1)
    ensures
        content_told(content, *seen, *ids),
{
    let digest = digest_of(seen.artifact.as_slice());
    let mut content = DevnetEvidenceContentV1 {
        cluster: copy_text("devnet"),
        public_commit: copy_text(seen.public_commit.as_str()),
        build_toolchain: EvidenceBuildToolchainV1 {
            solana_verify: copy_text(seen.build_toolchain.solana_verify.as_str()),
            build_image: copy_text(seen.build_toolchain.build_image.as_str()),
        },
        checkpoint_artifact_len: seen.artifact.len(),
        checkpoint_artifact_sha256: hex_digest(digest.as_slice()),
        deployment: tell_deployment(seen, &ids.program),
        transactions: tell_transactions(seen),
        accounts: tell_accounts(&seen.accounts, &ids.token_program),
        configuration: tell_configuration(seen),
        commitments: tell_commitments(seen),
        token_balances: EvidenceTokenBalancesV1 {
            pool_base_before: seen.before[0],
            pool_base_after: seen.after[0],
            pool_quote_before: seen.before[1],
            pool_quote_after: seen.after[1],
            venue_base_before: seen.before[2],
            venue_base_after: seen.after[2],
            venue_quote_before: seen.before[3],
            venue_quote_after: seen.after[3],
        },
        decoded_allowlist: Vec::new(),
        explorer_links: Vec::new(),
    };
    let list = canonical_devnet_allowlist(&content, ids);
    let ghost bare = content;
    content.decoded_allowlist = list;
    let mut links: Vec<String> = Vec::new();
    let mut i: usize = 0;
    while i < 6
        invariant
            i <= 6,
            links@.len() == i,
            forall|k: int|
                0 <= k < i ==> (#[trigger] links@[k])@ == explorer_link(
                    transaction_of(content, k).signature@,
                ),
        decreases 6 - i,
    {
        links.push(explorer_link_text(transaction_at(&content, i).signature.as_str()));
        i += 1;
    }
    let ghost listed = content;
    content.explorer_links = links;
    proof {
        assert forall|k: int| 0 <= k < 6 implies (#[trigger] content.explorer_links@[k])@
            == explorer_link(transaction_of(content, k).signature@) by {
            assert(transaction_of(content, k) == transaction_of(listed, k));
            assert(links@[k]@ == explorer_link(transaction_of(listed, k).signature@));
        }
        assert(canonical_allowlist(content, *ids) == canonical_allowlist(bare, *ids));
    }
    content
}

proof fn lemma_count_joined(a: Seq<InstructionFields>, b: Seq<InstructionFields>, kind: Seq<char>)
    ensures
        kind_count(a + b, kind) == kind_count(a, kind) + kind_count(b, kind),
    decreases b.len(),
{
    if b.len() == 0 {
        assert(a + b =~= a);
    } else {
        assert((a + b).drop_last() =~= a + b.drop_last());
        lemma_count_joined(a, b.drop_last(), kind);
    }
}

proof fn lemma_kinds_differ()
    ensures
        "pool-funding-base"@.len() == 17,
        "pool-funding-quote"@.len() == 18,
        "keyper-lock-approval"@.len() == 20,
        "epoch-lock"@.len() == 10,
        "keyper-settlement-approval"@.len() == 26,
        "aggregate-settlement"@.len() == 20,
        "aggregate-quote-leg"@.len() == 19,
        "aggregate-base-leg"@.len() == 18,
        "keyper-lock-approval"@ != "aggregate-settlement"@,
        "pool-funding-quote"@ != "aggregate-base-leg"@,
{
    reveal_strlit("pool-funding-base");
    reveal_strlit("pool-funding-quote");
    reveal_strlit("keyper-lock-approval");
    reveal_strlit("epoch-lock");
    reveal_strlit("keyper-settlement-approval");
    reveal_strlit("aggregate-settlement");
    reveal_strlit("aggregate-quote-leg");
    reveal_strlit("aggregate-base-leg");
    assert("keyper-lock-approval"@[0] != "aggregate-settlement"@[0]);
    assert("pool-funding-quote"@[0] != "aggregate-base-leg"@[0]);
}

proof fn lemma_fundings(n: nat, token_program: Seq<u8>)
    ensures
        fundings_say(n, token_program).len() == 2 * n,
        forall|i: int|
            0 <= i < 2 * n ==> (#[trigger] fundings_say(n, token_program)[i]).digest is None && (
            fundings_say(n, token_program)[i].kind == "pool-funding-base"@ || fundings_say(
                n,
                token_program,
            )[i].kind == "pool-funding-quote"@),
    decreases n,
{
    if n > 0 {
        lemma_fundings((n - 1) as nat, token_program);
    }
}

proof fn lemma_absent_kind(list: Seq<InstructionFields>, kind: Seq<char>)
    requires
        forall|i: int| 0 <= i < list.len() ==> (#[trigger] list[i]).kind != kind,
    ensures
        kind_count(list, kind) == 0,
    decreases list.len(),
{
    if list.len() > 0 {
        assert(list[list.len() - 1].kind != kind);
        lemma_absent_kind(list.drop_last(), kind);
    }
}

proof fn lemma_none_of_them(
    refusals: spec_fn(int) -> Option<DevnetEvidenceError>,
    n: nat,
)
    requires
        forall|i: int| 0 <= i < n ==> #[trigger] refusals(i) is None,
    ensures
        first_refusal(refusals, n) is None,
    decreases n,
{
    if n > 0 {
        lemma_none_of_them(refusals, (n - 1) as nat);
        assert(refusals(n - 1) is None);
    }
}

/// What a run tells of its instructions is what evidence may list: evidence that is told passes the
/// check of its instructions, where the chain shows the same.
#[verifier::spinoff_prover]
#[verifier::rlimit(60)]
pub proof fn law_told_instructions_are_allowed(
    content: DevnetEvidenceContentV1,
    seen: RunSeen,
    ids: ProgramIds,
)
    requires
        content_told(content, seen, ids),
    ensures
        allowlist_refusal(content, instruction_fields(content.decoded_allowlist@), 2) is None,
{
    let list = canonical_allowlist(content, ids);
    let fundings = fundings_say(4, ids.token_program@);
    let calls = list.skip(8);
    lemma_kinds_differ();
    lemma_fundings(4, ids.token_program@);
    assert(list =~= fundings + calls);
    lemma_told_counts(fundings, calls, content, ids);
    crate::evidence::law_digest_text_round_trip(seen.lock_digest@);
    crate::evidence::law_digest_text_round_trip(seen.settlement_digest@);
    let refusals = instruction_refusals(content, list);
    assert forall|i: int| 0 <= i < list.len() implies #[trigger] refusals(i) is None by {
        if i < 8 {
            assert(list[i] == fundings[i]);
            assert(carries_nothing(list[i].kind));
        } else {
            assert(list[i] == calls[i - 8]);
        }
    }
    lemma_none_of_them(refusals, list.len());
}

#[verifier::spinoff_prover]
#[verifier::rlimit(60)]
proof fn lemma_told_counts(
    fundings: Seq<InstructionFields>,
    calls: Seq<InstructionFields>,
    content: DevnetEvidenceContentV1,
    ids: ProgramIds,
)
    requires
        fundings == fundings_say(4, ids.token_program@),
        calls == canonical_allowlist(content, ids).skip(8),
    ensures
        calls.len() == 8,
        kind_count(fundings + calls, "aggregate-settlement"@) == 1,
        kind_count(fundings + calls, "keyper-lock-approval"@) == 2,
        kind_count(fundings + calls, "keyper-settlement-approval"@) == 2,
{
    lemma_kinds_differ();
    lemma_fundings(4, ids.token_program@);
    lemma_count_joined(fundings, calls, "aggregate-settlement"@);
    lemma_count_joined(fundings, calls, "keyper-lock-approval"@);
    lemma_count_joined(fundings, calls, "keyper-settlement-approval"@);
    lemma_absent_kind(fundings, "aggregate-settlement"@);
    lemma_absent_kind(fundings, "keyper-lock-approval"@);
    lemma_absent_kind(fundings, "keyper-settlement-approval"@);
    reveal_with_fuel(kind_count, 9);
    assert(calls.len() == 8);
    assert(calls[0].kind == "keyper-lock-approval"@);
    assert(calls[1].kind == "keyper-lock-approval"@);
    assert(calls[2].kind == "epoch-lock"@);
    assert(calls[3].kind == "keyper-settlement-approval"@);
    assert(calls[4].kind == "keyper-settlement-approval"@);
    assert(calls[5].kind == "aggregate-settlement"@);
    assert(calls[6].kind == "aggregate-quote-leg"@);
    assert(calls[7].kind == "aggregate-base-leg"@);
}

/// What is told of a run is what the run saw: each account by its own name, each amount of its own account
/// before and after, each commitment as its own digest, and each transaction in its place.
pub proof fn law_told_evidence_is_what_was_seen(
    content: DevnetEvidenceContentV1,
    seen: RunSeen,
    ids: ProgramIds,
    i: int,
)
    requires
        content_told(content, seen, ids),
        0 <= i < 4,
    ensures
        content.cluster@ == "devnet"@,
        content.public_commit@ == seen.public_commit@,
        content.checkpoint_artifact_len == seen.artifact@.len(),
        content.checkpoint_artifact_sha256@ == hex(sha256(seen.artifact@)@),
        ({
            let told = content.deployment;
            &&& told.program@ == pubkey_text(ids.program@)
            &&& told.loader@ == pubkey_text(seen.loader@)
            &&& told.programdata@ == pubkey_text(seen.programdata@)
            &&& told.deployment_slot == seen.deployed.deployment_slot
            &&& told.upgrade_authority is Some <==> seen.deployed.upgrade_authority is Some
            &&& told.upgrade_authority matches Some(text) ==> text@ == pubkey_text(
                seen.deployed.upgrade_authority.unwrap()@,
            )
            &&& told.deployed_executable_sha256@ == seen.deployed.executable_sha256@
        }),
        ({
            let told = content.transactions;
            &&& told.funding@[i].authority@ == pubkey_text(seen.funding@[i].authority@)
            &&& told.funding@[i].base_source@ == pubkey_text(seen.funding@[i].base_source@)
            &&& told.funding@[i].quote_source@ == pubkey_text(seen.funding@[i].quote_source@)
            &&& told.funding@[i].transaction.signature@
                == seen.funding@[i].transaction.signature@
            &&& told.funding@[i].transaction.slot == seen.funding@[i].transaction.slot
            &&& told.lock.signature@ == seen.lock.signature@
            &&& told.lock.slot == seen.lock.slot
            &&& told.settlement.signature@ == seen.settlement.signature@
            &&& told.settlement.slot == seen.settlement.slot
        }),
        ({
            let told = content.accounts;
            &&& told.fee_payer@ == pubkey_text(seen.accounts.fee_payer@)
            &&& told.operator@ == pubkey_text(seen.accounts.payer@)
            &&& told.pool@ == pubkey_text(seen.accounts.pool@)
            &&& told.epoch@ == pubkey_text(seen.accounts.epoch@)
            &&& told.vault_authority@ == pubkey_text(seen.accounts.vault_authority@)
            &&& told.base_mint@ == pubkey_text(seen.accounts.base_mint@)
            &&& told.quote_mint@ == pubkey_text(seen.accounts.quote_mint@)
            &&& told.pool_base_vault@ == pubkey_text(seen.accounts.pool_base_vault@)
            &&& told.pool_quote_vault@ == pubkey_text(seen.accounts.pool_quote_vault@)
            &&& told.venue_authority@ == pubkey_text(seen.accounts.venue_authority@)
            &&& told.venue_base_account@ == pubkey_text(seen.accounts.venue_base_account@)
            &&& told.venue_quote_account@ == pubkey_text(seen.accounts.venue_quote_account@)
            &&& told.token_program@ == pubkey_text(ids.token_program@)
        }),
        ({
            let told = content.configuration;
            &&& told.epoch_id@ == hex(seen.epoch_id@)
            &&& told.minimum_count == 4
            &&& told.member_count == 4
            &&& told.lock_threshold == 2
            &&& told.settlement_threshold == 2
            &&& i < 3 ==> told.keypers@[i]@ == pubkey_text(seen.keypers@[i]@)
            &&& told.base_lot_atoms == seen.accounts.base_lot_atoms
            &&& told.quote_atoms_per_lot == seen.accounts.quote_atoms_per_lot
        }),
        ({
            let told = content.commitments;
            &&& told.configuration_hash@ == hex(seen.configuration_hash@)
            &&& told.pre_balance_root@ == hex(seen.pre_balance_root@)
            &&& told.member_set@ == hex(seen.member_root@)
            &&& told.lock_digest@ == hex(seen.lock_digest@)
            &&& told.result@ == hex(seen.result_commitment@)
            &&& told.settlement_digest@ == hex(seen.settlement_digest@)
            &&& told.local_transcript_sha256@ == hex(sha256(seen.transcript@)@)
        }),
        ({
            let told = content.token_balances;
            &&& told.pool_base_before == seen.before@[0]
            &&& told.pool_quote_before == seen.before@[1]
            &&& told.venue_base_before == seen.before@[2]
            &&& told.venue_quote_before == seen.before@[3]
            &&& told.pool_base_after == seen.after@[0]
            &&& told.pool_quote_after == seen.after@[1]
            &&& told.venue_base_after == seen.after@[2]
            &&& told.venue_quote_after == seen.after@[3]
        }),
        instruction_fields(content.decoded_allowlist@) == canonical_allowlist(content, ids),
{
    assert(content.transactions.funding@[i].authority@ == pubkey_text(
        seen.funding@[i].authority@,
    ));
}

} // verus!
