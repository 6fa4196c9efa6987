//! What verified evidence says, check by check.

use crate::bytes::zeros;
use crate::encodings::{derived_address, pubkey_decoded, signature_decoded};
use crate::evidence::{
    digest_named, first_refusal, loader_id, nibble, optional_text, DevnetEvidenceBundleV1,
    DevnetEvidenceContentV1, DevnetEvidenceError, InstructionFields,
};
use crate::evidence_checks::{
    deployment_refusal, fields_refusal, funding_refusal, funding_refusals, reported, source_of,
    source_refusal, transaction_of, transaction_refusal, transaction_refusals,
    transactions_refusal, DevnetPublicSnapshotV1, FinalizedTransactionSnapshotV1,
};
use crate::evidence_state::{
    allowlist_refusal, evidence_refusal, instruction_fields, instruction_refusal,
    instruction_refusals, kind_count, state_refusal, token_account_refusal,
    token_account_refusals, tokens_refusal, DerivedAccounts, ProgramReads,
};
use crate::hash::sha256;
use crate::program::{EpochStateV1, EpochTerminalState, PoolStateV1};
use crate::text::hex;
use crate::tokens::{is_token_account, mint_of};
use vstd::bytes::{spec_u32_from_le_bytes, spec_u64_from_le_bytes};
use vstd::prelude::*;
use vstd::string::*;
use vstd::utf8::encode_utf8;

verus! {

/// A row of checks passes exactly where each of them does.
pub proof fn lemma_all_pass(refusals: spec_fn(int) -> Option<DevnetEvidenceError>, n: nat)
    ensures
        first_refusal(refusals, n) is None <==> (forall|i: int|
            0 <= i < n ==> #[trigger] refusals(i) is None),
    decreases n,
{
    if n > 0 {
        lemma_all_pass(refusals, (n - 1) as nat);
        assert(refusals(n - 1) is None || refusals(n - 1) is Some);
    }
}

/// Evidence is verified where it is sealed in the first schema, its seal is the digest of its encoding,
/// and each of its parts passes its own check; and only there.
pub proof fn law_evidence_is_verified_part_by_part(
    bundle: DevnetEvidenceBundleV1,
    encoded: Seq<u8>,
    snapshot: DevnetPublicSnapshotV1,
    artifact: Seq<u8>,
    reads: ProgramReads,
)
    ensures
        evidence_refusal(bundle, encoded, snapshot, artifact, reads) is None <==> {
            &&& bundle.schema_version == 1
            &&& bundle.evidence_sha256@ == hex(
                sha256(encode_utf8("KAGEB_EVIDENCE_BUNDLE_V1\0"@) + encoded)@,
            )
            &&& fields_refusal(bundle.content, artifact, reads.program@, reads.token_program@) is None
            &&& deployment_refusal(bundle.content, snapshot, artifact) is None
            &&& transactions_refusal(bundle.content, snapshot.transactions@) is None
            &&& funding_refusal(bundle.content) is None
            &&& reads.pool is Some
            &&& reads.epoch is Some
            &&& state_refusal(
                bundle.content,
                snapshot,
                reads.program@,
                reads.pool,
                reads.epoch,
                reads.derived,
            ) is None
            &&& tokens_refusal(
                bundle.content,
                snapshot,
                reads.token_program@,
                reads.epoch.unwrap(),
            ) is None
            &&& allowlist_refusal(
                bundle.content,
                instruction_fields(snapshot.decoded_allowlist@),
                reads.pool.unwrap().settlement_threshold,
            ) is None
        },
{
}

/// The public fields pass where the cluster is devnet, the commit is forty hexadecimal digits, length and
/// digest are those of the artifact, the toolchain is named in printable text, the program, the token
/// program, the loader and the program's data account are those expected, and each transaction has its
/// explorer link.
pub proof fn law_public_fields_are_exact(
    evidence: DevnetEvidenceContentV1,
    artifact: Seq<u8>,
    program: Seq<u8>,
    token_program: Seq<u8>,
)
    ensures
        fields_refusal(evidence, artifact, program, token_program) is None <==> {
            let commit = encode_utf8(evidence.public_commit@);
            let tool = encode_utf8(evidence.build_toolchain.solana_verify@);
            let image = encode_utf8(evidence.build_toolchain.build_image@);
            let funding = evidence.transactions.funding@;
            let links = evidence.explorer_links@;
            &&& evidence.cluster@ == "devnet"@
            &&& commit.len() == 40
            &&& forall|i: int|
                0 <= i < 40 ==> 48 <= #[trigger] commit[i] <= 57 || 65 <= commit[i] <= 70 || 97
                    <= commit[i] <= 102
            &&& evidence.checkpoint_artifact_len == artifact.len()
            &&& digest_named(evidence.checkpoint_artifact_sha256@) == Some(sha256(artifact)@)
            &&& 1 <= tool.len() <= 128
            &&& forall|i: int| 0 <= i < tool.len() ==> 32 <= #[trigger] tool[i] <= 126
            &&& 1 <= image.len() <= 128
            &&& forall|i: int| 0 <= i < image.len() ==> 32 <= #[trigger] image[i] <= 126
            &&& pubkey_decoded(evidence.deployment.program@) is Some
            &&& pubkey_decoded(evidence.deployment.program@).unwrap()@ == program
            &&& pubkey_decoded(evidence.accounts.token_program@) is Some
            &&& pubkey_decoded(evidence.accounts.token_program@).unwrap()@ == token_program
            &&& pubkey_decoded(evidence.deployment.loader@) is Some
            &&& pubkey_decoded(evidence.deployment.loader@).unwrap()@ == loader_id()
            &&& derived_address(program, loader_id()) is Some
            &&& pubkey_decoded(evidence.deployment.programdata@) == derived_address(
                program,
                loader_id(),
            )
            &&& links.len() == 6
            &&& forall|i: int|
                0 <= i < 4 ==> (#[trigger] links[i])@ == "https://explorer.solana.com/tx/"@
                    + funding[i].transaction.signature@ + "?cluster=devnet"@
            &&& links[4]@ == "https://explorer.solana.com/tx/"@
                + evidence.transactions.lock.signature@ + "?cluster=devnet"@
            &&& links[5]@ == "https://explorer.solana.com/tx/"@
                + evidence.transactions.settlement.signature@ + "?cluster=devnet"@
        },
{
    let commit = encode_utf8(evidence.public_commit@);
    let links = evidence.explorer_links@;
    assert((forall|i: int| 0 <= i < commit.len() ==> nibble(#[trigger] commit[i]) is Some) <==> (
    forall|i: int|
        0 <= i < commit.len() ==> 48 <= #[trigger] commit[i] <= 57 || 65 <= commit[i] <= 70 || 97
            <= commit[i] <= 102)) by {
        assert forall|b: u8|
            #![auto]
            nibble(b) is Some <==> 48 <= b <= 57 || 65 <= b <= 70 || 97 <= b <= 102 by {}
        if forall|i: int| 0 <= i < commit.len() ==> nibble(#[trigger] commit[i]) is Some {
            assert forall|i: int| 0 <= i < commit.len() implies 48 <= #[trigger] commit[i] <= 57
                || 65 <= commit[i] <= 70 || 97 <= commit[i] <= 102 by {
                assert(nibble(commit[i]) is Some);
            }
        }
    }
    if pubkey_decoded(evidence.deployment.programdata@) is Some && derived_address(
        program,
        loader_id(),
    ) is Some {
        let a = pubkey_decoded(evidence.deployment.programdata@).unwrap();
        let b = derived_address(program, loader_id()).unwrap();
        if a@ == b@ {
            assert(a =~= b);
        }
    }
    assert forall|i: int| 0 <= i < 4 implies (#[trigger] transaction_of(evidence, i))
        == evidence.transactions.funding@[i].transaction by {}
    assert(transaction_of(evidence, 4) == evidence.transactions.lock);
    assert(transaction_of(evidence, 5) == evidence.transactions.settlement);
    if links.len() == 6 && (forall|i: int|
        0 <= i < 4 ==> (#[trigger] links[i])@ == "https://explorer.solana.com/tx/"@
            + evidence.transactions.funding@[i].transaction.signature@ + "?cluster=devnet"@)
        && links[4]@ == "https://explorer.solana.com/tx/"@
        + evidence.transactions.lock.signature@ + "?cluster=devnet"@ && links[5]@
        == "https://explorer.solana.com/tx/"@ + evidence.transactions.settlement.signature@
        + "?cluster=devnet"@ {
        assert forall|i: int| 0 <= i < 6 implies (#[trigger] links[i])@
            == crate::evidence_checks::explorer_link(
            transaction_of(evidence, i).signature@,
        ) by {
            if i == 4 || i == 5 {
            }
        }
    }
}

/// A deployment passes where the program's account is executable and of the upgradeable loader, names
/// the data account, that account is of the loader too and not executable, holds the slot and the upgrade
/// authority that evidence names, and behind its forty-five bytes of metadata the very artifact, an ELF,
/// with nothing but zeros after it.
pub proof fn law_deployment_is_exact(
    evidence: DevnetEvidenceContentV1,
    snapshot: DevnetPublicSnapshotV1,
    artifact: Seq<u8>,
)
    ensures
        deployment_refusal(evidence, snapshot, artifact) is None <==> {
            let size = evidence.checkpoint_artifact_len as int;
            let program = snapshot.program.data@;
            let data = snapshot.programdata.data@;
            &&& pubkey_decoded(evidence.deployment.programdata@) == Some(
                snapshot.programdata_address,
            )
            &&& snapshot.program.owner@ == loader_id()
            &&& snapshot.program.executable
            &&& program.len() >= 36
            &&& spec_u32_from_le_bytes(program.subrange(0, 4)) == 2
            &&& program.subrange(4, 36) == snapshot.programdata_address@
            &&& snapshot.programdata.owner@ == loader_id()
            &&& !snapshot.programdata.executable
            &&& data.len() >= 45 + size
            &&& spec_u32_from_le_bytes(data.subrange(0, 4)) == 3
            &&& spec_u64_from_le_bytes(data.subrange(4, 12)) == evidence.deployment.deployment_slot
            &&& match evidence.deployment.upgrade_authority {
                Some(text) => data[12] == 1 && pubkey_decoded(text@) is Some && pubkey_decoded(
                    text@,
                ).unwrap()@ == data.subrange(13, 45),
                None => data[12] == 0,
            }
            &&& data.subrange(45, 45 + size) == artifact
            &&& artifact.len() >= 4
            &&& artifact[0] == 0x7f
            &&& artifact[1] == 69
            &&& artifact[2] == 76
            &&& artifact[3] == 70
            &&& forall|i: int| 45 + size <= i < data.len() ==> #[trigger] data[i] == 0
            &&& evidence.deployment.deployed_executable_sha256@ == hex(sha256(artifact)@)
            &&& evidence.checkpoint_artifact_sha256@ == hex(sha256(artifact)@)
        },
{
    let size = evidence.checkpoint_artifact_len as int;
    let data = snapshot.programdata.data@;
    let text = evidence.deployment.programdata@;
    if pubkey_decoded(text) is Some && pubkey_decoded(text).unwrap()@
        == snapshot.programdata_address@ {
        assert(pubkey_decoded(text).unwrap() =~= snapshot.programdata_address);
    }
    if data.len() >= 45 {
        let metadata = data.take(45);
        assert(metadata.subrange(0, 4) =~= data.subrange(0, 4));
        assert(metadata.subrange(4, 12) =~= data.subrange(4, 12));
        assert(metadata[12] == data[12]);
    }
    if data.len() >= 45 + size {
        let tail = data.skip(45 + size);
        let none = zeros((data.len() - 45 - size) as nat);
        if tail == none {
            assert forall|i: int| 45 + size <= i < data.len() implies #[trigger] data[i] == 0 by {
                assert(tail[i - 45 - size] == none[i - 45 - size]);
            }
        }
        if forall|i: int| 45 + size <= i < data.len() ==> #[trigger] data[i] == 0 {
            assert(tail =~= none);
        }
    }
}

/// Transactions pass where each of the six has a signature of its own, the chain reports exactly six
/// that are final and succeeded in the slots that evidence names, and they come in order: the deployment,
/// then every funding, then the lock, then the settlement.
pub proof fn law_transactions_are_exact(
    evidence: DevnetEvidenceContentV1,
    snapshots: Seq<FinalizedTransactionSnapshotV1>,
)
    ensures
        transactions_refusal(evidence, snapshots) is None <==> {
            &&& snapshots.len() == 6
            &&& evidence.deployment.deployment_slot < evidence.transactions.lock.slot
            &&& evidence.transactions.lock.slot < evidence.transactions.settlement.slot
            &&& forall|i: int|
                0 <= i < 4 ==> evidence.deployment.deployment_slot < (
                #[trigger] evidence.transactions.funding@[i]).transaction.slot
                    < evidence.transactions.lock.slot
            &&& forall|i: int|
                0 <= i < 6 ==> {
                    let said = #[trigger] transaction_of(evidence, i);
                    &&& signature_decoded(said.signature@) is Some
                    &&& reported(snapshots, said.signature@) matches Some(shown) && shown.finalized
                        && shown.succeeded && shown.slot == said.slot && shown.status_slot
                        == said.slot
                }
            &&& forall|i: int, j: int|
                0 <= i < j < 6 ==> (#[trigger] transaction_of(evidence, i)).signature@ != (
                #[trigger] transaction_of(evidence, j)).signature@
        },
{
    let refusals = transaction_refusals(evidence, snapshots);
    lemma_all_pass(refusals, 6);
    if first_refusal(refusals, 6) is None {
        assert forall|i: int| 0 <= i < 6 implies ({
            let said = #[trigger] transaction_of(evidence, i);
            &&& signature_decoded(said.signature@) is Some
            &&& reported(snapshots, said.signature@) matches Some(shown) && shown.finalized
                && shown.succeeded && shown.slot == said.slot && shown.status_slot == said.slot
        }) by {
            assert(refusals(i) is None);
            assert(transaction_refusal(evidence, snapshots, i) is None);
        }
        assert forall|i: int, j: int| 0 <= i < j < 6 implies (
        #[trigger] transaction_of(evidence, i)).signature@ != (
        #[trigger] transaction_of(evidence, j)).signature@ by {
            assert(refusals(j) is None);
            assert(transaction_refusal(evidence, snapshots, j) is None);
        }
    }
    if (forall|i: int|
        0 <= i < 6 ==> {
            let said = #[trigger] transaction_of(evidence, i);
            &&& signature_decoded(said.signature@) is Some
            &&& reported(snapshots, said.signature@) matches Some(shown) && shown.finalized
                && shown.succeeded && shown.slot == said.slot && shown.status_slot == said.slot
        }) && (forall|i: int, j: int|
        0 <= i < j < 6 ==> (#[trigger] transaction_of(evidence, i)).signature@ != (
        #[trigger] transaction_of(evidence, j)).signature@) {
        assert forall|i: int| 0 <= i < 6 implies #[trigger] refusals(i) is None by {
            assert(signature_decoded(transaction_of(evidence, i).signature@) is Some);
        }
    }
}

/// The six transactions of evidence are its four fundings in their order, the lock and the settlement.
pub proof fn law_transactions_have_their_places(evidence: DevnetEvidenceContentV1)
    ensures
        transaction_of(evidence, 0) == evidence.transactions.funding@[0].transaction,
        transaction_of(evidence, 1) == evidence.transactions.funding@[1].transaction,
        transaction_of(evidence, 2) == evidence.transactions.funding@[2].transaction,
        transaction_of(evidence, 3) == evidence.transactions.funding@[3].transaction,
        transaction_of(evidence, 4) == evidence.transactions.lock,
        transaction_of(evidence, 5) == evidence.transactions.settlement,
{
}

/// What the chain reports of a signature is the first report that bears it, and nothing where none does.
pub proof fn law_reports_are_found_by_signature(
    snapshots: Seq<FinalizedTransactionSnapshotV1>,
    signature: Seq<char>,
)
    ensures
        match reported(snapshots, signature) {
            Some(shown) => exists|k: int|
                0 <= k < snapshots.len() && #[trigger] snapshots[k] == shown && shown.signature@
                    == signature && forall|j: int|
                    0 <= j < k ==> (#[trigger] snapshots[j]).signature@ != signature,
            None => forall|j: int|
                0 <= j < snapshots.len() ==> (#[trigger] snapshots[j]).signature@ != signature,
        },
    decreases snapshots.len(),
{
    if snapshots.len() > 0 {
        if snapshots[0].signature@ == signature {
            assert(snapshots[0] == reported(snapshots, signature).unwrap());
        } else {
            let rest = snapshots.drop_first();
            law_reports_are_found_by_signature(rest, signature);
            match reported(rest, signature) {
                Some(shown) => {
                    let k = choose|k: int|
                        0 <= k < rest.len() && #[trigger] rest[k] == shown && shown.signature@
                            == signature && forall|j: int|
                            0 <= j < k ==> (#[trigger] rest[j]).signature@ != signature;
                    assert(snapshots[k + 1] == shown);
                    assert forall|j: int| 0 <= j < k + 1 implies (
                    #[trigger] snapshots[j]).signature@ != signature by {
                        if j > 0 {
                            assert(rest[j - 1] == snapshots[j]);
                        }
                    }
                },
                None => {
                    assert forall|j: int| 0 <= j < snapshots.len() implies (
                    #[trigger] snapshots[j]).signature@ != signature by {
                        if j > 0 {
                            assert(rest[j - 1] == snapshots[j]);
                        }
                    }
                },
            }
        }
    }
}

/// Fundings pass where four different wallets, none of them zero, paid from eight different accounts.
pub proof fn law_fundings_are_exact(evidence: DevnetEvidenceContentV1)
    ensures
        funding_refusal(evidence) is None <==> {
            let funding = evidence.transactions.funding@;
            &&& forall|i: int|
                0 <= i < 4 ==> pubkey_decoded((#[trigger] funding[i]).authority@) is Some
                    && pubkey_decoded(funding[i].authority@).unwrap()@ != zeros(32)
                    && pubkey_decoded(funding[i].base_source@) is Some && pubkey_decoded(
                    funding[i].quote_source@,
                ) is Some
            &&& forall|i: int, j: int|
                0 <= i < j < 4 ==> pubkey_decoded((#[trigger] funding[i]).authority@)
                    != pubkey_decoded((#[trigger] funding[j]).authority@)
            &&& forall|i: int, j: int|
                0 <= i < j < 4 ==> pubkey_decoded((#[trigger] funding[i]).base_source@)
                    != pubkey_decoded((#[trigger] funding[j]).base_source@)
            &&& forall|i: int, j: int|
                0 <= i < j < 4 ==> pubkey_decoded((#[trigger] funding[i]).quote_source@)
                    != pubkey_decoded((#[trigger] funding[j]).quote_source@)
            &&& forall|i: int, j: int|
                0 <= i < 4 && 0 <= j < 4 ==> pubkey_decoded((#[trigger] funding[i]).base_source@)
                    != pubkey_decoded((#[trigger] funding[j]).quote_source@)
        },
{
    let funding = evidence.transactions.funding@;
    let refusals = funding_refusals(evidence);
    lemma_all_pass(refusals, 4);
    assert forall|i: int| 0 <= i < 4 implies #[trigger] source_of(evidence, 2 * i)
        == funding[i].base_source@ && source_of(evidence, 2 * i + 1) == funding[i].quote_source@ by {
        assert((2 * i) % 2 == 0 && (2 * i) / 2 == i);
        assert((2 * i + 1) % 2 == 1 && (2 * i + 1) / 2 == i);
    }
    assert forall|s: int| 0 <= s < 8 implies #[trigger] source_of(evidence, s) == (if s % 2 == 0 {
        funding[s / 2].base_source@
    } else {
        funding[s / 2].quote_source@
    }) by {}
    if funding_refusal(evidence) is None {
        assert forall|i: int| 0 <= i < 4 implies refusals(i) is None && #[trigger] source_refusal(
            evidence,
            2 * i,
        ) is None && source_refusal(evidence, 2 * i + 1) is None by {
            assert(refusals(i) is None);
        }
        assert forall|s: int| 0 <= s < 8 implies #[trigger] source_refusal(evidence, s) is None by {
            let i = s / 2;
            assert(source_refusal(evidence, 2 * i) is None);
            assert(s == 2 * i || s == 2 * i + 1);
        }
        assert forall|i: int| 0 <= i < 4 implies pubkey_decoded((#[trigger] funding[i]).authority@) is Some
            && pubkey_decoded(funding[i].authority@).unwrap()@ != zeros(32) && pubkey_decoded(
            funding[i].base_source@,
        ) is Some && pubkey_decoded(funding[i].quote_source@) is Some by {
            assert(refusals(i) is None);
            assert(source_refusal(evidence, 2 * i) is None);
            assert(source_refusal(evidence, 2 * i + 1) is None);
            assert(source_of(evidence, 2 * i) == funding[i].base_source@);
        }
        assert forall|i: int, j: int| 0 <= i < j < 4 implies pubkey_decoded(
            (#[trigger] funding[i]).authority@,
        ) != pubkey_decoded((#[trigger] funding[j]).authority@) by {
            assert(refusals(j) is None);
        }
        assert forall|s: int, t: int|
            0 <= s < t < 8 implies pubkey_decoded(#[trigger] source_of(evidence, s))
            != pubkey_decoded(#[trigger] source_of(evidence, t)) by {
            assert(source_refusal(evidence, t) is None);
        }
        assert forall|i: int, j: int| 0 <= i < j < 4 implies pubkey_decoded(
            (#[trigger] funding[i]).base_source@,
        ) != pubkey_decoded((#[trigger] funding[j]).base_source@) by {
            assert(source_of(evidence, 2 * i) == funding[i].base_source@);
            assert(source_of(evidence, 2 * j) == funding[j].base_source@);
        }
        assert forall|i: int, j: int| 0 <= i < j < 4 implies pubkey_decoded(
            (#[trigger] funding[i]).quote_source@,
        ) != pubkey_decoded((#[trigger] funding[j]).quote_source@) by {
            assert(source_of(evidence, 2 * i) == funding[i].base_source@);
            assert(source_of(evidence, 2 * j) == funding[j].base_source@);
            assert(source_of(evidence, 2 * i + 1) == funding[i].quote_source@);
            assert(source_of(evidence, 2 * j + 1) == funding[j].quote_source@);
        }
        assert forall|i: int, j: int| 0 <= i < 4 && 0 <= j < 4 implies pubkey_decoded(
            (#[trigger] funding[i]).base_source@,
        ) != pubkey_decoded((#[trigger] funding[j]).quote_source@) by {
            assert(source_of(evidence, 2 * i) == funding[i].base_source@);
            assert(source_of(evidence, 2 * j) == funding[j].base_source@);
            assert(source_of(evidence, 2 * j + 1) == funding[j].quote_source@);
        }
    }
    if (forall|i: int|
        0 <= i < 4 ==> pubkey_decoded((#[trigger] funding[i]).authority@) is Some
            && pubkey_decoded(funding[i].authority@).unwrap()@ != zeros(32) && pubkey_decoded(
            funding[i].base_source@,
        ) is Some && pubkey_decoded(funding[i].quote_source@) is Some) && (forall|i: int, j: int|
        0 <= i < j < 4 ==> pubkey_decoded((#[trigger] funding[i]).authority@) != pubkey_decoded(
            (#[trigger] funding[j]).authority@,
        )) && (forall|i: int, j: int|
        0 <= i < j < 4 ==> pubkey_decoded((#[trigger] funding[i]).base_source@) != pubkey_decoded(
            (#[trigger] funding[j]).base_source@,
        )) && (forall|i: int, j: int|
        0 <= i < j < 4 ==> pubkey_decoded((#[trigger] funding[i]).quote_source@) != pubkey_decoded(
            (#[trigger] funding[j]).quote_source@,
        )) && (forall|i: int, j: int|
        0 <= i < 4 && 0 <= j < 4 ==> pubkey_decoded((#[trigger] funding[i]).base_source@)
            != pubkey_decoded((#[trigger] funding[j]).quote_source@)) {
        assert forall|s: int| 0 <= s < 8 implies #[trigger] source_refusal(evidence, s) is None by {
            assert(pubkey_decoded(funding[s / 2].base_source@) is Some);
            assert forall|k: int| 0 <= k < s implies pubkey_decoded(
                #[trigger] source_of(evidence, k),
            ) != pubkey_decoded(source_of(evidence, s)) by {
                let a = funding[k / 2];
                let b = funding[s / 2];
                assert(k / 2 <= s / 2);
                if k / 2 == s / 2 {
                    assert(k % 2 == 0 && s % 2 == 1);
                }
            }
        }
        assert forall|i: int| 0 <= i < 4 implies #[trigger] refusals(i) is None by {
            assert(pubkey_decoded(funding[i].authority@) is Some);
            assert(source_refusal(evidence, 2 * i) is None);
            assert(source_refusal(evidence, 2 * i + 1) is None);
        }
    }
}

/// The program's state passes where its two accounts are the program's, stand at the addresses that it
/// derives, and record what evidence says: the settled epoch of the pool, its four members, its two of
/// three keypers, its lot and price, its accounts and its commitments.
pub proof fn law_program_state_is_exact(
    evidence: DevnetEvidenceContentV1,
    snapshot: DevnetPublicSnapshotV1,
    program: Seq<u8>,
    pool: PoolStateV1,
    epoch: EpochStateV1,
    derived: DerivedAccounts,
)
    ensures
        state_refusal(evidence, snapshot, program, Some(pool), Some(epoch), derived) is None <==> {
            let accounts = evidence.accounts;
            let terms = evidence.configuration;
            let said = evidence.commitments;
            &&& snapshot.pool.owner@ == program
            &&& !snapshot.pool.executable
            &&& snapshot.epoch.owner@ == program
            &&& !snapshot.epoch.executable
            &&& pubkey_decoded(accounts.pool@) == Some(derived.pool.address)
            &&& pubkey_decoded(accounts.pool@) == Some(epoch.pool)
            &&& pubkey_decoded(accounts.epoch@) == Some(derived.epoch.address)
            &&& pubkey_decoded(accounts.vault_authority@) == Some(derived.vault_authority.address)
            &&& pool.pool_bump == derived.pool.bump
            &&& pool.vault_bump == derived.vault_authority.bump
            &&& epoch.epoch_bump == derived.epoch.bump
            &&& pubkey_decoded(accounts.operator@) == Some(pool.operator)
            &&& pubkey_decoded(accounts.base_mint@) == Some(pool.base_mint)
            &&& pubkey_decoded(accounts.quote_mint@) == Some(pool.quote_mint)
            &&& pubkey_decoded(accounts.pool_base_vault@) == Some(pool.pool_base_vault)
            &&& pubkey_decoded(accounts.pool_quote_vault@) == Some(pool.pool_quote_vault)
            &&& pubkey_decoded(accounts.venue_authority@) == Some(pool.venue_authority)
            &&& pubkey_decoded(accounts.venue_base_account@) == Some(pool.venue_base_account)
            &&& pubkey_decoded(accounts.venue_quote_account@) == Some(pool.venue_quote_account)
            &&& digest_named(terms.epoch_id@) == Some(epoch.epoch_id@)
            &&& epoch.terminal_state == EpochTerminalState::Settled
            &&& epoch.settlement_nonce@ != zeros(32)
            &&& epoch.lock_nonce@ != zeros(32)
            &&& terms.member_count == 4
            &&& terms.minimum_count == 4
            &&& epoch.member_count == 4
            &&& epoch.minimum_count == 4
            &&& pubkey_decoded(terms.keypers@[0]@) == Some(pool.keypers@[0])
            &&& pubkey_decoded(terms.keypers@[1]@) == Some(pool.keypers@[1])
            &&& pubkey_decoded(terms.keypers@[2]@) == Some(pool.keypers@[2])
            &&& pool.keypers@[0] != pool.keypers@[1]
            &&& pool.keypers@[0] != pool.keypers@[2]
            &&& pool.keypers@[1] != pool.keypers@[2]
            &&& terms.lock_threshold == 2
            &&& terms.settlement_threshold == 2
            &&& pool.lock_threshold == 2
            &&& pool.settlement_threshold == 2
            &&& terms.base_lot_atoms == pool.base_lot_atoms
            &&& terms.base_lot_atoms == epoch.base_lot_atoms
            &&& terms.quote_atoms_per_lot == epoch.quote_atoms_per_lot
            &&& digest_named(said.configuration_hash@) == Some(epoch.configuration_hash@)
            &&& digest_named(said.pre_balance_root@) == Some(epoch.pre_balance_root@)
            &&& digest_named(said.member_set@) == Some(epoch.member_root@)
            &&& digest_named(said.lock_digest@) == Some(epoch.lock_digest@)
            &&& digest_named(said.result@) == Some(epoch.result_commitment@)
            &&& digest_named(said.settlement_digest@) == Some(epoch.settlement_digest@)
            &&& digest_named(said.local_transcript_sha256@) is Some
        },
        state_refusal(evidence, snapshot, program, None, Some(epoch), derived) is Some,
        state_refusal(evidence, snapshot, program, Some(pool), None, derived) is Some,
{
    let accounts = evidence.accounts;
    lemma_named(accounts.pool@, derived.pool.address);
    lemma_named(accounts.pool@, epoch.pool);
    lemma_named(accounts.epoch@, derived.epoch.address);
    lemma_named(accounts.vault_authority@, derived.vault_authority.address);
    lemma_named(accounts.operator@, pool.operator);
    lemma_named(accounts.base_mint@, pool.base_mint);
    lemma_named(accounts.quote_mint@, pool.quote_mint);
    lemma_named(accounts.pool_base_vault@, pool.pool_base_vault);
    lemma_named(accounts.pool_quote_vault@, pool.pool_quote_vault);
    lemma_named(accounts.venue_authority@, pool.venue_authority);
    lemma_named(accounts.venue_base_account@, pool.venue_base_account);
    lemma_named(accounts.venue_quote_account@, pool.venue_quote_account);
    let keypers = evidence.configuration.keypers@;
    assert((forall|i: int|
        0 <= i < 3 ==> pubkey_decoded((#[trigger] keypers[i])@) == Some(pool.keypers@[i])) <==> (
    pubkey_decoded(keypers[0]@) == Some(pool.keypers@[0]) && pubkey_decoded(keypers[1]@) == Some(
        pool.keypers@[1],
    ) && pubkey_decoded(keypers[2]@) == Some(pool.keypers@[2]))) by {
        if pubkey_decoded(keypers[0]@) == Some(pool.keypers@[0]) && pubkey_decoded(keypers[1]@)
            == Some(pool.keypers@[1]) && pubkey_decoded(keypers[2]@) == Some(pool.keypers@[2]) {
            assert forall|i: int| 0 <= i < 3 implies pubkey_decoded((#[trigger] keypers[i])@)
                == Some(pool.keypers@[i]) by {
                assert(i == 0 || i == 1 || i == 2);
            }
        }
    }
}

proof fn lemma_named(text: Seq<char>, key: [u8; 32])
    ensures
        (pubkey_decoded(text) is Some && pubkey_decoded(text).unwrap()@ == key@) <==> pubkey_decoded(
            text,
        ) == Some(key),
{
    if pubkey_decoded(text) is Some && pubkey_decoded(text).unwrap()@ == key@ {
        assert(pubkey_decoded(text).unwrap() =~= key);
    }
}

/// What verified evidence says of the tokens: where the epoch left lots to buy, the pool received those
/// lots of base from the venue and paid their price in quote; where it left lots to sell, the pool gave
/// those lots of base to the venue and received their price in quote; where it left none, nothing moved.
/// There is no other way for the tokens to move.
pub proof fn law_verified_tokens_moved_by_the_residual(
    bundle: DevnetEvidenceBundleV1,
    encoded: Seq<u8>,
    snapshot: DevnetPublicSnapshotV1,
    artifact: Seq<u8>,
    reads: ProgramReads,
)
    requires
        evidence_refusal(bundle, encoded, snapshot, artifact, reads) is None,
    ensures
        reads.epoch is Some,
        bundle.content.token_balances == snapshot.token_balances,
        ({
            let epoch = reads.epoch.unwrap();
            let moved = snapshot.token_balances;
            let lots = epoch.residual_lots;
            let base = lots * epoch.base_lot_atoms;
            let quote = lots * epoch.quote_atoms_per_lot;
            &&& epoch.base_lot_atoms == bundle.content.configuration.base_lot_atoms
            &&& epoch.quote_atoms_per_lot == bundle.content.configuration.quote_atoms_per_lot
            &&& epoch.residual_side <= 2
            &&& epoch.residual_side == 0 ==> {
                &&& lots == 0
                &&& moved.pool_base_after == moved.pool_base_before
                &&& moved.pool_quote_after == moved.pool_quote_before
                &&& moved.venue_base_after == moved.venue_base_before
                &&& moved.venue_quote_after == moved.venue_quote_before
            }
            &&& epoch.residual_side == 1 ==> {
                &&& lots > 0
                &&& moved.pool_base_after - moved.pool_base_before == base
                &&& moved.venue_base_before - moved.venue_base_after == base
                &&& moved.pool_quote_before - moved.pool_quote_after == quote
                &&& moved.venue_quote_after - moved.venue_quote_before == quote
            }
            &&& epoch.residual_side == 2 ==> {
                &&& lots > 0
                &&& moved.pool_base_before - moved.pool_base_after == base
                &&& moved.venue_base_after - moved.venue_base_before == base
                &&& moved.pool_quote_after - moved.pool_quote_before == quote
                &&& moved.venue_quote_before - moved.venue_quote_after == quote
            }
        }),
{
    let epoch = reads.epoch.unwrap();
    lemma_products(epoch);
}

proof fn lemma_products(epoch: EpochStateV1)
    ensures
        epoch.residual_lots * epoch.base_lot_atoms == epoch.base_lot_atoms * epoch.residual_lots,
        epoch.residual_lots * epoch.quote_atoms_per_lot == epoch.quote_atoms_per_lot
            * epoch.residual_lots,
{
    let lots = epoch.residual_lots as int;
    let lot = epoch.base_lot_atoms as int;
    let price = epoch.quote_atoms_per_lot as int;
    assert(lots * lot == lot * lots) by (nonlinear_arith);
    assert(lots * price == price * lots) by (nonlinear_arith);
}

/// Tokens pass where both mints are fixed, the four accounts are those of the pool and the venue, and the
/// balances that evidence records are those that the chain shows and moved by the residual of the epoch:
/// so the pool that bought has its lots and paid for them, and the pool that sold gave its lots and was
/// paid, and neither is refused.
pub proof fn law_tokens_are_exact(
    evidence: DevnetEvidenceContentV1,
    snapshot: DevnetPublicSnapshotV1,
    token_program: Seq<u8>,
    epoch: EpochStateV1,
)
    ensures
        tokens_refusal(evidence, snapshot, token_program, epoch) is None <==> {
            let said = evidence.token_balances;
            let shown = snapshot.current_token_accounts@;
            let lots = epoch.residual_lots;
            let base = lots * epoch.base_lot_atoms;
            let quote = lots * epoch.quote_atoms_per_lot;
            &&& snapshot.base_mint.owner@ == token_program
            &&& !snapshot.base_mint.executable
            &&& mint_of(snapshot.base_mint.data@) matches Some(mint) && mint.decimals == 0
                && !mint.has_mint_authority && !mint.has_freeze_authority
            &&& snapshot.quote_mint.owner@ == token_program
            &&& !snapshot.quote_mint.executable
            &&& mint_of(snapshot.quote_mint.data@) matches Some(mint) && mint.decimals == 0
                && !mint.has_mint_authority && !mint.has_freeze_authority
            &&& forall|i: int|
                0 <= i < 4 ==> {
                    &&& (#[trigger] shown[i]).owner@ == token_program
                    &&& !shown[i].executable
                    &&& is_token_account(shown[i].data@)
                    &&& shown[i].data@[108] == 1
                    &&& pubkey_decoded(
                        if i == 0 || i == 2 {
                            evidence.accounts.base_mint@
                        } else {
                            evidence.accounts.quote_mint@
                        },
                    ) matches Some(mint) && mint@ == shown[i].data@.subrange(0, 32)
                    &&& pubkey_decoded(
                        if i == 0 || i == 1 {
                            evidence.accounts.vault_authority@
                        } else {
                            evidence.accounts.venue_authority@
                        },
                    ) matches Some(owner) && owner@ == shown[i].data@.subrange(32, 64)
                }
            &&& said == snapshot.token_balances
            &&& said.pool_base_before + said.venue_base_before <= u64::MAX
            &&& said.pool_base_after + said.venue_base_after <= u64::MAX
            &&& said.pool_quote_before + said.venue_quote_before <= u64::MAX
            &&& said.pool_quote_after + said.venue_quote_after <= u64::MAX
            &&& base <= u64::MAX
            &&& quote <= u64::MAX
            &&& {
                ||| epoch.residual_side == 0 && lots == 0 && said.pool_base_after
                    == said.pool_base_before && said.venue_base_after == said.venue_base_before
                    && said.pool_quote_after == said.pool_quote_before && said.venue_quote_after
                    == said.venue_quote_before
                ||| epoch.residual_side == 1 && lots > 0 && said.pool_base_after
                    == said.pool_base_before + base && said.venue_base_after + base
                    == said.venue_base_before && said.pool_quote_after + quote
                    == said.pool_quote_before && said.venue_quote_after == said.venue_quote_before
                    + quote
                ||| epoch.residual_side == 2 && lots > 0 && said.pool_base_after + base
                    == said.pool_base_before && said.venue_base_after == said.venue_base_before
                    + base && said.pool_quote_after == said.pool_quote_before + quote
                    && said.venue_quote_after + quote == said.venue_quote_before
            }
        },
{
    lemma_products(epoch);
    let shown = snapshot.current_token_accounts@;
    let refusals = token_account_refusals(evidence, shown, token_program);
    lemma_all_pass(refusals, 4);
    assert forall|i: int| 0 <= i < 4 implies (#[trigger] refusals(i) is None <==> {
        &&& shown[i].owner@ == token_program
        &&& !shown[i].executable
        &&& is_token_account(shown[i].data@)
        &&& shown[i].data@[108] == 1
        &&& pubkey_decoded(
            if i == 0 || i == 2 {
                evidence.accounts.base_mint@
            } else {
                evidence.accounts.quote_mint@
            },
        ) matches Some(mint) && mint@ == shown[i].data@.subrange(0, 32)
        &&& pubkey_decoded(
            if i == 0 || i == 1 {
                evidence.accounts.vault_authority@
            } else {
                evidence.accounts.venue_authority@
            },
        ) matches Some(owner) && owner@ == shown[i].data@.subrange(32, 64)
    }) by {
        assert(refusals(i) == token_account_refusal(evidence, shown, token_program, i));
    }
    if forall|i: int|
        0 <= i < 4 ==> {
            &&& (#[trigger] shown[i]).owner@ == token_program
            &&& !shown[i].executable
            &&& is_token_account(shown[i].data@)
            &&& shown[i].data@[108] == 1
            &&& pubkey_decoded(
                if i == 0 || i == 2 {
                    evidence.accounts.base_mint@
                } else {
                    evidence.accounts.quote_mint@
                },
            ) matches Some(mint) && mint@ == shown[i].data@.subrange(0, 32)
            &&& pubkey_decoded(
                if i == 0 || i == 1 {
                    evidence.accounts.vault_authority@
                } else {
                    evidence.accounts.venue_authority@
                },
            ) matches Some(owner) && owner@ == shown[i].data@.subrange(32, 64)
        } {
        assert forall|i: int| 0 <= i < 4 implies #[trigger] refusals(i) is None by {
            assert(shown[i].owner@ == token_program);
        }
    } else {
        let i = choose|i: int|
            0 <= i < 4 && !({
                &&& (#[trigger] shown[i]).owner@ == token_program
                &&& !shown[i].executable
                &&& is_token_account(shown[i].data@)
                &&& shown[i].data@[108] == 1
                &&& pubkey_decoded(
                    if i == 0 || i == 2 {
                        evidence.accounts.base_mint@
                    } else {
                        evidence.accounts.quote_mint@
                    },
                ) matches Some(mint) && mint@ == shown[i].data@.subrange(0, 32)
                &&& pubkey_decoded(
                    if i == 0 || i == 1 {
                        evidence.accounts.vault_authority@
                    } else {
                        evidence.accounts.venue_authority@
                    },
                ) matches Some(owner) && owner@ == shown[i].data@.subrange(32, 64)
            });
        assert(!(refusals(i) is None));
    }
}

proof fn lemma_kinds_counted(list: Seq<InstructionFields>, kind: Seq<char>)
    ensures
        kind_count(list, kind) == list.filter(|entry: InstructionFields| entry.kind == kind).len(),
    decreases list.len(),
{
    reveal(Seq::filter);
    if list.len() > 0 {
        lemma_kinds_counted(list.drop_last(), kind);
    }
}

/// Instructions pass where the chain shows those that evidence lists, one settlement among them, as many
/// approvals of the lock and of the settlement as the thresholds ask for, each of the lock's bearing the
/// lock's digest and each of the settlement's the settlement's, and nothing else but fundings and the two
/// legs, which bear none.
pub proof fn law_instructions_are_exact(
    evidence: DevnetEvidenceContentV1,
    shown: Seq<InstructionFields>,
    settlement_threshold: u8,
)
    ensures
        allowlist_refusal(evidence, shown, settlement_threshold) is None <==> {
            &&& shown == evidence.decoded_allowlist@.map_values(
                |entry: crate::evidence::DecodedInstructionEvidenceV1|
                    InstructionFields {
                        transaction: entry.transaction@,
                        position: entry.position,
                        program: entry.program@,
                        kind: entry.kind@,
                        digest: optional_text(entry.digest),
                    },
            )
            &&& shown.filter(
                |entry: InstructionFields| entry.kind == "aggregate-settlement"@,
            ).len() == 1
            &&& shown.filter(
                |entry: InstructionFields| entry.kind == "keyper-lock-approval"@,
            ).len() == evidence.configuration.lock_threshold
            &&& shown.filter(
                |entry: InstructionFields| entry.kind == "keyper-settlement-approval"@,
            ).len() == settlement_threshold
            &&& forall|i: int|
                0 <= i < shown.len() ==> {
                    let kind = (#[trigger] shown[i]).kind;
                    let lock = kind == "keyper-lock-approval"@ || kind == "epoch-lock"@;
                    let settlement = kind == "keyper-settlement-approval"@ || kind
                        == "aggregate-settlement"@;
                    let plain = kind == "pool-funding-base"@ || kind == "pool-funding-quote"@
                        || kind == "aggregate-base-leg"@ || kind == "aggregate-quote-leg"@;
                    if lock {
                        shown[i].digest == Some(evidence.commitments.lock_digest@)
                            && digest_named(evidence.commitments.lock_digest@) is Some
                    } else if settlement {
                        shown[i].digest == Some(evidence.commitments.settlement_digest@)
                            && digest_named(evidence.commitments.settlement_digest@) is Some
                    } else {
                        plain && shown[i].digest is None
                    }
                }
        },
{
    lemma_kinds_counted(shown, "aggregate-settlement"@);
    lemma_kinds_counted(shown, "keyper-lock-approval"@);
    lemma_kinds_counted(shown, "keyper-settlement-approval"@);
    assert(instruction_fields(evidence.decoded_allowlist@)
        =~= evidence.decoded_allowlist@.map_values(
        |entry: crate::evidence::DecodedInstructionEvidenceV1|
            InstructionFields {
                transaction: entry.transaction@,
                position: entry.position,
                program: entry.program@,
                kind: entry.kind@,
                digest: optional_text(entry.digest),
            },
    ));
    let refusals = instruction_refusals(evidence, shown);
    lemma_all_pass(refusals, shown.len());
    assert forall|i: int| 0 <= i < shown.len() implies #[trigger] refusals(i)
        == instruction_refusal(evidence, shown[i]) by {}
    assert((forall|i: int| 0 <= i < shown.len() ==> #[trigger] refusals(i) is None) <==> (forall|
        i: int,
    |
        0 <= i < shown.len() ==> instruction_refusal(evidence, #[trigger] shown[i]) is None)) by {
        if forall|i: int|
            0 <= i < shown.len() ==> instruction_refusal(evidence, #[trigger] shown[i]) is None {
            assert forall|i: int| 0 <= i < shown.len() implies #[trigger] refusals(i) is None by {
                assert(instruction_refusal(evidence, shown[i]) is None);
            }
        }
        if forall|i: int| 0 <= i < shown.len() ==> #[trigger] refusals(i) is None {
            assert forall|i: int| 0 <= i < shown.len() implies instruction_refusal(
                evidence,
                #[trigger] shown[i],
            ) is None by {
                assert(refusals(i) is None);
            }
        }
    }
}

} // verus!
