//! Checks of evidence against what the chain shows: the deployed program and the transactions.

use crate::bytes::{copy_range, is_zero, same_array, same_bytes, zeros};
use crate::encodings::{
    derive_address, derived_address, pubkey_decoded, pubkey_from_text, same_text,
    signature_decoded, signature_from_text,
};
use crate::evidence::{
    check_digest, check_key, commit_named, digest_named, either, first_refusal, hex_digest,
    identity_named, is_commit, is_elf, is_identity, key_refusal, lemma_first_refusal, loader_id,
    outcome_of, starts_as_elf, unless, upgradeable_loader_id, DecodedInstructionEvidenceV1,
    DevnetEvidenceContentV1, DevnetEvidenceError, EvidenceTokenBalancesV1, EvidenceTransactionV1,
};
use crate::hash::{digest_of, sha256};
use crate::text::{hex, push_text};
use crate::tokens::{is_program, is_program_data, read_program, read_program_data};
use vstd::bytes::spec_u64_from_le_bytes;
use vstd::prelude::*;
use vstd::slice::slice_subrange;
use vstd::string::*;

verus! {

/// An account, as the chain shows it.
#[derive(Clone, Debug, PartialEq, Eq)]
pub struct PublicAccountSnapshotV1 {
    pub owner: [u8; 32],
    pub executable: bool,
    pub data: Vec<u8>,
}

/// A deployed program, taken from its two accounts.
#[derive(Clone, Debug, PartialEq, Eq)]
pub struct ExtractedUpgradeableProgramV1 {
    pub deployment_slot: u64,
    pub upgrade_authority: Option<[u8; 32]>,
    pub executable: Vec<u8>,
    pub executable_sha256: String,
}

/// A transaction, as the chain reports it.
#[derive(Clone, Debug, PartialEq, Eq)]
pub struct FinalizedTransactionSnapshotV1 {
    pub signature: String,
    pub slot: u64,
    pub status_slot: u64,
    pub finalized: bool,
    pub succeeded: bool,
}

/// Everything that the chain shows of an epoch.
#[derive(Clone, Debug, PartialEq, Eq)]
pub struct DevnetPublicSnapshotV1 {
    pub program: PublicAccountSnapshotV1,
    pub programdata_address: [u8; 32],
    pub programdata: PublicAccountSnapshotV1,
    pub pool: PublicAccountSnapshotV1,
    pub epoch: PublicAccountSnapshotV1,
    pub base_mint: PublicAccountSnapshotV1,
    pub quote_mint: PublicAccountSnapshotV1,
    pub current_token_accounts: [PublicAccountSnapshotV1; 4],
    pub transactions: Vec<FinalizedTransactionSnapshotV1>,
    pub token_balances: EvidenceTokenBalancesV1,
    pub decoded_allowlist: Vec<DecodedInstructionEvidenceV1>,
}

/// Checks a condition.
pub fn require(condition: bool, wrong: DevnetEvidenceError) -> (outcome: Result<
    (),
    DevnetEvidenceError,
>)
    ensures
        outcome == outcome_of(unless(condition, wrong)),
{
    if condition {
        Ok(())
    } else {
        Err(wrong)
    }
}

/// Why two accounts do not hold a deployed program of a given size, where they do not.
pub open spec fn extraction_refusal(
    program: PublicAccountSnapshotV1,
    expected_programdata: Seq<u8>,
    programdata: PublicAccountSnapshotV1,
    size: nat,
) -> Option<DevnetEvidenceError> {
    let data = programdata.data@;
    if program.owner@ != loader_id() || !program.executable {
        Some(DevnetEvidenceError::WrongLoader)
    } else if !is_program(program.data@) {
        Some(DevnetEvidenceError::MalformedLoaderMetadata)
    } else if program.data@.subrange(4, 36) != expected_programdata {
        Some(DevnetEvidenceError::WrongProgramDataAddress)
    } else if programdata.owner@ != loader_id() || programdata.executable {
        Some(DevnetEvidenceError::WrongProgramDataOwner)
    } else if data.len() < 45 || !is_program_data(data.take(45)) {
        Some(DevnetEvidenceError::MalformedLoaderMetadata)
    } else if 45 + size > data.len() {
        Some(DevnetEvidenceError::TruncatedExecutable)
    } else if !is_elf(executable_of(data, size)) {
        Some(DevnetEvidenceError::InvalidElf)
    } else if data.skip(45 + size as int) != zeros((data.len() - 45 - size) as nat) {
        Some(DevnetEvidenceError::NonZeroProgramDataTail)
    } else {
        None
    }
}

/// The executable of a given size in the account of a program's code.
pub open spec fn executable_of(data: Seq<u8>, size: nat) -> Seq<u8> {
    data.subrange(45, 45 + size as int)
}

/// The slot at which the code in an account was deployed.
pub open spec fn slot_of(data: Seq<u8>) -> u64 {
    spec_u64_from_le_bytes(data.take(45).subrange(4, 12))
}

/// Whether a key is the one that may replace the code in an account.
pub open spec fn authority_of(data: Seq<u8>, authority: Option<[u8; 32]>) -> bool {
    match authority {
        Some(authority) => data[12] == 1 && authority@ == data.subrange(13, 45),
        None => data[12] == 0,
    }
}

/// Takes a deployed program from its two accounts: the loader owns both, the first names the second,
/// and the second holds an executable of the given size with nothing but zeros behind it.
pub fn extract_upgradeable_program(
    program: &PublicAccountSnapshotV1,
    expected_programdata: [u8; 32],
    programdata: &PublicAccountSnapshotV1,
    checkpoint_artifact_len: usize,
) -> (extracted: Result<ExtractedUpgradeableProgramV1, DevnetEvidenceError>)
    ensures
        match extracted {
            Ok(extracted) => {
                &&& extraction_refusal(
                    *program,
                    expected_programdata@,
                    *programdata,
                    checkpoint_artifact_len as nat,
                ) is None
                &&& extracted.deployment_slot == slot_of(programdata.data@)
                &&& authority_of(programdata.data@, extracted.upgrade_authority)
                &&& extracted.executable@ == executable_of(
                    programdata.data@,
                    checkpoint_artifact_len as nat,
                )
                &&& extracted.executable_sha256@ == hex(sha256(extracted.executable@)@)
            },
            Err(error) => extraction_refusal(
                *program,
                expected_programdata@,
                *programdata,
                checkpoint_artifact_len as nat,
            ) == Some(error),
        },
{
    let loader = upgradeable_loader_id();
    if !same_array(&program.owner, &loader) || !program.executable {
        return Err(DevnetEvidenceError::WrongLoader);
    }
    match read_program(program.data.as_slice()) {
        None => {
            return Err(DevnetEvidenceError::MalformedLoaderMetadata);
        },
        Some(address) => {
            if !same_array(&address, &expected_programdata) {
                return Err(DevnetEvidenceError::WrongProgramDataAddress);
            }
        },
    }
    if !same_array(&programdata.owner, &loader) || programdata.executable {
        return Err(DevnetEvidenceError::WrongProgramDataOwner);
    }
    let data = programdata.data.as_slice();
    let size: usize = data.len();
    if size < 45 {
        return Err(DevnetEvidenceError::MalformedLoaderMetadata);
    }
    let metadata = slice_subrange(data, 0, 45);
    assert(metadata@ =~= data@.take(45));
    let state = match read_program_data(metadata) {
        None => {
            return Err(DevnetEvidenceError::MalformedLoaderMetadata);
        },
        Some(state) => state,
    };
    assert(metadata@.subrange(13, 45) =~= data@.subrange(13, 45));
    if size - 45 < checkpoint_artifact_len {
        return Err(DevnetEvidenceError::TruncatedExecutable);
    }
    let end: usize = 45 + checkpoint_artifact_len;
    let executable = copy_range(data, 45, end);
    if !starts_as_elf(executable.as_slice()) {
        return Err(DevnetEvidenceError::InvalidElf);
    }
    let tail = slice_subrange(data, end, size);
    assert(tail@ =~= data@.skip(45 + checkpoint_artifact_len as int));
    if !is_zero(tail) {
        return Err(DevnetEvidenceError::NonZeroProgramDataTail);
    }
    let digest = digest_of(executable.as_slice());
    Ok(
        ExtractedUpgradeableProgramV1 {
            deployment_slot: state.slot,
            upgrade_authority: state.upgrade_authority,
            executable,
            executable_sha256: hex_digest(digest.as_slice()),
        },
    )
}

/// The transactions of evidence in order: the four fundings, the lock and the settlement.
pub open spec fn transaction_of(evidence: DevnetEvidenceContentV1, i: int) -> EvidenceTransactionV1 {
    if i < 4 {
        evidence.transactions.funding@[i].transaction
    } else if i == 4 {
        evidence.transactions.lock
    } else {
        evidence.transactions.settlement
    }
}

/// The transactions of evidence in order: the four fundings, the lock and the settlement.
pub fn transaction_at(evidence: &DevnetEvidenceContentV1, i: usize) -> (transaction:
    &EvidenceTransactionV1)
    requires
        i < 6,
    ensures
        *transaction == transaction_of(*evidence, i as int),
{
    if i < 4 {
        &evidence.transactions.funding[i].transaction
    } else if i == 4 {
        &evidence.transactions.lock
    } else {
        &evidence.transactions.settlement
    }
}

/// The link to a transaction in the public explorer.
pub open spec fn explorer_link(signature: Seq<char>) -> Seq<char> {
    "https://explorer.solana.com/tx/"@ + signature + "?cluster=devnet"@
}

/// The link to a transaction in the public explorer.
pub fn explorer_link_text(signature: &str) -> (link: String)
    ensures
        link@ == explorer_link(signature@),
{
    let mut link = String::new();
    push_text(&mut link, "https://explorer.solana.com/tx/");
    push_text(&mut link, signature);
    push_text(&mut link, "?cluster=devnet");
    assert(link@ =~= explorer_link(signature@));
    link
}

/// Whether the explorer links are those of the transactions, in order.
pub open spec fn links_match(evidence: DevnetEvidenceContentV1) -> bool {
    &&& evidence.explorer_links@.len() == 6
    &&& forall|i: int|
        0 <= i < 6 ==> (#[trigger] evidence.explorer_links@[i])@ == explorer_link(
            transaction_of(evidence, i).signature@,
        )
}

fn links_agree(evidence: &DevnetEvidenceContentV1) -> (agree: bool)
    ensures
        agree == links_match(*evidence),
{
    if evidence.explorer_links.len() != 6 {
        return false;
    }
    let mut i: usize = 0;
    while i < 6
        invariant
            i <= 6,
            evidence.explorer_links@.len() == 6,
            forall|k: int|
                0 <= k < i ==> (#[trigger] evidence.explorer_links@[k])@ == explorer_link(
                    transaction_of(*evidence, k).signature@,
                ),
        decreases 6 - i,
    {
        let link = explorer_link_text(transaction_at(evidence, i).signature.as_str());
        if !same_text(evidence.explorer_links[i].as_str(), link.as_str()) {
            assert(evidence.explorer_links@[i as int]@ != explorer_link(
                transaction_of(*evidence, i as int).signature@,
            ));
            return false;
        }
        i += 1;
    }
    true
}

/// Whether evidence describes an artifact: its commit, its size and its digest.
pub open spec fn describes_artifact(evidence: DevnetEvidenceContentV1, artifact: Seq<u8>) -> bool {
    &&& commit_named(evidence.public_commit@)
    &&& evidence.checkpoint_artifact_len == artifact.len()
    &&& digest_named(evidence.checkpoint_artifact_sha256@) == Some(sha256(artifact)@)
}

/// Why the fields of evidence that need no chain to check are refused, where they are.
pub open spec fn fields_refusal(
    evidence: DevnetEvidenceContentV1,
    artifact: Seq<u8>,
    program: Seq<u8>,
    token_program: Seq<u8>,
) -> Option<DevnetEvidenceError> {
    if evidence.cluster@ != "devnet"@ {
        Some(DevnetEvidenceError::WrongCluster)
    } else if !describes_artifact(evidence, artifact) || !identity_named(
        evidence.build_toolchain.solana_verify@,
    ) || !identity_named(evidence.build_toolchain.build_image@) {
        Some(DevnetEvidenceError::InvalidPublicField)
    } else {
        either(
            key_refusal(evidence.deployment.program@, program, DevnetEvidenceError::WrongProgram),
            either(
                key_refusal(
                    evidence.accounts.token_program@,
                    token_program,
                    DevnetEvidenceError::WrongProgram,
                ),
                either(
                    key_refusal(
                        evidence.deployment.loader@,
                        loader_id(),
                        DevnetEvidenceError::WrongLoader,
                    ),
                    either(
                        match derived_address(program, loader_id()) {
                            Some(address) => key_refusal(
                                evidence.deployment.programdata@,
                                address@,
                                DevnetEvidenceError::WrongProgramDataAddress,
                            ),
                            None => Some(DevnetEvidenceError::WrongProgramDataAddress),
                        },
                        unless(links_match(evidence), DevnetEvidenceError::InvalidPublicField),
                    ),
                ),
            ),
        )
    }
}

/// The address at which the code of an upgradeable program stands, where one can be derived.
pub fn programdata_address(program: &[u8; 32]) -> (address: Option<[u8; 32]>)
    ensures
        address == derived_address(program@, loader_id()),
{
    let loader = upgradeable_loader_id();
    derive_address(program, &loader)
}

/// Checks the fields of evidence that need no chain to check.
pub fn validate_public_fields(
    evidence: &DevnetEvidenceContentV1,
    artifact: &[u8],
    program: &[u8; 32],
    token_program: &[u8; 32],
) -> (outcome: Result<(), DevnetEvidenceError>)
    ensures
        outcome == outcome_of(fields_refusal(*evidence, artifact@, program@, token_program@)),
{
    if !same_text(evidence.cluster.as_str(), "devnet") {
        return Err(DevnetEvidenceError::WrongCluster);
    }
    let digest = digest_of(artifact);
    if !is_commit(evidence.public_commit.as_str()) || evidence.checkpoint_artifact_len
        != artifact.len() || check_digest(
        evidence.checkpoint_artifact_sha256.as_str(),
        &digest,
        DevnetEvidenceError::InvalidPublicField,
    ).is_err() || !is_identity(evidence.build_toolchain.solana_verify.as_str()) || !is_identity(
        evidence.build_toolchain.build_image.as_str(),
    ) {
        return Err(DevnetEvidenceError::InvalidPublicField);
    }
    let checked = check_key(
        evidence.deployment.program.as_str(),
        program,
        DevnetEvidenceError::WrongProgram,
    );
    if checked.is_err() {
        return checked;
    }
    let checked = check_key(
        evidence.accounts.token_program.as_str(),
        token_program,
        DevnetEvidenceError::WrongProgram,
    );
    if checked.is_err() {
        return checked;
    }
    let loader = upgradeable_loader_id();
    let checked = check_key(
        evidence.deployment.loader.as_str(),
        &loader,
        DevnetEvidenceError::WrongLoader,
    );
    if checked.is_err() {
        return checked;
    }
    match programdata_address(program) {
        Some(address) => {
            let checked = check_key(
                evidence.deployment.programdata.as_str(),
                &address,
                DevnetEvidenceError::WrongProgramDataAddress,
            );
            if checked.is_err() {
                return checked;
            }
        },
        None => {
            return Err(DevnetEvidenceError::WrongProgramDataAddress);
        },
    }
    require(links_agree(evidence), DevnetEvidenceError::InvalidPublicField)
}

/// Whether text that may be absent names a key, or both are absent.
pub open spec fn authority_named(text: Option<String>) -> bool {
    match text {
        Some(text) => pubkey_decoded(text@) is Some,
        None => true,
    }
}

/// Whether the code in an account is the artifact that evidence describes, deployed as it says.
pub open spec fn deployment_matches(
    evidence: DevnetEvidenceContentV1,
    data: Seq<u8>,
    artifact: Seq<u8>,
) -> bool {
    let executable = executable_of(data, evidence.checkpoint_artifact_len as nat);
    &&& slot_of(data) == evidence.deployment.deployment_slot
    &&& authority_of(
        data,
        match evidence.deployment.upgrade_authority {
            Some(text) => pubkey_decoded(text@),
            None => None,
        },
    )
    &&& executable == artifact
    &&& hex(sha256(executable)@) == evidence.deployment.deployed_executable_sha256@
    &&& hex(sha256(executable)@) == evidence.checkpoint_artifact_sha256@
}

/// Why the deployed program is not what evidence says, where it is not.
pub open spec fn deployment_refusal(
    evidence: DevnetEvidenceContentV1,
    snapshot: DevnetPublicSnapshotV1,
    artifact: Seq<u8>,
) -> Option<DevnetEvidenceError> {
    either(
        key_refusal(
            evidence.deployment.programdata@,
            snapshot.programdata_address@,
            DevnetEvidenceError::WrongProgramDataAddress,
        ),
        either(
            extraction_refusal(
                snapshot.program,
                snapshot.programdata_address@,
                snapshot.programdata,
                evidence.checkpoint_artifact_len as nat,
            ),
            either(
                unless(
                    authority_named(evidence.deployment.upgrade_authority),
                    DevnetEvidenceError::InvalidPublicField,
                ),
                unless(
                    deployment_matches(evidence, snapshot.programdata.data@, artifact),
                    DevnetEvidenceError::DeploymentMismatch,
                ),
            ),
        ),
    )
}

/// Checks the deployed program.
pub fn validate_deployment(
    evidence: &DevnetEvidenceContentV1,
    snapshot: &DevnetPublicSnapshotV1,
    artifact: &[u8],
) -> (outcome: Result<(), DevnetEvidenceError>)
    ensures
        outcome == outcome_of(deployment_refusal(*evidence, *snapshot, artifact@)),
{
    let checked = check_key(
        evidence.deployment.programdata.as_str(),
        &snapshot.programdata_address,
        DevnetEvidenceError::WrongProgramDataAddress,
    );
    if checked.is_err() {
        return checked;
    }
    let extracted = match extract_upgradeable_program(
        &snapshot.program,
        snapshot.programdata_address,
        &snapshot.programdata,
        evidence.checkpoint_artifact_len,
    ) {
        Ok(extracted) => extracted,
        Err(error) => {
            return Err(error);
        },
    };
    let same_authority = match &evidence.deployment.upgrade_authority {
        Some(text) => match pubkey_from_text(text.as_str()) {
            Some(authority) => match &extracted.upgrade_authority {
                Some(actual) => same_array(actual, &authority),
                None => false,
            },
            None => {
                return Err(DevnetEvidenceError::InvalidPublicField);
            },
        },
        None => extracted.upgrade_authority.is_none(),
    };
    require(
        extracted.deployment_slot == evidence.deployment.deployment_slot && same_authority
            && same_bytes(extracted.executable.as_slice(), artifact) && same_text(
            extracted.executable_sha256.as_str(),
            evidence.deployment.deployed_executable_sha256.as_str(),
        ) && same_text(
            extracted.executable_sha256.as_str(),
            evidence.checkpoint_artifact_sha256.as_str(),
        ),
        DevnetEvidenceError::DeploymentMismatch,
    )
}

/// The first of the reported transactions with a signature.
pub open spec fn reported(
    snapshots: Seq<FinalizedTransactionSnapshotV1>,
    signature: Seq<char>,
) -> Option<FinalizedTransactionSnapshotV1>
    decreases snapshots.len(),
{
    if snapshots.len() == 0 {
        None
    } else if snapshots[0].signature@ == signature {
        Some(snapshots[0])
    } else {
        reported(snapshots.drop_first(), signature)
    }
}

fn find_reported(snapshots: &[FinalizedTransactionSnapshotV1], signature: &str) -> (position: Option<
    usize,
>)
    ensures
        match position {
            Some(position) => position < snapshots@.len() && reported(snapshots@, signature@)
                == Some(snapshots@[position as int]),
            None => reported(snapshots@, signature@) is None,
        },
{
    let mut i: usize = 0;
    assert(snapshots@.skip(0) =~= snapshots@);
    while i < snapshots.len()
        invariant
            i <= snapshots@.len(),
            reported(snapshots@, signature@) == reported(snapshots@.skip(i as int), signature@),
        decreases snapshots@.len() - i,
    {
        assert(snapshots@.skip(i as int).drop_first() =~= snapshots@.skip(i + 1));
        if same_text(snapshots[i].signature.as_str(), signature) {
            return Some(i);
        }
        i += 1;
    }
    None
}

/// Why one of the transactions is refused, where it is: its signature is malformed or was seen
/// before, the chain does not report it, or it reports it as unfinished, failed or in another slot.
pub open spec fn transaction_refusal(
    evidence: DevnetEvidenceContentV1,
    snapshots: Seq<FinalizedTransactionSnapshotV1>,
    i: int,
) -> Option<DevnetEvidenceError> {
    let transaction = transaction_of(evidence, i);
    if signature_decoded(transaction.signature@) is None {
        Some(DevnetEvidenceError::InvalidPublicField)
    } else if exists|k: int|
        0 <= k < i && (#[trigger] transaction_of(evidence, k)).signature@
            == transaction.signature@ {
        Some(DevnetEvidenceError::UnexpectedInstruction)
    } else {
        match reported(snapshots, transaction.signature@) {
            None => Some(DevnetEvidenceError::MissingTransaction),
            Some(fetched) => if !fetched.finalized {
                Some(DevnetEvidenceError::UnfinalizedTransaction)
            } else if !fetched.succeeded {
                Some(DevnetEvidenceError::FailedTransaction)
            } else if fetched.slot != transaction.slot || fetched.status_slot != transaction.slot {
                Some(DevnetEvidenceError::TransactionSlotMismatch)
            } else {
                None
            },
        }
    }
}

/// The refusals of the transactions, one for each.
pub open spec fn transaction_refusals(
    evidence: DevnetEvidenceContentV1,
    snapshots: Seq<FinalizedTransactionSnapshotV1>,
) -> spec_fn(int) -> Option<DevnetEvidenceError> {
    |i: int| transaction_refusal(evidence, snapshots, i)
}

fn check_transaction(
    evidence: &DevnetEvidenceContentV1,
    snapshots: &[FinalizedTransactionSnapshotV1],
    i: usize,
) -> (outcome: Result<(), DevnetEvidenceError>)
    requires
        i < 6,
    ensures
        outcome == outcome_of(transaction_refusal(*evidence, snapshots@, i as int)),
{
    let transaction = transaction_at(evidence, i);
    if signature_from_text(transaction.signature.as_str()).is_none() {
        return Err(DevnetEvidenceError::InvalidPublicField);
    }
    let mut k: usize = 0;
    while k < i
        invariant
            k <= i < 6,
            *transaction == transaction_of(*evidence, i as int),
            signature_decoded(transaction.signature@) is Some,
            forall|j: int|
                0 <= j < k ==> (#[trigger] transaction_of(*evidence, j)).signature@
                    != transaction.signature@,
        decreases i - k,
    {
        if same_text(
            transaction_at(evidence, k).signature.as_str(),
            transaction.signature.as_str(),
        ) {
            assert(transaction_of(*evidence, k as int).signature@ == transaction.signature@);
            return Err(DevnetEvidenceError::UnexpectedInstruction);
        }
        k += 1;
    }
    match find_reported(snapshots, transaction.signature.as_str()) {
        None => Err(DevnetEvidenceError::MissingTransaction),
        Some(position) => {
            let fetched = &snapshots[position];
            if !fetched.finalized {
                Err(DevnetEvidenceError::UnfinalizedTransaction)
            } else if !fetched.succeeded {
                Err(DevnetEvidenceError::FailedTransaction)
            } else if fetched.slot != transaction.slot || fetched.status_slot != transaction.slot {
                Err(DevnetEvidenceError::TransactionSlotMismatch)
            } else {
                Ok(())
            }
        },
    }
}

/// Whether the fundings lie between the deployment and the lock, and the lock before the settlement.
pub open spec fn chronological(evidence: DevnetEvidenceContentV1) -> bool {
    &&& evidence.deployment.deployment_slot < evidence.transactions.lock.slot
    &&& evidence.transactions.lock.slot < evidence.transactions.settlement.slot
    &&& forall|i: int|
        0 <= i < 4 ==> evidence.deployment.deployment_slot
            < (#[trigger] evidence.transactions.funding@[i]).transaction.slot
            < evidence.transactions.lock.slot
}

fn in_order(evidence: &DevnetEvidenceContentV1) -> (ordered: bool)
    ensures
        ordered == chronological(*evidence),
{
    let deployed: u64 = evidence.deployment.deployment_slot;
    let locked: u64 = evidence.transactions.lock.slot;
    if deployed >= locked || locked >= evidence.transactions.settlement.slot {
        return false;
    }
    let mut i: usize = 0;
    while i < 4
        invariant
            i <= 4,
            deployed == evidence.deployment.deployment_slot,
            locked == evidence.transactions.lock.slot,
            forall|k: int|
                0 <= k < i ==> deployed < (#[trigger] evidence.transactions.funding@[k])
                    .transaction.slot < locked,
        decreases 4 - i,
    {
        let slot: u64 = evidence.transactions.funding[i].transaction.slot;
        if slot <= deployed || slot >= locked {
            assert(!(deployed < evidence.transactions.funding@[i as int].transaction.slot
                < locked));
            return false;
        }
        i += 1;
    }
    true
}

/// Why the transactions are refused, where they are.
pub open spec fn transactions_refusal(
    evidence: DevnetEvidenceContentV1,
    snapshots: Seq<FinalizedTransactionSnapshotV1>,
) -> Option<DevnetEvidenceError> {
    either(
        first_refusal(transaction_refusals(evidence, snapshots), 6),
        either(
            unless(snapshots.len() == 6, DevnetEvidenceError::UnexpectedInstruction),
            unless(chronological(evidence), DevnetEvidenceError::InvalidChronology),
        ),
    )
}

/// Checks the transactions.
pub fn validate_transactions(
    evidence: &DevnetEvidenceContentV1,
    snapshots: &[FinalizedTransactionSnapshotV1],
) -> (outcome: Result<(), DevnetEvidenceError>)
    ensures
        outcome == outcome_of(transactions_refusal(*evidence, snapshots@)),
{
    let ghost refusals = transaction_refusals(*evidence, snapshots@);
    let mut i: usize = 0;
    while i < 6
        invariant
            i <= 6,
            refusals == transaction_refusals(*evidence, snapshots@),
            first_refusal(refusals, i as nat) is None,
        decreases 6 - i,
    {
        let checked = check_transaction(evidence, snapshots, i);
        assert(refusals(i as int) == transaction_refusal(*evidence, snapshots@, i as int));
        if checked.is_err() {
            proof {
                lemma_first_refusal(refusals, i as nat, 6);
            }
            return checked;
        }
        i += 1;
    }
    if snapshots.len() != 6 {
        return Err(DevnetEvidenceError::UnexpectedInstruction);
    }
    require(in_order(evidence), DevnetEvidenceError::InvalidChronology)
}

/// The sources of the fundings in order, two for each.
pub open spec fn source_of(evidence: DevnetEvidenceContentV1, s: int) -> Seq<char> {
    if s % 2 == 0 {
        evidence.transactions.funding@[s / 2].base_source@
    } else {
        evidence.transactions.funding@[s / 2].quote_source@
    }
}

fn source_at(evidence: &DevnetEvidenceContentV1, s: usize) -> (text: &str)
    requires
        s < 8,
    ensures
        text@ == source_of(*evidence, s as int),
{
    if s % 2 == 0 {
        evidence.transactions.funding[s / 2].base_source.as_str()
    } else {
        evidence.transactions.funding[s / 2].quote_source.as_str()
    }
}

/// Why a source is refused, where it is: it names no key, or one that an earlier source names.
pub open spec fn source_refusal(evidence: DevnetEvidenceContentV1, s: int) -> Option<
    DevnetEvidenceError,
> {
    if pubkey_decoded(source_of(evidence, s)) is None {
        Some(DevnetEvidenceError::InvalidPublicField)
    } else if exists|k: int|
        0 <= k < s && pubkey_decoded(#[trigger] source_of(evidence, k)) == pubkey_decoded(
            source_of(evidence, s),
        ) {
        Some(DevnetEvidenceError::RepeatedFundingSource)
    } else {
        None
    }
}

/// Why an authority is refused, where it is: it names no key, the key of zeros, or one that an
/// earlier authority names.
pub open spec fn authority_refusal(evidence: DevnetEvidenceContentV1, i: int) -> Option<
    DevnetEvidenceError,
> {
    let authority = pubkey_decoded(evidence.transactions.funding@[i].authority@);
    if authority is None {
        Some(DevnetEvidenceError::InvalidPublicField)
    } else if authority.unwrap()@ == zeros(32) || exists|k: int|
        0 <= k < i && pubkey_decoded(
            (#[trigger] evidence.transactions.funding@[k]).authority@,
        ) == authority {
        Some(DevnetEvidenceError::RepeatedFundingAuthority)
    } else {
        None
    }
}

/// The refusals of the fundings, one for each.
pub open spec fn funding_refusals(evidence: DevnetEvidenceContentV1) -> spec_fn(int) -> Option<
    DevnetEvidenceError,
> {
    |i: int|
        either(
            authority_refusal(evidence, i),
            either(source_refusal(evidence, 2 * i), source_refusal(evidence, 2 * i + 1)),
        )
}

/// Whether two keys that may be absent are the same.
fn same_key(a: &Option<[u8; 32]>, b: &Option<[u8; 32]>) -> (same: bool)
    ensures
        same == (*a == *b),
{
    match (a, b) {
        (Some(a), Some(b)) => same_array(a, b),
        (None, None) => true,
        _ => false,
    }
}

fn check_source(evidence: &DevnetEvidenceContentV1, s: usize) -> (outcome: Result<
    (),
    DevnetEvidenceError,
>)
    requires
        s < 8,
    ensures
        outcome == outcome_of(source_refusal(*evidence, s as int)),
{
    let source = pubkey_from_text(source_at(evidence, s));
    if source.is_none() {
        return Err(DevnetEvidenceError::InvalidPublicField);
    }
    let mut k: usize = 0;
    while k < s
        invariant
            k <= s < 8,
            source == pubkey_decoded(source_of(*evidence, s as int)),
            source is Some,
            forall|j: int|
                0 <= j < k ==> pubkey_decoded(#[trigger] source_of(*evidence, j)) != source,
        decreases s - k,
    {
        if same_key(&pubkey_from_text(source_at(evidence, k)), &source) {
            assert(pubkey_decoded(source_of(*evidence, k as int)) == source);
            return Err(DevnetEvidenceError::RepeatedFundingSource);
        }
        k += 1;
    }
    Ok(())
}

fn check_authority(evidence: &DevnetEvidenceContentV1, i: usize) -> (outcome: Result<
    (),
    DevnetEvidenceError,
>)
    requires
        i < 4,
    ensures
        outcome == outcome_of(authority_refusal(*evidence, i as int)),
{
    let authority = pubkey_from_text(evidence.transactions.funding[i].authority.as_str());
    match &authority {
        None => {
            return Err(DevnetEvidenceError::InvalidPublicField);
        },
        Some(key) => {
            if is_zero(key.as_slice()) {
                return Err(DevnetEvidenceError::RepeatedFundingAuthority);
            }
        },
    }
    let mut k: usize = 0;
    while k < i
        invariant
            k <= i < 4,
            authority == pubkey_decoded(evidence.transactions.funding@[i as int].authority@),
            authority is Some,
            authority.unwrap()@ != zeros(32),
            forall|j: int|
                0 <= j < k ==> pubkey_decoded(
                    (#[trigger] evidence.transactions.funding@[j]).authority@,
                ) != authority,
        decreases i - k,
    {
        let other = pubkey_from_text(evidence.transactions.funding[k].authority.as_str());
        if same_key(&other, &authority) {
            assert(pubkey_decoded(evidence.transactions.funding@[k as int].authority@)
                == authority);
            return Err(DevnetEvidenceError::RepeatedFundingAuthority);
        }
        k += 1;
    }
    Ok(())
}

/// Why the fundings are refused, where they are.
pub open spec fn funding_refusal(evidence: DevnetEvidenceContentV1) -> Option<
    DevnetEvidenceError,
> {
    first_refusal(funding_refusals(evidence), 4)
}

/// Checks that each funding has an authority and two sources of its own.
pub fn validate_distinct_funding_authorities(evidence: &DevnetEvidenceContentV1) -> (outcome: Result<
    (),
    DevnetEvidenceError,
>)
    ensures
        outcome == outcome_of(funding_refusal(*evidence)),
{
    let ghost refusals = funding_refusals(*evidence);
    let mut i: usize = 0;
    while i < 4
        invariant
            i <= 4,
            refusals == funding_refusals(*evidence),
            first_refusal(refusals, i as nat) is None,
        decreases 4 - i,
    {
        let mut checked = check_authority(evidence, i);
        if checked.is_ok() {
            checked = check_source(evidence, 2 * i);
        }
        if checked.is_ok() {
            checked = check_source(evidence, 2 * i + 1);
        }
        assert(outcome_of(refusals(i as int)) == checked);
        if checked.is_err() {
            proof {
                lemma_first_refusal(refusals, i as nat, 4);
            }
            return checked;
        }
        i += 1;
    }
    Ok(())
}

} // verus!
