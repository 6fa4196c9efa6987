use base64::{engine::general_purpose::STANDARD as BASE64, Engine as _};
use ed25519_dalek::{Signer as _, SigningKey};
use kageb::{
    build_toolchain_mismatch, canonical_devnet_allowlist, checkpoint_mismatch,
    extract_upgradeable_program, hex_digest, is_commit, parse_digest,
    programdata_address, read_build_config, solana_verify_mismatch, upgradeable_loader_id,
    validate_rpc_response_len, verified_text, verify_devnet_evidence,
    verify_ed25519_instruction, verify_queried_transaction, ApprovalRead,
    DecodedInstructionEvidenceV1, DerivedAccounts, DerivedAddress, DevnetEvidenceBundleV1,
    DevnetEvidenceContentV1, DevnetEvidenceError, DevnetPublicSnapshotV1, EpochStateV1,
    EpochTerminalState, EvidenceAccountsV1, EvidenceBuildToolchainV1, EvidenceCommitmentsV1,
    EvidenceConfigurationV1, EvidenceDeploymentV1, EvidenceTokenBalancesV1, EvidenceTransactionV1,
    EvidenceTransactionsV1, FinalizedTransactionSnapshotV1, FundingTransactionEvidenceV1,
    PoolStateV1, ProgramIds, ProgramReads, PublicAccountSnapshotV1, TransactionText,
};
use sha2::{Digest, Sha256};
use solana_keypair::Keypair;
use solana_program::{program_option::COption, program_pack::Pack, pubkey::Pubkey};
use solana_signer::Signer as _;
use solana_transaction::versioned::VersionedTransaction;
use solana_transaction::Transaction;

const PROGRAM: [u8; 32] = [100; 32];

fn token_program() -> [u8; 32] {
    spl_token_interface::ID.to_bytes()
}

fn ed25519_program() -> String {
    solana_program::pubkey::Pubkey::from_str_const("Ed25519SigVerify111111111111111111111111111")
        .to_string()
}

fn text(key: [u8; 32]) -> String {
    bs58::encode(key).into_string()
}

fn key(value: u8) -> String {
    text([value; 32])
}

fn digest(value: u8) -> String {
    format!("{value:02x}").repeat(32)
}

fn signature(value: u8) -> String {
    bs58::encode([value; 64]).into_string()
}

fn transaction(value: u8, slot: u64) -> EvidenceTransactionV1 {
    EvidenceTransactionV1 {
        signature: signature(value),
        slot,
    }
}

fn content() -> DevnetEvidenceContentV1 {
    let funding = std::array::from_fn(|index| FundingTransactionEvidenceV1 {
        authority: key(index as u8 + 20),
        base_source: key(index as u8 + 50),
        quote_source: key(index as u8 + 60),
        transaction: transaction(index as u8 + 30, 90 + index as u64),
    });
    DevnetEvidenceContentV1 {
        cluster: "devnet".to_owned(),
        public_commit: "1".repeat(40),
        build_toolchain: EvidenceBuildToolchainV1 {
            solana_verify: "solana-verify 0.5.1".to_owned(),
            build_image: "solanafoundation/solana-verifiable-build@sha256:test".to_owned(),
        },
        checkpoint_artifact_len: 187_872,
        checkpoint_artifact_sha256: digest(1),
        deployment: EvidenceDeploymentV1 {
            program: text(PROGRAM),
            loader: text(upgradeable_loader_id()),
            programdata: key(2),
            deployment_slot: 80,
            upgrade_authority: Some(key(3)),
            deployed_executable_sha256: digest(1),
        },
        transactions: EvidenceTransactionsV1 {
            funding,
            lock: transaction(40, 100),
            settlement: transaction(41, 101),
        },
        accounts: EvidenceAccountsV1 {
            fee_payer: key(18),
            operator: key(4),
            pool: key(5),
            epoch: key(6),
            vault_authority: key(7),
            base_mint: key(8),
            quote_mint: key(9),
            pool_base_vault: key(10),
            pool_quote_vault: key(11),
            venue_authority: key(12),
            venue_base_account: key(13),
            venue_quote_account: key(14),
            token_program: text(token_program()),
        },
        configuration: EvidenceConfigurationV1 {
            epoch_id: digest(2),
            minimum_count: 4,
            member_count: 4,
            lock_threshold: 2,
            settlement_threshold: 2,
            keypers: [key(15), key(16), key(17)],
            base_lot_atoms: 1,
            quote_atoms_per_lot: 100,
        },
        commitments: EvidenceCommitmentsV1 {
            configuration_hash: digest(9),
            pre_balance_root: digest(3),
            member_set: digest(4),
            lock_digest: digest(5),
            result: digest(6),
            settlement_digest: digest(7),
            local_transcript_sha256: digest(8),
        },
        token_balances: EvidenceTokenBalancesV1 {
            pool_base_before: 4,
            pool_base_after: 5,
            pool_quote_before: 400,
            pool_quote_after: 300,
            venue_base_before: 10,
            venue_base_after: 9,
            venue_quote_before: 0,
            venue_quote_after: 100,
        },
        decoded_allowlist: vec![
            DecodedInstructionEvidenceV1 {
                transaction: "lock".to_owned(),
                position: 0,
                program: ed25519_program(),
                kind: "keyper-lock-approval".to_owned(),
                digest: Some(digest(5)),
            },
            DecodedInstructionEvidenceV1 {
                transaction: "settlement".to_owned(),
                position: 2,
                program: text(PROGRAM),
                kind: "aggregate-settlement".to_owned(),
                digest: Some(digest(7)),
            },
        ],
        explorer_links: [30_u8, 31, 32, 33, 40, 41]
            .map(|value| {
                format!(
                    "https://explorer.solana.com/tx/{}?cluster=devnet",
                    signature(value)
                )
            })
            .to_vec(),
    }
}

fn encoding(content: &DevnetEvidenceContentV1) -> Vec<u8> {
    format!("{content:?}").into_bytes()
}

fn seal(content: DevnetEvidenceContentV1) -> DevnetEvidenceBundleV1 {
    let encoded = encoding(&content);
    DevnetEvidenceBundleV1::seal(content, &encoded)
}

#[test]
fn evidence_bundle_is_content_addressed() {
    let bundle = seal(content());
    assert_ne!(
        bundle.evidence_sha256, bundle.content.commitments.result,
        "the post-confirmation bundle hash is not the onchain result commitment"
    );
    assert_eq!(
        bundle.evidence_sha256,
        digest_bytes(
            &[
                b"KAGEB_EVIDENCE_BUNDLE_V1\0".as_slice(),
                &encoding(&bundle.content)
            ]
            .concat()
        )
    );
    assert_eq!(bundle.schema_version, 1);
    bundle
        .verify_content_hash(&encoding(&bundle.content))
        .unwrap();

    let mut changed = bundle.clone();
    changed.content.transactions.settlement.slot = 102;
    assert_eq!(
        changed.verify_content_hash(&encoding(&changed.content)),
        Err(DevnetEvidenceError::ContentHashMismatch)
    );

    let mut changed = bundle;
    changed.schema_version = 2;
    assert_eq!(
        changed.verify_content_hash(&encoding(&changed.content)),
        Err(DevnetEvidenceError::ContentHashMismatch)
    );
}

fn program_account(programdata: [u8; 32]) -> PublicAccountSnapshotV1 {
    let mut data = 2_u32.to_le_bytes().to_vec();
    data.extend_from_slice(&programdata);
    PublicAccountSnapshotV1 {
        owner: upgradeable_loader_id(),
        executable: true,
        data,
    }
}

fn programdata_account(
    slot: u64,
    authority: Option<[u8; 32]>,
    executable: &[u8],
    padding: &[u8],
) -> PublicAccountSnapshotV1 {
    let mut data = 3_u32.to_le_bytes().to_vec();
    data.extend_from_slice(&slot.to_le_bytes());
    match authority {
        Some(authority) => {
            data.push(1);
            data.extend_from_slice(&authority);
        }
        None => data.push(0),
    }
    data.resize(45, 0);
    data.extend_from_slice(executable);
    data.extend_from_slice(padding);
    PublicAccountSnapshotV1 {
        owner: upgradeable_loader_id(),
        executable: false,
        data,
    }
}

fn mint_account(
    mint_authority: Option<Pubkey>,
    freeze_authority: Option<Pubkey>,
) -> PublicAccountSnapshotV1 {
    let mint = spl_token_interface::state::Mint {
        mint_authority: mint_authority.into(),
        supply: 810,
        decimals: 0,
        is_initialized: true,
        freeze_authority: freeze_authority.into(),
    };
    let mut data = vec![0; spl_token_interface::state::Mint::LEN];
    spl_token_interface::state::Mint::pack(mint, &mut data).unwrap();
    PublicAccountSnapshotV1 {
        owner: token_program(),
        executable: false,
        data,
    }
}

fn token_account(mint: [u8; 32], owner: [u8; 32], amount: u64) -> PublicAccountSnapshotV1 {
    let token = spl_token_interface::state::Account {
        mint: Pubkey::new_from_array(mint),
        owner: Pubkey::new_from_array(owner),
        amount,
        delegate: COption::None,
        state: spl_token_interface::state::AccountState::Initialized,
        is_native: COption::None,
        delegated_amount: 0,
        close_authority: COption::None,
    };
    let mut data = vec![0; spl_token_interface::state::Account::LEN];
    spl_token_interface::state::Account::pack(token, &mut data).unwrap();
    PublicAccountSnapshotV1 {
        owner: token_program(),
        executable: false,
        data,
    }
}

#[test]
fn extractor_accepts_only_the_official_programdata_executable_slice() {
    let programdata = [110; 32];
    let authority = [111; 32];
    let executable = b"\x7fELFcanonical-checkpoint";
    let program = program_account(programdata);
    let account = programdata_account(77, Some(authority), executable, &[0; 32]);

    let extracted =
        extract_upgradeable_program(&program, programdata, &account, executable.len()).unwrap();
    assert_eq!(extracted.deployment_slot, 77);
    assert_eq!(extracted.upgrade_authority, Some(authority));
    assert_eq!(extracted.executable, executable);
    assert_eq!(extracted.executable_sha256, digest_bytes(executable));

    let mut wrong_loader = program.clone();
    wrong_loader.owner = [112; 32];
    assert_eq!(
        extract_upgradeable_program(&wrong_loader, programdata, &account, executable.len()),
        Err(DevnetEvidenceError::WrongLoader)
    );

    let mut malformed_program = program.clone();
    malformed_program.data[0] = 3;
    assert_eq!(
        extract_upgradeable_program(&malformed_program, programdata, &account, executable.len()),
        Err(DevnetEvidenceError::MalformedLoaderMetadata)
    );

    let mut wrong_programdata = programdata_account(77, Some(authority), executable, &[0; 32]);
    wrong_programdata.owner = [113; 32];
    assert_eq!(
        extract_upgradeable_program(&program, programdata, &wrong_programdata, executable.len()),
        Err(DevnetEvidenceError::WrongProgramDataOwner)
    );

    let wrong_address = [114; 32];
    assert_eq!(
        extract_upgradeable_program(&program, wrong_address, &account, executable.len()),
        Err(DevnetEvidenceError::WrongProgramDataAddress)
    );
}

#[test]
fn extractor_rejects_truncation_changed_elf_and_nonzero_tail() {
    let programdata = [110; 32];
    let executable = b"\x7fELFcanonical-checkpoint";
    let program = program_account(programdata);

    let truncated = programdata_account(77, None, &executable[..4], &[]);
    assert_eq!(
        extract_upgradeable_program(&program, programdata, &truncated, executable.len()),
        Err(DevnetEvidenceError::TruncatedExecutable)
    );

    let changed_prefix = programdata_account(77, None, b"NOPEcanonical-checkpoint", &[]);
    assert_eq!(
        extract_upgradeable_program(&program, programdata, &changed_prefix, executable.len()),
        Err(DevnetEvidenceError::InvalidElf)
    );

    let nonzero_tail = programdata_account(77, None, executable, &[0, 1]);
    assert_eq!(
        extract_upgradeable_program(&program, programdata, &nonzero_tail, executable.len()),
        Err(DevnetEvidenceError::NonZeroProgramDataTail)
    );
}

fn digest_bytes(bytes: &[u8]) -> String {
    Sha256::digest(bytes)
        .iter()
        .map(|byte| format!("{byte:02x}"))
        .collect()
}

fn canonical_allowlist(content: &DevnetEvidenceContentV1) -> Vec<DecodedInstructionEvidenceV1> {
    let mut allowlist = Vec::new();
    for index in 0..4 {
        allowlist.push(DecodedInstructionEvidenceV1 {
            transaction: format!("funding-{index}"),
            position: 0,
            program: text(token_program()),
            kind: "pool-funding-base".to_owned(),
            digest: None,
        });
        allowlist.push(DecodedInstructionEvidenceV1 {
            transaction: format!("funding-{index}"),
            position: 1,
            program: text(token_program()),
            kind: "pool-funding-quote".to_owned(),
            digest: None,
        });
    }
    for position in 0..2 {
        allowlist.push(DecodedInstructionEvidenceV1 {
            transaction: "lock".to_owned(),
            position,
            program: ed25519_program(),
            kind: "keyper-lock-approval".to_owned(),
            digest: Some(content.commitments.lock_digest.clone()),
        });
    }
    allowlist.push(DecodedInstructionEvidenceV1 {
        transaction: "lock".to_owned(),
        position: 2,
        program: text(PROGRAM),
        kind: "epoch-lock".to_owned(),
        digest: Some(content.commitments.lock_digest.clone()),
    });
    for position in 0..2 {
        allowlist.push(DecodedInstructionEvidenceV1 {
            transaction: "settlement".to_owned(),
            position,
            program: ed25519_program(),
            kind: "keyper-settlement-approval".to_owned(),
            digest: Some(content.commitments.settlement_digest.clone()),
        });
    }
    allowlist.push(DecodedInstructionEvidenceV1 {
        transaction: "settlement".to_owned(),
        position: 2,
        program: text(PROGRAM),
        kind: "aggregate-settlement".to_owned(),
        digest: Some(content.commitments.settlement_digest.clone()),
    });
    allowlist.push(DecodedInstructionEvidenceV1 {
        transaction: "settlement".to_owned(),
        position: 3,
        program: text(token_program()),
        kind: "aggregate-quote-leg".to_owned(),
        digest: None,
    });
    allowlist.push(DecodedInstructionEvidenceV1 {
        transaction: "settlement".to_owned(),
        position: 4,
        program: text(token_program()),
        kind: "aggregate-base-leg".to_owned(),
        digest: None,
    });
    allowlist
}

struct VerifierFixture {
    bundle: DevnetEvidenceBundleV1,
    snapshot: DevnetPublicSnapshotV1,
    artifact: Vec<u8>,
    reads: ProgramReads,
}

fn verifier_fixture() -> VerifierFixture {
    let artifact = b"\x7fELFcanonical-checkpoint".to_vec();
    let mut content = content();
    content.checkpoint_artifact_len = artifact.len();
    content.checkpoint_artifact_sha256 = digest_bytes(&artifact);
    content.deployment.deployed_executable_sha256 = digest_bytes(&artifact);
    content.configuration.epoch_id = digest(2);
    content.decoded_allowlist = canonical_allowlist(&content);

    let pool_state = PoolStateV1 {
        pool_bump: 250,
        vault_bump: 251,
        lock_threshold: 2,
        settlement_threshold: 2,
        operator: [4; 32],
        base_mint: [8; 32],
        quote_mint: [9; 32],
        pool_base_vault: [10; 32],
        pool_quote_vault: [11; 32],
        venue_authority: [12; 32],
        venue_base_account: [13; 32],
        venue_quote_account: [14; 32],
        keypers: [[15; 32], [16; 32], [17; 32]],
        base_lot_atoms: 1,
    };
    let epoch_state = EpochStateV1 {
        epoch_bump: 252,
        terminal_state: EpochTerminalState::Settled,
        residual_side: 1,
        pool: [5; 32],
        epoch_id: [2; 32],
        configuration_hash: [9; 32],
        pre_balance_root: [3; 32],
        member_root: [4; 32],
        lock_digest: [5; 32],
        result_commitment: [6; 32],
        settlement_digest: [7; 32],
        lock_nonce: [10; 32],
        settlement_nonce: [11; 32],
        member_count: 4,
        minimum_count: 4,
        residual_lots: 1,
        base_lot_atoms: 1,
        quote_atoms_per_lot: 100,
        lock_deadline: 1_000,
        abort_deadline: 2_000,
    };
    let reads = ProgramReads {
        program: PROGRAM,
        token_program: token_program(),
        pool: Some(pool_state),
        epoch: Some(epoch_state),
        derived: DerivedAccounts {
            pool: DerivedAddress {
                address: [5; 32],
                bump: 250,
            },
            vault_authority: DerivedAddress {
                address: [7; 32],
                bump: 251,
            },
            epoch: DerivedAddress {
                address: [6; 32],
                bump: 252,
            },
        },
    };
    let transactions = content
        .transactions
        .funding
        .iter()
        .map(|funding| funding.transaction.clone())
        .chain([
            content.transactions.lock.clone(),
            content.transactions.settlement.clone(),
        ])
        .map(|transaction| FinalizedTransactionSnapshotV1 {
            signature: transaction.signature,
            slot: transaction.slot,
            status_slot: transaction.slot,
            finalized: true,
            succeeded: true,
        })
        .collect();
    let programdata = Pubkey::find_program_address(
        &[&PROGRAM],
        &Pubkey::new_from_array(upgradeable_loader_id()),
    )
    .0
    .to_bytes();
    content.deployment.programdata = text(programdata);
    let snapshot = DevnetPublicSnapshotV1 {
        program: program_account(programdata),
        programdata_address: programdata,
        programdata: programdata_account(
            content.deployment.deployment_slot,
            Some([3; 32]),
            &artifact,
            &[0; 32],
        ),
        pool: PublicAccountSnapshotV1 {
            owner: PROGRAM,
            executable: false,
            data: vec![1],
        },
        epoch: PublicAccountSnapshotV1 {
            owner: PROGRAM,
            executable: false,
            data: vec![2],
        },
        base_mint: mint_account(None, None),
        quote_mint: mint_account(None, None),
        current_token_accounts: [
            token_account([8; 32], [7; 32], content.token_balances.pool_base_after),
            token_account([9; 32], [7; 32], content.token_balances.pool_quote_after),
            token_account([8; 32], [12; 32], content.token_balances.venue_base_after),
            token_account([9; 32], [12; 32], content.token_balances.venue_quote_after),
        ],
        transactions,
        token_balances: content.token_balances,
        decoded_allowlist: content.decoded_allowlist.clone(),
    };
    VerifierFixture {
        bundle: seal(content),
        snapshot,
        artifact,
        reads,
    }
}

impl VerifierFixture {
    fn verify(
        &self,
        bundle: &DevnetEvidenceBundleV1,
        snapshot: &DevnetPublicSnapshotV1,
    ) -> Result<(), DevnetEvidenceError> {
        verify_devnet_evidence(
            bundle,
            &encoding(&bundle.content),
            snapshot,
            &self.artifact,
            &self.reads,
        )
    }
}

#[test]
fn injected_verifier_accepts_one_finalized_public_trace() {
    let fixture = verifier_fixture();
    fixture.verify(&fixture.bundle, &fixture.snapshot).unwrap();
}

#[test]
fn injected_verifier_fails_closed_at_each_public_trust_boundary() {
    let fixture = verifier_fixture();
    let bundle = &fixture.bundle;
    let snapshot = &fixture.snapshot;

    let mut content = bundle.content.clone();
    content.cluster = "mainnet-beta".to_owned();
    assert_eq!(
        fixture.verify(&seal(content), snapshot),
        Err(DevnetEvidenceError::WrongCluster)
    );

    let mut content = bundle.content.clone();
    content.deployment.program = key(120);
    assert_eq!(
        fixture.verify(&seal(content), snapshot),
        Err(DevnetEvidenceError::WrongProgram)
    );

    let mut content = bundle.content.clone();
    content.deployment.deployment_slot += 1;
    assert_eq!(
        fixture.verify(&seal(content), snapshot),
        Err(DevnetEvidenceError::DeploymentMismatch)
    );

    let mut content = bundle.content.clone();
    content.deployment.programdata = key(121);
    let mut changed_snapshot = snapshot.clone();
    changed_snapshot.programdata_address = [121; 32];
    changed_snapshot.program = program_account([121; 32]);
    assert_eq!(
        fixture.verify(&seal(content), &changed_snapshot),
        Err(DevnetEvidenceError::WrongProgramDataAddress)
    );

    let mut content = bundle.content.clone();
    content.deployment.deployment_slot = content.transactions.settlement.slot + 1;
    let mut changed_snapshot = snapshot.clone();
    changed_snapshot.programdata = programdata_account(
        content.deployment.deployment_slot,
        Some([3; 32]),
        &fixture.artifact,
        &[0; 32],
    );
    assert_eq!(
        fixture.verify(&seal(content), &changed_snapshot),
        Err(DevnetEvidenceError::InvalidChronology)
    );

    let mut changed = snapshot.clone();
    changed.transactions.pop();
    assert_eq!(
        fixture.verify(bundle, &changed),
        Err(DevnetEvidenceError::MissingTransaction)
    );

    let mut changed = snapshot.clone();
    changed.transactions[0].finalized = false;
    assert_eq!(
        fixture.verify(bundle, &changed),
        Err(DevnetEvidenceError::UnfinalizedTransaction)
    );

    let mut changed = snapshot.clone();
    changed.transactions[0].succeeded = false;
    assert_eq!(
        fixture.verify(bundle, &changed),
        Err(DevnetEvidenceError::FailedTransaction)
    );

    let mut changed = snapshot.clone();
    changed.transactions[0].slot += 1;
    assert_eq!(
        fixture.verify(bundle, &changed),
        Err(DevnetEvidenceError::TransactionSlotMismatch)
    );

    let mut changed = snapshot.clone();
    changed.transactions[0].status_slot += 1;
    assert_eq!(
        fixture.verify(bundle, &changed),
        Err(DevnetEvidenceError::TransactionSlotMismatch)
    );

    let mut content = bundle.content.clone();
    content.transactions.funding[0].transaction.slot = content.transactions.lock.slot;
    let mut changed_snapshot = snapshot.clone();
    changed_snapshot.transactions[0].slot = content.transactions.lock.slot;
    changed_snapshot.transactions[0].status_slot = content.transactions.lock.slot;
    assert_eq!(
        fixture.verify(&seal(content), &changed_snapshot),
        Err(DevnetEvidenceError::InvalidChronology)
    );

    let mut content = bundle.content.clone();
    content.transactions.funding[1].authority = content.transactions.funding[0].authority.clone();
    assert_eq!(
        fixture.verify(&seal(content), snapshot),
        Err(DevnetEvidenceError::RepeatedFundingAuthority)
    );

    let mut content = bundle.content.clone();
    content.transactions.funding[1].base_source =
        content.transactions.funding[0].base_source.clone();
    assert_eq!(
        fixture.verify(&seal(content), snapshot),
        Err(DevnetEvidenceError::RepeatedFundingSource)
    );

    let mut content = bundle.content.clone();
    content.configuration.member_count = 3;
    assert_eq!(
        fixture.verify(&seal(content), snapshot),
        Err(DevnetEvidenceError::WrongMemberCount)
    );

    let mut changed = snapshot.clone();
    changed.pool.owner = [122; 32];
    assert_eq!(
        fixture.verify(bundle, &changed),
        Err(DevnetEvidenceError::WrongAccountOwner)
    );

    let mut content = bundle.content.clone();
    content.configuration.keypers[0] = key(99);
    assert_eq!(
        fixture.verify(&seal(content), snapshot),
        Err(DevnetEvidenceError::WrongKeyper)
    );

    let mut content = bundle.content.clone();
    content.token_balances.pool_base_after += 1;
    assert_eq!(
        fixture.verify(&seal(content), snapshot),
        Err(DevnetEvidenceError::WrongTokenDelta)
    );

    let mut changed = snapshot.clone();
    changed
        .decoded_allowlist
        .push(DecodedInstructionEvidenceV1 {
            transaction: "settlement".to_owned(),
            position: 5,
            program: text(PROGRAM),
            kind: "aggregate-settlement".to_owned(),
            digest: Some(bundle.content.commitments.settlement_digest.clone()),
        });
    assert_eq!(
        fixture.verify(bundle, &changed),
        Err(DevnetEvidenceError::SecondSettlement)
    );

    let mut content = bundle.content.clone();
    content.commitments.result = digest(88);
    assert_eq!(
        fixture.verify(&seal(content), snapshot),
        Err(DevnetEvidenceError::ChangedCommitment)
    );

    let mut content = bundle.content.clone();
    content.explorer_links[5] = "https://explorer.solana.com/tx/wrong?cluster=devnet".to_owned();
    assert_eq!(
        fixture.verify(&seal(content), snapshot),
        Err(DevnetEvidenceError::InvalidPublicField)
    );

    let mut changed = snapshot.clone();
    changed.base_mint = mint_account(Some(Pubkey::new_unique()), None);
    assert_eq!(
        fixture.verify(bundle, &changed),
        Err(DevnetEvidenceError::InvalidTokenAccount)
    );

    let mut changed = snapshot.clone();
    changed.quote_mint = mint_account(None, Some(Pubkey::new_unique()));
    assert_eq!(
        fixture.verify(bundle, &changed),
        Err(DevnetEvidenceError::InvalidTokenAccount)
    );

    let mut changed = snapshot.clone();
    changed.current_token_accounts[0] = token_account([8; 32], [7; 32], 999);
    fixture.verify(bundle, &changed).unwrap();
}

#[test]
fn verifier_rejects_overflowing_public_token_totals_without_panicking() {
    let fixture = verifier_fixture();
    let mut snapshot = fixture.snapshot.clone();
    let mut content = fixture.bundle.content.clone();
    content.token_balances.pool_base_before = u64::MAX;
    content.token_balances.venue_base_before = 1;
    snapshot.token_balances = content.token_balances;

    assert_eq!(
        fixture.verify(&seal(content), &snapshot),
        Err(DevnetEvidenceError::WrongTokenDelta)
    );
}

#[test]
fn verifier_rejects_unicode_hex_without_panicking() {
    let fixture = verifier_fixture();
    let mut content = fixture.bundle.content.clone();
    content.commitments.result = "é".repeat(32);
    assert!(matches!(
        fixture.verify(&seal(content), &fixture.snapshot),
        Err(DevnetEvidenceError::InvalidPublicField)
    ));
}

#[test]
fn published_allowlist_is_the_verified_one() {
    let content = content();
    let ids = ProgramIds {
        program: PROGRAM,
        token_program: token_program(),
        ed25519_program: Pubkey::from_str_const("Ed25519SigVerify111111111111111111111111111")
            .to_bytes(),
        instructions_sysvar: [1; 32],
        clock_sysvar: [2; 32],
    };
    assert_eq!(
        canonical_devnet_allowlist(&content, &ids),
        canonical_allowlist(&content)
    );
}

#[test]
fn public_verifier_checks_ed25519_instruction_signature_bytes() {
    let key = SigningKey::from_bytes(&[41; 32]);
    let digest = [42; 32];
    let signature = key.sign(&digest);
    let instruction = solana_ed25519_program::new_ed25519_instruction_with_signature(
        &digest,
        &signature.to_bytes(),
        &key.verifying_key().to_bytes(),
    );
    let approval = Some(ApprovalRead {
        signer: key.verifying_key().to_bytes(),
        digest,
    });
    assert_eq!(
        verify_ed25519_instruction(&approval, &instruction.data).unwrap(),
        approval.unwrap()
    );
    assert_eq!(
        verify_ed25519_instruction(&None, &instruction.data),
        Err(DevnetEvidenceError::InvalidTransaction)
    );

    let mut tampered = instruction;
    tampered.data[48] ^= 1;
    assert_eq!(
        verify_ed25519_instruction(&approval, &tampered.data),
        Err(DevnetEvidenceError::InvalidTransaction)
    );
}

fn in_base64(transaction: &VersionedTransaction) -> TransactionText {
    TransactionText {
        text: BASE64.encode(bincode::serialize(transaction).unwrap()),
        base58: false,
    }
}

#[test]
fn public_verifier_checks_queried_transaction_identity_and_signatures() {
    let payer = Keypair::new();
    let transaction = Transaction::new_signed_with_payer(
        &[],
        Some(&payer.pubkey()),
        &[&payer],
        Default::default(),
    );
    let expected: [u8; 64] = transaction.signatures[0].into();
    let mut versioned = VersionedTransaction::from(transaction);
    verify_queried_transaction(&in_base64(&versioned), &expected).unwrap();

    assert_eq!(
        verify_queried_transaction(&in_base64(&versioned), &[9; 64]),
        Err(DevnetEvidenceError::InvalidTransaction)
    );
    versioned.signatures[0] = solana_signature::Signature::from([8_u8; 64]);
    assert_eq!(
        verify_queried_transaction(&in_base64(&versioned), &expected),
        Err(DevnetEvidenceError::InvalidTransaction)
    );
    assert_eq!(
        verify_queried_transaction(&in_base64(&versioned), &[8; 64]),
        Err(DevnetEvidenceError::InvalidTransaction)
    );
}

#[test]
fn rpc_response_lengths_are_exact() {
    assert!(validate_rpc_response_len(6, 6).is_ok());
    assert_eq!(
        validate_rpc_response_len(5, 6),
        Err(DevnetEvidenceError::RpcUnavailable)
    );
    assert_eq!(
        validate_rpc_response_len(7, 6),
        Err(DevnetEvidenceError::RpcUnavailable)
    );
}

#[test]
fn build_toolchain_mismatch_names_the_first_changed_identity() {
    let expected = EvidenceBuildToolchainV1 {
        solana_verify: "solana-verify 0.5.1".to_owned(),
        build_image: "solanafoundation/solana-verifiable-build@sha256:test".to_owned(),
    };
    let mut observed = expected.clone();
    observed.build_image = "solanafoundation/solana-verifiable-build@sha256:changed".to_owned();

    assert_eq!(
        build_toolchain_mismatch(&expected, &observed),
        Some(
            "canonical checkpoint build_image differs from evidence: expected \"solanafoundation/solana-verifiable-build@sha256:test\", observed \"solanafoundation/solana-verifiable-build@sha256:changed\""
                .to_owned()
        )
    );
    assert_eq!(build_toolchain_mismatch(&expected, &expected), None);
}

#[test]
fn verified_evidence_is_announced_by_its_address() {
    let mut bundle = seal(content());
    bundle.evidence_sha256 = digest(33);
    bundle.content.transactions.settlement.signature = "signature".to_owned();
    assert_eq!(
        verified_text(&bundle),
        format!(
            "VERIFIED: evidence {} settlement signature\n",
            "21".repeat(32)
        )
    );
}

#[test]
fn checkpoint_mismatches_name_what_was_observed() {
    let artifact = b"\x7fELFcanonical-checkpoint";
    let mut content = content();
    content.checkpoint_artifact_len = artifact.len();
    content.checkpoint_artifact_sha256 = digest_bytes(artifact);
    assert_eq!(checkpoint_mismatch(&content, artifact), None);
    assert_eq!(
        checkpoint_mismatch(&content, b"\x7fELF"),
        Some(format!(
            "canonical checkpoint artifact differs from evidence: expected len {} sha256 {}, \
             observed len 4 sha256 {}",
            artifact.len(),
            digest_bytes(artifact),
            digest_bytes(b"\x7fELF"),
        ))
    );
    assert_eq!(
        solana_verify_mismatch("solana-verify 0.5.1", "solana-verify \"0.5.2\""),
        Some(
            "solana-verify identity differs from checkpoint config: expected \
             \"solana-verify 0.5.1\", observed \"solana-verify \\\"0.5.2\\\"\""
                .to_owned()
        )
    );
    assert_eq!(solana_verify_mismatch("same", "same"), None);
}

#[test]
fn build_configuration_is_pinned() {
    let image = format!(
        "solanafoundation/solana-verifiable-build@sha256:{}",
        "a".repeat(64)
    );
    let known = read_build_config(1, "solana-verify 0.5.1".to_owned(), image.clone());
    assert_eq!(known.map(|tools| tools.build_image), Some(image.clone()));
    assert!(read_build_config(2, "solana-verify 0.5.1".to_owned(), image.clone()).is_none());
    assert!(read_build_config(1, "solana-verify 0.5.2".to_owned(), image).is_none());
    assert!(read_build_config(
        1,
        "solana-verify 0.5.1".to_owned(),
        "solanafoundation/solana-verifiable-build@sha256:test".to_owned()
    )
    .is_none());
    assert!(is_commit(&"aF".repeat(20)));
    assert!(!is_commit(&"g".repeat(40)));
    assert!(!is_commit(&"a".repeat(39)));
}

#[test]
fn programdata_stands_at_the_address_that_the_loader_derives() {
    let loader = Pubkey::new_from_array(upgradeable_loader_id());
    let expected = Pubkey::find_program_address(&[&PROGRAM], &loader).0;
    assert_eq!(programdata_address(&PROGRAM), Some(expected.to_bytes()));
    assert_ne!(programdata_address(&[101; 32]), Some(expected.to_bytes()));
}

#[test]
fn digest_text_is_read_in_either_case_and_written_in_lower_case() {
    let digest: [u8; 32] = Sha256::digest(b"kageb").into();
    let lower = hex_digest(&digest);
    let upper = lower.to_uppercase();
    assert_ne!(lower, upper);
    assert_eq!(parse_digest(&lower), Ok(digest));
    assert_eq!(parse_digest(&upper), Ok(digest));
    assert_eq!(hex_digest(&parse_digest(&upper).unwrap()), upper.to_lowercase());
    assert_eq!(
        parse_digest(&lower[1..]),
        Err(DevnetEvidenceError::InvalidPublicField)
    );
    let mut spoiled = lower.clone();
    spoiled.replace_range(0..1, "g");
    assert_eq!(
        parse_digest(&spoiled),
        Err(DevnetEvidenceError::InvalidPublicField)
    );
}
