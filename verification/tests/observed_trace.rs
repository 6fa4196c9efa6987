use base64::{engine::general_purpose::STANDARD as BASE64, Engine as _};
use ed25519_dalek::Signer as _;
use kageb::{
    canonical_devnet_allowlist, check_genesis, clock_time, deadlines, decode_confirmed,
    decode_observed_call, decode_observed_funding, decode_transactions, direct_funds,
    evidence_signatures, finality_step, has_failed, has_lot_of_pool, is_aborted_unchanged, is_diagnostic,
    is_executable_mode, is_final, is_first_signature, is_free_port, is_funded, is_past,
    is_private_mode, is_settled_as_approved, is_settled_balanced, is_settled_buying_two,
    is_stale, local_transcript_text, may_try_again, observer_accounts,
    observer_comparison, parse_amount, required_setup_balance, settlement_amounts,
    settlement_payload, snapshot_transaction, take_epoch, tell, token_amount, ApprovalRead, CompactSettlementV1,
    DevnetEvidenceContentV1, DevnetEvidenceError, DirectMarketAccounts, DirectOrder, EpochStateV1,
    EpochTerminalState, EvidenceAccountsV1, EvidenceBuildToolchainV1, EvidenceCommitmentsV1,
    EvidenceConfigurationV1, EvidenceDeploymentV1, EvidenceTokenBalancesV1, EvidenceTransactionV1,
    EvidenceTransactionsV1, ExtractedUpgradeableProgramV1, FetchedAnswer, FetchedTransaction,
    FinalityStep, FundingSeen, FundingTransactionEvidenceV1, InnerRead, InstructionRead, KagebRead,
    LockPayloadV1, ObservedInner, ObservedTransaction, ObserverError, PoolStateV1, ProgramIds, ProgramRead,
    PublicAction, PublicTrace, Residual, RunSeen, Side, StatusRead, TokenBalanceRead,
    TransactionRead, TransactionText, FETCH_TRIES, FINALITY_TRIES,
};
use solana_keypair::Keypair;
use solana_message::{
    compiled_instruction::CompiledInstruction, legacy::Message, MessageHeader, VersionedMessage,
};
use solana_program::pubkey::Pubkey;
use solana_signature::Signature;
use solana_signer::Signer as _;
use solana_transaction::versioned::VersionedTransaction;
use solana_transaction::Transaction;

const LOCK_DIGEST: [u8; 32] = [5; 32];
const SETTLEMENT_DIGEST: [u8; 32] = [7; 32];

fn text(key: [u8; 32]) -> String {
    bs58::encode(key).into_string()
}

fn key(value: u8) -> String {
    text([value; 32])
}

fn digest(value: u8) -> String {
    format!("{value:02x}").repeat(32)
}

fn ids() -> ProgramIds {
    ProgramIds {
        program: [100; 32],
        token_program: spl_token_interface::ID.to_bytes(),
        ed25519_program: [101; 32],
        instructions_sysvar: [102; 32],
        clock_sysvar: [103; 32],
    }
}

fn signer(index: u8) -> ed25519_dalek::SigningKey {
    ed25519_dalek::SigningKey::from_bytes(&[70 + index; 32])
}

fn transaction(value: u8, slot: u64) -> EvidenceTransactionV1 {
    EvidenceTransactionV1 {
        signature: bs58::encode([value; 64]).into_string(),
        slot,
    }
}

fn content() -> DevnetEvidenceContentV1 {
    let mut content = DevnetEvidenceContentV1 {
        cluster: "devnet".to_owned(),
        public_commit: "1".repeat(40),
        build_toolchain: EvidenceBuildToolchainV1 {
            solana_verify: "solana-verify 0.5.1".to_owned(),
            build_image: "solanafoundation/solana-verifiable-build@sha256:test".to_owned(),
        },
        checkpoint_artifact_len: 24,
        checkpoint_artifact_sha256: digest(1),
        deployment: EvidenceDeploymentV1 {
            program: text(ids().program),
            loader: key(1),
            programdata: key(2),
            deployment_slot: 80,
            upgrade_authority: Some(key(3)),
            deployed_executable_sha256: digest(1),
        },
        transactions: EvidenceTransactionsV1 {
            funding: std::array::from_fn(|index| FundingTransactionEvidenceV1 {
                authority: key(index as u8 + 20),
                base_source: key(index as u8 + 50),
                quote_source: key(index as u8 + 60),
                transaction: transaction(index as u8 + 30, 90 + index as u64),
            }),
            lock: transaction(40, 100),
            settlement: transaction(41, 101),
        },
        accounts: EvidenceAccountsV1 {
            fee_payer: key(18),
            operator: key(4),
            pool: key(5),
            epoch: key(6),
            vault_authority: key(7),
            base_mint: key(8),
            quote_mint: key(9),
            pool_base_vault: key(10),
            pool_quote_vault: key(11),
            venue_authority: key(12),
            venue_base_account: key(13),
            venue_quote_account: key(14),
            token_program: text(ids().token_program),
        },
        configuration: EvidenceConfigurationV1 {
            epoch_id: digest(2),
            minimum_count: 4,
            member_count: 4,
            lock_threshold: 2,
            settlement_threshold: 2,
            keypers: [0, 1, 2].map(|index| text(signer(index).verifying_key().to_bytes())),
            base_lot_atoms: 1,
            quote_atoms_per_lot: 100,
        },
        commitments: EvidenceCommitmentsV1 {
            configuration_hash: digest(9),
            pre_balance_root: digest(3),
            member_set: digest(4),
            lock_digest: digest(5),
            result: digest(6),
            settlement_digest: digest(7),
            local_transcript_sha256: digest(8),
        },
        token_balances: EvidenceTokenBalancesV1 {
            pool_base_before: 4,
            pool_base_after: 5,
            pool_quote_before: 400,
            pool_quote_after: 300,
            venue_base_before: 10,
            venue_base_after: 9,
            venue_quote_before: 0,
            venue_quote_after: 100,
        },
        decoded_allowlist: Vec::new(),
        explorer_links: Vec::new(),
    };
    content.decoded_allowlist = canonical_devnet_allowlist(&content, &ids());
    content
}

fn transfer(amount: u64) -> Vec<u8> {
    let mut data = vec![12];
    data.extend_from_slice(&amount.to_le_bytes());
    data.push(0);
    data
}

/// An instruction with what the program's code makes of it.
struct Shown {
    program_id_index: u8,
    accounts: Vec<u8>,
    data: Vec<u8>,
    read: ProgramRead,
}

/// A transaction, before it is encoded.
struct Sample {
    keys: Vec<[u8; 32]>,
    instructions: Vec<Shown>,
    inner: Vec<ObservedInner>,
}

const NOTHING: ProgramRead = ProgramRead {
    approval: None,
    kageb: None,
    settled: None,
};

fn in_base64(transaction: &VersionedTransaction) -> TransactionText {
    TransactionText {
        text: BASE64.encode(bincode::serialize(transaction).unwrap()),
        base58: false,
    }
}

impl Sample {
    fn message(&self) -> VersionedMessage {
        VersionedMessage::Legacy(Message {
            header: MessageHeader {
                num_required_signatures: 2,
                num_readonly_signed_accounts: 0,
                num_readonly_unsigned_accounts: 1,
            },
            account_keys: self.keys.iter().map(|key| Pubkey::from(*key)).collect(),
            recent_blockhash: Default::default(),
            instructions: self
                .instructions
                .iter()
                .map(|shown| CompiledInstruction {
                    program_id_index: shown.program_id_index,
                    accounts: shown.accounts.clone(),
                    data: shown.data.clone(),
                })
                .collect(),
        })
    }

    fn reads(&self) -> Vec<ProgramRead> {
        self.instructions.iter().map(|shown| shown.read).collect()
    }

    fn parts(&self) -> TransactionRead {
        TransactionRead {
            signatures: vec![[0; 64]; 2],
            required_signatures: 2,
            keys: self.keys.clone(),
            instructions: self
                .instructions
                .iter()
                .map(|shown| InstructionRead {
                    program_id_index: shown.program_id_index,
                    accounts: shown.accounts.clone(),
                    data: shown.data.clone(),
                })
                .collect(),
        }
    }

    fn encoded(&self) -> TransactionText {
        in_base64(&VersionedTransaction {
            signatures: vec![Signature::default(); 2],
            message: self.message(),
        })
    }

    fn confirmed(self) -> FetchedTransaction {
        FetchedTransaction {
            has_status: true,
            failed: false,
            encoded: Some(self.encoded()),
            reads: self.reads(),
            inner: self.inner,
            before: Some(Vec::new()),
            after: Some(Vec::new()),
        }
    }
}

fn plain(program_id_index: u8, accounts: Vec<u8>, data: Vec<u8>) -> Shown {
    Shown {
        program_id_index,
        accounts,
        data,
        read: NOTHING,
    }
}

fn approval(program_id_index: u8, keyper: u8, digest: [u8; 32]) -> Shown {
    let key = signer(keyper);
    let public = key.verifying_key().to_bytes();
    let instruction = solana_ed25519_program::new_ed25519_instruction_with_signature(
        &digest,
        &key.sign(&digest).to_bytes(),
        &public,
    );
    Shown {
        program_id_index,
        accounts: Vec::new(),
        data: instruction.data,
        read: ProgramRead {
            approval: Some(ApprovalRead {
                signer: public,
                digest,
            }),
            ..NOTHING
        },
    }
}

fn balance(account_index: u8, mint: u8, owner: u8, amount: u64) -> TokenBalanceRead {
    TokenBalanceRead {
        account_index,
        mint: key(mint),
        owner: Some(key(owner)),
        program: Some(text(ids().token_program)),
        decimals: 0,
        amount: amount.to_string(),
    }
}

fn funding_sample(index: u8, fee_payer: [u8; 32], authority: [u8; 32]) -> Sample {
    Sample {
        keys: vec![
            fee_payer,
            authority,
            [50 + index; 32],
            [8; 32],
            [10; 32],
            [60 + index; 32],
            [9; 32],
            [11; 32],
            ids().token_program,
        ],
        instructions: vec![
            plain(8, vec![2, 3, 4, 1], transfer(1)),
            plain(8, vec![5, 6, 7, 1], transfer(100)),
        ],
        inner: Vec::new(),
    }
}

fn with_funding_balances(
    mut fetched: FetchedTransaction,
    index: u8,
    authority: [u8; 32],
) -> FetchedTransaction {
    let funded = index as u64;
    let paid = |account_index: u8, mint: u8, amount: u64| TokenBalanceRead {
        owner: Some(text(authority)),
        ..balance(account_index, mint, 0, amount)
    };
    fetched.before = Some(vec![
        paid(2, 8, 1),
        balance(4, 8, 7, funded),
        paid(5, 9, 100),
        balance(7, 9, 7, funded * 100),
    ]);
    fetched.after = Some(vec![
        paid(2, 8, 0),
        balance(4, 8, 7, funded + 1),
        paid(5, 9, 0),
        balance(7, 9, 7, funded * 100 + 100),
    ]);
    fetched
}

fn funding(index: u8) -> FetchedTransaction {
    let authority = [20 + index; 32];
    let sample = funding_sample(index, [18; 32], authority);
    with_funding_balances(sample.confirmed(), index, authority)
}

fn lock() -> Sample {
    let ids = ids();
    Sample {
        keys: vec![
            [18; 32],
            [4; 32],
            [5; 32],
            [6; 32],
            ids.instructions_sysvar,
            ids.clock_sysvar,
            ids.ed25519_program,
            ids.program,
        ],
        instructions: vec![
            approval(6, 0, LOCK_DIGEST),
            approval(6, 1, LOCK_DIGEST),
            Shown {
                program_id_index: 7,
                accounts: vec![1, 2, 3, 4, 5],
                data: vec![2],
                read: ProgramRead {
                    kageb: Some(KagebRead::Lock {
                    payload: LockPayloadV1 {
                        epoch_account: [6; 32],
                        configuration_hash: [9; 32],
                        pre_balance_root: [3; 32],
                        member_root: [4; 32],
                        member_count: 4,
                        lock_deadline: 1_000,
                        lock_nonce: [10; 32],
                    },
                    digest: LOCK_DIGEST,
                    }),
                    ..NOTHING
                },
            },
        ],
        inner: Vec::new(),
    }
}

fn settlement() -> Sample {
    let ids = ids();
    Sample {
        keys: vec![
            [18; 32],
            [4; 32],
            [5; 32],
            [6; 32],
            [7; 32],
            [10; 32],
            [11; 32],
            [12; 32],
            [13; 32],
            [14; 32],
            [8; 32],
            [9; 32],
            ids.token_program,
            ids.instructions_sysvar,
            ids.clock_sysvar,
            ids.ed25519_program,
            ids.program,
        ],
        instructions: vec![
            approval(15, 0, SETTLEMENT_DIGEST),
            approval(15, 2, SETTLEMENT_DIGEST),
            Shown {
                program_id_index: 16,
                accounts: (1..15).collect(),
                data: vec![3],
                read: ProgramRead {
                    settled: Some(SETTLEMENT_DIGEST),
                    kageb: Some(KagebRead::Settle {
                    terms: CompactSettlementV1 {
                        result_commitment: [6; 32],
                        residual_side: 1,
                        residual_lots: 1,
                        settlement_nonce: [11; 32],
                    },
                    }),
                    ..NOTHING
                },
            },
        ],
        inner: vec![ObservedInner {
            index: 2,
            instructions: vec![
                Some(InnerRead {
                    program_id_index: 12,
                    accounts: vec![6, 11, 9, 4],
                    data: bs58::encode(transfer(100)).into_string(),
                }),
                Some(InnerRead {
                    program_id_index: 12,
                    accounts: vec![8, 10, 5, 7],
                    data: bs58::encode(transfer(1)).into_string(),
                }),
            ],
        }],
    }
}

fn with_settlement_balances(mut fetched: FetchedTransaction) -> FetchedTransaction {
    fetched.before = Some(vec![
        balance(5, 8, 7, 4),
        balance(6, 9, 7, 400),
        balance(8, 8, 12, 10),
        balance(9, 9, 12, 0),
    ]);
    fetched.after = Some(vec![
        balance(5, 8, 7, 5),
        balance(6, 9, 7, 300),
        balance(8, 8, 12, 9),
        balance(9, 9, 12, 100),
    ]);
    fetched
}

fn fetched_settlement() -> FetchedTransaction {
    with_settlement_balances(settlement().confirmed())
}

fn decode(
    fundings: &[FetchedTransaction; 4],
    lock: &FetchedTransaction,
    settlement: &FetchedTransaction,
) -> Result<(), DevnetEvidenceError> {
    let content = content();
    let fundings = [&fundings[0], &fundings[1], &fundings[2], &fundings[3]];
    let (decoded, balances) = decode_transactions(&fundings, lock, settlement, &content, &ids())?;
    assert_eq!(decoded, content.decoded_allowlist);
    assert_eq!(balances, content.token_balances);
    Ok(())
}

fn fundings() -> [FetchedTransaction; 4] {
    [funding(0), funding(1), funding(2), funding(3)]
}

#[test]
fn fetched_transactions_decode_to_the_canonical_allowlist() {
    assert_eq!(
        decode(&fundings(), &lock().confirmed(), &fetched_settlement()),
        Ok(())
    );
}

#[test]
fn altered_transactions_do_not_decode() {
    let decode_fundings = |fundings: [FetchedTransaction; 4]| {
        decode(&fundings, &lock().confirmed(), &fetched_settlement()).err()
    };
    let decode_lock =
        |lock: Sample| decode(&fundings(), &lock.confirmed(), &fetched_settlement()).err();

    let mut failed = fundings();
    failed[1].failed = true;
    assert_eq!(
        decode_fundings(failed),
        Some(DevnetEvidenceError::FailedTransaction)
    );

    let mut short = fundings();
    short[2].after.as_mut().unwrap()[1].amount = "2".to_owned();
    assert_eq!(
        decode_fundings(short),
        Some(DevnetEvidenceError::InvalidTransaction)
    );

    let mut wrong_amount = fundings();
    let mut sample = funding_sample(0, [18; 32], [20; 32]);
    sample.instructions[0].data = transfer(2);
    wrong_amount[0].encoded = Some(sample.encoded());
    assert_eq!(
        decode_fundings(wrong_amount),
        Some(DevnetEvidenceError::InvalidTransaction)
    );

    let mut made_others = fundings();
    made_others[3].inner = settlement().inner;
    assert_eq!(
        decode_fundings(made_others),
        Some(DevnetEvidenceError::InvalidTransaction)
    );

    let mut garbled = fundings();
    garbled[3].encoded.as_mut().unwrap().text.truncate(40);
    assert_eq!(
        decode_fundings(garbled),
        Some(DevnetEvidenceError::InvalidTransaction)
    );

    let mut twice = lock();
    twice.instructions[1] = approval(6, 0, LOCK_DIGEST);
    assert_eq!(decode_lock(twice), Some(DevnetEvidenceError::WrongKeyper));

    let mut stranger = lock();
    stranger.instructions[1] = approval(6, 3, LOCK_DIGEST);
    assert_eq!(decode_lock(stranger), Some(DevnetEvidenceError::WrongKeyper));

    let mut other_digest = lock();
    other_digest.instructions[1] = approval(6, 1, [8; 32]);
    assert_eq!(
        decode_lock(other_digest),
        Some(DevnetEvidenceError::InvalidTransaction)
    );

    let mut unread = fetched_settlement();
    unread.reads.pop();
    assert_eq!(
        decode(&fundings(), &lock().confirmed(), &unread).err(),
        Some(DevnetEvidenceError::InvalidTransaction)
    );
    let mut undigested = fetched_settlement();
    undigested.reads[2].settled = None;
    assert_eq!(
        decode(&fundings(), &lock().confirmed(), &undigested).err(),
        Some(DevnetEvidenceError::InvalidTransaction)
    );
}

#[test]
fn confirmed_transactions_decode_from_their_text() {
    let fetched = lock().confirmed();
    let decoded = decode_confirmed(&fetched).unwrap();
    assert!(decoded.transaction == lock().parts());

    let base58 = TransactionText {
        text: bs58::encode(BASE64.decode(&lock().encoded().text).unwrap()).into_string(),
        base58: true,
    };
    assert!(base58.decode() == Some(lock().parts()));
    let mislabelled = TransactionText {
        base58: false,
        ..base58
    };
    assert!(mislabelled.decode().is_none());

    let mut parsed = lock().confirmed();
    parsed.encoded = None;
    assert_eq!(
        decode_confirmed(&parsed).err(),
        Some(ObserverError::InvalidEncoding)
    );
    let mut failed = lock().confirmed();
    failed.failed = true;
    assert_eq!(
        decode_confirmed(&failed).err(),
        Some(ObserverError::FailedTransaction)
    );
    let mut unreported = lock().confirmed();
    unreported.has_status = false;
    assert_eq!(
        decode_confirmed(&unreported).err(),
        Some(ObserverError::FailedTransaction)
    );
}

#[test]
fn observer_reads_one_aggregate_from_a_confirmed_lock_and_settlement() {
    let accounts = observer_accounts(&content()).unwrap();
    let trace =
        PublicTrace::from_confirmed_kageb(
            &lock().confirmed(),
            &settlement().confirmed(),
            &accounts,
            &ids(),
        ).unwrap();
    assert_eq!(trace.aggregate_count(), 1);
    assert!(trace.visible_participant_wallets().is_empty());
    assert!(trace.render().contains("pool aggregate: BUY 1 lots"));
    assert!(trace.render().ends_with("keyper approvals 2"));

    let mut wrong_leg = settlement();
    wrong_leg.inner[0].instructions.swap(0, 1);
    assert_eq!(
        PublicTrace::from_confirmed_kageb(
            &lock().confirmed(),
            &wrong_leg.confirmed(),
            &accounts,
            &ids(),
        ).err(),
        Some(ObserverError::UnexpectedAccount)
    );

    let mut extra_key = lock();
    extra_key.keys.push([99; 32]);
    assert_eq!(
        PublicTrace::from_confirmed_kageb(
            &extra_key.confirmed(),
            &settlement().confirmed(),
            &accounts,
            &ids(),
        ).err(),
        Some(ObserverError::UnexpectedAccount)
    );

    let mut no_residual = settlement();
    no_residual.instructions[2].read.kageb = Some(KagebRead::Settle {
        terms: CompactSettlementV1 {
            result_commitment: [6; 32],
            residual_side: 3,
            residual_lots: 1,
            settlement_nonce: [11; 32],
        },
    });
    assert_eq!(
        PublicTrace::from_confirmed_kageb(
            &lock().confirmed(),
            &no_residual.confirmed(),
            &accounts,
            &ids(),
        ).err(),
        Some(ObserverError::InvalidResidual)
    );

    let mut one_approval = lock();
    one_approval.instructions.remove(0);
    assert_eq!(
        PublicTrace::from_confirmed_kageb(
            &one_approval.confirmed(),
            &settlement().confirmed(),
            &accounts,
            &ids(),
        ).err(),
        Some(ObserverError::UnexpectedInstruction)
    );
}

fn direct(wallet: u8, side: Side) -> Sample {
    let (mint, destination, amount) = match side {
        Side::Buy => (9, 14, 100),
        Side::Sell => (8, 13, 1),
    };
    Sample {
        keys: vec![
            [18; 32],
            [wallet; 32],
            [wallet + 100; 32],
            [mint; 32],
            [destination; 32],
            ids().token_program,
        ],
        instructions: vec![plain(5, vec![2, 3, 4, 1], transfer(amount))],
        inner: Vec::new(),
    }
}

#[test]
fn observer_reads_each_wallet_from_direct_orders() {
    let market = DirectMarketAccounts {
        fee_payer: [18; 32],
        base_mint: [8; 32],
        quote_mint: [9; 32],
        venue_base_account: [13; 32],
        venue_quote_account: [14; 32],
        base_lot_atoms: 1,
        quote_atoms_per_lot: 100,
    };
    let orders = [
        direct(31, Side::Buy).confirmed(),
        direct(32, Side::Buy).confirmed(),
        direct(33, Side::Buy).confirmed(),
        direct(34, Side::Sell).confirmed(),
    ];
    let trace = PublicTrace::from_confirmed_direct(&orders, &market, &ids()).unwrap();
    let expected = PublicTrace::direct(&[
        DirectOrder::one_lot([31; 32], Side::Buy),
        DirectOrder::one_lot([32; 32], Side::Buy),
        DirectOrder::one_lot([33; 32], Side::Buy),
        DirectOrder::one_lot([34; 32], Side::Sell),
    ]);
    assert_eq!(trace.render(), expected.render());

    let accounts = observer_accounts(&content()).unwrap();
    let pooled =
        PublicTrace::from_confirmed_kageb(
            &lock().confirmed(),
            &settlement().confirmed(),
            &accounts,
            &ids(),
        ).unwrap();
    assert!(observer_comparison(&trace, &pooled));
    assert!(!observer_comparison(&pooled, &trace));
    assert_eq!(
        local_transcript_text(&trace, &pooled),
        "WARNING: synthetic assets only; this prototype is not safe for real funds.\n\
         WAIT: crowd 3/4\n\
         LOCKED: crowd 4/4\n\
         REFUSED: one share\n\
         QUORUM: all 3 two-share paths agree\n\
         SETTLED: one aggregate\n\
         RESULTS: authenticated balances persisted\n\
         BALANCED: zero residual; no venue leg\n\
         EXPIRED: underfilled; reservations released\n\
         ABORTED: invalid reveal; trading key suspended\n\
         OBSERVER: direct 4 orders; KageB 1 aggregate\n\
         It does not prove unique humans, production anonymity, private funding or withdrawal, a \
         trustless exchange, protection from the KageB operator, or safe use with real funds.\n"
    );

    let mut wrong_amount = direct(31, Side::Buy);
    wrong_amount.instructions[0].data = transfer(99);
    assert_eq!(
        PublicTrace::from_confirmed_direct(&[wrong_amount.confirmed()], &market, &ids()).err(),
        Some(ObserverError::UnexpectedTokenEffect)
    );

    let mut refused = direct(31, Side::Buy);
    refused.instructions[0].data = transfer(99);
    let mut unconfirmed = direct(32, Side::Buy).confirmed();
    unconfirmed.encoded = None;
    assert_eq!(
        PublicTrace::from_confirmed_direct(&[refused.confirmed(), unconfirmed], &market, &ids())
            .err(),
        Some(ObserverError::UnexpectedTokenEffect)
    );

    let order = direct(35, Side::Sell);
    let reads = order.reads();
    assert_eq!(
        PublicTrace::observe_direct(
            &ObservedTransaction {
                transaction: order.parts(),
                reads: &reads,
                inner: &order.inner,
            },
            &market,
            &ids(),
        ),
        Ok(PublicAction::Individual {
            wallet: [35; 32],
            side: Side::Sell,
            lots: 1,
        })
    );
}

#[test]
fn decoded_transactions_show_what_confirmed_ones_show() {
    let accounts = observer_accounts(&content()).unwrap();
    let (lock, settlement) = (lock(), settlement());
    let (lock_reads, settlement_reads) = (lock.reads(), settlement.reads());
    let trace = PublicTrace::observe_kageb(
        &ObservedTransaction {
            transaction: lock.parts(),
            reads: &lock_reads,
            inner: &lock.inner,
        },
        &ObservedTransaction {
            transaction: settlement.parts(),
            reads: &settlement_reads,
            inner: &settlement.inner,
        },
        &accounts,
        &ids(),
    )
    .unwrap();
    assert_eq!(
        trace,
        PublicTrace::from_confirmed_kageb(
            &lock.confirmed(),
            &settlement.confirmed(),
            &accounts,
            &ids(),
        )
        .unwrap()
    );
}

#[test]
fn settlement_terms_are_completed_from_evidence() {
    let content = content();
    let terms = CompactSettlementV1 {
        result_commitment: [6; 32],
        residual_side: 1,
        residual_lots: 1,
        settlement_nonce: [11; 32],
    };
    let payload = settlement_payload(&terms, &content).unwrap();
    assert_eq!(payload.epoch_account, [6; 32]);
    assert_eq!(payload.lock_digest, LOCK_DIGEST);
    assert_eq!(payload.pool_quote_vault, [11; 32]);
    assert_eq!(payload.quote_atoms_per_lot, 100);
    assert_eq!(payload.settlement_nonce, [11; 32]);

    let mut unnamed = content;
    unnamed.accounts.epoch = "not a key".to_owned();
    assert_eq!(
        settlement_payload(&terms, &unnamed),
        Err(DevnetEvidenceError::InvalidPublicField)
    );
}

fn answer(fetched: FetchedTransaction, slot: u64) -> FetchedAnswer {
    FetchedAnswer {
        status: Some(StatusRead {
            slot: slot + 1,
            finalized: true,
            failed: false,
        }),
        given: Some((slot, fetched)),
    }
}

/// An epoch whose transactions are really signed.
fn signed_epoch() -> (DevnetEvidenceContentV1, [FetchedAnswer; 6]) {
    let fee_payer = Keypair::new_from_array([118; 32]);
    let operator = Keypair::new_from_array([104; 32]);
    let payer = fee_payer.pubkey().to_bytes();
    let mut content = content();
    content.accounts.fee_payer = text(payer);
    content.accounts.operator = text(operator.pubkey().to_bytes());

    let sign = |sample: Sample, second: &Keypair| {
        let transaction = VersionedTransaction::try_new(sample.message(), &[&fee_payer, second])
            .expect("signed transaction");
        let signature = transaction.signatures[0].to_string();
        let mut fetched = sample.confirmed();
        fetched.encoded = Some(in_base64(&transaction));
        (signature, fetched)
    };
    let mut answers = Vec::new();
    for index in 0..4_u8 {
        let authority = Keypair::new_from_array([120 + index; 32]);
        let public = authority.pubkey().to_bytes();
        let (signature, fetched) = sign(funding_sample(index, payer, public), &authority);
        let named = &mut content.transactions.funding[index as usize];
        named.authority = text(public);
        named.transaction.signature = signature;
        answers.push(answer(
            with_funding_balances(fetched, index, public),
            90 + index as u64,
        ));
    }
    let mut lock = lock();
    lock.keys[0] = payer;
    lock.keys[1] = operator.pubkey().to_bytes();
    let (signature, fetched) = sign(lock, &operator);
    content.transactions.lock.signature = signature;
    answers.push(answer(fetched, 100));
    let mut settlement = settlement();
    settlement.keys[0] = payer;
    settlement.keys[1] = operator.pubkey().to_bytes();
    let (signature, fetched) = sign(settlement, &operator);
    content.transactions.settlement.signature = signature;
    answers.push(answer(with_settlement_balances(fetched), 101));
    (content, answers.try_into().ok().expect("six answers"))
}

#[test]
fn signed_transactions_of_an_epoch_are_taken_down_and_decoded() {
    let (content, answers) = signed_epoch();
    let signatures = evidence_signatures(&content).unwrap();
    assert_eq!(signatures.len(), 6);
    assert_eq!(
        bs58::encode(signatures[5]).into_string(),
        content.transactions.settlement.signature
    );

    let taken = take_epoch(&answers, &content, &ids()).ok().unwrap();
    assert_eq!(taken.decoded, content.decoded_allowlist);
    assert_eq!(taken.balances, content.token_balances);
    assert_eq!(taken.transactions.len(), 6);
    assert_eq!(
        taken.transactions[4].signature,
        content.transactions.lock.signature
    );
    assert_eq!(
        (taken.transactions[2].slot, taken.transactions[2].status_slot),
        (92, 93)
    );
}

#[test]
fn transactions_other_than_the_signed_ones_are_not_taken_down() {
    let (content, mut swapped) = signed_epoch();
    swapped.swap(0, 1);
    assert_eq!(
        take_epoch(&swapped, &content, &ids()).err(),
        Some(DevnetEvidenceError::InvalidTransaction)
    );

    let (content, mut unsigned) = signed_epoch();
    let mut sample = lock();
    sample.keys[0] = [18; 32];
    let lock_answer = unsigned[4].given.as_mut().unwrap();
    lock_answer.1.encoded = Some(sample.encoded());
    assert_eq!(
        take_epoch(&unsigned, &content, &ids()).err(),
        Some(DevnetEvidenceError::InvalidTransaction)
    );

    let (content, mut missing) = signed_epoch();
    missing[3].given = None;
    assert_eq!(
        take_epoch(&missing, &content, &ids()).err(),
        Some(DevnetEvidenceError::MissingTransaction)
    );

    let (mut content, answers) = signed_epoch();
    content.transactions.lock.signature = "no signature".to_owned();
    assert_eq!(
        evidence_signatures(&content),
        Err(DevnetEvidenceError::InvalidPublicField)
    );
    assert_eq!(
        take_epoch(&answers, &content, &ids()).err(),
        Some(DevnetEvidenceError::InvalidPublicField)
    );
}

#[test]
fn snapshots_take_down_only_the_transaction_that_was_asked_for() {
    let payer = Keypair::new();
    let transaction = Transaction::new_signed_with_payer(
        &[],
        Some(&payer.pubkey()),
        &[&payer],
        Default::default(),
    );
    let signature = transaction.signatures[0].to_string();
    let expected: [u8; 64] = transaction.signatures[0].into();
    assert!(is_first_signature(&[expected, [1; 64]], &expected));
    assert!(!is_first_signature(&[[1; 64], expected], &expected));
    assert!(!is_first_signature(&[], &expected));
    let encoded = in_base64(&VersionedTransaction::from(transaction));
    let given = || FetchedTransaction {
        has_status: true,
        failed: false,
        encoded: Some(encoded.clone()),
        reads: Vec::new(),
        inner: Vec::new(),
        before: None,
        after: None,
    };
    let snapshot = snapshot_transaction(&signature, &answer(given(), 90)).unwrap();
    assert_eq!(snapshot.signature, signature);
    assert_eq!((snapshot.slot, snapshot.status_slot), (90, 91));
    assert!(snapshot.finalized && snapshot.succeeded);
    let mut unreported = answer(given(), 90);
    unreported.status = None;
    assert_eq!(
        snapshot_transaction(&signature, &unreported),
        Err(DevnetEvidenceError::MissingTransaction)
    );
    assert_eq!(
        snapshot_transaction(
            &bs58::encode([1; 64]).into_string(),
            &answer(given(), 90)
        ),
        Err(DevnetEvidenceError::InvalidTransaction)
    );
    assert_eq!(
        snapshot_transaction("signature", &answer(given(), 90)),
        Err(DevnetEvidenceError::InvalidPublicField)
    );
    let mut parsed = given();
    parsed.encoded = None;
    assert_eq!(
        snapshot_transaction(&signature, &answer(parsed, 90)),
        Err(DevnetEvidenceError::InvalidTransaction)
    );
    assert_eq!(check_genesis("EtWTRABZaYq6iMfeYKouRu166VU2xqa1wcaWoxPkrZBG"), Ok(()));
    assert_eq!(
        check_genesis("5eykt4UsFv8P8NJdTREpY1vzqKqZKvdpKuc147dw2N9d"),
        Err(DevnetEvidenceError::WrongGenesis)
    );
}

#[test]
fn amounts_are_plain_decimals() {
    assert_eq!(parse_amount("0"), Some(0));
    assert_eq!(parse_amount("+12"), Some(12));
    assert_eq!(parse_amount("18446744073709551615"), Some(u64::MAX));
    for refused in ["", "+", "-1", "1.0", "1_0", "18446744073709551616"] {
        assert_eq!(parse_amount(refused), None);
    }
    let mut data = vec![0; 165];
    data[64..72].copy_from_slice(&77_u64.to_le_bytes());
    assert_eq!(token_amount(&data), Some(77));
    assert_eq!(token_amount(&data[..71]), None);
}

fn state(terminal_state: EpochTerminalState) -> EpochStateV1 {
    EpochStateV1 {
        epoch_bump: 1,
        terminal_state,
        residual_side: 0,
        pool: [5; 32],
        epoch_id: [2; 32],
        configuration_hash: [9; 32],
        pre_balance_root: [3; 32],
        member_root: [4; 32],
        lock_digest: [5; 32],
        result_commitment: [6; 32],
        settlement_digest: [7; 32],
        lock_nonce: [10; 32],
        settlement_nonce: [11; 32],
        member_count: 4,
        minimum_count: 4,
        residual_lots: 0,
        base_lot_atoms: 1,
        quote_atoms_per_lot: 100,
        lock_deadline: 1_000,
        abort_deadline: 2_000,
    }
}

#[test]
fn run_checks_are_exact() {
    assert!(is_funded(&[4, 400, 10, 0]));
    assert!(!is_funded(&[4, 400, 10, 1]));
    assert!(is_settled_buying_two(
        EpochTerminalState::Settled,
        &[6, 200, 8, 200]
    ));
    assert!(!is_settled_buying_two(
        EpochTerminalState::Locked,
        &[6, 200, 8, 200]
    ));
    let settled = EpochStateV1 {
        member_count: 4,
        result_commitment: [5; 32],
        ..state(EpochTerminalState::Settled)
    };
    assert!(is_settled_as_approved(&settled, &[5; 32]));
    assert!(!is_settled_as_approved(&settled, &[6; 32]));
    let short = EpochStateV1 {
        member_count: 3,
        ..settled
    };
    assert!(!is_settled_as_approved(&short, &[5; 32]));
    let pool = PoolStateV1 {
        pool_bump: 250,
        vault_bump: 251,
        lock_threshold: 2,
        settlement_threshold: 2,
        operator: [4; 32],
        base_mint: [8; 32],
        quote_mint: [9; 32],
        pool_base_vault: [10; 32],
        pool_quote_vault: [11; 32],
        venue_authority: [12; 32],
        venue_base_account: [13; 32],
        venue_quote_account: [14; 32],
        keypers: [[15; 32], [16; 32], [17; 32]],
        base_lot_atoms: 1,
    };
    assert!(has_lot_of_pool(&settled, &pool));
    let other = PoolStateV1 {
        base_lot_atoms: 2,
        ..pool
    };
    assert!(!has_lot_of_pool(&settled, &other));
    assert_eq!(direct_funds(Side::Buy), (1, 200));
    assert_eq!(direct_funds(Side::Sell), (2, 100));
    let amounts = [4, 400, 10, 0];
    assert!(is_settled_balanced(
        &state(EpochTerminalState::Settled),
        &amounts,
        &amounts
    ));
    assert!(is_aborted_unchanged(
        &state(EpochTerminalState::Aborted),
        &amounts,
        &amounts
    ));
    assert!(!is_aborted_unchanged(
        &state(EpochTerminalState::Aborted),
        &amounts,
        &[4, 400, 10, 1]
    ));
    assert_eq!(deadlines(100, 30, 60), Some((130, 160)));
    assert_eq!(deadlines(i64::MAX, 0, 1), None);
    assert_eq!(required_setup_balance(u64::MAX, 1, 1), None);
    assert!(is_free_port(8_000, 9_000, 9_100, None));
    assert!(!is_free_port(9_050, 9_000, 9_100, None));
    assert!(!is_free_port(8_001, 9_000, 9_100, Some(8_000)));
    assert!(is_stale(None, &[]));
    assert!(is_stale(Some(5), &[4, 6]));
    assert!(!is_stale(Some(6), &[4, 6]));
    assert!(is_diagnostic(b"Program failed to complete"));
    assert!(!is_diagnostic(b"all is well"));
    assert_eq!(finality_step(&None), FinalityStep::Wait);
    let status = |finalized, failed| {
        Some(StatusRead {
            slot: 1,
            finalized,
            failed,
        })
    };
    assert_eq!(finality_step(&status(true, false)), FinalityStep::Fetch);
    assert_eq!(finality_step(&status(true, true)), FinalityStep::Fail);
    assert_eq!(finality_step(&status(false, false)), FinalityStep::Wait);
}

#[test]
fn published_evidence_tells_what_a_run_saw() {
    let expected = content();
    let accounts = observer_accounts(&expected).unwrap();
    let seen = RunSeen {
        public_commit: "1".repeat(40),
        build_toolchain: expected.build_toolchain.clone(),
        artifact: b"\x7fELFcanonical-checkpoint".to_vec(),
        programdata: [2; 32],
        loader: [1; 32],
        deployed: ExtractedUpgradeableProgramV1 {
            deployment_slot: 80,
            upgrade_authority: Some([3; 32]),
            executable: b"\x7fELFcanonical-checkpoint".to_vec(),
            executable_sha256: digest(1),
        },
        funding: std::array::from_fn(|index| FundingSeen {
            authority: [index as u8 + 20; 32],
            base_source: [index as u8 + 50; 32],
            quote_source: [index as u8 + 60; 32],
            transaction: transaction(index as u8 + 30, 90 + index as u64),
        }),
        lock: transaction(40, 100),
        settlement: transaction(41, 101),
        accounts,
        epoch_id: [2; 32],
        keypers: [0, 1, 2].map(|index| signer(index).verifying_key().to_bytes()),
        configuration_hash: [9; 32],
        pre_balance_root: [3; 32],
        member_root: [4; 32],
        lock_digest: [5; 32],
        result_commitment: [6; 32],
        settlement_digest: [7; 32],
        transcript: Vec::new(),
        before: [4, 400, 10, 0],
        after: [5, 300, 9, 100],
    };
    let told = tell(&seen, &ids());
    assert_eq!(told.accounts, expected.accounts);
    assert_eq!(told.transactions, expected.transactions);
    assert_eq!(told.configuration, expected.configuration);
    assert_eq!(told.token_balances, expected.token_balances);
    assert_eq!(told.decoded_allowlist, expected.decoded_allowlist);
    assert_eq!(told.commitments.lock_digest, digest(5));
    assert_eq!(told.commitments.member_set, digest(4));
    assert_eq!(told.explorer_links.len(), 6);
    assert_eq!(told.checkpoint_artifact_len, 24);
}

#[test]
fn trace_of_a_balanced_epoch_has_no_venue_leg() {
    let mut balanced = settlement();
    balanced.inner.clear();
    balanced.instructions[2].read.kageb = Some(KagebRead::Settle {
        terms: CompactSettlementV1 {
            result_commitment: [6; 32],
            residual_side: 0,
            residual_lots: 0,
            settlement_nonce: [11; 32],
        },
    });
    let accounts = observer_accounts(&content()).unwrap();
    let trace = PublicTrace::from_confirmed_kageb(
            &lock().confirmed(),
            &balanced.confirmed(),
            &accounts,
            &ids(),
        ).unwrap();
    let expected = PublicTrace::pooled([5; 32], [12; 32], Residual::Balanced, [4; 32], [6; 32]);
    assert!(trace
        .render()
        .starts_with(expected.render().trim_end_matches('0')));
}

#[test]
fn decoded_transactions_are_checked_on_given_values() {
    let content = content();
    let sample = funding_sample(0, [18; 32], [20; 32]);
    let reads = sample.reads();
    let seen = ObservedTransaction {
        transaction: sample.parts(),
        reads: &reads,
        inner: &sample.inner,
    };
    let fetched = funding(0);
    let before = fetched.before.unwrap();
    let after = fetched.after.unwrap();
    let mut used = Vec::new();
    let decoded = decode_observed_funding(
        &seen,
        &before,
        &after,
        0,
        &content.transactions.funding[0],
        &content,
        &mut used,
        &ids().token_program,
    )
    .unwrap();
    assert_eq!(decoded, content.decoded_allowlist[..2]);
    assert_eq!(used, [[50; 32], [60; 32]]);
    assert_eq!(
        decode_observed_funding(
            &seen,
            &before,
            &after,
            1,
            &content.transactions.funding[0],
            &content,
            &mut used,
            &ids().token_program,
        ),
        Err(DevnetEvidenceError::InvalidTransaction)
    );
    assert_eq!(used.len(), 2);

    let sample = settlement();
    let reads = sample.reads();
    let seen = ObservedTransaction {
        transaction: sample.parts(),
        reads: &reads,
        inner: &sample.inner,
    };
    let decoded = decode_observed_call(&seen, true, "settlement", &content, &ids()).unwrap();
    assert_eq!(decoded, content.decoded_allowlist[11..]);
    assert_eq!(
        decode_observed_call(&seen, false, "settlement", &content, &ids()),
        Err(DevnetEvidenceError::InvalidTransaction)
    );
    assert_eq!(
        decode_observed_call(&seen, true, "lock", &content, &ids()),
        Err(DevnetEvidenceError::InvalidTransaction)
    );

    let fetched = fetched_settlement();
    let amounts = settlement_amounts(
        &sample.keys,
        &fetched.before.unwrap(),
        &fetched.after.unwrap(),
        &content,
        &ids().token_program,
    );
    assert_eq!(amounts, Ok(content.token_balances));
}

#[test]
fn small_decisions_of_a_run_are_exact() {
    assert!(may_try_again(FETCH_TRIES - 1, FETCH_TRIES));
    assert!(!may_try_again(FINALITY_TRIES, FINALITY_TRIES));
    assert!(is_executable_mode(0o100010));
    assert!(!is_executable_mode(0o100644));
    assert!(has_failed(true, false) && has_failed(false, true) && !has_failed(false, false));
    assert!(is_final(None) && !is_final(Some(3)));
    assert!(is_past(11, 10));
    assert!(!is_past(10, 10));
    assert!(is_private_mode(0o100700));
    assert!(!is_private_mode(0o100740));
    let mut clock = vec![0; 40];
    clock[32..].copy_from_slice(&(-5_i64).to_le_bytes());
    assert_eq!(clock_time(&clock), Some(-5));
    assert_eq!(clock_time(&clock[..39]), None);
}
