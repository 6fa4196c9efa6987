//! KageB: a pooled order protocol whose rules are stated as contracts and proved.

pub mod account;
pub mod admission;
pub mod batch;
pub mod bytes;
pub mod client;
pub mod client_laws;
pub mod codec;
pub mod commitment;
pub mod crypto;
pub mod decode_laws;
pub mod domain;
pub mod encodings;
pub mod evidence;
pub mod evidence_calls;
pub mod evidence_checks;
pub mod evidence_decode;
pub mod evidence_laws;
pub mod evidence_snapshot;
pub mod evidence_state;
pub mod fixture;
pub mod hash;
pub mod idmap;
pub mod intents;
pub mod journal;
pub mod keyper;
pub mod keyper_laws;
pub mod layouts;
pub mod ledger;
pub mod lock;
pub mod lock_laws;
pub mod lockwire;
pub mod member;
pub mod observer;
pub mod observer_laws;
pub mod program;
pub mod publish;
pub mod redaction;
pub mod refusal_laws;
pub mod request;
pub mod run;
pub mod settlement;
pub mod settlement_laws;
pub mod shares;
pub mod signing;
pub mod snapshot;
pub mod suspension;
pub mod text;
pub mod threshold;
pub mod tokens;
pub mod transaction;

pub use account::{
    finalize_settlement, release_reservations, AccountError, AccountJournal, AccountRecord,
    AccountResultV1,
};
pub use admission::{
    BoundReservation, JournalError, ReservationJournal, ReservationRecord, ReservationState,
    SubmissionV1, UnboundReservation, UnsignedFundedAuthorizationV1,
};
pub use batch::{admit_batch, AdmittedBatch};
pub use client::{
    account_response, check_epoch, check_key_file, check_request_len, decode_base58_32,
    decode_canonical_base64, prepare_order, prepare_response, prepare_submission,
    prepare_submission_of, read_account_request, read_prepare_request, read_result_request,
    receipt_from, result_response, trading_key_from_file, trading_key_from_keypair,
    CLIENT_SCHEMA_VERSION, ClientAccountRequest, ClientAccountResponse, ClientEpochView,
    ClientPrepareError, ClientPrepareRequest, ClientPrepareResponse, ClientResultRequest,
    ClientResultResponse, MAX_CLIENT_REQUEST_LEN, MAX_KEYPAIR_FILE_LEN, PrepareOrderV1,
    PrepareTerms, PreparedOrderV1, SOLANA_KEYPAIR_LEN,
};
pub use commitment::{content_root, root_of_leaves, CommitmentDomain, CommitmentError};
pub use crypto::{
    decode_ciphertext, AdmissionPolicyV1, CryptoError, ENCRYPTED_INTENT_V1_LEN,
    ENCRYPTED_SUBMISSION_V1_LEN, EncryptedIntentV1, EncryptedSubmissionV1,
    FUNDED_AUTHORIZATION_V1_LEN, FundedAuthorizationV1, SIGNED_INTENT_LEN, SignedIntentV1,
};
pub use domain::{INTENT_LEN, INTENT_VERSION, IntentBodyV1, PADDING_START, ProtocolError, Side};
pub use evidence::{
    build_toolchain_mismatch, check_digest, check_key, checkpoint_mismatch, evidence_content_hash,
    hex_digest, hex_nibble, is_commit, is_hex_from, is_identity, parse_digest, parse_pubkey,
    read_build_config, solana_verify_mismatch, starts_as_elf, upgradeable_loader_id,
    validate_rpc_response_len, verified_text, CANONICAL_REPOSITORY, DEVNET_GENESIS_HASH,
    DecodedInstructionEvidenceV1, DevnetEvidenceBundleV1, DevnetEvidenceContentV1,
    DevnetEvidenceError, EvidenceAccountsV1, EvidenceBuildToolchainV1, EvidenceCommitmentsV1,
    EvidenceConfigurationV1, EvidenceDeploymentV1, EvidenceTokenBalancesV1, EvidenceTransactionV1,
    EvidenceTransactionsV1, FundingTransactionEvidenceV1, MAX_CHECKPOINT_BYTES, MAX_EVIDENCE_BYTES,
};
pub use evidence_calls::{
    decode_kageb_transaction, decode_observed_call, settlement_payload, verify_ed25519_instruction,
};
pub use evidence_checks::{
    explorer_link_text, extract_upgradeable_program, programdata_address, require, transaction_at,
    validate_deployment, validate_distinct_funding_authorities, validate_public_fields,
    validate_transactions, DevnetPublicSnapshotV1, ExtractedUpgradeableProgramV1,
    FinalizedTransactionSnapshotV1, PublicAccountSnapshotV1,
};
pub use evidence_decode::{
    decode_funding_transaction, decode_observed_funding, parse_amount, token_balance_at,
    FundingLeg,
};
pub use evidence_snapshot::{
    check_genesis, decode_transactions, evidence_signatures, observer_accounts,
    snapshot_transaction, take_epoch, settlement_amounts, transaction_token_balances,
    verify_queried_transaction, EpochTaken, FetchedAnswer, StatusRead,
};
pub use evidence_state::{
    validate_allowlist, validate_current_token_accounts, validate_program_state,
    validate_public_mint, validate_token_deltas, verify_devnet_evidence, DerivedAccounts,
    ProgramReads,
};
pub use fixture::{trace_fixture, FixtureError};
pub use idmap::IdMap;
pub use intents::{order_digests, recover_intent, recovered_intents_root};
pub use journal::LockJournal;
pub use keyper::{
    answer_self_test, any_contains, append_bound_share, check_lock_response, check_release_response,
    check_rpc_url, check_self_test, check_settlement_response, contains_bytes, decode_bound_share,
    is_private_mode, keyper_position, lock_response, read_release, read_settlement, read_sign_lock, release_frame,
    self_test_request, settlement_frame, sign_lock_frame, trim_range, validate_lock_approval,
    BOUND_SHARE_LEN, KeyperProcessError, KeyperSelfTestResponse, MAX_RELEASE_REQUEST_LEN,
    MAX_SETTLEMENT_FRAME_LEN, MAX_SETTLEMENT_REQUEST_LEN, MAX_SIGN_LOCK_REQUEST_LEN, ProcessOutput,
    RELEASE_PREFIX_LEN, REQUEST_LEN, REQUEST_VERSION, RESPONSE_LEN, SETTLEMENT_STDIN_READ_LIMIT,
    SIGN_LOCK_PREFIX_LEN, SIGN_LOCK_RESPONSE_LEN,
};
pub use ledger::{
    net_batch, BatchConfig, BatchResult, FundedOrder, LedgerError, ParticipantId, PoolBalance,
    Residual, VaultDelta,
};
pub use lock::{
    check_read, confirmed_lock_from_account, confirmed_lock_from_accounts,
    confirmed_open_epoch_from_accounts, decode_program_epoch, recorded_lock_payload, ConfirmedLock,
    ConfirmedOpenEpoch, EpochRead, LockApprovalV1, LockPackageV1, MAX_BATCH_MEMBERS, PoolRead,
    ReferenceKeyper,
};
pub use lockwire::{package_configuration, MAX_EPOCH_PUBLIC_KEYS_LEN};
pub use member::{
    join_epoch, member_balances, member_configuration, JoinError, JoinTerms, MEMBER_BASE_ATOMS,
    MEMBER_QUOTE_ATOMS,
};
pub use observer::{
    account_at, decode_confirmed, exact_kageb_instruction, is_among, names_key, require_accounts,
    require_exact_keys, require_fee_payer, validate_settlement_token_effects, ApprovalRead,
    CompactSettlementV1, DirectMarketAccounts, DirectOrder, KagebObserverAccounts, KagebRead,
    ObserverError, ProgramIds, PublicAction, PublicTrace,
};
pub use program::{
    clock_time, epoch_configuration, same_keypers, ClockRead, ConfirmedTerminalEpoch, DerivedAddress,
    EpochConfigurationV1, EpochStateV1, EpochTerminalState, LockPayloadV1, PoolStateV1,
    SettlementPayloadV1,
};
pub use publish::{tell, FundingSeen, RunSeen};
pub use request::{approval_payload, request_package, SettlementApprovalV1, SettlementRequestV1};
pub use run::{
    canonical_devnet_allowlist, deadlines, devnet_transcript_text, direct_funds, finality_step,
    has_lot_of_pool, is_aborted_unchanged, is_balanced_payload, is_diagnostic, is_executable_mode,
    is_free_port, is_funded, is_past, is_settled_as_approved, is_settled_balanced,
    is_settled_buying_two, is_stale, local_transcript_text, may_try_again, observer_comparison,
    required_setup_balance, token_amount, FinalityStep, FETCH_TRIES, FINALITY_TRIES, RUN_MEMBERS,
};
pub use settlement::{
    per_participant_result_root, read_residual, recompute, residual_wire, result_commitment,
    settlement_balance_root, DecryptionEvidenceV1, RecomputedSettlement, SettlementBalanceV1,
    SettlementValidationError,
};
pub use shares::{EpochDealer, EpochPublicKeys, KeyperSecretShare, ReleasedShareV1};
pub use signing::{SigningKey, VerifyingKey};
pub use snapshot::{
    balance_root, member_root, BalanceRecordV1, LockValidationError, SignedBalanceSnapshotV1,
};
pub use suspension::{SuspendedKey, SuspensionError, SuspensionRegistry};
pub use transaction::{
    has_failed, is_final, is_first_signature, FetchedTransaction, InnerRead, InstructionRead, ObservedInner,
    ObservedTransaction, ProgramRead, TokenBalanceRead, TransactionRead, TransactionText,
};
