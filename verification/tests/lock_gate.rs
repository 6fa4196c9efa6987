use kageb::{
    confirmed_lock_from_account, confirmed_lock_from_accounts, confirmed_open_epoch_from_accounts,
    recorded_lock_payload, BalanceRecordV1, ConfirmedOpenEpoch, DerivedAddress,
    EncryptedSubmissionV1, EpochConfigurationV1, EpochDealer, EpochRead, EpochStateV1,
    EpochTerminalState, FundedAuthorizationV1, IntentBodyV1, LockApprovalV1, LockJournal,
    LockPackageV1, LockPayloadV1, LockValidationError, PoolBalance, PoolRead, PoolStateV1,
    ReferenceKeyper, ReservationJournal, ReservationRecord, Side, SignedBalanceSnapshotV1,
    SignedIntentV1, SigningKey,
};
use sha2::{Digest, Sha256};

const PROGRAM: [u8; 32] = [200; 32];
const SYSVAR: [u8; 32] = [201; 32];
const POOL: [u8; 32] = [202; 32];
const EPOCH_ACCOUNT: [u8; 32] = [203; 32];
const POOL_BUMP: u8 = 254;
const VAULT_BUMP: u8 = 253;
const EPOCH_BUMP: u8 = 252;

fn key(seed: u8) -> SigningKey {
    SigningKey::from_bytes(&[seed; 32])
}

fn configuration_digest(configuration: &EpochConfigurationV1) -> [u8; 32] {
    Sha256::digest(format!("{configuration:?}").as_bytes()).into()
}

fn lock_digest(payload: &LockPayloadV1) -> [u8; 32] {
    Sha256::digest(format!("{payload:?}").as_bytes()).into()
}

fn package_payload(package: &LockPackageV1) -> LockPayloadV1 {
    package.lock_payload(configuration_digest(&package.configuration))
}

fn package_digest(package: &LockPackageV1) -> [u8; 32] {
    lock_digest(&package_payload(package))
}

fn submission(
    id: u8,
    epoch_id: [u8; 32],
    dealer: &EpochDealer,
    operator: &SigningKey,
) -> EncryptedSubmissionV1 {
    let trader = key(id);
    let mut reservations = ReservationJournal::open(None).unwrap();
    let reserved = reservations
        .reserve(
            ReservationRecord::new([id; 32], [id; 32], 1, 100).unwrap(),
            PoolBalance::new(1, 100),
        )
        .unwrap();
    let authorization =
        FundedAuthorizationV1::sign(reserved, epoch_id, trader.verifying_key(), operator, 1_000);
    let body = IntentBodyV1::new(Side::Buy, 1, 100, epoch_id, [id; 32], [id; 16]).unwrap();
    let encrypted = dealer
        .public_keys()
        .encrypt(&SignedIntentV1::sign(body, &trader))
        .unwrap();
    EncryptedSubmissionV1::sign(authorization, encrypted, [id + 20; 32], &trader).unwrap()
}

fn balances() -> Vec<BalanceRecordV1> {
    (1..=4)
        .map(|id| BalanceRecordV1::new([id; 32], 1, 100, 1, 100).unwrap())
        .collect()
}

fn valid_package() -> (LockPackageV1, SigningKey, [SigningKey; 3], EpochDealer) {
    let operator = key(90);
    let attesters = [key(70), key(71), key(72)];
    let epoch_id = [42; 32];
    let dealer = EpochDealer::random().unwrap();
    let submissions: Vec<_> = (1..=4)
        .map(|id| submission(id, epoch_id, &dealer, &operator))
        .collect();
    let snapshot = SignedBalanceSnapshotV1::sign(epoch_id, &balances(), &operator).unwrap();
    let configuration = EpochConfigurationV1 {
        pool: POOL,
        epoch_id,
        base_mint: [2; 32],
        quote_mint: [3; 32],
        base_lot_atoms: 1,
        quote_atoms_per_lot: 100,
        minimum_count: 4,
        lock_threshold: 2,
        settlement_threshold: 2,
        keypers: [
            attesters[0].verifying_key().to_bytes(),
            attesters[1].verifying_key().to_bytes(),
            attesters[2].verifying_key().to_bytes(),
        ],
        lock_deadline: 900,
        abort_deadline: 1_000,
    };
    let package = LockPackageV1::new(
        EPOCH_ACCOUNT,
        configuration,
        dealer.public_keys().clone(),
        submissions,
        balances(),
        snapshot,
        [9; 32],
    )
    .unwrap();
    (package, operator, attesters, dealer)
}

fn pool_read(package: &LockPackageV1, operator: &SigningKey) -> PoolRead {
    let configuration = package.configuration;
    PoolRead {
        owner: PROGRAM,
        state: Some(PoolStateV1 {
            pool_bump: POOL_BUMP,
            vault_bump: VAULT_BUMP,
            lock_threshold: configuration.lock_threshold,
            settlement_threshold: configuration.settlement_threshold,
            operator: operator.verifying_key().to_bytes(),
            base_mint: configuration.base_mint,
            quote_mint: configuration.quote_mint,
            pool_base_vault: [101; 32],
            pool_quote_vault: [102; 32],
            venue_authority: [103; 32],
            venue_base_account: [104; 32],
            venue_quote_account: [105; 32],
            keypers: configuration.keypers,
            base_lot_atoms: configuration.base_lot_atoms,
        }),
        derived: DerivedAddress {
            address: POOL,
            bump: POOL_BUMP,
        },
        vault_bump: VAULT_BUMP,
        configuration_digest: configuration_digest(&configuration),
    }
}

fn epoch_read(package: &LockPackageV1, locked: bool) -> EpochRead {
    let configuration = package.configuration;
    let mut state = EpochStateV1 {
        epoch_bump: EPOCH_BUMP,
        terminal_state: EpochTerminalState::Open,
        residual_side: 0,
        pool: configuration.pool,
        epoch_id: configuration.epoch_id,
        configuration_hash: configuration_digest(&configuration),
        pre_balance_root: [0; 32],
        member_root: [0; 32],
        lock_digest: [0; 32],
        result_commitment: [0; 32],
        settlement_digest: [0; 32],
        lock_nonce: [0; 32],
        settlement_nonce: [0; 32],
        member_count: 0,
        minimum_count: configuration.minimum_count,
        residual_lots: 0,
        base_lot_atoms: configuration.base_lot_atoms,
        quote_atoms_per_lot: configuration.quote_atoms_per_lot,
        lock_deadline: configuration.lock_deadline,
        abort_deadline: configuration.abort_deadline,
    };
    if locked {
        let payload = package_payload(package);
        state.terminal_state = EpochTerminalState::Locked;
        state.pre_balance_root = payload.pre_balance_root;
        state.member_root = payload.member_root;
        state.lock_digest = lock_digest(&payload);
        state.lock_nonce = payload.lock_nonce;
        state.member_count = payload.member_count;
    }
    EpochRead {
        owner: PROGRAM,
        state: Some(state),
        derived: DerivedAddress {
            address: EPOCH_ACCOUNT,
            bump: EPOCH_BUMP,
        },
    }
}

fn clock_data(slot: u64, unix_timestamp: i64) -> Vec<u8> {
    let mut data = slot.to_le_bytes().to_vec();
    data.extend_from_slice(&[0; 24]);
    data.extend_from_slice(&unix_timestamp.to_le_bytes());
    data
}

fn confirm_at(
    package: &LockPackageV1,
    operator: &SigningKey,
    timestamp: i64,
) -> Result<ConfirmedOpenEpoch, LockValidationError> {
    confirmed_open_epoch_from_accounts(
        package.epoch_account(),
        PROGRAM,
        &epoch_read(package, false),
        POOL,
        &pool_read(package, operator),
        SYSVAR,
        SYSVAR,
        &clock_data(500, timestamp),
        500,
    )
}

fn confirmed_open_epoch(package: &LockPackageV1, operator: &SigningKey) -> ConfirmedOpenEpoch {
    confirm_at(package, operator, 800).unwrap()
}

fn new_journal() -> LockJournal {
    LockJournal::open(None, None).unwrap()
}

fn reopen(bytes: &[u8]) -> Result<LockJournal, LockValidationError> {
    LockJournal::open(Some(bytes), Some(&LockJournal::initialization_marker()))
}

#[test]
fn keyper_validates_and_journals_before_signing_one_lock_digest() {
    let (package, operator, attesters, dealer) = valid_package();
    let confirmed = confirmed_open_epoch(&package, &operator);
    let secret = dealer.share(package.epoch_account(), 0);
    let [attester, _, _] = attesters;
    let mut keyper = ReferenceKeyper::new(0, attester, new_journal());

    let digest = package_digest(&package);
    let approval = keyper
        .sign_lock(&package, &confirmed, &secret, digest)
        .unwrap();
    assert!(approval.verify());
    assert_eq!(approval.digest(), digest);
    let bytes = keyper.journal().encode().unwrap();
    assert_eq!(
        reopen(&bytes).unwrap().digest(package.epoch_account()),
        Some(approval.digest())
    );

    let mut conflicting = package.clone();
    conflicting.lock_nonce = [10; 32];
    assert!(
        keyper.sign_lock(
            &conflicting,
            &confirmed,
            &secret,
            package_digest(&conflicting)
        ) == Err(LockValidationError::ConflictingLock)
    );
    assert_eq!(keyper.journal().encode().unwrap(), bytes);

    let repeated = keyper
        .sign_lock(&package, &confirmed, &secret, digest)
        .unwrap();
    assert_eq!(repeated.digest(), approval.digest());
}

#[test]
fn keyper_rejects_crowd_substitution_and_corrupt_journal() {
    let (package, operator, attesters, dealer) = valid_package();
    let confirmed = confirmed_open_epoch(&package, &operator);
    let secret = dealer.share(package.epoch_account(), 0);
    let [attester, _, _] = attesters;
    let mut keyper = ReferenceKeyper::new(0, attester, new_journal());

    let mut wrong_root = package.clone();
    wrong_root.member_root[0] ^= 1;
    assert!(
        keyper.sign_lock(&wrong_root, &confirmed, &secret, package_digest(&wrong_root))
            == Err(LockValidationError::MemberRootMismatch)
    );

    let mut wrong_count = package.clone();
    wrong_count.member_count = 5;
    assert!(
        keyper.sign_lock(
            &wrong_count,
            &confirmed,
            &secret,
            package_digest(&wrong_count)
        ) == Err(LockValidationError::MemberCountMismatch)
    );

    let mut stale = package.clone();
    stale.configuration.lock_deadline = 700;
    assert!(
        keyper.sign_lock(&stale, &confirmed, &secret, package_digest(&stale))
            == Err(LockValidationError::InvalidConfiguration)
    );
    keyper
        .sign_lock(&package, &confirmed, &secret, package_digest(&package))
        .unwrap();
    let mut bytes = keyper.journal().encode().unwrap();
    bytes.truncate(bytes.len() - 1);
    assert!(matches!(
        reopen(&bytes),
        Err(LockValidationError::CorruptJournal)
    ));
}

#[test]
fn keyper_recomputes_every_lock_input_before_signing() {
    let (package, operator, _attesters, dealer) = valid_package();
    let confirmed = confirmed_open_epoch(&package, &operator);

    let rejection = |candidate: &LockPackageV1| {
        let secret = dealer.share(package.epoch_account(), 0);
        let mut keyper = ReferenceKeyper::new(0, key(70), new_journal());
        let outcome = keyper.sign_lock(candidate, &confirmed, &secret, package_digest(candidate));
        assert_eq!(keyper.journal().digest(package.epoch_account()), None);
        outcome
    };

    let mut bad_authorization = package.clone();
    bad_authorization.submissions[0] = submission(
        99,
        package.configuration.epoch_id,
        &EpochDealer::random().unwrap(),
        &key(91),
    );
    assert!(rejection(&bad_authorization) == Err(LockValidationError::InvalidSubmission));

    let mut bad_outer_signature = package.clone();
    let (authorization, ciphertext, receipt, mut signature) =
        bad_outer_signature.submissions[0].clone().into_wire_parts();
    signature[0] ^= 1;
    bad_outer_signature.submissions[0] =
        EncryptedSubmissionV1::from_wire_parts(authorization, ciphertext, receipt, signature);
    assert!(rejection(&bad_outer_signature) == Err(LockValidationError::InvalidSubmission));

    let mut invalid_ciphertext = package.clone();
    let (authorization, mut ciphertext, receipt, signature) =
        invalid_ciphertext.submissions[0].clone().into_wire_parts();
    ciphertext[0] ^= 1;
    invalid_ciphertext.submissions[0] =
        EncryptedSubmissionV1::from_wire_parts(authorization, ciphertext, receipt, signature);
    assert!(rejection(&invalid_ciphertext) == Err(LockValidationError::InvalidSubmission));

    let mut duplicate_participant = package.clone();
    duplicate_participant.submissions[1] = duplicate_participant.submissions[0].clone();
    assert!(rejection(&duplicate_participant) == Err(LockValidationError::DuplicateParticipant));

    let mut false_balance_root = package.clone();
    let mut changed_balances = balances();
    changed_balances[0] = BalanceRecordV1::new([1; 32], 2, 100, 1, 100).unwrap();
    false_balance_root.balance_snapshot =
        SignedBalanceSnapshotV1::sign(package.configuration.epoch_id, &changed_balances, &operator)
            .unwrap();
    assert!(rejection(&false_balance_root) == Err(LockValidationError::InvalidSnapshot));

    let mut tampered_pre_balance_root = package.clone();
    tampered_pre_balance_root.pre_balance_root[0] ^= 1;
    assert!(rejection(&tampered_pre_balance_root) == Err(LockValidationError::InvalidBalance));

    let mut duplicate_keyper = package.clone();
    duplicate_keyper.configuration.keypers[1] = duplicate_keyper.configuration.keypers[0];
    assert!(rejection(&duplicate_keyper) == Err(LockValidationError::InvalidConfiguration));

    let mut same_mint = package.clone();
    same_mint.configuration.quote_mint = same_mint.configuration.base_mint;
    assert!(rejection(&same_mint) == Err(LockValidationError::InvalidConfiguration));

    let secret = dealer.share(package.epoch_account(), 0);
    let mut wrong_keyper = ReferenceKeyper::new(0, key(69), new_journal());
    assert!(
        wrong_keyper.sign_lock(&package, &confirmed, &secret, package_digest(&package))
            == Err(LockValidationError::WrongKeyper)
    );
}

#[test]
fn initialized_keyper_fails_closed_when_either_journal_file_is_missing() {
    let (package, operator, attesters, dealer) = valid_package();
    let confirmed = confirmed_open_epoch(&package, &operator);
    let secret = dealer.share(package.epoch_account(), 0);
    let [attester, _, _] = attesters;
    let mut keyper = ReferenceKeyper::new(0, attester, new_journal());
    keyper
        .sign_lock(&package, &confirmed, &secret, package_digest(&package))
        .unwrap();
    let bytes = keyper.journal().encode().unwrap();
    let marker = LockJournal::initialization_marker();
    assert!(LockJournal::open(None, Some(&marker)).is_err());
    assert!(LockJournal::open(Some(&bytes), None).is_err());
    assert!(LockJournal::open(Some(&bytes), Some(&marker)).is_ok());
}

#[test]
fn keyper_rejects_bad_checksum_and_unsupported_journal_version() {
    let (package, operator, _attesters, dealer) = valid_package();
    let confirmed = confirmed_open_epoch(&package, &operator);
    let secret = dealer.share(package.epoch_account(), 0);

    for corrupt in ["checksum", "version"] {
        let mut keyper = ReferenceKeyper::new(0, key(70), new_journal());
        keyper
            .sign_lock(&package, &confirmed, &secret, package_digest(&package))
            .unwrap();
        let mut bytes = keyper.journal().encode().unwrap();
        if corrupt == "checksum" {
            let last = bytes.len() - 1;
            bytes[last] ^= 1;
        } else {
            bytes[6] ^= 1;
        }
        assert!(matches!(
            reopen(&bytes),
            Err(LockValidationError::CorruptJournal)
        ));
    }
}

#[test]
fn confirmed_lock_is_created_only_from_a_confirmed_rpc_read_of_the_locked_epoch() {
    let (package, operator, _attesters, _dealer) = valid_package();
    let locked = epoch_read(&package, true);
    let recorded = lock_digest(&recorded_lock_payload(
        package.epoch_account(),
        &locked.state.unwrap(),
    ));
    let confirmed = confirmed_lock_from_accounts(
        package.epoch_account(),
        PROGRAM,
        &locked,
        &pool_read(&package, &operator),
        recorded,
        500,
    )
    .unwrap();
    assert_eq!(confirmed.epoch_account(), package.epoch_account());
    assert_eq!(confirmed.lock_digest(), package_digest(&package));
    assert_eq!(confirmed.member_root(), package_payload(&package).member_root);

    let open = epoch_read(&package, false);
    let recorded = lock_digest(&recorded_lock_payload(
        package.epoch_account(),
        &open.state.unwrap(),
    ));
    assert!(confirmed_lock_from_accounts(
        package.epoch_account(),
        PROGRAM,
        &open,
        &pool_read(&package, &operator),
        recorded,
        500,
    )
    .is_err());
}

#[test]
fn confirmed_open_epoch_rejects_the_exact_lock_deadline() {
    let (package, operator, _attesters, _dealer) = valid_package();
    assert!(confirm_at(&package, &operator, package.configuration.lock_deadline).is_err());
    assert!(confirm_at(&package, &operator, package.configuration.lock_deadline - 1).is_ok());
}

#[test]
fn confirmed_open_epoch_rejects_a_foreign_or_future_clock() {
    let (package, operator, _attesters, _dealer) = valid_package();
    let confirm = |clock_owner: [u8; 32], data: &[u8]| {
        confirmed_open_epoch_from_accounts(
            package.epoch_account(),
            PROGRAM,
            &epoch_read(&package, false),
            POOL,
            &pool_read(&package, &operator),
            SYSVAR,
            clock_owner,
            data,
            500,
        )
        .is_ok()
    };
    assert!(confirm(SYSVAR, &clock_data(500, 800)));
    assert!(!confirm(PROGRAM, &clock_data(500, 800)));
    assert!(!confirm(SYSVAR, &clock_data(501, 800)));
    assert!(!confirm(SYSVAR, &clock_data(500, 800)[..39]));
}

fn locked_state() -> ([u8; 32], EpochStateV1) {
    let epoch = [7; 32];
    let mut state = EpochStateV1 {
        epoch_bump: EPOCH_BUMP,
        terminal_state: EpochTerminalState::Locked,
        residual_side: 0,
        pool: [1; 32],
        epoch_id: [2; 32],
        configuration_hash: [3; 32],
        pre_balance_root: [6; 32],
        member_root: [4; 32],
        lock_digest: [0; 32],
        result_commitment: [0; 32],
        settlement_digest: [0; 32],
        lock_nonce: [5; 32],
        settlement_nonce: [0; 32],
        member_count: 4,
        minimum_count: 4,
        residual_lots: 0,
        base_lot_atoms: 1,
        quote_atoms_per_lot: 100,
        lock_deadline: 900,
        abort_deadline: 1_000,
    };
    state.lock_digest = lock_digest(&recorded_lock_payload(epoch, &state));
    (epoch, state)
}

#[test]
fn confirmed_lock_requires_exact_program_owned_locked_state() {
    let (epoch, state) = locked_state();
    let confirm = |owner: [u8; 32], decoded: Option<EpochStateV1>| {
        let digest = match &decoded {
            Some(state) => lock_digest(&recorded_lock_payload(epoch, state)),
            None => [0; 32],
        };
        let read = EpochRead {
            owner,
            state: decoded,
            derived: DerivedAddress {
                address: epoch,
                bump: EPOCH_BUMP,
            },
        };
        confirmed_lock_from_account(epoch, PROGRAM, &read, digest, 42)
    };
    let confirmed = confirm(PROGRAM, Some(state)).unwrap();
    assert_eq!(confirmed.epoch_account(), epoch);
    assert_eq!(confirmed.lock_digest(), state.lock_digest);
    assert_eq!(confirmed.member_root(), state.member_root);
    assert_eq!(confirmed.confirmation_slot(), 42);

    assert!(confirm([199; 32], Some(state)).is_err());

    let mut invalid = state;
    invalid.lock_digest[0] ^= 1;
    assert!(confirm(PROGRAM, Some(invalid)).is_err());

    let mut invalid = state;
    invalid.member_count = 3;
    assert!(confirm(PROGRAM, Some(invalid)).is_err());

    let mut invalid = state;
    invalid.terminal_state = EpochTerminalState::Open;
    assert!(confirm(PROGRAM, Some(invalid)).is_err());

    assert!(confirm(PROGRAM, None).is_err());
}

#[test]
fn lock_wire_rejects_coordinator_counts_before_allocating() {
    let configuration = EpochConfigurationV1 {
        pool: [11; 32],
        epoch_id: [1; 32],
        base_mint: [12; 32],
        quote_mint: [13; 32],
        base_lot_atoms: 1,
        quote_atoms_per_lot: 100,
        minimum_count: 4,
        lock_threshold: 2,
        settlement_threshold: 2,
        keypers: [[14; 32], [15; 32], [16; 32]],
        lock_deadline: 900,
        abort_deadline: 1_000,
    };
    let encoded_configuration = [0_u8; 280];
    let dealer = EpochDealer::random().unwrap();
    let encoded_keys = dealer.public_keys().encode_wire();
    let mut bytes = Vec::new();
    bytes.push(1);
    bytes.extend_from_slice(&[17; 32]);
    bytes.extend_from_slice(&encoded_configuration);
    bytes.extend_from_slice(&(encoded_keys.len() as u32).to_le_bytes());
    bytes.extend_from_slice(&encoded_keys);
    bytes.extend_from_slice(&u32::MAX.to_le_bytes());
    bytes.resize(bytes.len() + 264, 0);
    assert!(
        LockPackageV1::decode_wire(&bytes, encoded_configuration.len(), Some(configuration))
            == Err(LockValidationError::MemberLimitExceeded)
    );
}

#[test]
fn lock_package_wire_round_trips() {
    let (package, _operator, _attesters, _dealer) = valid_package();
    let encoded_configuration = [5_u8; 280];
    let bytes = package.encode_wire(&encoded_configuration).unwrap();
    let decoded = LockPackageV1::decode_wire(&bytes, 280, Some(package.configuration)).unwrap();
    assert!(decoded == package);
    let mut trailing = bytes.clone();
    trailing.push(0);
    assert!(LockPackageV1::decode_wire(&trailing, 280, Some(package.configuration)).is_err());
    assert!(LockPackageV1::decode_wire(&bytes, 280, None).is_err());
}

#[test]
fn locked_keyper_releases_a_share_only_for_the_recorded_lock() {
    let (package, operator, attesters, dealer) = valid_package();
    let confirmed = confirmed_open_epoch(&package, &operator);
    let secret = dealer.share(package.epoch_account(), 0);
    let [attester, _, _] = attesters;
    let mut keyper = ReferenceKeyper::new(0, attester, new_journal());
    let digest = package_digest(&package);
    let locked = confirmed_lock_from_accounts(
        package.epoch_account(),
        PROGRAM,
        &epoch_read(&package, true),
        &pool_read(&package, &operator),
        digest,
        501,
    )
    .unwrap();

    assert!(keyper
        .release_share(&package, &locked, &secret, 0, digest)
        .is_err());
    keyper
        .sign_lock(&package, &confirmed, &secret, digest)
        .unwrap();
    let released = keyper
        .release_share(&package, &locked, &secret, 0, digest)
        .unwrap();
    assert!(released.verify(&package.epoch_public_keys, &package.submissions[0]));
    assert!(!released.verify(&package.epoch_public_keys, &package.submissions[1]));
    assert_eq!(released.lock_digest(), digest);
    assert!(keyper
        .release_share(&package, &locked, &secret, 4, digest)
        .is_err());
}

#[test]
fn lock_approval_binds_the_digest_and_the_key() {
    let (package, operator, _attesters, dealer) = valid_package();
    let confirmed = confirmed_open_epoch(&package, &operator);
    let secret = dealer.share(package.epoch_account(), 0);
    let mut keyper = ReferenceKeyper::new(0, key(70), new_journal());
    let approval = keyper
        .sign_lock(&package, &confirmed, &secret, package_digest(&package))
        .unwrap();
    assert!(LockApprovalV1::from_parts(
        approval.keyper_key(),
        approval.digest(),
        approval.signature()
    )
    .verify());
    assert!(!LockApprovalV1::from_parts(
        key(71).verifying_key().to_bytes(),
        approval.digest(),
        approval.signature()
    )
    .verify());
    assert!(
        !LockApprovalV1::from_parts(approval.keyper_key(), [0; 32], approval.signature()).verify()
    );
}
