use ed25519_dalek::Signer as _;
use kageb::{
    answer_self_test, any_contains, approval_payload, check_lock_response, check_release_response,
    check_rpc_url, check_self_test, check_settlement_response, confirmed_lock_from_accounts,
    confirmed_open_epoch_from_accounts, contains_bytes, decode_bound_share, join_epoch,
    keyper_position, lock_response, member_balances, member_configuration,
    read_release, read_settlement, read_sign_lock, recompute, recovered_intents_root, release_frame,
    request_package, self_test_request, settlement_balance_root, settlement_frame, sign_lock_frame,
    validate_lock_approval, ConfirmedLock, ConfirmedOpenEpoch, DecryptionEvidenceV1, DerivedAddress,
    EpochConfigurationV1, EpochDealer, EpochRead, EpochStateV1, EpochTerminalState, JoinError,
    JoinTerms, JournalError, KeyperProcessError, KeyperSecretShare, LockApprovalV1, LockJournal,
    LockPackageV1, LockPayloadV1, PoolRead, PoolStateV1, ProcessOutput, ReferenceKeyper, ReleasedShareV1,
    ReservationJournal, Residual, SettlementApprovalV1, SettlementPayloadV1, SettlementRequestV1,
    SettlementValidationError, Side, SignedBalanceSnapshotV1, SignedIntentV1, SigningKey,
    SuspensionError, SuspensionRegistry, BOUND_SHARE_LEN, MAX_SETTLEMENT_REQUEST_LEN,
    SETTLEMENT_STDIN_READ_LIMIT,
};
use sha2::{Digest, Sha256};

const PROGRAM: [u8; 32] = [200; 32];
const SYSVAR: [u8; 32] = [201; 32];
const POOL: [u8; 32] = [202; 32];
const EPOCH_ACCOUNT: [u8; 32] = [203; 32];
const EPOCH_ID: [u8; 32] = [42; 32];
const CONFIGURATION_LEN: usize = 280;

fn key(seed: u8) -> SigningKey {
    SigningKey::from_bytes(&[seed; 32])
}

fn configuration_digest(configuration: &EpochConfigurationV1) -> [u8; 32] {
    Sha256::digest(format!("{configuration:?}").as_bytes()).into()
}

fn lock_digest(payload: &LockPayloadV1) -> [u8; 32] {
    Sha256::digest(format!("{payload:?}").as_bytes()).into()
}

fn settlement_digest(payload: &SettlementPayloadV1) -> [u8; 32] {
    Sha256::digest(format!("{payload:?}").as_bytes()).into()
}

fn terms(id: u8, side: Side, spoiled: bool) -> JoinTerms {
    JoinTerms {
        side,
        epoch_id: EPOCH_ID,
        participant_id: [id; 32],
        reservation_nonce: [id + 10; 32],
        client_nonce: [id; 16],
        receipt: [id + 20; 32],
        expiry_slot: 1_000,
        spoiled,
    }
}

struct Epoch {
    package: LockPackageV1,
    intents: Vec<SignedIntentV1>,
    dealer: EpochDealer,
    open: ConfirmedOpenEpoch,
    locked: ConfirmedLock,
    digest: [u8; 32],
}

fn epoch_of(sides: [Side; 4], spoiled: bool) -> Epoch {
    let operator = key(90);
    let dealer = EpochDealer::random().unwrap();
    let mut reservations = ReservationJournal::open(None).unwrap();
    let suspensions = SuspensionRegistry::open(None).unwrap();
    let mut submissions = Vec::new();
    let mut intents = Vec::new();
    let mut ids = Vec::new();
    for (index, side) in sides.into_iter().enumerate() {
        let id = index as u8 + 1;
        let (intent, submission) = join_epoch(
            &mut reservations,
            &suspensions,
            dealer.public_keys(),
            &operator,
            &key(id),
            &terms(id, side, spoiled && index == 0),
        )
        .unwrap();
        submissions.push(submission);
        intents.push(intent);
        ids.push([id; 32]);
    }
    let balances = member_balances(&ids).unwrap();
    let snapshot = SignedBalanceSnapshotV1::sign(EPOCH_ID, &balances, &operator).unwrap();
    let keypers = [
        key(70).verifying_key().to_bytes(),
        key(71).verifying_key().to_bytes(),
        key(72).verifying_key().to_bytes(),
    ];
    let configuration =
        member_configuration(POOL, EPOCH_ID, [2; 32], [3; 32], keypers, 900, 1_000);
    let package = LockPackageV1::new(
        EPOCH_ACCOUNT,
        configuration,
        dealer.public_keys().clone(),
        submissions,
        balances,
        snapshot,
        [9; 32],
    )
    .unwrap();
    let payload = package.lock_payload(configuration_digest(&configuration));
    let digest = lock_digest(&payload);
    let mut state = EpochStateV1 {
        epoch_bump: 252,
        terminal_state: EpochTerminalState::Open,
        residual_side: 0,
        pool: POOL,
        epoch_id: EPOCH_ID,
        configuration_hash: payload.configuration_hash,
        pre_balance_root: [0; 32],
        member_root: [0; 32],
        lock_digest: [0; 32],
        result_commitment: [0; 32],
        settlement_digest: [0; 32],
        lock_nonce: [0; 32],
        settlement_nonce: [0; 32],
        member_count: 0,
        minimum_count: 4,
        residual_lots: 0,
        base_lot_atoms: 1,
        quote_atoms_per_lot: 100,
        lock_deadline: 900,
        abort_deadline: 1_000,
    };
    let pool = PoolRead {
        owner: PROGRAM,
        state: Some(PoolStateV1 {
            pool_bump: 254,
            vault_bump: 253,
            lock_threshold: 2,
            settlement_threshold: 2,
            operator: operator.verifying_key().to_bytes(),
            base_mint: [2; 32],
            quote_mint: [3; 32],
            pool_base_vault: [101; 32],
            pool_quote_vault: [102; 32],
            venue_authority: [103; 32],
            venue_base_account: [104; 32],
            venue_quote_account: [105; 32],
            keypers,
            base_lot_atoms: 1,
        }),
        derived: DerivedAddress {
            address: POOL,
            bump: 254,
        },
        vault_bump: 253,
        configuration_digest: payload.configuration_hash,
    };
    let derived = DerivedAddress {
        address: EPOCH_ACCOUNT,
        bump: 252,
    };
    let mut clock = 500_u64.to_le_bytes().to_vec();
    clock.extend_from_slice(&[0; 24]);
    clock.extend_from_slice(&800_i64.to_le_bytes());
    let open = confirmed_open_epoch_from_accounts(
        EPOCH_ACCOUNT,
        PROGRAM,
        &EpochRead {
            owner: PROGRAM,
            state: Some(state),
            derived,
        },
        POOL,
        &pool,
        SYSVAR,
        SYSVAR,
        &clock,
        500,
    )
    .unwrap();
    state.terminal_state = EpochTerminalState::Locked;
    state.pre_balance_root = payload.pre_balance_root;
    state.member_root = payload.member_root;
    state.lock_digest = digest;
    state.lock_nonce = payload.lock_nonce;
    state.member_count = payload.member_count;
    let locked = confirmed_lock_from_accounts(
        EPOCH_ACCOUNT,
        PROGRAM,
        &EpochRead {
            owner: PROGRAM,
            state: Some(state),
            derived,
        },
        &pool,
        digest,
        501,
    )
    .unwrap();
    Epoch {
        package,
        intents,
        dealer,
        open,
        locked,
        digest,
    }
}

fn keyper(epoch: &Epoch, index: usize) -> (ReferenceKeyper, KeyperSecretShare) {
    let secret = epoch.dealer.share(EPOCH_ACCOUNT, index);
    let mut keyper = ReferenceKeyper::new(
        index,
        key(70 + index as u8),
        LockJournal::open(None, None).unwrap(),
    );
    keyper
        .sign_lock(&epoch.package, &epoch.open, &secret, epoch.digest)
        .unwrap();
    (keyper, secret)
}

fn released(epoch: &Epoch, index: usize, member: usize) -> ReleasedShareV1 {
    epoch
        .dealer
        .share(EPOCH_ACCOUNT, index)
        .release(
            EPOCH_ACCOUNT,
            epoch.digest,
            epoch.package.submissions[member].ciphertext(),
        )
        .unwrap()
}

fn evidence(epoch: &Epoch) -> Vec<DecryptionEvidenceV1> {
    (0..epoch.package.submissions.len())
        .map(|member| {
            DecryptionEvidenceV1::new(released(epoch, 0, member), released(epoch, 2, member))
                .unwrap()
        })
        .collect()
}

const SIDES: [Side; 4] = [Side::Buy, Side::Buy, Side::Buy, Side::Sell];

#[test]
fn locked_epoch_settles_into_one_aggregate_buy() {
    let epoch = epoch_of(SIDES, false);
    let evidence = evidence(&epoch);
    let settlement = recompute(
        &epoch.package,
        &evidence,
        [11; 32],
        &epoch.locked,
        epoch.digest,
    )
    .ok()
    .unwrap();
    assert_eq!(settlement.residual, Residual::Buy { lots: 2 });
    assert_eq!(settlement.payload.residual_side, 1);
    assert_eq!(settlement.payload.residual_lots, 2);
    assert_eq!(settlement.payload.settlement_nonce, [11; 32]);
    assert_eq!(settlement.payload.lock_digest, epoch.digest);
    for (index, balance) in settlement.post_balances.iter().enumerate() {
        assert_eq!(balance.participant_id, [index as u8 + 1; 32]);
        let expected = if index < 3 { (2, 0) } else { (0, 200) };
        assert_eq!((balance.base_atoms, balance.quote_atoms), expected);
    }
    let base: u64 = settlement.post_balances.iter().map(|b| b.base_atoms).sum();
    let quote: u64 = settlement.post_balances.iter().map(|b| b.quote_atoms).sum();
    assert_eq!((base, quote), (4 + 2, 400 - 2 * 100));
    assert_eq!(settlement.payload.base_lot_atoms, 1);
    assert_eq!(settlement.payload.quote_atoms_per_lot, 100);
    for (recovered, sent) in settlement.intents.iter().zip(&epoch.intents) {
        assert!(recovered == sent);
    }
    assert_eq!(
        settlement.post_balance_root,
        settlement_balance_root(&settlement.post_balances).unwrap()
    );
    let mut shuffled = settlement.intents.clone();
    shuffled.reverse();
    assert_eq!(
        recovered_intents_root(&shuffled),
        recovered_intents_root(&settlement.intents)
    );
}

#[test]
fn balanced_epoch_settles_without_a_venue_leg() {
    let epoch = epoch_of([Side::Buy, Side::Sell, Side::Sell, Side::Buy], false);
    let settlement = recompute(
        &epoch.package,
        &evidence(&epoch),
        [11; 32],
        &epoch.locked,
        epoch.digest,
    )
    .ok()
    .unwrap();
    assert_eq!(settlement.residual, Residual::Balanced);
    assert_eq!(settlement.payload.residual_side, 0);
    assert_eq!(settlement.payload.residual_lots, 0);
    let base: u64 = settlement.post_balances.iter().map(|b| b.base_atoms).sum();
    let quote: u64 = settlement.post_balances.iter().map(|b| b.quote_atoms).sum();
    assert_eq!((base, quote), (4, 400));
}

#[test]
fn settlement_refuses_reused_nonces_and_missing_evidence() {
    let epoch = epoch_of(SIDES, false);
    let evidence_of_all = evidence(&epoch);
    let refusal = |evidence: &[DecryptionEvidenceV1], nonce: [u8; 32], digest: [u8; 32]| {
        recompute(&epoch.package, evidence, nonce, &epoch.locked, digest).err()
    };
    assert_eq!(
        refusal(&evidence_of_all, [0; 32], epoch.digest),
        Some(SettlementValidationError::InvalidNonce)
    );
    assert_eq!(
        refusal(&evidence_of_all, [9; 32], epoch.digest),
        Some(SettlementValidationError::InvalidNonce)
    );
    assert_eq!(
        refusal(&evidence_of_all[..3], [11; 32], epoch.digest),
        Some(SettlementValidationError::InvalidBatch)
    );
    assert_eq!(
        refusal(&evidence_of_all, [11; 32], [1; 32]),
        Some(SettlementValidationError::InvalidLock)
    );
    let mut swapped = evidence_of_all.clone();
    swapped.swap(0, 1);
    assert_eq!(
        refusal(&swapped, [11; 32], epoch.digest),
        Some(SettlementValidationError::InvalidBatch)
    );
}

#[test]
fn spoiled_order_is_refused_at_settlement() {
    let spoiled = epoch_of(SIDES, true);
    assert_eq!(
        recompute(
            &spoiled.package,
            &evidence(&spoiled),
            [11; 32],
            &spoiled.locked,
            spoiled.digest,
        )
        .err(),
        Some(SettlementValidationError::InvalidBatch)
    );
}

fn request_of(epoch: &Epoch) -> (SettlementRequestV1, [u8; 32]) {
    let evidence = evidence(epoch);
    let settlement = recompute(
        &epoch.package,
        &evidence,
        [11; 32],
        &epoch.locked,
        epoch.digest,
    )
    .ok()
    .unwrap();
    let digest = settlement_digest(&settlement.payload);
    let request = SettlementRequestV1 {
        package: epoch.package.clone(),
        decryption_evidence: evidence,
        post_balances: settlement.post_balances,
        pre_balance_root: settlement.pre_balance_root,
        post_balance_root: settlement.post_balance_root,
        residual: settlement.residual,
        result_root: settlement.result_root,
        result_commitment: settlement.result_commitment,
        settlement_nonce: [11; 32],
        settlement_digest: digest,
    };
    (request, digest)
}

#[test]
fn built_request_asks_for_what_settling_comes_to() {
    let epoch = epoch_of(SIDES, false);
    let (request, digest) = request_of(&epoch);
    let built = SettlementRequestV1::build(
        epoch.package.clone(),
        request.decryption_evidence.clone(),
        [11; 32],
        &epoch.locked,
        epoch.digest,
        digest,
    )
    .unwrap();
    assert!(built == request);
}

#[test]
fn keyper_signs_only_the_settlement_that_it_works_out() {
    let epoch = epoch_of(SIDES, false);
    let (request, digest) = request_of(&epoch);
    let (keyper_one, secret) = keyper(&epoch, 1);
    let approval = keyper_one
        .sign_settlement(&request, &epoch.locked, &secret, epoch.digest, digest)
        .unwrap();
    assert!(approval.verify(settlement_digest(&approval.payload())));
    assert!(!approval.verify([0; 32]));
    assert_eq!(
        approval.keyper_key(),
        key(71).verifying_key().to_bytes()
    );

    let stranger = ReferenceKeyper::new(1, key(71), LockJournal::open(None, None).unwrap());
    assert_eq!(
        stranger
            .sign_settlement(&request, &epoch.locked, &secret, epoch.digest, digest)
            .err(),
        Some(SettlementValidationError::WrongKeyper)
    );
}

#[test]
fn keyper_refuses_a_result_that_it_does_not_work_out() {
    let epoch = epoch_of(SIDES, false);
    let (request, digest) = request_of(&epoch);
    let (keyper_one, secret) = keyper(&epoch, 1);
    let refusal = |changed: &SettlementRequestV1| {
        keyper_one
            .sign_settlement(changed, &epoch.locked, &secret, epoch.digest, digest)
            .err()
    };
    let mut changed = request.clone();
    changed.post_balances[0].base_atoms += 1;
    assert_eq!(
        refusal(&changed),
        Some(SettlementValidationError::InvalidResult)
    );
    let mut changed = request.clone();
    changed.result_commitment[0] ^= 1;
    assert_eq!(
        refusal(&changed),
        Some(SettlementValidationError::InvalidResult)
    );
}

#[test]
fn settlement_request_and_approval_wires_round_trip() {
    let epoch = epoch_of(SIDES, false);
    let (request, digest) = request_of(&epoch);
    let encoded_configuration = [5_u8; CONFIGURATION_LEN];
    let bytes = request.encode_wire(&encoded_configuration).unwrap();
    let package = request.package.encode_wire(&encoded_configuration).unwrap();
    assert_eq!(request_package(&bytes), Some(package.as_slice()));
    let decoded = SettlementRequestV1::decode_wire(
        &bytes,
        CONFIGURATION_LEN,
        Some(request.package.configuration),
    )
    .unwrap();
    assert!(decoded == request);
    assert!(SettlementRequestV1::decode_wire(
        &bytes[..bytes.len() - 1],
        CONFIGURATION_LEN,
        Some(request.package.configuration),
    )
    .is_err());

    let (keyper, secret) = keyper(&epoch, 0);
    let approval = keyper
        .sign_settlement(&request, &epoch.locked, &secret, epoch.digest, digest)
        .unwrap();
    let encoded_payload = [6_u8; 374];
    let wire = approval.encode_wire(&encoded_payload);
    assert_eq!(approval_payload(&wire), Some(encoded_payload.as_slice()));
    let decoded = SettlementApprovalV1::decode_wire(&wire, Some(approval.payload())).unwrap();
    assert!(decoded == approval);
    assert!(SettlementApprovalV1::decode_wire(&wire, None).is_err());
    assert!(
        SettlementApprovalV1::decode_wire(&wire[..502], Some(approval.payload())).is_err()
    );

    assert!(
        check_settlement_response(
            true,
            true,
            Some(approval),
            digest,
            &secret,
            approval.keyper_key(),
            digest
        ) == Ok(approval)
    );
    assert!(
        check_settlement_response(
            true,
            false,
            Some(approval),
            digest,
            &secret,
            approval.keyper_key(),
            digest
        ) == Err(KeyperProcessError::InvalidResponse)
    );
    assert!(
        check_settlement_response(
            false,
            true,
            None,
            digest,
            &secret,
            approval.keyper_key(),
            digest
        ) == Err(KeyperProcessError::ChildFailed)
    );
}

#[test]
fn settlement_wire_rejects_coordinator_counts_before_allocating() {
    let epoch_id = [1; 32];
    let operator = SigningKey::from_bytes(&[2; 32]);
    let configuration = EpochConfigurationV1 {
        pool: [11; 32],
        epoch_id,
        base_mint: [12; 32],
        quote_mint: [13; 32],
        base_lot_atoms: 1,
        quote_atoms_per_lot: 100,
        minimum_count: 4,
        lock_threshold: 2,
        settlement_threshold: 2,
        keypers: [[14; 32], [15; 32], [16; 32]],
        lock_deadline: 900,
        abort_deadline: 1_000,
    };
    let package = LockPackageV1::new(
        [10; 32],
        configuration,
        EpochDealer::random().unwrap().public_keys().clone(),
        Vec::new(),
        Vec::new(),
        SignedBalanceSnapshotV1::sign(epoch_id, &[], &operator).unwrap(),
        [3; 32],
    )
    .unwrap();
    let encoded_package = package.encode_wire(&[0; CONFIGURATION_LEN]).unwrap();
    let mut bytes = vec![1];
    bytes.extend_from_slice(&(encoded_package.len() as u32).to_le_bytes());
    bytes.extend_from_slice(&encoded_package);
    bytes.extend_from_slice(&u32::MAX.to_le_bytes());
    assert!(matches!(
        SettlementRequestV1::decode_wire(&bytes, CONFIGURATION_LEN, Some(configuration)),
        Err(SettlementValidationError::MemberLimitExceeded)
    ));
}

#[test]
fn decryption_evidence_needs_two_keypers_in_order() {
    let epoch = epoch_of(SIDES, false);
    let first = released(&epoch, 0, 0);
    let second = released(&epoch, 1, 0);
    let pair = DecryptionEvidenceV1::new(first, second).unwrap();
    assert!(*pair.first() == first && *pair.second() == second);
    assert!(DecryptionEvidenceV1::new(first, first).is_err());
    assert_eq!(pair.redacted(), "DecryptionEvidenceV1(..redacted)");
}

#[test]
fn parent_rejects_a_valid_keyper_signature_over_the_wrong_lock_digest() {
    let signing_key = ed25519_dalek::SigningKey::from_bytes(&[7; 32]);
    let expected_digest = [8; 32];
    let wrong_digest = [9; 32];
    let approval = LockApprovalV1::from_parts(
        signing_key.verifying_key().to_bytes(),
        wrong_digest,
        signing_key.sign(&wrong_digest).to_bytes(),
    );

    assert_eq!(
        validate_lock_approval(
            signing_key.verifying_key().to_bytes(),
            expected_digest,
            &approval,
        ),
        Err(KeyperProcessError::InvalidResponse)
    );
    assert_eq!(
        validate_lock_approval(
            signing_key.verifying_key().to_bytes(),
            wrong_digest,
            &approval,
        ),
        Ok(())
    );
}

#[test]
fn settlement_stdin_limit_includes_the_bound_share_and_oversize_byte() {
    assert_eq!(
        SETTLEMENT_STDIN_READ_LIMIT,
        BOUND_SHARE_LEN + MAX_SETTLEMENT_REQUEST_LEN + 1
    );
}

#[test]
fn keyper_frames_round_trip() {
    let dealer = EpochDealer::from_seed([4; 32]);
    let share = dealer.share(EPOCH_ACCOUNT, 2);

    let frame = sign_lock_frame(&share, b"package").unwrap();
    let (read, package) = read_sign_lock(&frame).ok().unwrap();
    assert_eq!(package, b"package");
    assert_eq!(read.index(), 2);
    assert_eq!(read.epoch_account(), EPOCH_ACCOUNT);
    assert_eq!(read.secret_bytes(), share.secret_bytes());
    assert!(read_sign_lock(&frame[..frame.len() - 1]).is_err());
    assert!(matches!(
        sign_lock_frame(&share, &vec![0; 65_537]),
        Err(KeyperProcessError::Input)
    ));

    let frame = release_frame(&share, 3, b"package").unwrap();
    let (read, member, package) = read_release(&frame).ok().unwrap();
    assert_eq!((member, package), (3, b"package".as_slice()));
    assert_eq!(read.secret_bytes(), share.secret_bytes());

    let frame = settlement_frame(&share, b"request").unwrap();
    let (read, request) = read_settlement(&frame).ok().unwrap();
    assert_eq!(request, b"request");
    assert_eq!(read.index(), 2);
    assert!(matches!(
        settlement_frame(&share, &vec![0; MAX_SETTLEMENT_REQUEST_LEN + 1]),
        Err(KeyperProcessError::Input)
    ));

    let mut zero = frame[..BOUND_SHARE_LEN].to_vec();
    assert!(decode_bound_share(&zero).is_ok());
    zero[41..].fill(0xff);
    assert!(matches!(
        decode_bound_share(&zero),
        Err(KeyperProcessError::InvalidRequest)
    ));
}

#[test]
fn self_test_proves_the_share_and_never_shows_it() {
    let dealer = EpochDealer::from_seed([4; 32]);
    let share = dealer.share(EPOCH_ACCOUNT, 1);
    let request = self_test_request(&share, [6; 32]);
    let response = answer_self_test(&request).ok().unwrap();
    assert_eq!(response.index(), 1);
    assert_eq!(Some(response.public_key_share()), share.public_key_bytes());
    assert!(response.verify([6; 32]));
    assert!(!response.verify([7; 32]));
    let stdout = response.encode();
    assert!(!contains_bytes(&stdout, &share.secret_bytes()));
    let output = ProcessOutput {
        success: true,
        stdout: &stdout,
        stderr: &[],
    };
    assert!(check_self_test(&output, &share, [6; 32]).ok() == Some(response));
    assert!(matches!(
        check_self_test(&output, &share, [7; 32]),
        Err(KeyperProcessError::InvalidResponse)
    ));
    let leaked = share.secret_bytes();
    let output = ProcessOutput {
        success: true,
        stdout: &stdout,
        stderr: &leaked,
    };
    assert!(matches!(
        check_self_test(&output, &share, [6; 32]),
        Err(KeyperProcessError::SecretLeak)
    ));
    assert!(any_contains(&[b"argument", &leaked], &leaked));
    assert!(!any_contains(&[b"argument", b""], &leaked));
    assert!(answer_self_test(&request[..72]).is_err());
}

#[test]
fn coordinator_reads_lock_and_release_answers() {
    let epoch = epoch_of(SIDES, false);
    let secret = epoch.dealer.share(EPOCH_ACCOUNT, 0);
    let mut signer = ReferenceKeyper::new(0, key(70), LockJournal::open(None, None).unwrap());
    let approval = signer
        .sign_lock(&epoch.package, &epoch.open, &secret, epoch.digest)
        .unwrap();
    let stdout = lock_response(&approval);
    let output = ProcessOutput {
        success: true,
        stdout: &stdout,
        stderr: &[],
    };
    assert!(check_lock_response(&output, approval.keyper_key(), epoch.digest) == Ok(approval));
    assert!(
        check_lock_response(&output, approval.keyper_key(), [0; 32])
            == Err(KeyperProcessError::InvalidResponse)
    );

    let share = released(&epoch, 0, 1);
    let stdout = share.encode_wire();
    let output = ProcessOutput {
        success: true,
        stdout: &stdout,
        stderr: &[],
    };
    assert!(
        check_release_response(&output, &secret, &epoch.package, 1, epoch.digest) == Ok(share)
    );
    assert!(check_release_response(&output, &secret, &epoch.package, 0, epoch.digest).is_err());
    let output = ProcessOutput {
        success: false,
        stdout: &stdout,
        stderr: &[],
    };
    assert!(
        check_release_response(&output, &secret, &epoch.package, 1, epoch.digest)
            == Err(KeyperProcessError::ChildFailed)
    );
}

#[test]
fn keyper_configuration_is_read_strictly() {
    let url: Vec<char> = " http://127.0.0.1:8899\n".chars().collect();
    let (start, end) = check_rpc_url(&url).unwrap();
    let trimmed: String = url[start..end].iter().collect();
    assert_eq!(trimmed, "http://127.0.0.1:8899");
    let empty: Vec<char> = " \n".chars().collect();
    assert!(check_rpc_url(&empty).is_err());
    let keypers = [[1; 32], [2; 32], [3; 32]];
    assert_eq!(keyper_position(&keypers, &[3; 32]), Some(2));
    assert_eq!(keyper_position(&keypers, &[4; 32]), None);
}

#[test]
fn joining_twice_is_a_duplicate_and_a_suspended_key_cannot_join() {
    let operator = key(90);
    let dealer = EpochDealer::random().unwrap();
    let mut reservations = ReservationJournal::open(None).unwrap();
    let mut suspensions = SuspensionRegistry::open(None).unwrap();
    let first = join_epoch(
        &mut reservations,
        &suspensions,
        dealer.public_keys(),
        &operator,
        &key(1),
        &terms(1, Side::Buy, false),
    );
    assert!(first.is_ok());
    let again = join_epoch(
        &mut reservations,
        &suspensions,
        dealer.public_keys(),
        &operator,
        &key(1),
        &terms(1, Side::Buy, false),
    );
    assert!(matches!(
        again,
        Err(JoinError::Reservation(JournalError::DuplicateNonce))
    ));
    suspensions.suspend(key(2).verifying_key().to_bytes());
    let suspended = join_epoch(
        &mut reservations,
        &suspensions,
        dealer.public_keys(),
        &operator,
        &key(2),
        &terms(2, Side::Sell, false),
    );
    assert!(matches!(
        suspended,
        Err(JoinError::Authorization(SuspensionError::Suspended))
    ));
    assert!(member_balances(&[[0; 32]]).is_err());
}
