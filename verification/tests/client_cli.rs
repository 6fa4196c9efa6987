use base64::{engine::general_purpose::STANDARD as BASE64, Engine as _};
use kageb::{
    account_response, check_epoch, check_key_file, check_request_len, prepare_order,
    prepare_submission, prepare_submission_of, read_account_request, read_prepare_request, read_result_request,
    receipt_from, result_response, trading_key_from_file, trading_key_from_keypair, AdmissionPolicyV1,
    ClientAccountRequest, ClientEpochView, ClientPrepareError, ClientPrepareRequest,
    ClientPrepareResponse, ClientResultRequest, EncryptedSubmissionV1, EpochDealer,
    EpochPublicKeys, IntentBodyV1, PoolBalance, ReservationJournal, ReservationRecord, Side,
    SigningKey, SuspensionRegistry,
};
use sha2::{Digest, Sha256};
use solana_keypair::Keypair;

struct Fixture {
    keypair: Vec<u8>,
    request: ClientPrepareRequest,
    policy: AdmissionPolicyV1,
    epoch_public_keys_wire: Vec<u8>,
    epoch_id: [u8; 32],
    participant_id: [u8; 32],
    trading_public_key: [u8; 32],
}

fn fixture() -> Fixture {
    let epoch_id = [42; 32];
    let participant_id = [17; 32];
    let trading = Keypair::new_from_array([7; 32]);
    let trading_bytes = trading.to_bytes();
    let trading_public_key = trading_bytes[32..].try_into().expect("public key");
    let operator = SigningKey::from_bytes(&[90; 32]);

    let mut journal = ReservationJournal::open(None).expect("journal");
    let reserved = journal
        .reserve(
            ReservationRecord::new([8; 32], participant_id, 2, 100).expect("record"),
            PoolBalance::new(2, 100),
        )
        .expect("reservation");
    let authorization = SuspensionRegistry::open(None)
        .expect("registry")
        .issue_authorization(
            reserved,
            epoch_id,
            SigningKey::from_bytes(&[7; 32]).verifying_key(),
            &operator,
            1_000,
        )
        .expect("authorization");
    let dealer = EpochDealer::random().expect("dealer");
    let epoch_public_keys_wire = dealer.public_keys().encode_wire();

    let request = ClientPrepareRequest {
        schema_version: 1,
        side: Side::Buy,
        limit_price: 100,
        epoch_id: bs58::encode(epoch_id).into_string(),
        participant_id: bs58::encode(participant_id).into_string(),
        funded_authorization_base64: BASE64.encode(authorization.encode()),
        epoch_public_keys_base64: BASE64.encode(&epoch_public_keys_wire),
    };
    let policy =
        AdmissionPolicyV1::new(epoch_id, operator.verifying_key(), 1, 2, 100, 500).expect("policy");

    Fixture {
        keypair: trading_bytes.to_vec(),
        request,
        policy,
        epoch_public_keys_wire,
        epoch_id,
        participant_id,
        trading_public_key,
    }
}

fn run_client(
    keypair: &[u8],
    request: &ClientPrepareRequest,
) -> Result<ClientPrepareResponse, ClientPrepareError> {
    let terms = read_prepare_request(request)?;
    let trading_key = trading_key_from_keypair(keypair)?;
    prepare_submission(terms, &trading_key)
}

#[test]
fn client_prepares_roundtrippable_admissible_submission() {
    let fixture = fixture();
    let response = run_client(&fixture.keypair, &fixture.request).expect("response");
    assert_eq!(response.schema_version, 1);
    assert_eq!(
        response.epoch_id,
        bs58::encode(fixture.epoch_id).into_string()
    );
    assert_eq!(
        response.participant_id,
        bs58::encode(fixture.participant_id).into_string()
    );
    assert_eq!(
        response.trading_key,
        bs58::encode(fixture.trading_public_key).into_string()
    );

    let public_keys =
        EpochPublicKeys::decode_wire(&fixture.epoch_public_keys_wire).expect("decode public keys");
    assert_eq!(public_keys.encode_wire(), fixture.epoch_public_keys_wire);
    let wire = BASE64
        .decode(&response.encrypted_submission_base64)
        .expect("submission base64");
    let submission = EncryptedSubmissionV1::decode_wire(&wire).expect("submission wire");
    assert_eq!(submission.encode_wire(), wire);
    assert!(submission.verify_admission(&fixture.policy).is_ok());

    let (_, ciphertext, _, _) = submission.into_wire_parts();
    assert_eq!(
        response.ciphertext_sha256_base64,
        BASE64.encode(Sha256::digest(ciphertext))
    );
    assert_eq!(
        response.submission_sha256_base64,
        BASE64.encode(Sha256::digest(&wire))
    );
}

#[test]
fn client_accepts_the_sell_side() {
    let mut fixture = fixture();
    fixture.request.side = Side::Sell;
    let response = run_client(&fixture.keypair, &fixture.request).expect("response");
    let wire = BASE64
        .decode(response.encrypted_submission_base64)
        .expect("submission base64");
    let submission = EncryptedSubmissionV1::decode_wire(&wire).expect("submission wire");
    assert!(submission.verify_admission(&fixture.policy).is_ok());
}

#[test]
fn client_rejects_empty_and_oversize_requests() {
    assert_eq!(check_request_len(0), Err(ClientPrepareError::Input));
    assert_eq!(check_request_len(1), Ok(()));
    assert_eq!(check_request_len(16 * 1024), Ok(()));
    assert_eq!(
        check_request_len(16 * 1024 + 1),
        Err(ClientPrepareError::Input)
    );
}

#[test]
fn client_rejects_invalid_economics_encodings_and_context_mismatches() {
    let rejected = |request: &ClientPrepareRequest, keypair: &[u8]| {
        matches!(
            run_client(keypair, request),
            Err(ClientPrepareError::Request)
        )
    };

    let mut zero_price = fixture();
    zero_price.request.limit_price = 0;
    assert!(rejected(&zero_price.request, &zero_price.keypair));

    let mut wrong_schema = fixture();
    wrong_schema.request.schema_version = 2;
    assert!(rejected(&wrong_schema.request, &wrong_schema.keypair));

    let mut noncanonical_epoch = fixture();
    noncanonical_epoch.request.epoch_id = "not-base58!".to_owned();
    assert!(rejected(
        &noncanonical_epoch.request,
        &noncanonical_epoch.keypair
    ));

    let mut wrong_epoch = fixture();
    wrong_epoch.request.epoch_id = bs58::encode([41; 32]).into_string();
    assert!(rejected(&wrong_epoch.request, &wrong_epoch.keypair));

    let mut wrong_participant = fixture();
    wrong_participant.request.participant_id = bs58::encode([6; 32]).into_string();
    assert!(rejected(
        &wrong_participant.request,
        &wrong_participant.keypair
    ));

    let mut invalid_authorization = fixture();
    invalid_authorization.request.funded_authorization_base64 = "AA==".to_owned();
    assert!(rejected(
        &invalid_authorization.request,
        &invalid_authorization.keypair
    ));

    let mut invalid_public_keys = fixture();
    invalid_public_keys.request.epoch_public_keys_base64 = "AA==".to_owned();
    assert!(rejected(
        &invalid_public_keys.request,
        &invalid_public_keys.keypair
    ));

    let fixture = fixture();
    let wrong_keypair = Keypair::new_from_array([6; 32]).to_bytes();
    assert!(rejected(&fixture.request, &wrong_keypair));
}

#[test]
fn client_requires_a_private_regular_key_file() {
    assert_eq!(check_key_file(true, 300, 0o100600), Ok(()));
    for mode in [0o100644, 0o100400, 0o100640] {
        assert_eq!(
            check_key_file(true, 300, mode),
            Err(ClientPrepareError::KeyFile)
        );
    }
    assert_eq!(
        check_key_file(false, 300, 0o100600),
        Err(ClientPrepareError::KeyFile)
    );
    let fixture = fixture();
    assert!(trading_key_from_keypair(&fixture.keypair).is_ok());
    assert!(matches!(
        trading_key_from_keypair(&[1, 2, 3]),
        Err(ClientPrepareError::KeyFile)
    ));
    let mut mismatched = fixture.keypair;
    mismatched[63] ^= 1;
    assert!(matches!(
        trading_key_from_keypair(&mismatched),
        Err(ClientPrepareError::KeyFile)
    ));
}

#[test]
fn key_files_hold_a_keypair_as_a_json_array() {
    let keypair = fixture().keypair;
    let numbers: Vec<String> = keypair.iter().map(|byte| byte.to_string()).collect();
    let file = format!("[{}]\n", numbers.join(", "));
    let key = trading_key_from_file(file.as_bytes()).ok().unwrap();
    assert!(key.to_bytes() == keypair[..32]);

    let refused = |file: &str| {
        assert!(matches!(
            trading_key_from_file(file.as_bytes()),
            Err(ClientPrepareError::KeyFile)
        ));
    };
    refused("");
    refused("[1, 2, 3]");
    refused("[1, 2, 300]");
    refused("not json");
    refused(&format!("{file}]"));
    refused(&format!("{file}{}", " ".repeat(5_000)));
}

#[test]
fn client_diagnostics_do_not_echo_request_path_or_secret() {
    let secret_base58 = bs58::encode([7; 32]).into_string();
    let secret_base64 = BASE64.encode([7; 32]);
    for error in [
        ClientPrepareError::Input,
        ClientPrepareError::KeyFile,
        ClientPrepareError::Request,
        ClientPrepareError::Entropy,
        ClientPrepareError::Output,
    ] {
        let message = error.message();
        assert!(!message.contains("DO_NOT_ECHO_MARKER"));
        assert!(!message.contains(&secret_base58));
        assert!(!message.contains(&secret_base64));
    }
    assert_eq!(ClientPrepareError::Request.message(), "request rejected");

    let fixture = fixture();
    let response = run_client(&fixture.keypair, &fixture.request).expect("response");
    for text in [
        &response.epoch_id,
        &response.participant_id,
        &response.trading_key,
        &response.ciphertext_sha256_base64,
        &response.submission_sha256_base64,
        &response.encrypted_submission_base64,
    ] {
        assert!(!text.contains(&secret_base58));
        assert!(!text.contains(&secret_base64));
    }
}

#[test]
fn prepared_order_is_one_lot_of_the_request() {
    let fixture = fixture();
    let trading_key = trading_key_from_keypair(&fixture.keypair).expect("key");
    let order = read_prepare_request(&fixture.request)
        .expect("terms")
        .into_order()
        .expect("order");
    let prepared = prepare_order(order, &trading_key, [9; 16], [3; 32]).expect("prepared");
    let body = prepared.signed_intent().body();
    let expected = IntentBodyV1::new(Side::Buy, 1, 100, [42; 32], [17; 32], [9; 16]).unwrap();
    assert_eq!(body.encode(), expected.encode());
    assert!(prepared
        .signed_intent()
        .verify(&trading_key.verifying_key(), [42; 32], [17; 32])
        .is_ok());
    assert_eq!(prepared.submission().receipt(), [3; 32]);

    let order = read_prepare_request(&fixture.request)
        .expect("terms")
        .into_order()
        .expect("order");
    assert!(matches!(
        prepare_order(order, &trading_key, [9; 16], [0; 32]),
        Err(ClientPrepareError::Request)
    ));
}

#[test]
fn refusals_of_a_preparation_come_in_order() {
    let fixture = fixture();
    let key = trading_key_from_keypair(&fixture.keypair).expect("key");
    let stranger = SigningKey::from_bytes(&[8; 32]);
    let terms = || read_prepare_request(&fixture.request).expect("terms");
    let mut other = self::fixture().request;
    other.funded_authorization_base64 = fixture.request.funded_authorization_base64.clone();
    other.epoch_id = bs58::encode([43; 32]).into_string();
    let moved = || read_prepare_request(&other).expect("terms of another epoch");
    let receipt = Some([3; 32]);
    let nonce = Some([9; 16]);
    let refusal = |terms, key: &SigningKey, receipt, nonce| {
        prepare_submission_of(terms, key, receipt, nonce).err()
    };

    assert_eq!(
        refusal(moved(), &key, None, None),
        Some(ClientPrepareError::Entropy)
    );
    assert_eq!(
        refusal(moved(), &key, receipt, None),
        Some(ClientPrepareError::Request)
    );
    assert_eq!(
        refusal(terms(), &stranger, receipt, None),
        Some(ClientPrepareError::Entropy)
    );
    assert_eq!(
        refusal(terms(), &stranger, receipt, nonce),
        Some(ClientPrepareError::Request)
    );
    let response = prepare_submission_of(terms(), &key, receipt, nonce)
        .ok()
        .expect("response");
    let wire = BASE64
        .decode(&response.encrypted_submission_base64)
        .expect("submission base64");
    let submission = EncryptedSubmissionV1::decode_wire(&wire).expect("submission wire");
    assert_eq!(submission.receipt(), [3; 32]);
    assert!(submission.verify_admission(&fixture.policy).is_ok());
}

#[test]
fn key_file_is_refused_before_an_authorization_of_another_participant() {
    let mut fixture = fixture();
    fixture.request.participant_id = bs58::encode([18; 32]).into_string();
    assert!(matches!(
        run_client(&[0; 64], &fixture.request),
        Err(ClientPrepareError::KeyFile)
    ));
    assert!(matches!(
        run_client(&fixture.keypair, &fixture.request),
        Err(ClientPrepareError::Request)
    ));
    fixture.request.limit_price = 0;
    assert!(matches!(
        run_client(&[0; 64], &fixture.request),
        Err(ClientPrepareError::Request)
    ));
}

#[test]
fn receipt_is_never_zero() {
    let mut one = [0; 32];
    one[0] = 1;
    assert_eq!(receipt_from([0; 32]), one);
    assert_eq!(receipt_from([5; 32]), [5; 32]);
}

fn epoch_view() -> ClientEpochView {
    let dealer = EpochDealer::random().expect("dealer");
    ClientEpochView {
        schema_version: 1,
        epoch_id: bs58::encode([1; 32]).into_string(),
        base_mint: bs58::encode([2; 32]).into_string(),
        quote_mint: bs58::encode([3; 32]).into_string(),
        base_lot_atoms: 1,
        quote_atoms_per_lot: 100,
        minimum_count: 4,
        keyper_threshold: 2,
        lock_deadline: 1_000,
        abort_deadline: 2_000,
        epoch_public_keys_base64: BASE64.encode(dealer.public_keys().encode_wire()),
    }
}

#[test]
fn client_checks_the_terms_and_the_deadline_of_an_epoch() {
    assert_eq!(check_epoch(&epoch_view(), 999), Ok(()));
    assert_eq!(
        check_epoch(&epoch_view(), 1_000),
        Err(ClientPrepareError::Request)
    );
    let mut small = epoch_view();
    small.minimum_count = 3;
    assert_eq!(check_epoch(&small, 0), Err(ClientPrepareError::Request));
    let mut same_mint = epoch_view();
    same_mint.quote_mint = same_mint.base_mint.clone();
    assert_eq!(check_epoch(&same_mint, 0), Err(ClientPrepareError::Request));
    let mut one_keyper = epoch_view();
    one_keyper.keyper_threshold = 1;
    assert_eq!(check_epoch(&one_keyper, 0), Err(ClientPrepareError::Request));
    let mut early_abort = epoch_view();
    early_abort.abort_deadline = 1_000;
    assert_eq!(check_epoch(&early_abort, 0), Err(ClientPrepareError::Request));
    let mut bad_keys = epoch_view();
    bad_keys.epoch_public_keys_base64 = "AA==".to_owned();
    assert_eq!(check_epoch(&bad_keys, 0), Err(ClientPrepareError::Request));
    let mut zero = epoch_view();
    zero.epoch_id = bs58::encode([0; 32]).into_string();
    assert_eq!(check_epoch(&zero, 0), Err(ClientPrepareError::Request));
}

#[test]
fn client_accounts_and_results_name_their_participant() {
    let participant = bs58::encode([17; 32]).into_string();
    let (id, balance) = read_account_request(&ClientAccountRequest {
        schema_version: 1,
        participant_id: participant.clone(),
        base_atoms: 2,
        quote_atoms: 200,
    })
    .expect("account");
    assert_eq!((id, balance), ([17; 32], PoolBalance::new(2, 200)));
    assert!(read_account_request(&ClientAccountRequest {
        schema_version: 1,
        participant_id: participant.clone(),
        base_atoms: 0,
        quote_atoms: 200,
    })
    .is_err());
    let response = account_response(id, [5; 32], balance);
    assert_eq!(response.participant_id, participant);
    assert_eq!(response.trading_key, bs58::encode([5; 32]).into_string());
    assert_eq!((response.base_atoms, response.quote_atoms), (2, 200));

    let request = ClientResultRequest {
        schema_version: 1,
        participant_id: participant.clone(),
    };
    assert_eq!(read_result_request(&request), Ok([17; 32]));
    let response = result_response([17; 32], [9; 32], PoolBalance::new(3, 100));
    assert_eq!(response.schema_version, 1);
    assert_eq!(response.participant_id, participant);
    assert_eq!(response.epoch_id, bs58::encode([9; 32]).into_string());
    assert_eq!((response.base_atoms, response.quote_atoms), (3, 100));
}
