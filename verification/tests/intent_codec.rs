use kageb::{IntentBodyV1, ProtocolError, Side};

#[test]
fn intent_v1_round_trips_through_exactly_128_bytes() {
    let intent =
        IntentBodyV1::new(Side::Buy, 1, 100, [1; 32], [2; 32], [3; 16]).expect("valid intent");

    let encoded = intent.encode();
    let expected = [
        1, 0, 1, 0, 0, 0, 100, 0, 0, 0, 0, 0, 0, 0, // header
        1, 1, 1, 1, 1, 1, 1, 1, 1, 1, 1, 1, 1, 1, 1, 1, // epoch
        1, 1, 1, 1, 1, 1, 1, 1, 1, 1, 1, 1, 1, 1, 1, 1, 2, 2, 2, 2, 2, 2, 2, 2, 2, 2, 2, 2, 2, 2,
        2, 2, // participant
        2, 2, 2, 2, 2, 2, 2, 2, 2, 2, 2, 2, 2, 2, 2, 2, 3, 3, 3, 3, 3, 3, 3, 3, 3, 3, 3, 3, 3, 3,
        3, 3, // nonce
        0, 0, 0, 0, 0, 0, 0, 0, 0, 0, 0, 0, 0, 0, 0, 0, // padding
        0, 0, 0, 0, 0, 0, 0, 0, 0, 0, 0, 0, 0, 0, 0, 0, 0, 0,
    ];

    assert_eq!(encoded.len(), 128);
    assert_eq!(encoded, expected);
    assert_eq!(IntentBodyV1::decode(&encoded), Ok(intent));
}

#[test]
fn intent_v1_rejects_every_noncanonical_field() {
    let canonical = IntentBodyV1::new(Side::Buy, 1, 100, [1; 32], [2; 32], [3; 16])
        .expect("valid intent")
        .encode();

    assert!(IntentBodyV1::decode(&canonical[..127]).is_err());

    let mut wrong_version = canonical;
    wrong_version[0] = 2;
    assert!(IntentBodyV1::decode(&wrong_version).is_err());

    let mut wrong_side = canonical;
    wrong_side[1] = 2;
    assert!(IntentBodyV1::decode(&wrong_side).is_err());

    let mut wrong_lots = canonical;
    wrong_lots[2..6].copy_from_slice(&2_u32.to_le_bytes());
    assert!(IntentBodyV1::decode(&wrong_lots).is_err());

    let mut zero_limit = canonical;
    zero_limit[6..14].fill(0);
    assert!(IntentBodyV1::decode(&zero_limit).is_err());

    let mut nonzero_padding = canonical;
    nonzero_padding[127] = 1;
    assert!(IntentBodyV1::decode(&nonzero_padding).is_err());
}

#[test]
fn intent_messages_name_the_refused_field() {
    let canonical = IntentBodyV1::new(Side::Sell, 1, 7, [1; 32], [2; 32], [3; 16])
        .expect("valid intent")
        .encode();
    assert_eq!(
        IntentBodyV1::decode(&canonical[..127]),
        Err(ProtocolError::InvalidIntentLength(127))
    );
    let mut changed = canonical;
    changed[0] = 9;
    assert_eq!(IntentBodyV1::decode(&changed), Err(ProtocolError::InvalidVersion(9)));
    let mut changed = canonical;
    changed[1] = 5;
    assert_eq!(IntentBodyV1::decode(&changed), Err(ProtocolError::InvalidSide(5)));
    let mut changed = canonical;
    changed[2] = 3;
    assert_eq!(IntentBodyV1::decode(&changed), Err(ProtocolError::InvalidLots(3)));
    let mut changed = canonical;
    changed[6] = 0;
    assert_eq!(IntentBodyV1::decode(&changed), Err(ProtocolError::InvalidLimitPrice));
    let mut changed = canonical;
    changed[100] = 1;
    assert_eq!(IntentBodyV1::decode(&changed), Err(ProtocolError::NonZeroPadding));
    assert_eq!(
        ProtocolError::InvalidLots(3).message(),
        "v1 intent must contain one lot, got 3"
    );
    assert_eq!(ProtocolError::InvalidLimitPrice.message(), "limit price must be non-zero");
    assert_eq!(ProtocolError::NonZeroPadding.message(), "intent padding must be zero");
}

#[test]
fn intents_with_one_wire_form_are_one_intent() {
    let first = IntentBodyV1::new(Side::Buy, 1, 100, [1; 32], [2; 32], [3; 16]).unwrap();
    let second = IntentBodyV1::new(Side::Sell, 1, 100, [1; 32], [2; 32], [3; 16]).unwrap();
    assert_ne!(first.encode(), second.encode());
    assert_eq!(IntentBodyV1::decode(&second.encode()), Ok(second));
    assert_eq!(
        IntentBodyV1::new(Side::Buy, 2, 0, [1; 32], [2; 32], [3; 16]),
        Err(ProtocolError::InvalidLots(2))
    );
    assert_eq!(
        IntentBodyV1::new(Side::Buy, 1, 0, [1; 32], [2; 32], [3; 16]),
        Err(ProtocolError::InvalidLimitPrice)
    );
}
