use kageb::{
    JournalError, PoolBalance, ReservationJournal, ReservationRecord, ReservationState,
    SigningKey, SubmissionV1, SuspensionError, SuspensionRegistry,
};

fn record(nonce: u8) -> ReservationRecord {
    ReservationRecord::new([nonce; 32], [7; 32], 2, 100).expect("funded reservation")
}

fn reopened(journal: &ReservationJournal) -> ReservationJournal {
    ReservationJournal::open(Some(&journal.encode())).expect("restart journal")
}

#[test]
fn reservation_requires_both_sides_funded() {
    assert_eq!(
        ReservationRecord::new([1; 32], [7; 32], 0, 100),
        Err(JournalError::InvalidAmount)
    );
    assert_eq!(
        ReservationRecord::new([1; 32], [7; 32], 2, 0),
        Err(JournalError::InvalidAmount)
    );
}

#[test]
fn reservation_is_durable_before_success_and_cannot_replay() {
    let balance = PoolBalance::new(10, 1_000);

    let mut journal = ReservationJournal::open(None).expect("create journal");
    journal.reserve(record(1), balance).expect("reserve");

    let mut restarted = reopened(&journal);
    assert_eq!(restarted.state([1; 32]), Some(ReservationState::Reserved));
    assert_eq!(
        restarted.reserve(record(1), balance),
        Err(JournalError::DuplicateNonce)
    );

    restarted.mark_used([1; 32]).expect("consume reservation");
    assert_eq!(
        restarted.release([1; 32]),
        Err(JournalError::InvalidTransition)
    );
    assert_eq!(
        reopened(&restarted).state([1; 32]),
        Some(ReservationState::Used)
    );
}

#[test]
fn durable_reservation_is_the_only_path_to_an_unsigned_submission() {
    let mut journal = ReservationJournal::open(None).expect("create journal");

    let authorization = journal
        .reserve(record(1), PoolBalance::new(10, 1_000))
        .expect("durably reserve");
    assert_eq!(authorization.nonce(), [1; 32]);
    assert_eq!(authorization.participant_id(), [7; 32]);
    assert_eq!(
        reopened(&journal).state([1; 32]),
        Some(ReservationState::Reserved)
    );

    let submission = SubmissionV1::new(authorization, [9; 32]);
    assert_eq!(submission.ciphertext_hash(), [9; 32]);
}

#[test]
fn terminal_states_cannot_cross() {
    let mut journal = ReservationJournal::open(None).expect("create journal");
    journal
        .reserve(record(1), PoolBalance::new(10, 1_000))
        .expect("reserve for use");
    journal.mark_used([1; 32]).expect("use");
    assert_eq!(
        journal.mark_used([1; 32]),
        Err(JournalError::InvalidTransition)
    );
    journal
        .reserve(record(2), PoolBalance::new(10, 1_000))
        .expect("reserve for release");
    journal.release([2; 32]).expect("release");
    assert_eq!(
        journal.mark_used([2; 32]),
        Err(JournalError::InvalidTransition)
    );
    assert_eq!(
        journal.release([1; 32]),
        Err(JournalError::InvalidTransition)
    );
    assert_eq!(journal.release([3; 32]), Err(JournalError::UnknownNonce));
}

#[test]
fn insufficient_or_overcommitted_balance_never_changes_disk_state() {
    let mut journal = ReservationJournal::open(None).expect("create journal");
    let empty = journal.encode();

    assert_eq!(
        journal.reserve(record(1), PoolBalance::new(1, 99)),
        Err(JournalError::InsufficientBalance)
    );
    assert_eq!(journal.state([1; 32]), None);
    assert_eq!(journal.encode(), empty);

    journal
        .reserve(record(1), PoolBalance::new(2, 100))
        .expect("first reservation");
    assert_eq!(
        journal.reserve(record(2), PoolBalance::new(2, 100)),
        Err(JournalError::InsufficientBalance)
    );
    assert_eq!(journal.state([2; 32]), None);

    journal.release([1; 32]).expect("release first");
    journal
        .reserve(record(2), PoolBalance::new(2, 100))
        .expect("released capacity can be reserved");
}

#[test]
fn reserved_totals_that_overflow_are_refused() {
    let mut journal = ReservationJournal::open(None).expect("create journal");
    let all = PoolBalance::new(u64::MAX, u64::MAX);
    let big = ReservationRecord::new([1; 32], [7; 32], u64::MAX, 1).expect("funded reservation");
    journal.reserve(big, all).expect("first reservation");
    assert_eq!(
        journal.reserve(record(2), all),
        Err(JournalError::ArithmeticOverflow)
    );
}

#[test]
fn truncated_or_tampered_journal_fails_closed() {
    let mut journal = ReservationJournal::open(None).expect("create journal");
    journal
        .reserve(record(1), PoolBalance::new(10, 1_000))
        .expect("reserve");

    let mut bytes = journal.encode();
    bytes.truncate(bytes.len() - 1);
    assert!(matches!(
        ReservationJournal::open(Some(&bytes)),
        Err(JournalError::Corrupt)
    ));
    let mut bytes = journal.encode();
    bytes[9] ^= 1;
    assert!(matches!(
        ReservationJournal::open(Some(&bytes)),
        Err(JournalError::Corrupt)
    ));
}

#[test]
fn journals_of_bound_reservations_survive_a_restart() {
    let mut journal = ReservationJournal::open(None).expect("create journal");
    let bound = ReservationRecord::for_epoch([1; 32], [91; 32], [7; 32], 2, 100)
        .expect("funded reservation");
    journal
        .reserve(bound, PoolBalance::new(4, 200))
        .expect("reserve bound");
    journal
        .reserve(record(2), PoolBalance::new(4, 200))
        .expect("reserve unbound");
    let restarted = reopened(&journal);
    assert_eq!(restarted, journal);
    assert_eq!(restarted.encode(), journal.encode());
}

#[test]
fn suspended_trading_key_survives_restart_and_blocks_later_authorization() {
    let trading = SigningKey::from_bytes(&[41; 32]);
    let operator = SigningKey::from_bytes(&[90; 32]);
    let trading_key = trading.verifying_key();

    let mut reservations = ReservationJournal::open(None).expect("reservations");
    let first = reservations
        .reserve(record(1), PoolBalance::new(10, 1_000))
        .expect("first reservation");
    let mut suspensions = SuspensionRegistry::open(None).expect("registry");
    assert!(suspensions
        .issue_authorization(first, [42; 32], trading.verifying_key(), &operator, 1_000)
        .is_ok());

    suspensions.suspend(trading_key.to_bytes());
    let reopened = SuspensionRegistry::open(Some(&suspensions.encode())).expect("reopen registry");
    assert!(reopened.is_suspended(trading_key.to_bytes()));

    let later = reservations
        .reserve(record(2), PoolBalance::new(10, 1_000))
        .expect("later reservation");
    assert!(
        reopened.issue_authorization(later, [43; 32], trading_key, &operator, 2_000)
            == Err(SuspensionError::Suspended)
    );
}

#[test]
fn tampered_suspension_registry_fails_closed() {
    let mut registry = SuspensionRegistry::open(None).expect("registry");
    registry.suspend([41; 32]);

    let mut bytes = registry.encode();
    let last = bytes.len() - 1;
    bytes[last] ^= 1;
    assert!(matches!(
        SuspensionRegistry::open(Some(&bytes)),
        Err(SuspensionError::Corrupt)
    ));
}
