use kageb::{
    finalize_settlement, net_batch, release_reservations, AccountError, AccountJournal,
    BatchConfig, BatchResult, ConfirmedTerminalEpoch, EpochTerminalState, FundedOrder, IdMap,
    JournalError, PoolBalance, ReservationJournal, ReservationRecord, ReservationState, Side,
    SigningKey,
};

fn participant(value: u8) -> [u8; 32] {
    [value; 32]
}

fn balances(members: &[[u8; 32]]) -> IdMap<PoolBalance> {
    let mut balances = IdMap::new();
    for member in members {
        balances.insert(*member, PoolBalance::new(1, 100));
    }
    balances
}

fn held(before: &IdMap<PoolBalance>, member: [u8; 32]) -> PoolBalance {
    before.get(&member).expect("funded member")
}

fn settled_batch() -> (IdMap<PoolBalance>, BatchResult) {
    let before = balances(&[participant(1), participant(2)]);
    let orders = [
        FundedOrder::new(participant(1), Side::Buy, 100).unwrap(),
        FundedOrder::new(participant(2), Side::Sell, 100).unwrap(),
    ];
    let result = net_batch(BatchConfig::new(1, 100).unwrap(), &before, &orders).unwrap();
    (before, result)
}

#[test]
fn accounts_persist_and_only_the_local_trading_key_can_read_a_settled_result() {
    let trader_one = SigningKey::from_bytes(&[11; 32]);
    let trader_two = SigningKey::from_bytes(&[12; 32]);
    let outsider = SigningKey::from_bytes(&[13; 32]);
    let (before, result) = settled_batch();
    let epoch_id = [91; 32];

    let mut accounts = AccountJournal::open(None).unwrap();
    let mut reservations = ReservationJournal::open(None).unwrap();
    accounts
        .register(
            participant(1),
            trader_one.verifying_key(),
            held(&before, participant(1)),
        )
        .unwrap();
    for (id, nonce) in [(participant(1), [11; 32]), (participant(2), [12; 32])] {
        reservations
            .reserve(
                ReservationRecord::for_epoch(nonce, epoch_id, id, 1, 100).unwrap(),
                held(&before, id),
            )
            .unwrap();
    }
    accounts
        .register(
            participant(2),
            trader_two.verifying_key(),
            held(&before, participant(2)),
        )
        .unwrap();
    assert_eq!(
        accounts.query_result(participant(1), trader_one.verifying_key()),
        Err(AccountError::ResultPending)
    );
    assert_eq!(
        accounts.query_result(participant(1), outsider.verifying_key()),
        Err(AccountError::Unauthorized)
    );

    finalize_settlement(
        &mut accounts,
        &mut reservations,
        epoch_id,
        &result,
        &[[11; 32], [12; 32]],
    )
    .unwrap();
    let mut restarted = AccountJournal::open(Some(&accounts.encode())).unwrap();
    let mut restarted_reservations =
        ReservationJournal::open(Some(&reservations.encode())).unwrap();
    let result_one = restarted
        .query_result(participant(1), trader_one.verifying_key())
        .unwrap();
    assert_eq!(result_one.epoch_id(), epoch_id);
    assert_eq!(result_one.balance(), PoolBalance::new(2, 0));
    let result_two = restarted
        .query_result(participant(2), trader_two.verifying_key())
        .unwrap();
    assert_eq!(result_two.balance(), PoolBalance::new(0, 200));

    finalize_settlement(
        &mut restarted,
        &mut restarted_reservations,
        epoch_id,
        &result,
        &[[11; 32], [12; 32]],
    )
    .unwrap();
    let subset_before = balances(&[participant(1)]);
    let subset_result = net_batch(
        BatchConfig::new(1, 100).unwrap(),
        &subset_before,
        &[FundedOrder::new(participant(1), Side::Buy, 100).unwrap()],
    )
    .unwrap();
    assert_eq!(
        finalize_settlement(
            &mut restarted,
            &mut restarted_reservations,
            epoch_id,
            &subset_result,
            &[[11; 32]],
        ),
        Err(AccountError::StaleSettlement)
    );
    let before = balances(&[participant(1), participant(2)]);
    let conflicting = net_batch(
        BatchConfig::new(1, 100).unwrap(),
        &before,
        &[
            FundedOrder::new(participant(1), Side::Sell, 100).unwrap(),
            FundedOrder::new(participant(2), Side::Buy, 100).unwrap(),
        ],
    )
    .unwrap();
    assert_eq!(
        finalize_settlement(
            &mut restarted,
            &mut restarted_reservations,
            [92; 32],
            &conflicting,
            &[[11; 32], [12; 32]],
        ),
        Err(AccountError::Reservation(JournalError::InvalidTransition))
    );
    assert_eq!(
        finalize_settlement(
            &mut restarted,
            &mut restarted_reservations,
            epoch_id,
            &conflicting,
            &[[11; 32], [12; 32]],
        ),
        Err(AccountError::StaleSettlement)
    );
}

#[test]
fn settlement_finishes_reservations_without_changing_unrelated_balances() {
    let mut accounts = AccountJournal::open(None).unwrap();
    let mut reservations = ReservationJournal::open(None).unwrap();
    let trader_one = SigningKey::from_bytes(&[11; 32]);
    let trader_two = SigningKey::from_bytes(&[12; 32]);
    let (before, result) = settled_batch();
    for (id, trader, nonce) in [
        (participant(1), &trader_one, [21; 32]),
        (participant(2), &trader_two, [22; 32]),
    ] {
        accounts
            .register(id, trader.verifying_key(), held(&before, id))
            .unwrap();
        reservations
            .reserve(
                ReservationRecord::for_epoch(nonce, [91; 32], id, 1, 100).unwrap(),
                held(&before, id),
            )
            .unwrap();
    }

    finalize_settlement(
        &mut accounts,
        &mut reservations,
        [91; 32],
        &result,
        &[[21; 32], [22; 32]],
    )
    .unwrap();
    finalize_settlement(
        &mut accounts,
        &mut reservations,
        [91; 32],
        &result,
        &[[21; 32], [22; 32]],
    )
    .unwrap();
    assert_eq!(reservations.state([21; 32]), Some(ReservationState::Used));
    assert_eq!(reservations.state([22; 32]), Some(ReservationState::Used));
    assert_eq!(
        finalize_settlement(
            &mut accounts,
            &mut reservations,
            [92; 32],
            &result,
            &[[21; 32], [22; 32]],
        ),
        Err(AccountError::Reservation(JournalError::InvalidTransition))
    );
    assert_eq!(
        accounts
            .query_result(participant(1), trader_one.verifying_key())
            .unwrap()
            .epoch_id(),
        [91; 32]
    );

    assert_eq!(
        accounts
            .query_result(participant(2), trader_two.verifying_key())
            .unwrap()
            .balance(),
        PoolBalance::new(0, 200)
    );
}

#[test]
fn final_results_are_found_again_after_both_journals_are_reopened() {
    let mut accounts = AccountJournal::open(None).unwrap();
    let mut reservations = ReservationJournal::open(None).unwrap();
    let traders = [1, 2, 3].map(|id| SigningKey::from_bytes(&[10 + id; 32]));
    let (before, result) = settled_batch();
    for (id, nonce) in [(1, [21; 32]), (2, [22; 32])] {
        let held = held(&before, participant(id));
        let key = traders[id as usize - 1].verifying_key();
        accounts.register(participant(id), key, held).unwrap();
        reservations
            .reserve(
                ReservationRecord::for_epoch(nonce, [91; 32], participant(id), 1, 100).unwrap(),
                held,
            )
            .unwrap();
    }
    accounts
        .register(participant(3), traders[2].verifying_key(), PoolBalance::new(7, 7))
        .unwrap();
    let nonces = [[21; 32], [22; 32]];
    finalize_settlement(&mut accounts, &mut reservations, [91; 32], &result, &nonces).unwrap();

    let mut reopened = AccountJournal::open(Some(&accounts.encode())).unwrap();
    let mut found = ReservationJournal::open(Some(&reservations.encode())).unwrap();
    assert_eq!(reopened, accounts);
    assert_eq!(found, reservations);
    finalize_settlement(&mut reopened, &mut found, [91; 32], &result, &nonces).unwrap();
    assert_eq!(reopened, accounts);
    assert_eq!(found, reservations);
    for (id, balance) in [(1, PoolBalance::new(2, 0)), (2, PoolBalance::new(0, 200))] {
        let settled = reopened
            .query_result(participant(id), traders[id as usize - 1].verifying_key())
            .unwrap();
        assert_eq!((settled.epoch_id(), settled.balance()), ([91; 32], balance));
    }
    assert_eq!(
        reopened.query_result(participant(3), traders[2].verifying_key()),
        Err(AccountError::ResultPending)
    );
    assert_eq!(found.state([21; 32]), Some(ReservationState::Used));
    assert_eq!(found.state([22; 32]), Some(ReservationState::Used));
}

#[test]
fn released_reservation_rejects_before_any_result_is_committed() {
    let mut accounts = AccountJournal::open(None).unwrap();
    let mut reservations = ReservationJournal::open(None).unwrap();
    let trader_one = SigningKey::from_bytes(&[11; 32]);
    let trader_two = SigningKey::from_bytes(&[12; 32]);
    let (before, result) = settled_batch();
    for (id, trader, nonce) in [
        (participant(1), &trader_one, [41; 32]),
        (participant(2), &trader_two, [42; 32]),
    ] {
        accounts
            .register(id, trader.verifying_key(), held(&before, id))
            .unwrap();
        reservations
            .reserve(
                ReservationRecord::for_epoch(nonce, [91; 32], id, 1, 100).unwrap(),
                held(&before, id),
            )
            .unwrap();
    }
    reservations.release([42; 32]).unwrap();

    assert_eq!(
        finalize_settlement(
            &mut accounts,
            &mut reservations,
            [91; 32],
            &result,
            &[[41; 32], [42; 32]],
        ),
        Err(AccountError::Reservation(JournalError::InvalidTransition))
    );
    assert_eq!(
        accounts.query_result(participant(1), trader_one.verifying_key()),
        Err(AccountError::ResultPending)
    );
    assert_eq!(
        accounts.query_result(participant(2), trader_two.verifying_key()),
        Err(AccountError::ResultPending)
    );
    assert_eq!(
        reservations.state([41; 32]),
        Some(ReservationState::Reserved)
    );
}

#[test]
fn prematurely_used_or_unknown_reservations_do_not_commit_a_result() {
    let mut accounts = AccountJournal::open(None).unwrap();
    let mut reservations = ReservationJournal::open(None).unwrap();
    let trader_one = SigningKey::from_bytes(&[11; 32]);
    let trader_two = SigningKey::from_bytes(&[12; 32]);
    let (before, result) = settled_batch();
    for (id, trader, nonce) in [
        (participant(1), &trader_one, [51; 32]),
        (participant(2), &trader_two, [52; 32]),
    ] {
        accounts
            .register(id, trader.verifying_key(), held(&before, id))
            .unwrap();
        reservations
            .reserve(
                ReservationRecord::for_epoch(nonce, [91; 32], id, 1, 100).unwrap(),
                held(&before, id),
            )
            .unwrap();
    }
    reservations.mark_used([51; 32]).unwrap();

    assert_eq!(
        finalize_settlement(
            &mut accounts,
            &mut reservations,
            [91; 32],
            &result,
            &[[51; 32], [52; 32]],
        ),
        Err(AccountError::StaleSettlement)
    );
    assert_eq!(
        finalize_settlement(
            &mut accounts,
            &mut reservations,
            [91; 32],
            &result,
            &[[51; 32], [99; 32]],
        ),
        Err(AccountError::Reservation(JournalError::UnknownNonce))
    );
    assert_eq!(
        accounts.query_result(participant(1), trader_one.verifying_key()),
        Err(AccountError::ResultPending)
    );
    assert_eq!(
        reservations.state([52; 32]),
        Some(ReservationState::Reserved)
    );
}

#[test]
fn account_journal_rejects_duplicates_missing_accounts_and_corruption() {
    let trader = SigningKey::from_bytes(&[11; 32]);
    let mut accounts = AccountJournal::open(None).unwrap();
    accounts
        .register(
            participant(1),
            trader.verifying_key(),
            PoolBalance::new(1, 100),
        )
        .unwrap();
    assert_eq!(
        accounts.register(
            participant(1),
            trader.verifying_key(),
            PoolBalance::new(1, 100),
        ),
        Err(AccountError::DuplicateAccount)
    );
    let (_, result) = settled_batch();
    let mut reservations = ReservationJournal::open(None).unwrap();
    for (id, nonce) in [(participant(1), [61; 32]), (participant(2), [62; 32])] {
        reservations
            .reserve(
                ReservationRecord::for_epoch(nonce, [91; 32], id, 1, 100).unwrap(),
                PoolBalance::new(1, 100),
            )
            .unwrap();
    }
    assert_eq!(
        finalize_settlement(
            &mut accounts,
            &mut reservations,
            [91; 32],
            &result,
            &[[61; 32], [62; 32]],
        ),
        Err(AccountError::UnknownAccount)
    );

    let mut bytes = accounts.encode();
    bytes[0] ^= 1;
    assert_eq!(AccountJournal::open(Some(&bytes)), Err(AccountError::Corrupt));
}

#[test]
fn settlement_rejects_reservations_that_do_not_match_the_result_members() {
    let mut accounts = AccountJournal::open(None).unwrap();
    let mut reservations = ReservationJournal::open(None).unwrap();
    let trader_one = SigningKey::from_bytes(&[11; 32]);
    let trader_two = SigningKey::from_bytes(&[12; 32]);
    let (before, result) = settled_batch();
    accounts
        .register(
            participant(1),
            trader_one.verifying_key(),
            held(&before, participant(1)),
        )
        .unwrap();
    accounts
        .register(
            participant(2),
            trader_two.verifying_key(),
            held(&before, participant(2)),
        )
        .unwrap();
    for nonce in [[31; 32], [32; 32]] {
        reservations
            .reserve(
                ReservationRecord::for_epoch(nonce, [91; 32], participant(1), 1, 100).unwrap(),
                PoolBalance::new(2, 200),
            )
            .unwrap();
    }

    assert_eq!(
        finalize_settlement(
            &mut accounts,
            &mut reservations,
            [91; 32],
            &result,
            &[[31; 32], [32; 32]],
        ),
        Err(AccountError::Reservation(JournalError::InvalidTransition))
    );
    assert_eq!(
        reservations.state([31; 32]),
        Some(ReservationState::Reserved)
    );
    assert_eq!(
        reservations.state([32; 32]),
        Some(ReservationState::Reserved)
    );
    assert_eq!(
        accounts.query_result(participant(1), trader_one.verifying_key()),
        Err(AccountError::ResultPending)
    );
}

fn terminal_epoch(epoch_id: [u8; 32]) -> ConfirmedTerminalEpoch {
    ConfirmedTerminalEpoch::new([7; 32], epoch_id, EpochTerminalState::Aborted, 42)
        .expect("aborted epoch")
}

#[test]
fn confirmed_terminal_epoch_releases_only_its_own_batch_and_is_idempotent() {
    let mut accounts = AccountJournal::open(None).unwrap();
    let mut reservations = ReservationJournal::open(None).unwrap();
    let epoch_id = [92; 32];
    let nonce = [24; 32];
    reservations
        .reserve(
            ReservationRecord::for_epoch(nonce, epoch_id, [2; 32], 1, 100).unwrap(),
            PoolBalance::new(1, 100),
        )
        .unwrap();

    assert_eq!(
        release_reservations(
            &mut accounts,
            &mut reservations,
            &terminal_epoch([93; 32]),
            &[nonce],
        ),
        Err(AccountError::Reservation(JournalError::InvalidTransition))
    );
    assert_eq!(reservations.state(nonce), Some(ReservationState::Reserved));

    let terminal = terminal_epoch(epoch_id);
    release_reservations(&mut accounts, &mut reservations, &terminal, &[nonce]).unwrap();
    release_reservations(&mut accounts, &mut reservations, &terminal, &[nonce]).unwrap();
    assert_eq!(reservations.state(nonce), Some(ReservationState::Released));
}

#[test]
fn release_checks_the_commit_marker_while_holding_the_reservation_lock() {
    let epoch_id = [91; 32];
    let members = [[1; 32], [2; 32]];
    let nonces = [[71; 32], [72; 32]];
    let (before, result) = settled_batch();
    let mut accounts = AccountJournal::open(None).unwrap();
    let mut reservations = ReservationJournal::open(None).unwrap();
    for (index, (member, nonce)) in members.into_iter().zip(nonces).enumerate() {
        accounts
            .register(
                member,
                SigningKey::from_bytes(&[index as u8 + 11; 32]).verifying_key(),
                held(&before, member),
            )
            .unwrap();
        reservations
            .reserve(
                ReservationRecord::for_epoch(nonce, epoch_id, member, 1, 100).unwrap(),
                held(&before, member),
            )
            .unwrap();
    }

    // Fault injection: the account commit landed, then the process stopped before
    // the reservation journal could record consumption.
    accounts.apply_settlement(epoch_id, &result).unwrap();
    assert!(accounts.has_applied_epoch(epoch_id));
    let release = release_reservations(
        &mut accounts,
        &mut reservations,
        &terminal_epoch(epoch_id),
        &nonces,
    );

    assert_eq!(release, Err(AccountError::StaleSettlement));
    assert_eq!(reservations.state(nonces[0]), Some(ReservationState::Reserved));
    assert_eq!(reservations.state(nonces[1]), Some(ReservationState::Reserved));
    finalize_settlement(&mut accounts, &mut reservations, epoch_id, &result, &nonces).unwrap();
    assert_eq!(reservations.state(nonces[0]), Some(ReservationState::Used));
    assert_eq!(reservations.state(nonces[1]), Some(ReservationState::Used));
}

#[test]
fn only_an_epoch_that_ended_unsettled_is_terminal() {
    for state in [
        EpochTerminalState::Open,
        EpochTerminalState::Locked,
        EpochTerminalState::Settled,
    ] {
        assert!(ConfirmedTerminalEpoch::new([7; 32], [1; 32], state, 42).is_none());
    }
    let expired =
        ConfirmedTerminalEpoch::new([7; 32], [1; 32], EpochTerminalState::Expired, 42).unwrap();
    assert_eq!(expired.epoch_id(), [1; 32]);
    assert_eq!(expired.epoch_account(), [7; 32]);
    assert_eq!(expired.confirmation_slot(), 42);
}

#[test]
fn accounts_come_back_from_their_file() {
    let mut accounts = AccountJournal::open(None).unwrap();
    let trader = SigningKey::from_bytes(&[11; 32]);
    accounts
        .register(participant(1), trader.verifying_key(), PoolBalance::new(1, 100))
        .unwrap();
    accounts
        .register(participant(2), trader.verifying_key(), PoolBalance::new(1, 100))
        .unwrap();
    let (_, result) = settled_batch();
    accounts.apply_settlement([91; 32], &result).unwrap();
    let restarted = AccountJournal::open(Some(&accounts.encode())).unwrap();
    assert_eq!(restarted, accounts);
    assert!(restarted.settlement_matches([91; 32], &result));
    assert_eq!(
        restarted.query_result(participant(3), trader.verifying_key()),
        Err(AccountError::UnknownAccount)
    );
}
