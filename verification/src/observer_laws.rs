//! What an observer may conclude from a trace of confirmed transactions.

use crate::domain::Side;
use crate::encodings::base58_decoded;
use crate::ledger::Residual;
use crate::observer::{
    accounts_match, action_line, confirmed, confirmed_action, confirmed_trace, direct_action,
    direct_trace, distinct_total, effects_refusal, individuals, is_approval, is_approved_call,
    kageb_trace, key_at, keys_match, last_instruction, last_kageb, leg_refusal, lots_of,
    residual_name, side_name, token_legs, trace_text, wallets, CompactSettlementV1,
    DirectMarketAccounts, KagebObserverAccounts, KagebRead, ObserverError, ProgramIds, PublicAction,
};
use crate::program::LockPayloadV1;
use crate::text::{decimal, hex};
use crate::tokens::token_instruction;
use crate::transaction::{
    read_at, FetchedTransaction, InnerRead, ObservedInner, ObservedParts,
};
use vstd::bytes::spec_u64_from_le_bytes;
use vstd::prelude::*;
use vstd::string::*;

verus! {

/// Whether bytes are a checked transfer of an amount of a token without decimals.
pub open spec fn is_transfer_of(data: Seq<u8>, amount: int) -> bool {
    &&& data.len() >= 10
    &&& data[0] == 12
    &&& spec_u64_from_le_bytes(data.subrange(1, 9)) == amount
    &&& data[9] == 0
}

/// Whether an inner instruction moves an amount of a mint from one account to another, on the word of an
/// authority.
pub open spec fn moves(
    instruction: Option<InnerRead>,
    keys: Seq<[u8; 32]>,
    ids: ProgramIds,
    from: [u8; 32],
    mint: [u8; 32],
    to: [u8; 32],
    authority: [u8; 32],
    amount: int,
) -> bool {
    instruction matches Some(made) && {
        let named = made.accounts@;
        &&& made.program_id_index < keys.len()
        &&& keys[made.program_id_index as int] == ids.token_program
        &&& named.len() == 4
        &&& named[0] < keys.len() && keys[named[0] as int] == from
        &&& named[1] < keys.len() && keys[named[1] as int] == mint
        &&& named[2] < keys.len() && keys[named[2] as int] == to
        &&& named[3] < keys.len() && keys[named[3] as int] == authority
        &&& base58_decoded(made.data@) matches Some(data) && is_transfer_of(data, amount)
    }
}

proof fn lemma_leg(
    keys: Seq<[u8; 32]>,
    instruction: Option<InnerRead>,
    leg: crate::observer::TokenLeg,
    ids: ProgramIds,
)
    requires
        leg.accounts.len() == 4,
    ensures
        leg_refusal(keys, instruction, leg, ids) is None <==> moves(
            instruction,
            keys,
            ids,
            leg.accounts[0],
            leg.accounts[1],
            leg.accounts[2],
            leg.accounts[3],
            leg.amount as int,
        ),
{
    if let Some(made) = instruction {
        let named = made.accounts@;
        assert(accounts_match(keys, named, leg.accounts) <==> (named.len() == 4 && key_at(
            keys,
            named[0],
        ) == Some(leg.accounts[0]) && key_at(keys, named[1]) == Some(leg.accounts[1]) && key_at(
            keys,
            named[2],
        ) == Some(leg.accounts[2]) && key_at(keys, named[3]) == Some(leg.accounts[3]))) by {
            if named.len() == 4 && key_at(keys, named[0]) == Some(leg.accounts[0]) && key_at(
                keys,
                named[1],
            ) == Some(leg.accounts[1]) && key_at(keys, named[2]) == Some(leg.accounts[2])
                && key_at(keys, named[3]) == Some(leg.accounts[3]) {
                assert forall|i: int| 0 <= i < named.len() implies key_at(
                    keys,
                    #[trigger] named[i],
                ) == Some(leg.accounts[i]) by {
                    assert(i == 0 || i == 1 || i == 2 || i == 3);
                }
            }
        }
    }
}

/// The transfers of a settlement are exactly those of its residual. A pool that buys pays the price of
/// its lots from its quote vault to the venue, and receives the lots from the venue in its base vault. A
/// pool that sells gives its lots from its base vault to the venue, and receives their price from the
/// venue in its quote vault. A balanced pool moves nothing. Anything else is refused.
pub proof fn law_settlement_moves_the_residual(
    inner: Seq<ObservedInner>,
    keys: Seq<[u8; 32]>,
    settlement_index: u8,
    accounts: KagebObserverAccounts,
    residual: Residual,
    ids: ProgramIds,
)
    ensures
        effects_refusal(inner, keys, settlement_index, accounts, residual, ids) is None <==> {
            let made = inner[0].instructions@;
            match residual {
                Residual::Balanced => inner.len() == 0 || (inner.len() == 1 && inner[0].index
                    == settlement_index && made.len() == 0),
                Residual::Buy { lots } => {
                    &&& lots * accounts.base_lot_atoms <= u64::MAX
                    &&& lots * accounts.quote_atoms_per_lot <= u64::MAX
                    &&& inner.len() == 1
                    &&& inner[0].index == settlement_index
                    &&& made.len() == 2
                    &&& moves(
                        made[0],
                        keys,
                        ids,
                        accounts.pool_quote_vault,
                        accounts.quote_mint,
                        accounts.venue_quote_account,
                        accounts.vault_authority,
                        lots * accounts.quote_atoms_per_lot,
                    )
                    &&& moves(
                        made[1],
                        keys,
                        ids,
                        accounts.venue_base_account,
                        accounts.base_mint,
                        accounts.pool_base_vault,
                        accounts.venue_authority,
                        lots * accounts.base_lot_atoms,
                    )
                },
                Residual::Sell { lots } => {
                    &&& lots * accounts.base_lot_atoms <= u64::MAX
                    &&& lots * accounts.quote_atoms_per_lot <= u64::MAX
                    &&& inner.len() == 1
                    &&& inner[0].index == settlement_index
                    &&& made.len() == 2
                    &&& moves(
                        made[0],
                        keys,
                        ids,
                        accounts.pool_base_vault,
                        accounts.base_mint,
                        accounts.venue_base_account,
                        accounts.vault_authority,
                        lots * accounts.base_lot_atoms,
                    )
                    &&& moves(
                        made[1],
                        keys,
                        ids,
                        accounts.venue_quote_account,
                        accounts.quote_mint,
                        accounts.pool_quote_vault,
                        accounts.venue_authority,
                        lots * accounts.quote_atoms_per_lot,
                    )
                },
            }
        },
{
    let lots = lots_of(residual) as int;
    let lot = accounts.base_lot_atoms as int;
    let price = accounts.quote_atoms_per_lot as int;
    assert(lots * lot == lot * lots && lots * price == price * lots) by (nonlinear_arith);
    assert(lot * 0 == 0 && price * 0 == 0) by (nonlinear_arith);
    let legs = token_legs(accounts, residual);
    if residual != Residual::Balanced && inner.len() == 1 && inner[0].instructions@.len() == 2 {
        lemma_leg(keys, inner[0].instructions@[0], legs[0], ids);
        lemma_leg(keys, inner[0].instructions@[1], legs[1], ids);
    }
}

proof fn lemma_distinct_total(keys: Seq<[u8; 32]>, n: int)
    requires
        0 <= n <= keys.len(),
    ensures
        distinct_total(keys, n) == keys.take(n).to_set().len(),
        keys.take(n).to_set().finite(),
    decreases n,
{
    broadcast use vstd::seq_lib::seq_to_set_is_finite;

    if n == 0 {
        assert(keys.take(0).to_set() =~= Set::empty());
    } else {
        lemma_distinct_total(keys, n - 1);
        let before = keys.take(n - 1);
        let key = keys[n - 1];
        assert(keys.take(n) =~= before.push(key));
        assert(keys.take(n).to_set() =~= before.to_set().insert(key)) by {
            assert forall|k: [u8; 32]| keys.take(n).to_set().contains(k) implies before.to_set().insert(
                key,
            ).contains(k) by {
                let i = choose|i: int| 0 <= i < n && keys.take(n)[i] == k;
                if i < n - 1 {
                    assert(before[i] == k);
                }
            }
            assert forall|k: [u8; 32]|
                before.to_set().insert(key).contains(k) implies keys.take(n).to_set().contains(k) by {
                if k == key {
                    assert(keys.take(n)[n - 1] == key);
                } else {
                    let i = choose|i: int| 0 <= i < n - 1 && before[i] == k;
                    assert(keys.take(n)[i] == k);
                }
            }
        }
    }
}

/// Keys are the expected ones where each expected key stands among them once, in any order, and none
/// besides.
pub proof fn law_keys_are_exact(keys: Seq<[u8; 32]>, expected: Seq<[u8; 32]>)
    ensures
        keys_match(keys, expected) <==> keys.no_duplicates() && (forall|key: [u8; 32]|
            keys.contains(key) <==> expected.contains(key)),
{
    broadcast use vstd::seq_lib::seq_to_set_is_finite;

    lemma_distinct_total(expected, expected.len() as int);
    assert(expected.take(expected.len() as int) =~= expected);
    if keys_match(keys, expected) {
        assert forall|key: [u8; 32]| keys.contains(key) <==> expected.contains(key) by {
            if keys.contains(key) {
                let i = choose|i: int| 0 <= i < keys.len() && keys[i] == key;
                assert(expected.contains(keys[i]));
            }
            if expected.contains(key) {
                let i = choose|i: int| 0 <= i < expected.len() && expected[i] == key;
                assert(keys.contains(expected[i]));
            }
        }
        assert(keys.to_set() =~= expected.to_set());
        keys.lemma_no_dup_set_cardinality();
    }
    if keys.no_duplicates() && (forall|key: [u8; 32]|
        keys.contains(key) <==> expected.contains(key)) {
        assert(keys.to_set() =~= expected.to_set());
        keys.unique_seq_to_set();
        assert forall|i: int| 0 <= i < keys.len() implies expected.contains(#[trigger] keys[i]) by {
            assert(keys.contains(keys[i]));
        }
        assert forall|i: int| 0 <= i < expected.len() implies keys.contains(
            #[trigger] expected[i],
        ) by {
            assert(expected.contains(expected[i]));
        }
    }
}

/// Account indexes name the expected accounts where there are as many of them and each names its own.
pub proof fn law_accounts_are_named_in_order(
    keys: Seq<[u8; 32]>,
    indexes: Seq<u8>,
    expected: Seq<[u8; 32]>,
)
    ensures
        accounts_match(keys, indexes, expected) <==> indexes.len() == expected.len() && (forall|
            i: int,
        |
            0 <= i < indexes.len() ==> (#[trigger] indexes[i]) < keys.len() && keys[indexes[i] as int]
                == expected[i]),
{
    if accounts_match(keys, indexes, expected) {
        assert forall|i: int| 0 <= i < indexes.len() implies (#[trigger] indexes[i]) < keys.len()
            && keys[indexes[i] as int] == expected[i] by {
            assert(key_at(keys, indexes[i]) == Some(expected[i]));
        }
    }
    if indexes.len() == expected.len() && (forall|i: int|
        0 <= i < indexes.len() ==> (#[trigger] indexes[i]) < keys.len() && keys[indexes[i] as int]
            == expected[i]) {
        assert forall|i: int| 0 <= i < indexes.len() implies key_at(keys, #[trigger] indexes[i])
            == Some(expected[i]) by {
            assert(indexes[i] < keys.len());
        }
    }
}

/// Whether a transaction is a call of the program, behind two signature checks by the chain and nothing
/// else, paid for by the expected key.
pub open spec fn is_twice_approved(
    transaction: ObservedParts,
    fee_payer: [u8; 32],
    discriminator: u8,
    ids: ProgramIds,
) -> bool {
    let keys = transaction.keys;
    let calls = transaction.instructions;
    &&& keys.len() > 0
    &&& keys[0] == fee_payer
    &&& calls.len() == 3
    &&& forall|i: int|
        0 <= i < 2 ==> (#[trigger] calls[i]).program_id_index < keys.len()
            && keys[calls[i].program_id_index as int] == ids.ed25519_program
            && calls[i].accounts.len() == 0 && i < transaction.reads.len()
            && transaction.reads[i].approval is Some
    &&& calls[2].program_id_index < keys.len()
    &&& keys[calls[2].program_id_index as int] == ids.program
    &&& calls[2].data.len() > 0
    &&& calls[2].data[0] == discriminator
}

proof fn lemma_twice_approved(
    transaction: ObservedParts,
    fee_payer: [u8; 32],
    discriminator: u8,
    ids: ProgramIds,
)
    requires
        ids.program != ids.ed25519_program,
    ensures
        is_twice_approved(transaction, fee_payer, discriminator, ids) <==> (
        crate::observer::pays_fees(transaction.keys, fee_payer) && is_approved_call(
            transaction,
            discriminator,
            ids,
        ) && transaction.instructions.len() == 3),
{
    if is_twice_approved(transaction, fee_payer, discriminator, ids) {
        assert forall|i: int| 0 <= i < 2 implies #[trigger] is_approval(transaction, i, ids) by {
            assert(transaction.instructions[i].program_id_index < transaction.keys.len());
        }
    }
    if crate::observer::pays_fees(transaction.keys, fee_payer) && is_approved_call(
        transaction,
        discriminator,
        ids,
    ) && transaction.instructions.len() == 3 {
        assert(is_approval(transaction, 0, ids));
        assert(is_approval(transaction, 1, ids));
        assert forall|i: int| 0 <= i < 2 implies (
        #[trigger] transaction.instructions[i]).program_id_index < transaction.keys.len()
            && transaction.keys[transaction.instructions[i].program_id_index as int]
            == ids.ed25519_program && transaction.instructions[i].accounts.len() == 0 && i
            < transaction.reads.len() && transaction.reads[i].approval is Some by {
            assert(i == 0 || i == 1);
        }
    }
}

/// An observer sees a pool's aggregate exactly where a lock and a settlement stand behind two approvals
/// each and name the accounts of the pool and no others, the lock is of the epoch and of at least four
/// members, and the settlement's numbers are those of a residual that its transfers move. What is shown is
/// that residual: a buy for side one, a sell for side two, no venue leg for zero; with the pool, the venue,
/// the lock's member root, the settlement's commitment and the two approvals, and nothing of any wallet.
pub proof fn law_observed_aggregate_is_the_residual(
    lock: ObservedParts,
    settlement: ObservedParts,
    accounts: KagebObserverAccounts,
    ids: ProgramIds,
    payload: LockPayloadV1,
    digest: [u8; 32],
    terms: CompactSettlementV1,
)
    requires
        ids.program != ids.ed25519_program,
        lock.instructions.len() == 3,
        settlement.instructions.len() == 3,
        read_at(lock.reads, 2).kageb == Some(KagebRead::Lock { payload, digest }),
        read_at(settlement.reads, 2).kageb == Some(KagebRead::Settle { terms }),
    ensures
        ({
            let residual = if terms.residual_side == 1 {
                Residual::Buy { lots: terms.residual_lots }
            } else if terms.residual_side == 2 {
                Residual::Sell { lots: terms.residual_lots }
            } else {
                Residual::Balanced
            };
            let lock_named = seq![
                accounts.payer,
                accounts.pool,
                accounts.epoch,
                ids.instructions_sysvar,
                ids.clock_sysvar,
            ];
            let settlement_named = seq![
                accounts.payer,
                accounts.pool,
                accounts.epoch,
                accounts.vault_authority,
                accounts.pool_base_vault,
                accounts.pool_quote_vault,
                accounts.venue_authority,
                accounts.venue_base_account,
                accounts.venue_quote_account,
                accounts.base_mint,
                accounts.quote_mint,
                ids.token_program,
                ids.instructions_sysvar,
                ids.clock_sysvar,
            ];
            &&& kageb_trace(lock, settlement, accounts, ids) is Ok <==> {
                &&& is_twice_approved(lock, accounts.fee_payer, 2, ids)
                &&& is_twice_approved(settlement, accounts.fee_payer, 3, ids)
                &&& keys_match(
                    lock.keys,
                    seq![accounts.fee_payer] + lock_named + seq![ids.ed25519_program, ids.program],
                )
                &&& accounts_match(lock.keys, lock.instructions[2].accounts, lock_named)
                &&& keys_match(
                    settlement.keys,
                    seq![accounts.fee_payer] + settlement_named + seq![
                        ids.ed25519_program,
                        ids.program,
                    ],
                )
                &&& accounts_match(
                    settlement.keys,
                    settlement.instructions[2].accounts,
                    settlement_named,
                )
                &&& payload.epoch_account == accounts.epoch
                &&& payload.member_count >= 4
                &&& terms.residual_side <= 2
                &&& terms.residual_side == 0 <==> terms.residual_lots == 0
                &&& effects_refusal(
                    settlement.inner,
                    settlement.keys,
                    2,
                    accounts,
                    residual,
                    ids,
                ) is None
            }
            &&& kageb_trace(lock, settlement, accounts, ids) matches Ok(actions) ==> actions
                == seq![
                PublicAction::Aggregate {
                    pool: accounts.pool,
                    venue: accounts.venue_authority,
                    residual,
                    member_root: payload.member_root,
                    result_commitment: terms.result_commitment,
                    keyper_approvals: 2,
                },
            ]
        }),
{
    lemma_twice_approved(lock, accounts.fee_payer, 2, ids);
    lemma_twice_approved(settlement, accounts.fee_payer, 3, ids);
    assert(last_instruction(lock) == lock.instructions[2]);
    assert(last_instruction(settlement) == settlement.instructions[2]);
    assert(last_kageb(lock) == Some(KagebRead::Lock { payload, digest }));
    assert(last_kageb(settlement) == Some(KagebRead::Settle { terms }));
    let lock_named = seq![
        accounts.payer,
        accounts.pool,
        accounts.epoch,
        ids.instructions_sysvar,
        ids.clock_sysvar,
    ];
    assert(crate::observer::lock_accounts(accounts, ids) =~= lock_named);
    assert(crate::observer::lock_keys(accounts, ids) =~= seq![accounts.fee_payer] + lock_named
        + seq![ids.ed25519_program, ids.program]);
}

/// A lock or a settlement that did not succeed, or that is neither, shows nothing.
pub proof fn law_only_confirmed_calls_are_observed(
    lock: FetchedTransaction,
    settlement: FetchedTransaction,
    accounts: KagebObserverAccounts,
    ids: ProgramIds,
)
    ensures
        confirmed_trace(lock, settlement, accounts, ids) is Ok ==> {
            &&& lock.has_status && !lock.failed && lock.observed() is Some
            &&& settlement.has_status && !settlement.failed && settlement.observed() is Some
            &&& confirmed_trace(lock, settlement, accounts, ids) == kageb_trace(
                lock.observed().unwrap(),
                settlement.observed().unwrap(),
                accounts,
                ids,
            )
            &&& last_kageb(lock.observed().unwrap()) is Some
            &&& last_kageb(lock.observed().unwrap()).unwrap() is Lock
            &&& last_kageb(settlement.observed().unwrap()) is Some
            &&& last_kageb(settlement.observed().unwrap()).unwrap() is Settle
        },
        lock.has_status && !lock.failed && settlement.has_status && !settlement.failed && (
        lock.observed() matches Some(a) && (settlement.observed() matches Some(b) && kageb_trace(
            a,
            b,
            accounts,
            ids,
        ) is Ok)) ==> confirmed_trace(lock, settlement, accounts, ids) is Ok,
{
}

/// A direct order is seen for what it is. One transfer of a lot of base to the venue's base account is a
/// sell of one lot by the wallet that authorized it, one transfer of the price in quote to the venue's
/// quote account is a buy of one lot by that wallet, and no other transaction is an order.
pub proof fn law_direct_orders_are_read_by_what_they_send(
    transaction: ObservedParts,
    market: DirectMarketAccounts,
    ids: ProgramIds,
)
    ensures
        direct_action(transaction, market, ids) matches Ok(action) ==> {
            let keys = transaction.keys;
            let sent = transaction.instructions[0];
            let from = keys[sent.accounts[0] as int];
            let mint = keys[sent.accounts[1] as int];
            let to = keys[sent.accounts[2] as int];
            let wallet = keys[sent.accounts[3] as int];
            &&& keys.len() > 0 && keys[0] == market.fee_payer
            &&& transaction.inner.len() == 0
            &&& transaction.instructions.len() == 1
            &&& sent.program_id_index < keys.len()
            &&& keys[sent.program_id_index as int] == ids.token_program
            &&& sent.accounts.len() == 4
            &&& from != to && wallet != to
            &&& keys_match(
                keys,
                seq![market.fee_payer, from, mint, to, wallet, ids.token_program],
            )
            &&& action matches PublicAction::Individual { wallet: named, side, lots } && named
                == wallet && lots == 1 && match side {
                Side::Sell => mint == market.base_mint && to == market.venue_base_account
                    && is_transfer_of(sent.data, market.base_lot_atoms as int),
                Side::Buy => mint == market.quote_mint && to == market.venue_quote_account
                    && is_transfer_of(sent.data, market.quote_atoms_per_lot as int),
            }
        },
        ({
            let keys = transaction.keys;
            let sent = transaction.instructions[0];
            let from = keys[sent.accounts[0] as int];
            let mint = keys[sent.accounts[1] as int];
            let to = keys[sent.accounts[2] as int];
            let wallet = keys[sent.accounts[3] as int];
            &&& keys.len() > 0 && keys[0] == market.fee_payer
            &&& transaction.inner.len() == 0
            &&& transaction.instructions.len() == 1
            &&& sent.program_id_index < keys.len()
            &&& keys[sent.program_id_index as int] == ids.token_program
            &&& sent.accounts.len() == 4
            &&& sent.accounts[0] < keys.len() && sent.accounts[1] < keys.len()
            &&& sent.accounts[2] < keys.len() && sent.accounts[3] < keys.len()
            &&& from != to && wallet != to
            &&& keys_match(
                keys,
                seq![market.fee_payer, from, mint, to, wallet, ids.token_program],
            )
            &&& token_instruction(sent.data)
            &&& market.base_mint != market.quote_mint
        }) ==> {
            let keys = transaction.keys;
            let sent = transaction.instructions[0];
            let mint = keys[sent.accounts[1] as int];
            let to = keys[sent.accounts[2] as int];
            let wallet = keys[sent.accounts[3] as int];
            &&& mint == market.base_mint && to == market.venue_base_account && is_transfer_of(
                sent.data,
                market.base_lot_atoms as int,
            ) ==> direct_action(transaction, market, ids) == Ok::<PublicAction, ObserverError>(
                PublicAction::Individual { wallet, side: Side::Sell, lots: 1 },
            )
            &&& mint == market.quote_mint && to == market.venue_quote_account && is_transfer_of(
                sent.data,
                market.quote_atoms_per_lot as int,
            ) ==> direct_action(transaction, market, ids) == Ok::<PublicAction, ObserverError>(
                PublicAction::Individual { wallet, side: Side::Buy, lots: 1 },
            )
        },
{
}

/// A trace of direct orders shows one action for each confirmed transaction, in their order, and nothing
/// where one of them is no order.
pub proof fn law_direct_trace_shows_each_order(
    transactions: Seq<FetchedTransaction>,
    market: DirectMarketAccounts,
    ids: ProgramIds,
    n: int,
)
    requires
        0 <= n <= transactions.len(),
    ensures
        match direct_trace(transactions, market, ids, n) {
            Ok(actions) => actions.len() == n && forall|i: int|
                0 <= i < n ==> confirmed_action(transactions[i], market, ids) == Ok::<
                    PublicAction,
                    ObserverError,
                >(#[trigger] actions[i]) && transactions[i].has_status && !transactions[i].failed
                    && transactions[i].observed() is Some && direct_action(
                    transactions[i].observed().unwrap(),
                    market,
                    ids,
                ) == Ok::<PublicAction, ObserverError>(actions[i]),
            Err(error) => exists|i: int|
                0 <= i < n && (#[trigger] confirmed_action(transactions[i], market, ids)) == Err::<
                    PublicAction,
                    ObserverError,
                >(error) && forall|k: int|
                    0 <= k < i ==> (#[trigger] confirmed_action(
                        transactions[k],
                        market,
                        ids,
                    )) is Ok,
        },
    decreases n,
{
    if n > 0 {
        law_direct_trace_shows_each_order(transactions, market, ids, n - 1);
        match direct_trace(transactions, market, ids, n - 1) {
            Ok(before) => {
                assert forall|k: int| 0 <= k < n - 1 implies (#[trigger] confirmed_action(
                    transactions[k],
                    market,
                    ids,
                )) is Ok by {
                    assert(confirmed_action(transactions[k], market, ids) == Ok::<
                        PublicAction,
                        ObserverError,
                    >(before[k]));
                }
                match confirmed_action(transactions[n - 1], market, ids) {
                    Ok(action) => {
                        let actions = before.push(action);
                        assert(confirmed(transactions[n - 1]) is Ok);
                        assert forall|i: int| 0 <= i < n implies confirmed_action(
                            transactions[i],
                            market,
                            ids,
                        ) == Ok::<PublicAction, ObserverError>(#[trigger] actions[i])
                            && transactions[i].has_status && !transactions[i].failed
                            && transactions[i].observed() is Some && direct_action(
                            transactions[i].observed().unwrap(),
                            market,
                            ids,
                        ) == Ok::<PublicAction, ObserverError>(actions[i]) by {
                            if i < n - 1 {
                                assert(actions[i] == before[i]);
                            }
                        }
                    },
                    Err(error) => {},
                }
            },
            Err(error) => {},
        }
    }
}

/// A trace names sides, residuals and keys as they are: a buy is written as a buy, a sell as a sell, each
/// with its lots, and a key by its first four bytes.
pub proof fn law_actions_are_written_as_they_are(
    wallet: [u8; 32],
    side: Side,
    lots: u32,
    pool: [u8; 32],
    venue: [u8; 32],
    residual: Residual,
    member_root: [u8; 32],
    result_commitment: [u8; 32],
    approvals: u8,
)
    ensures
        ({
            let line = action_line(PublicAction::Individual { wallet, side, lots });
            let who = "wallet "@ + hex(wallet@.subrange(0, 4)) + ": "@;
            &&& side == Side::Buy ==> line == who + "BUY"@ + " "@ + decimal(lots as nat) + " lots"@
            &&& side == Side::Sell ==> line == who + "SELL"@ + " "@ + decimal(lots as nat)
                + " lots"@
        }),
        ({
            let line = action_line(
                PublicAction::Aggregate {
                    pool,
                    venue,
                    residual,
                    member_root,
                    result_commitment,
                    keyper_approvals: approvals,
                },
            );
            let rest = " | pool "@ + hex(pool@.subrange(0, 4)) + " | venue "@ + hex(
                venue@.subrange(0, 4),
            ) + " | member root "@ + hex(member_root@.subrange(0, 4)) + " | result commitment "@
                + hex(result_commitment@.subrange(0, 4)) + " | keyper approvals "@ + decimal(
                approvals as nat,
            );
            &&& residual == Residual::Balanced ==> line == "pool aggregate: "@ + "NO VENUE LEG"@
                + rest
            &&& residual matches Residual::Buy { lots: k } ==> line == "pool aggregate: "@ + "BUY "@
                + decimal(k as nat) + " lots"@ + rest
            &&& residual matches Residual::Sell { lots: k } ==> line == "pool aggregate: "@
                + "SELL "@ + decimal(k as nat) + " lots"@ + rest
        }),
{
    assert(wallet@.take(4) =~= wallet@.subrange(0, 4));
    assert(pool@.take(4) =~= pool@.subrange(0, 4));
    assert(venue@.take(4) =~= venue@.subrange(0, 4));
    assert(member_root@.take(4) =~= member_root@.subrange(0, 4));
    assert(result_commitment@.take(4) =~= result_commitment@.subrange(0, 4));
    let aggregate = PublicAction::Aggregate {
        pool,
        venue,
        residual,
        member_root,
        result_commitment,
        keyper_approvals: approvals,
    };
    let rest = " | pool "@ + hex(pool@.subrange(0, 4)) + " | venue "@ + hex(venue@.subrange(0, 4))
        + " | member root "@ + hex(member_root@.subrange(0, 4)) + " | result commitment "@ + hex(
        result_commitment@.subrange(0, 4),
    ) + " | keyper approvals "@ + decimal(approvals as nat);
    assert(action_line(aggregate) =~= "pool aggregate: "@ + residual_name(residual) + rest);
    match residual {
        Residual::Balanced => {},
        Residual::Buy { lots: k } => {
            assert("pool aggregate: "@ + residual_name(residual) + rest =~= "pool aggregate: "@
                + "BUY "@ + decimal(k as nat) + " lots"@ + rest);
        },
        Residual::Sell { lots: k } => {
            assert("pool aggregate: "@ + residual_name(residual) + rest =~= "pool aggregate: "@
                + "SELL "@ + decimal(k as nat) + " lots"@ + rest);
        },
    }
    let who = "wallet "@ + hex(wallet@.subrange(0, 4)) + ": "@;
    assert(action_line(PublicAction::Individual { wallet, side, lots }) =~= who + side_name(side)
        + " "@ + decimal(lots as nat) + " lots"@);
}

/// A trace is written a line for each action, in order.
pub proof fn law_traces_are_written_line_by_line(actions: Seq<PublicAction>, action: PublicAction)
    ensures
        trace_text(Seq::empty()) == Seq::<char>::empty(),
        trace_text(seq![action]) == action_line(action),
        actions.len() > 0 ==> trace_text(actions.push(action)) == trace_text(actions) + "\n"@
            + action_line(action),
{
    assert(actions.push(action).drop_last() =~= actions);
}

/// The orders that a trace shows are its single actions, and the wallets that it names are theirs, in
/// order.
pub proof fn law_shown_orders_are_the_single_ones(
    actions: Seq<PublicAction>,
    wallet: [u8; 32],
    side: Side,
    lots: u32,
    aggregate: PublicAction,
)
    requires
        aggregate is Aggregate,
    ensures
        individuals(Seq::empty()) == 0,
        wallets(Seq::empty()) == Seq::<[u8; 32]>::empty(),
        individuals(actions.push(PublicAction::Individual { wallet, side, lots })) == individuals(
            actions,
        ) + 1,
        wallets(actions.push(PublicAction::Individual { wallet, side, lots })) == wallets(
            actions,
        ).push(wallet),
        individuals(actions.push(aggregate)) == individuals(actions),
        wallets(actions.push(aggregate)) == wallets(actions),
        individuals(actions) == actions.filter(|action: PublicAction| action is Individual).len(),
        wallets(actions).len() == individuals(actions),
    decreases actions.len(),
{
    reveal(Seq::filter);
    let single = PublicAction::Individual { wallet, side, lots };
    assert(actions.push(single).drop_last() =~= actions);
    assert(actions.push(aggregate).drop_last() =~= actions);
    if actions.len() > 0 {
        law_shown_orders_are_the_single_ones(actions.drop_last(), wallet, side, lots, aggregate);
    }
}

} // verus!
