//! A worked example: four orders, sent directly and through the pool.

use crate::commitment::{contents, content_root, leaf_hashes, root_of, CommitmentDomain, CommitmentError};
use crate::domain::Side;
use crate::idmap::{value_of, IdMap};
use crate::ledger::{
    count_side, net_batch, net_lots, order_failure, repeats, sum_base, sum_quote, BatchConfig,
    FundedOrder, LedgerError, PoolBalance, Residual,
};
use crate::observer::{
    direct_actions, law_direct_trace_names_every_wallet, law_pooled_trace_names_no_wallet,
    trace_text, DirectOrder, PublicAction, PublicTrace,
};
use crate::text::{decimal, push_decimal, push_text};
use vstd::prelude::*;
use vstd::string::*;
use vstd::utf8::encode_utf8;

verus! {

/// Why the example cannot be shown.
#[derive(Clone, Debug, PartialEq, Eq)]
pub enum FixtureError {
    Ledger(LedgerError),
    Commitment(CommitmentError),
}

/// A byte, repeated.
pub open spec fn repeated(byte: u8) -> Seq<u8> {
    Seq::new(32, |i: int| byte)
}

/// The key of a byte, repeated.
pub open spec fn filled(byte: u8) -> [u8; 32] {
    choose|key: [u8; 32]| key@ == repeated(byte)
}

fn fill(byte: u8) -> (key: [u8; 32])
    ensures
        key == filled(byte),
        key@ == repeated(byte),
{
    let mut key: [u8; 32] = [byte; 32];
    let mut i: usize = 0;
    while i < 32
        invariant
            i <= 32,
            forall|j: int| 0 <= j < i ==> key@[j] == byte,
        decreases 32 - i,
    {
        key[i] = byte;
        i += 1;
    }
    assert(key@ =~= repeated(byte));
    assert(key =~= filled(byte));
    key
}

/// The sides of the four orders.
pub open spec fn fixture_side(i: int) -> Side {
    if i == 1 {
        Side::Sell
    } else {
        Side::Buy
    }
}

/// The four orders as wallets would send them themselves.
pub open spec fn fixture_orders() -> Seq<DirectOrder> {
    Seq::new(
        4,
        |i: int| DirectOrder { wallet: filled((11 + i) as u8), side: fixture_side(i) },
    )
}

/// The participants of the pool.
pub open spec fn fixture_members() -> Seq<Seq<u8>> {
    Seq::new(4, |i: int| repeated((1 + i) as u8))
}

/// The root of the participants, where it has one.
pub open spec fn fixture_member_root() -> Result<[u8; 32], CommitmentError> {
    root_of(CommitmentDomain::MemberSet, fixture_members())
}

/// The root of the result.
pub open spec fn fixture_result_root() -> [u8; 32] {
    root_of(CommitmentDomain::ResultSet, seq![encode_utf8("fixture-result"@)]).unwrap()
}

/// What an observer sees of the pool: three buys and one sell leave two lots to buy.
pub open spec fn fixture_aggregate() -> Seq<PublicAction> {
    seq![
        PublicAction::Aggregate {
            pool: filled(9),
            venue: filled(8),
            residual: Residual::Buy { lots: 2 },
            member_root: fixture_member_root().unwrap(),
            result_commitment: fixture_result_root(),
            keyper_approvals: 0,
        },
    ]
}

/// What the example prints: the four orders one by one, and the one aggregate.
pub open spec fn fixture_text() -> Seq<char> {
    "DIRECT: "@ + decimal(4) + " wallet-linked orders visible\n"@ + trace_text(
        direct_actions(fixture_orders()),
    ) + "\n\nKAGEB: "@ + decimal(0) + " individual orders visible\n"@ + trace_text(
        fixture_aggregate(),
    ) + "\n\n4 real orders, one pooled result, no decoy trades.\n"@
}

fn fixture_direct() -> (trace: PublicTrace)
    ensures
        trace@ == direct_actions(fixture_orders()),
{
    let orders = [
        DirectOrder::one_lot(fill(11), Side::Buy),
        DirectOrder::one_lot(fill(12), Side::Sell),
        DirectOrder::one_lot(fill(13), Side::Buy),
        DirectOrder::one_lot(fill(14), Side::Buy),
    ];
    assert(orders@ =~= fixture_orders());
    PublicTrace::direct(orders.as_slice())
}

fn fixture_residual() -> (residual: Result<Residual, LedgerError>)
    ensures
        residual == Ok::<Residual, LedgerError>(Residual::Buy { lots: 2 }),
{
    let ids = [fill(1), fill(2), fill(3), fill(4)];
    proof {
        assert(ids@[0]@[0] == 1 && ids@[1]@[0] == 2 && ids@[2]@[0] == 3 && ids@[3]@[0] == 4);
    }
    let mut balances: IdMap<PoolBalance> = IdMap::new();
    let ghost held = PoolBalance { base_atoms: 10, quote_atoms: 1000 };
    balances.insert(ids[0], PoolBalance::new(10, 1000));
    let ghost one = balances@;
    balances.insert(ids[1], PoolBalance::new(10, 1000));
    let ghost two = balances@;
    balances.insert(ids[2], PoolBalance::new(10, 1000));
    let ghost three = balances@;
    balances.insert(ids[3], PoolBalance::new(10, 1000));
    let config = match BatchConfig::new(2, 100) {
        Ok(config) => config,
        Err(error) => {
            return Err(error);
        },
    };
    let mut orders: Vec<FundedOrder> = Vec::new();
    match (
        FundedOrder::new(ids[0], Side::Buy, 100),
        FundedOrder::new(ids[1], Side::Sell, 100),
        FundedOrder::new(ids[2], Side::Buy, 100),
        FundedOrder::new(ids[3], Side::Buy, 100),
    ) {
        (Ok(a), Ok(b), Ok(c), Ok(d)) => {
            orders.push(a);
            orders.push(b);
            orders.push(c);
            orders.push(d);
        },
        _ => {
            return Err(LedgerError::InvalidLimit);
        },
    }
    proof {
        let all = orders@;
        assert(value_of(balances@, ids@[0]) == Some(held)) by {
            assert(value_of(three, ids@[0]) == Some(held)) by {
                assert(value_of(two, ids@[0]) == Some(held)) by {
                    assert(value_of(one, ids@[0]) == Some(held));
                }
            }
        }
        assert(value_of(balances@, ids@[1]) == Some(held)) by {
            assert(value_of(three, ids@[1]) == Some(held)) by {
                assert(value_of(two, ids@[1]) == Some(held));
            }
        }
        assert(value_of(balances@, ids@[2]) == Some(held)) by {
            assert(value_of(three, ids@[2]) == Some(held));
        }
        assert(value_of(balances@, ids@[3]) == Some(held));
        reveal_with_fuel(count_side, 5);
        assert(net_lots(all) == 2);
        assert forall|j: int| 0 <= j < all.len() implies !#[trigger] repeats(all, j) by {
            assert(all[j]@.participant_id == ids@[j]);
            assert forall|i: int| 0 <= i < j implies #[trigger] all[i]@.participant_id
                != all[j]@.participant_id by {
                assert(all[i]@.participant_id == ids@[i]);
                assert(ids@[i]@[0] == i + 1);
                assert(ids@[j]@[0] == j + 1);
            }
        }
        assert forall|i: int| 0 <= i < all.len() implies #[trigger] order_failure(
            config,
            balances@,
            all,
            i,
        ) is None by {
            assert(all[i]@.participant_id == ids@[i]);
            assert(all[i]@.limit_price == 100);
            assert(value_of(balances@, ids@[i]) == Some(held));
        }
        lemma_totals(balances@);
        assert(balances@.len() <= 4);
    }
    match net_batch(config, &balances, orders.as_slice()) {
        Ok(result) => Ok(result.residual()),
        Err(error) => Err(error),
    }
}

proof fn lemma_totals(entries: Seq<([u8; 32], PoolBalance)>)
    ensures
        0 <= sum_base(entries) <= entries.len() * u64::MAX,
        0 <= sum_quote(entries) <= entries.len() * u64::MAX,
    decreases entries.len(),
{
    if entries.len() > 0 {
        lemma_totals(entries.drop_last());
    }
}

/// Shows the example: the four orders as an observer sees them, sent directly and through the pool.
/// It cannot be shown where two participants share a digest.
pub fn trace_fixture() -> (shown: Result<String, FixtureError>)
    ensures
        match shown {
            Ok(text) => fixture_member_root() is Ok && text@ == fixture_text(),
            Err(error) => fixture_member_root() is Err && error == FixtureError::Commitment(
                CommitmentError::DuplicateLeaf,
            ),
        },
{
    let residual = match fixture_residual() {
        Ok(residual) => residual,
        Err(error) => {
            return Err(FixtureError::Ledger(error));
        },
    };
    let ids = [fill(1), fill(2), fill(3), fill(4)];
    let leaves = [ids[0].as_slice(), ids[1].as_slice(), ids[2].as_slice(), ids[3].as_slice()];
    assert(contents(leaves@) =~= fixture_members());
    let member_root = match content_root(CommitmentDomain::MemberSet, leaves.as_slice()) {
        Ok(root) => root,
        Err(error) => {
            return Err(FixtureError::Commitment(error));
        },
    };
    let results = ["fixture-result".as_bytes()];
    proof {
        assert(contents(results@) =~= seq![encode_utf8("fixture-result"@)]);
        assert(leaf_hashes(CommitmentDomain::ResultSet, contents(results@)).no_duplicates());
    }
    let result_root = match content_root(CommitmentDomain::ResultSet, results.as_slice()) {
        Ok(root) => root,
        Err(error) => {
            return Err(FixtureError::Commitment(error));
        },
    };
    let direct = fixture_direct();
    let pooled = PublicTrace::pooled(fill(9), fill(8), residual, member_root, result_root);
    assert(pooled@ =~= fixture_aggregate());
    proof {
        law_direct_trace_names_every_wallet(fixture_orders());
        law_pooled_trace_names_no_wallet(fixture_aggregate());
    }
    let mut text = String::new();
    push_text(&mut text, "DIRECT: ");
    push_decimal(&mut text, direct.individual_order_count() as u64);
    push_text(&mut text, " wallet-linked orders visible\n");
    push_text(&mut text, direct.render().as_str());
    push_text(&mut text, "\n\nKAGEB: ");
    push_decimal(&mut text, pooled.individual_order_count() as u64);
    push_text(&mut text, " individual orders visible\n");
    push_text(&mut text, pooled.render().as_str());
    push_text(&mut text, "\n\n4 real orders, one pooled result, no decoy trades.\n");
    assert(text@ =~= fixture_text());
    Ok(text)
}

} // verus!
