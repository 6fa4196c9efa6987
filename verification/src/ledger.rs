//! Netting a batch of one-lot orders against pooled balances.

use crate::bytes::same_array;
use crate::domain::Side;
use crate::idmap::{
    has_id, ids_sorted, lemma_entries_determined, lemma_position_at, lemma_value_at, position_of,
    value_of, IdMap,
};
use vstd::multiset::Multiset;
use vstd::prelude::*;

verus! {

pub type ParticipantId = [u8; 32];

/// The lot size and the fixed price of an epoch.
#[derive(Clone, Copy, Debug, PartialEq, Eq, Structural)]
pub struct BatchConfig {
    base_lot_atoms: u64,
    quote_atoms_per_lot: u64,
}

impl BatchConfig {
    #[verifier::type_invariant]
    spec fn is_positive(self) -> bool {
        self.base_lot_atoms > 0 && self.quote_atoms_per_lot > 0
    }

    /// Base atoms that one lot moves.
    pub closed spec fn lot(self) -> u64 {
        self.base_lot_atoms
    }

    /// Quote atoms that one lot costs.
    pub closed spec fn price(self) -> u64 {
        self.quote_atoms_per_lot
    }

    /// The configuration of a lot and a price.
    pub closed spec fn of(lot: u64, price: u64) -> BatchConfig {
        BatchConfig { base_lot_atoms: lot, quote_atoms_per_lot: price }
    }

    /// A configuration is that of its lot and its price.
    pub proof fn lemma_of(self)
        ensures
            BatchConfig::of(self.lot(), self.price()) == self,
    {
    }

    /// The configuration of a lot and a price has them.
    pub proof fn lemma_of_parts(lot: u64, price: u64)
        ensures
            BatchConfig::of(lot, price).lot() == lot,
            BatchConfig::of(lot, price).price() == price,
    {
    }

    /// A configuration; a zero lot or a zero price is refused.
    pub fn new(base_lot_atoms: u64, quote_atoms_per_lot: u64) -> (config: Result<Self, LedgerError>)
        ensures
            match config {
                Ok(config) => base_lot_atoms != 0 && quote_atoms_per_lot != 0 && config.lot()
                    == base_lot_atoms && config.price() == quote_atoms_per_lot,
                Err(error) => (base_lot_atoms == 0 || quote_atoms_per_lot == 0) && error
                    == LedgerError::InvalidConfig,
            },
    {
        if base_lot_atoms == 0 || quote_atoms_per_lot == 0 {
            return Err(LedgerError::InvalidConfig);
        }
        Ok(BatchConfig { base_lot_atoms, quote_atoms_per_lot })
    }
}

/// What a participant holds in the pool.
#[derive(Clone, Copy, Debug, PartialEq, Eq, Structural)]
pub struct PoolBalance {
    pub base_atoms: u64,
    pub quote_atoms: u64,
}

impl PoolBalance {
    /// Whether there is anything in it.
    pub open spec fn is_funded(&self) -> bool {
        self.base_atoms != 0 || self.quote_atoms != 0
    }

    pub fn new(base_atoms: u64, quote_atoms: u64) -> (balance: Self)
        ensures
            balance == (PoolBalance { base_atoms, quote_atoms }),
    {
        PoolBalance { base_atoms, quote_atoms }
    }
}

/// What a funded order says.
pub struct OrderTerms {
    pub participant_id: ParticipantId,
    pub side: Side,
    pub limit_price: u64,
}

/// An order whose participant has funded both sides.
#[derive(Clone, Copy, Debug, PartialEq, Eq)]
pub struct FundedOrder {
    participant_id: ParticipantId,
    side: Side,
    limit_price: u64,
}

impl View for FundedOrder {
    type V = OrderTerms;

    closed spec fn view(&self) -> OrderTerms {
        OrderTerms {
            participant_id: self.participant_id,
            side: self.side,
            limit_price: self.limit_price,
        }
    }
}

impl FundedOrder {
    /// The order of given terms.
    pub closed spec fn of(terms: OrderTerms) -> FundedOrder {
        FundedOrder {
            participant_id: terms.participant_id,
            side: terms.side,
            limit_price: terms.limit_price,
        }
    }

    /// An order is that of its terms.
    pub proof fn lemma_of(self)
        ensures
            FundedOrder::of(self@) == self,
    {
    }

    /// The order of given terms has them.
    pub proof fn lemma_of_terms(terms: OrderTerms)
        ensures
            FundedOrder::of(terms)@ == terms,
    {
    }

    /// An order; a zero limit is refused.
    pub fn new(participant_id: ParticipantId, side: Side, limit_price: u64) -> (order: Result<
        Self,
        LedgerError,
    >)
        ensures
            match order {
                Ok(order) => limit_price != 0 && order@ == (OrderTerms {
                    participant_id,
                    side,
                    limit_price,
                }),
                Err(error) => limit_price == 0 && error == LedgerError::InvalidLimit,
            },
    {
        if limit_price == 0 {
            return Err(LedgerError::InvalidLimit);
        }
        Ok(FundedOrder { participant_id, side, limit_price })
    }

    pub fn participant_id(&self) -> (participant_id: ParticipantId)
        ensures
            participant_id == self@.participant_id,
    {
        self.participant_id
    }

    pub fn side(&self) -> (side: Side)
        ensures
            side == self@.side,
    {
        self.side
    }
}

/// The lots that no opposing order took.
#[derive(Clone, Copy, Debug, PartialEq, Eq, Structural)]
pub enum Residual {
    Balanced,
    Buy { lots: u32 },
    Sell { lots: u32 },
}

/// What the batch moves between the pool and the venue.
#[derive(Clone, Copy, Debug, PartialEq, Eq, Structural)]
pub struct VaultDelta {
    pub base_atoms: i128,
    pub quote_atoms: i128,
}

impl VaultDelta {
    /// Nothing moves.
    pub fn zero() -> (delta: Self)
        ensures
            delta == (VaultDelta { base_atoms: 0, quote_atoms: 0 }),
    {
        VaultDelta { base_atoms: 0, quote_atoms: 0 }
    }
}

#[derive(Clone, Debug, PartialEq, Eq)]
pub enum LedgerError {
    InvalidConfig,
    InvalidLimit,
    EmptyBatch,
    UnknownParticipant(ParticipantId),
    DuplicateParticipant(ParticipantId),
    InsufficientReservation(ParticipantId),
    LimitViolated(ParticipantId),
    ArithmeticOverflow,
    ConservationFailed,
}

/// The base atoms that entries hold together.
pub open spec fn sum_base(entries: Seq<(ParticipantId, PoolBalance)>) -> int
    decreases entries.len(),
{
    if entries.len() == 0 {
        0
    } else {
        sum_base(entries.drop_last()) + entries.last().1.base_atoms
    }
}

/// The quote atoms that entries hold together.
pub open spec fn sum_quote(entries: Seq<(ParticipantId, PoolBalance)>) -> int
    decreases entries.len(),
{
    if entries.len() == 0 {
        0
    } else {
        sum_quote(entries.drop_last()) + entries.last().1.quote_atoms
    }
}

/// Whether both totals of a set of balances can be counted.
pub open spec fn totals_fit(entries: Seq<(ParticipantId, PoolBalance)>) -> bool {
    sum_base(entries) <= i128::MAX && sum_quote(entries) <= i128::MAX
}

proof fn lemma_sums_monotone(entries: Seq<(ParticipantId, PoolBalance)>, n: int)
    requires
        0 <= n <= entries.len(),
    ensures
        0 <= sum_base(entries.take(n)) <= sum_base(entries),
        0 <= sum_quote(entries.take(n)) <= sum_quote(entries),
    decreases entries.len(),
{
    if n == entries.len() {
        assert(entries.take(n) =~= entries);
        if n > 0 {
            lemma_sums_monotone(entries.drop_last(), n - 1);
            assert(entries.drop_last().take(n - 1) =~= entries.drop_last());
        }
    } else {
        lemma_sums_monotone(entries.drop_last(), n);
        assert(entries.drop_last().take(n) =~= entries.take(n));
    }
}

proof fn lemma_sums_update(
    entries: Seq<(ParticipantId, PoolBalance)>,
    at: int,
    entry: (ParticipantId, PoolBalance),
)
    requires
        0 <= at < entries.len(),
    ensures
        sum_base(entries.update(at, entry)) == sum_base(entries) - entries[at].1.base_atoms
            + entry.1.base_atoms,
        sum_quote(entries.update(at, entry)) == sum_quote(entries) - entries[at].1.quote_atoms
            + entry.1.quote_atoms,
    decreases entries.len(),
{
    let updated = entries.update(at, entry);
    if at == entries.len() - 1 {
        assert(updated.drop_last() =~= entries.drop_last());
    } else {
        assert(updated.drop_last() =~= entries.drop_last().update(at, entry));
        lemma_sums_update(entries.drop_last(), at, entry);
    }
}

/// One more entry adds what it holds.
pub proof fn lemma_sums_insert(
    entries: Seq<(ParticipantId, PoolBalance)>,
    at: int,
    entry: (ParticipantId, PoolBalance),
)
    requires
        0 <= at <= entries.len(),
    ensures
        sum_base(entries.insert(at, entry)) == sum_base(entries) + entry.1.base_atoms,
        sum_quote(entries.insert(at, entry)) == sum_quote(entries) + entry.1.quote_atoms,
    decreases entries.len(),
{
    let inserted = entries.insert(at, entry);
    if at == entries.len() {
        assert(inserted.drop_last() =~= entries);
    } else {
        assert(inserted.drop_last() =~= entries.drop_last().insert(at, entry));
        assert(inserted.last() == entries.last());
        lemma_sums_insert(entries.drop_last(), at, entry);
    }
}

/// Orders among the first `n` that go in one direction.
pub open spec fn count_side(orders: Seq<FundedOrder>, side: Side, n: int) -> int
    decreases n,
{
    if n <= 0 {
        0
    } else {
        count_side(orders, side, n - 1) + if orders[n - 1]@.side == side {
            1int
        } else {
            0int
        }
    }
}

/// Whether an earlier order has the same participant.
pub open spec fn repeats(orders: Seq<FundedOrder>, j: int) -> bool {
    exists|i: int|
        0 <= i < j && #[trigger] orders[i]@.participant_id == orders[j]@.participant_id
}

/// Whether no participant has two orders.
pub open spec fn participants_distinct(orders: Seq<FundedOrder>) -> bool {
    forall|j: int| 0 <= j < orders.len() ==> !#[trigger] repeats(orders, j)
}

/// Whether the order at `j` is the first that repeats a participant.
pub open spec fn first_repeat(orders: Seq<FundedOrder>, j: int) -> bool {
    &&& 0 <= j < orders.len()
    &&& repeats(orders, j)
    &&& forall|i: int| 0 <= i < j ==> !#[trigger] repeats(orders, i)
}

/// What an order makes of the balance of its participant.
pub open spec fn settled(config: BatchConfig, balance: PoolBalance, side: Side) -> PoolBalance {
    match side {
        Side::Buy => PoolBalance {
            base_atoms: (balance.base_atoms + config.lot()) as u64,
            quote_atoms: (balance.quote_atoms - config.price()) as u64,
        },
        Side::Sell => PoolBalance {
            base_atoms: (balance.base_atoms - config.lot()) as u64,
            quote_atoms: (balance.quote_atoms + config.price()) as u64,
        },
    }
}

/// Why the order at `i` cannot be filled, where it cannot.
pub open spec fn order_failure(
    config: BatchConfig,
    before: Seq<(ParticipantId, PoolBalance)>,
    orders: Seq<FundedOrder>,
    i: int,
) -> Option<LedgerError> {
    let id = orders[i]@.participant_id;
    let limit = orders[i]@.limit_price;
    match value_of(before, id) {
        None => Some(LedgerError::UnknownParticipant(id)),
        Some(balance) => if balance.base_atoms < config.lot() || balance.quote_atoms
            < config.price() {
            Some(LedgerError::InsufficientReservation(id))
        } else if orders[i]@.side == Side::Buy {
            if config.price() > limit {
                Some(LedgerError::LimitViolated(id))
            } else if balance.base_atoms + config.lot() > u64::MAX || count_side(
                orders,
                Side::Buy,
                i,
            ) >= u32::MAX {
                Some(LedgerError::ArithmeticOverflow)
            } else {
                None
            }
        } else {
            if config.price() < limit {
                Some(LedgerError::LimitViolated(id))
            } else if balance.quote_atoms + config.price() > u64::MAX || count_side(
                orders,
                Side::Sell,
                i,
            ) >= u32::MAX {
                Some(LedgerError::ArithmeticOverflow)
            } else {
                None
            }
        },
    }
}

/// Whether every order of a batch can be filled.
pub open spec fn all_fillable(
    config: BatchConfig,
    before: Seq<(ParticipantId, PoolBalance)>,
    orders: Seq<FundedOrder>,
) -> bool {
    forall|i: int|
        0 <= i < orders.len() ==> #[trigger] order_failure(config, before, orders, i) is None
}

/// Whether the order at `i` is the first that cannot be filled, for the given reason.
pub open spec fn first_failure(
    config: BatchConfig,
    before: Seq<(ParticipantId, PoolBalance)>,
    orders: Seq<FundedOrder>,
    i: int,
    error: LedgerError,
) -> bool {
    &&& 0 <= i < orders.len()
    &&& order_failure(config, before, orders, i) == Some(error)
    &&& forall|k: int|
        0 <= k < i ==> #[trigger] order_failure(config, before, orders, k) is None
}

/// Whether a participant has an order among the first `n`.
pub open spec fn ordered(orders: Seq<FundedOrder>, n: int, id: ParticipantId) -> bool {
    exists|i: int| 0 <= i < n && #[trigger] orders[i]@.participant_id == id
}

/// The position of a participant's order among the first `n`.
pub open spec fn order_of(orders: Seq<FundedOrder>, n: int, id: ParticipantId) -> int {
    choose|i: int| 0 <= i < n && #[trigger] orders[i]@.participant_id == id
}

/// The balance that a participant has once the first `n` orders are filled.
pub open spec fn balance_after(
    config: BatchConfig,
    before: Seq<(ParticipantId, PoolBalance)>,
    orders: Seq<FundedOrder>,
    n: int,
    id: ParticipantId,
) -> Option<PoolBalance> {
    if ordered(orders, n, id) && value_of(before, id) is Some {
        Some(
            settled(
                config,
                value_of(before, id).unwrap(),
                orders[order_of(orders, n, id)]@.side,
            ),
        )
    } else {
        value_of(before, id)
    }
}

/// Buy orders less sell orders.
pub open spec fn net_lots(orders: Seq<FundedOrder>) -> int {
    count_side(orders, Side::Buy, orders.len() as int) - count_side(
        orders,
        Side::Sell,
        orders.len() as int,
    )
}

/// The residual of a signed number of lots.
pub open spec fn residual_of(lots: int) -> Residual {
    if lots > 0 {
        Residual::Buy { lots: lots as u32 }
    } else if lots < 0 {
        Residual::Sell { lots: (-lots) as u32 }
    } else {
        Residual::Balanced
    }
}

/// What filling a batch gives: each ordered balance settled, every other one unchanged, and the
/// unmatched lots as one residual with its two vault legs.
pub open spec fn batch_settled(
    config: BatchConfig,
    before: Seq<(ParticipantId, PoolBalance)>,
    orders: Seq<FundedOrder>,
    result: BatchResult,
) -> bool {
    &&& result.wf()
    &&& result.before() == before
    &&& forall|id: ParticipantId| #[trigger]
        value_of(result.after(), id) == balance_after(
            config,
            before,
            orders,
            orders.len() as int,
            id,
        )
    &&& result.left() == residual_of(net_lots(orders))
    &&& result.delta().base_atoms == net_lots(orders) * config.lot()
    &&& result.delta().quote_atoms == -(net_lots(orders) * config.price())
}

/// Whether the totals of a batch can be counted before it and after it.
pub open spec fn totals_countable(
    config: BatchConfig,
    before: Seq<(ParticipantId, PoolBalance)>,
    orders: Seq<FundedOrder>,
) -> bool {
    &&& totals_fit(before)
    &&& sum_base(before) + net_lots(orders) * config.lot() <= i128::MAX
    &&& sum_quote(before) - net_lots(orders) * config.price() <= i128::MAX
}

/// Whether a batch is filled as a whole: it has orders, no participant orders twice, every order can
/// be filled, and the totals can be counted.
pub open spec fn batch_accepted(
    config: BatchConfig,
    before: Seq<(ParticipantId, PoolBalance)>,
    orders: Seq<FundedOrder>,
) -> bool {
    &&& orders.len() > 0
    &&& participants_distinct(orders)
    &&& all_fillable(config, before, orders)
    &&& totals_countable(config, before, orders)
}

/// The balances that filling a batch leaves, in the order of the balances before it.
pub open spec fn balances_left(
    config: BatchConfig,
    before: Seq<(ParticipantId, PoolBalance)>,
    orders: Seq<FundedOrder>,
) -> Seq<(ParticipantId, PoolBalance)> {
    Seq::new(
        before.len(),
        |i: int|
            (
                before[i].0,
                balance_after(config, before, orders, orders.len() as int, before[i].0).unwrap(),
            ),
    )
}

/// What a filled batch leaves is what filling it gives.
pub proof fn lemma_balances_left(
    config: BatchConfig,
    before: Seq<(ParticipantId, PoolBalance)>,
    orders: Seq<FundedOrder>,
    result: BatchResult,
)
    requires
        batch_settled(config, before, orders, result),
    ensures
        result.after() == balances_left(config, before, orders),
{
    let after = result.after();
    let left = balances_left(config, before, orders);
    assert forall|i: int| 0 <= i < after.len() implies after[i] == left[i] by {
        lemma_value_at(after, i);
        assert(before[i].0 == after[i].0);
        assert(value_of(after, after[i].0) == balance_after(
            config,
            before,
            orders,
            orders.len() as int,
            after[i].0,
        ));
    }
    assert(after =~= left);
}

/// The outcome of a batch that was filled.
#[derive(Clone, Debug, PartialEq, Eq)]
pub struct BatchResult {
    before: IdMap<PoolBalance>,
    balances: IdMap<PoolBalance>,
    residual: Residual,
    vault_delta: VaultDelta,
}

impl BatchResult {
    /// The balances that the batch started from.
    pub closed spec fn before(&self) -> Seq<(ParticipantId, PoolBalance)> {
        self.before@
    }

    /// The balances that the batch leaves.
    pub closed spec fn after(&self) -> Seq<(ParticipantId, PoolBalance)> {
        self.balances@
    }

    /// The lots that go to the venue.
    pub closed spec fn left(&self) -> Residual {
        self.residual
    }

    /// What moves between pool and venue.
    pub closed spec fn delta(&self) -> VaultDelta {
        self.vault_delta
    }

    /// Both sets of balances are sorted, they hold the same participants, and no balance is left
    /// without funds that had some.
    pub open spec fn wf(&self) -> bool {
        &&& ids_sorted(self.before())
        &&& ids_sorted(self.after())
        &&& self.before().len() == self.after().len()
        &&& forall|i: int|
            0 <= i < self.before().len() ==> (#[trigger] self.before()[i]).0
                == self.after()[i].0
        &&& forall|i: int|
            0 <= i < self.before().len() ==> self.after()[i].1.is_funded() || (
            #[trigger] self.before()[i]).1 == self.after()[i].1
    }

    pub fn residual(&self) -> (residual: Residual)
        ensures
            residual == self.left(),
    {
        self.residual
    }

    pub fn vault_delta(&self) -> (delta: VaultDelta)
        ensures
            delta == self.delta(),
    {
        self.vault_delta
    }

    pub fn balance(&self, participant_id: ParticipantId) -> (balance: Option<PoolBalance>)
        requires
            self.wf(),
        ensures
            balance == value_of(self.after(), participant_id),
    {
        self.balances.get(&participant_id)
    }

    /// The balances that the batch leaves.
    pub fn balances(&self) -> (balances: &IdMap<PoolBalance>)
        ensures
            balances@ == self.after(),
    {
        &self.balances
    }

    /// The balances that the batch started from.
    pub fn before_balances(&self) -> (balances: &IdMap<PoolBalance>)
        ensures
            balances@ == self.before(),
    {
        &self.before
    }

    /// Whether the totals of `before` and the vault legs add up to the totals of the result.
    pub fn conserves(&self, before: &IdMap<PoolBalance>) -> (conserved: bool)
        ensures
            conserved == conservation(before@, self.after(), self.delta()),
    {
        let (before_base, before_quote) = match totals(before) {
            Some(sums) => sums,
            None => {
                return false;
            },
        };
        let (after_base, after_quote) = match totals(&self.balances) {
            Some(sums) => sums,
            None => {
                return false;
            },
        };
        let base = before_base.checked_add(self.vault_delta.base_atoms);
        let quote = before_quote.checked_add(self.vault_delta.quote_atoms);
        match (base, quote) {
            (Some(base), Some(quote)) => base == after_base && quote == after_quote,
            _ => false,
        }
    }
}

/// Whether two sets of balances differ, in total, by the vault legs.
pub open spec fn conservation(
    before: Seq<(ParticipantId, PoolBalance)>,
    after: Seq<(ParticipantId, PoolBalance)>,
    delta: VaultDelta,
) -> bool {
    &&& totals_fit(before)
    &&& totals_fit(after)
    &&& sum_base(before) + delta.base_atoms == sum_base(after)
    &&& sum_quote(before) + delta.quote_atoms == sum_quote(after)
}

/// The two totals of a set of balances, where they can be counted.
fn totals(balances: &IdMap<PoolBalance>) -> (sums: Option<(i128, i128)>)
    ensures
        match sums {
            Some(sums) => totals_fit(balances@) && sums.0 == sum_base(balances@) && sums.1
                == sum_quote(balances@),
            None => !totals_fit(balances@),
        },
{
    let mut base: i128 = 0;
    let mut quote: i128 = 0;
    let mut i: usize = 0;
    while i < balances.len()
        invariant
            i <= balances@.len(),
            base == sum_base(balances@.take(i as int)),
            quote == sum_quote(balances@.take(i as int)),
        decreases balances@.len() - i,
    {
        let balance = balances.entry(i).1;
        proof {
            assert(balances@.take(i + 1).drop_last() =~= balances@.take(i as int));
            lemma_sums_monotone(balances@, i + 1);
            lemma_sums_monotone(balances@, i as int);
        }
        match (
            base.checked_add(balance.base_atoms as i128),
            quote.checked_add(balance.quote_atoms as i128),
        ) {
            (Some(next_base), Some(next_quote)) => {
                base = next_base;
                quote = next_quote;
            },
            _ => {
                return None;
            },
        }
        i += 1;
    }
    assert(balances@.take(i as int) =~= balances@);
    Some((base, quote))
}

/// The first order that repeats a participant, where there is one.
fn find_repeat(orders: &[FundedOrder]) -> (found: Option<usize>)
    ensures
        match found {
            Some(j) => first_repeat(orders@, j as int),
            None => participants_distinct(orders@),
        },
{
    let mut j: usize = 0;
    while j < orders.len()
        invariant
            j <= orders@.len(),
            forall|k: int| 0 <= k < j ==> !#[trigger] repeats(orders@, k),
        decreases orders@.len() - j,
    {
        let mut i: usize = 0;
        while i < j
            invariant
                i <= j < orders@.len(),
                forall|k: int| 0 <= k < j ==> !#[trigger] repeats(orders@, k),
                forall|k: int|
                    0 <= k < i ==> #[trigger] orders@[k]@.participant_id
                        != orders@[j as int]@.participant_id,
            decreases j - i,
        {
            if same_array(&orders[i].participant_id, &orders[j].participant_id) {
                assert(orders@[i as int]@.participant_id == orders@[j as int]@.participant_id);
                assert(repeats(orders@, j as int));
                return Some(j);
            }
            i += 1;
        }
        assert(!repeats(orders@, j as int));
        j += 1;
    }
    None
}

/// What one order makes of its participant's balance, or why it cannot be filled.
fn fill_order(
    config: BatchConfig,
    balance: Option<PoolBalance>,
    order: FundedOrder,
    buys: u32,
    sells: u32,
) -> (filled: Result<(PoolBalance, u32, u32), LedgerError>)
    ensures
        forall|before: Seq<(ParticipantId, PoolBalance)>, orders: Seq<FundedOrder>, i: int|
            #![trigger order_failure(config, before, orders, i)]
            orders[i] == order && value_of(before, order@.participant_id) == balance && count_side(
                orders,
                Side::Buy,
                i,
            ) == buys && count_side(orders, Side::Sell, i) == sells ==> match filled {
                Ok(_) => order_failure(config, before, orders, i) is None,
                Err(error) => order_failure(config, before, orders, i) == Some(error),
            },
        filled matches Ok((after, more_buys, more_sells)) ==> {
            &&& balance is Some
            &&& after == settled(config, balance.unwrap(), order@.side)
            &&& more_buys == buys + if order@.side == Side::Buy {
                1int
            } else {
                0int
            }
            &&& more_sells == sells + if order@.side == Side::Sell {
                1int
            } else {
                0int
            }
            &&& after.base_atoms - balance.unwrap().base_atoms == if order@.side == Side::Buy {
                config.lot() as int
            } else {
                -(config.lot() as int)
            }
            &&& after.quote_atoms - balance.unwrap().quote_atoms == if order@.side == Side::Buy {
                -(config.price() as int)
            } else {
                config.price() as int
            }
        },
{
    let balance: PoolBalance = match balance {
        Some(balance) => balance,
        None => {
            return Err(LedgerError::UnknownParticipant(order.participant_id));
        },
    };
    if balance.base_atoms < config.base_lot_atoms || balance.quote_atoms
        < config.quote_atoms_per_lot {
        return Err(LedgerError::InsufficientReservation(order.participant_id));
    }
    match order.side {
        Side::Buy => {
            if config.quote_atoms_per_lot > order.limit_price {
                return Err(LedgerError::LimitViolated(order.participant_id));
            }
            match (balance.base_atoms.checked_add(config.base_lot_atoms), buys.checked_add(1)) {
                (Some(base_atoms), Some(buys)) => Ok(
                    (
                        PoolBalance {
                            base_atoms,
                            quote_atoms: balance.quote_atoms - config.quote_atoms_per_lot,
                        },
                        buys,
                        sells,
                    ),
                ),
                _ => Err(LedgerError::ArithmeticOverflow),
            }
        },
        Side::Sell => {
            if config.quote_atoms_per_lot < order.limit_price {
                return Err(LedgerError::LimitViolated(order.participant_id));
            }
            match (
                balance.quote_atoms.checked_add(config.quote_atoms_per_lot),
                sells.checked_add(1),
            ) {
                (Some(quote_atoms), Some(sells)) => Ok(
                    (
                        PoolBalance {
                            base_atoms: balance.base_atoms - config.base_lot_atoms,
                            quote_atoms,
                        },
                        buys,
                        sells,
                    ),
                ),
                _ => Err(LedgerError::ArithmeticOverflow),
            }
        },
    }
}

/// Where no participant has two orders, the next order's participant is still at its first balance.
proof fn lemma_next_is_unfilled(
    config: BatchConfig,
    before: Seq<(ParticipantId, PoolBalance)>,
    orders: Seq<FundedOrder>,
    i: int,
)
    requires
        0 <= i < orders.len(),
        participants_distinct(orders),
    ensures
        balance_after(config, before, orders, i, orders[i]@.participant_id) == value_of(
            before,
            orders[i]@.participant_id,
        ),
{
    assert(!repeats(orders, i));
}

/// Filling one more order settles its participant's balance and leaves the others.
proof fn lemma_balance_after_next(
    config: BatchConfig,
    before: Seq<(ParticipantId, PoolBalance)>,
    orders: Seq<FundedOrder>,
    i: int,
    id: ParticipantId,
)
    requires
        0 <= i < orders.len(),
        participants_distinct(orders),
        value_of(before, orders[i]@.participant_id) is Some,
    ensures
        balance_after(config, before, orders, i + 1, id) == (if id == orders[i]@.participant_id {
            Some(settled(config, value_of(before, id).unwrap(), orders[i]@.side))
        } else {
            balance_after(config, before, orders, i, id)
        }),
{
    assert(!repeats(orders, i));
    if id == orders[i]@.participant_id {
        assert(ordered(orders, i + 1, id));
        let k = order_of(orders, i + 1, id);
        if k < i {
            assert(repeats(orders, i));
        }
    } else {
        if ordered(orders, i, id) {
            let k = order_of(orders, i, id);
            assert(orders[k]@.participant_id == id);
            assert(ordered(orders, i + 1, id));
            let m = order_of(orders, i + 1, id);
            assert(orders[m]@.participant_id == id);
            if k < m {
                assert(repeats(orders, m));
            } else if m < k {
                assert(repeats(orders, k));
            }
        } else if ordered(orders, i + 1, id) {
            let m = order_of(orders, i + 1, id);
            assert(orders[m]@.participant_id == id);
        }
    }
}

/// The signed form of a number of lots.
fn signed(buys: u32, sells: u32) -> (lots: (Residual, i128))
    ensures
        lots.1 == buys - sells,
        lots.0 == residual_of(buys - sells),
{
    if buys > sells {
        let lots: u32 = buys - sells;
        (Residual::Buy { lots }, lots as i128)
    } else if buys < sells {
        let lots: u32 = sells - buys;
        (Residual::Sell { lots }, -(lots as i128))
    } else {
        (Residual::Balanced, 0)
    }
}

/// Fills a batch of one-lot orders at the fixed price.
///
/// Opposing orders cancel inside the pool; what is left is one residual. A batch is refused as a
/// whole, for the first reason that applies: that it is empty, then the first repeated participant,
/// then the first order that cannot be filled.
pub fn net_batch(
    config: BatchConfig,
    before: &IdMap<PoolBalance>,
    orders: &[FundedOrder],
) -> (outcome: Result<BatchResult, LedgerError>)
    requires
        before.wf(),
    ensures
        outcome is Ok <==> batch_accepted(config, before@, orders@),
        match outcome {
            Ok(result) => {
                &&& orders@.len() > 0
                &&& participants_distinct(orders@)
                &&& all_fillable(config, before@, orders@)
                &&& totals_countable(config, before@, orders@)
                &&& batch_settled(config, before@, orders@, result)
                &&& conservation(before@, result.after(), result.delta())
            },
            Err(LedgerError::EmptyBatch) => orders@.len() == 0,
            Err(LedgerError::DuplicateParticipant(id)) => orders@.len() > 0 && exists|j: int|
                #[trigger] first_repeat(orders@, j) && id == orders@[j]@.participant_id,
            Err(LedgerError::ConservationFailed) => {
                &&& orders@.len() > 0
                &&& participants_distinct(orders@)
                &&& all_fillable(config, before@, orders@)
                &&& !totals_countable(config, before@, orders@)
            },
            Err(error) => {
                &&& orders@.len() > 0
                &&& participants_distinct(orders@)
                &&& exists|i: int| #[trigger] first_failure(config, before@, orders@, i, error)
            },
        },
{
    if orders.len() == 0 {
        return Err(LedgerError::EmptyBatch);
    }
    if let Some(j) = find_repeat(orders) {
        assert(first_repeat(orders@, j as int));
        return Err(LedgerError::DuplicateParticipant(orders[j].participant_id));
    }
    let mut balances: IdMap<PoolBalance> = before.clone();
    let mut buys: u32 = 0;
    let mut sells: u32 = 0;
    let mut i: usize = 0;
    proof {
        assert forall|id: ParticipantId| #[trigger]
            value_of(balances@, id) == balance_after(config, before@, orders@, 0, id) by {}
    }
    while i < orders.len()
        invariant
            i <= orders@.len(),
            before.wf(),
            balances.wf(),
            participants_distinct(orders@),
            buys == count_side(orders@, Side::Buy, i as int),
            sells == count_side(orders@, Side::Sell, i as int),
            forall|k: int|
                0 <= k < i ==> #[trigger] order_failure(config, before@, orders@, k) is None,
            forall|id: ParticipantId| #[trigger]
                value_of(balances@, id) == balance_after(config, before@, orders@, i as int, id),
            balances@.len() == before@.len(),
            forall|k: int|
                0 <= k < before@.len() ==> (#[trigger] before@[k]).0 == balances@[k].0,
            sum_base(balances@) == sum_base(before@) + (buys - sells) * config.lot(),
            sum_quote(balances@) == sum_quote(before@) - (buys - sells) * config.price(),
        decreases orders@.len() - i,
    {
        let order = orders[i];
        let id = order.participant_id;
        let held = balances.get(&id);
        proof {
            lemma_next_is_unfilled(config, before@, orders@, i as int);
            let failure = order_failure(config, before@, orders@, i as int);
        }
        match fill_order(config, held, order, buys, sells) {
            Ok((filled, more_buys, more_sells)) => {
                let ghost previous = balances@;
                let ghost at = position_of(previous, id);
                proof {
                    assert(has_id(previous, id));
                    lemma_sums_update(previous, at, (id, filled));
                    assert forall|k: ParticipantId| #[trigger]
                        balance_after(config, before@, orders@, i + 1, k) == (if k == id {
                            Some(filled)
                        } else {
                            balance_after(config, before@, orders@, i as int, k)
                        }) by {
                        lemma_balance_after_next(config, before@, orders@, i as int, k);
                    }
                    let lot = config.lot() as int;
                    let price = config.price() as int;
                    let net = buys - sells;
                    let next = more_buys - more_sells;
                    let step = if order@.side == Side::Buy {
                        1int
                    } else {
                        -1int
                    };
                    assert(next == net + step);
                    assert(next * lot == net * lot + step * lot) by (nonlinear_arith)
                        requires
                            next == net + step,
                    ;
                    assert(next * price == net * price + step * price) by (nonlinear_arith)
                        requires
                            next == net + step,
                    ;
                }
                balances.insert(id, filled);
                buys = more_buys;
                sells = more_sells;
            },
            Err(error) => {
                assert(first_failure(config, before@, orders@, i as int, error));
                return Err(error);
            },
        }
        i += 1;
    }
    let (residual, lots) = signed(buys, sells);
    proof {
        let lot = config.lot() as int;
        let price = config.price() as int;
        assert(-0x1_0000_0000_0000_0000_0000_0000 <= lots * lot
            <= 0x1_0000_0000_0000_0000_0000_0000) by (nonlinear_arith)
            requires
                -0x1_0000_0000 <= lots <= 0x1_0000_0000,
                0 <= lot <= 0x1_0000_0000_0000_0000,
        ;
        assert(-0x1_0000_0000_0000_0000_0000_0000 <= lots * price
            <= 0x1_0000_0000_0000_0000_0000_0000) by (nonlinear_arith)
            requires
                -0x1_0000_0000 <= lots <= 0x1_0000_0000,
                0 <= price <= 0x1_0000_0000_0000_0000,
        ;
    }
    proof {
        use_type_invariant(&config);
        lemma_stay_funded(config, before@, orders@, balances@);
    }
    let base_atoms: i128 = lots * (config.base_lot_atoms as i128);
    let quote_atoms: i128 = -(lots * (config.quote_atoms_per_lot as i128));
    let result = BatchResult {
        before: before.clone(),
        balances,
        residual,
        vault_delta: VaultDelta { base_atoms, quote_atoms },
    };
    assert(batch_settled(config, before@, orders@, result));
    if !result.conserves(before) {
        return Err(LedgerError::ConservationFailed);
    }
    Ok(result)
}

proof fn lemma_stay_funded(
    config: BatchConfig,
    before: Seq<(ParticipantId, PoolBalance)>,
    orders: Seq<FundedOrder>,
    after: Seq<(ParticipantId, PoolBalance)>,
)
    requires
        config.lot() > 0,
        config.price() > 0,
        ids_sorted(before),
        ids_sorted(after),
        before.len() == after.len(),
        forall|i: int| 0 <= i < before.len() ==> (#[trigger] before[i]).0 == after[i].0,
        all_fillable(config, before, orders),
        forall|id: ParticipantId| #[trigger]
            value_of(after, id) == balance_after(
                config,
                before,
                orders,
                orders.len() as int,
                id,
            ),
    ensures
        forall|i: int|
            0 <= i < before.len() ==> after[i].1.is_funded() || (#[trigger] before[i]).1
                == after[i].1,
{
    assert forall|i: int| 0 <= i < before.len() implies after[i].1.is_funded() || (
    #[trigger] before[i]).1 == after[i].1 by {
        let id = after[i].0;
        assert(before[i].0 == id);
        lemma_value_at(after, i);
        lemma_value_at(before, i);
        assert(value_of(after, id) == balance_after(
            config,
            before,
            orders,
            orders.len() as int,
            id,
        ));
        if ordered(orders, orders.len() as int, id) {
            let k = order_of(orders, orders.len() as int, id);
            assert(order_failure(config, before, orders, k) is None);
        }
    }
}

/// A batch has one outcome: the balances, the residual and the vault legs follow from the
/// configuration, the balances before and the orders.
pub proof fn law_settlement_determined(
    config: BatchConfig,
    before: Seq<(ParticipantId, PoolBalance)>,
    orders: Seq<FundedOrder>,
    a: BatchResult,
    b: BatchResult,
)
    requires
        batch_settled(config, before, orders, a),
        batch_settled(config, before, orders, b),
    ensures
        a.after() == b.after(),
        a.left() == b.left(),
        a.delta() == b.delta(),
{
    assert forall|id: ParticipantId| value_of(a.after(), id) == value_of(b.after(), id) by {
        assert(value_of(a.after(), id) == balance_after(
            config,
            before,
            orders,
            orders.len() as int,
            id,
        ));
    }
    lemma_entries_determined(a.after(), b.after());
}

spec fn left_after(
    config: BatchConfig,
    before: Seq<(ParticipantId, PoolBalance)>,
    orders: Seq<FundedOrder>,
    n: int,
) -> Seq<(ParticipantId, PoolBalance)> {
    Seq::new(
        before.len(),
        |i: int| (before[i].0, balance_after(config, before, orders, n, before[i].0).unwrap()),
    )
}

proof fn lemma_sums_after(
    config: BatchConfig,
    before: Seq<(ParticipantId, PoolBalance)>,
    orders: Seq<FundedOrder>,
    n: int,
)
    requires
        ids_sorted(before),
        participants_distinct(orders),
        all_fillable(config, before, orders),
        0 <= n <= orders.len(),
    ensures
        sum_base(left_after(config, before, orders, n)) == sum_base(before) + (count_side(
            orders,
            Side::Buy,
            n,
        ) - count_side(orders, Side::Sell, n)) * config.lot(),
        sum_quote(left_after(config, before, orders, n)) == sum_quote(before) - (count_side(
            orders,
            Side::Buy,
            n,
        ) - count_side(orders, Side::Sell, n)) * config.price(),
    decreases n,
{
    let left = left_after(config, before, orders, n);
    let lot = config.lot() as int;
    let price = config.price() as int;
    if n == 0 {
        assert forall|i: int| 0 <= i < before.len() implies left[i] == before[i] by {
            lemma_value_at(before, i);
        }
        assert(left =~= before);
        assert(0 * lot == 0 && 0 * price == 0) by (nonlinear_arith);
    } else {
        let m = n - 1;
        let previous = left_after(config, before, orders, m);
        let order = orders[m]@;
        let id = order.participant_id;
        lemma_sums_after(config, before, orders, m);
        assert(order_failure(config, before, orders, m) is None);
        let held = value_of(before, id).unwrap();
        let filled = settled(config, held, order.side);
        let at = position_of(before, id);
        assert(has_id(before, id));
        lemma_next_is_unfilled(config, before, orders, m);
        assert(previous[at] == (id, held));
        assert forall|i: int| 0 <= i < before.len() implies left[i] == previous.update(
            at,
            (id, filled),
        )[i] by {
            lemma_balance_after_next(config, before, orders, m, before[i].0);
            lemma_position_at(before, i);
        }
        assert(left =~= previous.update(at, (id, filled)));
        lemma_sums_update(previous, at, (id, filled));
        let net = count_side(orders, Side::Buy, m) - count_side(orders, Side::Sell, m);
        let next = count_side(orders, Side::Buy, n) - count_side(orders, Side::Sell, n);
        let step = if order.side == Side::Buy {
            1int
        } else {
            -1int
        };
        assert(next == net + step);
        assert(next * lot == net * lot + step * lot) by (nonlinear_arith)
            requires
                next == net + step,
        ;
        assert(next * price == net * price + step * price) by (nonlinear_arith)
            requires
                next == net + step,
        ;
    }
}

/// A filled batch conserves tokens: together the balances gain a lot for every unmatched buy, lose one
/// for every unmatched sell, and pay or receive its price, so that the venue makes up the difference
/// and nothing else moves.
pub proof fn law_batch_conserves_tokens(
    config: BatchConfig,
    before: Seq<(ParticipantId, PoolBalance)>,
    orders: Seq<FundedOrder>,
)
    requires
        ids_sorted(before),
        batch_accepted(config, before, orders),
    ensures
        sum_base(balances_left(config, before, orders)) == sum_base(before) + net_lots(orders)
            * config.lot(),
        sum_quote(balances_left(config, before, orders)) == sum_quote(before) - net_lots(orders)
            * config.price(),
{
    lemma_sums_after(config, before, orders, orders.len() as int);
    assert(balances_left(config, before, orders) =~= left_after(
        config,
        before,
        orders,
        orders.len() as int,
    ));
}

proof fn lemma_count_is_filter(orders: Seq<FundedOrder>, side: Side)
    ensures
        count_side(orders, side, orders.len() as int) == orders.filter(
            |order: FundedOrder| order@.side == side,
        ).len(),
    decreases orders.len(),
{
    reveal(Seq::filter);
    if orders.len() > 0 {
        let rest = orders.drop_last();
        lemma_count_is_filter(rest, side);
        lemma_count_prefix(orders, rest, side, rest.len() as int);
    }
}

/// Every order of a filled batch is filled for one lot at the price, and never at a price beyond its
/// limit: a buyer receives the lot and pays the price, a seller gives the lot and receives the price,
/// and a balance without an order stays as it was.
pub proof fn law_orders_are_filled_within_their_limits(
    config: BatchConfig,
    before: Seq<(ParticipantId, PoolBalance)>,
    orders: Seq<FundedOrder>,
    result: BatchResult,
    id: ParticipantId,
)
    requires
        batch_accepted(config, before, orders),
        batch_settled(config, before, orders, result),
    ensures
        forall|i: int|
            0 <= i < orders.len() && (#[trigger] orders[i])@.participant_id == id ==> {
                &&& value_of(before, id) matches Some(held) && value_of(
                    result.after(),
                    id,
                ) matches Some(left) && match orders[i]@.side {
                    Side::Buy => config.price() <= orders[i]@.limit_price && left.base_atoms
                        == held.base_atoms + config.lot() && left.quote_atoms + config.price()
                        == held.quote_atoms,
                    Side::Sell => config.price() >= orders[i]@.limit_price && left.base_atoms
                        + config.lot() == held.base_atoms && left.quote_atoms == held.quote_atoms
                        + config.price(),
                }
            },
        (forall|i: int|
            0 <= i < orders.len() ==> (#[trigger] orders[i])@.participant_id != id) ==> value_of(
            result.after(),
            id,
        ) == value_of(before, id),
{
    let n = orders.len() as int;
    assert(value_of(result.after(), id) == balance_after(config, before, orders, n, id));
    assert forall|i: int| 0 <= i < orders.len() && (#[trigger] orders[i])@.participant_id
        == id implies {
        &&& value_of(before, id) matches Some(held) && value_of(
            result.after(),
            id,
        ) matches Some(left) && match orders[i]@.side {
            Side::Buy => config.price() <= orders[i]@.limit_price && left.base_atoms
                == held.base_atoms + config.lot() && left.quote_atoms + config.price()
                == held.quote_atoms,
            Side::Sell => config.price() >= orders[i]@.limit_price && left.base_atoms + config.lot()
                == held.base_atoms && left.quote_atoms == held.quote_atoms + config.price(),
        }
    } by {
        assert(order_failure(config, before, orders, i) is None);
        assert(ordered(orders, n, id));
        let k = order_of(orders, n, id);
        if k < i {
            assert(repeats(orders, i));
        } else if i < k {
            assert(repeats(orders, k));
        }
    }
}

/// What a filled batch sends to the venue is the difference of its buys and its sells: with more buys
/// the pool buys the surplus, receives its lots and pays their price; with more sells it sells the
/// surplus, gives its lots and receives their price; with as many of both it sends nothing.
pub proof fn law_venue_takes_the_unmatched_lots(
    config: BatchConfig,
    before: Seq<(ParticipantId, PoolBalance)>,
    orders: Seq<FundedOrder>,
    result: BatchResult,
)
    requires
        orders.len() <= u32::MAX,
        batch_settled(config, before, orders, result),
    ensures
        ({
            let buys = orders.filter(|order: FundedOrder| order@.side == Side::Buy).len();
            let sells = orders.filter(|order: FundedOrder| order@.side == Side::Sell).len();
            if buys > sells {
                &&& result.left() matches Residual::Buy { lots } && lots == buys - sells
                &&& result.delta().base_atoms == (buys - sells) * config.lot()
                &&& result.delta().quote_atoms == -((buys - sells) * config.price())
            } else if sells > buys {
                &&& result.left() matches Residual::Sell { lots } && lots == sells - buys
                &&& result.delta().base_atoms == -((sells - buys) * config.lot())
                &&& result.delta().quote_atoms == (sells - buys) * config.price()
            } else {
                &&& result.left() == Residual::Balanced
                &&& result.delta().base_atoms == 0
                &&& result.delta().quote_atoms == 0
            }
        }),
{
    lemma_count_is_filter(orders, Side::Buy);
    lemma_count_is_filter(orders, Side::Sell);
    lemma_count_grows(orders, Side::Buy, 0, orders.len() as int);
    lemma_count_grows(orders, Side::Sell, 0, orders.len() as int);
    lemma_count_bound(orders, Side::Buy, orders.len() as int);
    lemma_count_bound(orders, Side::Sell, orders.len() as int);
    let net = net_lots(orders);
    let back = -net;
    let lot = config.lot() as int;
    let price = config.price() as int;
    assert(back * lot == -(net * lot)) by (nonlinear_arith)
        requires
            back == -net,
    ;
    assert(back * price == -(net * price)) by (nonlinear_arith)
        requires
            back == -net,
    ;
    assert(0 * lot == 0 && 0 * price == 0) by (nonlinear_arith);
}

/// No more orders go in one direction than there are orders.
pub proof fn lemma_count_bound(orders: Seq<FundedOrder>, side: Side, n: int)
    requires
        0 <= n,
    ensures
        count_side(orders, side, n) <= n,
    decreases n,
{
    if n > 0 {
        lemma_count_bound(orders, side, n - 1);
    }
}

/// A batch is filled where every participant orders once, holds the lot and the price, keeps within the
/// limit, and no amount grows beyond what can be counted.
pub proof fn law_funded_orders_are_filled(
    config: BatchConfig,
    before: Seq<(ParticipantId, PoolBalance)>,
    orders: Seq<FundedOrder>,
)
    requires
        0 < orders.len() <= u32::MAX,
        forall|i: int, j: int|
            0 <= i < j < orders.len() ==> (#[trigger] orders[i])@.participant_id != (
            #[trigger] orders[j])@.participant_id,
        forall|i: int|
            0 <= i < orders.len() ==> {
                &&& value_of(before, (#[trigger] orders[i])@.participant_id) matches Some(held)
                    && held.base_atoms >= config.lot() && held.quote_atoms >= config.price()
                    && match orders[i]@.side {
                    Side::Buy => orders[i]@.limit_price >= config.price() && held.base_atoms
                        + config.lot() <= u64::MAX,
                    Side::Sell => orders[i]@.limit_price <= config.price() && held.quote_atoms
                        + config.price() <= u64::MAX,
                }
            },
        sum_base(before) + orders.len() * config.lot() <= i128::MAX,
        sum_quote(before) + orders.len() * config.price() <= i128::MAX,
    ensures
        batch_accepted(config, before, orders),
{
    let n = orders.len() as int;
    assert forall|j: int| 0 <= j < orders.len() implies !#[trigger] repeats(orders, j) by {
        if repeats(orders, j) {
            let i = choose|i: int|
                0 <= i < j && #[trigger] orders[i]@.participant_id == orders[j]@.participant_id;
            assert(orders[i]@.participant_id != orders[j]@.participant_id);
        }
    }
    assert forall|i: int| 0 <= i < orders.len() implies #[trigger] order_failure(
        config,
        before,
        orders,
        i,
    ) is None by {
        lemma_count_bound(orders, Side::Buy, i);
        lemma_count_bound(orders, Side::Sell, i);
        assert(value_of(before, orders[i]@.participant_id) is Some);
    }
    lemma_count_bound(orders, Side::Buy, n);
    lemma_count_bound(orders, Side::Sell, n);
    lemma_count_grows(orders, Side::Buy, 0, n);
    lemma_count_grows(orders, Side::Sell, 0, n);
    let net = net_lots(orders);
    let lot = config.lot() as int;
    let price = config.price() as int;
    assert(net * lot <= n * lot && 0 <= n * lot) by (nonlinear_arith)
        requires
            -n <= net <= n,
            0 <= lot,
            0 <= n,
    ;
    assert(-(net * price) <= n * price && 0 <= n * price) by (nonlinear_arith)
        requires
            -n <= net <= n,
            0 <= price,
            0 <= n,
    ;
}

/// A batch with as many buys as sells sends nothing to the venue.
pub proof fn law_balanced_batch_stays_in_the_pool(
    config: BatchConfig,
    before: Seq<(ParticipantId, PoolBalance)>,
    orders: Seq<FundedOrder>,
    result: BatchResult,
)
    requires
        batch_settled(config, before, orders, result),
        count_side(orders, Side::Buy, orders.len() as int) == count_side(
            orders,
            Side::Sell,
            orders.len() as int,
        ),
    ensures
        result.left() == Residual::Balanced,
        result.delta() == (VaultDelta { base_atoms: 0, quote_atoms: 0 }),
{
    assert(0 * config.lot() == 0) by (nonlinear_arith);
    assert(0 * config.price() == 0) by (nonlinear_arith);
}

/// How many of the first orders go in one direction depends on those alone.
pub proof fn lemma_count_prefix(a: Seq<FundedOrder>, b: Seq<FundedOrder>, side: Side, n: int)
    requires
        0 <= n <= a.len(),
        n <= b.len(),
        forall|i: int| 0 <= i < n ==> a[i] == b[i],
    ensures
        count_side(a, side, n) == count_side(b, side, n),
    decreases n,
{
    if n > 0 {
        assert(a[n - 1] == b[n - 1]);
        lemma_count_prefix(a, b, side, n - 1);
    }
}

spec fn goes(side: Side) -> spec_fn(FundedOrder) -> bool {
    |order: FundedOrder| order@.side == side
}

/// How many orders go in one direction depends on the orders, not on their places.
proof fn lemma_count_by_multiset(orders: Seq<FundedOrder>, side: Side)
    ensures
        count_side(orders, side, orders.len() as int) == orders.to_multiset().filter(
            goes(side),
        ).len(),
    decreases orders.len(),
{
    broadcast use vstd::seq_lib::group_to_multiset_ensures;

    if orders.len() == 0 {
        assert(orders.to_multiset().filter(goes(side)) =~= Multiset::empty());
    } else {
        let rest = orders.drop_last();
        let last = orders.last();
        lemma_count_by_multiset(rest, side);
        lemma_count_prefix(orders, rest, side, rest.len() as int);
        assert(orders =~= rest.push(last));
        let filtered = rest.to_multiset().filter(goes(side));
        if last@.side == side {
            assert(orders.to_multiset().filter(goes(side)) =~= filtered.insert(last));
        } else {
            assert(orders.to_multiset().filter(goes(side)) =~= filtered);
        }
    }
}

proof fn lemma_count_grows(orders: Seq<FundedOrder>, side: Side, i: int, n: int)
    requires
        0 <= i <= n,
    ensures
        0 <= count_side(orders, side, i) <= count_side(orders, side, n),
    decreases n,
{
    if n > 0 {
        if i < n {
            lemma_count_grows(orders, side, i, n - 1);
        } else {
            lemma_count_grows(orders, side, 0, n - 1);
        }
    }
}

proof fn lemma_count_passes(orders: Seq<FundedOrder>, side: Side, n: int, mark: int) -> (i: int)
    requires
        0 <= n <= orders.len(),
        0 <= mark < count_side(orders, side, n),
    ensures
        0 <= i < n,
        orders[i]@.side == side,
        count_side(orders, side, i) == mark,
    decreases n,
{
    if count_side(orders, side, n - 1) > mark {
        lemma_count_passes(orders, side, n - 1, mark)
    } else {
        n - 1
    }
}

/// Whether an order can be filled, however many others there are.
spec fn fillable(
    config: BatchConfig,
    before: Seq<(ParticipantId, PoolBalance)>,
    order: FundedOrder,
) -> bool {
    order_failure(config, before, seq![order], 0) is None
}

proof fn lemma_all_fillable(
    config: BatchConfig,
    before: Seq<(ParticipantId, PoolBalance)>,
    orders: Seq<FundedOrder>,
)
    ensures
        all_fillable(config, before, orders) <==> {
            &&& count_side(orders, Side::Buy, orders.len() as int) <= u32::MAX
            &&& count_side(orders, Side::Sell, orders.len() as int) <= u32::MAX
            &&& forall|i: int|
                0 <= i < orders.len() ==> fillable(config, before, #[trigger] orders[i])
        },
{
    let n = orders.len() as int;
    let buys = count_side(orders, Side::Buy, n);
    let sells = count_side(orders, Side::Sell, n);
    assert forall|i: int| 0 <= i < n implies 0 <= count_side(orders, orders[i]@.side, i)
        && #[trigger] count_side(orders, orders[i]@.side, i) < count_side(
        orders,
        orders[i]@.side,
        n,
    ) by {
        lemma_count_grows(orders, orders[i]@.side, 0, i);
        lemma_count_grows(orders, orders[i]@.side, i + 1, n);
    }
    if all_fillable(config, before, orders) {
        assert forall|i: int| 0 <= i < n implies fillable(
            config,
            before,
            #[trigger] orders[i],
        ) by {
            assert(order_failure(config, before, orders, i) is None);
        }
        if buys > u32::MAX {
            let i = lemma_count_passes(orders, Side::Buy, n, u32::MAX as int);
            assert(order_failure(config, before, orders, i) is None);
        }
        if sells > u32::MAX {
            let i = lemma_count_passes(orders, Side::Sell, n, u32::MAX as int);
            assert(order_failure(config, before, orders, i) is None);
        }
    } else {
        let i = choose|i: int|
            0 <= i < n && !(#[trigger] order_failure(config, before, orders, i) is None);
        assert(count_side(orders, orders[i]@.side, i) < count_side(orders, orders[i]@.side, n));
        if buys <= u32::MAX && sells <= u32::MAX {
            assert(!fillable(config, before, orders[i]));
        }
    }
}

proof fn lemma_one_order_each(orders: Seq<FundedOrder>, i: int, j: int)
    requires
        participants_distinct(orders),
        0 <= i < orders.len(),
        0 <= j < orders.len(),
        orders[i]@.participant_id == orders[j]@.participant_id,
    ensures
        i == j,
{
    if i < j {
        assert(repeats(orders, j));
    } else if j < i {
        assert(repeats(orders, i));
    }
}

proof fn lemma_stands_in_both(a: Seq<FundedOrder>, b: Seq<FundedOrder>, i: int) -> (k: int)
    requires
        a.to_multiset() == b.to_multiset(),
        0 <= i < b.len(),
    ensures
        0 <= k < a.len(),
        a[k] == b[i],
{
    broadcast use vstd::seq_lib::group_to_multiset_ensures;

    assert(b.contains(b[i]));
    assert(b.to_multiset().count(b[i]) > 0);
    assert(a.contains(b[i]));
    choose|k: int| 0 <= k < a.len() && a[k] == b[i]
}

proof fn lemma_distinct_by_multiset(a: Seq<FundedOrder>, b: Seq<FundedOrder>)
    requires
        a.to_multiset() == b.to_multiset(),
        participants_distinct(a),
    ensures
        participants_distinct(b),
{
    assert forall|i: int, j: int| 0 <= i < a.len() && 0 <= j < a.len() && i != j implies a[i]
        != a[j] by {
        if a[i] == a[j] {
            lemma_one_order_each(a, i, j);
        }
    }
    assert(a.no_duplicates());
    a.lemma_multiset_has_no_duplicates();
    b.lemma_multiset_has_no_duplicates_conv();
    assert forall|j: int| 0 <= j < b.len() implies !#[trigger] repeats(b, j) by {
        if repeats(b, j) {
            let i = choose|i: int|
                0 <= i < j && #[trigger] b[i]@.participant_id == b[j]@.participant_id;
            let k = lemma_stands_in_both(a, b, i);
            let m = lemma_stands_in_both(a, b, j);
            lemma_one_order_each(a, k, m);
        }
    }
}

/// The outcome of a batch does not depend on the order in which its orders came in: every order is
/// filled at the same price, so that the same orders are filled or refused together, and leave the
/// same balances, residual and vault legs.
pub proof fn law_batch_is_order_independent(
    config: BatchConfig,
    before: Seq<(ParticipantId, PoolBalance)>,
    a: Seq<FundedOrder>,
    b: Seq<FundedOrder>,
    result_a: BatchResult,
    result_b: BatchResult,
)
    requires
        a.to_multiset() == b.to_multiset(),
    ensures
        batch_accepted(config, before, a) == batch_accepted(config, before, b),
        batch_accepted(config, before, a) && batch_settled(config, before, a, result_a)
            && batch_settled(config, before, b, result_b) ==> result_a.after() == result_b.after()
            && result_a.left() == result_b.left() && result_a.delta() == result_b.delta(),
{
    broadcast use vstd::seq_lib::group_to_multiset_ensures;

    lemma_count_by_multiset(a, Side::Buy);
    lemma_count_by_multiset(b, Side::Buy);
    lemma_count_by_multiset(a, Side::Sell);
    lemma_count_by_multiset(b, Side::Sell);
    assert(a.len() == a.to_multiset().len());
    assert(b.len() == b.to_multiset().len());
    assert(net_lots(a) == net_lots(b));
    if participants_distinct(a) {
        lemma_distinct_by_multiset(a, b);
    }
    if participants_distinct(b) {
        lemma_distinct_by_multiset(b, a);
    }
    lemma_all_fillable(config, before, a);
    lemma_all_fillable(config, before, b);
    if all_fillable(config, before, a) {
        lemma_same_fillable(config, before, a, b);
    }
    if all_fillable(config, before, b) {
        lemma_same_fillable(config, before, b, a);
    }
    if batch_accepted(config, before, a) && batch_settled(config, before, a, result_a)
        && batch_settled(config, before, b, result_b) {
        assert forall|id: ParticipantId|
            value_of(result_a.after(), id) == value_of(result_b.after(), id) by {
            assert(value_of(result_a.after(), id) == balance_after(
                config,
                before,
                a,
                a.len() as int,
                id,
            ));
            assert(value_of(result_b.after(), id) == balance_after(
                config,
                before,
                b,
                b.len() as int,
                id,
            ));
            lemma_same_balance(config, before, a, b, id);
        }
        lemma_entries_determined(result_a.after(), result_b.after());
    }
}

proof fn lemma_same_fillable(
    config: BatchConfig,
    before: Seq<(ParticipantId, PoolBalance)>,
    a: Seq<FundedOrder>,
    b: Seq<FundedOrder>,
)
    requires
        a.to_multiset() == b.to_multiset(),
        forall|i: int| 0 <= i < a.len() ==> fillable(config, before, #[trigger] a[i]),
    ensures
        forall|i: int| 0 <= i < b.len() ==> fillable(config, before, #[trigger] b[i]),
{
    assert forall|i: int| 0 <= i < b.len() implies fillable(config, before, #[trigger] b[i]) by {
        let k = lemma_stands_in_both(a, b, i);
        assert(fillable(config, before, a[k]));
    }
}

proof fn lemma_same_balance(
    config: BatchConfig,
    before: Seq<(ParticipantId, PoolBalance)>,
    a: Seq<FundedOrder>,
    b: Seq<FundedOrder>,
    id: ParticipantId,
)
    requires
        a.to_multiset() == b.to_multiset(),
        participants_distinct(a),
    ensures
        balance_after(config, before, a, a.len() as int, id) == balance_after(
            config,
            before,
            b,
            b.len() as int,
            id,
        ),
{
    let n = a.len() as int;
    let m = b.len() as int;
    if ordered(a, n, id) {
        let i = order_of(a, n, id);
        let k = lemma_stands_in_both(b, a, i);
        assert(b[k]@.participant_id == id);
        assert(ordered(b, m, id));
    }
    if ordered(b, m, id) {
        let j = order_of(b, m, id);
        let k = lemma_stands_in_both(a, b, j);
        assert(a[k]@.participant_id == id);
        assert(ordered(a, n, id));
        lemma_one_order_each(a, k, order_of(a, n, id));
    }
}

/// An order fails by name: for a participant without a balance, for one whose balance does not cover both
/// the lot and the price, whichever side it takes, for a price beyond the limit, and where an amount or a
/// count would grow beyond what can be counted; and it is filled everywhere else.
pub proof fn law_orders_fail_by_name(
    config: BatchConfig,
    before: Seq<(ParticipantId, PoolBalance)>,
    orders: Seq<FundedOrder>,
    i: int,
    balance: PoolBalance,
)
    requires
        0 <= i < orders.len(),
    ensures
        ({
            let id = orders[i]@.participant_id;
            let buys = orders[i]@.side == Side::Buy;
            let limit = orders[i]@.limit_price;
            let failure = order_failure(config, before, orders, i);
            let covered = balance.base_atoms >= config.lot() && balance.quote_atoms
                >= config.price();
            let within = (buys ==> config.price() <= limit) && (!buys ==> config.price() >= limit);
            &&& value_of(before, id) is None ==> failure == Some(
                LedgerError::UnknownParticipant(id),
            )
            &&& value_of(before, id) == Some(balance) && !covered ==> failure == Some(
                LedgerError::InsufficientReservation(id),
            )
            &&& value_of(before, id) == Some(balance) && covered && !within ==> failure == Some(
                LedgerError::LimitViolated(id),
            )
            &&& value_of(before, id) == Some(balance) && covered && within && buys && (
            balance.base_atoms + config.lot() > u64::MAX || count_side(orders, Side::Buy, i)
                >= u32::MAX) ==> failure == Some(LedgerError::ArithmeticOverflow)
            &&& value_of(before, id) == Some(balance) && covered && within && !buys && (
            balance.quote_atoms + config.price() > u64::MAX || count_side(orders, Side::Sell, i)
                >= u32::MAX) ==> failure == Some(LedgerError::ArithmeticOverflow)
            &&& value_of(before, id) == Some(balance) && covered && within && (buys ==>
                balance.base_atoms + config.lot() <= u64::MAX && count_side(orders, Side::Buy, i)
                < u32::MAX) && (!buys ==> balance.quote_atoms + config.price() <= u64::MAX
                && count_side(orders, Side::Sell, i) < u32::MAX) ==> failure is None
        }),
{
}

/// A batch is accepted exactly where it has an order, no participant orders twice, no order fails, and the
/// totals can be counted before it and after it.
pub proof fn law_batches_are_exact(
    config: BatchConfig,
    before: Seq<(ParticipantId, PoolBalance)>,
    orders: Seq<FundedOrder>,
)
    ensures
        batch_accepted(config, before, orders) <==> {
            let buys = orders.filter(|order: FundedOrder| order@.side == Side::Buy).len();
            let sells = orders.filter(|order: FundedOrder| order@.side == Side::Sell).len();
            &&& orders.len() > 0
            &&& forall|i: int, j: int|
                0 <= i < j < orders.len() ==> (#[trigger] orders[i])@.participant_id != (
                #[trigger] orders[j])@.participant_id
            &&& forall|i: int|
                0 <= i < orders.len() ==> #[trigger] order_failure(config, before, orders, i) is None
            &&& sum_base(before) <= i128::MAX
            &&& sum_quote(before) <= i128::MAX
            &&& sum_base(before) + (buys - sells) * config.lot() <= i128::MAX
            &&& sum_quote(before) - (buys - sells) * config.price() <= i128::MAX
        },
{
    lemma_count_is_filter(orders, Side::Buy);
    lemma_count_is_filter(orders, Side::Sell);
    if participants_distinct(orders) {
        assert forall|i: int, j: int| 0 <= i < j < orders.len() implies (
        #[trigger] orders[i])@.participant_id != (#[trigger] orders[j])@.participant_id by {
            assert(!repeats(orders, j));
        }
    }
}

/// A batch conserves tokens exactly where both totals can be counted, and what the pool's vaults gain is
/// what the participants together gained.
pub proof fn law_conservation_is_exact(
    before: Seq<(ParticipantId, PoolBalance)>,
    after: Seq<(ParticipantId, PoolBalance)>,
    delta: VaultDelta,
)
    ensures
        conservation(before, after, delta) <==> {
            &&& sum_base(before) <= i128::MAX && sum_quote(before) <= i128::MAX
            &&& sum_base(after) <= i128::MAX && sum_quote(after) <= i128::MAX
            &&& sum_base(after) - sum_base(before) == delta.base_atoms
            &&& sum_quote(after) - sum_quote(before) == delta.quote_atoms
        },
{
}

/// The participant that is named as ordering twice is that of the first order whose participant ordered
/// before, and the failure that is named is that of the first order that fails.
pub proof fn law_first_wrong_order_is_named(
    config: BatchConfig,
    before: Seq<(ParticipantId, PoolBalance)>,
    orders: Seq<FundedOrder>,
    i: int,
    error: LedgerError,
)
    ensures
        first_repeat(orders, i) <==> {
            &&& 0 <= i < orders.len()
            &&& exists|k: int|
                0 <= k < i && (#[trigger] orders[k])@.participant_id == orders[i]@.participant_id
            &&& forall|j: int, k: int|
                0 <= j < k < i ==> (#[trigger] orders[j])@.participant_id != (
                #[trigger] orders[k])@.participant_id
        },
        first_failure(config, before, orders, i, error) <==> {
            &&& 0 <= i < orders.len()
            &&& order_failure(config, before, orders, i) == Some(error)
            &&& forall|k: int|
                0 <= k < i ==> #[trigger] order_failure(config, before, orders, k) is None
        },
{
    if first_repeat(orders, i) {
        assert(repeats(orders, i));
        let k = choose|k: int|
            0 <= k < i && #[trigger] orders[k]@.participant_id == orders[i]@.participant_id;
        assert(orders[k]@.participant_id == orders[i]@.participant_id);
        assert forall|j: int, k: int| 0 <= j < k < i implies (
        #[trigger] orders[j])@.participant_id != (#[trigger] orders[k])@.participant_id by {
            assert(!repeats(orders, k));
        }
    }
}

} // verus!
