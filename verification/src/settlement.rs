//! Settling a locked batch: what it comes to, and the keyper's signature over it.

use crate::bytes::{append, is_zero, read_array, same_array, zeros};
use crate::codec::{views, Entry};
use crate::commitment::{leaf_contents, root_of, root_of_leaves, CommitmentDomain};
use crate::crypto::{
    intent_message, law_signed_intent_round_trip, signed_intent_bytes, EncryptedSubmissionV1,
    SignedIntentV1, SubmissionFields,
};
use crate::domain::{intent_valid, IntentFields, Side};
use crate::hash::{digest_of, sha256};
use crate::idmap::{
    has_id, ids_sorted, lemma_entries_determined, lemma_insertable, value_of, IdMap,
};
use crate::intents::{
    intent_of, intents_root, intents_view, recover_intent, recovered_intent,
    recovered_intents_root,
};
use crate::ledger::{
    balance_after, balances_left, batch_accepted, count_side, law_batch_conserves_tokens,
    lemma_balances_left, lemma_count_bound, lemma_count_prefix, lemma_sums_insert, net_batch,
    net_lots, order_failure, order_of, ordered, repeats, residual_of, sum_base, sum_quote,
    BatchConfig, FundedOrder, OrderTerms, PoolBalance, Residual,
};
use crate::lock::{
    holders_distinct, law_locked_members_are_distinct, locked_as_open, locked_refusal,
    ConfirmedLock, LockPackageV1, LockedFields, PackageFields, MAX_BATCH_MEMBERS,
};
use crate::program::SettlementPayloadV1;
use crate::shares::{
    opened_by, share_refusal, shares_usable, ReleasedFields, ReleasedShareV1,
};
use crate::signing::{ed25519_key, ed25519_verifies, VerifyingKey};
use crate::snapshot::{BalanceFields, BalanceRecordV1};
use crate::threshold::{opened, share_verifies};
use vstd::bytes::{
    lemma_auto_spec_u64_to_from_le_bytes, spec_u32_to_le_bytes, spec_u64_to_le_bytes,
    u32_to_le_bytes, u64_from_le_bytes, u64_to_le_bytes,
};
use vstd::prelude::*;
use vstd::slice::slice_subrange;
use vstd::string::*;
use vstd::utf8::encode_utf8;

verus! {

/// Why a settlement is refused.
#[derive(Clone, Copy, Debug, PartialEq, Eq, Structural)]
pub enum SettlementValidationError {
    InvalidLock,
    InvalidBatch,
    InvalidBalance,
    InvalidResult,
    InvalidNonce,
    WrongKeyper,
    MemberLimitExceeded,
}

/// What a participant holds after a batch.
#[derive(Clone, Copy, PartialEq, Eq)]
pub struct SettlementBalanceV1 {
    pub participant_id: [u8; 32],
    pub base_atoms: u64,
    pub quote_atoms: u64,
}

impl View for SettlementBalanceV1 {
    type V = SettlementBalanceV1;

    open spec fn view(&self) -> SettlementBalanceV1 {
        *self
    }
}

/// The wire form of a balance after a batch.
pub open spec fn settlement_balance_bytes(balance: SettlementBalanceV1) -> Seq<u8> {
    balance.participant_id@ + spec_u64_to_le_bytes(balance.base_atoms) + spec_u64_to_le_bytes(
        balance.quote_atoms,
    )
}

impl SettlementBalanceV1 {
    /// The wire form.
    pub fn encode(&self) -> (bytes: Vec<u8>)
        ensures
            bytes@ == settlement_balance_bytes(*self),
    {
        let mut out: Vec<u8> = Vec::new();
        append(&mut out, self.participant_id.as_slice());
        append(&mut out, u64_to_le_bytes(self.base_atoms).as_slice());
        append(&mut out, u64_to_le_bytes(self.quote_atoms).as_slice());
        assert(out@ =~= settlement_balance_bytes(*self));
        out
    }

    /// Reads a wire form, which is any byte string of its width.
    pub fn decode(bytes: &[u8]) -> (balance: Self)
        requires
            bytes@.len() == 48,
        ensures
            bytes@ == settlement_balance_bytes(balance),
    {
        let balance = SettlementBalanceV1 {
            participant_id: read_array::<32>(bytes, 0),
            base_atoms: u64_from_le_bytes(slice_subrange(bytes, 32, 40)),
            quote_atoms: u64_from_le_bytes(slice_subrange(bytes, 40, 48)),
        };
        proof {
            lemma_auto_spec_u64_to_from_le_bytes();
            assert(bytes@ =~= settlement_balance_bytes(balance));
        }
        balance
    }
}

impl Entry for SettlementBalanceV1 {
    open spec fn width() -> nat {
        48
    }

    open spec fn valid(value: SettlementBalanceV1) -> bool {
        true
    }

    open spec fn encoded(value: SettlementBalanceV1) -> Seq<u8> {
        settlement_balance_bytes(value)
    }

    proof fn lemma_encoded(a: SettlementBalanceV1, b: SettlementBalanceV1) {
        lemma_auto_spec_u64_to_from_le_bytes();
        let x = settlement_balance_bytes(a);
        let y = settlement_balance_bytes(b);
        if x == y {
            assert(x.subrange(0, 32) =~= a.participant_id@);
            assert(y.subrange(0, 32) =~= b.participant_id@);
            assert(x.subrange(32, 40) =~= spec_u64_to_le_bytes(a.base_atoms));
            assert(y.subrange(32, 40) =~= spec_u64_to_le_bytes(b.base_atoms));
            assert(x.subrange(40, 48) =~= spec_u64_to_le_bytes(a.quote_atoms));
            assert(y.subrange(40, 48) =~= spec_u64_to_le_bytes(b.quote_atoms));
            assert(a.participant_id =~= b.participant_id);
        }
    }

    fn size() -> (size: usize) {
        48
    }

    fn parse(bytes: &[u8]) -> (record: Option<Self>) {
        Some(SettlementBalanceV1::decode(bytes))
    }

    fn write(&self, out: &mut Vec<u8>) {
        let encoded = self.encode();
        append(out, encoded.as_slice());
    }
}

/// The two shares that open one member.
pub struct EvidenceFields {
    pub first: ReleasedFields,
    pub second: ReleasedFields,
}

/// The two shares that open one member, of two keypers.
#[derive(Clone, Copy, PartialEq, Eq)]
pub struct DecryptionEvidenceV1 {
    first: ReleasedShareV1,
    second: ReleasedShareV1,
}

impl View for DecryptionEvidenceV1 {
    type V = EvidenceFields;

    closed spec fn view(&self) -> EvidenceFields {
        EvidenceFields { first: self.first@, second: self.second@ }
    }
}

impl DecryptionEvidenceV1 {
    /// The two keypers differ.
    pub open spec fn wf(&self) -> bool {
        self@.first.index != self@.second.index
    }

    /// The evidence of two shares; two shares of one keyper are refused.
    pub fn new(first: ReleasedShareV1, second: ReleasedShareV1) -> (evidence: Result<
        Self,
        SettlementValidationError,
    >)
        ensures
            match evidence {
                Ok(evidence) => evidence.wf() && evidence@ == (EvidenceFields {
                    first: first@,
                    second: second@,
                }),
                Err(error) => error == SettlementValidationError::InvalidBatch
                    && first@.index == second@.index,
            },
    {
        if first.index() == second.index() {
            return Err(SettlementValidationError::InvalidBatch);
        }
        Ok(DecryptionEvidenceV1 { first, second })
    }

    pub fn first(&self) -> (share: &ReleasedShareV1)
        ensures
            share@ == self@.first,
    {
        &self.first
    }

    pub fn second(&self) -> (share: &ReleasedShareV1)
        ensures
            share@ == self@.second,
    {
        &self.second
    }
}

/// Whether a share was released under a lock.
pub open spec fn released_under(share: ReleasedFields, locked: LockedFields) -> bool {
    share.epoch_account == locked.epoch_account && share.lock_digest == locked.state.lock_digest
}

/// The order that evidence reveals of a member, where its shares were released under the lock.
pub open spec fn revealed(
    package: PackageFields,
    evidence: Seq<EvidenceFields>,
    locked: LockedFields,
    i: int,
) -> Option<(IntentFields, [u8; 64])> {
    if released_under(evidence[i].first, locked) && released_under(evidence[i].second, locked) {
        recovered_intent(
            package.keys,
            package.submissions[i],
            seq![evidence[i].first, evidence[i].second],
        )
    } else {
        None
    }
}

/// Whether evidence reveals an order of every member.
pub open spec fn all_revealed(
    package: PackageFields,
    evidence: Seq<EvidenceFields>,
    locked: LockedFields,
) -> bool {
    forall|i: int|
        0 <= i < package.submissions.len() ==> #[trigger] revealed(
            package,
            evidence,
            locked,
            i,
        ) is Some
}

/// The orders that evidence reveals.
pub open spec fn revealed_intents(
    package: PackageFields,
    evidence: Seq<EvidenceFields>,
    locked: LockedFields,
) -> Seq<(IntentFields, [u8; 64])> {
    Seq::new(
        package.submissions.len(),
        |i: int| revealed(package, evidence, locked, i).unwrap(),
    )
}

/// Whether an order is of the participant of a submission, for the epoch, and signed by the trading
/// key of the submission.
pub open spec fn signed_by(
    submission: SubmissionFields,
    epoch_id: [u8; 32],
    signed: (IntentFields, [u8; 64]),
) -> bool {
    &&& submission.authorization.participant_id == signed.0.participant_id
    &&& signed.0.epoch_id == epoch_id
    &&& ed25519_key(submission.authorization.trading_key@)
    &&& ed25519_verifies(
        submission.authorization.trading_key@,
        intent_message(signed.0),
        signed.1@,
    )
}

/// Whether an order is signed by one of the members.
pub open spec fn signed_by_member(
    submissions: Seq<SubmissionFields>,
    epoch_id: [u8; 32],
    signed: (IntentFields, [u8; 64]),
) -> bool {
    exists|k: int|
        0 <= k < submissions.len() && signed_by(#[trigger] submissions[k], epoch_id, signed)
}

/// Whether an earlier order is of the same participant.
pub open spec fn order_repeats(intents: Seq<(IntentFields, [u8; 64])>, i: int) -> bool {
    exists|k: int|
        0 <= k < i && (#[trigger] intents[k]).0.participant_id == intents[i].0.participant_id
}

/// Whether every order is signed by a member, and no participant has two.
pub open spec fn orders_signed(
    submissions: Seq<SubmissionFields>,
    epoch_id: [u8; 32],
    intents: Seq<(IntentFields, [u8; 64])>,
) -> bool {
    forall|i: int|
        0 <= i < intents.len() ==> signed_by_member(submissions, epoch_id, #[trigger] intents[i])
            && !order_repeats(intents, i)
}

/// The order of a revealed intent.
pub open spec fn order_terms(signed: (IntentFields, [u8; 64])) -> OrderTerms {
    OrderTerms {
        participant_id: signed.0.participant_id,
        side: signed.0.side,
        limit_price: signed.0.limit_price,
    }
}

/// The orders of revealed intents.
pub open spec fn orders_of(intents: Seq<(IntentFields, [u8; 64])>) -> Seq<FundedOrder> {
    intents.map_values(|signed: (IntentFields, [u8; 64])| FundedOrder::of(order_terms(signed)))
}

/// Whether a participant has a balance.
pub open spec fn is_held(balances: Seq<BalanceFields>, id: [u8; 32]) -> bool {
    exists|k: int| 0 <= k < balances.len() && (#[trigger] balances[k]).participant_id == id
}

/// Where a participant's balance stands.
pub open spec fn holder(balances: Seq<BalanceFields>, id: [u8; 32]) -> int {
    choose|k: int| 0 <= k < balances.len() && (#[trigger] balances[k]).participant_id == id
}

/// The balance that a participant has, where they have one.
pub open spec fn held(balances: Seq<BalanceFields>, id: [u8; 32]) -> Option<PoolBalance> {
    if is_held(balances, id) {
        Some(
            PoolBalance {
                base_atoms: balances[holder(balances, id)].base_atoms,
                quote_atoms: balances[holder(balances, id)].quote_atoms,
            },
        )
    } else {
        None
    }
}

/// Whether entries are the balances of a list, in the order of their participants.
pub open spec fn lists_balances(
    entries: Seq<([u8; 32], PoolBalance)>,
    balances: Seq<BalanceFields>,
) -> bool {
    ids_sorted(entries) && forall|id: [u8; 32]| #[trigger]
        value_of(entries, id) == held(balances, id)
}

/// The balances of a list, in the order of their participants.
pub open spec fn balances_before(balances: Seq<BalanceFields>) -> Seq<([u8; 32], PoolBalance)> {
    choose|entries: Seq<([u8; 32], PoolBalance)>| #[trigger] lists_balances(entries, balances)
}

/// The balances that a batch leaves, as a settlement lists them.
pub open spec fn listed(entries: Seq<([u8; 32], PoolBalance)>) -> Seq<SettlementBalanceV1> {
    entries.map_values(
        |entry: ([u8; 32], PoolBalance)|
            SettlementBalanceV1 {
                participant_id: entry.0,
                base_atoms: entry.1.base_atoms,
                quote_atoms: entry.1.quote_atoms,
            },
    )
}

/// The root of the balances after a batch.
pub open spec fn post_root_of(balances: Seq<SettlementBalanceV1>) -> Option<[u8; 32]> {
    match root_of(
        CommitmentDomain::BalanceSet,
        balances.map_values(|balance: SettlementBalanceV1| settlement_balance_bytes(balance)),
    ) {
        Ok(root) => Some(root),
        Err(_) => None,
    }
}

/// What a batch did to one participant, as a leaf.
pub open spec fn result_leaf(before: PoolBalance, after: SettlementBalanceV1) -> Seq<u8> {
    after.participant_id@ + spec_u64_to_le_bytes(before.base_atoms) + spec_u64_to_le_bytes(
        before.quote_atoms,
    ) + spec_u64_to_le_bytes(after.base_atoms) + spec_u64_to_le_bytes(after.quote_atoms)
}

/// The root of what a batch did to each participant.
pub open spec fn result_root_of(
    before: Seq<([u8; 32], PoolBalance)>,
    after: Seq<SettlementBalanceV1>,
) -> Option<[u8; 32]> {
    match root_of(
        CommitmentDomain::ResultSet,
        after.map_values(
            |balance: SettlementBalanceV1|
                result_leaf(value_of(before, balance.participant_id).unwrap(), balance),
        ),
    ) {
        Ok(root) => Some(root),
        Err(_) => None,
    }
}

/// The side and the lots of a residual, as numbers.
pub open spec fn residual_code(residual: Residual) -> (u8, u32) {
    match residual {
        Residual::Balanced => (0, 0),
        Residual::Buy { lots } => (1, lots),
        Residual::Sell { lots } => (2, lots),
    }
}

/// The side and the lots of a residual, as numbers.
pub fn residual_wire(residual: Residual) -> (code: (u8, u32))
    ensures
        code == residual_code(residual),
{
    match residual {
        Residual::Balanced => (0, 0),
        Residual::Buy { lots } => (1, lots),
        Residual::Sell { lots } => (2, lots),
    }
}

/// The residual that two numbers stand for, where they stand for one.
pub open spec fn residual_from(side: u8, lots: u32) -> Option<Residual> {
    if side == 0 && lots == 0 {
        Some(Residual::Balanced)
    } else if side == 1 && lots > 0 {
        Some(Residual::Buy { lots })
    } else if side == 2 && lots > 0 {
        Some(Residual::Sell { lots })
    } else {
        None
    }
}

/// The residual that two numbers stand for.
pub fn read_residual(side: u8, lots: u32) -> (residual: Option<Residual>)
    ensures
        residual == residual_from(side, lots),
{
    if side == 0 && lots == 0 {
        Some(Residual::Balanced)
    } else if side == 1 && lots > 0 {
        Some(Residual::Buy { lots })
    } else if side == 2 && lots > 0 {
        Some(Residual::Sell { lots })
    } else {
        None
    }
}

/// The numbers of a residual are those of the program: zero for none, one for a buy and two for a sell,
/// with the lots beside them, and they read back as the residual; numbers that are none of a residual
/// read as nothing.
pub proof fn law_residual_numbers_read_back(residual: Residual, lots: u32, side: u8)
    ensures
        residual_code(Residual::Balanced) == (0u8, 0u32),
        residual_code(Residual::Buy { lots }) == (1u8, lots),
        residual_code(Residual::Sell { lots }) == (2u8, lots),
        residual matches Residual::Buy { lots: k } ==> k > 0 ==> residual_from(1, k) == Some(residual),
        residual matches Residual::Sell { lots: k } ==> k > 0 ==> residual_from(2, k) == Some(
            residual,
        ),
        residual_from(0, 0) == Some(Residual::Balanced),
        residual_from(residual_code(residual).0, residual_code(residual).1) == Some(residual) || (
        residual != Residual::Balanced && residual_code(residual).1 == 0),
        residual_from(side, lots) matches Some(read) ==> residual_code(read) == (side, lots),
        residual_from(side, lots) is None <==> side > 2 || (side == 0 && lots != 0) || (side != 0
            && lots == 0),
{
}

/// What a settlement commits to.
pub open spec fn commitment_of(
    locked: LockedFields,
    recovered_root: [u8; 32],
    pre_balance_root: [u8; 32],
    post_balance_root: [u8; 32],
    residual: Residual,
    result_root: [u8; 32],
) -> [u8; 32] {
    sha256(
        encode_utf8("KAGEB_RESULT_COMMITMENT_V1\0"@) + locked.epoch_account@
            + locked.state.lock_digest@ + recovered_root@ + pre_balance_root@ + post_balance_root@
            + seq![residual_code(residual).0] + spec_u32_to_le_bytes(residual_code(residual).1)
            + result_root@,
    )
}

/// What a settlement comes to.
pub struct SettlementFields {
    pub intents: Seq<(IntentFields, [u8; 64])>,
    pub post_balances: Seq<SettlementBalanceV1>,
    pub pre_balance_root: [u8; 32],
    pub post_balance_root: [u8; 32],
    pub residual: Residual,
    pub result_root: [u8; 32],
    pub result_commitment: [u8; 32],
    pub payload: SettlementPayloadV1,
}

/// What keypers sign to settle a locked epoch.
pub open spec fn payload_of(
    locked: LockedFields,
    result_commitment: [u8; 32],
    residual: Residual,
    settlement_nonce: [u8; 32],
) -> SettlementPayloadV1 {
    let pool = locked.pool.unwrap();
    SettlementPayloadV1 {
        epoch_account: locked.epoch_account,
        lock_digest: locked.state.lock_digest,
        result_commitment,
        residual_side: residual_code(residual).0,
        residual_lots: residual_code(residual).1,
        base_lot_atoms: locked.state.base_lot_atoms,
        quote_atoms_per_lot: locked.state.quote_atoms_per_lot,
        base_mint: pool.base_mint,
        quote_mint: pool.quote_mint,
        pool_base_vault: pool.pool_base_vault,
        pool_quote_vault: pool.pool_quote_vault,
        venue_base_account: pool.venue_base_account,
        venue_quote_account: pool.venue_quote_account,
        venue_authority: pool.venue_authority,
        settlement_nonce,
    }
}

/// The balances that settling a package leaves.
pub open spec fn post_balances_of(
    package: PackageFields,
    intents: Seq<(IntentFields, [u8; 64])>,
) -> Seq<SettlementBalanceV1> {
    listed(
        balances_left(
            BatchConfig::of(
                package.configuration.base_lot_atoms,
                package.configuration.quote_atoms_per_lot,
            ),
            balances_before(package.balances),
            orders_of(intents),
        ),
    )
}

/// What settling a locked package comes to, or why it is refused. The lock is tested first, then the
/// nonce, then the shares and the orders, then the batch itself, then the roots.
pub open spec fn settlement_of(
    package: PackageFields,
    evidence: Seq<EvidenceFields>,
    settlement_nonce: [u8; 32],
    locked: LockedFields,
    lock_digest: [u8; 32],
) -> Result<SettlementFields, SettlementValidationError> {
    let intents = revealed_intents(package, evidence, locked);
    let before = balances_before(package.balances);
    let config = BatchConfig::of(
        package.configuration.base_lot_atoms,
        package.configuration.quote_atoms_per_lot,
    );
    let post = post_balances_of(package, intents);
    let residual = residual_of(net_lots(orders_of(intents)));
    if locked_refusal(package, locked, lock_digest) is Some {
        Err(SettlementValidationError::InvalidLock)
    } else if settlement_nonce@ == zeros(32) || settlement_nonce == locked.state.lock_nonce {
        Err(SettlementValidationError::InvalidNonce)
    } else if evidence.len() != package.submissions.len() || !all_revealed(
        package,
        evidence,
        locked,
    ) || !orders_signed(package.submissions, package.configuration.epoch_id, intents)
        || !batch_accepted(config, before, orders_of(intents)) {
        Err(SettlementValidationError::InvalidBatch)
    } else {
        match (post_root_of(post), result_root_of(before, post)) {
            (None, _) => Err(SettlementValidationError::InvalidBalance),
            (_, None) => Err(SettlementValidationError::InvalidResult),
            (Some(post_balance_root), Some(result_root)) => {
                let result_commitment = commitment_of(
                    locked,
                    intents_root(intents),
                    package.pre_balance_root,
                    post_balance_root,
                    residual,
                    result_root,
                );
                Ok(
                    SettlementFields {
                        intents,
                        post_balances: post,
                        pre_balance_root: package.pre_balance_root,
                        post_balance_root,
                        residual,
                        result_root,
                        result_commitment,
                        payload: payload_of(
                            locked,
                            result_commitment,
                            residual,
                            settlement_nonce,
                        ),
                    },
                )
            },
        }
    }
}

proof fn lemma_held_next(balances: Seq<BalanceFields>, n: int, id: [u8; 32])
    requires
        holders_distinct(balances),
        0 <= n < balances.len(),
    ensures
        held(balances.take(n + 1), id) == (if balances[n].participant_id == id {
            Some(
                PoolBalance {
                    base_atoms: balances[n].base_atoms,
                    quote_atoms: balances[n].quote_atoms,
                },
            )
        } else {
            held(balances.take(n), id)
        }),
{
    let next = balances.take(n + 1);
    let done = balances.take(n);
    if balances[n].participant_id == id {
        assert(next[n].participant_id == id);
        let k = holder(next, id);
        assert(next[k].participant_id == id);
        if k < n {
            assert(balances[k].participant_id != balances[n].participant_id);
        }
    } else {
        if is_held(next, id) {
            let k = holder(next, id);
            assert(done[k].participant_id == id);
            let m = holder(done, id);
            assert(done[m].participant_id == id);
            if k < m {
                assert(balances[k].participant_id != balances[m].participant_id);
            } else if m < k {
                assert(balances[m].participant_id != balances[k].participant_id);
            }
        }
        if is_held(done, id) {
            let m = holder(done, id);
            assert(next[m].participant_id == id);
        }
    }
}

/// The base atoms that balances hold together.
pub open spec fn base_held(balances: Seq<BalanceFields>) -> int
    decreases balances.len(),
{
    if balances.len() == 0 {
        0
    } else {
        base_held(balances.drop_last()) + balances.last().base_atoms
    }
}

/// The quote atoms that balances hold together.
pub open spec fn quote_held(balances: Seq<BalanceFields>) -> int
    decreases balances.len(),
{
    if balances.len() == 0 {
        0
    } else {
        quote_held(balances.drop_last()) + balances.last().quote_atoms
    }
}

/// The base atoms that the balances of a settlement hold together.
pub open spec fn base_left(balances: Seq<SettlementBalanceV1>) -> int
    decreases balances.len(),
{
    if balances.len() == 0 {
        0
    } else {
        base_left(balances.drop_last()) + balances.last().base_atoms
    }
}

/// The quote atoms that the balances of a settlement hold together.
pub open spec fn quote_left(balances: Seq<SettlementBalanceV1>) -> int
    decreases balances.len(),
{
    if balances.len() == 0 {
        0
    } else {
        quote_left(balances.drop_last()) + balances.last().quote_atoms
    }
}

proof fn lemma_listed_sums(entries: Seq<([u8; 32], PoolBalance)>)
    ensures
        base_left(listed(entries)) == sum_base(entries),
        quote_left(listed(entries)) == sum_quote(entries),
    decreases entries.len(),
{
    if entries.len() > 0 {
        lemma_listed_sums(entries.drop_last());
        assert(listed(entries).drop_last() =~= listed(entries.drop_last()));
    }
}

proof fn lemma_listing(balances: Seq<BalanceFields>) -> (entries: Seq<([u8; 32], PoolBalance)>)
    requires
        holders_distinct(balances),
    ensures
        lists_balances(entries, balances),
        sum_base(entries) == base_held(balances),
        sum_quote(entries) == quote_held(balances),
    decreases balances.len(),
{
    if balances.len() == 0 {
        let entries = Seq::<([u8; 32], PoolBalance)>::empty();
        assert forall|id: [u8; 32]| #[trigger] value_of(entries, id) == held(balances, id) by {
            assert(!has_id(entries, id));
            assert(!is_held(balances, id));
        }
        entries
    } else {
        let n = balances.len() - 1;
        let rest = balances.drop_last();
        assert forall|i: int, j: int| 0 <= i < j < rest.len() implies (
        #[trigger] rest[i]).participant_id != (#[trigger] rest[j]).participant_id by {
            assert(balances[i].participant_id != balances[j].participant_id);
        }
        let before = lemma_listing(rest);
        let last = balances.last();
        let id = last.participant_id;
        let value = PoolBalance { base_atoms: last.base_atoms, quote_atoms: last.quote_atoms };
        if is_held(rest, id) {
            let k = holder(rest, id);
            assert(balances[k].participant_id != balances[n].participant_id);
        }
        assert(value_of(before, id) == held(rest, id));
        let at = lemma_insertable(before, id, value);
        let entries = before.insert(at, (id, value));
        lemma_sums_insert(before, at, (id, value));
        assert(balances.take(n) =~= rest);
        assert(balances.take(n + 1) =~= balances);
        assert forall|k: [u8; 32]| #[trigger] value_of(entries, k) == held(balances, k) by {
            lemma_held_next(balances, n, k);
            assert(value_of(before, k) == held(rest, k));
        }
        entries
    }
}

/// Balances of distinct holders can be listed, and the list holds what they hold.
pub proof fn lemma_balances_before(balances: Seq<BalanceFields>)
    requires
        holders_distinct(balances),
    ensures
        lists_balances(balances_before(balances), balances),
        sum_base(balances_before(balances)) == base_held(balances),
        sum_quote(balances_before(balances)) == quote_held(balances),
{
    let entries = lemma_listing(balances);
    let chosen = balances_before(balances);
    assert(lists_balances(chosen, balances));
    assert forall|id: [u8; 32]| value_of(entries, id) == value_of(chosen, id) by {
        assert(value_of(entries, id) == held(balances, id));
        assert(value_of(chosen, id) == held(balances, id));
    }
    lemma_entries_determined(entries, chosen);
}

/// A settlement conserves tokens: together the members hold what they held before it, and a lot for
/// every unmatched buy, less one for every unmatched sell, against its price.
pub proof fn law_settlement_conserves_tokens(
    package: PackageFields,
    evidence: Seq<EvidenceFields>,
    settlement_nonce: [u8; 32],
    locked: LockedFields,
    lock_digest: [u8; 32],
)
    requires
        settlement_of(package, evidence, settlement_nonce, locked, lock_digest) is Ok,
    ensures
        ({
            let settlement = settlement_of(
                package,
                evidence,
                settlement_nonce,
                locked,
                lock_digest,
            ).unwrap();
            let net = net_lots(orders_of(settlement.intents));
            &&& settlement.residual == residual_of(net)
            &&& base_left(settlement.post_balances) == base_held(package.balances) + net
                * package.configuration.base_lot_atoms
            &&& quote_left(settlement.post_balances) == quote_held(package.balances) - net
                * package.configuration.quote_atoms_per_lot
        }),
{
    let intents = revealed_intents(package, evidence, locked);
    let before = balances_before(package.balances);
    let config = BatchConfig::of(
        package.configuration.base_lot_atoms,
        package.configuration.quote_atoms_per_lot,
    );
    lemma_locked_members(package, locked, lock_digest);
    lemma_balances_before(package.balances);
    BatchConfig::lemma_of_parts(
        package.configuration.base_lot_atoms,
        package.configuration.quote_atoms_per_lot,
    );
    law_batch_conserves_tokens(config, before, orders_of(intents));
    lemma_listed_sums(balances_left(config, before, orders_of(intents)));
}

proof fn lemma_sides_counted(intents: Seq<(IntentFields, [u8; 64])>, side: Side)
    ensures
        count_side(orders_of(intents), side, intents.len() as int) == intents.filter(
            |signed: (IntentFields, [u8; 64])| signed.0.side == side,
        ).len(),
    decreases intents.len(),
{
    reveal(Seq::filter);
    if intents.len() > 0 {
        let rest = intents.drop_last();
        let n = rest.len() as int;
        lemma_sides_counted(rest, side);
        assert(orders_of(intents).drop_last() =~= orders_of(rest));
        lemma_count_prefix(orders_of(intents), orders_of(rest), side, n);
        FundedOrder::lemma_of_terms(order_terms(intents[n]));
        assert(orders_of(intents)[n] == FundedOrder::of(order_terms(intents[n])));
    }
}

/// The terms that keypers sign name the unmatched lots of the recovered orders: with more buys than
/// sells, side one and the surplus of buys; with more sells, side two and the surplus of sells; with as
/// many of both, zero and zero.
pub proof fn law_settlement_terms_name_the_unmatched_lots(
    package: PackageFields,
    evidence: Seq<EvidenceFields>,
    settlement_nonce: [u8; 32],
    locked: LockedFields,
    lock_digest: [u8; 32],
)
    requires
        settlement_of(package, evidence, settlement_nonce, locked, lock_digest) is Ok,
    ensures
        ({
            let settlement = settlement_of(
                package,
                evidence,
                settlement_nonce,
                locked,
                lock_digest,
            ).unwrap();
            let buys = settlement.intents.filter(
                |signed: (IntentFields, [u8; 64])| signed.0.side == Side::Buy,
            ).len();
            let sells = settlement.intents.filter(
                |signed: (IntentFields, [u8; 64])| signed.0.side == Side::Sell,
            ).len();
            let payload = settlement.payload;
            if buys > sells {
                &&& settlement.residual matches Residual::Buy { lots } && lots == buys - sells
                &&& payload.residual_side == 1
                &&& payload.residual_lots == buys - sells
            } else if sells > buys {
                &&& settlement.residual matches Residual::Sell { lots } && lots == sells - buys
                &&& payload.residual_side == 2
                &&& payload.residual_lots == sells - buys
            } else {
                &&& settlement.residual == Residual::Balanced
                &&& payload.residual_side == 0
                &&& payload.residual_lots == 0
            }
        }),
{
    let intents = revealed_intents(package, evidence, locked);
    let n = intents.len() as int;
    lemma_locked_members(package, locked, lock_digest);
    lemma_sides_counted(intents, Side::Buy);
    lemma_sides_counted(intents, Side::Sell);
    lemma_count_bound(orders_of(intents), Side::Buy, n);
    lemma_count_bound(orders_of(intents), Side::Sell, n);
}

/// The orders of a settlement are those that the two shares of each member open: shares of two keypers,
/// released for this epoch and this lock, each matching the ciphertext; and each order is of the epoch,
/// of a member, and signed by that member's trading key, none of whom orders twice.
pub proof fn law_settled_orders_are_the_opened_ones(
    package: PackageFields,
    evidence: Seq<EvidenceFields>,
    settlement_nonce: [u8; 32],
    locked: LockedFields,
    lock_digest: [u8; 32],
    i: int,
    order: (IntentFields, [u8; 64]),
)
    requires
        settlement_of(package, evidence, settlement_nonce, locked, lock_digest) is Ok,
        0 <= i < package.submissions.len(),
        intent_valid(order.0),
        opened(
            package.keys,
            evidence[i].first.index,
            evidence[i].first.share@,
            evidence[i].second.index,
            evidence[i].second.share@,
            package.submissions[i].ciphertext,
        ) == Some(signed_intent_bytes(order.0, order.1)),
    ensures
        evidence.len() == package.submissions.len(),
        ({
            let settlement = settlement_of(
                package,
                evidence,
                settlement_nonce,
                locked,
                lock_digest,
            ).unwrap();
            let ciphertext = package.submissions[i].ciphertext;
            let first = evidence[i].first;
            let second = evidence[i].second;
            &&& settlement.intents.len() == package.submissions.len()
            &&& settlement.intents[i] == order
            &&& first.index != second.index
            &&& first.epoch_account == locked.epoch_account
            &&& second.epoch_account == locked.epoch_account
            &&& first.lock_digest == locked.state.lock_digest
            &&& second.lock_digest == locked.state.lock_digest
            &&& first.ciphertext_hash == sha256(ciphertext)
            &&& second.ciphertext_hash == sha256(ciphertext)
            &&& share_verifies(package.keys, first.index, first.share@, ciphertext)
            &&& share_verifies(package.keys, second.index, second.share@, ciphertext)
            &&& order.0.epoch_id == package.configuration.epoch_id
            &&& order.0.lots == 1
            &&& exists|k: int|
                0 <= k < package.submissions.len() && (
                #[trigger] package.submissions[k]).authorization.participant_id
                    == order.0.participant_id && ed25519_verifies(
                    package.submissions[k].authorization.trading_key@,
                    intent_message(order.0),
                    order.1@,
                )
            &&& forall|j: int|
                0 <= j < settlement.intents.len() && j != i ==> (
                #[trigger] settlement.intents[j]).0.participant_id != order.0.participant_id
        }),
{
    let intents = revealed_intents(package, evidence, locked);
    let shares = seq![evidence[i].first, evidence[i].second];
    let ciphertext = package.submissions[i].ciphertext;
    assert(revealed(package, evidence, locked, i) is Some);
    assert(shares_usable(package.keys, ciphertext, shares));
    assert(share_refusal(package.keys, ciphertext, shares, 0) is None);
    assert(share_refusal(package.keys, ciphertext, shares, 1) is None);
    assert(shares[0].index != shares[1].index);
    assert(shares[0].ciphertext_hash == sha256(ciphertext));
    assert(shares[1].ciphertext_hash == sha256(ciphertext));
    let plaintext = opened_by(package.keys, ciphertext, shares).unwrap();
    let chosen = intent_of(plaintext);
    assert(intent_valid(chosen.0) && plaintext == signed_intent_bytes(chosen.0, chosen.1));
    law_signed_intent_round_trip(order.0, order.1, chosen.0, chosen.1);
    assert(intents[i] == order);
    assert(signed_by_member(package.submissions, package.configuration.epoch_id, intents[i]));
    assert forall|j: int| 0 <= j < intents.len() && j != i implies (
    #[trigger] intents[j]).0.participant_id != intents[i].0.participant_id by {
        assert(!order_repeats(intents, i));
        assert(signed_by_member(package.submissions, package.configuration.epoch_id, intents[j])
            && !order_repeats(intents, j));
    }
}

/// A settlement fills every recovered order once, for one lot at the epoch's price and within its limit:
/// a buyer's balance gains the lot and loses the price, a seller's loses the lot and gains the price.
pub proof fn law_settlement_fills_every_order(
    package: PackageFields,
    evidence: Seq<EvidenceFields>,
    settlement_nonce: [u8; 32],
    locked: LockedFields,
    lock_digest: [u8; 32],
    i: int,
    k: int,
    j: int,
)
    requires
        settlement_of(package, evidence, settlement_nonce, locked, lock_digest) is Ok,
        0 <= i < package.submissions.len(),
        0 <= k < package.balances.len(),
        ({
            let settlement = settlement_of(
                package,
                evidence,
                settlement_nonce,
                locked,
                lock_digest,
            ).unwrap();
            &&& 0 <= j < settlement.post_balances.len()
            &&& package.balances[k].participant_id == settlement.intents[i].0.participant_id
            &&& settlement.post_balances[j].participant_id
                == settlement.intents[i].0.participant_id
        }),
    ensures
        ({
            let settlement = settlement_of(
                package,
                evidence,
                settlement_nonce,
                locked,
                lock_digest,
            ).unwrap();
            let order = settlement.intents[i].0;
            let lot = package.configuration.base_lot_atoms;
            let price = package.configuration.quote_atoms_per_lot;
            let held = package.balances[k];
            let left = settlement.post_balances[j];
            match order.side {
                Side::Buy => price <= order.limit_price && left.base_atoms == held.base_atoms + lot
                    && left.quote_atoms + price == held.quote_atoms,
                Side::Sell => price >= order.limit_price && left.base_atoms + lot
                    == held.base_atoms && left.quote_atoms == held.quote_atoms + price,
            }
        }),
{
    let intents = revealed_intents(package, evidence, locked);
    let orders = orders_of(intents);
    let n = orders.len() as int;
    let before = balances_before(package.balances);
    let config = BatchConfig::of(
        package.configuration.base_lot_atoms,
        package.configuration.quote_atoms_per_lot,
    );
    BatchConfig::lemma_of_parts(
        package.configuration.base_lot_atoms,
        package.configuration.quote_atoms_per_lot,
    );
    lemma_locked_members(package, locked, lock_digest);
    lemma_balances_before(package.balances);
    let id = intents[i].0.participant_id;
    FundedOrder::lemma_of_terms(order_terms(intents[i]));
    assert(orders[i] == FundedOrder::of(order_terms(intents[i])));
    assert(order_failure(config, before, orders, i) is None);
    assert(value_of(before, id) == held(package.balances, id));
    assert(package.balances[k].participant_id == id);
    let m = holder(package.balances, id);
    assert(package.balances[m].participant_id == id);
    if m < k {
        assert(package.balances[m].participant_id != package.balances[k].participant_id);
    } else if k < m {
        assert(package.balances[k].participant_id != package.balances[m].participant_id);
    }
    assert(ordered(orders, n, id)) by {
        assert(orders[i]@.participant_id == id);
    }
    let at = order_of(orders, n, id);
    assert(orders[at]@.participant_id == id);
    if at < i {
        assert(repeats(orders, i));
    } else if i < at {
        assert(repeats(orders, at));
    }
    let left = balances_left(config, before, orders);
    assert(listed(left)[j].participant_id == left[j].0);
    assert(left[j].1 == balance_after(config, before, orders, n, before[j].0).unwrap());
}

/// A settlement leaves one balance for every balance before it, of the same participants.
pub proof fn law_settlement_keeps_the_members(
    package: PackageFields,
    evidence: Seq<EvidenceFields>,
    settlement_nonce: [u8; 32],
    locked: LockedFields,
    lock_digest: [u8; 32],
    id: [u8; 32],
)
    requires
        settlement_of(package, evidence, settlement_nonce, locked, lock_digest) is Ok,
    ensures
        ({
            let settlement = settlement_of(
                package,
                evidence,
                settlement_nonce,
                locked,
                lock_digest,
            ).unwrap();
            (exists|k: int|
                0 <= k < package.balances.len() && (#[trigger] package.balances[k]).participant_id
                    == id) <==> (exists|j: int|
                0 <= j < settlement.post_balances.len() && (
                #[trigger] settlement.post_balances[j]).participant_id == id)
        }),
        ({
            let settlement = settlement_of(
                package,
                evidence,
                settlement_nonce,
                locked,
                lock_digest,
            ).unwrap();
            forall|j: int, k: int|
                0 <= j < k < settlement.post_balances.len() ==> (
                #[trigger] settlement.post_balances[j]).participant_id != (
                #[trigger] settlement.post_balances[k]).participant_id
        }),
{
    let intents = revealed_intents(package, evidence, locked);
    let orders = orders_of(intents);
    let before = balances_before(package.balances);
    let config = BatchConfig::of(
        package.configuration.base_lot_atoms,
        package.configuration.quote_atoms_per_lot,
    );
    lemma_locked_members(package, locked, lock_digest);
    lemma_balances_before(package.balances);
    let left = balances_left(config, before, orders);
    let post = listed(left);
    assert(value_of(before, id) == held(package.balances, id));
    assert(is_held(package.balances, id) == has_id(before, id));
    if has_id(before, id) {
        let at = crate::idmap::position_of(before, id);
        assert(before[at].0 == id);
        assert(post[at].participant_id == id);
    }
    if exists|j: int| 0 <= j < post.len() && (#[trigger] post[j]).participant_id == id {
        let j = choose|j: int| 0 <= j < post.len() && (#[trigger] post[j]).participant_id == id;
        assert(before[j].0 == id);
        assert(has_id(before, id));
    }
    if is_held(package.balances, id) {
        let k = holder(package.balances, id);
        assert(package.balances[k].participant_id == id);
    }
    assert(settlement_of(package, evidence, settlement_nonce, locked, lock_digest).unwrap().post_balances
        == post);
    assert forall|j: int, k: int| 0 <= j < k < post.len() implies (
    #[trigger] post[j]).participant_id != (#[trigger] post[k]).participant_id by {
        assert(before[j].0 == post[j].participant_id && before[k].0 == post[k].participant_id);
        assert(crate::bytes::bytes_less(before[j].0@, before[k].0@));
        crate::bytes::lemma_bytes_less_irreflexive(before[j].0@);
    }
}

/// The balances of a list, in the order of their participants.
fn collect_balances(balances: &[BalanceRecordV1]) -> (entries: IdMap<PoolBalance>)
    requires
        holders_distinct(views(balances@)),
    ensures
        entries.wf(),
        entries@ == balances_before(views(balances@)),
{
    let ghost all = views(balances@);
    let mut entries: IdMap<PoolBalance> = IdMap::new();
    let mut i: usize = 0;
    proof {
        assert forall|id: [u8; 32]| #[trigger] value_of(entries@, id) == held(all.take(0), id) by {
            assert(!has_id(entries@, id));
            assert(!is_held(all.take(0), id));
        }
    }
    while i < balances.len()
        invariant
            i <= balances@.len(),
            all == views(balances@),
            holders_distinct(all),
            entries.wf(),
            forall|id: [u8; 32]| #[trigger] value_of(entries@, id) == held(all.take(i as int), id),
        decreases balances@.len() - i,
    {
        let balance = balances[i];
        assert(all[i as int] == balance@);
        let ghost before = entries@;
        entries.insert(balance.participant_id(), balance.pool_balance());
        proof {
            assert forall|id: [u8; 32]| #[trigger] value_of(entries@, id) == held(
                all.take(i + 1),
                id,
            ) by {
                lemma_held_next(all, i as int, id);
                assert(value_of(before, id) == held(all.take(i as int), id));
            }
        }
        i += 1;
    }
    proof {
        assert(all.take(i as int) =~= all);
        assert(lists_balances(entries@, all));
        let chosen = balances_before(all);
        assert(lists_balances(chosen, all));
        assert forall|id: [u8; 32]| value_of(entries@, id) == value_of(chosen, id) by {
            assert(value_of(entries@, id) == held(all, id));
            assert(value_of(chosen, id) == held(all, id));
        }
        lemma_entries_determined(entries@, chosen);
    }
    entries
}

/// Recovers the orders of all members.
fn reveal_all(
    package: &LockPackageV1,
    evidence: &[DecryptionEvidenceV1],
    confirmed: &ConfirmedLock,
) -> (recovered: Option<Vec<SignedIntentV1>>)
    requires
        package.wf(),
        evidence@.len() == package.submissions@.len(),
    ensures
        match recovered {
            Some(recovered) => {
                &&& all_revealed(package@, views(evidence@), confirmed@)
                &&& intents_view(recovered@) == revealed_intents(
                    package@,
                    views(evidence@),
                    confirmed@,
                )
                &&& forall|i: int| 0 <= i < recovered@.len() ==> (#[trigger] recovered@[i]).wf()
            },
            None => !all_revealed(package@, views(evidence@), confirmed@),
        },
{
    let ghost all = views(evidence@);
    let epoch_account = confirmed.epoch_account();
    let lock_digest = confirmed.lock_digest();
    let mut recovered: Vec<SignedIntentV1> = Vec::new();
    let mut i: usize = 0;
    while i < evidence.len()
        invariant
            i <= evidence@.len(),
            evidence@.len() == package.submissions@.len(),
            package.wf(),
            all == views(evidence@),
            epoch_account == confirmed@.epoch_account,
            lock_digest == confirmed@.state.lock_digest,
            recovered@.len() == i,
            forall|k: int| 0 <= k < i ==> (#[trigger] recovered@[k]).wf(),
            forall|k: int|
                0 <= k < i ==> #[trigger] revealed(package@, all, confirmed@, k) == Some(
                    recovered@[k]@,
                ),
        decreases evidence@.len() - i,
    {
        let pair = &evidence[i];
        assert(all[i as int] == pair@);
        let submission = &package.submissions[i];
        assert(package@.submissions[i as int] == submission@);
        let first = pair.first();
        let second = pair.second();
        if !same_array(&first.epoch_account(), &epoch_account) || !same_array(
            &first.lock_digest(),
            &lock_digest,
        ) || !same_array(&second.epoch_account(), &epoch_account) || !same_array(
            &second.lock_digest(),
            &lock_digest,
        ) {
            assert(revealed(package@, all, confirmed@, i as int) is None);
            return None;
        }
        match recover_intent(&package.epoch_public_keys, submission, first, second) {
            Some(intent) => {
                assert(revealed(package@, all, confirmed@, i as int) == Some(intent@));
                recovered.push(intent);
            },
            None => {
                assert(revealed(package@, all, confirmed@, i as int) is None);
                return None;
            },
        }
        i += 1;
    }
    proof {
        assert(intents_view(recovered@) =~= revealed_intents(package@, all, confirmed@));
    }
    Some(recovered)
}

/// The position of a participant's submission.
fn find_submission(submissions: &[EncryptedSubmissionV1], participant: &[u8; 32]) -> (position:
    Option<usize>)
    ensures
        match position {
            Some(k) => k < submissions@.len() && views(
                submissions@,
            )[k as int].authorization.participant_id == *participant,
            None => forall|k: int|
                0 <= k < submissions@.len() ==> (#[trigger] views(
                    submissions@,
                )[k]).authorization.participant_id != *participant,
        },
{
    let ghost all = views(submissions@);
    let mut k: usize = 0;
    while k < submissions.len()
        invariant
            k <= submissions@.len(),
            all == views(submissions@),
            forall|m: int|
                0 <= m < k ==> (#[trigger] all[m]).authorization.participant_id != *participant,
        decreases submissions@.len() - k,
    {
        assert(all[k as int] == submissions@[k as int]@);
        if same_array(&submissions[k].participant_id(), participant) {
            return Some(k);
        }
        k += 1;
    }
    None
}

/// Whether an earlier order is of the same participant.
fn repeats_order(recovered: &[SignedIntentV1], i: usize) -> (repeats: bool)
    requires
        i < recovered@.len(),
    ensures
        repeats == order_repeats(intents_view(recovered@), i as int),
{
    let ghost all = intents_view(recovered@);
    let participant = recovered[i].body().participant_id();
    assert(all[i as int] == recovered@[i as int]@);
    let mut k: usize = 0;
    while k < i
        invariant
            k <= i < recovered@.len(),
            all == intents_view(recovered@),
            participant == all[i as int].0.participant_id,
            forall|m: int| 0 <= m < k ==> (#[trigger] all[m]).0.participant_id != participant,
        decreases i - k,
    {
        assert(all[k as int] == recovered@[k as int]@);
        if same_array(&recovered[k].body().participant_id(), &participant) {
            assert(all[k as int].0.participant_id == all[i as int].0.participant_id);
            return true;
        }
        k += 1;
    }
    false
}

/// Makes the orders of revealed intents, each of which a member must have signed.
fn check_orders(
    submissions: &[EncryptedSubmissionV1],
    epoch_id: [u8; 32],
    recovered: &[SignedIntentV1],
) -> (orders: Option<Vec<FundedOrder>>)
    requires
        forall|i: int, j: int|
            0 <= i < j < submissions@.len() ==> (#[trigger] views(
                submissions@,
            )[i]).authorization.participant_id != (#[trigger] views(
                submissions@,
            )[j]).authorization.participant_id,
        forall|i: int| 0 <= i < recovered@.len() ==> (#[trigger] recovered@[i]).wf(),
    ensures
        match orders {
            Some(orders) => orders_signed(
                views(submissions@),
                epoch_id,
                intents_view(recovered@),
            ) && orders@ == orders_of(intents_view(recovered@)),
            None => !orders_signed(views(submissions@), epoch_id, intents_view(recovered@)),
        },
{
    let ghost members = views(submissions@);
    let ghost intents = intents_view(recovered@);
    let mut orders: Vec<FundedOrder> = Vec::new();
    let mut i: usize = 0;
    while i < recovered.len()
        invariant
            i <= recovered@.len(),
            members == views(submissions@),
            intents == intents_view(recovered@),
            forall|a: int, b: int|
                0 <= a < b < members.len() ==> (#[trigger] members[a]).authorization.participant_id
                    != (#[trigger] members[b]).authorization.participant_id,
            forall|k: int| 0 <= k < recovered@.len() ==> (#[trigger] recovered@[k]).wf(),
            orders@.len() == i,
            forall|k: int|
                0 <= k < i ==> signed_by_member(members, epoch_id, #[trigger] intents[k])
                    && !order_repeats(intents, k),
            forall|k: int|
                0 <= k < i ==> #[trigger] orders@[k] == FundedOrder::of(order_terms(intents[k])),
        decreases recovered@.len() - i,
    {
        let intent = &recovered[i];
        assert(intents[i as int] == intent@);
        assert(recovered@[i as int].wf());
        let participant = intent.body().participant_id();
        let position: usize = match find_submission(submissions, &participant) {
            Some(position) => position,
            None => {
                assert(!signed_by_member(members, epoch_id, intents[i as int]));
                return None;
            },
        };
        let submission = &submissions[position];
        assert(members[position as int] == submission@);
        proof {
            assert forall|k: int| 0 <= k < members.len() && k != position implies !signed_by(
                #[trigger] members[k],
                epoch_id,
                intents[i as int],
            ) by {
                assert(members[k].authorization.participant_id
                    != members[position as int].authorization.participant_id) by {
                    if k < position {
                        assert(members[k].authorization.participant_id
                            != members[position as int].authorization.participant_id);
                    }
                }
            }
        }
        if repeats_order(recovered, i) {
            assert(order_repeats(intents, i as int));
            assert(!orders_signed(members, epoch_id, intents)) by {
                assert(intents[i as int] == intent@);
            }
            return None;
        }
        let trading_key = match VerifyingKey::from_bytes(&submission.authorization().trading_key()) {
            Some(trading_key) => trading_key,
            None => {
                assert(!signed_by_member(members, epoch_id, intents[i as int]));
                return None;
            },
        };
        match intent.verify(&trading_key, epoch_id, participant) {
            Ok(_) => {},
            Err(_) => {
                assert(!signed_by_member(members, epoch_id, intents[i as int]));
                return None;
            },
        }
        assert(signed_by(members[position as int], epoch_id, intents[i as int]));
        match FundedOrder::new(participant, intent.body().side(), intent.body().limit_price()) {
            Ok(order) => {
                proof {
                    order.lemma_of();
                }
                orders.push(order);
            },
            Err(_) => {
                return None;
            },
        }
        i += 1;
    }
    assert(orders@ =~= orders_of(intents));
    Some(orders)
}

/// Lists the balances that a batch leaves.
fn list_balances(entries: &IdMap<PoolBalance>) -> (balances: Vec<SettlementBalanceV1>)
    ensures
        balances@ == listed(entries@),
{
    let mut balances: Vec<SettlementBalanceV1> = Vec::new();
    let mut i: usize = 0;
    while i < entries.len()
        invariant
            i <= entries@.len(),
            balances@.len() == i,
            forall|k: int| 0 <= k < i ==> #[trigger] balances@[k] == listed(entries@)[k],
        decreases entries@.len() - i,
    {
        let (participant_id, balance) = entries.entry(i);
        balances.push(
            SettlementBalanceV1 {
                participant_id,
                base_atoms: balance.base_atoms,
                quote_atoms: balance.quote_atoms,
            },
        );
        i += 1;
    }
    assert(balances@ =~= listed(entries@));
    balances
}

/// The root of the balances after a batch.
pub fn settlement_balance_root(balances: &[SettlementBalanceV1]) -> (root: Result<
    [u8; 32],
    SettlementValidationError,
>)
    ensures
        match root {
            Ok(root) => post_root_of(balances@) == Some(root),
            Err(error) => error == SettlementValidationError::InvalidBalance && post_root_of(
                balances@,
            ) is None,
        },
{
    let mut leaves: Vec<Vec<u8>> = Vec::new();
    let mut i: usize = 0;
    while i < balances.len()
        invariant
            i <= balances@.len(),
            leaves@.len() == i,
            forall|k: int|
                0 <= k < i ==> (#[trigger] leaves@[k])@ == settlement_balance_bytes(balances@[k]),
        decreases balances@.len() - i,
    {
        leaves.push(balances[i].encode());
        i += 1;
    }
    assert(leaf_contents(leaves@) =~= balances@.map_values(
        |balance: SettlementBalanceV1| settlement_balance_bytes(balance),
    ));
    match root_of_leaves(CommitmentDomain::BalanceSet, leaves.as_slice()) {
        Ok(root) => Ok(root),
        Err(_) => Err(SettlementValidationError::InvalidBalance),
    }
}

/// The root of what a batch did to each participant.
pub fn per_participant_result_root(before: &IdMap<PoolBalance>, after: &[SettlementBalanceV1]) -> (
    root: Result<[u8; 32], SettlementValidationError>)
    requires
        before.wf(),
    ensures
        match root {
            Ok(root) => result_root_of(before@, after@) == Some(root) && (forall|i: int|
                0 <= i < after@.len() ==> value_of(
                    before@,
                    (#[trigger] after@[i]).participant_id,
                ) is Some),
            Err(SettlementValidationError::InvalidBalance) => exists|i: int|
                0 <= i < after@.len() && value_of(
                    before@,
                    (#[trigger] after@[i]).participant_id,
                ) is None,
            Err(error) => error == SettlementValidationError::InvalidResult && result_root_of(
                before@,
                after@,
            ) is None && (forall|i: int|
                0 <= i < after@.len() ==> value_of(
                    before@,
                    (#[trigger] after@[i]).participant_id,
                ) is Some),
        },
{
    let mut leaves: Vec<Vec<u8>> = Vec::new();
    let mut i: usize = 0;
    while i < after.len()
        invariant
            before.wf(),
            i <= after@.len(),
            leaves@.len() == i,
            forall|k: int|
                0 <= k < i ==> value_of(before@, (#[trigger] after@[k]).participant_id) is Some,
            forall|k: int|
                0 <= k < i ==> (#[trigger] leaves@[k])@ == result_leaf(
                    value_of(before@, after@[k].participant_id).unwrap(),
                    after@[k],
                ),
        decreases after@.len() - i,
    {
        let balance = after[i];
        let prior = match before.get(&balance.participant_id) {
            Some(prior) => prior,
            None => {
                assert(value_of(before@, after@[i as int].participant_id) is None);
                return Err(SettlementValidationError::InvalidBalance);
            },
        };
        let mut leaf: Vec<u8> = Vec::new();
        append(&mut leaf, balance.participant_id.as_slice());
        append(&mut leaf, u64_to_le_bytes(prior.base_atoms).as_slice());
        append(&mut leaf, u64_to_le_bytes(prior.quote_atoms).as_slice());
        append(&mut leaf, u64_to_le_bytes(balance.base_atoms).as_slice());
        append(&mut leaf, u64_to_le_bytes(balance.quote_atoms).as_slice());
        assert(leaf@ =~= result_leaf(prior, balance));
        leaves.push(leaf);
        i += 1;
    }
    assert(leaf_contents(leaves@) =~= after@.map_values(
        |balance: SettlementBalanceV1|
            result_leaf(value_of(before@, balance.participant_id).unwrap(), balance),
    ));
    match root_of_leaves(CommitmentDomain::ResultSet, leaves.as_slice()) {
        Ok(root) => Ok(root),
        Err(_) => Err(SettlementValidationError::InvalidResult),
    }
}

/// What a settlement commits to.
pub fn result_commitment(
    confirmed: &ConfirmedLock,
    recovered_root: [u8; 32],
    pre_balance_root: [u8; 32],
    post_balance_root: [u8; 32],
    residual: Residual,
    result_root: [u8; 32],
) -> (commitment: [u8; 32])
    ensures
        commitment == commitment_of(
            confirmed@,
            recovered_root,
            pre_balance_root,
            post_balance_root,
            residual,
            result_root,
        ),
{
    let (side, lots) = residual_wire(residual);
    let epoch_account = confirmed.epoch_account();
    let lock_digest = confirmed.lock_digest();
    let mut out: Vec<u8> = Vec::new();
    append(&mut out, "KAGEB_RESULT_COMMITMENT_V1\0".as_bytes());
    append(&mut out, epoch_account.as_slice());
    append(&mut out, lock_digest.as_slice());
    append(&mut out, recovered_root.as_slice());
    append(&mut out, pre_balance_root.as_slice());
    append(&mut out, post_balance_root.as_slice());
    let ghost head = out@;
    out.push(side);
    assert(out@ =~= head + seq![side]);
    append(&mut out, u32_to_le_bytes(lots).as_slice());
    append(&mut out, result_root.as_slice());
    digest_of(out.as_slice())
}

/// What settling a package comes to.
pub struct RecomputedSettlement {
    pub intents: Vec<SignedIntentV1>,
    pub post_balances: Vec<SettlementBalanceV1>,
    pub pre_balance_root: [u8; 32],
    pub post_balance_root: [u8; 32],
    pub residual: Residual,
    pub result_root: [u8; 32],
    pub result_commitment: [u8; 32],
    pub payload: SettlementPayloadV1,
}

impl View for RecomputedSettlement {
    type V = SettlementFields;

    open spec fn view(&self) -> SettlementFields {
        SettlementFields {
            intents: intents_view(self.intents@),
            post_balances: self.post_balances@,
            pre_balance_root: self.pre_balance_root,
            post_balance_root: self.post_balance_root,
            residual: self.residual,
            result_root: self.result_root,
            result_commitment: self.result_commitment,
            payload: self.payload,
        }
    }
}

/// Whether an outcome is what a settlement comes to.
pub open spec fn is_settlement(
    outcome: Result<RecomputedSettlement, SettlementValidationError>,
    expected: Result<SettlementFields, SettlementValidationError>,
) -> bool {
    match outcome {
        Ok(settlement) => expected == Ok::<SettlementFields, SettlementValidationError>(
            settlement@,
        ),
        Err(error) => expected == Err::<SettlementFields, SettlementValidationError>(error),
    }
}

/// Works out what settling a locked package comes to. `lock_digest` is the program's digest of the
/// package's lock payload.
pub fn recompute(
    package: &LockPackageV1,
    decryption_evidence: &[DecryptionEvidenceV1],
    settlement_nonce: [u8; 32],
    confirmed: &ConfirmedLock,
    lock_digest: [u8; 32],
) -> (outcome: Result<RecomputedSettlement, SettlementValidationError>)
    requires
        package.wf(),
    ensures
        is_settlement(
            outcome,
            settlement_of(
                package@,
                views(decryption_evidence@),
                settlement_nonce,
                confirmed@,
                lock_digest,
            ),
        ),
{
    let ghost evidence = views(decryption_evidence@);
    match package.validate_locked(confirmed, lock_digest) {
        Ok(_) => {},
        Err(_) => {
            return Err(SettlementValidationError::InvalidLock);
        },
    }
    let state = confirmed.state();
    if is_zero(settlement_nonce.as_slice()) || same_array(&settlement_nonce, &state.lock_nonce) {
        return Err(SettlementValidationError::InvalidNonce);
    }
    if decryption_evidence.len() != package.submissions.len() {
        return Err(SettlementValidationError::InvalidBatch);
    }
    let recovered = match reveal_all(package, decryption_evidence, confirmed) {
        Some(recovered) => recovered,
        None => {
            return Err(SettlementValidationError::InvalidBatch);
        },
    };
    let ghost intents = revealed_intents(package@, evidence, confirmed@);
    proof {
        lemma_locked_members(package@, confirmed@, lock_digest);
    }
    let orders = match check_orders(
        package.submissions.as_slice(),
        package.configuration.epoch_id,
        recovered.as_slice(),
    ) {
        Some(orders) => orders,
        None => {
            return Err(SettlementValidationError::InvalidBatch);
        },
    };
    let before = collect_balances(package.balances.as_slice());
    let config = match BatchConfig::new(
        package.configuration.base_lot_atoms,
        package.configuration.quote_atoms_per_lot,
    ) {
        Ok(config) => config,
        Err(_) => {
            return Err(SettlementValidationError::InvalidBatch);
        },
    };
    proof {
        config.lemma_of();
    }
    let result = match net_batch(config, &before, orders.as_slice()) {
        Ok(result) => result,
        Err(_) => {
            return Err(SettlementValidationError::InvalidBatch);
        },
    };
    proof {
        lemma_balances_left(config, before@, orders@, result);
    }
    let post_balances = list_balances(result.balances());
    let post_balance_root = match settlement_balance_root(post_balances.as_slice()) {
        Ok(root) => root,
        Err(error) => {
            return Err(error);
        },
    };
    proof {
        assert forall|i: int| 0 <= i < post_balances@.len() implies value_of(
            before@,
            (#[trigger] post_balances@[i]).participant_id,
        ) is Some by {
            crate::idmap::lemma_value_at(before@, i);
        }
    }
    let result_root = match per_participant_result_root(&before, post_balances.as_slice()) {
        Ok(root) => root,
        Err(error) => {
            return Err(error);
        },
    };
    let recovered_root = recovered_intents_root(recovered.as_slice());
    let residual = result.residual();
    let commitment = result_commitment(
        confirmed,
        recovered_root,
        package.pre_balance_root,
        post_balance_root,
        residual,
        result_root,
    );
    let pool = match confirmed.pool() {
        Some(pool) => pool,
        None => {
            return Err(SettlementValidationError::InvalidLock);
        },
    };
    let (residual_side, residual_lots) = residual_wire(residual);
    let payload = SettlementPayloadV1 {
        epoch_account: confirmed.epoch_account(),
        lock_digest: confirmed.lock_digest(),
        result_commitment: commitment,
        residual_side,
        residual_lots,
        base_lot_atoms: state.base_lot_atoms,
        quote_atoms_per_lot: state.quote_atoms_per_lot,
        base_mint: pool.base_mint,
        quote_mint: pool.quote_mint,
        pool_base_vault: pool.pool_base_vault,
        pool_quote_vault: pool.pool_quote_vault,
        venue_base_account: pool.venue_base_account,
        venue_quote_account: pool.venue_quote_account,
        venue_authority: pool.venue_authority,
        settlement_nonce,
    };
    Ok(
        RecomputedSettlement {
            intents: recovered,
            post_balances,
            pre_balance_root: package.pre_balance_root,
            post_balance_root,
            residual,
            result_root,
            result_commitment: commitment,
            payload,
        },
    )
}

/// A package that is the locked one has distinct members and distinct holders, and terms that make a
/// batch.
proof fn lemma_locked_members(package: PackageFields, locked: LockedFields, lock_digest: [u8; 32])
    requires
        locked_refusal(package, locked, lock_digest) is None,
    ensures
        forall|i: int, j: int|
            0 <= i < j < package.submissions.len() ==> (
            #[trigger] package.submissions[i]).authorization.participant_id != (
            #[trigger] package.submissions[j]).authorization.participant_id,
        holders_distinct(package.balances),
        package.submissions.len() <= MAX_BATCH_MEMBERS,
        package.configuration.base_lot_atoms != 0,
        package.configuration.quote_atoms_per_lot != 0,
{
    let open = locked_as_open(locked, locked.pool.unwrap());
    assert forall|i: int, j: int| 0 <= i < j < package.submissions.len() implies (
    #[trigger] package.submissions[i]).authorization.participant_id != (
    #[trigger] package.submissions[j]).authorization.participant_id by {
        law_locked_members_are_distinct(package.submissions, open.policy, i, j);
    }
}

} // verus!
