//! What a public observer of the chain can tell.

use crate::bytes::same_array;
use crate::domain::Side;
use crate::encodings::{base58_decode, base58_decoded};
use crate::ledger::Residual;
use crate::program::LockPayloadV1;
use crate::settlement::{read_residual, residual_from};
use crate::text::{decimal, hex, push_decimal, push_hex, push_text};
use crate::tokens::{is_transfer, token_instruction, transfers, unpack_token};
use crate::transaction::{
    read_at, FetchedTransaction, InnerRead, InstructionParts, InstructionRead, ObservedInner,
    ObservedParts, ObservedTransaction,
};
use vstd::prelude::*;
use vstd::slice::slice_subrange;
use vstd::string::*;

verus! {

/// Why an observer refuses what it was shown.
#[derive(Clone, Copy, Debug, PartialEq, Eq, Structural)]
pub enum ObserverError {
    FailedTransaction,
    InvalidEncoding,
    UnexpectedInstruction,
    UnexpectedAccount,
    UnexpectedTokenEffect,
    InvalidResidual,
}

/// The accounts of an epoch that an observer expects.
#[derive(Clone, Copy, Debug, PartialEq, Eq)]
pub struct KagebObserverAccounts {
    pub fee_payer: [u8; 32],
    pub payer: [u8; 32],
    pub pool: [u8; 32],
    pub epoch: [u8; 32],
    pub vault_authority: [u8; 32],
    pub pool_base_vault: [u8; 32],
    pub pool_quote_vault: [u8; 32],
    pub venue_authority: [u8; 32],
    pub venue_base_account: [u8; 32],
    pub venue_quote_account: [u8; 32],
    pub base_mint: [u8; 32],
    pub quote_mint: [u8; 32],
    pub base_lot_atoms: u64,
    pub quote_atoms_per_lot: u64,
}

/// The accounts of a market without a pool that an observer expects.
#[derive(Clone, Copy, Debug, PartialEq, Eq)]
pub struct DirectMarketAccounts {
    pub fee_payer: [u8; 32],
    pub base_mint: [u8; 32],
    pub quote_mint: [u8; 32],
    pub venue_base_account: [u8; 32],
    pub venue_quote_account: [u8; 32],
    pub base_lot_atoms: u64,
    pub quote_atoms_per_lot: u64,
}

/// The programs and system accounts that transactions name.
#[derive(Clone, Copy, Debug, PartialEq, Eq)]
pub struct ProgramIds {
    pub program: [u8; 32],
    pub token_program: [u8; 32],
    pub ed25519_program: [u8; 32],
    pub instructions_sysvar: [u8; 32],
    pub clock_sysvar: [u8; 32],
}

/// A signature check that the chain did: who signed which digest.
#[derive(Clone, Copy, Debug, PartialEq, Eq)]
pub struct ApprovalRead {
    pub signer: [u8; 32],
    pub digest: [u8; 32],
}

/// The terms of a settlement that its instruction carries.
#[derive(Clone, Copy, Debug, PartialEq, Eq)]
pub struct CompactSettlementV1 {
    pub result_commitment: [u8; 32],
    pub residual_side: u8,
    pub residual_lots: u32,
    pub settlement_nonce: [u8; 32],
}

/// An instruction of the program, with the program's digest of a lock payload.
#[derive(Clone, Copy, Debug, PartialEq, Eq)]
pub enum KagebRead {
    Lock { payload: LockPayloadV1, digest: [u8; 32] },
    Settle { terms: CompactSettlementV1 },
    Other,
}

/// What a confirmed transaction says, or why it is refused: it must have a status, have succeeded,
/// and decode.
pub open spec fn confirmed(fetched: FetchedTransaction) -> Result<ObservedParts, ObserverError> {
    if !fetched.has_status || fetched.failed {
        Err(ObserverError::FailedTransaction)
    } else {
        match fetched.observed() {
            Some(parts) => Ok(parts),
            None => Err(ObserverError::InvalidEncoding),
        }
    }
}

/// Decodes a confirmed transaction.
pub fn decode_confirmed(fetched: &FetchedTransaction) -> (transaction: Result<
    ObservedTransaction<'_>,
    ObserverError,
>)
    ensures
        match (transaction, confirmed(*fetched)) {
            (Ok(transaction), Ok(parts)) => transaction@ == parts,
            (Err(error), Err(expected)) => error == expected,
            _ => false,
        },
{
    if !fetched.has_status || fetched.failed {
        return Err(ObserverError::FailedTransaction);
    }
    match fetched.observe() {
        Some(transaction) => Ok(transaction),
        None => Err(ObserverError::InvalidEncoding),
    }
}

/// A one-lot order sent directly from a public wallet, for observer comparison.
#[derive(Clone, Copy, Debug, PartialEq, Eq)]
pub struct DirectOrder {
    pub wallet: [u8; 32],
    pub side: Side,
}

impl DirectOrder {
    pub fn one_lot(wallet: [u8; 32], side: Side) -> (order: Self)
        ensures
            order == (DirectOrder { wallet, side }),
    {
        DirectOrder { wallet, side }
    }
}

/// One thing that an observer sees.
#[derive(Clone, Copy, Debug, PartialEq, Eq)]
pub enum PublicAction {
    Individual { wallet: [u8; 32], side: Side, lots: u32 },
    Aggregate {
        pool: [u8; 32],
        venue: [u8; 32],
        residual: Residual,
        member_root: [u8; 32],
        result_commitment: [u8; 32],
        keyper_approvals: u8,
    },
}

/// The fields a public chain observer can decode from a reference trace.
#[derive(Debug, PartialEq, Eq)]
pub struct PublicTrace {
    actions: Vec<PublicAction>,
}

impl View for PublicTrace {
    type V = Seq<PublicAction>;

    closed spec fn view(&self) -> Seq<PublicAction> {
        self.actions@
    }
}

/// The wallets that actions name, in order.
pub open spec fn wallets(actions: Seq<PublicAction>) -> Seq<[u8; 32]>
    decreases actions.len(),
{
    if actions.len() == 0 {
        Seq::empty()
    } else {
        match actions.last() {
            PublicAction::Individual { wallet, .. } => wallets(actions.drop_last()).push(wallet),
            PublicAction::Aggregate { .. } => wallets(actions.drop_last()),
        }
    }
}

/// The actions of single wallets.
pub open spec fn individuals(actions: Seq<PublicAction>) -> nat
    decreases actions.len(),
{
    if actions.len() == 0 {
        0
    } else {
        individuals(actions.drop_last()) + if actions.last() is Individual {
            1nat
        } else {
            0nat
        }
    }
}

/// The name of a side.
pub open spec fn side_name(side: Side) -> Seq<char> {
    match side {
        Side::Buy => "BUY"@,
        Side::Sell => "SELL"@,
    }
}

/// The name of a residual.
pub open spec fn residual_name(residual: Residual) -> Seq<char> {
    match residual {
        Residual::Balanced => "NO VENUE LEG"@,
        Residual::Buy { lots } => "BUY "@ + decimal(lots as nat) + " lots"@,
        Residual::Sell { lots } => "SELL "@ + decimal(lots as nat) + " lots"@,
    }
}

/// The first four bytes of a key, in hexadecimal.
pub open spec fn short_key(key: [u8; 32]) -> Seq<char> {
    hex(key@.take(4))
}

/// What an observer prints of an action.
pub open spec fn action_line(action: PublicAction) -> Seq<char> {
    match action {
        PublicAction::Individual { wallet, side, lots } => "wallet "@ + short_key(wallet) + ": "@
            + side_name(side) + " "@ + decimal(lots as nat) + " lots"@,
        PublicAction::Aggregate {
            pool,
            venue,
            residual,
            member_root,
            result_commitment,
            keyper_approvals,
        } => "pool aggregate: "@ + residual_name(residual) + " | pool "@ + short_key(pool)
            + " | venue "@ + short_key(venue) + " | member root "@ + short_key(member_root)
            + " | result commitment "@ + short_key(result_commitment) + " | keyper approvals "@
            + decimal(keyper_approvals as nat),
    }
}

/// What an observer prints of actions, one on each line.
pub open spec fn trace_text(actions: Seq<PublicAction>) -> Seq<char>
    decreases actions.len(),
{
    if actions.len() == 0 {
        Seq::empty()
    } else if actions.len() == 1 {
        action_line(actions[0])
    } else {
        trace_text(actions.drop_last()) + "\n"@ + action_line(actions.last())
    }
}

fn push_short_key(out: &mut String, key: &[u8; 32])
    ensures
        final(out)@ == old(out)@ + short_key(*key),
{
    let head = slice_subrange(key.as_slice(), 0, 4);
    assert(head@ =~= key@.take(4));
    push_hex(out, head);
}

fn push_side(out: &mut String, side: Side)
    ensures
        final(out)@ == old(out)@ + side_name(side),
{
    match side {
        Side::Buy => push_text(out, "BUY"),
        Side::Sell => push_text(out, "SELL"),
    }
}

fn push_residual(out: &mut String, residual: Residual)
    ensures
        final(out)@ == old(out)@ + residual_name(residual),
{
    match residual {
        Residual::Balanced => push_text(out, "NO VENUE LEG"),
        Residual::Buy { lots } => {
            push_text(out, "BUY ");
            push_decimal(out, lots as u64);
            push_text(out, " lots");
        },
        Residual::Sell { lots } => {
            push_text(out, "SELL ");
            push_decimal(out, lots as u64);
            push_text(out, " lots");
        },
    }
    assert(out@ =~= old(out)@ + residual_name(residual));
}

fn push_action(out: &mut String, action: &PublicAction)
    ensures
        final(out)@ == old(out)@ + action_line(*action),
{
    match action {
        PublicAction::Individual { wallet, side, lots } => {
            push_text(out, "wallet ");
            push_short_key(out, wallet);
            push_text(out, ": ");
            push_side(out, *side);
            push_text(out, " ");
            push_decimal(out, *lots as u64);
            push_text(out, " lots");
        },
        PublicAction::Aggregate {
            pool,
            venue,
            residual,
            member_root,
            result_commitment,
            keyper_approvals,
        } => {
            push_text(out, "pool aggregate: ");
            push_residual(out, *residual);
            push_text(out, " | pool ");
            push_short_key(out, pool);
            push_text(out, " | venue ");
            push_short_key(out, venue);
            push_text(out, " | member root ");
            push_short_key(out, member_root);
            push_text(out, " | result commitment ");
            push_short_key(out, result_commitment);
            push_text(out, " | keyper approvals ");
            push_decimal(out, *keyper_approvals as u64);
        },
    }
    assert(out@ =~= old(out)@ + action_line(*action));
}

/// The actions of direct orders.
pub open spec fn direct_actions(orders: Seq<DirectOrder>) -> Seq<PublicAction> {
    orders.map_values(
        |order: DirectOrder|
            PublicAction::Individual { wallet: order.wallet, side: order.side, lots: 1 },
    )
}

impl PublicTrace {
    /// What an observer sees of orders that wallets send themselves.
    pub fn direct(orders: &[DirectOrder]) -> (trace: Self)
        ensures
            trace@ == direct_actions(orders@),
    {
        let mut actions: Vec<PublicAction> = Vec::new();
        let mut i: usize = 0;
        while i < orders.len()
            invariant
                i <= orders@.len(),
                actions@.len() == i,
                forall|k: int| 0 <= k < i ==> #[trigger] actions@[k] == direct_actions(orders@)[k],
            decreases orders@.len() - i,
        {
            actions.push(
                PublicAction::Individual { wallet: orders[i].wallet, side: orders[i].side, lots: 1 },
            );
            i += 1;
        }
        assert(actions@ =~= direct_actions(orders@));
        PublicTrace { actions }
    }

    /// What an observer sees of a pool.
    pub fn pooled(
        pool: [u8; 32],
        venue: [u8; 32],
        residual: Residual,
        member_root: [u8; 32],
        result_root: [u8; 32],
    ) -> (trace: Self)
        ensures
            trace@ == seq![
                PublicAction::Aggregate {
                    pool,
                    venue,
                    residual,
                    member_root,
                    result_commitment: result_root,
                    keyper_approvals: 0,
                },
            ],
    {
        let mut actions: Vec<PublicAction> = Vec::new();
        actions.push(
            PublicAction::Aggregate {
                pool,
                venue,
                residual,
                member_root,
                result_commitment: result_root,
                keyper_approvals: 0,
            },
        );
        PublicTrace { actions }
    }

    /// The wallets that the trace names.
    pub fn visible_participant_wallets(&self) -> (visible: Vec<[u8; 32]>)
        ensures
            visible@ == wallets(self@),
    {
        let mut visible: Vec<[u8; 32]> = Vec::new();
        let mut i: usize = 0;
        assert(self.actions@.take(0) =~= Seq::empty());
        while i < self.actions.len()
            invariant
                i <= self.actions@.len(),
                visible@ == wallets(self.actions@.take(i as int)),
            decreases self.actions@.len() - i,
        {
            assert(self.actions@.take(i + 1).drop_last() =~= self.actions@.take(i as int));
            match &self.actions[i] {
                PublicAction::Individual { wallet, .. } => {
                    visible.push(*wallet);
                },
                PublicAction::Aggregate { .. } => {},
            }
            i += 1;
        }
        assert(self.actions@.take(i as int) =~= self.actions@);
        visible
    }

    /// How many actions of single wallets the trace shows.
    pub fn individual_order_count(&self) -> (count: usize)
        ensures
            count == individuals(self@),
    {
        let mut count: usize = 0;
        let mut i: usize = 0;
        assert(self.actions@.take(0) =~= Seq::empty());
        while i < self.actions.len()
            invariant
                i <= self.actions@.len(),
                count <= i,
                count == individuals(self.actions@.take(i as int)),
            decreases self.actions@.len() - i,
        {
            assert(self.actions@.take(i + 1).drop_last() =~= self.actions@.take(i as int));
            match &self.actions[i] {
                PublicAction::Individual { .. } => {
                    count += 1;
                },
                PublicAction::Aggregate { .. } => {},
            }
            i += 1;
        }
        assert(self.actions@.take(i as int) =~= self.actions@);
        count
    }

    /// How many actions of a pool the trace shows.
    pub fn aggregate_count(&self) -> (count: usize)
        ensures
            count == self@.len() - individuals(self@),
    {
        let total: usize = self.actions.len();
        let individual: usize = self.individual_order_count();
        proof {
            lemma_individuals_bound(self@);
        }
        total - individual
    }

    /// What an observer prints of the trace.
    pub fn render(&self) -> (text: String)
        ensures
            text@ == trace_text(self@),
    {
        let mut text = String::new();
        let mut i: usize = 0;
        assert(self.actions@.take(0) =~= Seq::empty());
        assert(text@ =~= trace_text(self.actions@.take(0)));
        while i < self.actions.len()
            invariant
                i <= self.actions@.len(),
                text@ == trace_text(self.actions@.take(i as int)),
            decreases self.actions@.len() - i,
        {
            let ghost before = text@;
            assert(self.actions@.take(i + 1).drop_last() =~= self.actions@.take(i as int));
            if i > 0 {
                push_text(&mut text, "\n");
            }
            push_action(&mut text, &self.actions[i]);
            proof {
                let next = self.actions@.take(i + 1);
                if i == 0 {
                    assert(text@ =~= action_line(next[0]));
                } else {
                    assert(text@ =~= before + "\n"@ + action_line(next.last()));
                }
            }
            i += 1;
        }
        assert(self.actions@.take(i as int) =~= self.actions@);
        text
    }
}

proof fn lemma_individuals_bound(actions: Seq<PublicAction>)
    ensures
        individuals(actions) <= actions.len(),
    decreases actions.len(),
{
    if actions.len() > 0 {
        lemma_individuals_bound(actions.drop_last());
    }
}

/// A trace of direct orders names the wallet of each of them.
pub proof fn law_direct_trace_names_every_wallet(orders: Seq<DirectOrder>)
    ensures
        wallets(direct_actions(orders)) == orders.map_values(|order: DirectOrder| order.wallet),
        individuals(direct_actions(orders)) == orders.len(),
    decreases orders.len(),
{
    let actions = direct_actions(orders);
    if orders.len() == 0 {
        assert(wallets(actions) =~= orders.map_values(|order: DirectOrder| order.wallet));
    } else {
        law_direct_trace_names_every_wallet(orders.drop_last());
        assert(actions.drop_last() =~= direct_actions(orders.drop_last()));
        assert(wallets(actions) =~= orders.map_values(|order: DirectOrder| order.wallet));
    }
}

/// A trace of pool actions alone names no wallet and shows no single order.
pub proof fn law_pooled_trace_names_no_wallet(actions: Seq<PublicAction>)
    requires
        forall|i: int| 0 <= i < actions.len() ==> (#[trigger] actions[i]) is Aggregate,
    ensures
        wallets(actions).len() == 0,
        individuals(actions) == 0,
    decreases actions.len(),
{
    if actions.len() > 0 {
        assert(actions[actions.len() - 1] is Aggregate);
        law_pooled_trace_names_no_wallet(actions.drop_last());
    }
}

/// The key that an index names, where it names one.
pub open spec fn key_at(keys: Seq<[u8; 32]>, index: u8) -> Option<[u8; 32]> {
    if index < keys.len() {
        Some(keys[index as int])
    } else {
        None
    }
}

/// The key that an index names.
pub fn account_at(keys: &[[u8; 32]], index: u8) -> (key: Result<[u8; 32], ObserverError>)
    ensures
        key == (match key_at(keys@, index) {
            Some(key) => Ok::<[u8; 32], ObserverError>(key),
            None => Err(ObserverError::UnexpectedAccount),
        }),
{
    if (index as usize) < keys.len() {
        Ok(keys[index as usize])
    } else {
        Err(ObserverError::UnexpectedAccount)
    }
}

/// Whether an index names a key.
pub fn names_key(keys: &[[u8; 32]], index: u8, expected: &[u8; 32]) -> (names: bool)
    ensures
        names == (key_at(keys@, index) == Some(*expected)),
{
    (index as usize) < keys.len() && same_array(&keys[index as usize], expected)
}

/// Whether indexes name the expected keys, one by one.
pub open spec fn accounts_match(
    keys: Seq<[u8; 32]>,
    indexes: Seq<u8>,
    expected: Seq<[u8; 32]>,
) -> bool {
    &&& indexes.len() == expected.len()
    &&& forall|i: int|
        0 <= i < indexes.len() ==> key_at(keys, #[trigger] indexes[i]) == Some(expected[i])
}

/// Checks that indexes name the expected keys, one by one.
pub fn require_accounts(keys: &[[u8; 32]], indexes: &[u8], expected: &[[u8; 32]]) -> (outcome: Result<
    (),
    ObserverError,
>)
    ensures
        outcome == (if accounts_match(keys@, indexes@, expected@) {
            Ok::<(), _>(())
        } else {
            Err(ObserverError::UnexpectedAccount)
        }),
{
    if indexes.len() != expected.len() {
        return Err(ObserverError::UnexpectedAccount);
    }
    let mut i: usize = 0;
    while i < indexes.len()
        invariant
            i <= indexes@.len() == expected@.len(),
            forall|k: int|
                0 <= k < i ==> key_at(keys@, #[trigger] indexes@[k]) == Some(expected@[k]),
        decreases indexes@.len() - i,
    {
        if !names_key(keys, indexes[i], &expected[i]) {
            assert(key_at(keys@, indexes@[i as int]) != Some(expected@[i as int]));
            return Err(ObserverError::UnexpectedAccount);
        }
        i += 1;
    }
    Ok(())
}

/// How many different keys the first `n` of a list are.
pub open spec fn distinct_total(keys: Seq<[u8; 32]>, n: int) -> int
    decreases n,
{
    if n <= 0 {
        0
    } else {
        distinct_total(keys, n - 1) + if keys.take(n - 1).contains(keys[n - 1]) {
            0int
        } else {
            1int
        }
    }
}

/// Whether keys are the expected ones, in any order and each once.
pub open spec fn keys_match(keys: Seq<[u8; 32]>, expected: Seq<[u8; 32]>) -> bool {
    &&& keys.len() == distinct_total(expected, expected.len() as int)
    &&& forall|i: int| 0 <= i < keys.len() ==> expected.contains(#[trigger] keys[i])
    &&& forall|i: int| 0 <= i < expected.len() ==> keys.contains(#[trigger] expected[i])
}

/// Whether a key is among the first `n` of a list.
pub fn is_among(keys: &[[u8; 32]], n: usize, key: &[u8; 32]) -> (is: bool)
    requires
        n <= keys@.len(),
    ensures
        is == keys@.take(n as int).contains(*key),
{
    let mut i: usize = 0;
    while i < n
        invariant
            i <= n <= keys@.len(),
            forall|k: int| 0 <= k < i ==> #[trigger] keys@[k] != *key,
        decreases n - i,
    {
        if same_array(&keys[i], key) {
            assert(keys@.take(n as int)[i as int] == *key);
            return true;
        }
        i += 1;
    }
    false
}

/// Checks that keys are the expected ones, in any order and each once.
pub fn require_exact_keys(keys: &[[u8; 32]], expected: &[[u8; 32]]) -> (outcome: Result<
    (),
    ObserverError,
>)
    ensures
        outcome == (if keys_match(keys@, expected@) {
            Ok::<(), _>(())
        } else {
            Err(ObserverError::UnexpectedAccount)
        }),
{
    let mut unique: usize = 0;
    let mut i: usize = 0;
    while i < expected.len()
        invariant
            i <= expected@.len(),
            unique <= i,
            unique == distinct_total(expected@, i as int),
        decreases expected@.len() - i,
    {
        if !is_among(expected, i, &expected[i]) {
            unique += 1;
        }
        i += 1;
    }
    if keys.len() != unique {
        return Err(ObserverError::UnexpectedAccount);
    }
    assert(expected@.take(expected@.len() as int) =~= expected@);
    assert(keys@.take(keys@.len() as int) =~= keys@);
    let mut j: usize = 0;
    while j < keys.len()
        invariant
            j <= keys@.len(),
            expected@.take(expected@.len() as int) == expected@,
            forall|k: int| 0 <= k < j ==> expected@.contains(#[trigger] keys@[k]),
        decreases keys@.len() - j,
    {
        if !is_among(expected, expected.len(), &keys[j]) {
            assert(!expected@.contains(keys@[j as int]));
            return Err(ObserverError::UnexpectedAccount);
        }
        j += 1;
    }
    let mut m: usize = 0;
    while m < expected.len()
        invariant
            m <= expected@.len(),
            keys@.take(keys@.len() as int) == keys@,
            forall|k: int| 0 <= k < m ==> keys@.contains(#[trigger] expected@[k]),
        decreases expected@.len() - m,
    {
        if !is_among(keys, keys.len(), &expected[m]) {
            assert(!keys@.contains(expected@[m as int]));
            return Err(ObserverError::UnexpectedAccount);
        }
        m += 1;
    }
    Ok(())
}

/// Whether a transaction's first key pays its fees.
pub open spec fn pays_fees(keys: Seq<[u8; 32]>, fee_payer: [u8; 32]) -> bool {
    keys.len() > 0 && keys[0] == fee_payer
}

/// Checks who pays the fees of a transaction.
pub fn require_fee_payer(keys: &[[u8; 32]], expected: &[u8; 32]) -> (outcome: Result<
    (),
    ObserverError,
>)
    ensures
        outcome == (if pays_fees(keys@, *expected) {
            Ok::<(), _>(())
        } else {
            Err(ObserverError::UnexpectedAccount)
        }),
{
    if keys.len() > 0 && same_array(&keys[0], expected) {
        Ok(())
    } else {
        Err(ObserverError::UnexpectedAccount)
    }
}

/// Whether an instruction is a signature check that names no account.
pub open spec fn is_approval(transaction: ObservedParts, i: int, ids: ProgramIds) -> bool {
    let instruction = transaction.instructions[i];
    &&& key_at(transaction.keys, instruction.program_id_index) == Some(ids.ed25519_program)
    &&& instruction.accounts.len() == 0
    &&& read_at(transaction.reads, i).approval is Some
}

/// Whether a transaction is a row of signature checks and one instruction of the program behind them.
pub open spec fn is_approved_call(
    transaction: ObservedParts,
    discriminator: u8,
    ids: ProgramIds,
) -> bool {
    let total = transaction.instructions.len() as int;
    let last = transaction.instructions[total - 1];
    &&& 1 <= total <= 256
    &&& forall|i: int| 0 <= i < total - 1 ==> #[trigger] is_approval(transaction, i, ids)
    &&& key_at(transaction.keys, last.program_id_index) == Some(ids.program)
    &&& ids.program != ids.ed25519_program
    &&& last.data.len() > 0
    &&& last.data[0] == discriminator
}

/// The position of the program's instruction in a transaction, which is also the number of signature
/// checks before it.
pub fn exact_kageb_instruction(
    transaction: &ObservedTransaction,
    discriminator: u8,
    ids: &ProgramIds,
) -> (position: Result<usize, ObserverError>)
    ensures
        position == (if is_approved_call(transaction@, discriminator, *ids) {
            Ok::<usize, ObserverError>((transaction@.instructions.len() - 1) as usize)
        } else {
            Err(ObserverError::UnexpectedInstruction)
        }),
{
    let total: usize = transaction.total();
    if total == 0 || total > 256 {
        return Err(ObserverError::UnexpectedInstruction);
    }
    let mut i: usize = 0;
    while i < total - 1
        invariant
            1 <= total <= 256,
            total == transaction@.instructions.len(),
            i <= total - 1,
            forall|k: int| 0 <= k < i ==> #[trigger] is_approval(transaction@, k, *ids),
        decreases total - i,
    {
        let instruction = transaction.instruction(i);
        let read = transaction.read(i);
        if !names_key(transaction.keys(), instruction.program_id_index, &ids.ed25519_program)
            || instruction.accounts.len() != 0 || read.approval.is_none() {
            assert(!is_approval(transaction@, i as int, *ids));
            return Err(ObserverError::UnexpectedInstruction);
        }
        assert(is_approval(transaction@, i as int, *ids));
        i += 1;
    }
    let last = transaction.instruction(total - 1);
    if !names_key(transaction.keys(), last.program_id_index, &ids.program) || same_array(
        &ids.program,
        &ids.ed25519_program,
    ) || last.data.len() == 0 || last.data[0] != discriminator {
        return Err(ObserverError::UnexpectedInstruction);
    }
    Ok(total - 1)
}

/// The keys that a lock transaction names.
pub open spec fn lock_keys(accounts: KagebObserverAccounts, ids: ProgramIds) -> Seq<[u8; 32]> {
    seq![
        accounts.fee_payer,
        accounts.payer,
        accounts.pool,
        accounts.epoch,
        ids.instructions_sysvar,
        ids.clock_sysvar,
        ids.ed25519_program,
        ids.program,
    ]
}

/// The accounts that a lock instruction takes.
pub open spec fn lock_accounts(accounts: KagebObserverAccounts, ids: ProgramIds) -> Seq<[u8; 32]> {
    seq![
        accounts.payer,
        accounts.pool,
        accounts.epoch,
        ids.instructions_sysvar,
        ids.clock_sysvar,
    ]
}

/// The accounts that a settlement instruction takes.
pub open spec fn settlement_accounts(accounts: KagebObserverAccounts, ids: ProgramIds) -> Seq<
    [u8; 32],
> {
    seq![
        accounts.payer,
        accounts.pool,
        accounts.epoch,
        accounts.vault_authority,
        accounts.pool_base_vault,
        accounts.pool_quote_vault,
        accounts.venue_authority,
        accounts.venue_base_account,
        accounts.venue_quote_account,
        accounts.base_mint,
        accounts.quote_mint,
        ids.token_program,
        ids.instructions_sysvar,
        ids.clock_sysvar,
    ]
}

/// The keys that a settlement transaction names.
pub open spec fn settlement_keys(accounts: KagebObserverAccounts, ids: ProgramIds) -> Seq<[u8; 32]> {
    seq![accounts.fee_payer] + settlement_accounts(accounts, ids) + seq![
        ids.ed25519_program,
        ids.program,
    ]
}

/// A token transfer that a settlement makes: its four accounts and its amount.
pub struct TokenLeg {
    pub accounts: Seq<[u8; 32]>,
    pub amount: u64,
}

/// The lots of a residual.
pub open spec fn lots_of(residual: Residual) -> u32 {
    match residual {
        Residual::Balanced => 0,
        Residual::Buy { lots } => lots,
        Residual::Sell { lots } => lots,
    }
}

/// The two transfers of a residual: what the pool pays first, then what it is paid.
pub open spec fn token_legs(accounts: KagebObserverAccounts, residual: Residual) -> Seq<TokenLeg> {
    let base = (accounts.base_lot_atoms * lots_of(residual)) as u64;
    let quote = (accounts.quote_atoms_per_lot * lots_of(residual)) as u64;
    match residual {
        Residual::Balanced => Seq::empty(),
        Residual::Buy { .. } => seq![
            TokenLeg {
                accounts: seq![
                    accounts.pool_quote_vault,
                    accounts.quote_mint,
                    accounts.venue_quote_account,
                    accounts.vault_authority,
                ],
                amount: quote,
            },
            TokenLeg {
                accounts: seq![
                    accounts.venue_base_account,
                    accounts.base_mint,
                    accounts.pool_base_vault,
                    accounts.venue_authority,
                ],
                amount: base,
            },
        ],
        Residual::Sell { .. } => seq![
            TokenLeg {
                accounts: seq![
                    accounts.pool_base_vault,
                    accounts.base_mint,
                    accounts.venue_base_account,
                    accounts.vault_authority,
                ],
                amount: base,
            },
            TokenLeg {
                accounts: seq![
                    accounts.venue_quote_account,
                    accounts.quote_mint,
                    accounts.pool_quote_vault,
                    accounts.venue_authority,
                ],
                amount: quote,
            },
        ],
    }
}

/// Whether text in base58 is a checked transfer of an amount.
pub open spec fn transfers_encoded(text: Seq<char>, amount: u64) -> bool {
    match base58_decoded(text) {
        Some(data) => transfers(data, amount),
        None => false,
    }
}

/// Why an inner instruction is not an expected transfer, where it is not.
pub open spec fn leg_refusal(
    keys: Seq<[u8; 32]>,
    instruction: Option<InnerRead>,
    leg: TokenLeg,
    ids: ProgramIds,
) -> Option<ObserverError> {
    match instruction {
        None => Some(ObserverError::UnexpectedTokenEffect),
        Some(instruction) => if key_at(keys, instruction.program_id_index) != Some(
            ids.token_program,
        ) {
            Some(ObserverError::UnexpectedTokenEffect)
        } else if !accounts_match(keys, instruction.accounts@, leg.accounts) {
            Some(ObserverError::UnexpectedAccount)
        } else if !transfers_encoded(instruction.data@, leg.amount) {
            Some(ObserverError::UnexpectedTokenEffect)
        } else {
            None
        },
    }
}

/// Why inner instructions are not the expected transfers, where they are not, for the first that is
/// not.
pub open spec fn legs_refusal(
    keys: Seq<[u8; 32]>,
    instructions: Seq<Option<InnerRead>>,
    legs: Seq<TokenLeg>,
    ids: ProgramIds,
) -> Option<ObserverError> {
    if instructions.len() != legs.len() {
        Some(ObserverError::UnexpectedTokenEffect)
    } else if legs.len() == 0 {
        None
    } else if leg_refusal(keys, instructions[0], legs[0], ids) is Some {
        leg_refusal(keys, instructions[0], legs[0], ids)
    } else {
        leg_refusal(keys, instructions[1], legs[1], ids)
    }
}

/// Why the token effects of a settlement are not those of its residual, where they are not.
pub open spec fn effects_refusal(
    inner: Seq<ObservedInner>,
    keys: Seq<[u8; 32]>,
    settlement_index: u8,
    accounts: KagebObserverAccounts,
    residual: Residual,
    ids: ProgramIds,
) -> Option<ObserverError> {
    let legs = token_legs(accounts, residual);
    if accounts.base_lot_atoms * lots_of(residual) > u64::MAX || accounts.quote_atoms_per_lot
        * lots_of(residual) > u64::MAX {
        Some(ObserverError::UnexpectedTokenEffect)
    } else if inner.len() == 0 {
        if legs.len() == 0 {
            None
        } else {
            Some(ObserverError::UnexpectedTokenEffect)
        }
    } else if inner.len() != 1 || inner[0].index != settlement_index {
        Some(ObserverError::UnexpectedTokenEffect)
    } else {
        legs_refusal(keys, inner[0].instructions@, legs, ids)
    }
}

/// Checks an inner instruction against an expected transfer.
fn check_leg(
    keys: &[[u8; 32]],
    instruction: &Option<InnerRead>,
    expected: &[[u8; 32]],
    amount: u64,
    ids: &ProgramIds,
) -> (outcome: Result<(), ObserverError>)
    ensures
        outcome == (match leg_refusal(
            keys@,
            *instruction,
            (TokenLeg { accounts: expected@, amount }),
            *ids,
        ) {
            Some(error) => Err::<(), _>(error),
            None => Ok(()),
        }),
{
    let instruction = match instruction {
        Some(instruction) => instruction,
        None => {
            return Err(ObserverError::UnexpectedTokenEffect);
        },
    };
    if !names_key(keys, instruction.program_id_index, &ids.token_program) {
        return Err(ObserverError::UnexpectedTokenEffect);
    }
    match require_accounts(keys, instruction.accounts.as_slice(), expected) {
        Ok(_) => {},
        Err(error) => {
            return Err(error);
        },
    }
    match base58_decode(instruction.data.as_str()) {
        Some(data) => if is_transfer(data.as_slice(), amount) {
            Ok(())
        } else {
            Err(ObserverError::UnexpectedTokenEffect)
        },
        None => Err(ObserverError::UnexpectedTokenEffect),
    }
}

/// Checks the token effects of a settlement against its residual.
pub fn validate_settlement_token_effects(
    inner: &[ObservedInner],
    keys: &[[u8; 32]],
    settlement_index: u8,
    accounts: &KagebObserverAccounts,
    residual: Residual,
    ids: &ProgramIds,
) -> (outcome: Result<(), ObserverError>)
    ensures
        outcome == (match effects_refusal(
            inner@,
            keys@,
            settlement_index,
            *accounts,
            residual,
            *ids,
        ) {
            Some(error) => Err::<(), _>(error),
            None => Ok(()),
        }),
{
    let lots: u64 = match residual {
        Residual::Balanced => 0,
        Residual::Buy { lots } => lots as u64,
        Residual::Sell { lots } => lots as u64,
    };
    let base: u64 = match accounts.base_lot_atoms.checked_mul(lots) {
        Some(base) => base,
        None => {
            return Err(ObserverError::UnexpectedTokenEffect);
        },
    };
    let quote: u64 = match accounts.quote_atoms_per_lot.checked_mul(lots) {
        Some(quote) => quote,
        None => {
            return Err(ObserverError::UnexpectedTokenEffect);
        },
    };
    let (first, first_amount, second, second_amount) = match residual {
        Residual::Balanced => {
            if inner.len() == 0 {
                return Ok(());
            }
            if inner.len() != 1 || inner[0].index != settlement_index
                || inner[0].instructions.len() != 0 {
                return Err(ObserverError::UnexpectedTokenEffect);
            }
            return Ok(());
        },
        Residual::Buy { .. } => (
            [
                accounts.pool_quote_vault,
                accounts.quote_mint,
                accounts.venue_quote_account,
                accounts.vault_authority,
            ],
            quote,
            [
                accounts.venue_base_account,
                accounts.base_mint,
                accounts.pool_base_vault,
                accounts.venue_authority,
            ],
            base,
        ),
        Residual::Sell { .. } => (
            [
                accounts.pool_base_vault,
                accounts.base_mint,
                accounts.venue_base_account,
                accounts.vault_authority,
            ],
            base,
            [
                accounts.venue_quote_account,
                accounts.quote_mint,
                accounts.pool_quote_vault,
                accounts.venue_authority,
            ],
            quote,
        ),
    };
    proof {
        let legs = token_legs(*accounts, residual);
        assert(first@ =~= legs[0].accounts);
        assert(second@ =~= legs[1].accounts);
        assert(legs[0] == (TokenLeg { accounts: first@, amount: first_amount }));
        assert(legs[1] == (TokenLeg { accounts: second@, amount: second_amount }));
    }
    if inner.len() != 1 || inner[0].index != settlement_index || inner[0].instructions.len() != 2 {
        return Err(ObserverError::UnexpectedTokenEffect);
    }
    match check_leg(keys, &inner[0].instructions[0], first.as_slice(), first_amount, ids) {
        Ok(_) => {},
        Err(error) => {
            return Err(error);
        },
    }
    check_leg(keys, &inner[0].instructions[1], second.as_slice(), second_amount, ids)
}

/// The last instruction of a transaction.
pub open spec fn last_instruction(transaction: ObservedParts) -> InstructionParts {
    transaction.instructions[transaction.instructions.len() - 1]
}

/// What the program's decoder makes of the last instruction of a transaction.
pub open spec fn last_kageb(transaction: ObservedParts) -> Option<KagebRead> {
    read_at(transaction.reads, transaction.instructions.len() - 1).kageb
}

/// Why a lock transaction is refused behind its instructions, where it is.
pub open spec fn lock_call_refusal(
    lock: ObservedParts,
    accounts: KagebObserverAccounts,
    ids: ProgramIds,
) -> Option<ObserverError> {
    if !keys_match(lock.keys, lock_keys(accounts, ids)) || !accounts_match(
        lock.keys,
        last_instruction(lock).accounts,
        lock_accounts(accounts, ids),
    ) {
        Some(ObserverError::UnexpectedAccount)
    } else {
        match last_kageb(lock) {
            Some(KagebRead::Lock { payload, .. }) => if payload.epoch_account == accounts.epoch
                && payload.member_count >= 4 {
                None
            } else {
                Some(ObserverError::UnexpectedInstruction)
            },
            _ => Some(ObserverError::UnexpectedInstruction),
        }
    }
}

/// What a settlement transaction shows behind its instructions, or why it is refused.
pub open spec fn settlement_call(
    settlement: ObservedParts,
    accounts: KagebObserverAccounts,
    ids: ProgramIds,
) -> Result<(Residual, [u8; 32]), ObserverError> {
    if !keys_match(settlement.keys, settlement_keys(accounts, ids)) || !accounts_match(
        settlement.keys,
        last_instruction(settlement).accounts,
        settlement_accounts(accounts, ids),
    ) {
        Err(ObserverError::UnexpectedAccount)
    } else {
        match last_kageb(settlement) {
            Some(KagebRead::Settle { terms }) => match residual_from(
                terms.residual_side,
                terms.residual_lots,
            ) {
                None => Err(ObserverError::InvalidResidual),
                Some(residual) => match effects_refusal(
                    settlement.inner,
                    settlement.keys,
                    2,
                    accounts,
                    residual,
                    ids,
                ) {
                    Some(error) => Err(error),
                    None => Ok((residual, terms.result_commitment)),
                },
            },
            _ => Err(ObserverError::UnexpectedInstruction),
        }
    }
}

/// What an observer sees of a lock and its settlement, or why it refuses them.
pub open spec fn kageb_trace(
    lock: ObservedParts,
    settlement: ObservedParts,
    accounts: KagebObserverAccounts,
    ids: ProgramIds,
) -> Result<Seq<PublicAction>, ObserverError> {
    if !pays_fees(lock.keys, accounts.fee_payer) || !pays_fees(
        settlement.keys,
        accounts.fee_payer,
    ) {
        Err(ObserverError::UnexpectedAccount)
    } else if !is_approved_call(lock, 2, ids) || !is_approved_call(settlement, 3, ids)
        || lock.instructions.len() != 3 || settlement.instructions.len() != 3 {
        Err(ObserverError::UnexpectedInstruction)
    } else {
        match lock_call_refusal(lock, accounts, ids) {
            Some(error) => Err(error),
            None => match settlement_call(settlement, accounts, ids) {
                Err(error) => Err(error),
                Ok((residual, result_commitment)) => Ok(
                    seq![
                        PublicAction::Aggregate {
                            pool: accounts.pool,
                            venue: accounts.venue_authority,
                            residual,
                            member_root: last_kageb(lock).unwrap()->payload.member_root,
                            result_commitment,
                            keyper_approvals: 2,
                        },
                    ],
                ),
            },
        }
    }
}

/// Checks a lock transaction behind its instructions, and gives the root of its members.
fn check_lock_call(
    lock: &ObservedTransaction,
    accounts: &KagebObserverAccounts,
    ids: &ProgramIds,
) -> (member_root: Result<[u8; 32], ObserverError>)
    requires
        lock@.instructions.len() == 3,
    ensures
        match lock_call_refusal(lock@, *accounts, *ids) {
            Some(error) => member_root == Err::<[u8; 32], _>(error),
            None => member_root == Ok::<[u8; 32], ObserverError>(
                last_kageb(lock@).unwrap()->payload.member_root,
            ),
        },
{
    let keys = [
        accounts.fee_payer,
        accounts.payer,
        accounts.pool,
        accounts.epoch,
        ids.instructions_sysvar,
        ids.clock_sysvar,
        ids.ed25519_program,
        ids.program,
    ];
    assert(keys@ =~= lock_keys(*accounts, *ids));
    match require_exact_keys(lock.keys(), keys.as_slice()) {
        Ok(_) => {},
        Err(error) => {
            return Err(error);
        },
    }
    let expected = [
        accounts.payer,
        accounts.pool,
        accounts.epoch,
        ids.instructions_sysvar,
        ids.clock_sysvar,
    ];
    assert(expected@ =~= lock_accounts(*accounts, *ids));
    let instruction = lock.instruction(2);
    match require_accounts(
        lock.keys(),
        instruction.accounts.as_slice(),
        expected.as_slice(),
    ) {
        Ok(_) => {},
        Err(error) => {
            return Err(error);
        },
    }
    match lock.read(2).kageb {
        Some(KagebRead::Lock { payload, .. }) => if same_array(
            &payload.epoch_account,
            &accounts.epoch,
        ) && payload.member_count >= 4 {
            Ok(payload.member_root)
        } else {
            Err(ObserverError::UnexpectedInstruction)
        },
        _ => Err(ObserverError::UnexpectedInstruction),
    }
}

/// Checks a settlement transaction behind its instructions, and gives its residual and its
/// commitment.
fn check_settlement_call(
    settlement: &ObservedTransaction,
    accounts: &KagebObserverAccounts,
    ids: &ProgramIds,
) -> (shown: Result<(Residual, [u8; 32]), ObserverError>)
    requires
        settlement@.instructions.len() == 3,
    ensures
        shown == settlement_call(settlement@, *accounts, *ids),
{
    let keys = [
        accounts.fee_payer,
        accounts.payer,
        accounts.pool,
        accounts.epoch,
        accounts.vault_authority,
        accounts.pool_base_vault,
        accounts.pool_quote_vault,
        accounts.venue_authority,
        accounts.venue_base_account,
        accounts.venue_quote_account,
        accounts.base_mint,
        accounts.quote_mint,
        ids.token_program,
        ids.instructions_sysvar,
        ids.clock_sysvar,
        ids.ed25519_program,
        ids.program,
    ];
    assert(keys@ =~= settlement_keys(*accounts, *ids));
    match require_exact_keys(settlement.keys(), keys.as_slice()) {
        Ok(_) => {},
        Err(error) => {
            return Err(error);
        },
    }
    let expected = slice_subrange(keys.as_slice(), 1, 15);
    assert(expected@ =~= settlement_accounts(*accounts, *ids));
    let instruction = settlement.instruction(2);
    match require_accounts(settlement.keys(), instruction.accounts.as_slice(), expected) {
        Ok(_) => {},
        Err(error) => {
            return Err(error);
        },
    }
    let terms = match settlement.read(2).kageb {
        Some(KagebRead::Settle { terms }) => terms,
        _ => {
            return Err(ObserverError::UnexpectedInstruction);
        },
    };
    let residual = match read_residual(terms.residual_side, terms.residual_lots) {
        Some(residual) => residual,
        None => {
            return Err(ObserverError::InvalidResidual);
        },
    };
    match validate_settlement_token_effects(
        settlement.inner,
        settlement.keys(),
        2,
        accounts,
        residual,
        ids,
    ) {
        Ok(_) => Ok((residual, terms.result_commitment)),
        Err(error) => Err(error),
    }
}

/// The side and the amount of a direct order, by where it pays, where it pays the venue.
pub open spec fn direct_leg(
    mint: [u8; 32],
    destination: [u8; 32],
    market: DirectMarketAccounts,
) -> Option<(Side, u64)> {
    if mint == market.base_mint && destination == market.venue_base_account {
        Some((Side::Sell, market.base_lot_atoms))
    } else if mint == market.quote_mint && destination == market.venue_quote_account {
        Some((Side::Buy, market.quote_atoms_per_lot))
    } else {
        None
    }
}

/// What an observer sees of a transfer that a wallet sent itself, or why it refuses it.
pub open spec fn transfer_action(
    keys: Seq<[u8; 32]>,
    instruction: InstructionParts,
    market: DirectMarketAccounts,
    ids: ProgramIds,
) -> Result<PublicAction, ObserverError> {
    match (
        key_at(keys, instruction.accounts[0]),
        key_at(keys, instruction.accounts[1]),
        key_at(keys, instruction.accounts[2]),
        key_at(keys, instruction.accounts[3]),
    ) {
        (Some(source), Some(mint), Some(destination), Some(wallet)) => {
            if source == destination || wallet == destination || !keys_match(
                keys,
                seq![market.fee_payer, source, mint, destination, wallet, ids.token_program],
            ) {
                Err(ObserverError::UnexpectedAccount)
            } else if !token_instruction(instruction.data) {
                Err(ObserverError::UnexpectedTokenEffect)
            } else {
                match direct_leg(mint, destination, market) {
                    None => Err(ObserverError::UnexpectedAccount),
                    Some((side, amount)) => if transfers(instruction.data, amount) {
                        Ok(PublicAction::Individual { wallet, side, lots: 1 })
                    } else {
                        Err(ObserverError::UnexpectedTokenEffect)
                    },
                }
            }
        },
        _ => Err(ObserverError::UnexpectedAccount),
    }
}

/// What an observer sees of a transaction that a wallet sent itself, or why it refuses it.
pub open spec fn direct_action(
    transaction: ObservedParts,
    market: DirectMarketAccounts,
    ids: ProgramIds,
) -> Result<PublicAction, ObserverError> {
    if !pays_fees(transaction.keys, market.fee_payer) {
        Err(ObserverError::UnexpectedAccount)
    } else if transaction.inner.len() != 0 || transaction.instructions.len() != 1 || key_at(
        transaction.keys,
        transaction.instructions[0].program_id_index,
    ) != Some(ids.token_program) || transaction.instructions[0].accounts.len() != 4 {
        Err(ObserverError::UnexpectedInstruction)
    } else {
        transfer_action(transaction.keys, transaction.instructions[0], market, ids)
    }
}

/// What an observer sees of a confirmed transaction that a wallet sent itself, or why it refuses it.
pub open spec fn confirmed_action(
    fetched: FetchedTransaction,
    market: DirectMarketAccounts,
    ids: ProgramIds,
) -> Result<PublicAction, ObserverError> {
    match confirmed(fetched) {
        Err(error) => Err(error),
        Ok(transaction) => direct_action(transaction, market, ids),
    }
}

/// What an observer sees of transactions that wallets sent themselves, or why it refuses the first
/// that it refuses.
pub open spec fn direct_trace(
    transactions: Seq<FetchedTransaction>,
    market: DirectMarketAccounts,
    ids: ProgramIds,
    n: int,
) -> Result<Seq<PublicAction>, ObserverError>
    decreases n,
{
    if n <= 0 {
        Ok(Seq::empty())
    } else {
        match direct_trace(transactions, market, ids, n - 1) {
            Err(error) => Err(error),
            Ok(actions) => match confirmed_action(transactions[n - 1], market, ids) {
                Err(error) => Err(error),
                Ok(action) => Ok(actions.push(action)),
            },
        }
    }
}

proof fn lemma_direct_refused(
    transactions: Seq<FetchedTransaction>,
    market: DirectMarketAccounts,
    ids: ProgramIds,
    i: int,
    n: int,
    error: ObserverError,
)
    requires
        0 <= i < n,
        direct_trace(transactions, market, ids, i) is Ok,
        confirmed_action(transactions[i], market, ids) == Err::<PublicAction, _>(error),
    ensures
        direct_trace(transactions, market, ids, n) == Err::<Seq<PublicAction>, _>(error),
    decreases n,
{
    if n > i + 1 {
        lemma_direct_refused(transactions, market, ids, i, n - 1, error);
    }
}

/// Reads a transfer that a wallet sent itself.
fn read_transfer(
    keys: &[[u8; 32]],
    instruction: &InstructionRead,
    market: &DirectMarketAccounts,
    ids: &ProgramIds,
) -> (action: Result<PublicAction, ObserverError>)
    requires
        instruction.accounts@.len() == 4,
    ensures
        action == transfer_action(keys@, instruction@, *market, *ids),
{
    let (source, mint, destination, wallet) = match (
        account_at(keys, instruction.accounts[0]),
        account_at(keys, instruction.accounts[1]),
        account_at(keys, instruction.accounts[2]),
        account_at(keys, instruction.accounts[3]),
    ) {
        (Ok(source), Ok(mint), Ok(destination), Ok(wallet)) => (source, mint, destination, wallet),
        _ => {
            return Err(ObserverError::UnexpectedAccount);
        },
    };
    if same_array(&source, &destination) || same_array(&wallet, &destination) {
        return Err(ObserverError::UnexpectedAccount);
    }
    let expected = [market.fee_payer, source, mint, destination, wallet, ids.token_program];
    assert(expected@ =~= seq![
        market.fee_payer,
        source,
        mint,
        destination,
        wallet,
        ids.token_program,
    ]);
    match require_exact_keys(keys, expected.as_slice()) {
        Ok(_) => {},
        Err(error) => {
            return Err(error);
        },
    }
    let transfer = match unpack_token(instruction.data.as_slice()) {
        Some(transfer) => transfer,
        None => {
            return Err(ObserverError::UnexpectedTokenEffect);
        },
    };
    let (side, amount) = if same_array(&mint, &market.base_mint) && same_array(
        &destination,
        &market.venue_base_account,
    ) {
        (Side::Sell, market.base_lot_atoms)
    } else if same_array(&mint, &market.quote_mint) && same_array(
        &destination,
        &market.venue_quote_account,
    ) {
        (Side::Buy, market.quote_atoms_per_lot)
    } else {
        return Err(ObserverError::UnexpectedAccount);
    };
    match transfer {
        Some((actual, decimals)) => if actual == amount && decimals == 0 {
            Ok(PublicAction::Individual { wallet, side, lots: 1 })
        } else {
            Err(ObserverError::UnexpectedTokenEffect)
        },
        None => Err(ObserverError::UnexpectedTokenEffect),
    }
}

/// What an observer sees of a lock and its settlement, both confirmed, or why it refuses them.
pub open spec fn confirmed_trace(
    lock: FetchedTransaction,
    settlement: FetchedTransaction,
    accounts: KagebObserverAccounts,
    ids: ProgramIds,
) -> Result<Seq<PublicAction>, ObserverError> {
    match confirmed(lock) {
        Err(error) => Err(error),
        Ok(lock) => match confirmed(settlement) {
            Err(error) => Err(error),
            Ok(settlement) => kageb_trace(lock, settlement, accounts, ids),
        },
    }
}

impl PublicTrace {
    /// What an observer sees of a lock and its settlement, once they are decoded.
    pub fn observe_kageb(
        lock: &ObservedTransaction,
        settlement: &ObservedTransaction,
        accounts: &KagebObserverAccounts,
        ids: &ProgramIds,
    ) -> (trace: Result<Self, ObserverError>)
        ensures
            match (trace, kageb_trace(lock@, settlement@, *accounts, *ids)) {
                (Ok(trace), Ok(actions)) => trace@ == actions,
                (Err(error), Err(expected)) => error == expected,
                _ => false,
            },
    {
        match require_fee_payer(lock.keys(), &accounts.fee_payer) {
            Ok(_) => {},
            Err(error) => {
                return Err(error);
            },
        }
        match require_fee_payer(settlement.keys(), &accounts.fee_payer) {
            Ok(_) => {},
            Err(error) => {
                return Err(error);
            },
        }
        let lock_approvals: usize = match exact_kageb_instruction(lock, 2, ids) {
            Ok(position) => position,
            Err(error) => {
                return Err(error);
            },
        };
        let settlement_approvals: usize = match exact_kageb_instruction(settlement, 3, ids) {
            Ok(position) => position,
            Err(error) => {
                return Err(error);
            },
        };
        if lock_approvals != 2 || settlement_approvals != 2 {
            return Err(ObserverError::UnexpectedInstruction);
        }
        let member_root = match check_lock_call(lock, accounts, ids) {
            Ok(member_root) => member_root,
            Err(error) => {
                return Err(error);
            },
        };
        let (residual, result_commitment) = match check_settlement_call(settlement, accounts, ids) {
            Ok(shown) => shown,
            Err(error) => {
                return Err(error);
            },
        };
        let mut actions: Vec<PublicAction> = Vec::new();
        actions.push(
            PublicAction::Aggregate {
                pool: accounts.pool,
                venue: accounts.venue_authority,
                residual,
                member_root,
                result_commitment,
                keyper_approvals: 2,
            },
        );
        Ok(PublicTrace { actions })
    }

    /// What an observer sees of a confirmed lock and its confirmed settlement.
    pub fn from_confirmed_kageb(
        lock: &FetchedTransaction,
        settlement: &FetchedTransaction,
        accounts: &KagebObserverAccounts,
        ids: &ProgramIds,
    ) -> (trace: Result<Self, ObserverError>)
        ensures
            match (trace, confirmed_trace(*lock, *settlement, *accounts, *ids)) {
                (Ok(trace), Ok(actions)) => trace@ == actions,
                (Err(error), Err(expected)) => error == expected,
                _ => false,
            },
    {
        let lock = match decode_confirmed(lock) {
            Ok(lock) => lock,
            Err(error) => {
                return Err(error);
            },
        };
        let settlement = match decode_confirmed(settlement) {
            Ok(settlement) => settlement,
            Err(error) => {
                return Err(error);
            },
        };
        Self::observe_kageb(&lock, &settlement, accounts, ids)
    }

    /// What an observer sees of a transaction that a wallet sent itself, once it is decoded.
    pub fn observe_direct(
        transaction: &ObservedTransaction,
        market: &DirectMarketAccounts,
        ids: &ProgramIds,
    ) -> (action: Result<PublicAction, ObserverError>)
        ensures
            action == direct_action(transaction@, *market, *ids),
    {
        match require_fee_payer(transaction.keys(), &market.fee_payer) {
            Err(error) => Err(error),
            Ok(_) => if transaction.inner.len() != 0 || transaction.total() != 1 || !names_key(
                transaction.keys(),
                transaction.instruction(0).program_id_index,
                &ids.token_program,
            ) || transaction.instruction(0).accounts.len() != 4 {
                Err(ObserverError::UnexpectedInstruction)
            } else {
                read_transfer(transaction.keys(), transaction.instruction(0), market, ids)
            },
        }
    }

    /// What an observer sees of confirmed transactions that wallets sent themselves.
    pub fn from_confirmed_direct(
        transactions: &[FetchedTransaction],
        market: &DirectMarketAccounts,
        ids: &ProgramIds,
    ) -> (trace: Result<Self, ObserverError>)
        ensures
            match (
                trace,
                direct_trace(transactions@, *market, *ids, transactions@.len() as int),
            ) {
                (Ok(trace), Ok(actions)) => trace@ == actions,
                (Err(error), Err(expected)) => error == expected,
                _ => false,
            },
    {
        let mut actions: Vec<PublicAction> = Vec::new();
        let mut i: usize = 0;
        while i < transactions.len()
            invariant
                i <= transactions@.len(),
                direct_trace(transactions@, *market, *ids, i as int) == Ok::<
                    Seq<PublicAction>,
                    ObserverError,
                >(actions@),
            decreases transactions@.len() - i,
        {
            let action = match decode_confirmed(&transactions[i]) {
                Err(error) => Err(error),
                Ok(transaction) => Self::observe_direct(&transaction, market, ids),
            };
            assert(action == confirmed_action(transactions@[i as int], *market, *ids));
            match action {
                Ok(action) => {
                    actions.push(action);
                },
                Err(error) => {
                    proof {
                        lemma_direct_refused(
                            transactions@,
                            *market,
                            *ids,
                            i as int,
                            transactions@.len() as int,
                            error,
                        );
                    }
                    return Err(error);
                },
            }
            i += 1;
        }
        Ok(PublicTrace { actions })
    }
}

/// A confirmed lock and settlement show the pool and no wallet.
pub proof fn law_confirmed_pool_trace_names_no_wallet(
    lock: FetchedTransaction,
    settlement: FetchedTransaction,
    accounts: KagebObserverAccounts,
    ids: ProgramIds,
)
    requires
        confirmed_trace(lock, settlement, accounts, ids) is Ok,
    ensures
        confirmed_trace(lock, settlement, accounts, ids).unwrap().len() == 1,
        wallets(confirmed_trace(lock, settlement, accounts, ids).unwrap()).len() == 0,
        individuals(confirmed_trace(lock, settlement, accounts, ids).unwrap()) == 0,
{
    law_pooled_trace_names_no_wallet(confirmed_trace(lock, settlement, accounts, ids).unwrap());
}

} // verus!
