//! What a demonstration run checks, prints and publishes.

use crate::bytes::same_array;
use crate::domain::Side;
use crate::encodings::{pubkey_text, pubkey_to_text};
use crate::evidence::{DecodedInstructionEvidenceV1, DevnetEvidenceContentV1, InstructionFields};
use crate::evidence_decode::funding_entries;
use crate::evidence_snapshot::{fundings_say, StatusRead};
use crate::evidence_state::instruction_fields;
use crate::keyper::{contains_bytes, occurs};
use crate::member::{MEMBER_BASE_ATOMS, MEMBER_QUOTE_ATOMS};
use crate::observer::{individuals, wallets, ProgramIds, PublicAction, PublicTrace};
use crate::program::{EpochStateV1, EpochTerminalState, PoolStateV1, SettlementPayloadV1};
use crate::text::{copy_text, decimal, push_decimal, push_text};
use vstd::bytes::{spec_u64_from_le_bytes, u64_from_le_bytes};
use vstd::prelude::*;
use vstd::slice::slice_subrange;
use vstd::string::*;
use vstd::utf8::encode_utf8;

verus! {

/// The amounts of four token accounts: the pool's base and quote, then the venue's.
pub open spec fn amounts(pool_base: u64, pool_quote: u64, venue_base: u64, venue_quote: u64) -> Seq<
    u64,
> {
    seq![pool_base, pool_quote, venue_base, venue_quote]
}

fn same_amounts(a: &[u64; 4], b: &[u64; 4]) -> (same: bool)
    ensures
        same == (a@ == b@),
{
    let same = a[0] == b[0] && a[1] == b[1] && a[2] == b[2] && a[3] == b[3];
    proof {
        if same {
            assert(a@ =~= b@);
        }
    }
    same
}

/// Whether a run settled: three buys and one sell of one lot each bought two lots from the venue.
pub open spec fn settled_buying_two(state: EpochTerminalState, after: Seq<u64>) -> bool {
    state == EpochTerminalState::Settled && after == amounts(6, 200, 8, 200)
}

/// Whether a run settled: three buys and one sell of one lot each bought two lots from the venue.
pub fn is_settled_buying_two(state: EpochTerminalState, after: &[u64; 4]) -> (settled: bool)
    ensures
        settled == settled_buying_two(state, after@),
{
    let expected: [u64; 4] = [6, 200, 8, 200];
    assert(expected@ =~= amounts(6, 200, 8, 200));
    state == EpochTerminalState::Settled && same_amounts(after, &expected)
}

/// Whether four funded lots stood in the pool, and ten base atoms at the venue.
pub open spec fn run_funded(before: Seq<u64>) -> bool {
    before == amounts(4, 400, 10, 0)
}

/// Whether four funded lots stood in the pool, and ten base atoms at the venue.
pub fn is_funded(before: &[u64; 4]) -> (funded: bool)
    ensures
        funded == run_funded(before@),
{
    let expected: [u64; 4] = [4, 400, 10, 0];
    assert(expected@ =~= amounts(4, 400, 10, 0));
    same_amounts(before, &expected)
}

/// How many members a demonstration epoch has.
pub const RUN_MEMBERS: u32 = 4;

/// Whether an epoch settled with all members of a run, and recorded the result that was approved.
pub open spec fn settled_as_approved(state: EpochStateV1, result_commitment: [u8; 32]) -> bool {
    state.terminal_state == EpochTerminalState::Settled && state.member_count == RUN_MEMBERS
        && state.result_commitment == result_commitment
}

/// Whether an epoch settled with all members of a run, and recorded the result that was approved.
pub fn is_settled_as_approved(state: &EpochStateV1, result_commitment: &[u8; 32]) -> (settled: bool)
    ensures
        settled == settled_as_approved(*state, *result_commitment),
{
    state.terminal_state == EpochTerminalState::Settled && state.member_count == RUN_MEMBERS
        && same_array(&state.result_commitment, result_commitment)
}

/// Whether an epoch trades the lot of its pool.
pub fn has_lot_of_pool(state: &EpochStateV1, pool: &PoolStateV1) -> (has: bool)
    ensures
        has == (state.base_lot_atoms == pool.base_lot_atoms),
{
    state.base_lot_atoms == pool.base_lot_atoms
}

/// The base and quote atoms that a wallet is given, to fund one lot of the pool on both sides and to
/// send one direct order.
pub open spec fn funds_for(side: Side) -> (int, int) {
    (
        if side == Side::Sell {
            2 * MEMBER_BASE_ATOMS
        } else {
            MEMBER_BASE_ATOMS as int
        },
        if side == Side::Buy {
            2 * MEMBER_QUOTE_ATOMS
        } else {
            MEMBER_QUOTE_ATOMS as int
        },
    )
}

/// The base and quote atoms that a wallet is given, to fund one lot of the pool on both sides and to
/// send one direct order.
pub fn direct_funds(side: Side) -> (funds: (u64, u64))
    ensures
        funds.0 == funds_for(side).0,
        funds.1 == funds_for(side).1,
{
    match side {
        Side::Buy => (MEMBER_BASE_ATOMS, 2 * MEMBER_QUOTE_ATOMS),
        Side::Sell => (2 * MEMBER_BASE_ATOMS, MEMBER_QUOTE_ATOMS),
    }
}

/// Whether a payload sends nothing to the venue.
pub open spec fn balanced_payload(payload: SettlementPayloadV1) -> bool {
    payload.residual_side == 0 && payload.residual_lots == 0
}

/// Whether a payload sends nothing to the venue.
pub fn is_balanced_payload(payload: &SettlementPayloadV1) -> (balanced: bool)
    ensures
        balanced == balanced_payload(*payload),
{
    payload.residual_side == 0 && payload.residual_lots == 0
}

/// Whether an epoch settled without a venue leg, and left the four token accounts as they were.
pub open spec fn settled_balanced(state: EpochStateV1, before: Seq<u64>, after: Seq<u64>) -> bool {
    before == after && state.terminal_state == EpochTerminalState::Settled && state.residual_side
        == 0 && state.residual_lots == 0
}

/// Whether an epoch settled without a venue leg, and left the four token accounts as they were.
pub fn is_settled_balanced(state: &EpochStateV1, before: &[u64; 4], after: &[u64; 4]) -> (settled: bool)
    ensures
        settled == settled_balanced(*state, before@, after@),
{
    same_amounts(before, after) && state.terminal_state == EpochTerminalState::Settled
        && state.residual_side == 0 && state.residual_lots == 0
}

/// Whether an epoch was aborted, and left the four token accounts as they were.
pub open spec fn aborted_unchanged(state: EpochStateV1, before: Seq<u64>, after: Seq<u64>) -> bool {
    before == after && state.terminal_state == EpochTerminalState::Aborted
}

/// Whether an epoch was aborted, and left the four token accounts as they were.
pub fn is_aborted_unchanged(state: &EpochStateV1, before: &[u64; 4], after: &[u64; 4]) -> (aborted: bool)
    ensures
        aborted == aborted_unchanged(*state, before@, after@),
{
    same_amounts(before, after) && state.terminal_state == EpochTerminalState::Aborted
}

/// Whether an observer sees four orders where wallets sent them, and one aggregate without a wallet
/// where a pool did.
pub open spec fn traces_differ(direct: Seq<PublicAction>, pooled: Seq<PublicAction>) -> bool {
    individuals(direct) == 4 && direct.len() == 4 && individuals(pooled) == 0 && pooled.len() == 1
        && wallets(pooled).len() == 0
}

/// Whether an observer sees four orders where wallets sent them, and one aggregate without a wallet
/// where a pool did.
pub fn observer_comparison(direct: &PublicTrace, pooled: &PublicTrace) -> (differs: bool)
    ensures
        differs == traces_differ(direct@, pooled@),
{
    direct.individual_order_count() == 4 && direct.aggregate_count() == 0
        && pooled.individual_order_count() == 0 && pooled.aggregate_count() == 1
        && pooled.visible_participant_wallets().len() == 0
}

/// The amount that the data of a token account holds, where it is long enough.
pub open spec fn amount_of(data: Seq<u8>) -> Option<u64> {
    if data.len() >= 72 {
        Some(spec_u64_from_le_bytes(data.subrange(64, 72)))
    } else {
        None
    }
}

/// The amount that the data of a token account holds.
pub fn token_amount(data: &[u8]) -> (amount: Option<u64>)
    ensures
        amount == amount_of(data@),
{
    if data.len() < 72 {
        return None;
    }
    Some(u64_from_le_bytes(slice_subrange(data, 64, 72)))
}

/// What setting an epoch up costs: two mints, twelve token accounts, two program accounts and a
/// margin, where the sum can be counted.
pub open spec fn setup_cost(mint_rent: u64, token_rent: u64, state_rent: u64) -> int {
    mint_rent * 2 + token_rent * 12 + state_rent * 2 + 10000000
}

/// What setting an epoch up costs.
pub fn required_setup_balance(mint_rent: u64, token_rent: u64, state_rent: u64) -> (required: Option<
    u64,
>)
    ensures
        match required {
            Some(required) => required == setup_cost(mint_rent, token_rent, state_rent),
            None => setup_cost(mint_rent, token_rent, state_rent) > u64::MAX,
        },
{
    let total: u128 = mint_rent as u128 * 2 + token_rent as u128 * 12 + state_rent as u128 * 2
        + 10000000;
    if total <= u64::MAX as u128 {
        Some(total as u64)
    } else {
        None
    }
}

/// The two deadlines of an epoch, counted from the clock.
pub fn deadlines(now: i64, lock_after: i64, abort_after: i64) -> (deadlines: Option<(i64, i64)>)
    ensures
        match deadlines {
            Some((lock, abort)) => lock == now + lock_after && abort == now + abort_after,
            None => !(i64::MIN <= now + lock_after <= i64::MAX) || !(i64::MIN <= now + abort_after
                <= i64::MAX),
        },
{
    match (now.checked_add(lock_after), now.checked_add(abort_after)) {
        (Some(lock), Some(abort)) => Some((lock, abort)),
        _ => None,
    }
}

/// What to do about a transaction that should become final.
#[derive(Clone, Copy, Debug, PartialEq, Eq, Structural)]
pub enum FinalityStep {
    Wait,
    Fail,
    Fetch,
}

/// What to do about a transaction of a status.
pub open spec fn step_at(status: Option<StatusRead>) -> FinalityStep {
    match status {
        None => FinalityStep::Wait,
        Some(status) => if status.failed {
            FinalityStep::Fail
        } else if status.finalized {
            FinalityStep::Fetch
        } else {
            FinalityStep::Wait
        },
    }
}

/// What to do about a transaction, by the status that the cluster reports: one that failed will not
/// become final, one that is final can be fetched, and any other has to be waited for.
pub fn finality_step(status: &Option<StatusRead>) -> (step: FinalityStep)
    ensures
        step == step_at(*status),
{
    match status {
        None => FinalityStep::Wait,
        Some(status) => if status.failed {
            FinalityStep::Fail
        } else if status.finalized {
            FinalityStep::Fetch
        } else {
            FinalityStep::Wait
        },
    }
}

/// How often a confirmed transaction is asked for.
pub const FETCH_TRIES: u32 = 100;

/// How often the status of a transaction is asked for until it is final.
pub const FINALITY_TRIES: u32 = 240;

/// Whether what was tried so many times may be tried again.
pub fn may_try_again(tries: u32, limit: u32) -> (again: bool)
    ensures
        again == (tries < limit),
{
    tries < limit
}

/// Whether a file mode lets anyone execute the file.
pub fn is_executable_mode(mode: u32) -> (executable: bool)
    ensures
        executable == (mode & 0o111u32 != 0),
{
    mode & 0o111u32 != 0
}

/// Whether a deadline has passed.
pub fn is_past(now: i64, deadline: i64) -> (past: bool)
    ensures
        past == (now > deadline),
{
    now > deadline
}

/// Whether a port lies outside a range and is none of two others.
pub open spec fn port_free(candidate: u16, start: u16, end: u16, taken: Option<u16>) -> bool {
    (candidate < start || candidate > end) && match taken {
        Some(taken) => candidate != taken && candidate != taken + 1,
        None => true,
    }
}

/// Whether a port lies outside a range and is none of two others.
pub fn is_free_port(candidate: u16, start: u16, end: u16, taken: Option<u16>) -> (free: bool)
    ensures
        free == port_free(candidate, start, end, taken),
{
    if start <= candidate && candidate <= end {
        return false;
    }
    match taken {
        Some(taken) => candidate != taken && (taken == u16::MAX || candidate != taken + 1),
        None => true,
    }
}

/// Whether an artifact is missing, or older than one of the files that it is built from.
pub open spec fn artifact_stale(artifact: Option<u128>, inputs: Seq<u128>) -> bool {
    match artifact {
        Some(built) => exists|i: int| 0 <= i < inputs.len() && #[trigger] inputs[i] > built,
        None => true,
    }
}

/// Whether an artifact is missing, or older than one of the files that it is built from.
pub fn is_stale(artifact: Option<u128>, inputs: &[u128]) -> (stale: bool)
    ensures
        stale == artifact_stale(artifact, inputs@),
{
    let built: u128 = match artifact {
        Some(built) => built,
        None => {
            return true;
        },
    };
    let mut i: usize = 0;
    while i < inputs.len()
        invariant
            i <= inputs@.len(),
            artifact == Some(built),
            forall|k: int| 0 <= k < i ==> #[trigger] inputs@[k] <= built,
        decreases inputs@.len() - i,
    {
        if inputs[i] > built {
            assert(inputs@[i as int] > built);
            return true;
        }
        i += 1;
    }
    false
}

/// A byte with an ASCII capital made small.
pub open spec fn small(byte: u8) -> u8 {
    if 65 <= byte <= 90 {
        (byte + 32) as u8
    } else {
        byte
    }
}

/// A byte string with its ASCII capitals made small.
pub open spec fn made_small(bytes: Seq<u8>) -> Seq<u8> {
    bytes.map_values(|byte: u8| small(byte))
}

/// Whether a line of a log speaks of programs, caches, errors or failures.
pub fn is_diagnostic(line: &[u8]) -> (is: bool)
    ensures
        is == (occurs(made_small(line@), encode_utf8("program"@)) || occurs(
            made_small(line@),
            encode_utf8("cache"@),
        ) || occurs(made_small(line@), encode_utf8("error"@)) || occurs(
            made_small(line@),
            encode_utf8("fail"@),
        )),
{
    let mut lowered: Vec<u8> = Vec::new();
    let mut i: usize = 0;
    while i < line.len()
        invariant
            i <= line@.len(),
            lowered@.len() == i,
            forall|k: int| 0 <= k < i ==> #[trigger] lowered@[k] == small(line@[k]),
        decreases line@.len() - i,
    {
        let byte: u8 = line[i];
        lowered.push(if 65 <= byte && byte <= 90 {
            byte + 32
        } else {
            byte
        });
        i += 1;
    }
    assert(lowered@ =~= made_small(line@));
    let text = lowered.as_slice();
    contains_bytes(text, "program".as_bytes()) || contains_bytes(text, "cache".as_bytes())
        || contains_bytes(text, "error".as_bytes()) || contains_bytes(text, "fail".as_bytes())
}

/// What a run does not show.
pub open spec fn non_claim() -> Seq<char> {
    "It does not prove unique humans, production anonymity, private funding or withdrawal, a trustless exchange, protection from the KageB operator, or safe use with real funds."@
}

fn push_non_claim(out: &mut String)
    ensures
        final(out)@ == old(out)@ + non_claim(),
{
    push_text(out, "It does not prove unique humans, production anonymity, private funding or withdrawal, a trustless exchange, protection from the KageB operator, or safe use with real funds.");
}

/// What a local run prints, once it has passed.
pub open spec fn local_transcript(direct_orders: nat, aggregates: nat) -> Seq<char> {
    "WARNING: synthetic assets only; this prototype is not safe for real funds.\n"@
        + "WAIT: crowd 3/4\n"@ + "LOCKED: crowd 4/4\n"@ + "REFUSED: one share\n"@
        + "QUORUM: all 3 two-share paths agree\n"@ + "SETTLED: one aggregate\n"@
        + "RESULTS: authenticated balances persisted\n"@
        + "BALANCED: zero residual; no venue leg\n"@
        + "EXPIRED: underfilled; reservations released\n"@
        + "ABORTED: invalid reveal; trading key suspended\n"@ + "OBSERVER: direct "@ + decimal(
        direct_orders,
    ) + " orders; KageB "@ + decimal(aggregates) + " aggregate\n"@ + non_claim() + "\n"@
}

/// What a local run prints, once it has passed.
pub fn local_transcript_text(direct: &PublicTrace, pooled: &PublicTrace) -> (text: String)
    ensures
        text@ == local_transcript(
            individuals(direct@),
            (pooled@.len() - individuals(pooled@)) as nat,
        ),
{
    let direct_orders: usize = direct.individual_order_count();
    let aggregates: usize = pooled.aggregate_count();
    let mut text = String::new();
    push_text(
        &mut text,
        "WARNING: synthetic assets only; this prototype is not safe for real funds.\n",
    );
    push_text(&mut text, "WAIT: crowd 3/4\n");
    push_text(&mut text, "LOCKED: crowd 4/4\n");
    push_text(&mut text, "REFUSED: one share\n");
    push_text(&mut text, "QUORUM: all 3 two-share paths agree\n");
    push_text(&mut text, "SETTLED: one aggregate\n");
    push_text(&mut text, "RESULTS: authenticated balances persisted\n");
    push_text(&mut text, "BALANCED: zero residual; no venue leg\n");
    push_text(&mut text, "EXPIRED: underfilled; reservations released\n");
    push_text(&mut text, "ABORTED: invalid reveal; trading key suspended\n");
    push_text(&mut text, "OBSERVER: direct ");
    push_decimal(&mut text, direct_orders as u64);
    push_text(&mut text, " orders; KageB ");
    push_decimal(&mut text, aggregates as u64);
    push_text(&mut text, " aggregate\n");
    push_non_claim(&mut text);
    push_text(&mut text, "\n");
    assert(text@ =~= local_transcript(direct_orders as nat, aggregates as nat));
    text
}

/// What a run on the public test cluster prints, once it has passed.
pub open spec fn devnet_transcript(signature: Seq<char>, path: Seq<char>) -> Seq<char> {
    "LOCKED: crowd 4/4\nSETTLED: one aggregate BUY 2 lots\nVERIFIED: finalized "@ + signature
        + "\nEVIDENCE: "@ + path + "\n"@ + non_claim() + "\n"@
}

/// What a run on the public test cluster prints, once it has passed.
pub fn devnet_transcript_text(signature: &str, path: &str) -> (text: String)
    ensures
        text@ == devnet_transcript(signature@, path@),
{
    let mut text = String::new();
    push_text(
        &mut text,
        "LOCKED: crowd 4/4\nSETTLED: one aggregate BUY 2 lots\nVERIFIED: finalized ",
    );
    push_text(&mut text, signature);
    push_text(&mut text, "\nEVIDENCE: ");
    push_text(&mut text, path);
    push_text(&mut text, "\n");
    push_non_claim(&mut text);
    push_text(&mut text, "\n");
    assert(text@ =~= devnet_transcript(signature@, path@));
    text
}

/// One instruction of a lock or a settlement, by its position.
pub open spec fn listed_call(
    transaction: Seq<char>,
    position: u16,
    program: Seq<u8>,
    kind: Seq<char>,
    digest: Option<Seq<char>>,
) -> InstructionFields {
    InstructionFields { transaction, position, program: pubkey_text(program), kind, digest }
}

/// The instructions that an epoch shows which bought from the venue: four fundings, a lock with two
/// approvals, and a settlement with two approvals and two transfers.
pub open spec fn canonical_allowlist(content: DevnetEvidenceContentV1, ids: ProgramIds) -> Seq<
    InstructionFields,
> {
    let lock = Some(content.commitments.lock_digest@);
    let settlement = Some(content.commitments.settlement_digest@);
    fundings_say(4, ids.token_program@) + seq![
        listed_call("lock"@, 0, ids.ed25519_program@, "keyper-lock-approval"@, lock),
        listed_call("lock"@, 1, ids.ed25519_program@, "keyper-lock-approval"@, lock),
        listed_call("lock"@, 2, ids.program@, "epoch-lock"@, lock),
        listed_call(
            "settlement"@,
            0,
            ids.ed25519_program@,
            "keyper-settlement-approval"@,
            settlement,
        ),
        listed_call(
            "settlement"@,
            1,
            ids.ed25519_program@,
            "keyper-settlement-approval"@,
            settlement,
        ),
        listed_call("settlement"@, 2, ids.program@, "aggregate-settlement"@, settlement),
        listed_call("settlement"@, 3, ids.token_program@, "aggregate-quote-leg"@, None),
        listed_call("settlement"@, 4, ids.token_program@, "aggregate-base-leg"@, None),
    ]
}

fn list_call(
    transaction: &str,
    position: u16,
    program: &[u8; 32],
    kind: &str,
    digest: Option<&str>,
) -> (entry: DecodedInstructionEvidenceV1)
    ensures
        entry@ == listed_call(
            transaction@,
            position,
            program@,
            kind@,
            match digest {
                Some(digest) => Some(digest@),
                None => None,
            },
        ),
{
    DecodedInstructionEvidenceV1 {
        transaction: copy_text(transaction),
        position,
        program: pubkey_to_text(program),
        kind: copy_text(kind),
        digest: match digest {
            Some(digest) => Some(copy_text(digest)),
            None => None,
        },
    }
}

fn push_funding(out: &mut Vec<DecodedInstructionEvidenceV1>, index: usize, token_program: &[u8; 32])
    ensures
        instruction_fields(final(out)@) == instruction_fields(old(out)@) + funding_entries(
            index as nat,
            token_program@,
        ),
{
    let mut name = String::new();
    push_text(&mut name, "funding-");
    push_decimal(&mut name, index as u64);
    assert(name@ =~= "funding-"@ + decimal(index as nat));
    out.push(list_call(name.as_str(), 0, token_program, "pool-funding-base", None));
    out.push(list_call(name.as_str(), 1, token_program, "pool-funding-quote", None));
    assert(instruction_fields(out@) =~= instruction_fields(old(out)@) + funding_entries(
        index as nat,
        token_program@,
    ));
}

/// The instructions that an epoch shows which bought from the venue.
pub fn canonical_devnet_allowlist(content: &DevnetEvidenceContentV1, ids: &ProgramIds) -> (list: Vec<
    DecodedInstructionEvidenceV1,
>)
    ensures
        instruction_fields(list@) == canonical_allowlist(*content, *ids),
{
    let mut list: Vec<DecodedInstructionEvidenceV1> = Vec::new();
    let mut i: usize = 0;
    assert(instruction_fields(list@) =~= fundings_say(0, ids.token_program@));
    while i < 4
        invariant
            i <= 4,
            instruction_fields(list@) == fundings_say(i as nat, ids.token_program@),
        decreases 4 - i,
    {
        push_funding(&mut list, i, &ids.token_program);
        i += 1;
    }
    let ghost fundings = instruction_fields(list@);
    let ghost start = list@;
    let lock = content.commitments.lock_digest.as_str();
    let settlement = content.commitments.settlement_digest.as_str();
    list.push(list_call("lock", 0, &ids.ed25519_program, "keyper-lock-approval", Some(lock)));
    list.push(list_call("lock", 1, &ids.ed25519_program, "keyper-lock-approval", Some(lock)));
    list.push(list_call("lock", 2, &ids.program, "epoch-lock", Some(lock)));
    list.push(
        list_call(
            "settlement",
            0,
            &ids.ed25519_program,
            "keyper-settlement-approval",
            Some(settlement),
        ),
    );
    list.push(
        list_call(
            "settlement",
            1,
            &ids.ed25519_program,
            "keyper-settlement-approval",
            Some(settlement),
        ),
    );
    list.push(list_call("settlement", 2, &ids.program, "aggregate-settlement", Some(settlement)));
    list.push(list_call("settlement", 3, &ids.token_program, "aggregate-quote-leg", None));
    list.push(list_call("settlement", 4, &ids.token_program, "aggregate-base-leg", None));
    assert(instruction_fields(list@) =~= canonical_allowlist(*content, *ids));
    list
}

/// A run that began funded and settled as a purchase of two lots gave the pool two base atoms for two
/// hundred quote atoms, which the venue gave and got; with fewer or other amounts it did neither.
pub proof fn law_run_buys_two_lots(state: EpochTerminalState, before: Seq<u64>, after: Seq<u64>)
    requires
        before.len() == 4,
        after.len() == 4,
    ensures
        run_funded(before) <==> before[0] == 4 && before[1] == 400 && before[2] == 10 && before[3]
            == 0,
        run_funded(before) ==> (settled_buying_two(state, after) <==> {
            &&& state == EpochTerminalState::Settled
            &&& after[0] == before[0] + 2
            &&& after[1] == before[1] - 200
            &&& after[2] == before[2] - 2
            &&& after[3] == before[3] + 200
        }),
{
    if before[0] == 4 && before[1] == 400 && before[2] == 10 && before[3] == 0 {
        assert(before =~= amounts(4, 400, 10, 0));
    }
    if after[0] == 6 && after[1] == 200 && after[2] == 8 && after[3] == 200 {
        assert(after =~= amounts(6, 200, 8, 200));
    }
}

/// An epoch ends a run as it should exactly where it settled with four members and the approved result,
/// settled with nothing for the venue and no token account changed, or was aborted with none changed.
pub proof fn law_run_ends_are_exact(
    state: EpochStateV1,
    result_commitment: [u8; 32],
    before: Seq<u64>,
    after: Seq<u64>,
    payload: SettlementPayloadV1,
)
    ensures
        settled_as_approved(state, result_commitment) <==> {
            &&& state.terminal_state == EpochTerminalState::Settled
            &&& state.member_count == 4
            &&& state.result_commitment == result_commitment
        },
        settled_balanced(state, before, after) <==> {
            &&& state.terminal_state == EpochTerminalState::Settled
            &&& state.residual_side == 0
            &&& state.residual_lots == 0
            &&& after == before
        },
        aborted_unchanged(state, before, after) <==> {
            &&& state.terminal_state == EpochTerminalState::Aborted
            &&& after == before
        },
        balanced_payload(payload) <==> payload.residual_side == 0 && payload.residual_lots == 0,
{
}

/// A wallet is given what funds one lot on both sides, and what one direct order on its side sends: a
/// buyer another price, a seller another lot.
pub proof fn law_wallets_can_fund_and_order(side: Side)
    ensures
        side == Side::Buy ==> funds_for(side) == (1int, 100int + 100int),
        side == Side::Sell ==> funds_for(side) == (1int + 1int, 100int),
{
}

/// An observer tells the two ways apart where it sees four single orders on one, each with its wallet,
/// and one aggregate on the other with no wallet at all.
pub proof fn law_told_apart_traces_are_exact(
    direct: Seq<PublicAction>,
    pooled: Seq<PublicAction>,
    i: int,
)
    ensures
        traces_differ(direct, pooled) ==> direct.len() == 4 && pooled.len() == 1 && wallets(
            direct,
        ).len() == 4 && wallets(pooled).len() == 0,
        traces_differ(direct, pooled) && 0 <= i < 4 ==> direct[i] is Individual,
        traces_differ(direct, pooled) ==> pooled[0] is Aggregate,
        direct.len() == 4 && (forall|k: int| 0 <= k < 4 ==> (#[trigger] direct[k]) is Individual)
            && pooled.len() == 1 && pooled[0] is Aggregate ==> traces_differ(direct, pooled),
{
    lemma_single_actions(direct);
    lemma_single_actions(pooled);
    if traces_differ(direct, pooled) {
        if pooled[0] is Individual {
            assert(forall|k: int| 0 <= k < pooled.len() ==> (#[trigger] pooled[k]) is Individual);
        }
    }
    if pooled.len() == 1 && pooled[0] is Aggregate {
        assert(pooled.drop_last().len() == 0);
        assert(individuals(pooled.drop_last()) == 0);
        assert(wallets(pooled.drop_last()).len() == 0);
        assert(pooled.last() == pooled[0]);
    }
}

proof fn lemma_single_actions(actions: Seq<PublicAction>)
    ensures
        individuals(actions) <= actions.len(),
        wallets(actions).len() == individuals(actions),
        individuals(actions) == actions.len() <==> (forall|k: int|
            0 <= k < actions.len() ==> (#[trigger] actions[k]) is Individual),
    decreases actions.len(),
{
    if actions.len() > 0 {
        let rest = actions.drop_last();
        lemma_single_actions(rest);
        if individuals(actions) == actions.len() {
            assert forall|k: int| 0 <= k < actions.len() implies (
            #[trigger] actions[k]) is Individual by {
                if k < actions.len() - 1 {
                    assert(rest[k] == actions[k]);
                }
            }
        }
        if forall|k: int| 0 <= k < actions.len() ==> (#[trigger] actions[k]) is Individual {
            assert forall|k: int| 0 <= k < rest.len() implies (#[trigger] rest[k]) is Individual by {
                assert(rest[k] == actions[k]);
            }
            assert(actions[actions.len() - 1] is Individual);
        }
    }
}

/// A transaction is fetched only where the cluster reports it final and not failed, given up where it
/// failed, and waited for everywhere else.
pub proof fn law_finality_steps_are_exact(status: StatusRead)
    ensures
        step_at(None) == FinalityStep::Wait,
        step_at(Some(status)) == FinalityStep::Fail <==> status.failed,
        step_at(Some(status)) == FinalityStep::Fetch <==> status.finalized && !status.failed,
        step_at(Some(status)) == FinalityStep::Wait <==> !status.finalized && !status.failed,
{
}

/// A port is free exactly where it lies outside the range, and is neither the taken one nor the next.
pub proof fn law_free_ports_are_exact(candidate: u16, start: u16, end: u16, taken: u16)
    ensures
        port_free(candidate, start, end, None) <==> !(start <= candidate <= end),
        port_free(candidate, start, end, Some(taken)) <==> !(start <= candidate <= end) && candidate
            != taken && candidate != taken + 1,
{
}

/// An artifact is fresh exactly where it exists and nothing that it is built from is newer.
pub proof fn law_fresh_artifacts_are_exact(built: u128, inputs: Seq<u128>)
    ensures
        artifact_stale(None, inputs),
        !artifact_stale(Some(built), inputs) <==> (forall|i: int|
            0 <= i < inputs.len() ==> #[trigger] inputs[i] <= built),
{
}

/// Setting up takes the rent of two mints, twelve token accounts and two program accounts, and ten million
/// lamports beside it.
pub proof fn law_setup_costs_are_exact(mint: u64, token: u64, state: u64)
    ensures
        setup_cost(0, 0, 0) == 10_000_000,
        setup_cost(mint, token, state) - setup_cost(0, token, state) == 2 * mint,
        setup_cost(mint, token, state) - setup_cost(mint, 0, state) == 12 * token,
        setup_cost(mint, token, state) - setup_cost(mint, token, 0) == 2 * state,
{
}

/// A token account holds its amount behind its mint and its owner.
pub proof fn law_token_amounts_are_read_from_their_place(data: Seq<u8>)
    ensures
        data.len() >= 72 ==> amount_of(data) == Some(spec_u64_from_le_bytes(data.subrange(64, 72))),
        data.len() < 72 ==> amount_of(data) is None,
{
}

/// A log line is looked at without regard to the case of its letters.
pub proof fn law_capitals_are_made_small(bytes: Seq<u8>, i: int)
    requires
        0 <= i < bytes.len(),
    ensures
        made_small(bytes).len() == bytes.len(),
        65 <= bytes[i] <= 90 ==> made_small(bytes)[i] == bytes[i] + 32,
        !(65 <= bytes[i] <= 90) ==> made_small(bytes)[i] == bytes[i],
{
}

/// The instructions of a run are sixteen: two for each of four fundings; two approvals of the lock and the
/// lock, with its digest; two approvals of the settlement and the settlement, with its digest; and its two
/// legs, what the pool pays before what it is paid.
pub proof fn law_told_instructions_are_sixteen(
    content: DevnetEvidenceContentV1,
    ids: ProgramIds,
    i: int,
)
    ensures
        ({
            let list = canonical_allowlist(content, ids);
            let lock = Some(content.commitments.lock_digest@);
            let settlement = Some(content.commitments.settlement_digest@);
            let signatures = pubkey_text(ids.ed25519_program@);
            let tokens = pubkey_text(ids.token_program@);
            &&& list.len() == 16
            &&& 0 <= i < 8 ==> list[i] == fundings_say(4, ids.token_program@)[i]
            &&& list[8] == (InstructionFields {
                transaction: "lock"@,
                position: 0,
                program: signatures,
                kind: "keyper-lock-approval"@,
                digest: lock,
            })
            &&& list[9] == (InstructionFields {
                transaction: "lock"@,
                position: 1,
                program: signatures,
                kind: "keyper-lock-approval"@,
                digest: lock,
            })
            &&& list[10] == (InstructionFields {
                transaction: "lock"@,
                position: 2,
                program: pubkey_text(ids.program@),
                kind: "epoch-lock"@,
                digest: lock,
            })
            &&& list[11] == (InstructionFields {
                transaction: "settlement"@,
                position: 0,
                program: signatures,
                kind: "keyper-settlement-approval"@,
                digest: settlement,
            })
            &&& list[12] == (InstructionFields {
                transaction: "settlement"@,
                position: 1,
                program: signatures,
                kind: "keyper-settlement-approval"@,
                digest: settlement,
            })
            &&& list[13] == (InstructionFields {
                transaction: "settlement"@,
                position: 2,
                program: pubkey_text(ids.program@),
                kind: "aggregate-settlement"@,
                digest: settlement,
            })
            &&& list[14] == (InstructionFields {
                transaction: "settlement"@,
                position: 3,
                program: tokens,
                kind: "aggregate-quote-leg"@,
                digest: None,
            })
            &&& list[15] == (InstructionFields {
                transaction: "settlement"@,
                position: 4,
                program: tokens,
                kind: "aggregate-base-leg"@,
                digest: None,
            })
        }),
{
    crate::decode_laws::law_fundings_say_two_legs_each(4, 0, ids.token_program@);
}

} // verus!
