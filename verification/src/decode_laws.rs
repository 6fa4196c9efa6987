//! What fetched transactions are decoded to.

use crate::encodings::{pubkey_decoded, pubkey_text, signature_decoded};
use crate::evidence::{
    digest_named, first_refusal, DevnetEvidenceContentV1, DevnetEvidenceError,
    FundingTransactionEvidenceV1, InstructionFields,
};
use crate::evidence_calls::{
    approval_verifies, call_read, call_refusals, completes, decoded_call, digests_agree,
    keyper_keys, leg_kind, legs_decode_refusal, observed_call_refusal, payload_named,
    settlement_legs, signed_before,
};
use crate::evidence_checks::{transaction_of, FinalizedTransactionSnapshotV1};
use crate::evidence_decode::{
    all_digits, amount_named, balance_of, digits_of, digits_value, first_balance,
    funding_decode_refusal, funding_leg_refusal, funding_legs, is_funding_shape,
    observed_funding_refusal, FundingLeg,
};
use crate::evidence_laws::lemma_all_pass;
use crate::evidence_snapshot::{
    amounts_refusal, amounts_shown, answer_refusal, answer_refusals, balance_refusals,
    epoch_refusal, fetched_funding_refusals, fetched_instructions, fetched_refusal, fundings_say,
    given_fundings, observed_accounts, takes_down, takes_epoch, used_sources, EpochTaken,
    FetchedAnswer,
};
use crate::evidence_state::instruction_fields;
use crate::observer::{
    confirmed_trace, ApprovalRead, CompactSettlementV1, KagebObserverAccounts, KagebRead,
    ProgramIds,
};
use crate::program::SettlementPayloadV1;
use crate::signing::ed25519_strictly_verifies;
use crate::text::{decimal, digit, hex};
use crate::transaction::{
    FetchedTransaction, InnerRead, InstructionParts, ObservedInner, ObservedParts,
    TokenBalanceRead,
};
use vstd::bytes::spec_u64_from_le_bytes;
use vstd::prelude::*;
use vstd::string::*;
use vstd::utf8::{encode_utf8, is_ascii_chars, is_ascii_chars_encode_utf8};

verus! {

/// A number is written with its decimal digits, the last one being what is left over by ten.
pub proof fn law_numbers_are_written_in_decimal(n: nat)
    ensures
        decimal(n).len() > 0,
        n < 10 ==> decimal(n).len() == 1,
        n >= 10 ==> decimal(n) == decimal(n / 10) + decimal(n % 10),
        forall|i: int| 0 <= i < decimal(n).len() ==> '0' <= #[trigger] decimal(n)[i] <= '9',
        is_ascii_chars(decimal(n)),
        digits_value(encode_utf8(decimal(n))) == n,
        all_digits(encode_utf8(decimal(n))),
    decreases n,
{
    assert(n % 10 < 10);
    assert(digit(n % 10) == (48 + n % 10) as char);
    if n >= 10 {
        law_numbers_are_written_in_decimal(n / 10);
        assert(decimal(n) =~= decimal(n / 10) + decimal(n % 10));
        assert forall|i: int| 0 <= i < decimal(n).len() implies '0' <= #[trigger] decimal(n)[i]
            <= '9' by {
            if i < decimal(n / 10).len() {
                assert(decimal(n)[i] == decimal(n / 10)[i]);
            }
        }
    }
    let text = decimal(n);
    assert(is_ascii_chars(text));
    is_ascii_chars_encode_utf8(text);
    let bytes = encode_utf8(text);
    assert(bytes.last() == 48 + n % 10);
    if n >= 10 {
        let front = decimal(n / 10);
        is_ascii_chars_encode_utf8(front);
        assert(bytes.drop_last() =~= encode_utf8(front));
        assert(digits_value(bytes) == digits_value(bytes.drop_last()) * 10 + (bytes.last() - 48));
        assert(n == n / 10 * 10 + n % 10);
    } else {
        assert(bytes.drop_last().len() == 0);
        assert(digits_value(bytes.drop_last()) == 0);
    }
}

/// An amount that is written in decimal is read as it was written; text that holds anything but digits, or
/// none of them, or a number that does not fit, is no amount.
pub proof fn law_amounts_read_back(amount: u64, text: Seq<char>)
    ensures
        amount_named(decimal(amount as nat)) == Some(amount),
        amount_named(seq!['+'] + decimal(amount as nat)) == Some(amount),
        amount_named(text) matches Some(read) ==> {
            let digits = digits_of(encode_utf8(text));
            &&& digits.len() > 0
            &&& forall|i: int| 0 <= i < digits.len() ==> 48 <= #[trigger] digits[i] <= 57
            &&& read == digits_value(digits)
        },
        amount_named(text) is None ==> {
            let digits = digits_of(encode_utf8(text));
            ||| digits.len() == 0
            ||| exists|i: int| 0 <= i < digits.len() && !(48 <= #[trigger] digits[i] <= 57)
            ||| digits_value(digits) > u64::MAX
        },
{
    law_numbers_are_written_in_decimal(amount as nat);
    let written = decimal(amount as nat);
    is_ascii_chars_encode_utf8(written);
    let bytes = encode_utf8(written);
    assert(bytes[0] == written[0] as u8);
    assert(digits_of(bytes) == bytes);
    let marked = seq!['+'] + written;
    assert(is_ascii_chars(marked));
    is_ascii_chars_encode_utf8(marked);
    assert(encode_utf8(marked)[0] == 43);
    assert(digits_of(encode_utf8(marked)) =~= bytes);
}

/// The balance that a transaction shows for an account is that of its first entry, and stands only where
/// the entry is of the mint, the owner and the token program that are asked for, in whole atoms.
pub proof fn law_shown_balances_are_exact(
    balances: Seq<TokenBalanceRead>,
    keys: Seq<[u8; 32]>,
    key: [u8; 32],
    mint: Seq<char>,
    owner: Seq<char>,
    token_program: Seq<u8>,
    i: int,
    amount: u64,
)
    requires
        0 <= i < balances.len(),
        balances[i].account_index < keys.len(),
        keys[balances[i].account_index as int] == key,
        forall|k: int|
            0 <= k < i && (#[trigger] balances[k]).account_index < keys.len()
                ==> keys[balances[k].account_index as int] != key,
    ensures
        first_balance(balances, keys, key) == Some(balances[i]),
        balance_of(balances, keys, key, mint, owner, token_program) == Some(amount) <==> {
            &&& balances[i].mint@ == mint
            &&& balances[i].decimals == 0
            &&& balances[i].owner matches Some(text) && text@ == owner
            &&& balances[i].program matches Some(text) && text@ == pubkey_text(token_program)
            &&& amount_named(balances[i].amount@) == Some(amount)
        },
    decreases i,
{
    if i > 0 {
        let rest = balances.drop_first();
        assert(rest[i - 1] == balances[i]);
        assert forall|k: int|
            0 <= k < i - 1 && (#[trigger] rest[k]).account_index
                < keys.len() implies keys[rest[k].account_index as int] != key by {
            assert(rest[k] == balances[k + 1]);
        }
        law_shown_balances_are_exact(
            rest,
            keys,
            key,
            mint,
            owner,
            token_program,
            i - 1,
            amount,
        );
        assert(balances[0].account_index < keys.len()
            ==> keys[balances[0].account_index as int] != key);
    }
}

/// An account that a transaction does not list shows no balance.
pub proof fn law_unlisted_accounts_show_nothing(
    balances: Seq<TokenBalanceRead>,
    keys: Seq<[u8; 32]>,
    key: [u8; 32],
    mint: Seq<char>,
    owner: Seq<char>,
    token_program: Seq<u8>,
)
    requires
        forall|k: int|
            0 <= k < balances.len() && (#[trigger] balances[k]).account_index < keys.len()
                ==> keys[balances[k].account_index as int] != key,
    ensures
        balance_of(balances, keys, key, mint, owner, token_program) is None,
    decreases balances.len(),
{
    if balances.len() > 0 {
        let rest = balances.drop_first();
        assert forall|k: int|
            0 <= k < rest.len() && (#[trigger] rest[k]).account_index
                < keys.len() implies keys[rest[k].account_index as int] != key by {
            assert(rest[k] == balances[k + 1]);
        }
        law_unlisted_accounts_show_nothing(rest, keys, key, mint, owner, token_program);
        assert(balances[0].account_index < keys.len()
            ==> keys[balances[0].account_index as int] != key);
    }
}

/// A participant funds the pool with a lot and its price: the base leg goes from its base source to the
/// pool's base vault, the quote leg from its quote source to the pool's quote vault.
pub proof fn law_funding_legs_are_exact(
    evidence: DevnetEvidenceContentV1,
    funding: FundingTransactionEvidenceV1,
    base: FundingLeg,
    quote: FundingLeg,
)
    ensures
        funding_legs(evidence, funding) == Some((base, quote)) <==> {
            &&& pubkey_decoded(funding.base_source@) == Some(base.source)
            &&& pubkey_decoded(evidence.accounts.pool_base_vault@) == Some(base.destination)
            &&& pubkey_decoded(evidence.accounts.base_mint@) == Some(base.mint)
            &&& base.amount == evidence.configuration.base_lot_atoms
            &&& pubkey_decoded(funding.quote_source@) == Some(quote.source)
            &&& pubkey_decoded(evidence.accounts.pool_quote_vault@) == Some(quote.destination)
            &&& pubkey_decoded(evidence.accounts.quote_mint@) == Some(quote.mint)
            &&& quote.amount == evidence.configuration.quote_atoms_per_lot
        },
{
}

/// A funding leg passes exactly where one transfer of the token program moves its amount from the source
/// to the vault, both of its mint, the source being the payer's own and not used before, and where the
/// shown balances say that the source lost the amount and the vault gained it.
pub proof fn law_funding_moves_its_amount(
    keys: Seq<[u8; 32]>,
    instruction: InstructionParts,
    before: Seq<TokenBalanceRead>,
    after: Seq<TokenBalanceRead>,
    leg: FundingLeg,
    authority: [u8; 32],
    vault_authority: Seq<char>,
    owner: [u8; 32],
    used: Seq<[u8; 32]>,
    token_program: [u8; 32],
    source_before: u64,
    source_after: u64,
    vault_before: u64,
    vault_after: u64,
)
    requires
        pubkey_decoded(vault_authority) == Some(owner),
        balance_of(
            before,
            keys,
            leg.source,
            pubkey_text(leg.mint@),
            pubkey_text(authority@),
            token_program@,
        ) == Some(source_before),
        balance_of(
            after,
            keys,
            leg.source,
            pubkey_text(leg.mint@),
            pubkey_text(authority@),
            token_program@,
        ) == Some(source_after),
        balance_of(
            before,
            keys,
            leg.destination,
            pubkey_text(leg.mint@),
            pubkey_text(owner@),
            token_program@,
        ) == Some(vault_before),
        balance_of(
            after,
            keys,
            leg.destination,
            pubkey_text(leg.mint@),
            pubkey_text(owner@),
            token_program@,
        ) == Some(vault_after),
    ensures
        funding_leg_refusal(
            keys,
            instruction,
            before,
            after,
            leg,
            authority,
            vault_authority,
            used,
            token_program,
        ) is None <==> {
            &&& instruction.program_id_index < keys.len()
            &&& keys[instruction.program_id_index as int] == token_program
            &&& instruction.accounts.len() == 4
            &&& forall|i: int|
                0 <= i < 4 ==> (#[trigger] instruction.accounts[i]) < keys.len()
                    && keys[instruction.accounts[i] as int] == seq![
                    leg.source,
                    leg.mint,
                    leg.destination,
                    authority,
                ][i]
            &&& leg.source != leg.destination
            &&& !used.contains(leg.source)
            &&& instruction.data.len() >= 10
            &&& instruction.data[0] == 12
            &&& spec_u64_from_le_bytes(instruction.data.subrange(1, 9)) == leg.amount
            &&& instruction.data[9] == 0
            &&& source_after == source_before - leg.amount
            &&& vault_after == vault_before + leg.amount
        },
{
    let expected = seq![leg.source, leg.mint, leg.destination, authority];
    assert(expected.len() == 4);
}

/// A balance that is not shown, before or after, refuses a funding leg.
pub proof fn law_funding_is_shown(
    keys: Seq<[u8; 32]>,
    instruction: InstructionParts,
    before: Seq<TokenBalanceRead>,
    after: Seq<TokenBalanceRead>,
    leg: FundingLeg,
    authority: [u8; 32],
    vault_authority: Seq<char>,
    used: Seq<[u8; 32]>,
    token_program: [u8; 32],
)
    requires
        funding_leg_refusal(
            keys,
            instruction,
            before,
            after,
            leg,
            authority,
            vault_authority,
            used,
            token_program,
        ) is None,
    ensures
        pubkey_decoded(vault_authority) matches Some(owner) && {
            let mint = pubkey_text(leg.mint@);
            let payer = pubkey_text(authority@);
            let vault = pubkey_text(owner@);
            &&& balance_of(before, keys, leg.source, mint, payer, token_program@) is Some
            &&& balance_of(after, keys, leg.source, mint, payer, token_program@) is Some
            &&& balance_of(before, keys, leg.destination, mint, vault, token_program@) is Some
            &&& balance_of(after, keys, leg.destination, mint, vault, token_program@) is Some
        },
{
}

/// A funding transaction has the fee payer first, two instructions, and the payer among those who signed.
pub proof fn law_funding_shape_is_exact(
    transaction: ObservedParts,
    fee_payer: [u8; 32],
    authority: [u8; 32],
)
    ensures
        is_funding_shape(transaction, fee_payer, authority) <==> {
            &&& transaction.instructions.len() == 2
            &&& transaction.keys.len() > 0
            &&& transaction.keys[0] == fee_payer
            &&& exists|i: int|
                0 <= i < transaction.keys.len() && i < transaction.required_signatures
                    && #[trigger] transaction.keys[i] == authority
        },
{
}

/// A funding passes exactly where its transaction has the shape of one and its first instruction is the
/// base leg and its second the quote leg, the quote source being another than the base source and than
/// every source before.
pub proof fn law_fundings_are_decoded_leg_by_leg(
    transaction: ObservedParts,
    before: Seq<TokenBalanceRead>,
    after: Seq<TokenBalanceRead>,
    funding: FundingTransactionEvidenceV1,
    evidence: DevnetEvidenceContentV1,
    used: Seq<[u8; 32]>,
    token_program: [u8; 32],
    authority: [u8; 32],
    fee_payer: [u8; 32],
    base: FundingLeg,
    quote: FundingLeg,
)
    requires
        pubkey_decoded(funding.authority@) == Some(authority),
        pubkey_decoded(evidence.accounts.fee_payer@) == Some(fee_payer),
        funding_legs(evidence, funding) == Some((base, quote)),
    ensures
        observed_funding_refusal(
            transaction,
            before,
            after,
            funding,
            evidence,
            used,
            token_program,
        ) is None <==> {
            &&& is_funding_shape(transaction, fee_payer, authority)
            &&& funding_leg_refusal(
                transaction.keys,
                transaction.instructions[0],
                before,
                after,
                base,
                authority,
                evidence.accounts.vault_authority@,
                used,
                token_program,
            ) is None
            &&& funding_leg_refusal(
                transaction.keys,
                transaction.instructions[1],
                before,
                after,
                quote,
                authority,
                evidence.accounts.vault_authority@,
                used + seq![base.source],
                token_program,
            ) is None
        },
{
    assert(used.push(base.source) =~= used + seq![base.source]);
}

/// A fetched funding is decoded only where it has a status, did not fail, called nothing inside, and shows
/// its balances before and after.
pub proof fn law_fetched_fundings_are_exact(
    fetched: FetchedTransaction,
    funding: FundingTransactionEvidenceV1,
    evidence: DevnetEvidenceContentV1,
    used: Seq<[u8; 32]>,
    token_program: [u8; 32],
)
    ensures
        funding_decode_refusal(fetched, funding, evidence, used, token_program) is None <==> {
            &&& fetched.has_status
            &&& !fetched.failed
            &&& fetched.inner@.len() == 0
            &&& fetched.observed() is Some
            &&& fetched.before is Some
            &&& fetched.after is Some
            &&& observed_funding_refusal(
                fetched.observed().unwrap(),
                fetched.before.unwrap()@,
                fetched.after.unwrap()@,
                funding,
                evidence,
                used,
                token_program,
            ) is None
        },
        fetched.has_status && fetched.failed ==> funding_decode_refusal(
            fetched,
            funding,
            evidence,
            used,
            token_program,
        ) == Some(DevnetEvidenceError::FailedTransaction),
{
}

/// The fundings say two instructions each, in order: the base leg and the quote leg of the token program.
pub proof fn law_fundings_say_two_legs_each(n: nat, i: nat, token_program: Seq<u8>)
    requires
        i < n,
    ensures
        fundings_say(n, token_program).len() == 2 * n,
        fundings_say(n, token_program)[2 * i as int] == (InstructionFields {
            transaction: "funding-"@ + decimal(i),
            position: 0,
            program: pubkey_text(token_program),
            kind: "pool-funding-base"@,
            digest: None,
        }),
        fundings_say(n, token_program)[2 * i as int + 1] == (InstructionFields {
            transaction: "funding-"@ + decimal(i),
            position: 1,
            program: pubkey_text(token_program),
            kind: "pool-funding-quote"@,
            digest: None,
        }),
    decreases n,
{
    if i < n - 1 {
        law_fundings_say_two_legs_each((n - 1) as nat, i, token_program);
    } else if n > 1 {
        law_fundings_say_two_legs_each((n - 1) as nat, 0, token_program);
    } else {
        assert(fundings_say(0, token_program).len() == 0);
    }
}

/// An approval stands exactly where the signature that its instruction holds is that of its signer over
/// its digest.
pub proof fn law_onchain_approvals_are_exact(approval: Option<ApprovalRead>, data: Seq<u8>)
    ensures
        approval_verifies(approval, data) <==> {
            &&& approval is Some
            &&& data.len() >= 112
            &&& ed25519_strictly_verifies(
                approval.unwrap().signer@,
                approval.unwrap().digest@,
                data.subrange(48, 112),
            )
        },
{
}

/// An instruction of a lock or a settlement is an approval, where it is of the signature program and its
/// signature stands, the lock, where it is of the program in a lock, or the settlement, where it is of the
/// program in a settlement; nothing else is one.
pub proof fn law_calls_are_exact(
    transaction: ObservedParts,
    i: int,
    name: Seq<char>,
    evidence: DevnetEvidenceContentV1,
    ids: ProgramIds,
)
    requires
        ids.ed25519_program != ids.program,
    ensures
        ({
            let instruction = transaction.instructions[i];
            let read = crate::transaction::read_at(transaction.reads, i);
            let called = call_read(transaction, i, name, evidence, ids);
            let index = instruction.program_id_index;
            let program = transaction.keys[index as int];
            &&& index >= transaction.keys.len() ==> called is Err
            &&& called matches Ok(call) ==> {
                &&& program == ids.ed25519_program || program == ids.program
                &&& program == ids.ed25519_program ==> {
                    &&& approval_verifies(read.approval, instruction.data)
                    &&& call.signer == Some(read.approval.unwrap().signer)
                    &&& call.digest == read.approval.unwrap().digest
                    &&& name == "lock"@ ==> call.kind == "keyper-lock-approval"@
                    &&& name != "lock"@ ==> call.kind == "keyper-settlement-approval"@
                }
                &&& program == ids.program ==> {
                    &&& call.signer is None
                    &&& read.kageb matches Some(KagebRead::Lock { digest, .. }) ==> name == "lock"@
                        && call.kind == "epoch-lock"@ && call.digest == digest
                    &&& read.kageb matches Some(KagebRead::Settle { .. }) ==> name == "settlement"@
                        && call.kind == "aggregate-settlement"@ && read.settled == Some(call.digest)
                    &&& read.kageb is Some
                }
            }
            &&& index < transaction.keys.len() && program == ids.ed25519_program
                && approval_verifies(read.approval, instruction.data) ==> called is Ok
            &&& index < transaction.keys.len() && program == ids.program && name == "lock"@ && (
            read.kageb matches Some(KagebRead::Lock { .. })) ==> called is Ok
            &&& index < transaction.keys.len() && program == ids.program && name == "settlement"@
                && (read.kageb matches Some(KagebRead::Settle { .. })) && payload_named(evidence)
                && read.settled is Some ==> called is Ok
        }),
{
}

/// A lock or a settlement is decoded exactly where each instruction is one of its calls, no keyper signs
/// twice, one instruction is of the program and every digest is its digest, every signer is one of the
/// three keypers that evidence names, and, in a settlement, each transfer is a leg of one of the two mints.
pub proof fn law_observed_calls_are_exact(
    transaction: ObservedParts,
    has_status: bool,
    name: Seq<char>,
    evidence: DevnetEvidenceContentV1,
    ids: ProgramIds,
    known: Seq<[u8; 32]>,
)
    requires
        transaction.instructions.len() <= u16::MAX,
        known.len() == 3,
        forall|k: int|
            0 <= k < 3 ==> pubkey_decoded(evidence.configuration.keypers@[k]@) == Some(
                #[trigger] known[k],
            ),
    ensures
        observed_call_refusal(transaction, has_status, name, evidence, ids) is None <==> {
            let n = transaction.instructions.len() as int;
            &&& forall|i: int|
                0 <= i < n ==> #[trigger] call_read(transaction, i, name, evidence, ids) is Ok
            &&& forall|i: int, j: int|
                0 <= i < j < n && (#[trigger] call_read(
                    transaction,
                    i,
                    name,
                    evidence,
                    ids,
                )).unwrap().signer is Some ==> call_read(
                    transaction,
                    i,
                    name,
                    evidence,
                    ids,
                ).unwrap().signer != (#[trigger] call_read(
                    transaction,
                    j,
                    name,
                    evidence,
                    ids,
                )).unwrap().signer
            &&& digests_agree(transaction, name, evidence, ids)
            &&& forall|i: int|
                0 <= i < n ==> ((#[trigger] call_read(
                    transaction,
                    i,
                    name,
                    evidence,
                    ids,
                )).unwrap().signer matches Some(signer) ==> known.contains(signer))
            &&& name == "settlement"@ ==> has_status && legs_decode_refusal(
                transaction,
                evidence,
                ids,
            ) is None
        },
{
    let n = transaction.instructions.len();
    let refusals = call_refusals(transaction, name, evidence, ids);
    lemma_all_pass(refusals, n);
    assert(keyper_keys(evidence) matches Some(keys) && keys =~= known) by {
        assert(pubkey_decoded(evidence.configuration.keypers@[0]@) == Some(known[0]));
        assert(pubkey_decoded(evidence.configuration.keypers@[1]@) == Some(known[1]));
        assert(pubkey_decoded(evidence.configuration.keypers@[2]@) == Some(known[2]));
    }
    if first_refusal(refusals, n) is None {
        assert forall|i: int| 0 <= i < n implies #[trigger] call_read(
            transaction,
            i,
            name,
            evidence,
            ids,
        ) is Ok by {
            assert(refusals(i) is None);
        }
        assert forall|i: int, j: int|
            0 <= i < j < n && (#[trigger] call_read(
                transaction,
                i,
                name,
                evidence,
                ids,
            )).unwrap().signer is Some implies call_read(
            transaction,
            i,
            name,
            evidence,
            ids,
        ).unwrap().signer != (#[trigger] call_read(
            transaction,
            j,
            name,
            evidence,
            ids,
        )).unwrap().signer by {
            assert(refusals(j) is None);
            assert(!signed_before(transaction, j, name, evidence, ids));
        }
    } else {
        let i = choose|i: int| 0 <= i < n && #[trigger] refusals(i) is Some;
        assert(refusals(i) is Some);
        if call_read(transaction, i, name, evidence, ids) is Ok {
            assert(signed_before(transaction, i, name, evidence, ids));
        }
    }
}

/// A transfer of a settlement is the base leg where its mint is the base mint and the quote leg where it
/// is the quote mint; a call of another program, of other accounts or of another mint is no leg.
pub proof fn law_settlement_legs_are_told_by_their_mint(
    keys: Seq<[u8; 32]>,
    instruction: InnerRead,
    evidence: DevnetEvidenceContentV1,
    ids: ProgramIds,
    base: [u8; 32],
    quote: [u8; 32],
)
    requires
        pubkey_decoded(evidence.accounts.base_mint@) == Some(base),
        pubkey_decoded(evidence.accounts.quote_mint@) == Some(quote),
        base != quote,
    ensures
        ({
            let kind = leg_kind(keys, Some(instruction), evidence, ids);
            let moves = instruction.program_id_index < keys.len()
                && keys[instruction.program_id_index as int] == ids.token_program
                && instruction.accounts@.len() == 4 && instruction.accounts@[1] < keys.len();
            let mint = keys[instruction.accounts@[1] as int];
            &&& moves && mint == base ==> kind == Ok::<_, DevnetEvidenceError>(
                "aggregate-base-leg"@,
            )
            &&& moves && mint == quote ==> kind == Ok::<_, DevnetEvidenceError>(
                "aggregate-quote-leg"@,
            )
            &&& !moves || (mint != base && mint != quote) ==> kind == Err::<Seq<char>, _>(
                DevnetEvidenceError::InvalidTransaction,
            )
        }),
        leg_kind(keys, None, evidence, ids) == Err::<Seq<char>, _>(
            DevnetEvidenceError::InvalidTransaction,
        ),
{
}

/// The transfers of a settlement are those that its third instruction made.
pub proof fn law_settlement_legs_are_of_the_third_instruction(inner: Seq<ObservedInner>, i: int)
    requires
        0 <= i < inner.len(),
        inner[i].index == 2,
        forall|k: int| 0 <= k < i ==> (#[trigger] inner[k]).index != 2,
    ensures
        settlement_legs(inner) == Some(inner[i].instructions@),
    decreases i,
{
    if i > 0 {
        let rest = inner.drop_first();
        assert(rest[i - 1] == inner[i]);
        assert forall|k: int| 0 <= k < i - 1 implies (#[trigger] rest[k]).index != 2 by {
            assert(rest[k] == inner[k + 1]);
        }
        law_settlement_legs_are_of_the_third_instruction(rest, i - 1);
        assert(inner[0].index != 2);
    }
}

/// What is told of a decoded call: each instruction at its place, with the program that it calls, its kind
/// and its digest, and behind them, in a settlement, each leg with its kind and no digest.
pub proof fn law_decoded_calls_are_told_in_order(
    transaction: ObservedParts,
    name: Seq<char>,
    evidence: DevnetEvidenceContentV1,
    ids: ProgramIds,
    i: int,
)
    ensures
        ({
            let told = decoded_call(transaction, name, evidence, ids);
            let calls = transaction.instructions.len();
            let legs = settlement_legs(transaction.inner).unwrap();
            &&& name != "settlement"@ ==> told.len() == calls
            &&& name == "settlement"@ ==> told.len() == calls + legs.len()
            &&& 0 <= i < calls ==> told[i] == (InstructionFields {
                transaction: name,
                position: i as u16,
                program: pubkey_text(
                    crate::observer::key_at(
                        transaction.keys,
                        transaction.instructions[i].program_id_index,
                    ).unwrap()@,
                ),
                kind: call_read(transaction, i, name, evidence, ids).unwrap().kind,
                digest: Some(
                    hex(call_read(transaction, i, name, evidence, ids).unwrap().digest@),
                ),
            })
            &&& name == "settlement"@ && 0 <= i < legs.len() ==> told[calls + i] == (
            InstructionFields {
                transaction: name,
                position: (calls + i) as u16,
                program: pubkey_text(ids.token_program@),
                kind: leg_kind(transaction.keys, legs[i], evidence, ids).unwrap(),
                digest: None,
            })
        }),
{
}

/// The terms that a settlement's instruction leaves out are those that evidence names: the epoch, its
/// lock, the lot and the price, the mints, the vaults and the venue's accounts.
pub proof fn law_completed_terms_are_exact(
    payload: SettlementPayloadV1,
    terms: CompactSettlementV1,
    evidence: DevnetEvidenceContentV1,
)
    ensures
        completes(payload, terms, evidence) <==> {
            &&& pubkey_decoded(evidence.accounts.epoch@) == Some(payload.epoch_account)
            &&& digest_named(evidence.commitments.lock_digest@) == Some(payload.lock_digest@)
            &&& payload.result_commitment == terms.result_commitment
            &&& payload.residual_side == terms.residual_side
            &&& payload.residual_lots == terms.residual_lots
            &&& payload.base_lot_atoms == evidence.configuration.base_lot_atoms
            &&& payload.quote_atoms_per_lot == evidence.configuration.quote_atoms_per_lot
            &&& pubkey_decoded(evidence.accounts.base_mint@) == Some(payload.base_mint)
            &&& pubkey_decoded(evidence.accounts.quote_mint@) == Some(payload.quote_mint)
            &&& pubkey_decoded(evidence.accounts.pool_base_vault@) == Some(payload.pool_base_vault)
            &&& pubkey_decoded(evidence.accounts.pool_quote_vault@) == Some(
                payload.pool_quote_vault,
            )
            &&& pubkey_decoded(evidence.accounts.venue_base_account@) == Some(
                payload.venue_base_account,
            )
            &&& pubkey_decoded(evidence.accounts.venue_quote_account@) == Some(
                payload.venue_quote_account,
            )
            &&& pubkey_decoded(evidence.accounts.venue_authority@) == Some(payload.venue_authority)
            &&& payload.settlement_nonce == terms.settlement_nonce
        },
{
}

/// The accounts that an observer looks at are those that evidence names, with its lot and its price.
pub proof fn law_observed_accounts_are_the_named_ones(
    evidence: DevnetEvidenceContentV1,
    seen: KagebObserverAccounts,
)
    ensures
        observed_accounts(evidence) == Some(seen) <==> {
            &&& pubkey_decoded(evidence.accounts.fee_payer@) == Some(seen.fee_payer)
            &&& pubkey_decoded(evidence.accounts.operator@) == Some(seen.payer)
            &&& pubkey_decoded(evidence.accounts.pool@) == Some(seen.pool)
            &&& pubkey_decoded(evidence.accounts.epoch@) == Some(seen.epoch)
            &&& pubkey_decoded(evidence.accounts.vault_authority@) == Some(seen.vault_authority)
            &&& pubkey_decoded(evidence.accounts.pool_base_vault@) == Some(seen.pool_base_vault)
            &&& pubkey_decoded(evidence.accounts.pool_quote_vault@) == Some(seen.pool_quote_vault)
            &&& pubkey_decoded(evidence.accounts.venue_authority@) == Some(seen.venue_authority)
            &&& pubkey_decoded(evidence.accounts.venue_base_account@) == Some(
                seen.venue_base_account,
            )
            &&& pubkey_decoded(evidence.accounts.venue_quote_account@) == Some(
                seen.venue_quote_account,
            )
            &&& pubkey_decoded(evidence.accounts.base_mint@) == Some(seen.base_mint)
            &&& pubkey_decoded(evidence.accounts.quote_mint@) == Some(seen.quote_mint)
            &&& seen.base_lot_atoms == evidence.configuration.base_lot_atoms
            &&& seen.quote_atoms_per_lot == evidence.configuration.quote_atoms_per_lot
        },
{
}

/// The amounts that a settlement shows are those of the pool's two vaults and of the venue's two accounts,
/// each of its mint and its owner, before the settlement and after it.
pub proof fn law_shown_amounts_are_of_their_accounts(
    keys: Seq<[u8; 32]>,
    before: Seq<TokenBalanceRead>,
    after: Seq<TokenBalanceRead>,
    evidence: DevnetEvidenceContentV1,
    token_program: Seq<u8>,
    seen: KagebObserverAccounts,
)
    requires
        observed_accounts(evidence) == Some(seen),
        amounts_refusal(keys, before, after, evidence, token_program) is None,
    ensures
        ({
            let shown = amounts_shown(keys, before, after, evidence, token_program);
            let base = evidence.accounts.base_mint@;
            let quote = evidence.accounts.quote_mint@;
            let vault = evidence.accounts.vault_authority@;
            let venue = evidence.accounts.venue_authority@;
            &&& balance_of(before, keys, seen.pool_base_vault, base, vault, token_program) == Some(
                shown.pool_base_before,
            )
            &&& balance_of(after, keys, seen.pool_base_vault, base, vault, token_program) == Some(
                shown.pool_base_after,
            )
            &&& balance_of(before, keys, seen.pool_quote_vault, quote, vault, token_program)
                == Some(shown.pool_quote_before)
            &&& balance_of(after, keys, seen.pool_quote_vault, quote, vault, token_program) == Some(
                shown.pool_quote_after,
            )
            &&& balance_of(before, keys, seen.venue_base_account, base, venue, token_program)
                == Some(shown.venue_base_before)
            &&& balance_of(after, keys, seen.venue_base_account, base, venue, token_program) == Some(
                shown.venue_base_after,
            )
            &&& balance_of(before, keys, seen.venue_quote_account, quote, venue, token_program)
                == Some(shown.venue_quote_before)
            &&& balance_of(after, keys, seen.venue_quote_account, quote, venue, token_program)
                == Some(shown.venue_quote_after)
        }),
{
    let refusals = balance_refusals(keys, before, after, evidence, token_program);
    lemma_all_pass(refusals, 8);
    assert(refusals(0) is None && refusals(1) is None && refusals(2) is None && refusals(3) is None);
    assert(refusals(4) is None && refusals(5) is None && refusals(6) is None && refusals(7) is None);
}

/// An answer about a transaction is taken exactly where the cluster knows it and gives the transaction
/// whose first signature was asked for and whose signatures stand; what is taken down is that signature,
/// the slots, whether it is final, and whether it succeeded.
pub proof fn law_answers_are_exact(
    signature: Seq<char>,
    answer: FetchedAnswer,
    expected: [u8; 64],
    snapshot: FinalizedTransactionSnapshotV1,
)
    requires
        signature_decoded(signature) == Some(expected),
    ensures
        answer_refusal(signature, answer) is None <==> {
            &&& answer.status is Some
            &&& answer.given is Some
            &&& answer.given.unwrap().1.encoded is Some
            &&& answer.given.unwrap().1.encoded.unwrap().is_queried(expected)
        },
        answer.status is None || answer.given is None ==> answer_refusal(signature, answer) == Some(
            DevnetEvidenceError::MissingTransaction,
        ),
        takes_down(snapshot, signature, answer) <==> {
            &&& snapshot.signature@ == signature
            &&& snapshot.slot == answer.given.unwrap().0
            &&& snapshot.status_slot == answer.status.unwrap().slot
            &&& snapshot.finalized == answer.status.unwrap().finalized
            &&& snapshot.succeeded != answer.status.unwrap().failed
        },
{
}

/// The sources that earlier fundings used are, for each of them in order, its base source and its quote
/// source.
pub proof fn law_used_sources_are_of_earlier_fundings(
    evidence: DevnetEvidenceContentV1,
    n: nat,
    i: nat,
)
    requires
        i < n <= 4,
    ensures
        used_sources(evidence, n).len() == 2 * n,
        used_sources(evidence, n)[2 * i as int] == funding_legs(
            evidence,
            evidence.transactions.funding@[i as int],
        ).unwrap().0.source,
        used_sources(evidence, n)[2 * i as int + 1] == funding_legs(
            evidence,
            evidence.transactions.funding@[i as int],
        ).unwrap().1.source,
    decreases n,
{
    if i < n - 1 {
        law_used_sources_are_of_earlier_fundings(evidence, (n - 1) as nat, i);
    } else if n > 1 {
        law_used_sources_are_of_earlier_fundings(evidence, (n - 1) as nat, 0);
    } else {
        assert(used_sources(evidence, 0).len() == 0);
    }
}

/// The transactions of an epoch are decoded exactly where each of the four fundings is, against the sources
/// that those before it used, the lock and the settlement are a confirmed pair that an observer accepts,
/// each of them is decoded, and the settlement shows its balances.
pub proof fn law_fetched_epochs_are_exact(
    fundings: Seq<&FetchedTransaction>,
    lock: FetchedTransaction,
    settlement: FetchedTransaction,
    evidence: DevnetEvidenceContentV1,
    ids: ProgramIds,
    accounts: KagebObserverAccounts,
)
    requires
        observed_accounts(evidence) == Some(accounts),
    ensures
        fetched_refusal(fundings, lock, settlement, evidence, ids) is None <==> {
            &&& forall|i: int|
                0 <= i < 4 ==> funding_decode_refusal(
                    *(#[trigger] fundings[i]),
                    evidence.transactions.funding@[i],
                    evidence,
                    used_sources(evidence, i as nat),
                    ids.token_program,
                ) is None
            &&& confirmed_trace(lock, settlement, accounts, ids) is Ok
            &&& lock.observed() is Some
            &&& observed_call_refusal(
                lock.observed().unwrap(),
                lock.has_status,
                "lock"@,
                evidence,
                ids,
            ) is None
            &&& settlement.observed() is Some
            &&& observed_call_refusal(
                settlement.observed().unwrap(),
                settlement.has_status,
                "settlement"@,
                evidence,
                ids,
            ) is None
            &&& settlement.has_status
            &&& settlement.before is Some
            &&& settlement.after is Some
            &&& amounts_refusal(
                settlement.observed().unwrap().keys,
                settlement.before.unwrap()@,
                settlement.after.unwrap()@,
                evidence,
                ids.token_program@,
            ) is None
        },
{
    let refusals = fetched_funding_refusals(fundings, evidence, ids.token_program);
    lemma_all_pass(refusals, 4);
    if first_refusal(refusals, 4) is None {
        assert forall|i: int| 0 <= i < 4 implies funding_decode_refusal(
            *(#[trigger] fundings[i]),
            evidence.transactions.funding@[i],
            evidence,
            used_sources(evidence, i as nat),
            ids.token_program,
        ) is None by {
            assert(refusals(i) is None);
        }
    } else {
        let i = choose|i: int| 0 <= i < 4 && #[trigger] refusals(i) is Some;
        assert(funding_decode_refusal(
            *fundings[i],
            evidence.transactions.funding@[i],
            evidence,
            used_sources(evidence, i as nat),
            ids.token_program,
        ) is Some);
    }
}

/// What is decoded of an epoch is told in order: the fundings, the lock, the settlement.
pub proof fn law_decoded_epochs_are_told_in_order(
    lock: FetchedTransaction,
    settlement: FetchedTransaction,
    evidence: DevnetEvidenceContentV1,
    ids: ProgramIds,
)
    requires
        lock.observed() is Some,
        settlement.observed() is Some,
    ensures
        fetched_instructions(lock, settlement, evidence, ids) == fundings_say(
            4,
            ids.token_program@,
        ) + decoded_call(lock.observed().unwrap(), "lock"@, evidence, ids) + decoded_call(
            settlement.observed().unwrap(),
            "settlement"@,
            evidence,
            ids,
        ),
{
}

/// What is taken down of an epoch is of the transactions that evidence names, in their order, with the
/// instructions and the balances that they decode to; and it is taken down exactly where the cluster
/// answered for each of them and they are decoded.
pub proof fn law_taken_epochs_are_exact(
    taken: EpochTaken,
    answers: Seq<FetchedAnswer>,
    evidence: DevnetEvidenceContentV1,
    ids: ProgramIds,
)
    requires
        answers.len() == 6,
    ensures
        epoch_refusal(answers, evidence, ids) is None <==> {
            &&& forall|i: int|
                0 <= i < 4 ==> answer_refusal(
                    evidence.transactions.funding@[i].transaction.signature@,
                    #[trigger] answers[i],
                ) is None
            &&& answer_refusal(evidence.transactions.lock.signature@, answers[4]) is None
            &&& answer_refusal(evidence.transactions.settlement.signature@, answers[5]) is None
            &&& fetched_refusal(
                Seq::new(4, |i: int| &answers[i].given.unwrap().1),
                answers[4].given.unwrap().1,
                answers[5].given.unwrap().1,
                evidence,
                ids,
            ) is None
        },
        takes_epoch(taken, answers, evidence, ids) ==> {
            &&& taken.transactions@.len() == 6
            &&& forall|i: int|
                0 <= i < 4 ==> takes_down(
                    #[trigger] taken.transactions@[i],
                    evidence.transactions.funding@[i].transaction.signature@,
                    answers[i],
                )
            &&& takes_down(
                taken.transactions@[4],
                evidence.transactions.lock.signature@,
                answers[4],
            )
            &&& takes_down(
                taken.transactions@[5],
                evidence.transactions.settlement.signature@,
                answers[5],
            )
            &&& instruction_fields(taken.decoded@) == fetched_instructions(
                answers[4].given.unwrap().1,
                answers[5].given.unwrap().1,
                evidence,
                ids,
            )
            &&& taken.balances == amounts_shown(
                answers[5].given.unwrap().1.observed().unwrap().keys,
                answers[5].given.unwrap().1.before.unwrap()@,
                answers[5].given.unwrap().1.after.unwrap()@,
                evidence,
                ids.token_program@,
            )
        },
{
    let refusals = answer_refusals(answers, evidence);
    lemma_all_pass(refusals, 6);
    assert(given_fundings(answers) =~= Seq::new(4, |i: int| &answers[i].given.unwrap().1));
    if first_refusal(refusals, 6) is None {
        assert forall|i: int| 0 <= i < 4 implies answer_refusal(
            evidence.transactions.funding@[i].transaction.signature@,
            #[trigger] answers[i],
        ) is None by {
            assert(refusals(i) is None);
        }
        assert(refusals(4) is None && refusals(5) is None);
    } else {
        let i = choose|i: int| 0 <= i < 6 && #[trigger] refusals(i) is Some;
        assert(answer_refusal(transaction_of(evidence, i).signature@, answers[i]) is Some);
    }
}

} // verus!
