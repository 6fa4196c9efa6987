//! Fetched transactions, decoded to the instructions that evidence lists.

use crate::bytes::same_array;
use crate::encodings::{pubkey_decoded, pubkey_from_text, pubkey_text, pubkey_to_text, same_text};
use crate::evidence::{
    either, optional_text, outcome_of, unless, DecodedInstructionEvidenceV1,
    DevnetEvidenceContentV1, DevnetEvidenceError, FundingTransactionEvidenceV1, InstructionFields,
};
use crate::evidence_state::instruction_fields;
use crate::observer::{accounts_match, is_among, key_at, names_key, require_accounts};
use crate::text::{copy_text, decimal, push_decimal, push_text};
use crate::tokens::{is_transfer, transfers};
use crate::transaction::{
    FetchedTransaction, InstructionParts, InstructionRead, ObservedParts, ObservedTransaction,
    TokenBalanceRead,
};
use vstd::prelude::*;
use vstd::string::*;
use vstd::utf8::encode_utf8;

verus! {

/// The value of decimal digits.
pub open spec fn digits_value(digits: Seq<u8>) -> nat
    decreases digits.len(),
{
    if digits.len() == 0 {
        0
    } else {
        digits_value(digits.drop_last()) * 10 + (digits.last() - 48) as nat
    }
}

/// Whether every byte is a decimal digit.
pub open spec fn all_digits(digits: Seq<u8>) -> bool {
    forall|i: int| 0 <= i < digits.len() ==> 48 <= #[trigger] digits[i] <= 57
}

/// The digits of a number behind a plus sign that may be absent.
pub open spec fn digits_of(bytes: Seq<u8>) -> Seq<u8> {
    if bytes.len() > 0 && bytes[0] == 43 {
        bytes.skip(1)
    } else {
        bytes
    }
}

/// The amount that text writes in decimal, where it writes one that fits: a plus sign that may be
/// absent, and at least one digit.
pub open spec fn amount_named(text: Seq<char>) -> Option<u64> {
    let digits = digits_of(encode_utf8(text));
    if digits.len() > 0 && all_digits(digits) && digits_value(digits) <= u64::MAX {
        Some(digits_value(digits) as u64)
    } else {
        None
    }
}

proof fn lemma_digits_grow(digits: Seq<u8>, n: int)
    requires
        0 <= n <= digits.len(),
        all_digits(digits),
    ensures
        digits_value(digits.take(n)) <= digits_value(digits),
    decreases digits.len() - n,
{
    if n < digits.len() {
        lemma_digits_grow(digits, n + 1);
        assert(digits.take(n + 1).drop_last() =~= digits.take(n));
        assert(48 <= digits[n]);
        assert(digits_value(digits.take(n)) <= digits_value(digits.take(n + 1)));
    } else {
        assert(digits.take(n) =~= digits);
    }
}

/// The amount that text writes in decimal.
pub fn parse_amount(text: &str) -> (amount: Option<u64>)
    ensures
        amount == amount_named(text@),
{
    let bytes = text.as_bytes();
    let start: usize = if bytes.len() > 0 && bytes[0] == 43 {
        1
    } else {
        0
    };
    let ghost digits = digits_of(bytes@);
    if bytes.len() == start {
        return None;
    }
    let mut value: u64 = 0;
    let mut i: usize = start;
    assert(digits.take(0) =~= Seq::empty());
    while i < bytes.len()
        invariant
            start <= i <= bytes@.len(),
            start <= 1,
            bytes@ == encode_utf8(text@),
            digits == digits_of(bytes@),
            digits.len() == bytes@.len() - start,
            digits.len() > 0,
            forall|k: int| 0 <= k < digits.len() ==> #[trigger] digits[k] == bytes@[start + k],
            forall|k: int| 0 <= k < i - start ==> 48 <= #[trigger] digits[k] <= 57,
            value == digits_value(digits.take(i - start)),
        decreases bytes@.len() - i,
    {
        let byte: u8 = bytes[i];
        assert(digits[i - start] == byte);
        if byte < 48 || byte > 57 {
            assert(!all_digits(digits));
            return None;
        }
        let ghost next = digits.take(i - start + 1);
        proof {
            assert(next.drop_last() =~= digits.take(i - start));
            assert(next.last() == byte);
            assert(digits_value(next) == value * 10 + (byte - 48));
        }
        let digit: u64 = (byte - 48) as u64;
        match value.checked_mul(10) {
            Some(scaled) => match scaled.checked_add(digit) {
                Some(sum) => {
                    value = sum;
                },
                None => {
                    proof {
                        if all_digits(digits) {
                            lemma_digits_grow(digits, i - start + 1);
                        }
                    }
                    return None;
                },
            },
            None => {
                proof {
                    if all_digits(digits) {
                        lemma_digits_grow(digits, i - start + 1);
                    }
                }
                return None;
            },
        }
        i += 1;
    }
    assert(digits.take(i - start) =~= digits);
    assert(all_digits(digits));
    Some(value)
}

/// The first balance of the account with a key.
pub open spec fn first_balance(
    balances: Seq<TokenBalanceRead>,
    keys: Seq<[u8; 32]>,
    key: [u8; 32],
) -> Option<TokenBalanceRead>
    decreases balances.len(),
{
    if balances.len() == 0 {
        None
    } else if key_at(keys, balances[0].account_index) == Some(key) {
        Some(balances[0])
    } else {
        first_balance(balances.drop_first(), keys, key)
    }
}

/// The amount that a list of balances gives the account with a key, where it gives one of the
/// expected mint and owner, of the token program, and without decimals.
pub open spec fn balance_of(
    balances: Seq<TokenBalanceRead>,
    keys: Seq<[u8; 32]>,
    key: [u8; 32],
    mint: Seq<char>,
    owner: Seq<char>,
    token_program: Seq<u8>,
) -> Option<u64> {
    match first_balance(balances, keys, key) {
        None => None,
        Some(balance) => if balance.mint@ == mint && balance.decimals == 0 && optional_text(
            balance.owner,
        ) == Some(owner) && optional_text(balance.program) == Some(pubkey_text(token_program)) {
            amount_named(balance.amount@)
        } else {
            None
        },
    }
}

fn is_text(text: &Option<String>, expected: &str) -> (is: bool)
    ensures
        is == (optional_text(*text) == Some(expected@)),
{
    match text {
        Some(text) => same_text(text.as_str(), expected),
        None => false,
    }
}

fn balance_at_key(
    balances: &[TokenBalanceRead],
    keys: &[[u8; 32]],
    key: &[u8; 32],
    mint: &str,
    owner: &str,
    token_program: &[u8; 32],
) -> (amount: Option<u64>)
    ensures
        amount == balance_of(balances@, keys@, *key, mint@, owner@, token_program@),
{
    let mut i: usize = 0;
    assert(balances@.skip(0) =~= balances@);
    while i < balances.len()
        invariant
            i <= balances@.len(),
            first_balance(balances@, keys@, *key) == first_balance(
                balances@.skip(i as int),
                keys@,
                *key,
            ),
        decreases balances@.len() - i,
    {
        assert(balances@.skip(i as int).drop_first() =~= balances@.skip(i + 1));
        let balance = &balances[i];
        if names_key(keys, balance.account_index, key) {
            let program = pubkey_to_text(token_program);
            if same_text(balance.mint.as_str(), mint) && balance.decimals == 0 && is_text(
                &balance.owner,
                owner,
            ) && is_text(&balance.program, program.as_str()) {
                return parse_amount(balance.amount.as_str());
            }
            return None;
        }
        i += 1;
    }
    None
}

/// The amount that a list of balances gives the account that text names, or why it gives none.
pub open spec fn named_balance(
    balances: Seq<TokenBalanceRead>,
    keys: Seq<[u8; 32]>,
    address: Seq<char>,
    mint: Seq<char>,
    owner: Seq<char>,
    token_program: Seq<u8>,
) -> Result<u64, DevnetEvidenceError> {
    match pubkey_decoded(address) {
        None => Err(DevnetEvidenceError::InvalidPublicField),
        Some(key) => match balance_of(balances, keys, key, mint, owner, token_program) {
            Some(amount) => Ok(amount),
            None => Err(DevnetEvidenceError::InvalidTransaction),
        },
    }
}

/// The amount that a list of balances gives the account that text names.
pub fn token_balance_at(
    balances: &[TokenBalanceRead],
    keys: &[[u8; 32]],
    address: &str,
    mint: &str,
    owner: &str,
    token_program: &[u8; 32],
) -> (amount: Result<u64, DevnetEvidenceError>)
    ensures
        amount == named_balance(balances@, keys@, address@, mint@, owner@, token_program@),
{
    match pubkey_from_text(address) {
        None => Err(DevnetEvidenceError::InvalidPublicField),
        Some(key) => match balance_at_key(balances, keys, &key, mint, owner, token_program) {
            Some(amount) => Ok(amount),
            None => Err(DevnetEvidenceError::InvalidTransaction),
        },
    }
}

/// One transfer of a funding: what it moves, from where to where.
#[derive(Clone, Copy, Debug, PartialEq, Eq)]
pub struct FundingLeg {
    pub mint: [u8; 32],
    pub destination: [u8; 32],
    pub source: [u8; 32],
    pub amount: u64,
}

/// The two transfers of a funding, where evidence names their accounts.
pub open spec fn funding_legs(
    evidence: DevnetEvidenceContentV1,
    funding: FundingTransactionEvidenceV1,
) -> Option<(FundingLeg, FundingLeg)> {
    match (
        pubkey_decoded(evidence.accounts.base_mint@),
        pubkey_decoded(evidence.accounts.pool_base_vault@),
        pubkey_decoded(funding.base_source@),
        pubkey_decoded(evidence.accounts.quote_mint@),
        pubkey_decoded(evidence.accounts.pool_quote_vault@),
        pubkey_decoded(funding.quote_source@),
    ) {
        (
            Some(base_mint),
            Some(base_vault),
            Some(base_source),
            Some(quote_mint),
            Some(quote_vault),
            Some(quote_source),
        ) => Some(
            (
                FundingLeg {
                    mint: base_mint,
                    destination: base_vault,
                    source: base_source,
                    amount: evidence.configuration.base_lot_atoms,
                },
                FundingLeg {
                    mint: quote_mint,
                    destination: quote_vault,
                    source: quote_source,
                    amount: evidence.configuration.quote_atoms_per_lot,
                },
            ),
        ),
        _ => None,
    }
}

fn read_funding_legs(
    evidence: &DevnetEvidenceContentV1,
    funding: &FundingTransactionEvidenceV1,
) -> (legs: Option<(FundingLeg, FundingLeg)>)
    ensures
        legs == funding_legs(*evidence, *funding),
{
    match (
        pubkey_from_text(evidence.accounts.base_mint.as_str()),
        pubkey_from_text(evidence.accounts.pool_base_vault.as_str()),
        pubkey_from_text(funding.base_source.as_str()),
        pubkey_from_text(evidence.accounts.quote_mint.as_str()),
        pubkey_from_text(evidence.accounts.pool_quote_vault.as_str()),
        pubkey_from_text(funding.quote_source.as_str()),
    ) {
        (
            Some(base_mint),
            Some(base_vault),
            Some(base_source),
            Some(quote_mint),
            Some(quote_vault),
            Some(quote_source),
        ) => Some(
            (
                FundingLeg {
                    mint: base_mint,
                    destination: base_vault,
                    source: base_source,
                    amount: evidence.configuration.base_lot_atoms,
                },
                FundingLeg {
                    mint: quote_mint,
                    destination: quote_vault,
                    source: quote_source,
                    amount: evidence.configuration.quote_atoms_per_lot,
                },
            ),
        ),
        _ => None,
    }
}

/// Whether an instruction is the transfer of a leg, from a source that was not used before.
pub open spec fn is_funding_transfer(
    keys: Seq<[u8; 32]>,
    instruction: InstructionParts,
    leg: FundingLeg,
    authority: [u8; 32],
    used: Seq<[u8; 32]>,
    token_program: [u8; 32],
) -> bool {
    &&& key_at(keys, instruction.program_id_index) == Some(token_program)
    &&& accounts_match(
        keys,
        instruction.accounts,
        seq![leg.source, leg.mint, leg.destination, authority],
    )
    &&& leg.source != leg.destination
    &&& !used.contains(leg.source)
    &&& transfers(instruction.data, leg.amount)
}

/// Whether the amount of a leg left an account.
pub open spec fn paid_out(before: Option<u64>, after: Option<u64>, amount: u64) -> bool {
    before is Some && after is Some && before.unwrap() - amount == after.unwrap()
}

/// Whether the amount of a leg came to an account.
pub open spec fn paid_in(before: Option<u64>, after: Option<u64>, amount: u64) -> bool {
    before is Some && after is Some && before.unwrap() + amount == after.unwrap()
}

/// Why a leg is refused, where it is.
pub open spec fn funding_leg_refusal(
    keys: Seq<[u8; 32]>,
    instruction: InstructionParts,
    before: Seq<TokenBalanceRead>,
    after: Seq<TokenBalanceRead>,
    leg: FundingLeg,
    authority: [u8; 32],
    vault_authority: Seq<char>,
    used: Seq<[u8; 32]>,
    token_program: [u8; 32],
) -> Option<DevnetEvidenceError> {
    let invalid = DevnetEvidenceError::InvalidTransaction;
    let mint = pubkey_text(leg.mint@);
    let payer = pubkey_text(authority@);
    let source_before = balance_of(before, keys, leg.source, mint, payer, token_program@);
    let source_after = balance_of(after, keys, leg.source, mint, payer, token_program@);
    either(
        unless(
            is_funding_transfer(keys, instruction, leg, authority, used, token_program)
                && source_before is Some && source_after is Some,
            invalid,
        ),
        match pubkey_decoded(vault_authority) {
            None => Some(DevnetEvidenceError::InvalidPublicField),
            Some(owner) => {
                let owner = pubkey_text(owner@);
                unless(
                    paid_out(source_before, source_after, leg.amount) && paid_in(
                        balance_of(before, keys, leg.destination, mint, owner, token_program@),
                        balance_of(after, keys, leg.destination, mint, owner, token_program@),
                        leg.amount,
                    ),
                    invalid,
                )
            },
        },
    )
}

fn check_funding_leg(
    keys: &[[u8; 32]],
    instruction: &InstructionRead,
    before: &[TokenBalanceRead],
    after: &[TokenBalanceRead],
    leg: &FundingLeg,
    authority: &[u8; 32],
    vault_authority: &str,
    used: &[[u8; 32]],
    token_program: &[u8; 32],
) -> (outcome: Result<(), DevnetEvidenceError>)
    ensures
        outcome == outcome_of(
            funding_leg_refusal(
                keys@,
                instruction@,
                before@,
                after@,
                *leg,
                *authority,
                vault_authority@,
                used@,
                *token_program,
            ),
        ),
{
    let invalid = DevnetEvidenceError::InvalidTransaction;
    let expected = [leg.source, leg.mint, leg.destination, *authority];
    assert(expected@ =~= seq![leg.source, leg.mint, leg.destination, *authority]);
    assert(used@.take(used@.len() as int) =~= used@);
    if !names_key(keys, instruction.program_id_index, token_program) || require_accounts(
        keys,
        instruction.accounts.as_slice(),
        expected.as_slice(),
    ).is_err() || same_array(&leg.source, &leg.destination) || is_among(
        used,
        used.len(),
        &leg.source,
    ) || !is_transfer(instruction.data.as_slice(), leg.amount) {
        return Err(invalid);
    }
    let mint = pubkey_to_text(&leg.mint);
    let payer = pubkey_to_text(authority);
    let (source_before, source_after) = match (
        balance_at_key(before, keys, &leg.source, mint.as_str(), payer.as_str(), token_program),
        balance_at_key(after, keys, &leg.source, mint.as_str(), payer.as_str(), token_program),
    ) {
        (Some(source_before), Some(source_after)) => (source_before, source_after),
        _ => {
            return Err(invalid);
        },
    };
    let owner = match pubkey_from_text(vault_authority) {
        Some(owner) => pubkey_to_text(&owner),
        None => {
            return Err(DevnetEvidenceError::InvalidPublicField);
        },
    };
    match (
        balance_at_key(
            before,
            keys,
            &leg.destination,
            mint.as_str(),
            owner.as_str(),
            token_program,
        ),
        balance_at_key(
            after,
            keys,
            &leg.destination,
            mint.as_str(),
            owner.as_str(),
            token_program,
        ),
    ) {
        (Some(vault_before), Some(vault_after)) => {
            if source_before >= leg.amount && source_before - leg.amount == source_after
                && vault_after >= leg.amount && vault_after - leg.amount == vault_before {
                Ok(())
            } else {
                Err(invalid)
            }
        },
        _ => Err(invalid),
    }
}

/// Whether a funding transaction is paid and signed as it should be, and makes two instructions.
pub open spec fn is_funding_shape(
    transaction: ObservedParts,
    fee_payer: [u8; 32],
    authority: [u8; 32],
) -> bool {
    let keys = transaction.keys;
    &&& keys.len() > 0
    &&& keys[0] == fee_payer
    &&& transaction.instructions.len() == 2
    &&& exists|i: int|
        0 <= i < keys.len() && i < transaction.required_signatures && #[trigger] keys[i] == authority
}

fn has_funding_shape(
    transaction: &ObservedTransaction,
    fee_payer: &[u8; 32],
    authority: &[u8; 32],
) -> (has: bool)
    ensures
        has == is_funding_shape(transaction@, *fee_payer, *authority),
{
    let keys = transaction.keys();
    let required_signatures: u8 = transaction.transaction.required_signatures;
    if keys.len() == 0 || !same_array(&keys[0], fee_payer) || transaction.total() != 2 {
        return false;
    }
    let mut i: usize = 0;
    while i < keys.len() && i < required_signatures as usize
        invariant
            i <= keys@.len(),
            i <= required_signatures,
            keys@ == transaction@.keys,
            required_signatures == transaction@.required_signatures,
            keys@.len() > 0,
            keys@[0] == *fee_payer,
            transaction@.instructions.len() == 2,
            forall|k: int| 0 <= k < i ==> #[trigger] keys@[k] != *authority,
        decreases keys@.len() - i,
    {
        if same_array(&keys[i], authority) {
            assert(keys@[i as int] == *authority);
            return true;
        }
        i += 1;
    }
    false
}

/// Why a decoded funding transaction is refused, where it is, given the token accounts before and
/// after it and the sources that earlier ones used.
pub open spec fn observed_funding_refusal(
    transaction: ObservedParts,
    before: Seq<TokenBalanceRead>,
    after: Seq<TokenBalanceRead>,
    funding: FundingTransactionEvidenceV1,
    evidence: DevnetEvidenceContentV1,
    used: Seq<[u8; 32]>,
    token_program: [u8; 32],
) -> Option<DevnetEvidenceError> {
    match (pubkey_decoded(funding.authority@), pubkey_decoded(evidence.accounts.fee_payer@)) {
        (Some(authority), Some(fee_payer)) => if !is_funding_shape(
            transaction,
            fee_payer,
            authority,
        ) {
            Some(DevnetEvidenceError::InvalidTransaction)
        } else {
            match funding_legs(evidence, funding) {
                None => Some(DevnetEvidenceError::InvalidPublicField),
                Some((base, quote)) => either(
                    funding_leg_refusal(
                        transaction.keys,
                        transaction.instructions[0],
                        before,
                        after,
                        base,
                        authority,
                        evidence.accounts.vault_authority@,
                        used,
                        token_program,
                    ),
                    funding_leg_refusal(
                        transaction.keys,
                        transaction.instructions[1],
                        before,
                        after,
                        quote,
                        authority,
                        evidence.accounts.vault_authority@,
                        used.push(base.source),
                        token_program,
                    ),
                ),
            }
        },
        _ => Some(DevnetEvidenceError::InvalidPublicField),
    }
}

/// Why a fetched funding transaction is refused, where it is, given the sources that earlier ones
/// used.
pub open spec fn funding_decode_refusal(
    fetched: FetchedTransaction,
    funding: FundingTransactionEvidenceV1,
    evidence: DevnetEvidenceContentV1,
    used: Seq<[u8; 32]>,
    token_program: [u8; 32],
) -> Option<DevnetEvidenceError> {
    let invalid = DevnetEvidenceError::InvalidTransaction;
    if !fetched.has_status {
        Some(invalid)
    } else if fetched.failed {
        Some(DevnetEvidenceError::FailedTransaction)
    } else if fetched.inner@.len() != 0 || fetched.observed() is None || fetched.before is None
        || fetched.after is None {
        Some(invalid)
    } else {
        observed_funding_refusal(
            fetched.observed().unwrap(),
            fetched.before.unwrap()@,
            fetched.after.unwrap()@,
            funding,
            evidence,
            used,
            token_program,
        )
    }
}

/// What the two instructions of a funding say.
pub open spec fn funding_entries(index: nat, token_program: Seq<u8>) -> Seq<InstructionFields> {
    let transaction = "funding-"@ + decimal(index);
    seq![
        InstructionFields {
            transaction,
            position: 0,
            program: pubkey_text(token_program),
            kind: "pool-funding-base"@,
            digest: None,
        },
        InstructionFields {
            transaction,
            position: 1,
            program: pubkey_text(token_program),
            kind: "pool-funding-quote"@,
            digest: None,
        },
    ]
}

fn funding_entry(index: usize, position: u16, kind: &str, token_program: &[u8; 32]) -> (entry:
    DecodedInstructionEvidenceV1)
    ensures
        entry@ == (InstructionFields {
            transaction: "funding-"@ + decimal(index as nat),
            position,
            program: pubkey_text(token_program@),
            kind: kind@,
            digest: None,
        }),
{
    let mut transaction = String::new();
    push_text(&mut transaction, "funding-");
    push_decimal(&mut transaction, index as u64);
    assert(transaction@ =~= "funding-"@ + decimal(index as nat));
    DecodedInstructionEvidenceV1 {
        transaction,
        position,
        program: pubkey_to_text(token_program),
        kind: copy_text(kind),
        digest: None,
    }
}

/// Checks a decoded funding transaction against the token accounts before and after it, and notes the
/// two sources that it used.
pub fn decode_observed_funding(
    transaction: &ObservedTransaction,
    before: &[TokenBalanceRead],
    after: &[TokenBalanceRead],
    index: usize,
    funding: &FundingTransactionEvidenceV1,
    evidence: &DevnetEvidenceContentV1,
    used: &mut Vec<[u8; 32]>,
    token_program: &[u8; 32],
) -> (decoded: Result<Vec<DecodedInstructionEvidenceV1>, DevnetEvidenceError>)
    ensures
        match decoded {
            Ok(decoded) => {
                &&& observed_funding_refusal(
                    transaction@,
                    before@,
                    after@,
                    *funding,
                    *evidence,
                    old(used)@,
                    *token_program,
                ) is None
                &&& instruction_fields(decoded@) == funding_entries(index as nat, token_program@)
                &&& final(used)@ == old(used)@.push(
                    funding_legs(*evidence, *funding).unwrap().0.source,
                ).push(funding_legs(*evidence, *funding).unwrap().1.source)
            },
            Err(error) => {
                &&& observed_funding_refusal(
                    transaction@,
                    before@,
                    after@,
                    *funding,
                    *evidence,
                    old(used)@,
                    *token_program,
                ) == Some(error)
                &&& final(used)@ == old(used)@
            },
        },
{
    let invalid = DevnetEvidenceError::InvalidTransaction;
    let (authority, fee_payer) = match (
        pubkey_from_text(funding.authority.as_str()),
        pubkey_from_text(evidence.accounts.fee_payer.as_str()),
    ) {
        (Some(authority), Some(fee_payer)) => (authority, fee_payer),
        _ => {
            return Err(DevnetEvidenceError::InvalidPublicField);
        },
    };
    if !has_funding_shape(transaction, &fee_payer, &authority) {
        return Err(invalid);
    }
    let (base, quote) = match read_funding_legs(evidence, funding) {
        Some(legs) => legs,
        None => {
            return Err(DevnetEvidenceError::InvalidPublicField);
        },
    };
    let checked = check_funding_leg(
        transaction.keys(),
        transaction.instruction(0),
        before,
        after,
        &base,
        &authority,
        evidence.accounts.vault_authority.as_str(),
        used.as_slice(),
        token_program,
    );
    match checked {
        Ok(_) => {},
        Err(error) => {
            return Err(error);
        },
    }
    used.push(base.source);
    let checked = check_funding_leg(
        transaction.keys(),
        transaction.instruction(1),
        before,
        after,
        &quote,
        &authority,
        evidence.accounts.vault_authority.as_str(),
        used.as_slice(),
        token_program,
    );
    match checked {
        Ok(_) => {},
        Err(error) => {
            used.pop();
            assert(used@ =~= old(used)@);
            return Err(error);
        },
    }
    used.push(quote.source);
    let mut decoded: Vec<DecodedInstructionEvidenceV1> = Vec::new();
    decoded.push(funding_entry(index, 0, "pool-funding-base", token_program));
    decoded.push(funding_entry(index, 1, "pool-funding-quote", token_program));
    assert(instruction_fields(decoded@) =~= funding_entries(index as nat, token_program@));
    Ok(decoded)
}

/// Decodes a fetched funding transaction, and notes the two sources that it used.
pub fn decode_funding_transaction(
    fetched: &FetchedTransaction,
    index: usize,
    funding: &FundingTransactionEvidenceV1,
    evidence: &DevnetEvidenceContentV1,
    used: &mut Vec<[u8; 32]>,
    token_program: &[u8; 32],
) -> (decoded: Result<Vec<DecodedInstructionEvidenceV1>, DevnetEvidenceError>)
    ensures
        match decoded {
            Ok(decoded) => {
                &&& funding_decode_refusal(
                    *fetched,
                    *funding,
                    *evidence,
                    old(used)@,
                    *token_program,
                ) is None
                &&& instruction_fields(decoded@) == funding_entries(index as nat, token_program@)
                &&& final(used)@ == old(used)@.push(
                    funding_legs(*evidence, *funding).unwrap().0.source,
                ).push(funding_legs(*evidence, *funding).unwrap().1.source)
            },
            Err(error) => {
                &&& funding_decode_refusal(
                    *fetched,
                    *funding,
                    *evidence,
                    old(used)@,
                    *token_program,
                ) == Some(error)
                &&& final(used)@ == old(used)@
            },
        },
{
    let invalid = DevnetEvidenceError::InvalidTransaction;
    if !fetched.has_status {
        return Err(invalid);
    }
    if fetched.failed {
        return Err(DevnetEvidenceError::FailedTransaction);
    }
    if fetched.inner.len() != 0 {
        return Err(invalid);
    }
    match (fetched.observe(), &fetched.before, &fetched.after) {
        (Some(transaction), Some(before), Some(after)) => decode_observed_funding(
            &transaction,
            before.as_slice(),
            after.as_slice(),
            index,
            funding,
            evidence,
            used,
            token_program,
        ),
        _ => Err(invalid),
    }
}

} // verus!
