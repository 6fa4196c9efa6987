//! The fetched lock and settlement of an epoch, decoded to the instructions that evidence lists.

use crate::bytes::{read_array, same_array};
use crate::encodings::{pubkey_decoded, pubkey_from_text, pubkey_text, pubkey_to_text, same_text};
use crate::evidence::{
    digest_named, either, first_refusal, hex_digest, lemma_first_refusal, outcome_of, parse_digest,
    unless, DecodedInstructionEvidenceV1, DevnetEvidenceContentV1, DevnetEvidenceError,
    InstructionFields,
};
use crate::evidence_state::instruction_fields;
use crate::observer::{
    account_at, key_at, names_key, ApprovalRead, CompactSettlementV1, KagebRead, ProgramIds,
};
use crate::program::SettlementPayloadV1;
use crate::signing::{ed25519_strictly_verifies, strictly_verify_with};
use crate::text::{copy_text, hex};
use crate::transaction::{
    read_at, FetchedTransaction, InnerRead, ObservedInner, ObservedParts, ObservedTransaction,
};
use vstd::prelude::*;
use vstd::string::*;

verus! {

/// Whether data carries, behind its header and the key, a signature of the digest by the signer.
pub open spec fn approval_verifies(approval: Option<ApprovalRead>, data: Seq<u8>) -> bool {
    match approval {
        Some(approval) => data.len() >= 112 && ed25519_strictly_verifies(
            approval.signer@,
            approval.digest@,
            data.subrange(48, 112),
        ),
        None => false,
    }
}

/// Checks the signature of a signature check again. `approval` is what the program's strict reader
/// makes of the instruction.
pub fn verify_ed25519_instruction(approval: &Option<ApprovalRead>, data: &[u8]) -> (verified: Result<
    ApprovalRead,
    DevnetEvidenceError,
>)
    ensures
        verified == (if approval_verifies(*approval, data@) {
            Ok::<ApprovalRead, _>(approval.unwrap())
        } else {
            Err(DevnetEvidenceError::InvalidTransaction)
        }),
{
    match approval {
        Some(approval) => {
            if data.len() < 112 {
                return Err(DevnetEvidenceError::InvalidTransaction);
            }
            let signature: [u8; 64] = read_array(data, 48);
            if strictly_verify_with(&approval.signer, approval.digest.as_slice(), &signature) {
                Ok(*approval)
            } else {
                Err(DevnetEvidenceError::InvalidTransaction)
            }
        },
        None => Err(DevnetEvidenceError::InvalidTransaction),
    }
}

/// Whether evidence names everything that a settlement payload takes from it.
pub open spec fn payload_named(evidence: DevnetEvidenceContentV1) -> bool {
    &&& pubkey_decoded(evidence.accounts.epoch@) is Some
    &&& digest_named(evidence.commitments.lock_digest@) is Some
    &&& pubkey_decoded(evidence.accounts.base_mint@) is Some
    &&& pubkey_decoded(evidence.accounts.quote_mint@) is Some
    &&& pubkey_decoded(evidence.accounts.pool_base_vault@) is Some
    &&& pubkey_decoded(evidence.accounts.pool_quote_vault@) is Some
    &&& pubkey_decoded(evidence.accounts.venue_base_account@) is Some
    &&& pubkey_decoded(evidence.accounts.venue_quote_account@) is Some
    &&& pubkey_decoded(evidence.accounts.venue_authority@) is Some
}

/// Whether a payload is the one that the terms of a settlement and evidence make together.
pub open spec fn completes(
    payload: SettlementPayloadV1,
    terms: CompactSettlementV1,
    evidence: DevnetEvidenceContentV1,
) -> bool {
    let accounts = evidence.accounts;
    &&& pubkey_decoded(accounts.epoch@) == Some(payload.epoch_account)
    &&& digest_named(evidence.commitments.lock_digest@) == Some(payload.lock_digest@)
    &&& payload.result_commitment == terms.result_commitment
    &&& payload.residual_side == terms.residual_side
    &&& payload.residual_lots == terms.residual_lots
    &&& payload.base_lot_atoms == evidence.configuration.base_lot_atoms
    &&& payload.quote_atoms_per_lot == evidence.configuration.quote_atoms_per_lot
    &&& pubkey_decoded(accounts.base_mint@) == Some(payload.base_mint)
    &&& pubkey_decoded(accounts.quote_mint@) == Some(payload.quote_mint)
    &&& pubkey_decoded(accounts.pool_base_vault@) == Some(payload.pool_base_vault)
    &&& pubkey_decoded(accounts.pool_quote_vault@) == Some(payload.pool_quote_vault)
    &&& pubkey_decoded(accounts.venue_base_account@) == Some(payload.venue_base_account)
    &&& pubkey_decoded(accounts.venue_quote_account@) == Some(payload.venue_quote_account)
    &&& pubkey_decoded(accounts.venue_authority@) == Some(payload.venue_authority)
    &&& payload.settlement_nonce == terms.settlement_nonce
}

/// The payload that the terms of a settlement and evidence make together.
pub fn settlement_payload(terms: &CompactSettlementV1, evidence: &DevnetEvidenceContentV1) -> (payload:
    Result<SettlementPayloadV1, DevnetEvidenceError>)
    ensures
        match payload {
            Ok(payload) => completes(payload, *terms, *evidence),
            Err(error) => error == DevnetEvidenceError::InvalidPublicField && !payload_named(
                *evidence,
            ),
        },
{
    let accounts = &evidence.accounts;
    match (
        pubkey_from_text(accounts.epoch.as_str()),
        parse_digest(evidence.commitments.lock_digest.as_str()),
        pubkey_from_text(accounts.base_mint.as_str()),
        pubkey_from_text(accounts.quote_mint.as_str()),
        pubkey_from_text(accounts.pool_base_vault.as_str()),
        pubkey_from_text(accounts.pool_quote_vault.as_str()),
        pubkey_from_text(accounts.venue_base_account.as_str()),
        pubkey_from_text(accounts.venue_quote_account.as_str()),
        pubkey_from_text(accounts.venue_authority.as_str()),
    ) {
        (
            Some(epoch_account),
            Ok(lock_digest),
            Some(base_mint),
            Some(quote_mint),
            Some(pool_base_vault),
            Some(pool_quote_vault),
            Some(venue_base_account),
            Some(venue_quote_account),
            Some(venue_authority),
        ) => Ok(
            SettlementPayloadV1 {
                epoch_account,
                lock_digest,
                result_commitment: terms.result_commitment,
                residual_side: terms.residual_side,
                residual_lots: terms.residual_lots,
                base_lot_atoms: evidence.configuration.base_lot_atoms,
                quote_atoms_per_lot: evidence.configuration.quote_atoms_per_lot,
                base_mint,
                quote_mint,
                pool_base_vault,
                pool_quote_vault,
                venue_base_account,
                venue_quote_account,
                venue_authority,
                settlement_nonce: terms.settlement_nonce,
            },
        ),
        _ => Err(DevnetEvidenceError::InvalidPublicField),
    }
}

/// What one instruction of a lock or a settlement shows: its kind and the digest that it carries,
/// and who signed, where it is a signature check.
pub struct CallRead {
    pub kind: Seq<char>,
    pub digest: [u8; 32],
    pub signer: Option<[u8; 32]>,
}

/// What one instruction of a transaction shows, or why it is refused. Settlement
/// terms whose payload the program did not digest are refused.
pub open spec fn call_read(
    transaction: ObservedParts,
    i: int,
    name: Seq<char>,
    evidence: DevnetEvidenceContentV1,
    ids: ProgramIds,
) -> Result<CallRead, DevnetEvidenceError> {
    let invalid = DevnetEvidenceError::InvalidTransaction;
    let instruction = transaction.instructions[i];
    let read = read_at(transaction.reads, i);
    match key_at(transaction.keys, instruction.program_id_index) {
        None => Err(invalid),
        Some(program) => if program == ids.ed25519_program {
            if approval_verifies(read.approval, instruction.data) {
                Ok(
                    CallRead {
                        kind: if name == "lock"@ {
                            "keyper-lock-approval"@
                        } else {
                            "keyper-settlement-approval"@
                        },
                        digest: read.approval.unwrap().digest,
                        signer: Some(read.approval.unwrap().signer),
                    },
                )
            } else {
                Err(invalid)
            }
        } else if program == ids.program {
            match read.kageb {
                Some(KagebRead::Lock { digest, .. }) => if name == "lock"@ {
                    Ok(CallRead { kind: "epoch-lock"@, digest, signer: None })
                } else {
                    Err(invalid)
                },
                Some(KagebRead::Settle { .. }) => if name != "settlement"@ {
                    Err(invalid)
                } else if !payload_named(evidence) {
                    Err(DevnetEvidenceError::InvalidPublicField)
                } else {
                    match read.settled {
                        Some(digest) => Ok(
                            CallRead { kind: "aggregate-settlement"@, digest, signer: None },
                        ),
                        None => Err(invalid),
                    }
                },
                _ => Err(invalid),
            }
        } else {
            Err(invalid)
        },
    }
}

/// Whether an instruction before another shows the same signer.
pub open spec fn signed_before(
    transaction: ObservedParts,
    i: int,
    name: Seq<char>,
    evidence: DevnetEvidenceContentV1,
    ids: ProgramIds,
) -> bool {
    let signer = call_read(transaction, i, name, evidence, ids).unwrap().signer;
    signer is Some && exists|k: int|
        0 <= k < i && (#[trigger] call_read(
            transaction,
            k,
            name,
            evidence,
            ids,
        )).unwrap().signer == signer
}

/// The refusals of the instructions of a transaction, one for each.
pub open spec fn call_refusals(
    transaction: ObservedParts,
    name: Seq<char>,
    evidence: DevnetEvidenceContentV1,
    ids: ProgramIds,
) -> spec_fn(int) -> Option<DevnetEvidenceError> {
    |i: int|
        match call_read(transaction, i, name, evidence, ids) {
            Err(error) => Some(error),
            Ok(_) => if signed_before(transaction, i, name, evidence, ids) {
                Some(DevnetEvidenceError::WrongKeyper)
            } else {
                unless(i <= u16::MAX, DevnetEvidenceError::InvalidTransaction)
            },
        }
}

/// What an instruction of a transaction says.
pub open spec fn call_entry(
    transaction: ObservedParts,
    i: int,
    name: Seq<char>,
    evidence: DevnetEvidenceContentV1,
    ids: ProgramIds,
) -> InstructionFields {
    let read = call_read(transaction, i, name, evidence, ids).unwrap();
    InstructionFields {
        transaction: name,
        position: i as u16,
        program: pubkey_text(
            key_at(
                transaction.keys,
                transaction.instructions[i].program_id_index,
            ).unwrap()@,
        ),
        kind: read.kind,
        digest: Some(hex(read.digest@)),
    }
}

/// What the instructions of a transaction say.
pub open spec fn call_entries(
    transaction: ObservedParts,
    name: Seq<char>,
    evidence: DevnetEvidenceContentV1,
    ids: ProgramIds,
) -> Seq<InstructionFields> {
    Seq::new(
        transaction.instructions.len(),
        |i: int| call_entry(transaction, i, name, evidence, ids),
    )
}

/// Whether a transaction has an instruction of the program whose digest all its instructions carry.
pub open spec fn digests_agree(
    transaction: ObservedParts,
    name: Seq<char>,
    evidence: DevnetEvidenceContentV1,
    ids: ProgramIds,
) -> bool {
    exists|p: int|
        {
            &&& 0 <= p < transaction.instructions.len()
            &&& (#[trigger] call_read(
                transaction,
                p,
                name,
                evidence,
                ids,
            )).unwrap().signer is None
            &&& forall|i: int|
                0 <= i < transaction.instructions.len() ==> (#[trigger] call_read(
                    transaction,
                    i,
                    name,
                    evidence,
                    ids,
                )).unwrap().digest == call_read(
                    transaction,
                    p,
                    name,
                    evidence,
                    ids,
                ).unwrap().digest
        }
}

/// Whether evidence names three keys for the keypers.
pub open spec fn keyper_keys(evidence: DevnetEvidenceContentV1) -> Option<Seq<[u8; 32]>> {
    match (
        pubkey_decoded(evidence.configuration.keypers@[0]@),
        pubkey_decoded(evidence.configuration.keypers@[1]@),
        pubkey_decoded(evidence.configuration.keypers@[2]@),
    ) {
        (Some(first), Some(second), Some(third)) => Some(seq![first, second, third]),
        _ => None,
    }
}

/// Whether every signer of a transaction is one of the given keys.
pub open spec fn signers_known(
    transaction: ObservedParts,
    name: Seq<char>,
    evidence: DevnetEvidenceContentV1,
    ids: ProgramIds,
    known: Seq<[u8; 32]>,
) -> bool {
    forall|i: int|
        0 <= i < transaction.instructions.len() ==> match (#[trigger] call_read(
            transaction,
            i,
            name,
            evidence,
            ids,
        )).unwrap().signer {
            Some(signer) => known.contains(signer),
            None => true,
        }
}

/// The kind of a transfer that a settlement makes, by its mint, or why it is refused.
pub open spec fn leg_kind(
    keys: Seq<[u8; 32]>,
    instruction: Option<InnerRead>,
    evidence: DevnetEvidenceContentV1,
    ids: ProgramIds,
) -> Result<Seq<char>, DevnetEvidenceError> {
    let invalid = DevnetEvidenceError::InvalidTransaction;
    match instruction {
        None => Err(invalid),
        Some(instruction) => if key_at(keys, instruction.program_id_index) != Some(
            ids.token_program,
        ) || instruction.accounts@.len() != 4 {
            Err(invalid)
        } else {
            match key_at(keys, instruction.accounts@[1]) {
                None => Err(invalid),
                Some(mint) => match pubkey_decoded(evidence.accounts.base_mint@) {
                    None => Err(DevnetEvidenceError::InvalidPublicField),
                    Some(base) => if mint == base {
                        Ok("aggregate-base-leg"@)
                    } else {
                        match pubkey_decoded(evidence.accounts.quote_mint@) {
                            None => Err(DevnetEvidenceError::InvalidPublicField),
                            Some(quote) => if mint == quote {
                                Ok("aggregate-quote-leg"@)
                            } else {
                                Err(invalid)
                            },
                        }
                    },
                },
            }
        },
    }
}

/// The refusals of the transfers that a settlement makes, one for each; `outer` is the number of the
/// transaction's own instructions.
pub open spec fn leg_refusals(
    keys: Seq<[u8; 32]>,
    legs: Seq<Option<InnerRead>>,
    outer: nat,
    evidence: DevnetEvidenceContentV1,
    ids: ProgramIds,
) -> spec_fn(int) -> Option<DevnetEvidenceError> {
    |j: int|
        match leg_kind(keys, legs[j], evidence, ids) {
            Err(error) => Some(error),
            Ok(_) => unless(outer + j <= u16::MAX, DevnetEvidenceError::InvalidTransaction),
        }
}

/// What a transfer that a settlement makes says.
pub open spec fn leg_entry(
    keys: Seq<[u8; 32]>,
    legs: Seq<Option<InnerRead>>,
    j: int,
    outer: nat,
    name: Seq<char>,
    evidence: DevnetEvidenceContentV1,
    ids: ProgramIds,
) -> InstructionFields {
    InstructionFields {
        transaction: name,
        position: (outer + j) as u16,
        program: pubkey_text(ids.token_program@),
        kind: leg_kind(keys, legs[j], evidence, ids).unwrap(),
        digest: None,
    }
}

/// The first row of inner instructions that the third instruction made.
pub open spec fn settlement_legs(inner: Seq<ObservedInner>) -> Option<Seq<Option<InnerRead>>>
    decreases inner.len(),
{
    if inner.len() == 0 {
        None
    } else if inner[0].index == 2 {
        Some(inner[0].instructions@)
    } else {
        settlement_legs(inner.drop_first())
    }
}

/// Why the transfers of a settlement are refused, where they are.
pub open spec fn legs_decode_refusal(
    transaction: ObservedParts,
    evidence: DevnetEvidenceContentV1,
    ids: ProgramIds,
) -> Option<DevnetEvidenceError> {
    match settlement_legs(transaction.inner) {
        None => Some(DevnetEvidenceError::InvalidTransaction),
        Some(legs) => first_refusal(
            leg_refusals(
                transaction.keys,
                legs,
                transaction.instructions.len(),
                evidence,
                ids,
            ),
            legs.len(),
        ),
    }
}

/// What the transfers of a settlement say.
pub open spec fn leg_entries(
    transaction: ObservedParts,
    name: Seq<char>,
    evidence: DevnetEvidenceContentV1,
    ids: ProgramIds,
) -> Seq<InstructionFields> {
    let legs = settlement_legs(transaction.inner).unwrap();
    Seq::new(
        legs.len(),
        |j: int|
            leg_entry(
                transaction.keys,
                legs,
                j,
                transaction.instructions.len(),
                name,
                evidence,
                ids,
            ),
    )
}

/// Why a decoded lock or settlement is refused, where it is.
pub open spec fn observed_call_refusal(
    transaction: ObservedParts,
    has_status: bool,
    name: Seq<char>,
    evidence: DevnetEvidenceContentV1,
    ids: ProgramIds,
) -> Option<DevnetEvidenceError> {
    let invalid = DevnetEvidenceError::InvalidTransaction;
    either(
        first_refusal(
            call_refusals(transaction, name, evidence, ids),
            transaction.instructions.len(),
        ),
        either(
            unless(digests_agree(transaction, name, evidence, ids), invalid),
            match keyper_keys(evidence) {
                None => Some(DevnetEvidenceError::InvalidPublicField),
                Some(known) => either(
                    unless(
                        signers_known(transaction, name, evidence, ids, known),
                        DevnetEvidenceError::WrongKeyper,
                    ),
                    if name == "settlement"@ {
                        either(
                            unless(has_status, invalid),
                            legs_decode_refusal(transaction, evidence, ids),
                        )
                    } else {
                        None
                    },
                ),
            },
        ),
    )
}

/// Why a fetched lock or settlement is refused, where it is.
pub open spec fn call_decode_refusal(
    fetched: FetchedTransaction,
    name: Seq<char>,
    evidence: DevnetEvidenceContentV1,
    ids: ProgramIds,
) -> Option<DevnetEvidenceError> {
    match fetched.observed() {
        None => Some(DevnetEvidenceError::InvalidTransaction),
        Some(transaction) => observed_call_refusal(
            transaction,
            fetched.has_status,
            name,
            evidence,
            ids,
        ),
    }
}

/// What a lock or a settlement says: its instructions, and for a settlement the transfers that it
/// made.
pub open spec fn decoded_call(
    transaction: ObservedParts,
    name: Seq<char>,
    evidence: DevnetEvidenceContentV1,
    ids: ProgramIds,
) -> Seq<InstructionFields> {
    call_entries(transaction, name, evidence, ids) + if name == "settlement"@ {
        leg_entries(transaction, name, evidence, ids)
    } else {
        Seq::empty()
    }
}

/// What one instruction shows, as values.
struct CallSeen {
    kind: String,
    digest: [u8; 32],
    signer: Option<[u8; 32]>,
    program: [u8; 32],
}

fn see_call(
    transaction: &ObservedTransaction,
    i: usize,
    name: &str,
    evidence: &DevnetEvidenceContentV1,
    ids: &ProgramIds,
) -> (seen: Result<CallSeen, DevnetEvidenceError>)
    requires
        i < transaction@.instructions.len(),
    ensures
        match (seen, call_read(transaction@, i as int, name@, *evidence, *ids)) {
            (Ok(seen), Ok(read)) => {
                &&& seen.kind@ == read.kind
                &&& seen.digest == read.digest
                &&& seen.signer == read.signer
                &&& key_at(
                    transaction@.keys,
                    transaction@.instructions[i as int].program_id_index,
                ) == Some(seen.program)
            },
            (Err(error), Err(expected)) => error == expected,
            _ => false,
        },
{
    let invalid = DevnetEvidenceError::InvalidTransaction;
    let instruction = transaction.instruction(i);
    let read = transaction.read(i);
    let program = match account_at(transaction.keys(), instruction.program_id_index) {
        Ok(program) => program,
        Err(_) => {
            return Err(invalid);
        },
    };
    if same_array(&program, &ids.ed25519_program) {
        match verify_ed25519_instruction(&read.approval, instruction.data.as_slice()) {
            Ok(approval) => {
                let kind = if same_text(name, "lock") {
                    copy_text("keyper-lock-approval")
                } else {
                    copy_text("keyper-settlement-approval")
                };
                Ok(
                    CallSeen {
                        kind,
                        digest: approval.digest,
                        signer: Some(approval.signer),
                        program,
                    },
                )
            },
            Err(error) => Err(error),
        }
    } else if same_array(&program, &ids.program) {
        match &read.kageb {
            Some(KagebRead::Lock { digest, .. }) => if same_text(name, "lock") {
                Ok(
                    CallSeen {
                        kind: copy_text("epoch-lock"),
                        digest: *digest,
                        signer: None,
                        program,
                    },
                )
            } else {
                Err(invalid)
            },
            Some(KagebRead::Settle { terms }) => if !same_text(name, "settlement") {
                Err(invalid)
            } else {
                match settlement_payload(terms, evidence) {
                    Ok(_) => match read.settled {
                        Some(digest) => Ok(
                            CallSeen {
                                kind: copy_text("aggregate-settlement"),
                                digest,
                                signer: None,
                                program,
                            },
                        ),
                        None => Err(invalid),
                    },
                    Err(error) => Err(error),
                }
            },
            _ => Err(invalid),
        }
    } else {
        Err(invalid)
    }
}

/// Finds the row of inner instructions that the third instruction made.
fn find_legs(inner: &[ObservedInner]) -> (position: Option<usize>)
    ensures
        match position {
            Some(position) => position < inner@.len() && settlement_legs(inner@) == Some(
                inner@[position as int].instructions@,
            ),
            None => settlement_legs(inner@) is None,
        },
{
    let mut i: usize = 0;
    assert(inner@.skip(0) =~= inner@);
    while i < inner.len()
        invariant
            i <= inner@.len(),
            settlement_legs(inner@) == settlement_legs(inner@.skip(i as int)),
        decreases inner@.len() - i,
    {
        assert(inner@.skip(i as int).drop_first() =~= inner@.skip(i + 1));
        if inner[i].index == 2 {
            return Some(i);
        }
        i += 1;
    }
    None
}

fn see_leg(
    keys: &[[u8; 32]],
    instruction: &Option<InnerRead>,
    evidence: &DevnetEvidenceContentV1,
    ids: &ProgramIds,
) -> (kind: Result<String, DevnetEvidenceError>)
    ensures
        match (kind, leg_kind(keys@, *instruction, *evidence, *ids)) {
            (Ok(kind), Ok(expected)) => kind@ == expected,
            (Err(error), Err(expected)) => error == expected,
            _ => false,
        },
{
    let invalid = DevnetEvidenceError::InvalidTransaction;
    let instruction = match instruction {
        Some(instruction) => instruction,
        None => {
            return Err(invalid);
        },
    };
    if !names_key(keys, instruction.program_id_index, &ids.token_program)
        || instruction.accounts.len() != 4 {
        return Err(invalid);
    }
    let mint = match account_at(keys, instruction.accounts[1]) {
        Ok(mint) => mint,
        Err(_) => {
            return Err(invalid);
        },
    };
    match pubkey_from_text(evidence.accounts.base_mint.as_str()) {
        None => {
            return Err(DevnetEvidenceError::InvalidPublicField);
        },
        Some(base) => {
            if same_array(&mint, &base) {
                return Ok(copy_text("aggregate-base-leg"));
            }
        },
    }
    match pubkey_from_text(evidence.accounts.quote_mint.as_str()) {
        None => Err(DevnetEvidenceError::InvalidPublicField),
        Some(quote) => if same_array(&mint, &quote) {
            Ok(copy_text("aggregate-quote-leg"))
        } else {
            Err(invalid)
        },
    }
}

/// Appends what the transfers of a settlement say.
fn decode_legs(
    transaction: &ObservedTransaction,
    name: &str,
    evidence: &DevnetEvidenceContentV1,
    ids: &ProgramIds,
    decoded: &mut Vec<DecodedInstructionEvidenceV1>,
) -> (outcome: Result<(), DevnetEvidenceError>)
    ensures
        outcome == outcome_of(legs_decode_refusal(transaction@, *evidence, *ids)),
        outcome is Ok ==> instruction_fields(final(decoded)@) == instruction_fields(old(decoded)@)
            + leg_entries(transaction@, name@, *evidence, *ids),
{
    let position: usize = match find_legs(transaction.inner) {
        Some(position) => position,
        None => {
            return Err(DevnetEvidenceError::InvalidTransaction);
        },
    };
    let legs = transaction.inner[position].instructions.as_slice();
    let keys = transaction.keys();
    let outer: usize = transaction.total();
    let ghost refusals = leg_refusals(keys@, legs@, outer as nat, *evidence, *ids);
    let ghost entries = leg_entries(transaction@, name@, *evidence, *ids);
    let mut j: usize = 0;
    assert(instruction_fields(decoded@) =~= instruction_fields(old(decoded)@) + entries.take(0));
    while j < legs.len()
        invariant
            j <= legs@.len() == entries.len(),
            settlement_legs(transaction@.inner) == Some(legs@),
            keys@ == transaction@.keys,
            outer == transaction@.instructions.len(),
            refusals == leg_refusals(keys@, legs@, outer as nat, *evidence, *ids),
            entries == leg_entries(transaction@, name@, *evidence, *ids),
            first_refusal(refusals, j as nat) is None,
            instruction_fields(decoded@) == instruction_fields(old(decoded)@) + entries.take(
                j as int,
            ),
        decreases legs@.len() - j,
    {
        let kind = match see_leg(keys, &legs[j], evidence, ids) {
            Ok(kind) => kind,
            Err(error) => {
                proof {
                    assert(refusals(j as int) == Some(error));
                    lemma_first_refusal(refusals, j as nat, legs@.len());
                }
                return Err(error);
            },
        };
        if outer > 65535 || j > 65535 - outer {
            proof {
                assert(refusals(j as int) == Some(DevnetEvidenceError::InvalidTransaction));
                lemma_first_refusal(refusals, j as nat, legs@.len());
            }
            return Err(DevnetEvidenceError::InvalidTransaction);
        }
        let entry = DecodedInstructionEvidenceV1 {
            transaction: copy_text(name),
            position: (outer + j) as u16,
            program: pubkey_to_text(&ids.token_program),
            kind,
            digest: None,
        };
        let ghost before = instruction_fields(decoded@);
        assert(entry@ == entries[j as int]);
        decoded.push(entry);
        proof {
            assert(instruction_fields(decoded@) =~= before.push(entry@));
            assert(entries.take(j + 1) =~= entries.take(j as int).push(entries[j as int]));
            assert(refusals(j as int) is None);
            assert(instruction_fields(decoded@) =~= instruction_fields(old(decoded)@)
                + entries.take(j + 1));
        }
        j += 1;
    }
    assert(entries.take(j as int) =~= entries);
    Ok(())
}

/// The keys that evidence names for the keypers.
fn read_keypers(evidence: &DevnetEvidenceContentV1) -> (keys: Option<Vec<[u8; 32]>>)
    ensures
        match (keys, keyper_keys(*evidence)) {
            (Some(keys), Some(expected)) => keys@ == expected,
            (None, None) => true,
            _ => false,
        },
{
    let texts = &evidence.configuration.keypers;
    match (
        pubkey_from_text(texts[0].as_str()),
        pubkey_from_text(texts[1].as_str()),
        pubkey_from_text(texts[2].as_str()),
    ) {
        (Some(first), Some(second), Some(third)) => {
            let mut keys: Vec<[u8; 32]> = Vec::new();
            keys.push(first);
            keys.push(second);
            keys.push(third);
            assert(keys@ =~= seq![first, second, third]);
            Some(keys)
        },
        _ => None,
    }
}

/// Whether a key is among keys.
fn holds_key(keys: &[[u8; 32]], key: &[u8; 32]) -> (holds: bool)
    ensures
        holds == keys@.contains(*key),
{
    let mut i: usize = 0;
    while i < keys.len()
        invariant
            i <= keys@.len(),
            forall|k: int| 0 <= k < i ==> #[trigger] keys@[k] != *key,
        decreases keys@.len() - i,
    {
        if same_array(&keys[i], key) {
            assert(keys@[i as int] == *key);
            return true;
        }
        i += 1;
    }
    false
}

/// Decodes the instructions of a decoded lock or settlement.
pub fn decode_observed_call(
    transaction: &ObservedTransaction,
    has_status: bool,
    name: &str,
    evidence: &DevnetEvidenceContentV1,
    ids: &ProgramIds,
) -> (decoded: Result<Vec<DecodedInstructionEvidenceV1>, DevnetEvidenceError>)
    ensures
        match decoded {
            Ok(decoded) => observed_call_refusal(
                transaction@,
                has_status,
                name@,
                *evidence,
                *ids,
            ) is None && instruction_fields(decoded@) == decoded_call(
                transaction@,
                name@,
                *evidence,
                *ids,
            ),
            Err(error) => observed_call_refusal(
                transaction@,
                has_status,
                name@,
                *evidence,
                *ids,
            ) == Some(error),
        },
{
    let invalid = DevnetEvidenceError::InvalidTransaction;
    let total: usize = transaction.total();
    let ghost refusals = call_refusals(transaction@, name@, *evidence, *ids);
    let ghost entries = call_entries(transaction@, name@, *evidence, *ids);
    let ghost reads = |k: int| call_read(transaction@, k, name@, *evidence, *ids);
    let mut decoded: Vec<DecodedInstructionEvidenceV1> = Vec::new();
    let mut digests: Vec<[u8; 32]> = Vec::new();
    let mut signers: Vec<[u8; 32]> = Vec::new();
    let mut program_at: Option<usize> = None;
    let mut i: usize = 0;
    assert(instruction_fields(decoded@) =~= entries.take(0));
    while i < total
        invariant
            i <= total == transaction@.instructions.len() == entries.len(),
            invalid == DevnetEvidenceError::InvalidTransaction,
            refusals == call_refusals(transaction@, name@, *evidence, *ids),
            entries == call_entries(transaction@, name@, *evidence, *ids),
            forall|k: int|
                #![trigger reads(k)]
                reads(k) == call_read(transaction@, k, name@, *evidence, *ids),
            first_refusal(refusals, i as nat) is None,
            instruction_fields(decoded@) == entries.take(i as int),
            digests@.len() == i,
            forall|k: int|
                #![trigger digests@[k]]
                #![trigger reads(k)]
                0 <= k < i ==> digests@[k] == reads(k).unwrap().digest,
            forall|key: [u8; 32]| #[trigger]
                signers@.contains(key) ==> exists|k: int|
                    0 <= k < i && (#[trigger] reads(k)).unwrap().signer == Some(key),
            forall|k: int|
                0 <= k < i && (#[trigger] reads(k)).unwrap().signer is Some ==> signers@.contains(
                    reads(k).unwrap().signer.unwrap(),
                ),
            match program_at {
                Some(p) => p < i && reads(p as int).unwrap().signer is None,
                None => forall|k: int|
                    0 <= k < i ==> (#[trigger] reads(k)).unwrap().signer is Some,
            },
        decreases total - i,
    {
        let seen = match see_call(transaction, i, name, evidence, ids) {
            Ok(seen) => seen,
            Err(error) => {
                proof {
                    assert(refusals(i as int) == Some(error));
                    lemma_first_refusal(refusals, i as nat, total as nat);
                }
                return Err(error);
            },
        };
        assert(reads(i as int).unwrap().signer == seen.signer);
        match &seen.signer {
            Some(signer) => {
                if holds_key(signers.as_slice(), signer) {
                    proof {
                        let k = choose|k: int|
                            0 <= k < i && (#[trigger] reads(k)).unwrap().signer == Some(*signer);
                        assert(call_read(
                            transaction@,
                            k,
                            name@,
                            *evidence,
                            *ids,
                        ).unwrap().signer == Some(*signer));
                        assert(signed_before(
                            transaction@,
                            i as int,
                            name@,
                            *evidence,
                            *ids,
                        ));
                        assert(refusals(i as int) == Some(DevnetEvidenceError::WrongKeyper));
                        lemma_first_refusal(refusals, i as nat, total as nat);
                    }
                    return Err(DevnetEvidenceError::WrongKeyper);
                }
            },
            None => {},
        }
        proof {
            if signed_before(transaction@, i as int, name@, *evidence, *ids) {
                let k = choose|k: int|
                    0 <= k < i && (#[trigger] call_read(
                        transaction@,
                        k,
                        name@,
                        *evidence,
                        *ids,
                    )).unwrap().signer == seen.signer;
                assert(reads(k).unwrap().signer == seen.signer);
                assert(false);
            }
        }
        if i > 65535 {
            proof {
                assert(refusals(i as int) == Some(invalid));
                lemma_first_refusal(refusals, i as nat, total as nat);
            }
            return Err(invalid);
        }
        let CallSeen { kind, digest, signer, program } = seen;
        let entry = DecodedInstructionEvidenceV1 {
            transaction: copy_text(name),
            position: i as u16,
            program: pubkey_to_text(&program),
            kind,
            digest: Some(hex_digest(digest.as_slice())),
        };
        let ghost before = instruction_fields(decoded@);
        let ghost known = signers@;
        assert(entry@ == entries[i as int]);
        decoded.push(entry);
        digests.push(digest);
        match signer {
            Some(signer) => {
                signers.push(signer);
                proof {
                    assert(signers@[known.len() as int] == signer);
                    assert forall|key: [u8; 32]| #[trigger] signers@.contains(key) implies exists|
                        k: int,
                    |
                        0 <= k < i + 1 && (#[trigger] reads(k)).unwrap().signer == Some(key) by {
                        let at = choose|at: int| 0 <= at < signers@.len() && signers@[at] == key;
                        if at < known.len() {
                            assert(known[at] == key);
                            assert(known.contains(key));
                            let k = choose|k: int|
                                0 <= k < i && (#[trigger] reads(k)).unwrap().signer == Some(key);
                            assert(reads(k).unwrap().signer == Some(key));
                        } else {
                            assert(reads(i as int).unwrap().signer == Some(key));
                        }
                    }
                    assert forall|k: int|
                        0 <= k < i + 1 && (#[trigger] reads(k)).unwrap().signer
                            is Some implies signers@.contains(
                        reads(k).unwrap().signer.unwrap(),
                    ) by {
                        if k < i {
                            let key = reads(k).unwrap().signer.unwrap();
                            assert(known.contains(key));
                            let at = choose|at: int| 0 <= at < known.len() && known[at] == key;
                            assert(signers@[at] == key);
                        }
                    }
                }
            },
            None => {
                program_at = Some(i);
                assert forall|key: [u8; 32]| #[trigger] signers@.contains(key) implies exists|
                    k: int,
                |
                    0 <= k < i + 1 && (#[trigger] reads(k)).unwrap().signer == Some(key) by {
                    let k = choose|k: int|
                        0 <= k < i && (#[trigger] reads(k)).unwrap().signer == Some(key);
                    assert(reads(k).unwrap().signer == Some(key));
                }
            },
        }
        proof {
            assert(instruction_fields(decoded@) =~= before.push(entry@));
            assert(entries.take(i + 1) =~= entries.take(i as int).push(entries[i as int]));
            assert(refusals(i as int) is None);
        }
        i += 1;
    }
    assert(entries.take(i as int) =~= entries);
    let p: usize = match program_at {
        Some(p) => p,
        None => {
            proof {
                if digests_agree(transaction@, name@, *evidence, *ids) {
                    let p = choose|p: int|
                        0 <= p < total && (#[trigger] call_read(
                            transaction@,
                            p,
                            name@,
                            *evidence,
                            *ids,
                        )).unwrap().signer is None;
                    assert(reads(p).unwrap().signer is None);
                }
            }
            return Err(invalid);
        },
    };
    let mut m: usize = 0;
    while m < total
        invariant
            m <= total == transaction@.instructions.len() == digests@.len(),
            invalid == DevnetEvidenceError::InvalidTransaction,
            p < total,
            refusals == call_refusals(transaction@, name@, *evidence, *ids),
            first_refusal(refusals, total as nat) is None,
            forall|k: int|
                #![trigger reads(k)]
                reads(k) == call_read(transaction@, k, name@, *evidence, *ids),
            forall|k: int|
                #![trigger digests@[k]]
                #![trigger reads(k)]
                0 <= k < total ==> digests@[k] == reads(k).unwrap().digest,
            forall|k: int| 0 <= k < m ==> #[trigger] digests@[k] == digests@[p as int],
        decreases total - m,
    {
        if !same_array(&digests[m], &digests[p]) {
            proof {
                if digests_agree(transaction@, name@, *evidence, *ids) {
                    assert(digests@[m as int] == reads(m as int).unwrap().digest);
                    assert(digests@[p as int] == reads(p as int).unwrap().digest);
                    assert(false);
                }
            }
            return Err(invalid);
        }
        m += 1;
    }
    proof {
        assert(call_read(
            transaction@,
            p as int,
            name@,
            *evidence,
            *ids,
        ).unwrap().signer is None) by {
            assert(reads(p as int).unwrap().signer is None);
        }
        assert forall|k: int| 0 <= k < total implies (#[trigger] call_read(
            transaction@,
            k,
            name@,
            *evidence,
            *ids,
        )).unwrap().digest == call_read(
            transaction@,
            p as int,
            name@,
            *evidence,
            *ids,
        ).unwrap().digest by {
            assert(digests@[k] == reads(k).unwrap().digest);
            assert(digests@[p as int] == reads(p as int).unwrap().digest);
            assert(digests@[k] == digests@[p as int]);
        }
        assert(digests_agree(transaction@, name@, *evidence, *ids));
    }
    let known = match read_keypers(evidence) {
        Some(known) => known,
        None => {
            return Err(DevnetEvidenceError::InvalidPublicField);
        },
    };
    let mut s: usize = 0;
    while s < signers.len()
        invariant
            s <= signers@.len(),
            total == transaction@.instructions.len(),
            first_refusal(refusals, total as nat) is None,
            refusals == call_refusals(transaction@, name@, *evidence, *ids),
            digests_agree(transaction@, name@, *evidence, *ids),
            keyper_keys(*evidence) == Some(known@),
            forall|k: int|
                #![trigger reads(k)]
                reads(k) == call_read(transaction@, k, name@, *evidence, *ids),
            forall|key: [u8; 32]| #[trigger]
                signers@.contains(key) ==> exists|k: int|
                    0 <= k < total && (#[trigger] reads(k)).unwrap().signer == Some(key),
            forall|k: int| 0 <= k < s ==> known@.contains(#[trigger] signers@[k]),
        decreases signers@.len() - s,
    {
        if !holds_key(known.as_slice(), &signers[s]) {
            proof {
                let key = signers@[s as int];
                assert(signers@.contains(key));
                let k = choose|k: int|
                    0 <= k < total && (#[trigger] reads(k)).unwrap().signer == Some(key);
                assert(call_read(
                    transaction@,
                    k,
                    name@,
                    *evidence,
                    *ids,
                ).unwrap().signer == Some(key));
                assert(!signers_known(
                    transaction@,
                    name@,
                    *evidence,
                    *ids,
                    known@,
                ));
            }
            return Err(DevnetEvidenceError::WrongKeyper);
        }
        s += 1;
    }
    proof {
        assert forall|k: int| 0 <= k < total implies match (#[trigger] call_read(
            transaction@,
            k,
            name@,
            *evidence,
            *ids,
        )).unwrap().signer {
            Some(signer) => known@.contains(signer),
            None => true,
        } by {
            if reads(k).unwrap().signer is Some {
                let key = reads(k).unwrap().signer.unwrap();
                assert(signers@.contains(key));
                let at = choose|at: int| 0 <= at < signers@.len() && signers@[at] == key;
                assert(known@.contains(signers@[at]));
            }
        }
        assert(signers_known(transaction@, name@, *evidence, *ids, known@));
    }
    if same_text(name, "settlement") {
        if !has_status {
            return Err(invalid);
        }
        match decode_legs(transaction, name, evidence, ids, &mut decoded) {
            Ok(_) => {},
            Err(error) => {
                return Err(error);
            },
        }
    } else {
        assert(entries + Seq::<InstructionFields>::empty() =~= entries);
    }
    Ok(decoded)
}

/// Decodes a fetched lock or settlement.
pub fn decode_kageb_transaction(
    fetched: &FetchedTransaction,
    name: &str,
    evidence: &DevnetEvidenceContentV1,
    ids: &ProgramIds,
) -> (decoded: Result<Vec<DecodedInstructionEvidenceV1>, DevnetEvidenceError>)
    ensures
        match decoded {
            Ok(decoded) => call_decode_refusal(*fetched, name@, *evidence, *ids) is None
                && instruction_fields(decoded@) == decoded_call(
                fetched.observed().unwrap(),
                name@,
                *evidence,
                *ids,
            ),
            Err(error) => call_decode_refusal(*fetched, name@, *evidence, *ids) == Some(error),
        },
{
    match fetched.observe() {
        Some(transaction) => decode_observed_call(
            &transaction,
            fetched.has_status,
            name,
            evidence,
            ids,
        ),
        None => Err(DevnetEvidenceError::InvalidTransaction),
    }
}

} // verus!
