//! When a settlement is owed, what it says, and what is sent about it.

use crate::bytes::zeros;
use crate::codec::{encode_all, parse_all, Entry};
use crate::commitment::{root_of, CommitmentDomain, CommitmentError};
use crate::crypto::EncryptedSubmissionV1;
use crate::hash::sha256;
use crate::idmap::value_of;
use crate::intents::{intents_root, recovered_intent};
use crate::ledger::{batch_accepted, BatchConfig, PoolBalance, Residual};
use crate::lock::{locked_refusal, LockedFields, PackageFields, ReferenceKeyper};
use crate::lockwire::{keys_part, package_bytes, package_refusal};
use crate::program::EpochConfigurationV1;
use crate::request::{
    all_evidence_bytes, approval_bytes, evidence_bytes, holds_evidence, package_part,
    reads_as_evidence, request_bytes, request_rest_refusal, request_tail, settle_refusal, settlement_answered, RequestFields,
    SettlementApprovalFields, SettlementApprovalV1,
};
use crate::settlement::{
    balances_before, commitment_of, orders_of, payload_of, post_root_of, result_leaf,
    result_root_of, revealed_intents, settlement_balance_bytes, settlement_of, EvidenceFields,
    SettlementBalanceV1, SettlementFields, SettlementValidationError,
};
use crate::shares::{reads_as_released, released_bytes, KeyperSecretShare};
use crate::signing::{ed25519_key, ed25519_verifies};
use crate::snapshot::{snapshot_bytes, BalanceRecordV1};
use crate::threshold::{key_set, key_share, share_public};
use vstd::bytes::{
    lemma_auto_spec_u32_to_from_le_bytes, lemma_auto_spec_u64_to_from_le_bytes,
    spec_u32_from_le_bytes, spec_u32_to_le_bytes, spec_u64_to_le_bytes,
};
use vstd::prelude::*;
use vstd::string::*;
use vstd::utf8::encode_utf8;

verus! {

/// A package is settled exactly where it is the locked one, the nonce is not zero and not that of the lock,
/// there is evidence for each member whose two shares were released for this epoch and this lock and open
/// the member's order, each order is of the epoch, of a member and signed with that member's trading key,
/// no participant orders twice, the batch is filled, and neither root holds a leaf twice. What fails first
/// is named.
pub proof fn law_settlements_are_exact(
    package: PackageFields,
    evidence: Seq<EvidenceFields>,
    nonce: [u8; 32],
    locked: LockedFields,
    lock_digest: [u8; 32],
)
    ensures
        ({
            let intents = revealed_intents(package, evidence, locked);
            let post = crate::settlement::post_balances_of(package, intents);
            let before = balances_before(package.balances);
            let settled = settlement_of(package, evidence, nonce, locked, lock_digest);
            &&& settled is Ok <==> {
                &&& locked_refusal(package, locked, lock_digest) is None
                &&& nonce@ != zeros(32)
                &&& nonce != locked.state.lock_nonce
                &&& evidence.len() == package.submissions.len()
                &&& forall|i: int|
                    0 <= i < package.submissions.len() ==> {
                        &&& (#[trigger] evidence[i]).first.epoch_account == locked.epoch_account
                        &&& evidence[i].second.epoch_account == locked.epoch_account
                        &&& evidence[i].first.lock_digest == locked.state.lock_digest
                        &&& evidence[i].second.lock_digest == locked.state.lock_digest
                        &&& recovered_intent(
                            package.keys,
                            package.submissions[i],
                            seq![evidence[i].first, evidence[i].second],
                        ) is Some
                    }
                &&& forall|i: int|
                    0 <= i < intents.len() ==> exists|k: int|
                        {
                            let funded = (#[trigger] package.submissions[k]).authorization;
                            let signed = #[trigger] intents[i];
                            &&& 0 <= k < package.submissions.len()
                            &&& funded.participant_id == signed.0.participant_id
                            &&& signed.0.epoch_id == package.configuration.epoch_id
                            &&& ed25519_key(funded.trading_key@)
                            &&& ed25519_verifies(
                                funded.trading_key@,
                                encode_utf8("KAGEB_INTENT_V1\0"@) + crate::domain::intent_bytes(
                                    signed.0,
                                ),
                                signed.1@,
                            )
                        }
                &&& forall|i: int, j: int|
                    0 <= i < j < intents.len() ==> (#[trigger] intents[i]).0.participant_id != (
                    #[trigger] intents[j]).0.participant_id
                &&& batch_accepted(
                    BatchConfig::of(
                        package.configuration.base_lot_atoms,
                        package.configuration.quote_atoms_per_lot,
                    ),
                    before,
                    orders_of(intents),
                )
                &&& post_root_of(post) is Some
                &&& result_root_of(before, post) is Some
            }
            &&& locked_refusal(package, locked, lock_digest) is Some ==> settled == Err::<
                SettlementFields,
                _,
            >(SettlementValidationError::InvalidLock)
            &&& locked_refusal(package, locked, lock_digest) is None && (nonce@ == zeros(32)
                || nonce == locked.state.lock_nonce) ==> settled == Err::<SettlementFields, _>(
                SettlementValidationError::InvalidNonce,
            )
        }),
{
    let intents = revealed_intents(package, evidence, locked);
    let submissions = package.submissions;
    let epoch_id = package.configuration.epoch_id;
    if crate::settlement::all_revealed(package, evidence, locked) {
        assert forall|i: int| 0 <= i < package.submissions.len() implies {
            &&& (#[trigger] evidence[i]).first.epoch_account == locked.epoch_account
            &&& evidence[i].second.epoch_account == locked.epoch_account
            &&& evidence[i].first.lock_digest == locked.state.lock_digest
            &&& evidence[i].second.lock_digest == locked.state.lock_digest
            &&& recovered_intent(
                package.keys,
                package.submissions[i],
                seq![evidence[i].first, evidence[i].second],
            ) is Some
        } by {
            assert(crate::settlement::revealed(package, evidence, locked, i) is Some);
        }
    }
    if crate::settlement::orders_signed(submissions, epoch_id, intents) {
        assert forall|i: int| 0 <= i < intents.len() implies exists|k: int|
            {
                let funded = (#[trigger] submissions[k]).authorization;
                let signed = #[trigger] intents[i];
                &&& 0 <= k < submissions.len()
                &&& funded.participant_id == signed.0.participant_id
                &&& signed.0.epoch_id == epoch_id
                &&& ed25519_key(funded.trading_key@)
                &&& ed25519_verifies(
                    funded.trading_key@,
                    encode_utf8("KAGEB_INTENT_V1\0"@) + crate::domain::intent_bytes(signed.0),
                    signed.1@,
                )
            } by {
            assert(crate::settlement::signed_by_member(submissions, epoch_id, intents[i]));
            let k = choose|k: int|
                0 <= k < submissions.len() && crate::settlement::signed_by(
                    #[trigger] submissions[k],
                    epoch_id,
                    intents[i],
                );
            assert(crate::settlement::signed_by(submissions[k], epoch_id, intents[i]));
        }
        assert forall|i: int, j: int| 0 <= i < j < intents.len() implies (
        #[trigger] intents[i]).0.participant_id != (#[trigger] intents[j]).0.participant_id by {
            assert(!crate::settlement::order_repeats(intents, j));
        }
    }
    if (forall|i: int|
        0 <= i < intents.len() ==> exists|k: int|
            {
                let funded = (#[trigger] submissions[k]).authorization;
                let signed = #[trigger] intents[i];
                &&& 0 <= k < submissions.len()
                &&& funded.participant_id == signed.0.participant_id
                &&& signed.0.epoch_id == epoch_id
                &&& ed25519_key(funded.trading_key@)
                &&& ed25519_verifies(
                    funded.trading_key@,
                    encode_utf8("KAGEB_INTENT_V1\0"@) + crate::domain::intent_bytes(signed.0),
                    signed.1@,
                )
            }) && (forall|i: int, j: int|
        0 <= i < j < intents.len() ==> (#[trigger] intents[i]).0.participant_id != (
        #[trigger] intents[j]).0.participant_id) {
        assert forall|i: int| 0 <= i < intents.len() implies
            crate::settlement::signed_by_member(submissions, epoch_id, #[trigger] intents[i])
            && !crate::settlement::order_repeats(intents, i) by {
            let k = choose|k: int|
                {
                    let funded = (#[trigger] submissions[k]).authorization;
                    let signed = intents[i];
                    &&& 0 <= k < submissions.len()
                    &&& funded.participant_id == signed.0.participant_id
                    &&& signed.0.epoch_id == epoch_id
                    &&& ed25519_key(funded.trading_key@)
                    &&& ed25519_verifies(
                        funded.trading_key@,
                        encode_utf8("KAGEB_INTENT_V1\0"@) + crate::domain::intent_bytes(signed.0),
                        signed.1@,
                    )
                };
            assert(crate::settlement::signed_by(submissions[k], epoch_id, intents[i]));
        }
    }
}

/// The terms that keypers sign: of the epoch and its recorded lock, with the result's commitment, the
/// residual as numbers, the lot and the price that the epoch records, the mints, vaults and venue accounts
/// of the pool, and the settlement's own nonce.
pub proof fn law_settlement_payload_is_exact(
    locked: LockedFields,
    result_commitment: [u8; 32],
    residual: Residual,
    nonce: [u8; 32],
)
    requires
        locked.pool is Some,
    ensures
        ({
            let payload = payload_of(locked, result_commitment, residual, nonce);
            let pool = locked.pool.unwrap();
            &&& payload.epoch_account == locked.epoch_account
            &&& payload.lock_digest == locked.state.lock_digest
            &&& payload.result_commitment == result_commitment
            &&& residual == Residual::Balanced ==> payload.residual_side == 0
                && payload.residual_lots == 0
            &&& residual matches Residual::Buy { lots } ==> payload.residual_side == 1
                && payload.residual_lots == lots
            &&& residual matches Residual::Sell { lots } ==> payload.residual_side == 2
                && payload.residual_lots == lots
            &&& payload.base_lot_atoms == locked.state.base_lot_atoms
            &&& payload.quote_atoms_per_lot == locked.state.quote_atoms_per_lot
            &&& payload.base_mint == pool.base_mint
            &&& payload.quote_mint == pool.quote_mint
            &&& payload.pool_base_vault == pool.pool_base_vault
            &&& payload.pool_quote_vault == pool.pool_quote_vault
            &&& payload.venue_base_account == pool.venue_base_account
            &&& payload.venue_quote_account == pool.venue_quote_account
            &&& payload.venue_authority == pool.venue_authority
            &&& payload.settlement_nonce == nonce
        }),
{
}

/// The commitment of a result is the digest of its tag, the epoch, its lock, the root of the recovered
/// orders, the roots of the balances before and after, the residual as numbers, and the root of results.
pub proof fn law_result_commitment_is_exact(
    locked: LockedFields,
    recovered: [u8; 32],
    pre: [u8; 32],
    post: [u8; 32],
    residual: Residual,
    result: [u8; 32],
    side: u8,
    lots: u32,
)
    requires
        residual == Residual::Balanced ==> side == 0 && lots == 0,
        residual matches Residual::Buy { lots: k } ==> side == 1 && lots == k,
        residual matches Residual::Sell { lots: k } ==> side == 2 && lots == k,
    ensures
        commitment_of(locked, recovered, pre, post, residual, result) == sha256(
            encode_utf8("KAGEB_RESULT_COMMITMENT_V1\0"@) + locked.epoch_account@
                + locked.state.lock_digest@ + recovered@ + pre@ + post@ + seq![side]
                + spec_u32_to_le_bytes(lots) + result@,
        ),
{
}

/// What a settlement says is what its parts say: the root before is that of the package, the root after is
/// that of the balances left, the root of results holds for each participant the amounts before and after,
/// and the commitment is over these and over the recovered orders.
pub proof fn law_settlements_hold_together(
    package: PackageFields,
    evidence: Seq<EvidenceFields>,
    nonce: [u8; 32],
    locked: LockedFields,
    lock_digest: [u8; 32],
    settled: SettlementFields,
)
    requires
        settlement_of(package, evidence, nonce, locked, lock_digest) == Ok::<
            SettlementFields,
            SettlementValidationError,
        >(settled),
    ensures
        settled.intents == revealed_intents(package, evidence, locked),
        settled.pre_balance_root == package.pre_balance_root,
        root_of(
            CommitmentDomain::BalanceSet,
            Seq::new(
                settled.post_balances.len(),
                |i: int|
                    settled.post_balances[i].participant_id@ + spec_u64_to_le_bytes(
                        settled.post_balances[i].base_atoms,
                    ) + spec_u64_to_le_bytes(settled.post_balances[i].quote_atoms),
            ),
        ) == Ok::<[u8; 32], CommitmentError>(settled.post_balance_root),
        root_of(
            CommitmentDomain::ResultSet,
            Seq::new(
                settled.post_balances.len(),
                |i: int|
                    {
                        let after = settled.post_balances[i];
                        let before = value_of(
                            balances_before(package.balances),
                            after.participant_id,
                        ).unwrap();
                        after.participant_id@ + spec_u64_to_le_bytes(before.base_atoms)
                            + spec_u64_to_le_bytes(before.quote_atoms) + spec_u64_to_le_bytes(
                            after.base_atoms,
                        ) + spec_u64_to_le_bytes(after.quote_atoms)
                    },
            ),
        ) == Ok::<[u8; 32], CommitmentError>(settled.result_root),
        settled.result_commitment == commitment_of(
            locked,
            intents_root(settled.intents),
            package.pre_balance_root,
            settled.post_balance_root,
            settled.residual,
            settled.result_root,
        ),
        settled.payload == payload_of(locked, settled.result_commitment, settled.residual, nonce),
{
    let post = settled.post_balances;
    let before = balances_before(package.balances);
    let leaves = Seq::new(
        post.len(),
        |i: int|
            post[i].participant_id@ + spec_u64_to_le_bytes(post[i].base_atoms)
                + spec_u64_to_le_bytes(post[i].quote_atoms),
    );
    assert(post.map_values(|balance: SettlementBalanceV1| settlement_balance_bytes(balance))
        =~= leaves);
    let results = Seq::new(
        post.len(),
        |i: int|
            {
                let after = post[i];
                let held = value_of(before, after.participant_id).unwrap();
                after.participant_id@ + spec_u64_to_le_bytes(held.base_atoms)
                    + spec_u64_to_le_bytes(held.quote_atoms) + spec_u64_to_le_bytes(
                    after.base_atoms,
                ) + spec_u64_to_le_bytes(after.quote_atoms)
            },
    );
    assert(post.map_values(
        |balance: SettlementBalanceV1|
            result_leaf(value_of(before, balance.participant_id).unwrap(), balance),
    ) =~= results);
}

/// A keyper approves a settlement exactly where the package settles, the request asks for what it settles
/// to, in every part and under its digest, and the keyper is one of the three at its own place, with its
/// own share, and signed this very lock.
pub proof fn law_approved_settlements_are_exact(
    index: usize,
    key: [u8; 32],
    journal: Seq<([u8; 32], [u8; 32])>,
    request: RequestFields,
    locked: LockedFields,
    secret: KeyperSecretShare,
    lock_digest: [u8; 32],
    settlement_digest: [u8; 32],
)
    ensures
        settle_refusal(
            index,
            key,
            journal,
            request,
            locked,
            secret,
            lock_digest,
            settlement_digest,
        ) is None <==> {
            &&& settlement_of(
                request.package,
                request.evidence,
                request.settlement_nonce,
                locked,
                lock_digest,
            ) matches Ok(settled) && {
                &&& request.post_balances == settled.post_balances
                &&& request.pre_balance_root == settled.pre_balance_root
                &&& request.post_balance_root == settled.post_balance_root
                &&& request.residual == settled.residual
                &&& request.result_root == settled.result_root
                &&& request.result_commitment == settled.result_commitment
                &&& request.settlement_digest == settlement_digest
            }
            &&& index < 3
            &&& locked.pool.unwrap().keypers@[index as int] == key
            &&& secret.position() == index
            &&& secret.epoch() == request.package.epoch_account
            &&& key_share(request.package.keys, index) is Some
            &&& key_share(request.package.keys, index) == share_public(secret.secret()@)
            &&& value_of(journal, locked.epoch_account) == Some(locked.state.lock_digest)
        },
{
}

/// A balance after a settlement is its participant and its base and quote amounts; a result is the
/// participant, the amounts before and the amounts after.
pub proof fn law_results_are_laid_out(before: PoolBalance, after: SettlementBalanceV1)
    ensures
        ({
            let bytes = settlement_balance_bytes(after);
            &&& bytes.len() == 48
            &&& SettlementBalanceV1::width() == 48
            &&& SettlementBalanceV1::encoded(after) == bytes
            &&& bytes.subrange(0, 32) == after.participant_id@
            &&& bytes.subrange(32, 40) == spec_u64_to_le_bytes(after.base_atoms)
            &&& bytes.subrange(40, 48) == spec_u64_to_le_bytes(after.quote_atoms)
        }),
        ({
            let bytes = result_leaf(before, after);
            &&& bytes.len() == 64
            &&& bytes.subrange(0, 32) == after.participant_id@
            &&& bytes.subrange(32, 40) == spec_u64_to_le_bytes(before.base_atoms)
            &&& bytes.subrange(40, 48) == spec_u64_to_le_bytes(before.quote_atoms)
            &&& bytes.subrange(48, 56) == spec_u64_to_le_bytes(after.base_atoms)
            &&& bytes.subrange(56, 64) == spec_u64_to_le_bytes(after.quote_atoms)
        }),
{
    lemma_auto_spec_u64_to_from_le_bytes();
    let bytes = settlement_balance_bytes(after);
    assert(bytes.subrange(0, 32) =~= after.participant_id@);
    assert(bytes.subrange(32, 40) =~= spec_u64_to_le_bytes(after.base_atoms));
    assert(bytes.subrange(40, 48) =~= spec_u64_to_le_bytes(after.quote_atoms));
    let leaf = result_leaf(before, after);
    assert(leaf.subrange(0, 32) =~= after.participant_id@);
    assert(leaf.subrange(32, 40) =~= spec_u64_to_le_bytes(before.base_atoms));
    assert(leaf.subrange(40, 48) =~= spec_u64_to_le_bytes(before.quote_atoms));
    assert(leaf.subrange(48, 56) =~= spec_u64_to_le_bytes(after.base_atoms));
    assert(leaf.subrange(56, 64) =~= spec_u64_to_le_bytes(after.quote_atoms));
}

/// A request is a version, its package with its length, the evidence of each member, the balances after,
/// the roots, the residual as numbers, the result, its commitment, the nonce and the digest.
pub proof fn law_settlement_requests_are_laid_out(
    fields: RequestFields,
    package: Seq<u8>,
    side: u8,
    lots: u32,
)
    requires
        fields.residual == Residual::Balanced ==> side == 0 && lots == 0,
        fields.residual matches Residual::Buy { lots: k } ==> side == 1 && lots == k,
        fields.residual matches Residual::Sell { lots: k } ==> side == 2 && lots == k,
    ensures
        request_bytes(fields, package) == seq![1u8] + spec_u32_to_le_bytes(package.len() as u32)
            + package + spec_u32_to_le_bytes(fields.evidence.len() as u32) + all_evidence_bytes(
            fields.evidence,
        ) + spec_u32_to_le_bytes(fields.post_balances.len() as u32) + encode_all::<
            SettlementBalanceV1,
        >(fields.post_balances) + request_tail(fields),
        ({
            let tail = request_tail(fields);
            &&& tail.len() == 197
            &&& tail.subrange(0, 32) == fields.pre_balance_root@
            &&& tail.subrange(32, 64) == fields.post_balance_root@
            &&& tail[64] == side
            &&& tail.subrange(65, 69) == spec_u32_to_le_bytes(lots)
            &&& tail.subrange(69, 101) == fields.result_root@
            &&& tail.subrange(101, 133) == fields.result_commitment@
            &&& tail.subrange(133, 165) == fields.settlement_nonce@
            &&& tail.subrange(165, 197) == fields.settlement_digest@
        }),
{
    lemma_auto_spec_u32_to_from_le_bytes();
    let tail = request_tail(fields);
    assert(tail.subrange(0, 32) =~= fields.pre_balance_root@);
    assert(tail.subrange(32, 64) =~= fields.post_balance_root@);
    assert(tail.subrange(65, 69) =~= spec_u32_to_le_bytes(lots));
    assert(tail.subrange(69, 101) =~= fields.result_root@);
    assert(tail.subrange(101, 133) =~= fields.result_commitment@);
    assert(tail.subrange(133, 165) =~= fields.settlement_nonce@);
    assert(tail.subrange(165, 197) =~= fields.settlement_digest@);
}

/// Evidence is two released shares with their lengths, the first one first, and stands in the order of the
/// members.
pub proof fn law_evidence_is_laid_out(evidence: Seq<EvidenceFields>, i: int)
    requires
        0 <= i < evidence.len(),
    ensures
        ({
            let bytes = evidence_bytes(evidence[i]);
            &&& bytes.len() == 322
            &&& bytes.subrange(0, 4) == spec_u32_to_le_bytes(157)
            &&& bytes.subrange(4, 161) == released_bytes(evidence[i].first)
            &&& bytes.subrange(161, 165) == spec_u32_to_le_bytes(157)
            &&& bytes.subrange(165, 322) == released_bytes(evidence[i].second)
        }),
        all_evidence_bytes(evidence).len() == 322 * evidence.len(),
        all_evidence_bytes(evidence).subrange(322 * i, 322 * i + 322) == evidence_bytes(
            evidence[i],
        ),
    decreases evidence.len(),
{
    lemma_auto_spec_u32_to_from_le_bytes();
    crate::layouts::law_released_shares_are_laid_out(evidence[i].first);
    crate::layouts::law_released_shares_are_laid_out(evidence[i].second);
    crate::layouts::law_released_shares_are_laid_out(evidence.last().first);
    crate::layouts::law_released_shares_are_laid_out(evidence.last().second);
    let bytes = evidence_bytes(evidence[i]);
    assert(bytes.subrange(0, 4) =~= spec_u32_to_le_bytes(157));
    assert(bytes.subrange(4, 161) =~= released_bytes(evidence[i].first));
    assert(bytes.subrange(161, 165) =~= spec_u32_to_le_bytes(157));
    assert(bytes.subrange(165, 322) =~= released_bytes(evidence[i].second));
    let all = all_evidence_bytes(evidence);
    let rest = all_evidence_bytes(evidence.drop_last());
    if evidence.len() > 1 {
        law_evidence_is_laid_out(
            evidence.drop_last(),
            if i < evidence.len() - 1 {
                i
            } else {
                0
            },
        );
    } else {
        assert(rest.len() == 0);
    }
    if i < evidence.len() - 1 {
        assert(evidence.drop_last()[i] == evidence[i]);
        assert(all.subrange(322 * i, 322 * i + 322) =~= rest.subrange(322 * i, 322 * i + 322));
    } else {
        assert(all.subrange(322 * i, 322 * i + 322) =~= evidence_bytes(evidence[i]));
    }
}

/// An approval is a version, the keyper, the program's encoding of the payload, the digest and the
/// signature.
pub proof fn law_approvals_are_laid_out(fields: SettlementApprovalFields, payload: Seq<u8>)
    ensures
        ({
            let bytes = approval_bytes(fields, payload);
            let n = payload.len() as int;
            &&& bytes.len() == 129 + n
            &&& bytes[0] == 1
            &&& bytes.subrange(1, 33) == fields.keyper_key@
            &&& bytes.subrange(33, 33 + n) == payload
            &&& bytes.subrange(33 + n, 65 + n) == fields.digest@
            &&& bytes.subrange(65 + n, 129 + n) == fields.signature@
        }),
{
    let bytes = approval_bytes(fields, payload);
    let n = payload.len() as int;
    assert(bytes.subrange(1, 33) =~= fields.keyper_key@);
    assert(bytes.subrange(33, 33 + n) =~= payload);
    assert(bytes.subrange(33 + n, 65 + n) =~= fields.digest@);
    assert(bytes.subrange(65 + n, 129 + n) =~= fields.signature@);
}

/// A package is a version, the epoch, its configuration, the keys with their length, the submissions and
/// the balances with their numbers, the snapshot, both roots, the number of members and the nonce.
pub proof fn law_packages_are_laid_out(
    fields: PackageFields,
    configuration: Seq<u8>,
    keys: Seq<u8>,
)
    ensures
        package_bytes(fields, configuration, keys) == seq![1u8] + fields.epoch_account@
            + configuration + spec_u32_to_le_bytes(keys.len() as u32) + keys + spec_u32_to_le_bytes(
            fields.submissions.len() as u32,
        ) + encode_all::<EncryptedSubmissionV1>(fields.submissions) + spec_u32_to_le_bytes(
            fields.balances.len() as u32,
        ) + encode_all::<BalanceRecordV1>(fields.balances) + (snapshot_bytes(fields.snapshot)
            + fields.pre_balance_root@ + fields.member_root@ + spec_u32_to_le_bytes(
            fields.member_count,
        ) + fields.lock_nonce@),
{
}

/// The number that four bytes at a place stand for.
pub open spec fn count_at(bytes: Seq<u8>, at: int) -> int {
    spec_u32_from_le_bytes(bytes.subrange(at, at + 4)) as int
}

/// Bytes are a package exactly where they have its version, a configuration, keys of an epoch, no more
/// than sixty-four submissions and no more than sixty-four balances, each of them one, and nothing behind
/// the fixed part that ends it.
pub proof fn law_packages_are_read_exactly(
    bytes: Seq<u8>,
    width: int,
    configuration: Option<EpochConfigurationV1>,
)
    requires
        width >= 0,
    ensures
        package_refusal(bytes, width, configuration) is None <==> {
            let keys_end = 37 + width + count_at(bytes, 33 + width);
            let members_end = keys_end + 4 + 689 * count_at(bytes, keys_end);
            let balances_end = members_end + 4 + 64 * count_at(bytes, members_end);
            &&& bytes.len() >= 309 + width
            &&& bytes[0] == 1
            &&& configuration is Some
            &&& count_at(bytes, 33 + width) == 104
            &&& keys_end <= bytes.len()
            &&& key_set(bytes.subrange(37 + width, keys_end)) matches Some(set) && set.1 == 1
            &&& keys_end + 4 <= bytes.len()
            &&& count_at(bytes, keys_end) <= 64
            &&& members_end + 268 <= bytes.len()
            &&& parse_all::<EncryptedSubmissionV1>(
                bytes.subrange(keys_end + 4, members_end),
            ) is Some
            &&& count_at(bytes, members_end) <= 64
            &&& balances_end + 264 == bytes.len()
            &&& parse_all::<BalanceRecordV1>(bytes.subrange(members_end + 4, balances_end)) is Some
        },
{
    let keys_end = 37 + width + count_at(bytes, 33 + width);
    assert(bytes.subrange(37 + width, 37 + width + count_at(bytes, 33 + width)) == keys_part(
        bytes,
        width,
    ));
    assert(count_at(bytes, keys_end) * 689 == 689 * count_at(bytes, keys_end));
}

/// What follows the package in a request is read exactly where it holds evidence for each member of the
/// package and as many balances as the package, no more than sixty-four of either, a residual, and nothing
/// behind the digest that ends it.
pub proof fn law_requests_are_read_exactly(bytes: Seq<u8>, package: PackageFields)
    ensures
        request_rest_refusal(bytes, package) is None <==> {
            let package_end = 5 + count_at(bytes, 1);
            let evidence_end = package_end + 4 + 322 * count_at(bytes, package_end);
            let tail = evidence_end + 4 + 48 * count_at(bytes, evidence_end);
            let lots = count_at(bytes, tail + 65);
            &&& package_end + 4 <= bytes.len()
            &&& count_at(bytes, package_end) <= 64
            &&& count_at(bytes, package_end) == package.submissions.len()
            &&& count_at(bytes, package_end) == package.member_count
            &&& holds_evidence(bytes, package_end + 4, count_at(bytes, package_end))
            &&& evidence_end + 4 <= bytes.len()
            &&& count_at(bytes, evidence_end) <= 64
            &&& count_at(bytes, evidence_end) == package.balances.len()
            &&& tail + 197 == bytes.len()
            &&& (bytes[tail + 64] == 0 && lots == 0) || (bytes[tail + 64] == 1 && lots > 0) || (
            bytes[tail + 64] == 2 && lots > 0)
        },
{
}

/// Evidence is read exactly where it has the two lengths and holds two shares, of two keypers.
pub proof fn law_evidence_is_read_exactly(chunk: Seq<u8>, fields: EvidenceFields)
    ensures
        reads_as_evidence(chunk, fields) <==> {
            &&& chunk.len() == 322
            &&& count_at(chunk, 0) == 157
            &&& count_at(chunk, 161) == 157
            &&& reads_as_released(chunk.subrange(4, 161), fields.first)
            &&& reads_as_released(chunk.subrange(165, 322), fields.second)
            &&& fields.first.index != fields.second.index
        },
{
}

/// A request begins with its version and the length of its package, which fits.
pub proof fn law_request_package_is_exact(bytes: Seq<u8>, package: Seq<u8>)
    ensures
        package_part(bytes) == Some(package) <==> {
            &&& bytes.len() >= 5
            &&& bytes[0] == 1
            &&& 5 + count_at(bytes, 1) <= bytes.len()
            &&& package == bytes.subrange(5, 5 + count_at(bytes, 1))
        },
{
}

/// An approval that is answered is the keyper's own, of the terms that the package settles to, under the
/// digest that was asked for, and signed by the keyper.
pub proof fn law_answered_approvals_are_exact(
    keyper: ReferenceKeyper,
    request: RequestFields,
    locked: LockedFields,
    secret: KeyperSecretShare,
    lock_digest: [u8; 32],
    settlement_digest: [u8; 32],
    approval: Result<SettlementApprovalV1, SettlementValidationError>,
)
    requires
        settlement_answered(
            keyper,
            request,
            locked,
            secret,
            lock_digest,
            settlement_digest,
            approval,
        ),
    ensures
        approval is Ok <==> settle_refusal(
            keyper.position(),
            keyper.key(),
            keyper.signed(),
            request,
            locked,
            secret,
            lock_digest,
            settlement_digest,
        ) is None,
        approval matches Ok(approval) ==> {
            &&& approval@.keyper_key == keyper.key()
            &&& settlement_of(
                request.package,
                request.evidence,
                request.settlement_nonce,
                locked,
                lock_digest,
            ) matches Ok(settled) && approval@.payload == settled.payload
            &&& approval@.digest == settlement_digest
            &&& ed25519_verifies(keyper.key()@, settlement_digest@, approval@.signature@)
        },
{
}

} // verus!
