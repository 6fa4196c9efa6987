//! Settlement requests: what a coordinator asks keypers to sign, its wire form, and the approval.

use crate::bytes::{append, read_array, same_array};
use crate::codec::{encode_all, lemma_encode_all_len, lemma_encode_all_push, views, write_all};
use crate::idmap::value_of;
use crate::ledger::{net_lots, residual_of, Residual};
use crate::lock::{
    is_configured, ConfirmedLock, LockPackageV1, LockedFields, PackageFields, ReferenceKeyper,
    MAX_BATCH_MEMBERS,
};
use crate::lockwire::{keys_part, package_bytes, package_refusal, package_storable, u32_at};
use crate::program::{EpochConfigurationV1, SettlementPayloadV1};
use crate::settlement::{
    base_held, base_left, law_settlement_conserves_tokens, orders_of, quote_held, quote_left,
    read_residual, recompute, residual_code, residual_from, residual_wire, settlement_of,
    DecryptionEvidenceV1, EvidenceFields, SettlementBalanceV1, SettlementFields,
    SettlementValidationError,
};
use crate::shares::{
    law_released_share_is_determined, law_released_share_round_trip, reads_as_released,
    released_bytes, KeyperSecretShare, ReleasedShareV1,
};
use crate::signing::{ed25519_signed, ed25519_verifies, verify_with};
use crate::threshold::{decryption_share_encoding, key_set};
use vstd::bytes::{
    lemma_auto_spec_u32_to_from_le_bytes, lemma_auto_spec_u64_to_from_le_bytes,
    spec_u32_to_le_bytes, u32_from_le_bytes, u32_to_le_bytes,
};
use vstd::prelude::*;
use vstd::slice::slice_subrange;

verus! {

/// What a settlement request says.
pub struct RequestFields {
    pub package: PackageFields,
    pub evidence: Seq<EvidenceFields>,
    pub post_balances: Seq<SettlementBalanceV1>,
    pub pre_balance_root: [u8; 32],
    pub post_balance_root: [u8; 32],
    pub residual: Residual,
    pub result_root: [u8; 32],
    pub result_commitment: [u8; 32],
    pub settlement_nonce: [u8; 32],
    pub settlement_digest: [u8; 32],
}

/// A settlement that is put to keypers to be signed.
#[derive(Clone, PartialEq, Eq)]
pub struct SettlementRequestV1 {
    pub package: LockPackageV1,
    pub decryption_evidence: Vec<DecryptionEvidenceV1>,
    pub post_balances: Vec<SettlementBalanceV1>,
    pub pre_balance_root: [u8; 32],
    pub post_balance_root: [u8; 32],
    pub residual: Residual,
    pub result_root: [u8; 32],
    pub result_commitment: [u8; 32],
    pub settlement_nonce: [u8; 32],
    pub settlement_digest: [u8; 32],
}

impl View for SettlementRequestV1 {
    type V = RequestFields;

    open spec fn view(&self) -> RequestFields {
        RequestFields {
            package: self.package@,
            evidence: views(self.decryption_evidence@),
            post_balances: self.post_balances@,
            pre_balance_root: self.pre_balance_root,
            post_balance_root: self.post_balance_root,
            residual: self.residual,
            result_root: self.result_root,
            result_commitment: self.result_commitment,
            settlement_nonce: self.settlement_nonce,
            settlement_digest: self.settlement_digest,
        }
    }
}

/// Whether a request asks for what the settlement comes to.
pub open spec fn asks_for(
    request: RequestFields,
    settlement: SettlementFields,
    settlement_digest: [u8; 32],
) -> bool {
    &&& request.post_balances == settlement.post_balances
    &&& request.pre_balance_root == settlement.pre_balance_root
    &&& request.post_balance_root == settlement.post_balance_root
    &&& request.residual == settlement.residual
    &&& request.result_root == settlement.result_root
    &&& request.result_commitment == settlement.result_commitment
    &&& request.settlement_digest == settlement_digest
}

/// Whether a keyper may sign a settlement: the pool names it, it holds a share of the package, and it
/// signed the lock.
pub open spec fn may_settle(
    index: usize,
    key: [u8; 32],
    journal: Seq<([u8; 32], [u8; 32])>,
    package: PackageFields,
    locked: LockedFields,
    secret: KeyperSecretShare,
) -> bool {
    is_configured(index, key, locked.pool.unwrap().keypers, package, secret) && value_of(
        journal,
        locked.epoch_account,
    ) == Some(locked.state.lock_digest)
}

/// Why a keyper does not sign a settlement, where it does not: the settlement is refused, or comes
/// to something else than the request asks for, or the keyper may not settle.
pub open spec fn settle_refusal(
    index: usize,
    key: [u8; 32],
    journal: Seq<([u8; 32], [u8; 32])>,
    request: RequestFields,
    locked: LockedFields,
    secret: KeyperSecretShare,
    lock_digest: [u8; 32],
    settlement_digest: [u8; 32],
) -> Option<SettlementValidationError> {
    match settlement_of(
        request.package,
        request.evidence,
        request.settlement_nonce,
        locked,
        lock_digest,
    ) {
        Err(error) => Some(error),
        Ok(settlement) => if !asks_for(request, settlement, settlement_digest) {
            Some(SettlementValidationError::InvalidResult)
        } else if !may_settle(index, key, journal, request.package, locked, secret) {
            Some(SettlementValidationError::WrongKeyper)
        } else {
            None
        },
    }
}

/// Whether two lists of balances are the same.
fn same_balances(a: &[SettlementBalanceV1], b: &[SettlementBalanceV1]) -> (same: bool)
    ensures
        same == (a@ == b@),
{
    if a.len() != b.len() {
        return false;
    }
    let mut i: usize = 0;
    while i < a.len()
        invariant
            i <= a@.len() == b@.len(),
            forall|k: int| 0 <= k < i ==> a@[k] == b@[k],
        decreases a@.len() - i,
    {
        if !same_array(&a[i].participant_id, &b[i].participant_id) || a[i].base_atoms
            != b[i].base_atoms || a[i].quote_atoms != b[i].quote_atoms {
            assert(a@[i as int] != b@[i as int]);
            return false;
        }
        i += 1;
    }
    assert(a@ =~= b@);
    true
}

impl SettlementRequestV1 {
    /// The package is one that may be checked, and each piece of evidence is of two keypers.
    pub open spec fn wf(&self) -> bool {
        &&& self.package.wf()
        &&& forall|i: int|
            0 <= i < self.decryption_evidence@.len() ==> (
            #[trigger] self.decryption_evidence@[i]).wf()
    }

    /// The request for what settling a package comes to. `lock_digest` and `settlement_digest` are
    /// the program's digests of the lock payload and of the settlement payload.
    pub fn build(
        package: LockPackageV1,
        decryption_evidence: Vec<DecryptionEvidenceV1>,
        settlement_nonce: [u8; 32],
        confirmed: &ConfirmedLock,
        lock_digest: [u8; 32],
        settlement_digest: [u8; 32],
    ) -> (request: Result<Self, SettlementValidationError>)
        requires
            package.wf(),
        ensures
            match (
                request,
                settlement_of(
                    package@,
                    views(decryption_evidence@),
                    settlement_nonce,
                    confirmed@,
                    lock_digest,
                ),
            ) {
                (Ok(request), Ok(settlement)) => {
                    &&& request.package == package
                    &&& request.decryption_evidence == decryption_evidence
                    &&& request.settlement_nonce == settlement_nonce
                    &&& asks_for(request@, settlement, settlement_digest)
                },
                (Err(error), Err(expected)) => error == expected,
                _ => false,
            },
    {
        let settlement = match recompute(
            &package,
            decryption_evidence.as_slice(),
            settlement_nonce,
            confirmed,
            lock_digest,
        ) {
            Ok(settlement) => settlement,
            Err(error) => {
                return Err(error);
            },
        };
        Ok(
            SettlementRequestV1 {
                package,
                decryption_evidence,
                post_balances: settlement.post_balances,
                pre_balance_root: settlement.pre_balance_root,
                post_balance_root: settlement.post_balance_root,
                residual: settlement.residual,
                result_root: settlement.result_root,
                result_commitment: settlement.result_commitment,
                settlement_nonce,
                settlement_digest,
            },
        )
    }
}

/// What an approval of a settlement says.
pub struct SettlementApprovalFields {
    pub keyper_key: [u8; 32],
    pub payload: SettlementPayloadV1,
    pub digest: [u8; 32],
    pub signature: [u8; 64],
}

/// A keyper's signature over the digest of a settlement.
#[derive(Clone, Copy, PartialEq, Eq)]
pub struct SettlementApprovalV1 {
    keyper_key: [u8; 32],
    payload: SettlementPayloadV1,
    digest: [u8; 32],
    signature: [u8; 64],
}

impl View for SettlementApprovalV1 {
    type V = SettlementApprovalFields;

    closed spec fn view(&self) -> SettlementApprovalFields {
        SettlementApprovalFields {
            keyper_key: self.keyper_key,
            payload: self.payload,
            digest: self.digest,
            signature: self.signature,
        }
    }
}

/// The wire form of an approval, given the program's encoding of its payload.
pub open spec fn approval_bytes(fields: SettlementApprovalFields, payload: Seq<u8>) -> Seq<u8> {
    seq![1u8] + fields.keyper_key@ + payload + fields.digest@ + fields.signature@
}

/// An approval comes back from its wire form: the form is accepted wherever the program decodes the
/// payload, and approvals of one payload that share a form are one approval.
pub proof fn law_approval_round_trip(
    fields: SettlementApprovalFields,
    other: SettlementApprovalFields,
    payload: Seq<u8>,
)
    requires
        payload.len() == 374,
    ensures
        approval_bytes(fields, payload).len() == 503,
        approval_bytes(fields, payload)[0] == 1,
        approval_bytes(fields, payload).subrange(33, 407) == payload,
        approval_bytes(fields, payload) == approval_bytes(other, payload) && fields.payload
            == other.payload ==> fields == other,
{
    let a = approval_bytes(fields, payload);
    let b = approval_bytes(other, payload);
    assert(a.subrange(33, 407) =~= payload);
    if a == b {
        assert(a.subrange(1, 33) =~= fields.keyper_key@);
        assert(b.subrange(1, 33) =~= other.keyper_key@);
        assert(a.subrange(407, 439) =~= fields.digest@);
        assert(b.subrange(407, 439) =~= other.digest@);
        assert(a.subrange(439, 503) =~= fields.signature@);
        assert(b.subrange(439, 503) =~= other.signature@);
        assert(fields.keyper_key =~= other.keyper_key);
        assert(fields.digest =~= other.digest);
        assert(fields.signature =~= other.signature);
    }
}

/// The payload's encoding in a wire form of an approval, where it has the width and the version of
/// one.
pub fn approval_payload(bytes: &[u8]) -> (payload: Option<&[u8]>)
    ensures
        match payload {
            Some(payload) => bytes@.len() == 503 && bytes@[0] == 1 && payload@ == bytes@.subrange(
                33,
                407,
            ),
            None => bytes@.len() != 503 || bytes@[0] != 1,
        },
{
    if bytes.len() != 503 || bytes[0] != 1 {
        return None;
    }
    Some(slice_subrange(bytes, 33, 407))
}

impl SettlementApprovalV1 {
    pub fn payload(&self) -> (payload: SettlementPayloadV1)
        ensures
            payload == self@.payload,
    {
        self.payload
    }

    pub fn digest(&self) -> (digest: [u8; 32])
        ensures
            digest == self@.digest,
    {
        self.digest
    }

    pub fn keyper_key(&self) -> (key: [u8; 32])
        ensures
            key == self@.keyper_key,
    {
        self.keyper_key
    }

    pub fn signature(&self) -> (signature: [u8; 64])
        ensures
            signature == self@.signature,
    {
        self.signature
    }

    /// Whether the digest is the program's digest of the payload, and the signature verifies under
    /// the key that the approval names.
    pub fn verify(&self, payload_digest: [u8; 32]) -> (verified: bool)
        ensures
            verified == (self@.digest == payload_digest && ed25519_verifies(
                self@.keyper_key@,
                self@.digest@,
                self@.signature@,
            )),
    {
        same_array(&self.digest, &payload_digest) && verify_with(
            &self.keyper_key,
            self.digest.as_slice(),
            &self.signature,
        )
    }

    /// The wire form, given the program's encoding of the payload.
    pub fn encode_wire(&self, payload: &[u8]) -> (bytes: Vec<u8>)
        ensures
            bytes@ == approval_bytes(self@, payload@),
    {
        let mut out: Vec<u8> = Vec::new();
        out.push(1);
        append(&mut out, self.keyper_key.as_slice());
        append(&mut out, payload);
        append(&mut out, self.digest.as_slice());
        append(&mut out, self.signature.as_slice());
        assert(out@ =~= approval_bytes(self@, payload@));
        out
    }

    /// Reads a wire form. `payload` is what the program's decoder makes of the part that
    /// `approval_payload` gives.
    pub fn decode_wire(bytes: &[u8], payload: Option<SettlementPayloadV1>) -> (approval: Result<
        Self,
        SettlementValidationError,
    >)
        ensures
            match approval {
                Ok(approval) => bytes@.len() == 503 && payload == Some(approval@.payload) && bytes@
                    == approval_bytes(approval@, bytes@.subrange(33, 407)),
                Err(error) => error == SettlementValidationError::InvalidResult && (bytes@.len()
                    != 503 || bytes@[0] != 1 || payload is None),
            },
    {
        if bytes.len() != 503 || bytes[0] != 1 {
            return Err(SettlementValidationError::InvalidResult);
        }
        let payload = match payload {
            Some(payload) => payload,
            None => {
                return Err(SettlementValidationError::InvalidResult);
            },
        };
        let approval = SettlementApprovalV1 {
            keyper_key: read_array::<32>(bytes, 1),
            payload,
            digest: read_array::<32>(bytes, 407),
            signature: read_array::<64>(bytes, 439),
        };
        assert(bytes@ =~= approval_bytes(approval@, bytes@.subrange(33, 407)));
        Ok(approval)
    }
}

/// What a keyper answers to a settlement request: why it does not sign, or its approval of what the
/// settlement comes to.
pub open spec fn settlement_answered(
    keyper: ReferenceKeyper,
    request: RequestFields,
    locked: LockedFields,
    secret: KeyperSecretShare,
    lock_digest: [u8; 32],
    settlement_digest: [u8; 32],
    approval: Result<SettlementApprovalV1, SettlementValidationError>,
) -> bool {
    match settle_refusal(
        keyper.position(),
        keyper.key(),
        keyper.signed(),
        request,
        locked,
        secret,
        lock_digest,
        settlement_digest,
    ) {
        Some(error) => approval == Err::<SettlementApprovalV1, _>(error),
        None => approval matches Ok(approval) && ({
            let settlement = settlement_of(
                request.package,
                request.evidence,
                request.settlement_nonce,
                locked,
                lock_digest,
            ).unwrap();
            &&& approval@.keyper_key == keyper.key()
            &&& approval@.payload == settlement.payload
            &&& approval@.digest == settlement_digest
            &&& approval@.signature == ed25519_signed(keyper.secret()@, settlement_digest@)
            &&& ed25519_verifies(keyper.key()@, settlement_digest@, approval@.signature@)
        }),
    }
}

impl ReferenceKeyper {
    /// Signs a settlement. `lock_digest` and `settlement_digest` are the program's digests of the
    /// lock payload and of the settlement payload.
    pub fn sign_settlement(
        &self,
        request: &SettlementRequestV1,
        confirmed: &ConfirmedLock,
        secret: &KeyperSecretShare,
        lock_digest: [u8; 32],
        settlement_digest: [u8; 32],
    ) -> (approval: Result<SettlementApprovalV1, SettlementValidationError>)
        requires
            self.wf(),
            request.wf(),
        ensures
            settlement_answered(
                *self,
                request@,
                confirmed@,
                *secret,
                lock_digest,
                settlement_digest,
                approval,
            ),
    {
        let settlement = match recompute(
            &request.package,
            request.decryption_evidence.as_slice(),
            request.settlement_nonce,
            confirmed,
            lock_digest,
        ) {
            Ok(settlement) => settlement,
            Err(error) => {
                return Err(error);
            },
        };
        if !same_balances(request.post_balances.as_slice(), settlement.post_balances.as_slice())
            || !same_array(&request.pre_balance_root, &settlement.pre_balance_root) || !same_array(
            &request.post_balance_root,
            &settlement.post_balance_root,
        ) || request.residual != settlement.residual || !same_array(
            &request.result_root,
            &settlement.result_root,
        ) || !same_array(&request.result_commitment, &settlement.result_commitment) || !same_array(
            &request.settlement_digest,
            &settlement_digest,
        ) {
            return Err(SettlementValidationError::InvalidResult);
        }
        let pool = match confirmed.pool() {
            Some(pool) => pool,
            None => {
                return Err(SettlementValidationError::InvalidLock);
            },
        };
        let keyper_key = self.signing_key().verifying_key().to_bytes();
        let signed = match self.journal().digest(confirmed.epoch_account()) {
            Some(signed) => same_array(&signed, &confirmed.lock_digest()),
            None => false,
        };
        let index: usize = self.index();
        if index >= 3 || !same_array(&pool.keypers[index], &keyper_key) || secret.index() != index
            || !same_array(&secret.epoch_account(), &request.package.epoch_account)
            || !request.package.epoch_public_keys.matches_share(secret) || !signed {
            return Err(SettlementValidationError::WrongKeyper);
        }
        Ok(
            SettlementApprovalV1 {
                keyper_key,
                payload: settlement.payload,
                digest: settlement_digest,
                signature: self.signing_key().sign(settlement_digest.as_slice()),
            },
        )
    }
}

/// Keypers who approve the settlement of one package, from the same shares, under one nonce and one
/// lock, approve the same thing, whoever built the request that each of them was sent: the requests say
/// the same, and the approvals hold one payload and one digest, which each keyper signed.
pub proof fn law_approvals_of_one_settlement_agree(
    a: ReferenceKeyper,
    b: ReferenceKeyper,
    asked_a: RequestFields,
    asked_b: RequestFields,
    secret_a: KeyperSecretShare,
    secret_b: KeyperSecretShare,
    locked: LockedFields,
    lock_digest: [u8; 32],
    settlement_digest: [u8; 32],
    approval_a: SettlementApprovalV1,
    approval_b: SettlementApprovalV1,
)
    requires
        asked_a.package == asked_b.package,
        asked_a.evidence == asked_b.evidence,
        asked_a.settlement_nonce == asked_b.settlement_nonce,
        settlement_answered(
            a,
            asked_a,
            locked,
            secret_a,
            lock_digest,
            settlement_digest,
            Ok(approval_a),
        ),
        settlement_answered(
            b,
            asked_b,
            locked,
            secret_b,
            lock_digest,
            settlement_digest,
            Ok(approval_b),
        ),
    ensures
        asked_a == asked_b,
        approval_a@.payload == approval_b@.payload,
        approval_a@.digest == approval_b@.digest,
        ed25519_verifies(a.key()@, approval_b@.digest@, approval_a@.signature@),
        ed25519_verifies(b.key()@, approval_a@.digest@, approval_b@.signature@),
{
}

/// A settlement of a locked package is bound to the lock that the chain recorded, and to one residual of
/// the batch: the terms that keypers sign name the unmatched lots of the recovered orders, at the lot
/// and the price that the epoch's account records, between the vaults and the venue accounts of its
/// pool. Together the balances that it leaves differ from those before by the unmatched lots at the lot
/// and the price of the configuration, which are those of the terms where the epoch's account records
/// the lot of its pool.
pub proof fn law_settlement_is_bound_to_the_lock(
    package: PackageFields,
    evidence: Seq<EvidenceFields>,
    settlement_nonce: [u8; 32],
    locked: LockedFields,
    lock_digest: [u8; 32],
)
    requires
        settlement_of(package, evidence, settlement_nonce, locked, lock_digest) is Ok,
    ensures
        ({
            let settlement = settlement_of(
                package,
                evidence,
                settlement_nonce,
                locked,
                lock_digest,
            ).unwrap();
            let payload = settlement.payload;
            let net = net_lots(orders_of(settlement.intents));
            &&& lock_digest == locked.state.lock_digest
            &&& payload.lock_digest == lock_digest
            &&& payload.epoch_account == package.epoch_account
            &&& payload.settlement_nonce == settlement_nonce
            &&& settlement_nonce != locked.state.lock_nonce
            &&& payload.result_commitment == settlement.result_commitment
            &&& settlement.intents.len() == package.submissions.len()
            &&& settlement.intents.len() >= 4
            &&& settlement.residual == residual_of(net)
            &&& (payload.residual_side, payload.residual_lots) == residual_code(
                settlement.residual,
            )
            &&& payload.base_lot_atoms == locked.state.base_lot_atoms
            &&& payload.quote_atoms_per_lot == package.configuration.quote_atoms_per_lot
            &&& locked.pool matches Some(pool) && payload.base_mint == pool.base_mint
                && payload.quote_mint == pool.quote_mint && payload.pool_base_vault
                == pool.pool_base_vault && payload.pool_quote_vault == pool.pool_quote_vault
                && payload.venue_base_account == pool.venue_base_account
                && payload.venue_quote_account == pool.venue_quote_account
                && payload.venue_authority == pool.venue_authority && (
            locked.state.base_lot_atoms == pool.base_lot_atoms ==> payload.base_lot_atoms
                == package.configuration.base_lot_atoms)
            &&& base_left(settlement.post_balances) == base_held(package.balances) + net
                * package.configuration.base_lot_atoms
            &&& quote_left(settlement.post_balances) == quote_held(package.balances) - net
                * payload.quote_atoms_per_lot
        }),
{
    law_settlement_conserves_tokens(package, evidence, settlement_nonce, locked, lock_digest);
}

/// The wire form of one piece of evidence.
pub open spec fn evidence_bytes(fields: EvidenceFields) -> Seq<u8> {
    spec_u32_to_le_bytes(157) + released_bytes(fields.first) + spec_u32_to_le_bytes(157)
        + released_bytes(fields.second)
}

/// The wire forms of evidence, one after another.
pub open spec fn all_evidence_bytes(evidence: Seq<EvidenceFields>) -> Seq<u8>
    decreases evidence.len(),
{
    if evidence.len() == 0 {
        Seq::empty()
    } else {
        all_evidence_bytes(evidence.drop_last()) + evidence_bytes(evidence.last())
    }
}

/// The part of a request's wire form that follows the balances.
pub open spec fn request_tail(fields: RequestFields) -> Seq<u8> {
    fields.pre_balance_root@ + fields.post_balance_root@ + seq![residual_code(fields.residual).0]
        + spec_u32_to_le_bytes(residual_code(fields.residual).1) + fields.result_root@
        + fields.result_commitment@ + fields.settlement_nonce@ + fields.settlement_digest@
}

/// The wire form of a request, given that of its package.
pub open spec fn request_bytes(fields: RequestFields, package: Seq<u8>) -> Seq<u8> {
    seq![1u8] + spec_u32_to_le_bytes(package.len() as u32) + package + spec_u32_to_le_bytes(
        fields.evidence.len() as u32,
    ) + all_evidence_bytes(fields.evidence) + spec_u32_to_le_bytes(
        fields.post_balances.len() as u32,
    ) + encode_all::<SettlementBalanceV1>(fields.post_balances) + request_tail(fields)
}

/// Whether a byte string is read as one piece of evidence.
pub open spec fn reads_as_evidence(chunk: Seq<u8>, fields: EvidenceFields) -> bool {
    &&& chunk.len() == 322
    &&& u32_at(chunk, 0) == 157
    &&& reads_as_released(chunk.subrange(4, 161), fields.first)
    &&& u32_at(chunk, 161) == 157
    &&& reads_as_released(chunk.subrange(165, 322), fields.second)
    &&& fields.first.index != fields.second.index
}

/// Whether a byte string is read as some piece of evidence.
pub open spec fn is_evidence(chunk: Seq<u8>) -> bool {
    exists|fields: EvidenceFields| #[trigger] reads_as_evidence(chunk, fields)
}

/// The part of a byte string that a piece of evidence stands in.
pub open spec fn evidence_chunk(bytes: Seq<u8>, start: int, i: int) -> Seq<u8> {
    bytes.subrange(start + 322 * i, start + 322 * i + 322)
}

/// Whether `n` pieces of evidence stand at a position.
pub open spec fn holds_evidence(bytes: Seq<u8>, start: int, n: int) -> bool {
    &&& start + 322 * n <= bytes.len()
    &&& forall|i: int| 0 <= i < n ==> is_evidence(#[trigger] evidence_chunk(bytes, start, i))
}

/// Where the evidence, the balances and the tail of a wire form start.
pub struct RequestLayout {
    pub package_end: int,
    pub evidence_total: int,
    pub evidence_end: int,
    pub balance_total: int,
    pub tail: int,
}

/// Where the parts of a wire form start.
pub open spec fn request_layout(bytes: Seq<u8>) -> RequestLayout {
    let package_end = 5 + u32_at(bytes, 1);
    let evidence_total = u32_at(bytes, package_end);
    let evidence_end = package_end + 4 + 322 * evidence_total;
    let balance_total = u32_at(bytes, evidence_end);
    RequestLayout {
        package_end,
        evidence_total,
        evidence_end,
        balance_total,
        tail: evidence_end + 4 + 48 * balance_total,
    }
}

/// Why a byte string is not read as a request once its package was read, where it is not.
pub open spec fn request_rest_refusal(bytes: Seq<u8>, package: PackageFields) -> Option<
    SettlementValidationError,
> {
    let at = request_layout(bytes);
    if at.package_end + 4 > bytes.len() {
        Some(SettlementValidationError::InvalidBatch)
    } else if at.evidence_total > MAX_BATCH_MEMBERS || at.evidence_total
        != package.submissions.len() || at.evidence_total != package.member_count {
        Some(SettlementValidationError::MemberLimitExceeded)
    } else if !holds_evidence(bytes, at.package_end + 4, at.evidence_total) || at.evidence_end + 4
        > bytes.len() {
        Some(SettlementValidationError::InvalidBatch)
    } else if at.balance_total > MAX_BATCH_MEMBERS || at.balance_total != package.balances.len() {
        Some(SettlementValidationError::MemberLimitExceeded)
    } else if at.tail + 64 > bytes.len() {
        Some(SettlementValidationError::InvalidBatch)
    } else if at.tail + 64 == bytes.len() {
        Some(SettlementValidationError::InvalidResult)
    } else if at.tail + 69 > bytes.len() {
        Some(SettlementValidationError::InvalidBatch)
    } else if residual_from(bytes[at.tail + 64], u32_at(bytes, at.tail + 65) as u32) is None {
        Some(SettlementValidationError::InvalidResult)
    } else if at.tail + 197 != bytes.len() {
        Some(SettlementValidationError::InvalidBatch)
    } else {
        None
    }
}

/// The package's wire form in a request's wire form, where it has the version and the length of one.
pub open spec fn package_part(bytes: Seq<u8>) -> Option<Seq<u8>> {
    if bytes.len() < 5 || bytes[0] != 1 || 5 + u32_at(bytes, 1) > bytes.len() {
        None
    } else {
        Some(bytes.subrange(5, 5 + u32_at(bytes, 1)))
    }
}

/// The package's wire form in a request's wire form.
pub fn request_package(bytes: &[u8]) -> (package: Option<&[u8]>)
    ensures
        match package {
            Some(package) => package_part(bytes@) == Some(package@),
            None => package_part(bytes@) is None,
        },
{
    if bytes.len() < 5 || bytes[0] != 1 {
        return None;
    }
    let package_len: u32 = u32_from_le_bytes(slice_subrange(bytes, 1, 5));
    if package_len as u64 > (bytes.len() - 5) as u64 {
        return None;
    }
    Some(slice_subrange(bytes, 5, 5 + package_len as usize))
}

/// Whether a byte string is read as a request once its package was read.
pub open spec fn reads_as_rest(bytes: Seq<u8>, fields: RequestFields) -> bool {
    let at = request_layout(bytes);
    &&& request_rest_refusal(bytes, fields.package) is None
    &&& fields.evidence.len() == at.evidence_total
    &&& forall|i: int|
        0 <= i < at.evidence_total ==> reads_as_evidence(
            #[trigger] evidence_chunk(bytes, at.package_end + 4, i),
            fields.evidence[i],
        )
    &&& fields.post_balances.len() == at.balance_total
    &&& encode_all::<SettlementBalanceV1>(fields.post_balances) == bytes.subrange(
        at.evidence_end + 4,
        at.tail,
    )
    &&& request_tail(fields) == bytes.subrange(at.tail, bytes.len() as int)
}

/// Reads one piece of evidence.
fn read_evidence(chunk: &[u8]) -> (evidence: Option<DecryptionEvidenceV1>)
    requires
        chunk@.len() == 322,
    ensures
        match evidence {
            Some(evidence) => evidence.wf() && reads_as_evidence(chunk@, evidence@),
            None => !is_evidence(chunk@),
        },
{
    let first_len: u32 = u32_from_le_bytes(slice_subrange(chunk, 0, 4));
    let second_len: u32 = u32_from_le_bytes(slice_subrange(chunk, 161, 165));
    if first_len != 157 || second_len != 157 {
        return None;
    }
    let first_part = slice_subrange(chunk, 4, 161);
    let second_part = slice_subrange(chunk, 165, 322);
    match (ReleasedShareV1::decode_wire(first_part), ReleasedShareV1::decode_wire(second_part)) {
        (Ok(first), Ok(second)) => match DecryptionEvidenceV1::new(first, second) {
            Ok(evidence) => Some(evidence),
            Err(_) => {
                proof {
                    assert forall|fields: EvidenceFields| !#[trigger] reads_as_evidence(
                        chunk@,
                        fields,
                    ) by {
                        if reads_as_evidence(chunk@, fields) {
                            law_released_share_is_determined(first_part@, first@, fields.first);
                            law_released_share_is_determined(second_part@, second@, fields.second);
                        }
                    }
                }
                None
            },
        },
        _ => {
            None
        },
    }
}

impl SettlementRequestV1 {
    /// The wire form, given the program's encoding of the configuration.
    pub fn encode_wire(&self, configuration: &[u8]) -> (bytes: Result<
        Vec<u8>,
        SettlementValidationError,
    >)
        requires
            self.wf(),
        ensures
            match bytes {
                Ok(bytes) => {
                    let package = package_bytes(
                        self@.package,
                        configuration@,
                        self@.package.keys,
                    );
                    &&& self@.package.submissions.len() <= MAX_BATCH_MEMBERS
                    &&& self@.package.balances.len() <= MAX_BATCH_MEMBERS
                    &&& package.len() <= u32::MAX
                    &&& self@.evidence.len() <= u32::MAX
                    &&& self@.post_balances.len() <= u32::MAX
                    &&& bytes@ == request_bytes(self@, package)
                },
                Err(SettlementValidationError::InvalidBalance) => self@.post_balances.len()
                    > u32::MAX,
                Err(error) => error == SettlementValidationError::InvalidBatch && (
                self@.package.submissions.len() > MAX_BATCH_MEMBERS || self@.package.balances.len()
                    > MAX_BATCH_MEMBERS || self@.evidence.len() > u32::MAX || package_bytes(
                    self@.package,
                    configuration@,
                    self@.package.keys,
                ).len() > u32::MAX),
            },
    {
        let package = match self.package.encode_wire(configuration) {
            Ok(package) => package,
            Err(_) => {
                return Err(SettlementValidationError::InvalidBatch);
            },
        };
        if package.len() > u32::MAX as usize || self.decryption_evidence.len() > u32::MAX as usize {
            return Err(SettlementValidationError::InvalidBatch);
        }
        if self.post_balances.len() > u32::MAX as usize {
            return Err(SettlementValidationError::InvalidBalance);
        }
        let mut out: Vec<u8> = Vec::new();
        out.push(1);
        append(&mut out, u32_to_le_bytes(package.len() as u32).as_slice());
        append(&mut out, package.as_slice());
        append(&mut out, u32_to_le_bytes(self.decryption_evidence.len() as u32).as_slice());
        let ghost head = out@;
        let ghost all = views(self.decryption_evidence@);
        assert(head =~= seq![1u8] + spec_u32_to_le_bytes(package@.len() as u32) + package@
            + spec_u32_to_le_bytes(all.len() as u32));
        let mut i: usize = 0;
        assert(all.take(0) =~= Seq::empty());
        assert(out@ =~= head + all_evidence_bytes(all.take(0)));
        while i < self.decryption_evidence.len()
            invariant
                i <= self.decryption_evidence@.len(),
                all == views(self.decryption_evidence@),
                out@ == head + all_evidence_bytes(all.take(i as int)),
            decreases self.decryption_evidence@.len() - i,
        {
            let evidence = &self.decryption_evidence[i];
            assert(all[i as int] == evidence@);
            let first = evidence.first().encode_wire();
            let second = evidence.second().encode_wire();
            append(&mut out, u32_to_le_bytes(157).as_slice());
            append(&mut out, first.as_slice());
            append(&mut out, u32_to_le_bytes(157).as_slice());
            append(&mut out, second.as_slice());
            proof {
                assert(all.take(i + 1).drop_last() =~= all.take(i as int));
                assert(out@ =~= head + all_evidence_bytes(all.take(i + 1)));
            }
            i += 1;
        }
        assert(all.take(i as int) =~= all);
        append(&mut out, u32_to_le_bytes(self.post_balances.len() as u32).as_slice());
        write_all::<SettlementBalanceV1>(&mut out, self.post_balances.as_slice());
        assert(views(self.post_balances@) =~= self.post_balances@);
        let ghost before = out@;
        append(&mut out, self.pre_balance_root.as_slice());
        append(&mut out, self.post_balance_root.as_slice());
        let (side, lots) = residual_wire(self.residual);
        out.push(side);
        append(&mut out, u32_to_le_bytes(lots).as_slice());
        append(&mut out, self.result_root.as_slice());
        append(&mut out, self.result_commitment.as_slice());
        append(&mut out, self.settlement_nonce.as_slice());
        append(&mut out, self.settlement_digest.as_slice());
        assert(out@ =~= before + request_tail(self@));
        Ok(out)
    }

    /// Reads a wire form. `configuration` is what the program's decoder makes of the configuration's
    /// part of the package's part.
    pub fn decode_wire(
        bytes: &[u8],
        configuration_len: usize,
        configuration: Option<EpochConfigurationV1>,
    ) -> (request: Result<Self, SettlementValidationError>)
        ensures
            match package_part(bytes@) {
                None => request == Err::<Self, _>(SettlementValidationError::InvalidBatch),
                Some(part) => if package_refusal(
                    part,
                    configuration_len as int,
                    configuration,
                ) is Some {
                    request == Err::<Self, _>(SettlementValidationError::InvalidBatch)
                } else {
                    match request {
                        Ok(request) => {
                            let package = request@.package;
                            &&& request.wf()
                            &&& package_storable(package)
                            &&& configuration == Some(package.configuration)
                            &&& key_set(keys_part(part, configuration_len as int)) == Some(
                                (package.keys, 1usize),
                            )
                            &&& part == package_bytes(
                                package,
                                part.subrange(33, 33 + configuration_len),
                                keys_part(part, configuration_len as int),
                            )
                            &&& reads_as_rest(bytes@, request@)
                        },
                        Err(error) => exists|package: PackageFields| #[trigger]
                            package_storable(package) && configuration == Some(
                                package.configuration,
                            ) && key_set(keys_part(part, configuration_len as int)) == Some(
                                (package.keys, 1usize),
                            ) && part == package_bytes(
                                package,
                                part.subrange(33, 33 + configuration_len),
                                keys_part(part, configuration_len as int),
                            ) && request_rest_refusal(bytes@, package) == Some(error),
                    }
                },
            },
    {
        let part = match request_package(bytes) {
            Some(part) => part,
            None => {
                return Err(SettlementValidationError::InvalidBatch);
            },
        };
        let package = match LockPackageV1::decode_wire(part, configuration_len, configuration) {
            Ok(package) => package,
            Err(_) => {
                return Err(SettlementValidationError::InvalidBatch);
            },
        };
        assert(package_storable(package@));
        Self::read_rest(bytes, package)
    }

    /// Reads what follows the package.
    fn read_rest(bytes: &[u8], package: LockPackageV1) -> (request: Result<
        Self,
        SettlementValidationError,
    >)
        requires
            package.wf(),
            package_part(bytes@) is Some,
        ensures
            match request {
                Ok(request) => request.package == package && request.wf() && reads_as_rest(
                    bytes@,
                    request@,
                ),
                Err(error) => request_rest_refusal(bytes@, package@) == Some(error),
            },
    {
        let ghost at = request_layout(bytes@);
        let len: usize = bytes.len();
        let package_len: u32 = u32_from_le_bytes(slice_subrange(bytes, 1, 5));
        let package_end: usize = 5 + package_len as usize;
        if len - package_end < 4 {
            return Err(SettlementValidationError::InvalidBatch);
        }
        let evidence_total: u32 = u32_from_le_bytes(
            slice_subrange(bytes, package_end, package_end + 4),
        );
        if evidence_total as usize > MAX_BATCH_MEMBERS || evidence_total as usize
            != package.submissions.len() || evidence_total != package.member_count {
            return Err(SettlementValidationError::MemberLimitExceeded);
        }
        let evidence_start: usize = package_end + 4;
        let evidence_len: usize = 322 * evidence_total as usize;
        if len - evidence_start < evidence_len {
            return Err(SettlementValidationError::InvalidBatch);
        }
        let decryption_evidence = match Self::read_all_evidence(
            bytes,
            evidence_start,
            evidence_total as usize,
        ) {
            Some(evidence) => evidence,
            None => {
                return Err(SettlementValidationError::InvalidBatch);
            },
        };
        let evidence_end: usize = evidence_start + evidence_len;
        if len - evidence_end < 4 {
            return Err(SettlementValidationError::InvalidBatch);
        }
        let balances_start: usize = evidence_end + 4;
        let balance_total: u32 = u32_from_le_bytes(
            slice_subrange(bytes, evidence_end, balances_start),
        );
        if balance_total as usize > MAX_BATCH_MEMBERS || balance_total as usize
            != package.balances.len() {
            return Err(SettlementValidationError::MemberLimitExceeded);
        }
        let balances_len: usize = 48 * balance_total as usize;
        if len - balances_start < balances_len + 64 {
            return Err(SettlementValidationError::InvalidBatch);
        }
        let tail: usize = balances_start + balances_len;
        assert(tail == at.tail);
        let post_balances = Self::read_balances(bytes, balances_start, balance_total as usize);
        if len - tail == 64 {
            return Err(SettlementValidationError::InvalidResult);
        }
        if len - tail < 69 {
            return Err(SettlementValidationError::InvalidBatch);
        }
        let side: u8 = bytes[tail + 64];
        let lots: u32 = u32_from_le_bytes(slice_subrange(bytes, tail + 65, tail + 69));
        let residual = match read_residual(side, lots) {
            Some(residual) => residual,
            None => {
                return Err(SettlementValidationError::InvalidResult);
            },
        };
        if len - tail != 197 {
            return Err(SettlementValidationError::InvalidBatch);
        }
        let request = SettlementRequestV1 {
            package,
            decryption_evidence,
            post_balances,
            pre_balance_root: read_array::<32>(bytes, tail),
            post_balance_root: read_array::<32>(bytes, tail + 32),
            residual,
            result_root: read_array::<32>(bytes, tail + 69),
            result_commitment: read_array::<32>(bytes, tail + 101),
            settlement_nonce: read_array::<32>(bytes, tail + 133),
            settlement_digest: read_array::<32>(bytes, tail + 165),
        };
        proof {
            lemma_auto_spec_u32_to_from_le_bytes();
            assert(spec_u32_to_le_bytes(lots) == bytes@.subrange(tail + 65, tail + 69));
            assert(request_tail(request@) =~= bytes@.subrange(tail as int, len as int));
        }
        Ok(request)
    }

    /// Reads pieces of evidence, one after another.
    fn read_all_evidence(bytes: &[u8], start: usize, total: usize) -> (evidence: Option<
        Vec<DecryptionEvidenceV1>,
    >)
        requires
            total <= MAX_BATCH_MEMBERS,
            start + 322 * total <= bytes@.len(),
        ensures
            match evidence {
                Some(evidence) => {
                    &&& holds_evidence(bytes@, start as int, total as int)
                    &&& evidence@.len() == total
                    &&& forall|i: int| 0 <= i < total ==> (#[trigger] evidence@[i]).wf()
                    &&& forall|i: int|
                        0 <= i < total ==> reads_as_evidence(
                            #[trigger] evidence_chunk(bytes@, start as int, i),
                            views(evidence@)[i],
                        )
                },
                None => !holds_evidence(bytes@, start as int, total as int),
            },
    {
        let len: usize = bytes.len();
        let mut evidence: Vec<DecryptionEvidenceV1> = Vec::new();
        let mut i: usize = 0;
        while i < total
            invariant
                i <= total <= MAX_BATCH_MEMBERS,
                len == bytes@.len(),
                start + 322 * total <= bytes@.len(),
                evidence@.len() == i,
                forall|k: int| 0 <= k < i ==> (#[trigger] evidence@[k]).wf(),
                forall|k: int|
                    0 <= k < i ==> reads_as_evidence(
                        #[trigger] evidence_chunk(bytes@, start as int, k),
                        evidence@[k]@,
                    ),
            decreases total - i,
        {
            let from: usize = start + 322 * i;
            let chunk = slice_subrange(bytes, from, from + 322);
            assert(chunk@ == evidence_chunk(bytes@, start as int, i as int));
            match read_evidence(chunk) {
                Some(piece) => {
                    evidence.push(piece);
                },
                None => {
                    return None;
                },
            }
            i += 1;
        }
        proof {
            assert forall|k: int| 0 <= k < total implies is_evidence(
                #[trigger] evidence_chunk(bytes@, start as int, k),
            ) by {
                assert(reads_as_evidence(
                    evidence_chunk(bytes@, start as int, k),
                    evidence@[k]@,
                ));
            }
        }
        Some(evidence)
    }

    /// Reads balances, one after another.
    fn read_balances(bytes: &[u8], start: usize, total: usize) -> (balances: Vec<
        SettlementBalanceV1,
    >)
        requires
            total <= MAX_BATCH_MEMBERS,
            start + 48 * total <= bytes@.len(),
        ensures
            balances@.len() == total,
            encode_all::<SettlementBalanceV1>(balances@) == bytes@.subrange(
                start as int,
                start + 48 * total,
            ),
    {
        let len: usize = bytes.len();
        let mut balances: Vec<SettlementBalanceV1> = Vec::new();
        let mut i: usize = 0;
        assert(bytes@.subrange(start as int, start as int) =~= Seq::empty());
        while i < total
            invariant
                i <= total <= MAX_BATCH_MEMBERS,
                len == bytes@.len(),
                start + 48 * total <= bytes@.len(),
                balances@.len() == i,
                encode_all::<SettlementBalanceV1>(balances@) == bytes@.subrange(
                    start as int,
                    start + 48 * i,
                ),
            decreases total - i,
        {
            let from: usize = start + 48 * i;
            let balance = SettlementBalanceV1::decode(slice_subrange(bytes, from, from + 48));
            proof {
                lemma_encode_all_push::<SettlementBalanceV1>(balances@, balance);
                assert(bytes@.subrange(start as int, start + 48 * (i + 1)) =~= bytes@.subrange(
                    start as int,
                    start + 48 * i,
                ) + bytes@.subrange(from as int, from + 48));
            }
            balances.push(balance);
            i += 1;
        }
        balances
    }
}

proof fn lemma_evidence_layout(evidence: Seq<EvidenceFields>, i: int)
    requires
        0 <= i < evidence.len(),
    ensures
        all_evidence_bytes(evidence).len() == 322 * evidence.len(),
        all_evidence_bytes(evidence).subrange(322 * i, 322 * i + 322) == evidence_bytes(
            evidence[i],
        ),
    decreases evidence.len(),
{
    lemma_auto_spec_u32_to_from_le_bytes();
    lemma_auto_spec_u64_to_from_le_bytes();
    let rest = evidence.drop_last();
    let bytes = all_evidence_bytes(evidence);
    lemma_evidence_len(rest);
    assert(evidence_bytes(evidence.last()).len() == 322);
    if i == evidence.len() - 1 {
        assert(bytes.subrange(322 * i, 322 * i + 322) =~= evidence_bytes(evidence.last()));
    } else {
        lemma_evidence_layout(rest, i);
        assert(bytes.subrange(322 * i, 322 * i + 322) =~= all_evidence_bytes(rest).subrange(
            322 * i,
            322 * i + 322,
        ));
        assert(rest[i] == evidence[i]);
    }
}

proof fn lemma_evidence_len(evidence: Seq<EvidenceFields>)
    ensures
        all_evidence_bytes(evidence).len() == 322 * evidence.len(),
    decreases evidence.len(),
{
    lemma_auto_spec_u32_to_from_le_bytes();
    lemma_auto_spec_u64_to_from_le_bytes();
    if evidence.len() > 0 {
        lemma_evidence_len(evidence.drop_last());
        assert(evidence_bytes(evidence.last()).len() == 322);
    }
}

/// Whether the two shares of a piece of evidence are of two keypers, and come back from their
/// encodings.
pub open spec fn evidence_storable(fields: EvidenceFields) -> bool {
    &&& fields.first.index != fields.second.index
    &&& decryption_share_encoding(fields.first.share@) == Some(fields.first.share)
    &&& decryption_share_encoding(fields.second.share@) == Some(fields.second.share)
}

proof fn lemma_evidence_read(fields: EvidenceFields)
    requires
        evidence_storable(fields),
    ensures
        reads_as_evidence(evidence_bytes(fields), fields),
{
    lemma_auto_spec_u32_to_from_le_bytes();
    lemma_auto_spec_u64_to_from_le_bytes();
    let chunk = evidence_bytes(fields);
    assert(chunk.subrange(0, 4) =~= spec_u32_to_le_bytes(157));
    assert(chunk.subrange(4, 161) =~= released_bytes(fields.first));
    assert(chunk.subrange(161, 165) =~= spec_u32_to_le_bytes(157));
    assert(chunk.subrange(165, 322) =~= released_bytes(fields.second));
    law_released_share_round_trip(fields.first, fields.first);
    law_released_share_round_trip(fields.second, fields.second);
}

/// Whether a residual is one that a batch can leave: a side with no lots is none.
pub open spec fn residual_storable(residual: Residual) -> bool {
    match residual {
        Residual::Balanced => true,
        Residual::Buy { lots } => lots > 0,
        Residual::Sell { lots } => lots > 0,
    }
}

/// Whether a request has a wire form: as many pieces of evidence as members, and as many balances
/// after the batch as before it.
pub open spec fn request_storable(fields: RequestFields) -> bool {
    &&& fields.package.submissions.len() <= MAX_BATCH_MEMBERS
    &&& fields.package.balances.len() <= MAX_BATCH_MEMBERS
    &&& fields.evidence.len() == fields.package.submissions.len()
    &&& fields.evidence.len() == fields.package.member_count
    &&& fields.post_balances.len() == fields.package.balances.len()
    &&& residual_storable(fields.residual)
    &&& forall|i: int|
        0 <= i < fields.evidence.len() ==> evidence_storable(#[trigger] fields.evidence[i])
}

/// A request comes back from its wire form.
pub proof fn law_settlement_request_round_trip(fields: RequestFields, package: Seq<u8>)
    requires
        request_storable(fields),
        package.len() <= u32::MAX,
    ensures
        package_part(request_bytes(fields, package)) == Some(package),
        reads_as_rest(request_bytes(fields, package), fields),
{
    lemma_auto_spec_u32_to_from_le_bytes();
    let bytes = request_bytes(fields, package);
    let evidence = all_evidence_bytes(fields.evidence);
    let balances = encode_all::<SettlementBalanceV1>(fields.post_balances);
    let tail = request_tail(fields);
    let n = fields.evidence.len() as int;
    let m = fields.post_balances.len() as int;
    let package_end = 5 + package.len() as int;
    let evidence_end = package_end + 4 + 322 * n;
    let tail_start = evidence_end + 4 + 48 * m;
    lemma_evidence_len(fields.evidence);
    lemma_encode_all_len::<SettlementBalanceV1>(fields.post_balances);
    assert(tail.len() == 197);
    assert(bytes.len() == tail_start + 197);
    assert(bytes.subrange(1, 5) =~= spec_u32_to_le_bytes(package.len() as u32));
    assert(bytes.subrange(5, package_end) =~= package);
    assert(bytes.subrange(package_end, package_end + 4) =~= spec_u32_to_le_bytes(n as u32));
    assert(bytes.subrange(package_end + 4, evidence_end) =~= evidence);
    assert(bytes.subrange(evidence_end, evidence_end + 4) =~= spec_u32_to_le_bytes(m as u32));
    assert(bytes.subrange(evidence_end + 4, tail_start) =~= balances);
    assert(bytes.subrange(tail_start, bytes.len() as int) =~= tail);
    assert(bytes[tail_start + 64] == tail[64]);
    assert(tail[64] == residual_code(fields.residual).0);
    assert(bytes.subrange(tail_start + 65, tail_start + 69) =~= tail.subrange(65, 69));
    assert(tail.subrange(65, 69) =~= spec_u32_to_le_bytes(residual_code(fields.residual).1));
    assert forall|i: int| 0 <= i < n implies reads_as_evidence(
        #[trigger] evidence_chunk(bytes, package_end + 4, i),
        fields.evidence[i],
    ) by {
        lemma_evidence_layout(fields.evidence, i);
        lemma_evidence_read(fields.evidence[i]);
        assert(evidence_chunk(bytes, package_end + 4, i) =~= evidence.subrange(
            322 * i,
            322 * i + 322,
        ));
    }
    assert(holds_evidence(bytes, package_end + 4, n)) by {
        assert forall|i: int| 0 <= i < n implies is_evidence(
            #[trigger] evidence_chunk(bytes, package_end + 4, i),
        ) by {
            assert(reads_as_evidence(
                evidence_chunk(bytes, package_end + 4, i),
                fields.evidence[i],
            ));
        }
    }
}

} // verus!
