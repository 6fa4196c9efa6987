//! Balances before a batch, and the operator's signature over them.

use crate::bytes::{append, is_zero, read_array, same_array, zeros};
use crate::codec::{views, Entry};
use crate::commitment::{leaf_contents, root_of, root_of_leaves, CommitmentDomain};
use crate::crypto::{commitment_bytes_of, EncryptedSubmissionV1, SubmissionFields};
use crate::ledger::PoolBalance;
use crate::shares::{keys_leaf, EpochPublicKeys};
use crate::signing::{ed25519_signed, ed25519_verifies, verify_with, SigningKey};
use vstd::bytes::{
    lemma_auto_spec_u32_to_from_le_bytes, lemma_auto_spec_u64_to_from_le_bytes,
    spec_u32_to_le_bytes, spec_u64_from_le_bytes, spec_u64_to_le_bytes, u32_from_le_bytes,
    u32_to_le_bytes, u64_from_le_bytes, u64_to_le_bytes,
};
use vstd::prelude::*;
use vstd::slice::slice_subrange;
use vstd::string::*;
use vstd::utf8::encode_utf8;

verus! {

/// Why a lock is refused.
#[derive(Clone, Copy, Debug, PartialEq, Eq, Structural)]
pub enum LockValidationError {
    InvalidBalance,
    InvalidSnapshot,
    InvalidConfiguration,
    InvalidSubmission,
    DuplicateParticipant,
    DuplicateAuthorization,
    DuplicateReceipt,
    MemberCountMismatch,
    MemberLimitExceeded,
    CrowdBelowMinimum,
    MemberRootMismatch,
    DeadlinePassed,
    WrongKeyper,
    ConflictingLock,
    CorruptJournal,
    Rpc,
    MissingAccount,
    InvalidOnchainEpoch,
    InvalidOnchainLock,
}

/// What a balance record says.
pub struct BalanceFields {
    pub participant_id: [u8; 32],
    pub base_atoms: u64,
    pub quote_atoms: u64,
    pub reserved_base_atoms: u64,
    pub reserved_quote_atoms: u64,
}

/// Whether a balance record may exist: it names a participant and covers a reserve on both sides.
pub open spec fn balance_valid(fields: BalanceFields) -> bool {
    &&& fields.participant_id@ != zeros(32)
    &&& fields.reserved_base_atoms != 0
    &&& fields.reserved_quote_atoms != 0
    &&& fields.base_atoms >= fields.reserved_base_atoms
    &&& fields.quote_atoms >= fields.reserved_quote_atoms
}

/// The wire form of a balance record.
pub open spec fn balance_bytes(fields: BalanceFields) -> Seq<u8> {
    fields.participant_id@ + spec_u64_to_le_bytes(fields.base_atoms) + spec_u64_to_le_bytes(
        fields.quote_atoms,
    ) + spec_u64_to_le_bytes(fields.reserved_base_atoms) + spec_u64_to_le_bytes(
        fields.reserved_quote_atoms,
    )
}

proof fn lemma_balance_layout(fields: BalanceFields)
    ensures
        balance_bytes(fields).len() == 64,
        balance_bytes(fields).subrange(0, 32) == fields.participant_id@,
        spec_u64_from_le_bytes(balance_bytes(fields).subrange(32, 40)) == fields.base_atoms,
        spec_u64_from_le_bytes(balance_bytes(fields).subrange(40, 48)) == fields.quote_atoms,
        spec_u64_from_le_bytes(balance_bytes(fields).subrange(48, 56))
            == fields.reserved_base_atoms,
        spec_u64_from_le_bytes(balance_bytes(fields).subrange(56, 64))
            == fields.reserved_quote_atoms,
{
    lemma_auto_spec_u64_to_from_le_bytes();
    let bytes = balance_bytes(fields);
    assert(bytes.subrange(0, 32) =~= fields.participant_id@);
    assert(bytes.subrange(32, 40) =~= spec_u64_to_le_bytes(fields.base_atoms));
    assert(bytes.subrange(40, 48) =~= spec_u64_to_le_bytes(fields.quote_atoms));
    assert(bytes.subrange(48, 56) =~= spec_u64_to_le_bytes(fields.reserved_base_atoms));
    assert(bytes.subrange(56, 64) =~= spec_u64_to_le_bytes(fields.reserved_quote_atoms));
}

/// What a participant holds before a batch, and how much of it is reserved.
#[derive(Clone, Copy, PartialEq, Eq)]
pub struct BalanceRecordV1 {
    participant_id: [u8; 32],
    base_atoms: u64,
    quote_atoms: u64,
    reserved_base_atoms: u64,
    reserved_quote_atoms: u64,
}

impl View for BalanceRecordV1 {
    type V = BalanceFields;

    closed spec fn view(&self) -> BalanceFields {
        BalanceFields {
            participant_id: self.participant_id,
            base_atoms: self.base_atoms,
            quote_atoms: self.quote_atoms,
            reserved_base_atoms: self.reserved_base_atoms,
            reserved_quote_atoms: self.reserved_quote_atoms,
        }
    }
}

impl BalanceRecordV1 {
    /// Every record that exists covers its reserve.
    pub open spec fn wf(&self) -> bool {
        balance_valid(self@)
    }

    /// A balance record, which is refused unless it names a participant and covers a reserve on both
    /// sides.
    pub fn new(
        participant_id: [u8; 32],
        base_atoms: u64,
        quote_atoms: u64,
        reserved_base_atoms: u64,
        reserved_quote_atoms: u64,
    ) -> (record: Result<Self, LockValidationError>)
        ensures
            ({
                let fields = BalanceFields {
                    participant_id,
                    base_atoms,
                    quote_atoms,
                    reserved_base_atoms,
                    reserved_quote_atoms,
                };
                match record {
                    Ok(record) => record.wf() && record@ == fields,
                    Err(error) => error == LockValidationError::InvalidBalance && !balance_valid(
                        fields,
                    ),
                }
            }),
    {
        if is_zero(participant_id.as_slice()) || reserved_base_atoms == 0 || reserved_quote_atoms
            == 0 || base_atoms < reserved_base_atoms || quote_atoms < reserved_quote_atoms {
            return Err(LockValidationError::InvalidBalance);
        }
        Ok(
            BalanceRecordV1 {
                participant_id,
                base_atoms,
                quote_atoms,
                reserved_base_atoms,
                reserved_quote_atoms,
            },
        )
    }

    pub fn participant_id(&self) -> (participant_id: [u8; 32])
        ensures
            participant_id == self@.participant_id,
    {
        self.participant_id
    }

    pub fn reserved_base_atoms(&self) -> (atoms: u64)
        ensures
            atoms == self@.reserved_base_atoms,
    {
        self.reserved_base_atoms
    }

    pub fn reserved_quote_atoms(&self) -> (atoms: u64)
        ensures
            atoms == self@.reserved_quote_atoms,
    {
        self.reserved_quote_atoms
    }

    pub fn pool_balance(&self) -> (balance: PoolBalance)
        ensures
            balance.base_atoms == self@.base_atoms,
            balance.quote_atoms == self@.quote_atoms,
    {
        PoolBalance::new(self.base_atoms, self.quote_atoms)
    }

    /// The wire form.
    pub fn encode(&self) -> (bytes: Vec<u8>)
        ensures
            bytes@ == balance_bytes(self@),
    {
        let mut out: Vec<u8> = Vec::new();
        append(&mut out, self.participant_id.as_slice());
        append(&mut out, u64_to_le_bytes(self.base_atoms).as_slice());
        append(&mut out, u64_to_le_bytes(self.quote_atoms).as_slice());
        append(&mut out, u64_to_le_bytes(self.reserved_base_atoms).as_slice());
        append(&mut out, u64_to_le_bytes(self.reserved_quote_atoms).as_slice());
        assert(out@ =~= balance_bytes(self@));
        out
    }

    /// Reads a wire form; anything but the wire form of a record that may exist is refused.
    pub fn decode(bytes: &[u8]) -> (record: Result<Self, LockValidationError>)
        ensures
            match record {
                Ok(record) => record.wf() && bytes@ == balance_bytes(record@),
                Err(error) => error == LockValidationError::InvalidBalance && (forall|
                    fields: BalanceFields,
                |
                    balance_valid(fields) ==> bytes@ != #[trigger] balance_bytes(fields)),
            },
    {
        proof {
            assert forall|fields: BalanceFields| bytes@ == #[trigger] balance_bytes(
                fields,
            ) implies bytes@.len() == 64 by {
                lemma_balance_layout(fields);
            }
        }
        if bytes.len() != 64 {
            return Err(LockValidationError::InvalidBalance);
        }
        let record = BalanceRecordV1::new(
            read_array::<32>(bytes, 0),
            u64_from_le_bytes(slice_subrange(bytes, 32, 40)),
            u64_from_le_bytes(slice_subrange(bytes, 40, 48)),
            u64_from_le_bytes(slice_subrange(bytes, 48, 56)),
            u64_from_le_bytes(slice_subrange(bytes, 56, 64)),
        );
        proof {
            lemma_auto_spec_u64_to_from_le_bytes();
            match record {
                Ok(record) => {
                    assert(bytes@ =~= balance_bytes(record@));
                },
                Err(_) => {
                    assert forall|fields: BalanceFields| balance_valid(fields) implies bytes@
                        != #[trigger] balance_bytes(fields) by {
                        lemma_balance_layout(fields);
                        if bytes@ == balance_bytes(fields) {
                            assert(bytes@.subrange(0, 32) == fields.participant_id@);
                        }
                    }
                },
            }
        }
        record
    }
}

impl Entry for BalanceRecordV1 {
    open spec fn width() -> nat {
        64
    }

    open spec fn valid(value: BalanceFields) -> bool {
        balance_valid(value)
    }

    open spec fn encoded(value: BalanceFields) -> Seq<u8> {
        balance_bytes(value)
    }

    proof fn lemma_encoded(a: BalanceFields, b: BalanceFields) {
        lemma_balance_layout(a);
        lemma_balance_layout(b);
        if Self::encoded(a) == Self::encoded(b) {
            assert(a.participant_id =~= b.participant_id);
        }
    }

    fn size() -> (size: usize) {
        64
    }

    fn parse(bytes: &[u8]) -> (record: Option<Self>) {
        match BalanceRecordV1::decode(bytes) {
            Ok(record) => Some(record),
            Err(_) => None,
        }
    }

    fn write(&self, out: &mut Vec<u8>) {
        let encoded = self.encode();
        append(out, encoded.as_slice());
    }
}

/// The wire forms of balance records, as leaves.
pub open spec fn balance_leaves(records: Seq<BalanceFields>) -> Seq<Seq<u8>> {
    records.map_values(|fields: BalanceFields| balance_bytes(fields))
}

/// The root of a set of balance records; a record that repeats is refused.
pub open spec fn balance_root_of(records: Seq<BalanceFields>) -> Result<
    [u8; 32],
    LockValidationError,
> {
    match root_of(CommitmentDomain::BalanceSet, balance_leaves(records)) {
        Ok(root) => Ok(root),
        Err(_) => Err(LockValidationError::InvalidBalance),
    }
}

/// The root of a set of balance records.
pub fn balance_root(records: &[BalanceRecordV1]) -> (root: Result<[u8; 32], LockValidationError>)
    ensures
        root == balance_root_of(views(records@)),
{
    let mut leaves: Vec<Vec<u8>> = Vec::new();
    let mut i: usize = 0;
    while i < records.len()
        invariant
            i <= records@.len(),
            leaves@.len() == i,
            forall|k: int| 0 <= k < i ==> (#[trigger] leaves@[k])@ == balance_bytes(records@[k]@),
        decreases records@.len() - i,
    {
        leaves.push(records[i].encode());
        i += 1;
    }
    assert(leaf_contents(leaves@) =~= balance_leaves(views(records@)));
    match root_of_leaves(CommitmentDomain::BalanceSet, leaves.as_slice()) {
        Ok(root) => Ok(root),
        Err(_) => Err(LockValidationError::InvalidBalance),
    }
}

/// What the members of a batch and its keys commit to, as leaves.
pub open spec fn member_leaves(keys: Seq<u8>, submissions: Seq<SubmissionFields>) -> Seq<Seq<u8>> {
    seq![keys_leaf(keys)] + submissions.map_values(
        |fields: SubmissionFields| commitment_bytes_of(fields),
    )
}

/// The root of a batch; a member that repeats is refused.
pub open spec fn member_root_of(keys: Seq<u8>, submissions: Seq<SubmissionFields>) -> Result<
    [u8; 32],
    LockValidationError,
> {
    match root_of(CommitmentDomain::MemberSet, member_leaves(keys, submissions)) {
        Ok(root) => Ok(root),
        Err(_) => Err(LockValidationError::InvalidSubmission),
    }
}

/// The root of a batch.
pub fn member_root(public_keys: &EpochPublicKeys, submissions: &[EncryptedSubmissionV1]) -> (root:
    Result<[u8; 32], LockValidationError>)
    ensures
        root == member_root_of(public_keys@, views(submissions@)),
{
    let mut leaves: Vec<Vec<u8>> = Vec::new();
    leaves.push(public_keys.commitment_leaf());
    let mut i: usize = 0;
    while i < submissions.len()
        invariant
            i <= submissions@.len(),
            leaves@.len() == i + 1,
            leaves@[0]@ == keys_leaf(public_keys@),
            forall|k: int|
                0 <= k < i ==> (#[trigger] leaves@[k + 1])@ == commitment_bytes_of(
                    submissions@[k]@,
                ),
        decreases submissions@.len() - i,
    {
        leaves.push(submissions[i].commitment_bytes());
        i += 1;
    }
    proof {
        let expected = member_leaves(public_keys@, views(submissions@));
        assert forall|k: int| 0 <= k < leaves@.len() implies #[trigger] leaf_contents(
            leaves@,
        )[k] == expected[k] by {
            if k > 0 {
                assert(leaves@[(k - 1) + 1]@ == commitment_bytes_of(submissions@[k - 1]@));
            }
        }
        assert(leaf_contents(leaves@) =~= expected);
    }
    match root_of_leaves(CommitmentDomain::MemberSet, leaves.as_slice()) {
        Ok(root) => Ok(root),
        Err(_) => Err(LockValidationError::InvalidSubmission),
    }
}

/// What a signed snapshot says.
pub struct SnapshotFields {
    pub epoch_id: [u8; 32],
    pub record_count: u32,
    pub balance_root: [u8; 32],
    pub operator_key: [u8; 32],
    pub signature: [u8; 64],
}

/// The message that an operator signs over the balances of an epoch.
pub open spec fn snapshot_message(epoch_id: [u8; 32], count: u32, root: [u8; 32]) -> Seq<u8> {
    encode_utf8("KAGEB_BALANCE_SNAPSHOT_V1\0"@) + epoch_id@ + spec_u32_to_le_bytes(count) + root@
}

/// The wire form of a snapshot.
pub open spec fn snapshot_bytes(fields: SnapshotFields) -> Seq<u8> {
    fields.epoch_id@ + spec_u32_to_le_bytes(fields.record_count) + fields.balance_root@
        + fields.operator_key@ + fields.signature@
}

/// A snapshot comes back from its wire form, and no other has it.
pub proof fn law_snapshot_round_trip(a: SnapshotFields, b: SnapshotFields)
    ensures
        snapshot_bytes(a).len() == 164,
        snapshot_bytes(a) == snapshot_bytes(b) ==> a == b,
{
    lemma_auto_spec_u32_to_from_le_bytes();
    let x = snapshot_bytes(a);
    let y = snapshot_bytes(b);
    if x == y {
        assert(x.subrange(0, 32) =~= a.epoch_id@);
        assert(y.subrange(0, 32) =~= b.epoch_id@);
        assert(x.subrange(32, 36) =~= spec_u32_to_le_bytes(a.record_count));
        assert(y.subrange(32, 36) =~= spec_u32_to_le_bytes(b.record_count));
        assert(x.subrange(36, 68) =~= a.balance_root@);
        assert(y.subrange(36, 68) =~= b.balance_root@);
        assert(x.subrange(68, 100) =~= a.operator_key@);
        assert(y.subrange(68, 100) =~= b.operator_key@);
        assert(x.subrange(100, 164) =~= a.signature@);
        assert(y.subrange(100, 164) =~= b.signature@);
        assert(a.epoch_id =~= b.epoch_id);
        assert(a.balance_root =~= b.balance_root);
        assert(a.operator_key =~= b.operator_key);
        assert(a.signature =~= b.signature);
    }
}

/// Why a snapshot does not vouch for balances, where it does not: another epoch, count or operator,
/// then balances without a root, then another root or a signature that does not verify.
pub open spec fn snapshot_refusal(
    fields: SnapshotFields,
    epoch_id: [u8; 32],
    records: Seq<BalanceFields>,
    operator_key: [u8; 32],
) -> Option<LockValidationError> {
    if records.len() > u32::MAX || fields.epoch_id != epoch_id || fields.record_count
        != records.len() || fields.operator_key != operator_key {
        Some(LockValidationError::InvalidSnapshot)
    } else {
        match balance_root_of(records) {
            Err(error) => Some(error),
            Ok(root) => if fields.balance_root != root || !ed25519_verifies(
                fields.operator_key@,
                snapshot_message(fields.epoch_id, fields.record_count, fields.balance_root),
                fields.signature@,
            ) {
                Some(LockValidationError::InvalidSnapshot)
            } else {
                None
            },
        }
    }
}

/// The operator's signature over the balances of an epoch.
#[derive(Clone, Copy, PartialEq, Eq)]
pub struct SignedBalanceSnapshotV1 {
    epoch_id: [u8; 32],
    record_count: u32,
    balance_root: [u8; 32],
    operator_key: [u8; 32],
    signature: [u8; 64],
}

impl View for SignedBalanceSnapshotV1 {
    type V = SnapshotFields;

    closed spec fn view(&self) -> SnapshotFields {
        SnapshotFields {
            epoch_id: self.epoch_id,
            record_count: self.record_count,
            balance_root: self.balance_root,
            operator_key: self.operator_key,
            signature: self.signature,
        }
    }
}

fn message_of(epoch_id: &[u8; 32], count: u32, root: &[u8; 32]) -> (message: Vec<u8>)
    ensures
        message@ == snapshot_message(*epoch_id, count, *root),
{
    let mut message: Vec<u8> = Vec::new();
    append(&mut message, "KAGEB_BALANCE_SNAPSHOT_V1\0".as_bytes());
    append(&mut message, epoch_id.as_slice());
    append(&mut message, u32_to_le_bytes(count).as_slice());
    append(&mut message, root.as_slice());
    message
}

impl SignedBalanceSnapshotV1 {
    /// Signs the balances of an epoch, which then vouches for them. Balances that repeat a record
    /// are refused.
    pub fn sign(epoch_id: [u8; 32], records: &[BalanceRecordV1], operator: &SigningKey) -> (snapshot:
        Result<Self, LockValidationError>)
        ensures
            match snapshot {
                Ok(snapshot) => {
                    &&& records@.len() <= u32::MAX
                    &&& snapshot@.epoch_id == epoch_id
                    &&& snapshot@.record_count == records@.len()
                    &&& balance_root_of(views(records@)) == Ok::<[u8; 32], LockValidationError>(
                        snapshot@.balance_root,
                    )
                    &&& snapshot@.operator_key == operator.public()
                    &&& snapshot@.signature == ed25519_signed(
                        operator.secret()@,
                        snapshot_message(
                            epoch_id,
                            snapshot@.record_count,
                            snapshot@.balance_root,
                        ),
                    )
                    &&& snapshot_refusal(
                        snapshot@,
                        epoch_id,
                        views(records@),
                        operator.public(),
                    ) is None
                },
                Err(error) => if records@.len() > u32::MAX {
                    error == LockValidationError::InvalidSnapshot
                } else {
                    error == LockValidationError::InvalidBalance && balance_root_of(
                        views(records@),
                    ) is Err
                },
            },
    {
        if records.len() > u32::MAX as usize {
            return Err(LockValidationError::InvalidSnapshot);
        }
        let record_count: u32 = records.len() as u32;
        let root = match balance_root(records) {
            Ok(root) => root,
            Err(error) => {
                return Err(error);
            },
        };
        let message = message_of(&epoch_id, record_count, &root);
        Ok(
            SignedBalanceSnapshotV1 {
                epoch_id,
                record_count,
                balance_root: root,
                operator_key: operator.verifying_key().to_bytes(),
                signature: operator.sign(message.as_slice()),
            },
        )
    }

    /// Checks that the snapshot vouches for the balances of an epoch under an operator.
    pub fn verify(
        &self,
        epoch_id: [u8; 32],
        records: &[BalanceRecordV1],
        operator_key: [u8; 32],
    ) -> (outcome: Result<(), LockValidationError>)
        ensures
            outcome == (match snapshot_refusal(self@, epoch_id, views(records@), operator_key) {
                Some(error) => Err::<(), _>(error),
                None => Ok(()),
            }),
    {
        if records.len() > u32::MAX as usize {
            return Err(LockValidationError::InvalidSnapshot);
        }
        let count: u32 = records.len() as u32;
        if !same_array(&self.epoch_id, &epoch_id) || self.record_count != count || !same_array(
            &self.operator_key,
            &operator_key,
        ) {
            return Err(LockValidationError::InvalidSnapshot);
        }
        let root = match balance_root(records) {
            Ok(root) => root,
            Err(error) => {
                return Err(error);
            },
        };
        if !same_array(&self.balance_root, &root) {
            return Err(LockValidationError::InvalidSnapshot);
        }
        let message = message_of(&self.epoch_id, self.record_count, &self.balance_root);
        if verify_with(&self.operator_key, message.as_slice(), &self.signature) {
            Ok(())
        } else {
            Err(LockValidationError::InvalidSnapshot)
        }
    }

    /// The wire form.
    pub fn encode(&self) -> (bytes: Vec<u8>)
        ensures
            bytes@ == snapshot_bytes(self@),
    {
        let mut out: Vec<u8> = Vec::new();
        append(&mut out, self.epoch_id.as_slice());
        append(&mut out, u32_to_le_bytes(self.record_count).as_slice());
        append(&mut out, self.balance_root.as_slice());
        append(&mut out, self.operator_key.as_slice());
        append(&mut out, self.signature.as_slice());
        assert(out@ =~= snapshot_bytes(self@));
        out
    }

    /// Reads a wire form, which is any byte string of its width.
    pub fn decode(bytes: &[u8]) -> (snapshot: Result<Self, LockValidationError>)
        ensures
            match snapshot {
                Ok(snapshot) => bytes@ == snapshot_bytes(snapshot@),
                Err(error) => error == LockValidationError::InvalidSnapshot && bytes@.len() != 164,
            },
    {
        if bytes.len() != 164 {
            return Err(LockValidationError::InvalidSnapshot);
        }
        let snapshot = SignedBalanceSnapshotV1 {
            epoch_id: read_array::<32>(bytes, 0),
            record_count: u32_from_le_bytes(slice_subrange(bytes, 32, 36)),
            balance_root: read_array::<32>(bytes, 36),
            operator_key: read_array::<32>(bytes, 68),
            signature: read_array::<64>(bytes, 100),
        };
        proof {
            lemma_auto_spec_u32_to_from_le_bytes();
            assert(bytes@ =~= snapshot_bytes(snapshot@));
        }
        Ok(snapshot)
    }
}

} // verus!
