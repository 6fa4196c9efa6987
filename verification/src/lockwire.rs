//! The wire form of a lock package.

use crate::bytes::{append, read_array};
use crate::codec::{
    encode_all, lemma_encode_all_len, lemma_encode_parse_all, lemma_parse_encode_all, parse_all,
    read_all, views, write_all, Entry,
};
use crate::crypto::EncryptedSubmissionV1;
use crate::lock::{LockPackageV1, PackageFields, MAX_BATCH_MEMBERS};
use crate::program::EpochConfigurationV1;
use crate::shares::EpochPublicKeys;
use crate::snapshot::{
    law_snapshot_round_trip, snapshot_bytes, BalanceRecordV1, LockValidationError,
    SignedBalanceSnapshotV1,
};
use crate::threshold::{key_set, KEY_SET_LEN};
use vstd::bytes::{
    lemma_auto_spec_u32_to_from_le_bytes, spec_u32_from_le_bytes, spec_u32_to_le_bytes,
    u32_from_le_bytes, u32_to_le_bytes,
};
use vstd::prelude::*;
use vstd::slice::slice_subrange;

verus! {

/// The longest encoding of epoch keys that a package may claim.
pub const MAX_EPOCH_PUBLIC_KEYS_LEN: usize = 1024;

/// The part of a wire form that precedes the submissions.
pub open spec fn package_head(
    fields: PackageFields,
    configuration: Seq<u8>,
    keys: Seq<u8>,
) -> Seq<u8> {
    seq![1u8] + fields.epoch_account@ + configuration + spec_u32_to_le_bytes(keys.len() as u32)
        + keys + spec_u32_to_le_bytes(fields.submissions.len() as u32)
}

/// The part of a wire form that follows the balances.
pub open spec fn package_tail(fields: PackageFields) -> Seq<u8> {
    snapshot_bytes(fields.snapshot) + fields.pre_balance_root@ + fields.member_root@
        + spec_u32_to_le_bytes(fields.member_count) + fields.lock_nonce@
}

/// The wire form of a package, given the program's encoding of its configuration and an encoding of
/// its keys.
pub open spec fn package_bytes(
    fields: PackageFields,
    configuration: Seq<u8>,
    keys: Seq<u8>,
) -> Seq<u8> {
    package_head(fields, configuration, keys) + encode_all::<EncryptedSubmissionV1>(
        fields.submissions,
    ) + spec_u32_to_le_bytes(fields.balances.len() as u32) + encode_all::<BalanceRecordV1>(
        fields.balances,
    ) + package_tail(fields)
}

/// The four-byte number at a position.
pub open spec fn u32_at(bytes: Seq<u8>, at: int) -> int {
    spec_u32_from_le_bytes(bytes.subrange(at, at + 4)) as int
}

/// The encoding of the keys in a wire form.
pub open spec fn keys_part(bytes: Seq<u8>, configuration_len: int) -> Seq<u8> {
    let start = 37 + configuration_len;
    bytes.subrange(start, start + u32_at(bytes, 33 + configuration_len))
}

/// Why a byte string is not read as a package, where it is not: too short or of another version,
/// then the configuration, then the keys, then the submissions, then the balances.
pub open spec fn package_refusal(
    bytes: Seq<u8>,
    configuration_len: int,
    configuration: Option<EpochConfigurationV1>,
) -> Option<LockValidationError> {
    let keys_start = 37 + configuration_len;
    let keys_end = keys_start + u32_at(bytes, 33 + configuration_len);
    let members_start = keys_end + 4;
    let member_total = u32_at(bytes, keys_end);
    let members_end = members_start + member_total * 689;
    let balances_start = members_end + 4;
    let balance_total = u32_at(bytes, members_end);
    let balances_end = balances_start + balance_total * 64;
    if bytes.len() < 309 + configuration_len || bytes[0] != 1 {
        Some(LockValidationError::InvalidSubmission)
    } else if configuration is None || keys_end - keys_start > MAX_EPOCH_PUBLIC_KEYS_LEN || keys_end
        > bytes.len() || keys_end - keys_start != KEY_SET_LEN || !(key_set(
        keys_part(bytes, configuration_len),
    ) matches Some((_, threshold)) && threshold == 1) {
        Some(LockValidationError::InvalidConfiguration)
    } else if members_start > bytes.len() {
        Some(LockValidationError::InvalidSubmission)
    } else if member_total > MAX_BATCH_MEMBERS {
        Some(LockValidationError::MemberLimitExceeded)
    } else if members_end + 268 > bytes.len() || parse_all::<EncryptedSubmissionV1>(
        bytes.subrange(members_start, members_end),
    ) is None {
        Some(LockValidationError::InvalidSubmission)
    } else if balance_total > MAX_BATCH_MEMBERS {
        Some(LockValidationError::MemberLimitExceeded)
    } else if balances_end + 264 != bytes.len() {
        Some(LockValidationError::InvalidSubmission)
    } else if parse_all::<BalanceRecordV1>(bytes.subrange(balances_start, balances_end)) is None {
        Some(LockValidationError::InvalidBalance)
    } else {
        None
    }
}

/// Whether a package has a wire form: no more members and balances than a batch may have, each of
/// which may exist.
pub open spec fn package_storable(fields: PackageFields) -> bool {
    &&& fields.submissions.len() <= MAX_BATCH_MEMBERS
    &&& fields.balances.len() <= MAX_BATCH_MEMBERS
    &&& forall|i: int|
        0 <= i < fields.submissions.len() ==> EncryptedSubmissionV1::valid(
            #[trigger] fields.submissions[i],
        )
    &&& forall|i: int|
        0 <= i < fields.balances.len() ==> BalanceRecordV1::valid(#[trigger] fields.balances[i])
}

/// The configuration's encoding in a wire form of a package, where it is long enough and of the
/// right version.
pub fn package_configuration(bytes: &[u8], configuration_len: usize) -> (configuration: Option<
    &[u8],
>)
    ensures
        match configuration {
            Some(configuration) => bytes@.len() >= 309 + configuration_len && bytes@[0] == 1
                && configuration@ == bytes@.subrange(33, 33 + configuration_len),
            None => bytes@.len() < 309 + configuration_len || bytes@[0] != 1,
        },
{
    if bytes.len() < 309 || bytes.len() - 309 < configuration_len || bytes[0] != 1 {
        return None;
    }
    Some(slice_subrange(bytes, 33, 33 + configuration_len))
}

/// A byte string whose parts are those of a package is the package's wire form.
proof fn lemma_package_read(
    fields: PackageFields,
    bytes: Seq<u8>,
    c: int,
    keys_end: int,
    members_end: int,
    balances_end: int,
)
    requires
        0 <= c,
        keys_end == 37 + c + u32_at(bytes, 33 + c),
        keys_end + 4 <= members_end,
        members_end + 4 <= balances_end,
        balances_end + 264 == bytes.len(),
        bytes[0] == 1,
        fields.epoch_account@ == bytes.subrange(1, 33),
        fields.submissions.len() == u32_at(bytes, keys_end),
        encode_all::<EncryptedSubmissionV1>(fields.submissions) == bytes.subrange(
            keys_end + 4,
            members_end,
        ),
        fields.balances.len() == u32_at(bytes, members_end),
        encode_all::<BalanceRecordV1>(fields.balances) == bytes.subrange(
            members_end + 4,
            balances_end,
        ),
        snapshot_bytes(fields.snapshot) == bytes.subrange(balances_end, balances_end + 164),
        fields.pre_balance_root@ == bytes.subrange(balances_end + 164, balances_end + 196),
        fields.member_root@ == bytes.subrange(balances_end + 196, balances_end + 228),
        fields.member_count == u32_at(bytes, balances_end + 228),
        fields.lock_nonce@ == bytes.subrange(balances_end + 232, balances_end + 264),
    ensures
        bytes == package_bytes(fields, bytes.subrange(33, 33 + c), keys_part(bytes, c)),
{
    lemma_auto_spec_u32_to_from_le_bytes();
    let configuration = bytes.subrange(33, 33 + c);
    let keys = keys_part(bytes, c);
    let head = package_head(fields, configuration, keys);
    assert(spec_u32_to_le_bytes(keys.len() as u32) == bytes.subrange(33 + c, 37 + c));
    assert(spec_u32_to_le_bytes(fields.submissions.len() as u32) == bytes.subrange(
        keys_end,
        keys_end + 4,
    ));
    assert(head =~= bytes.subrange(0, keys_end + 4));
    assert(spec_u32_to_le_bytes(fields.balances.len() as u32) == bytes.subrange(
        members_end,
        members_end + 4,
    ));
    assert(spec_u32_to_le_bytes(fields.member_count) == bytes.subrange(
        balances_end + 228,
        balances_end + 232,
    ));
    assert(package_tail(fields) =~= bytes.subrange(balances_end, bytes.len() as int));
    assert(bytes =~= package_bytes(fields, configuration, keys));
}

impl LockPackageV1 {
    /// The wire form, given the program's encoding of the configuration; more members or balances
    /// than a batch may have are refused.
    pub fn encode_wire(&self, configuration: &[u8]) -> (bytes: Result<Vec<u8>, LockValidationError>)
        requires
            self.wf(),
        ensures
            match bytes {
                Ok(bytes) => self@.submissions.len() <= MAX_BATCH_MEMBERS && self@.balances.len()
                    <= MAX_BATCH_MEMBERS && bytes@ == package_bytes(
                    self@,
                    configuration@,
                    self@.keys,
                ),
                Err(error) => error == LockValidationError::MemberLimitExceeded && (
                self@.submissions.len() > MAX_BATCH_MEMBERS || self@.balances.len()
                    > MAX_BATCH_MEMBERS),
            },
    {
        if self.submissions.len() > MAX_BATCH_MEMBERS || self.balances.len() > MAX_BATCH_MEMBERS {
            return Err(LockValidationError::MemberLimitExceeded);
        }
        let keys = self.epoch_public_keys.encode_wire();
        let mut out: Vec<u8> = Vec::new();
        out.push(1);
        append(&mut out, self.epoch_account.as_slice());
        append(&mut out, configuration);
        append(&mut out, u32_to_le_bytes(keys.len() as u32).as_slice());
        append(&mut out, keys.as_slice());
        append(&mut out, u32_to_le_bytes(self.submissions.len() as u32).as_slice());
        assert(out@ =~= package_head(self@, configuration@, self@.keys));
        write_all::<EncryptedSubmissionV1>(&mut out, self.submissions.as_slice());
        append(&mut out, u32_to_le_bytes(self.balances.len() as u32).as_slice());
        write_all::<BalanceRecordV1>(&mut out, self.balances.as_slice());
        let ghost before = out@;
        let snapshot = self.balance_snapshot.encode();
        append(&mut out, snapshot.as_slice());
        append(&mut out, self.pre_balance_root.as_slice());
        append(&mut out, self.member_root.as_slice());
        append(&mut out, u32_to_le_bytes(self.member_count).as_slice());
        append(&mut out, self.lock_nonce.as_slice());
        assert(out@ =~= before + package_tail(self@));
        Ok(out)
    }

    /// Reads a wire form. `configuration` is what the program's decoder makes of the part that
    /// `package_configuration` gives.
    pub fn decode_wire(
        bytes: &[u8],
        configuration_len: usize,
        configuration: Option<EpochConfigurationV1>,
    ) -> (package: Result<Self, LockValidationError>)
        ensures
            match package {
                Ok(package) => {
                    &&& package_refusal(bytes@, configuration_len as int, configuration) is None
                    &&& package.wf()
                    &&& package_storable(package@)
                    &&& configuration == Some(package@.configuration)
                    &&& key_set(keys_part(bytes@, configuration_len as int)) == Some(
                        (package@.keys, 1usize),
                    )
                    &&& bytes@ == package_bytes(
                        package@,
                        bytes@.subrange(33, 33 + configuration_len),
                        keys_part(bytes@, configuration_len as int),
                    )
                },
                Err(error) => package_refusal(bytes@, configuration_len as int, configuration)
                    == Some(error),
            },
    {
        if bytes.len() < 309 || bytes.len() - 309 < configuration_len || bytes[0] != 1 {
            return Err(LockValidationError::InvalidSubmission);
        }
        let len: usize = bytes.len();
        let configuration = match configuration {
            Some(configuration) => configuration,
            None => {
                return Err(LockValidationError::InvalidConfiguration);
            },
        };
        let configuration_end: usize = 33 + configuration_len;
        let keys_len: u32 = u32_from_le_bytes(
            slice_subrange(bytes, configuration_end, configuration_end + 4),
        );
        let keys_start: usize = configuration_end + 4;
        if keys_len > MAX_EPOCH_PUBLIC_KEYS_LEN as u32 || keys_len as usize > len - keys_start {
            return Err(LockValidationError::InvalidConfiguration);
        }
        let keys_end: usize = keys_start + keys_len as usize;
        let epoch_public_keys = match EpochPublicKeys::decode_wire(
            slice_subrange(bytes, keys_start, keys_end),
        ) {
            Ok(keys) => keys,
            Err(_) => {
                return Err(LockValidationError::InvalidConfiguration);
            },
        };
        if len - keys_end < 4 {
            return Err(LockValidationError::InvalidSubmission);
        }
        let members_start: usize = keys_end + 4;
        let member_total: u32 = u32_from_le_bytes(slice_subrange(bytes, keys_end, members_start));
        if member_total > MAX_BATCH_MEMBERS as u32 {
            return Err(LockValidationError::MemberLimitExceeded);
        }
        let members_len: usize = member_total as usize * 689;
        if len - members_start < members_len + 268 {
            return Err(LockValidationError::InvalidSubmission);
        }
        let members_end: usize = members_start + members_len;
        let members_part = slice_subrange(bytes, members_start, members_end);
        let submissions = match read_all::<EncryptedSubmissionV1>(members_part) {
            Some(submissions) => submissions,
            None => {
                return Err(LockValidationError::InvalidSubmission);
            },
        };
        let balances_start: usize = members_end + 4;
        let balance_total: u32 = u32_from_le_bytes(
            slice_subrange(bytes, members_end, balances_start),
        );
        if balance_total > MAX_BATCH_MEMBERS as u32 {
            return Err(LockValidationError::MemberLimitExceeded);
        }
        let balances_len: usize = balance_total as usize * 64;
        if len - balances_start != balances_len + 264 {
            return Err(LockValidationError::InvalidSubmission);
        }
        let balances_end: usize = balances_start + balances_len;
        let balances_part = slice_subrange(bytes, balances_start, balances_end);
        let balances = match read_all::<BalanceRecordV1>(balances_part) {
            Some(balances) => balances,
            None => {
                return Err(LockValidationError::InvalidBalance);
            },
        };
        let snapshot_end: usize = balances_end + 164;
        let balance_snapshot = match SignedBalanceSnapshotV1::decode(
            slice_subrange(bytes, balances_end, snapshot_end),
        ) {
            Ok(snapshot) => snapshot,
            Err(error) => {
                return Err(error);
            },
        };
        let package = LockPackageV1 {
            epoch_account: read_array::<32>(bytes, 1),
            configuration,
            epoch_public_keys,
            submissions,
            balances,
            balance_snapshot,
            pre_balance_root: read_array::<32>(bytes, snapshot_end),
            member_root: read_array::<32>(bytes, snapshot_end + 32),
            member_count: u32_from_le_bytes(
                slice_subrange(bytes, snapshot_end + 64, snapshot_end + 68),
            ),
            lock_nonce: read_array::<32>(bytes, snapshot_end + 68),
        };
        proof {
            lemma_encode_parse_all::<EncryptedSubmissionV1>(members_part@);
            lemma_encode_parse_all::<BalanceRecordV1>(balances_part@);
            lemma_encode_all_len::<EncryptedSubmissionV1>(views(submissions@));
            lemma_encode_all_len::<BalanceRecordV1>(views(balances@));
            assert forall|k: int| 0 <= k < balances@.len() implies (#[trigger] balances@[k]).wf() by {
                assert(BalanceRecordV1::valid(views(balances@)[k]));
            }
            lemma_package_read(
                package@,
                bytes@,
                configuration_len as int,
                keys_end as int,
                members_end as int,
                balances_end as int,
            );
        }
        Ok(package)
    }
}

proof fn lemma_tail_layout(a: PackageFields, b: PackageFields)
    ensures
        package_tail(a).len() == 264,
        package_tail(a) == package_tail(b) ==> a.snapshot == b.snapshot && a.pre_balance_root
            == b.pre_balance_root && a.member_root == b.member_root && a.member_count
            == b.member_count && a.lock_nonce == b.lock_nonce,
{
    lemma_auto_spec_u32_to_from_le_bytes();
    law_snapshot_round_trip(a.snapshot, b.snapshot);
    law_snapshot_round_trip(b.snapshot, a.snapshot);
    let x = package_tail(a);
    let y = package_tail(b);
    if x == y {
        assert(x.subrange(0, 164) =~= snapshot_bytes(a.snapshot));
        assert(y.subrange(0, 164) =~= snapshot_bytes(b.snapshot));
        assert(x.subrange(164, 196) =~= a.pre_balance_root@);
        assert(y.subrange(164, 196) =~= b.pre_balance_root@);
        assert(x.subrange(196, 228) =~= a.member_root@);
        assert(y.subrange(196, 228) =~= b.member_root@);
        assert(x.subrange(228, 232) =~= spec_u32_to_le_bytes(a.member_count));
        assert(y.subrange(228, 232) =~= spec_u32_to_le_bytes(b.member_count));
        assert(x.subrange(232, 264) =~= a.lock_nonce@);
        assert(y.subrange(232, 264) =~= b.lock_nonce@);
        assert(a.pre_balance_root =~= b.pre_balance_root);
        assert(a.member_root =~= b.member_root);
        assert(a.lock_nonce =~= b.lock_nonce);
    }
}

proof fn lemma_package_layout(fields: PackageFields, configuration: Seq<u8>, keys: Seq<u8>)
    requires
        package_storable(fields),
        keys.len() == KEY_SET_LEN,
    ensures
        ({
            let bytes = package_bytes(fields, configuration, keys);
            let c = configuration.len() as int;
            let members_end = 145 + c + fields.submissions.len() * 689;
            let balances_end = members_end + 4 + fields.balances.len() * 64;
            &&& bytes.len() == balances_end + 264
            &&& bytes[0] == 1
            &&& bytes.subrange(1, 33) == fields.epoch_account@
            &&& bytes.subrange(33, 33 + c) == configuration
            &&& u32_at(bytes, 33 + c) == KEY_SET_LEN
            &&& keys_part(bytes, c) == keys
            &&& u32_at(bytes, 141 + c) == fields.submissions.len()
            &&& bytes.subrange(145 + c, members_end) == encode_all::<
                EncryptedSubmissionV1,
            >(fields.submissions)
            &&& u32_at(bytes, members_end) == fields.balances.len()
            &&& bytes.subrange(members_end + 4, balances_end) == encode_all::<
                BalanceRecordV1,
            >(fields.balances)
            &&& bytes.subrange(balances_end, bytes.len() as int) == package_tail(fields)
        }),
{
    lemma_auto_spec_u32_to_from_le_bytes();
    lemma_encode_all_len::<EncryptedSubmissionV1>(fields.submissions);
    lemma_encode_all_len::<BalanceRecordV1>(fields.balances);
    lemma_tail_layout(fields, fields);
    let bytes = package_bytes(fields, configuration, keys);
    let c = configuration.len() as int;
    let head = package_head(fields, configuration, keys);
    let members = encode_all::<EncryptedSubmissionV1>(fields.submissions);
    let balances = encode_all::<BalanceRecordV1>(fields.balances);
    let members_end = 145 + c + fields.submissions.len() * 689;
    let balances_end = members_end + 4 + fields.balances.len() * 64;
    assert(head.len() == 145 + c);
    assert(bytes.subrange(0, 145 + c) =~= head);
    assert(head.subrange(1, 33) =~= fields.epoch_account@);
    assert(bytes.subrange(1, 33) =~= fields.epoch_account@);
    assert(bytes.subrange(33, 33 + c) =~= configuration);
    assert(bytes.subrange(33 + c, 37 + c) =~= spec_u32_to_le_bytes(keys.len() as u32));
    assert(bytes.subrange(37 + c, 141 + c) =~= keys);
    assert(bytes.subrange(141 + c, 145 + c) =~= spec_u32_to_le_bytes(
        fields.submissions.len() as u32,
    ));
    assert(bytes.subrange(145 + c, members_end) =~= members);
    assert(bytes.subrange(members_end, members_end + 4) =~= spec_u32_to_le_bytes(
        fields.balances.len() as u32,
    ));
    assert(bytes.subrange(members_end + 4, balances_end) =~= balances);
    assert(bytes.subrange(balances_end, bytes.len() as int) =~= package_tail(fields));
}

/// A package comes back from its wire form: the form is accepted, and a package that has the same
/// form has the same contents. The configuration and the keys are those that their encodings decode
/// to, so that the same encodings give the same ones.
pub proof fn law_lock_package_round_trip(
    fields: PackageFields,
    configuration: Seq<u8>,
    other: PackageFields,
)
    requires
        package_storable(fields),
        fields.keys.len() == KEY_SET_LEN,
        key_set(fields.keys) == Some((fields.keys, 1usize)),
    ensures
        ({
            let bytes = package_bytes(fields, configuration, fields.keys);
            &&& package_refusal(
                bytes,
                configuration.len() as int,
                Some(fields.configuration),
            ) is None
            &&& bytes.subrange(33, 33 + configuration.len() as int) == configuration
            &&& keys_part(bytes, configuration.len() as int) == fields.keys
            &&& package_storable(other) && other.configuration == fields.configuration && key_set(
                keys_part(bytes, configuration.len() as int),
            ) == Some((other.keys, 1usize)) && bytes == package_bytes(
                other,
                configuration,
                fields.keys,
            ) ==> other == fields
        }),
{
    let bytes = package_bytes(fields, configuration, fields.keys);
    lemma_package_layout(fields, configuration, fields.keys);
    lemma_parse_encode_all::<EncryptedSubmissionV1>(fields.submissions);
    lemma_parse_encode_all::<BalanceRecordV1>(fields.balances);
    if package_storable(other) && other.configuration == fields.configuration && key_set(
        fields.keys,
    ) == Some((other.keys, 1usize)) && bytes == package_bytes(other, configuration, fields.keys) {
        lemma_package_layout(other, configuration, fields.keys);
        lemma_parse_encode_all::<EncryptedSubmissionV1>(other.submissions);
        lemma_parse_encode_all::<BalanceRecordV1>(other.balances);
        lemma_tail_layout(fields, other);
        assert(other.epoch_account =~= fields.epoch_account);
    }
}

} // verus!
