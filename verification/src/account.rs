//! Accounts: what each participant holds, who may read it, and which settlements were applied.

use crate::admission::{
    all_known, finalizable, holds_all, listed, releasable, reservation_file, reservation_of,
    reservation_payload, reservations_wf, some_used, states_set, JournalError, ReservationJournal,
    ReservationRecord, ReservationState,
};
use crate::bytes::{append, is_zero, read_array, same_array, same_bytes, zero_id, zeros};
use crate::codec::{
    collect_pairs, encode_all, holds_pairs, lemma_encode_all_len, lemma_encode_parse_all,
    lemma_pairs_listed, lemma_parse_encode_all, lemma_seal, list_pairs, pairs_distinct, parse_all,
    read_all, seal, sealed, unseal, unsealed, views, write_all, Entry, IdPair,
};
use crate::hash::{digest_of, sha256};
use crate::idmap::{
    has_id, ids_sorted, lemma_entries_contained, lemma_value_at, position_of, value_of, IdMap,
};
use crate::ledger::{BatchResult, PoolBalance};
use crate::program::ConfirmedTerminalEpoch;
use crate::signing::{ed25519_key, VerifyingKey};
use vstd::bytes::{
    lemma_auto_spec_u32_to_from_le_bytes, lemma_auto_spec_u64_to_from_le_bytes,
    spec_u32_from_le_bytes, spec_u32_to_le_bytes, spec_u64_from_le_bytes, spec_u64_to_le_bytes,
    u32_from_le_bytes, u32_to_le_bytes, u64_from_le_bytes, u64_to_le_bytes,
};
use vstd::prelude::*;
use vstd::slice::slice_subrange;
use vstd::string::*;
use vstd::utf8::encode_utf8;

verus! {

/// A participant's account.
#[derive(Clone, Copy, Debug, PartialEq, Eq)]
pub struct AccountRecord {
    pub participant_id: [u8; 32],
    pub trading_key: [u8; 32],
    pub balance: PoolBalance,
    pub last_epoch: [u8; 32],
}

impl View for AccountRecord {
    type V = AccountRecord;

    open spec fn view(&self) -> AccountRecord {
        *self
    }
}

impl Entry for AccountRecord {
    open spec fn width() -> nat {
        112
    }

    open spec fn valid(value: AccountRecord) -> bool {
        &&& value.participant_id@ != zeros(32)
        &&& value.balance.base_atoms != 0 || value.balance.quote_atoms != 0
        &&& ed25519_key(value.trading_key@)
    }

    open spec fn encoded(value: AccountRecord) -> Seq<u8> {
        value.participant_id@ + value.trading_key@ + spec_u64_to_le_bytes(value.balance.base_atoms)
            + spec_u64_to_le_bytes(value.balance.quote_atoms) + value.last_epoch@
    }

    proof fn lemma_encoded(a: AccountRecord, b: AccountRecord) {
        lemma_account_layout(a);
        lemma_account_layout(b);
        if Self::encoded(a) == Self::encoded(b) {
            assert(a.participant_id =~= b.participant_id);
            assert(a.trading_key =~= b.trading_key);
            assert(a.last_epoch =~= b.last_epoch);
        }
    }

    fn size() -> (size: usize) {
        112
    }

    fn parse(bytes: &[u8]) -> (record: Option<Self>) {
        let participant_id: [u8; 32] = read_array::<32>(bytes, 0);
        let trading_key: [u8; 32] = read_array::<32>(bytes, 32);
        let base_atoms: u64 = u64_from_le_bytes(slice_subrange(bytes, 64, 72));
        let quote_atoms: u64 = u64_from_le_bytes(slice_subrange(bytes, 72, 80));
        let last_epoch: [u8; 32] = read_array::<32>(bytes, 80);
        let record = AccountRecord {
            participant_id,
            trading_key,
            balance: PoolBalance { base_atoms, quote_atoms },
            last_epoch,
        };
        proof {
            lemma_auto_spec_u64_to_from_le_bytes();
            assert(bytes@ =~= Self::encoded(record)) by {
                assert(spec_u64_to_le_bytes(base_atoms) == bytes@.subrange(64, 72));
                assert(spec_u64_to_le_bytes(quote_atoms) == bytes@.subrange(72, 80));
            }
            assert forall|value: AccountRecord| bytes@ == #[trigger] Self::encoded(
                value,
            ) implies value == record by {
                Self::lemma_encoded(value, record);
                lemma_account_layout(value);
                lemma_account_layout(record);
                assert(value.participant_id =~= record.participant_id);
                assert(value.trading_key =~= record.trading_key);
                assert(value.last_epoch =~= record.last_epoch);
            }
        }
        if is_zero(participant_id.as_slice()) || (base_atoms == 0 && quote_atoms == 0)
            || VerifyingKey::from_bytes(&trading_key).is_none() {
            return None;
        }
        Some(record)
    }

    fn write(&self, out: &mut Vec<u8>) {
        append(out, self.participant_id.as_slice());
        append(out, self.trading_key.as_slice());
        append(out, u64_to_le_bytes(self.balance.base_atoms).as_slice());
        append(out, u64_to_le_bytes(self.balance.quote_atoms).as_slice());
        append(out, self.last_epoch.as_slice());
        assert(out@ =~= old(out)@ + Self::encoded(self@));
    }
}

proof fn lemma_account_layout(a: AccountRecord)
    ensures
        AccountRecord::encoded(a).len() == 112,
        AccountRecord::encoded(a).subrange(0, 32) == a.participant_id@,
        AccountRecord::encoded(a).subrange(32, 64) == a.trading_key@,
        spec_u64_from_le_bytes(AccountRecord::encoded(a).subrange(64, 72)) == a.balance.base_atoms,
        spec_u64_from_le_bytes(AccountRecord::encoded(a).subrange(72, 80)) == a.balance.quote_atoms,
        AccountRecord::encoded(a).subrange(80, 112) == a.last_epoch@,
{
    lemma_auto_spec_u64_to_from_le_bytes();
    let bytes = AccountRecord::encoded(a);
    assert(bytes.subrange(0, 32) =~= a.participant_id@);
    assert(bytes.subrange(32, 64) =~= a.trading_key@);
    assert(bytes.subrange(64, 72) =~= spec_u64_to_le_bytes(a.balance.base_atoms));
    assert(bytes.subrange(72, 80) =~= spec_u64_to_le_bytes(a.balance.quote_atoms));
    assert(bytes.subrange(80, 112) =~= a.last_epoch@);
}

/// A settled balance and the epoch that settled it.
#[derive(Clone, Copy, Debug, PartialEq, Eq)]
pub struct AccountResultV1 {
    epoch_id: [u8; 32],
    balance: PoolBalance,
}

impl View for AccountResultV1 {
    type V = ([u8; 32], PoolBalance);

    closed spec fn view(&self) -> ([u8; 32], PoolBalance) {
        (self.epoch_id, self.balance)
    }
}

impl AccountResultV1 {
    pub fn epoch_id(self) -> (epoch_id: [u8; 32])
        ensures
            epoch_id == self@.0,
    {
        self.epoch_id
    }

    pub fn balance(self) -> (balance: PoolBalance)
        ensures
            balance == self@.1,
    {
        self.balance
    }
}

#[derive(Clone, Copy, Debug, PartialEq, Eq, Structural)]
pub enum AccountError {
    Corrupt,
    InvalidAccount,
    DuplicateAccount,
    UnknownAccount,
    Unauthorized,
    ResultPending,
    StaleSettlement,
    ArithmeticOverflow,
    Reservation(JournalError),
}

/// What an account journal holds: accounts by participant, and digests of settlements by epoch.
pub struct Accounts {
    pub records: Seq<([u8; 32], AccountRecord)>,
    pub applied: Seq<([u8; 32], [u8; 32])>,
}

/// Whether a journal may hold these accounts and settlements: each sorted, each account under its
/// own participant, no settlement of the zero epoch, and few enough of both to be counted.
pub open spec fn accounts_wf(accounts: Accounts) -> bool {
    &&& ids_sorted(accounts.records)
    &&& ids_sorted(accounts.applied)
    &&& accounts.records.len() <= u32::MAX
    &&& accounts.applied.len() <= u32::MAX
    &&& forall|i: int|
        0 <= i < accounts.records.len() ==> (#[trigger] accounts.records[i]).0
            == accounts.records[i].1.participant_id
}

/// A set of balances, in order, behind its number.
pub open spec fn balances_bytes(entries: Seq<([u8; 32], PoolBalance)>) -> Seq<u8> {
    spec_u32_to_le_bytes(
        if entries.len() <= u32::MAX {
            entries.len() as u32
        } else {
            u32::MAX
        },
    ) + balance_list(entries)
}

/// A set of balances, in order.
pub open spec fn balance_list(entries: Seq<([u8; 32], PoolBalance)>) -> Seq<u8>
    decreases entries.len(),
{
    if entries.len() == 0 {
        Seq::empty()
    } else {
        balance_list(entries.drop_last()) + entries.last().0@ + spec_u64_to_le_bytes(
            entries.last().1.base_atoms,
        ) + spec_u64_to_le_bytes(entries.last().1.quote_atoms)
    }
}

/// The digest that stands for a settlement: of the balances before it and after it.
pub open spec fn settlement_digest_of(result: BatchResult) -> [u8; 32] {
    sha256(
        encode_utf8("kageb-account-settlement-v1"@) + balances_bytes(result.before())
            + balances_bytes(result.after()),
    )
}

fn append_balances(out: &mut Vec<u8>, balances: &IdMap<PoolBalance>)
    ensures
        final(out)@ == old(out)@ + balances_bytes(balances@),
{
    let count: u32 = if balances.len() <= 0xffff_ffff {
        balances.len() as u32
    } else {
        0xffff_ffff
    };
    append(out, u32_to_le_bytes(count).as_slice());
    let ghost prefix = out@;
    let mut i: usize = 0;
    assert(out@ =~= prefix + balance_list(balances@.take(0)));
    while i < balances.len()
        invariant
            i <= balances@.len(),
            out@ == prefix + balance_list(balances@.take(i as int)),
        decreases balances@.len() - i,
    {
        let (id, balance) = balances.entry(i);
        append(out, id.as_slice());
        append(out, u64_to_le_bytes(balance.base_atoms).as_slice());
        append(out, u64_to_le_bytes(balance.quote_atoms).as_slice());
        proof {
            assert(balances@.take(i + 1).drop_last() =~= balances@.take(i as int));
            assert(out@ =~= prefix + balance_list(balances@.take(i + 1)));
        }
        i += 1;
    }
    assert(balances@.take(i as int) =~= balances@);
    assert(out@ =~= old(out)@ + balances_bytes(balances@));
}

fn settlement_digest(result: &BatchResult) -> (digest: [u8; 32])
    ensures
        digest == settlement_digest_of(*result),
{
    let mut out: Vec<u8> = Vec::new();
    append(&mut out, "kageb-account-settlement-v1".as_bytes());
    append_balances(&mut out, result.before_balances());
    append_balances(&mut out, result.balances());
    digest_of(out.as_slice())
}

/// Whether every participant of a result has an account.
pub open spec fn members_known(
    records: Seq<([u8; 32], AccountRecord)>,
    result: BatchResult,
) -> bool {
    forall|i: int|
        0 <= i < result.after().len() ==> has_id(records, (#[trigger] result.after()[i]).0)
}

/// Whether every account of a result's participants stands where the result started.
pub open spec fn accounts_current(
    records: Seq<([u8; 32], AccountRecord)>,
    result: BatchResult,
) -> bool {
    forall|i: int|
        0 <= i < result.before().len() ==> account_stands(
            records,
            (#[trigger] result.before()[i]).0,
            result.before()[i].1,
        )
}

/// Whether a participant has an account with a balance.
pub open spec fn account_stands(
    records: Seq<([u8; 32], AccountRecord)>,
    id: [u8; 32],
    balance: PoolBalance,
) -> bool {
    value_of(records, id) matches Some(record) && record.balance == balance
}

/// Whether every account of a result's participants stands where the result, for an epoch, left it.
pub open spec fn accounts_settled(
    records: Seq<([u8; 32], AccountRecord)>,
    epoch_id: [u8; 32],
    result: BatchResult,
) -> bool {
    forall|i: int|
        0 <= i < result.after().len() ==> account_settled(
            records,
            epoch_id,
            (#[trigger] result.after()[i]).0,
            result.after()[i].1,
        )
}

/// Whether a participant has an account with a balance that an epoch settled.
pub open spec fn account_settled(
    records: Seq<([u8; 32], AccountRecord)>,
    epoch_id: [u8; 32],
    id: [u8; 32],
    balance: PoolBalance,
) -> bool {
    value_of(records, id) matches Some(record) && record.last_epoch == epoch_id && record.balance
        == balance
}

/// Whether a settlement was applied before, and the accounts still stand as it left them.
pub open spec fn settlement_stands(
    accounts: Accounts,
    epoch_id: [u8; 32],
    result: BatchResult,
) -> bool {
    value_of(accounts.applied, epoch_id) == Some(settlement_digest_of(result)) && accounts_settled(
        accounts.records,
        epoch_id,
        result,
    )
}

/// Why a settlement cannot be applied, where it cannot.
pub open spec fn settlement_refusal(
    accounts: Accounts,
    epoch_id: [u8; 32],
    result: BatchResult,
) -> Option<AccountError> {
    if epoch_id@ == zeros(32) {
        Some(AccountError::StaleSettlement)
    } else if !members_known(accounts.records, result) {
        Some(AccountError::UnknownAccount)
    } else if has_id(accounts.applied, epoch_id) {
        if settlement_stands(accounts, epoch_id, result) {
            None
        } else {
            Some(AccountError::StaleSettlement)
        }
    } else if !accounts_current(accounts.records, result) {
        Some(AccountError::StaleSettlement)
    } else if accounts.applied.len() >= u32::MAX {
        Some(AccountError::ArithmeticOverflow)
    } else {
        None
    }
}

/// What applying a settlement makes of an account.
pub open spec fn settled_account(
    before: Seq<([u8; 32], AccountRecord)>,
    epoch_id: [u8; 32],
    members: Seq<([u8; 32], PoolBalance)>,
    id: [u8; 32],
) -> Option<AccountRecord> {
    match (value_of(before, id), value_of(members, id)) {
        (Some(record), Some(balance)) => Some(
            AccountRecord { balance, last_epoch: epoch_id, ..record },
        ),
        (record, _) => record,
    }
}

/// What applying a settlement does: nothing where it was applied before; otherwise each
/// participant's account takes the settled balance and the epoch, every other account stays, and
/// the epoch is marked.
pub open spec fn settlement_applied(
    before: Accounts,
    after: Accounts,
    epoch_id: [u8; 32],
    result: BatchResult,
) -> bool {
    if has_id(before.applied, epoch_id) {
        after == before
    } else {
        &&& after.records.len() == before.records.len()
        &&& forall|id: [u8; 32]| #[trigger]
            value_of(after.records, id) == settled_account(
                before.records,
                epoch_id,
                result.after(),
                id,
            )
        &&& forall|id: [u8; 32]| #[trigger]
            value_of(after.applied, id) == (if id == epoch_id {
                Some(settlement_digest_of(result))
            } else {
                value_of(before.applied, id)
            })
    }
}

/// What opening an account comes to: the zero participant and an account without funds are refused
/// first, then a participant that has one; a refusal changes nothing, and an account that is opened
/// leaves the others as they are.
pub open spec fn registration_outcome(
    before: Accounts,
    after: Accounts,
    participant_id: [u8; 32],
    trading_key: [u8; 32],
    balance: PoolBalance,
    outcome: Result<(), AccountError>,
) -> bool {
    &&& outcome == (if participant_id@ == zeros(32) || (balance.base_atoms == 0
        && balance.quote_atoms == 0) {
        Err::<(), _>(AccountError::InvalidAccount)
    } else if has_id(before.records, participant_id) {
        Err(AccountError::DuplicateAccount)
    } else if before.records.len() >= u32::MAX {
        Err(AccountError::ArithmeticOverflow)
    } else {
        Ok(())
    })
    &&& outcome is Err ==> after == before
    &&& outcome is Ok ==> {
        &&& after.applied == before.applied
        &&& value_of(after.records, participant_id) matches Some(record) && record.participant_id
            == participant_id && record.trading_key == trading_key && record.balance == balance
            && record.last_epoch@ == zeros(32)
        &&& forall|id: [u8; 32]|
            id != participant_id ==> #[trigger] value_of(after.records, id) == value_of(
                before.records,
                id,
            )
    }
}

/// What a key is told of the result of a participant.
pub open spec fn result_told(
    accounts: Accounts,
    participant_id: [u8; 32],
    trading_key: [u8; 32],
    outcome: Result<AccountResultV1, AccountError>,
) -> bool {
    match value_of(accounts.records, participant_id) {
        None => outcome == Err::<AccountResultV1, _>(AccountError::UnknownAccount),
        Some(record) => if record.trading_key != trading_key {
            outcome == Err::<AccountResultV1, _>(AccountError::Unauthorized)
        } else if record.last_epoch@ == zeros(32) {
            outcome == Err::<AccountResultV1, _>(AccountError::ResultPending)
        } else {
            outcome matches Ok(result) && result@ == (record.last_epoch, record.balance)
        },
    }
}

/// The accounts of a pool.
#[derive(Debug, PartialEq, Eq)]
pub struct AccountJournal {
    records: IdMap<AccountRecord>,
    applied_epochs: IdMap<[u8; 32]>,
}

impl View for AccountJournal {
    type V = Accounts;

    closed spec fn view(&self) -> Accounts {
        Accounts { records: self.records@, applied: self.applied_epochs@ }
    }
}

impl AccountJournal {
    pub open spec fn wf(&self) -> bool {
        accounts_wf(self@)
    }

    /// Opens an account. The zero participant and an account without funds are refused, then a
    /// participant that has one. A refusal changes nothing.
    pub fn register(
        &mut self,
        participant_id: [u8; 32],
        trading_key: VerifyingKey,
        balance: PoolBalance,
    ) -> (outcome: Result<(), AccountError>)
        requires
            old(self).wf(),
        ensures
            final(self).wf(),
            registration_outcome(
                old(self)@,
                final(self)@,
                participant_id,
                trading_key@,
                balance,
                outcome,
            ),
            accounts_storable(old(self)@) ==> accounts_storable(final(self)@),
    {
        if is_zero(participant_id.as_slice()) || (balance.base_atoms == 0 && balance.quote_atoms
            == 0) {
            return Err(AccountError::InvalidAccount);
        }
        if self.records.get(&participant_id).is_some() {
            return Err(AccountError::DuplicateAccount);
        }
        if self.records.len() >= 0xffff_ffff {
            return Err(AccountError::ArithmeticOverflow);
        }
        let ghost before = self.records@;
        let record = AccountRecord {
            participant_id,
            trading_key: trading_key.to_bytes(),
            balance,
            last_epoch: zero_id(),
        };
        self.records.insert(participant_id, record);
        proof {
            lemma_account_inserted(before, self.records@, record);
            if accounts_storable(old(self)@) {
                assert forall|i: int| 0 <= i < self@.records.len() implies AccountRecord::valid(
                    (#[trigger] self@.records[i]).1,
                ) by {
                    lemma_value_at(self@.records, i);
                    let id = self@.records[i].0;
                    if id != participant_id {
                        assert(has_id(before, id));
                        let k = position_of(before, id);
                        assert(AccountRecord::valid(before[k].1));
                    }
                }
            }
        }
        Ok(())
    }

    /// The settled balance of a participant, told only to the registered trading key.
    pub fn query_result(&self, participant_id: [u8; 32], trading_key: VerifyingKey) -> (outcome:
        Result<AccountResultV1, AccountError>)
        requires
            self.wf(),
        ensures
            result_told(self@, participant_id, trading_key@, outcome),
    {
        let record = match self.records.get(&participant_id) {
            Some(record) => record,
            None => {
                return Err(AccountError::UnknownAccount);
            },
        };
        if !same_array(&record.trading_key, &trading_key.to_bytes()) {
            return Err(AccountError::Unauthorized);
        }
        if is_zero(record.last_epoch.as_slice()) {
            return Err(AccountError::ResultPending);
        }
        Ok(AccountResultV1 { epoch_id: record.last_epoch, balance: record.balance })
    }

    fn knows_members(&self, result: &BatchResult) -> (known: bool)
        requires
            self.wf(),
        ensures
            known == members_known(self@.records, *result),
    {
        let balances = result.balances();
        let mut i: usize = 0;
        while i < balances.len()
            invariant
                self.wf(),
                balances@ == result.after(),
                i <= balances@.len(),
                forall|k: int|
                    0 <= k < i ==> has_id(self@.records, (#[trigger] result.after()[k]).0),
            decreases balances@.len() - i,
        {
            if self.records.get(&balances.entry(i).0).is_none() {
                assert(!has_id(self@.records, result.after()[i as int].0));
                return false;
            }
            i += 1;
        }
        true
    }

    fn is_current(&self, result: &BatchResult) -> (current: bool)
        requires
            self.wf(),
        ensures
            current == accounts_current(self@.records, *result),
    {
        let balances = result.before_balances();
        let mut i: usize = 0;
        while i < balances.len()
            invariant
                self.wf(),
                balances@ == result.before(),
                i <= balances@.len(),
                forall|k: int|
                    0 <= k < i ==> account_stands(
                        self@.records,
                        (#[trigger] result.before()[k]).0,
                        result.before()[k].1,
                    ),
            decreases balances@.len() - i,
        {
            let (id, balance) = balances.entry(i);
            let stands = match self.records.get(&id) {
                Some(record) => record.balance == balance,
                None => false,
            };
            if !stands {
                assert(!account_stands(
                    self@.records,
                    result.before()[i as int].0,
                    result.before()[i as int].1,
                ));
                return false;
            }
            i += 1;
        }
        true
    }

    fn is_settled(&self, epoch_id: [u8; 32], result: &BatchResult) -> (settled: bool)
        requires
            self.wf(),
        ensures
            settled == accounts_settled(self@.records, epoch_id, *result),
    {
        let balances = result.balances();
        let mut i: usize = 0;
        while i < balances.len()
            invariant
                self.wf(),
                balances@ == result.after(),
                i <= balances@.len(),
                forall|k: int|
                    0 <= k < i ==> account_settled(
                        self@.records,
                        epoch_id,
                        (#[trigger] result.after()[k]).0,
                        result.after()[k].1,
                    ),
            decreases balances@.len() - i,
        {
            let (id, balance) = balances.entry(i);
            let settled = match self.records.get(&id) {
                Some(record) => same_array(&record.last_epoch, &epoch_id) && record.balance
                    == balance,
                None => false,
            };
            if !settled {
                assert(!account_settled(
                    self@.records,
                    epoch_id,
                    result.after()[i as int].0,
                    result.after()[i as int].1,
                ));
                return false;
            }
            i += 1;
        }
        true
    }

    /// Whether a settlement was applied for an epoch and the accounts still stand as it left them.
    pub fn settlement_matches(&self, epoch_id: [u8; 32], result: &BatchResult) -> (matches: bool)
        requires
            self.wf(),
        ensures
            matches == settlement_stands(self@, epoch_id, *result),
    {
        let digest = settlement_digest(result);
        match self.applied_epochs.get(&epoch_id) {
            Some(applied) => same_array(&applied, &digest) && self.is_settled(epoch_id, result),
            None => false,
        }
    }

    /// Whether a settlement was applied for an epoch.
    pub fn has_applied_epoch(&self, epoch_id: [u8; 32]) -> (applied: bool)
        requires
            self.wf(),
        ensures
            applied == has_id(self@.applied, epoch_id),
    {
        self.applied_epochs.get(&epoch_id).is_some()
    }

    /// Applies the settlement of an epoch. One that was applied before is accepted again only as
    /// it was. A refusal changes nothing.
    pub fn apply_settlement(&mut self, epoch_id: [u8; 32], result: &BatchResult) -> (outcome: Result<
        (),
        AccountError,
    >)
        requires
            old(self).wf(),
            result.wf(),
        ensures
            final(self).wf(),
            outcome == (match settlement_refusal(old(self)@, epoch_id, *result) {
                Some(error) => Err::<(), _>(error),
                None => Ok(()),
            }),
            outcome is Err ==> final(self)@ == old(self)@,
            outcome is Ok ==> settlement_applied(old(self)@, final(self)@, epoch_id, *result),
            accounts_storable(old(self)@) && settlement_digest_of(*result)@ != zeros(32)
                ==> accounts_storable(final(self)@),
    {
        if is_zero(epoch_id.as_slice()) {
            return Err(AccountError::StaleSettlement);
        }
        if !self.knows_members(result) {
            return Err(AccountError::UnknownAccount);
        }
        if self.applied_epochs.get(&epoch_id).is_some() {
            return if self.settlement_matches(epoch_id, result) {
                Ok(())
            } else {
                Err(AccountError::StaleSettlement)
            };
        }
        if !self.is_current(result) {
            return Err(AccountError::StaleSettlement);
        }
        if self.applied_epochs.len() >= 0xffff_ffff {
            return Err(AccountError::ArithmeticOverflow);
        }
        let ghost before = self@;
        let balances = result.balances();
        let mut i: usize = 0;
        assert(balances@.take(0) =~= Seq::empty());
        while i < balances.len()
            invariant
                before == old(self)@,
                result.wf(),
                balances@ == result.after(),
                i <= balances@.len(),
                members_known(before.records, *result),
                accounts_wf(self@),
                self@.applied == before.applied,
                self@.records.len() == before.records.len(),
                forall|id: [u8; 32]| #[trigger]
                    value_of(self@.records, id) == settled_account(
                        before.records,
                        epoch_id,
                        balances@.take(i as int),
                        id,
                    ),
            decreases balances@.len() - i,
        {
            let (id, balance) = balances.entry(i);
            let ghost middle = self@;
            assert(has_id(before.records, result.after()[i as int].0));
            proof {
                lemma_next_member(balances@, i as int);
                assert(value_of(middle.records, id) == settled_account(
                    before.records,
                    epoch_id,
                    balances@.take(i as int),
                    id,
                ));
            }
            match self.records.get(&id) {
                Some(record) => {
                    let updated = AccountRecord { balance, last_epoch: epoch_id, ..record };
                    proof {
                        let at = position_of(middle.records, id);
                        assert(has_id(middle.records, id));
                        assert(middle.records[at].0 == id);
                    }
                    self.records.insert(id, updated);
                    proof {
                        assert forall|k: [u8; 32]| #[trigger]
                            value_of(self@.records, k) == settled_account(
                                before.records,
                                epoch_id,
                                balances@.take(i + 1),
                                k,
                            ) by {
                            lemma_value_taken(balances@, i as int, k);
                            assert(value_of(middle.records, k) == settled_account(
                                before.records,
                                epoch_id,
                                balances@.take(i as int),
                                k,
                            ));
                        }
                    }
                },
                None => {
                    assert(false);
                },
            }
            i += 1;
        }
        assert(balances@.take(i as int) =~= balances@);
        self.applied_epochs.insert(epoch_id, settlement_digest(result));
        proof {
            if accounts_storable(before) && settlement_digest_of(*result)@ != zeros(32) {
                lemma_settled_storable(before, self@, epoch_id, *result);
            }
        }
        Ok(())
    }
}

/// Applying a settlement keeps accounts and settlements that a file accepts.
proof fn lemma_settled_storable(
    before: Accounts,
    after: Accounts,
    epoch_id: [u8; 32],
    result: BatchResult,
)
    requires
        accounts_storable(before),
        accounts_wf(after),
        result.wf(),
        settlement_refusal(before, epoch_id, result) is None,
        settlement_applied(before, after, epoch_id, result),
        settlement_digest_of(result)@ != zeros(32),
    ensures
        accounts_storable(after),
{
    if !has_id(before.applied, epoch_id) {
        let members = result.after();
        assert forall|i: int| 0 <= i < after.records.len() implies AccountRecord::valid(
            (#[trigger] after.records[i]).1,
        ) by {
            lemma_value_at(after.records, i);
            let id = after.records[i].0;
            assert(value_of(after.records, id) == settled_account(
                before.records,
                epoch_id,
                members,
                id,
            ));
            assert(has_id(before.records, id));
            let k = position_of(before.records, id);
            assert(AccountRecord::valid(before.records[k].1));
            if has_id(members, id) {
                let m = position_of(members, id);
                assert(members[m].0 == id);
                assert(result.before()[m].0 == id);
                assert(account_stands(before.records, result.before()[m].0, result.before()[m].1));
            }
        }
        assert forall|i: int| 0 <= i < after.applied.len() implies (
        #[trigger] after.applied[i]).0@ != zeros(32) && after.applied[i].1@ != zeros(32) by {
            lemma_value_at(after.applied, i);
            let id = after.applied[i].0;
            if id != epoch_id {
                assert(value_of(after.applied, id) == value_of(before.applied, id));
                assert(has_id(before.applied, id));
                let k = position_of(before.applied, id);
                assert(before.applied[k].0 == id);
            }
        }
    }
}

/// The next entry of a sorted list is not among the ones before it.
proof fn lemma_next_member(entries: Seq<([u8; 32], PoolBalance)>, i: int)
    requires
        ids_sorted(entries),
        0 <= i < entries.len(),
    ensures
        ids_sorted(entries.take(i)),
        !has_id(entries.take(i), entries[i].0),
{
    let taken = entries.take(i);
    assert forall|a: int, b: int| 0 <= a < b < taken.len() implies crate::bytes::bytes_less(
        #[trigger] taken[a].0@,
        #[trigger] taken[b].0@,
    ) by {
        assert(crate::bytes::bytes_less(entries[a].0@, entries[b].0@));
    }
    if has_id(taken, entries[i].0) {
        let k = position_of(taken, entries[i].0);
        assert(taken[k].0 == entries[i].0);
        assert(crate::bytes::bytes_less(entries[k].0@, entries[i].0@));
        crate::bytes::lemma_bytes_less_irreflexive(entries[i].0@);
    }
}

/// Taking one entry more adds its value and leaves the others.
proof fn lemma_value_taken(entries: Seq<([u8; 32], PoolBalance)>, i: int, id: [u8; 32])
    requires
        ids_sorted(entries),
        0 <= i < entries.len(),
    ensures
        value_of(entries.take(i + 1), id) == (if id == entries[i].0 {
            Some(entries[i].1)
        } else {
            value_of(entries.take(i), id)
        }),
{
    let more = entries.take(i + 1);
    let less = entries.take(i);
    lemma_next_member(entries, i);
    if i + 1 < entries.len() {
        lemma_next_member(entries, i + 1);
    } else {
        assert(more =~= entries);
    }
    assert(more[i] == entries[i]);
    lemma_value_at(more, i);
    if id != entries[i].0 {
        if has_id(less, id) {
            let k = position_of(less, id);
            assert(less[k].0 == id);
            assert(more[k] == less[k]);
            lemma_value_at(less, k);
            lemma_value_at(more, k);
        } else if has_id(more, id) {
            let k = position_of(more, id);
            assert(more[k].0 == id);
            assert(less[k] == more[k]);
        }
    }
}

proof fn lemma_account_inserted(
    before: Seq<([u8; 32], AccountRecord)>,
    after: Seq<([u8; 32], AccountRecord)>,
    record: AccountRecord,
)
    requires
        ids_sorted(after),
        forall|i: int|
            0 <= i < before.len() ==> (#[trigger] before[i]).0 == before[i].1.participant_id,
        forall|id: [u8; 32]| #[trigger]
            value_of(after, id) == (if id == record.participant_id {
                Some(record)
            } else {
                value_of(before, id)
            }),
    ensures
        forall|i: int|
            0 <= i < after.len() ==> (#[trigger] after[i]).0 == after[i].1.participant_id,
{
    assert forall|i: int| 0 <= i < after.len() implies (#[trigger] after[i]).0
        == after[i].1.participant_id by {
        lemma_value_at(after, i);
        let id = after[i].0;
        if id != record.participant_id {
            assert(has_id(before, id));
            let k = position_of(before, id);
            assert(before[k].0 == id);
        }
    }
}

/// The header of an account journal.
pub open spec fn account_header() -> Seq<u8> {
    seq![75u8, 71u8, 66u8, 65u8, 67u8, 67u8, 50u8, 0u8]
}

/// The accounts of a journal, in its order.
pub open spec fn account_list(entries: Seq<([u8; 32], AccountRecord)>) -> Seq<AccountRecord> {
    entries.map_values(|entry: ([u8; 32], AccountRecord)| entry.1)
}

/// The payload of an account file: header, the two numbers, accounts, settlements.
pub open spec fn accounts_payload(accounts: Accounts) -> Seq<u8> {
    account_header() + spec_u32_to_le_bytes(accounts.records.len() as u32) + spec_u32_to_le_bytes(
        accounts.applied.len() as u32,
    ) + encode_all::<AccountRecord>(account_list(accounts.records)) + encode_all::<IdPair>(
        accounts.applied,
    )
}

/// Whether no participant of a list has two accounts.
pub open spec fn accounts_distinct(list: Seq<AccountRecord>) -> bool {
    forall|i: int, j: int|
        0 <= i < j < list.len() ==> (#[trigger] list[i]).participant_id != (
        #[trigger] list[j]).participant_id
}

/// Whether no pair of a list holds a zero identifier.
pub open spec fn pairs_nonzero(pairs: Seq<([u8; 32], [u8; 32])>) -> bool {
    forall|i: int|
        0 <= i < pairs.len() ==> (#[trigger] pairs[i]).0@ != zeros(32) && pairs[i].1@ != zeros(32)
}

/// The accounts and settlements that a file holds; a file that is truncated, tampered with,
/// miscounted, or that repeats a participant or an epoch, holds none.
pub open spec fn account_file(bytes: Seq<u8>) -> Option<
    (Seq<AccountRecord>, Seq<([u8; 32], [u8; 32])>),
> {
    match unsealed(bytes) {
        None => None,
        Some(payload) => if payload.len() < 16 || payload.take(8) != account_header() {
            None
        } else {
            let accounts = spec_u32_from_le_bytes(payload.subrange(8, 12)) as int;
            let epochs = spec_u32_from_le_bytes(payload.subrange(12, 16)) as int;
            let split = 16 + accounts * 112;
            if payload.len() != split + epochs * 64 {
                None
            } else {
                match (
                    parse_all::<AccountRecord>(payload.subrange(16, split)),
                    parse_all::<IdPair>(payload.skip(split)),
                ) {
                    (Some(list), Some(pairs)) => if accounts_distinct(list) && pairs_distinct(pairs)
                        && pairs_nonzero(pairs) {
                        Some((list, pairs))
                    } else {
                        None
                    },
                    _ => None,
                }
            }
        },
    }
}

/// Whether entries are the accounts of a list.
pub open spec fn holds_accounts(
    entries: Seq<([u8; 32], AccountRecord)>,
    list: Seq<AccountRecord>,
) -> bool {
    &&& entries.len() == list.len()
    &&& forall|i: int|
        0 <= i < list.len() ==> value_of(entries, (#[trigger] list[i]).participant_id) == Some(
            list[i],
        )
}

fn collect_accounts(list: &[AccountRecord]) -> (entries: Option<IdMap<AccountRecord>>)
    ensures
        match entries {
            Some(entries) => entries.wf() && accounts_distinct(list@) && holds_accounts(
                entries@,
                list@,
            ) && (forall|i: int|
                0 <= i < entries@.len() ==> (#[trigger] entries@[i]).0
                    == entries@[i].1.participant_id && list@.contains(entries@[i].1)),
            None => !accounts_distinct(list@),
        },
{
    let mut entries: IdMap<AccountRecord> = IdMap::new();
    let mut i: usize = 0;
    while i < list.len()
        invariant
            i <= list@.len(),
            entries.wf(),
            accounts_distinct(list@.take(i as int)),
            holds_accounts(entries@, list@.take(i as int)),
            forall|k: int|
                0 <= k < entries@.len() ==> (#[trigger] entries@[k]).0
                    == entries@[k].1.participant_id,
            forall|id: [u8; 32]| #[trigger]
                value_of(entries@, id) is Some ==> exists|k: int|
                    0 <= k < i && list@[k].participant_id == id,
        decreases list@.len() - i,
    {
        let record = list[i];
        if entries.get(&record.participant_id).is_some() {
            proof {
                let k = choose|k: int| 0 <= k < i && list@[k].participant_id
                    == record.participant_id;
                assert(list@[k].participant_id == list@[i as int].participant_id);
            }
            return None;
        }
        let ghost before = entries@;
        entries.insert(record.participant_id, record);
        proof {
            lemma_account_inserted(before, entries@, record);
            let done = list@.take(i as int);
            let next = list@.take(i + 1);
            assert forall|k: int| 0 <= k < next.len() implies value_of(
                entries@,
                (#[trigger] next[k]).participant_id,
            ) == Some(next[k]) by {
                if k < i {
                    assert(next[k] == done[k]);
                    assert(value_of(before, done[k].participant_id) == Some(done[k]));
                }
            }
            assert forall|a: int, b: int| 0 <= a < b < next.len() implies (
            #[trigger] next[a]).participant_id != (#[trigger] next[b]).participant_id by {
                if b < i {
                    assert(done[a].participant_id != done[b].participant_id);
                } else {
                    assert(next[a] == done[a]);
                    assert(value_of(before, done[a].participant_id) is Some);
                }
            }
            assert forall|id: [u8; 32]| #[trigger] value_of(entries@, id) is Some implies exists|
                k: int,
            | 0 <= k < i + 1 && list@[k].participant_id == id by {
                if id != record.participant_id {
                    assert(value_of(before, id) is Some);
                } else {
                    assert(list@[i as int].participant_id == id);
                }
            }
        }
        i += 1;
    }
    assert(list@.take(i as int) =~= list@);
    assert forall|k: int| 0 <= k < entries@.len() implies list@.contains(
        (#[trigger] entries@[k]).1,
    ) by {
        lemma_value_at(entries@, k);
        assert(value_of(entries@, entries@[k].0) is Some);
        let at = choose|at: int| 0 <= at < list@.len() && list@[at].participant_id
            == entries@[k].0;
        assert(value_of(entries@, list@[at].participant_id) == Some(list@[at]));
        assert(list@[at] == entries@[k].1);
    }
    Some(entries)
}

fn no_zero_pair(pairs: &[IdPair]) -> (nonzero: bool)
    ensures
        nonzero == pairs_nonzero(views(pairs@)),
{
    let mut i: usize = 0;
    while i < pairs.len()
        invariant
            i <= pairs@.len(),
            forall|k: int|
                0 <= k < i ==> (#[trigger] views(pairs@)[k]).0@ != zeros(32) && views(
                    pairs@,
                )[k].1@ != zeros(32),
        decreases pairs@.len() - i,
    {
        assert(views(pairs@)[i as int] == pairs@[i as int]@);
        if is_zero(pairs[i].id.as_slice()) || is_zero(pairs[i].value.as_slice()) {
            return false;
        }
        i += 1;
    }
    true
}

impl AccountJournal {
    /// Opens a journal from the contents of its file; a missing file is a new journal.
    pub fn open(file: Option<&[u8]>) -> (journal: Result<Self, AccountError>)
        ensures
            match journal {
                Ok(journal) => accounts_storable(journal@) && match file {
                    None => journal@.records.len() == 0 && journal@.applied.len() == 0,
                    Some(bytes) => account_file(bytes@) matches Some((list, pairs))
                        && holds_accounts(journal@.records, list) && holds_pairs(
                        journal@.applied,
                        pairs,
                    ),
                },
                Err(error) => error == AccountError::Corrupt && (file matches Some(bytes)
                    && account_file(bytes@) is None),
            },
    {
        let bytes = match file {
            None => {
                return Ok(AccountJournal { records: IdMap::new(), applied_epochs: IdMap::new() });
            },
            Some(bytes) => bytes,
        };
        let payload = match unseal(bytes) {
            Some(payload) => payload,
            None => {
                return Err(AccountError::Corrupt);
            },
        };
        if payload.len() < 16 {
            return Err(AccountError::Corrupt);
        }
        let header: [u8; 8] = [75u8, 71u8, 66u8, 65u8, 67u8, 67u8, 50u8, 0u8];
        assert(header@ =~= account_header());
        let head = slice_subrange(payload, 0, 8);
        assert(head@ =~= payload@.take(8));
        if !same_bytes(head, header.as_slice()) {
            return Err(AccountError::Corrupt);
        }
        let accounts: u64 = u32_from_le_bytes(slice_subrange(payload, 8, 12)) as u64;
        let epochs: u64 = u32_from_le_bytes(slice_subrange(payload, 12, 16)) as u64;
        let split: u64 = 16 + accounts * 112;
        if payload.len() as u64 != split + epochs * 64 {
            return Err(AccountError::Corrupt);
        }
        let first = slice_subrange(payload, 16, split as usize);
        let second = slice_subrange(payload, split as usize, payload.len());
        assert(second@ =~= payload@.skip(split as int));
        let list = match read_all::<AccountRecord>(first) {
            Some(list) => list,
            None => {
                return Err(AccountError::Corrupt);
            },
        };
        assert(views(list@) =~= list@);
        let pairs = match read_all::<IdPair>(second) {
            Some(pairs) => pairs,
            None => {
                return Err(AccountError::Corrupt);
            },
        };
        proof {
            lemma_encode_parse_all::<AccountRecord>(first@);
            lemma_encode_all_len::<AccountRecord>(list@);
            lemma_encode_parse_all::<IdPair>(second@);
            lemma_encode_all_len::<IdPair>(views(pairs@));
        }
        if !no_zero_pair(pairs.as_slice()) {
            return Err(AccountError::Corrupt);
        }
        match (collect_accounts(list.as_slice()), collect_pairs(pairs.as_slice())) {
            (Some(records), Some(applied_epochs)) => {
                proof {
                    let all = views(pairs@);
                    assert forall|i: int| 0 <= i < records@.len() implies AccountRecord::valid(
                        (#[trigger] records@[i]).1,
                    ) by {
                        let k = choose|k: int| 0 <= k < list@.len() && list@[k] == records@[i].1;
                        assert(AccountRecord::valid(list@[k]));
                    }
                    assert forall|i: int| 0 <= i < applied_epochs@.len() implies (
                    #[trigger] applied_epochs@[i]).0@ != zeros(32) && applied_epochs@[i].1@
                        != zeros(32) by {
                        let k = choose|k: int| 0 <= k < all.len() && all[k] == applied_epochs@[i];
                        assert(all[k].0@ != zeros(32));
                    }
                }
                Ok(AccountJournal { records, applied_epochs })
            },
            _ => Err(AccountError::Corrupt),
        }
    }

    /// The contents of the journal's file.
    pub fn encode(&self) -> (bytes: Vec<u8>)
        requires
            self.wf(),
        ensures
            bytes@ == sealed(accounts_payload(self@)),
    {
        let ghost all = account_list(self@.records);
        let mut list: Vec<AccountRecord> = Vec::new();
        let mut i: usize = 0;
        while i < self.records.len()
            invariant
                i <= self.records@.len(),
                self@.records == self.records@,
                all == account_list(self@.records),
                list@ == all.take(i as int),
            decreases self.records@.len() - i,
        {
            list.push(self.records.entry(i).1);
            i += 1;
            assert(list@ =~= all.take(i as int));
        }
        assert(all.take(i as int) =~= all);
        assert(views(list@) =~= all);
        let pairs = list_pairs(&self.applied_epochs);
        let header: [u8; 8] = [75u8, 71u8, 66u8, 65u8, 67u8, 67u8, 50u8, 0u8];
        assert(header@ =~= account_header());
        let mut payload: Vec<u8> = Vec::new();
        append(&mut payload, header.as_slice());
        append(&mut payload, u32_to_le_bytes(self.records.len() as u32).as_slice());
        append(&mut payload, u32_to_le_bytes(self.applied_epochs.len() as u32).as_slice());
        write_all(&mut payload, list.as_slice());
        write_all(&mut payload, pairs.as_slice());
        assert(payload@ =~= accounts_payload(self@));
        seal(payload)
    }
}

/// Whether a file accepts these accounts and settlements: each account as its own, and no zero
/// epoch or digest.
pub open spec fn accounts_storable(accounts: Accounts) -> bool {
    &&& accounts_wf(accounts)
    &&& forall|i: int|
        0 <= i < accounts.records.len() ==> AccountRecord::valid(
            (#[trigger] accounts.records[i]).1,
        )
    &&& pairs_nonzero(accounts.applied)
}

/// A journal comes back from its file as it was.
pub proof fn law_accounts_survive_a_restart(accounts: Accounts, reopened: Accounts)
    requires
        accounts_storable(accounts),
        accounts_wf(reopened),
    ensures
        account_file(sealed(accounts_payload(accounts))) == Some(
            (account_list(accounts.records), accounts.applied),
        ),
        holds_accounts(reopened.records, account_list(accounts.records)) && holds_pairs(
            reopened.applied,
            accounts.applied,
        ) ==> reopened == accounts,
{
    let list = account_list(accounts.records);
    let payload = accounts_payload(accounts);
    lemma_seal(sealed(payload), payload);
    lemma_auto_spec_u32_to_from_le_bytes();
    assert forall|i: int| 0 <= i < list.len() implies AccountRecord::valid(#[trigger] list[i]) by {
        assert(list[i] == accounts.records[i].1);
    }
    lemma_encode_all_len::<AccountRecord>(list);
    lemma_encode_all_len::<IdPair>(accounts.applied);
    let split: int = 16 + list.len() as int * 112;
    assert(payload.take(8) =~= account_header());
    assert(payload.subrange(8, 12) =~= spec_u32_to_le_bytes(list.len() as u32));
    assert(payload.subrange(12, 16) =~= spec_u32_to_le_bytes(accounts.applied.len() as u32));
    assert(payload.subrange(16, split) =~= encode_all::<AccountRecord>(list));
    assert(payload.skip(split) =~= encode_all::<IdPair>(accounts.applied));
    lemma_parse_encode_all::<AccountRecord>(list);
    lemma_parse_encode_all::<IdPair>(accounts.applied);
    lemma_pairs_listed(accounts.applied, reopened.applied);
    assert forall|i: int, j: int| 0 <= i < j < list.len() implies (
    #[trigger] list[i]).participant_id != (#[trigger] list[j]).participant_id by {
        assert(list[i].participant_id == accounts.records[i].0);
        assert(list[j].participant_id == accounts.records[j].0);
        assert(crate::bytes::bytes_less(accounts.records[i].0@, accounts.records[j].0@));
        crate::bytes::lemma_bytes_less_irreflexive(accounts.records[i].0@);
    }
    if holds_accounts(reopened.records, list) {
        assert forall|i: int| 0 <= i < accounts.records.len() implies value_of(
            reopened.records,
            (#[trigger] accounts.records[i]).0,
        ) == Some(accounts.records[i].1) by {
            assert(list[i].participant_id == accounts.records[i].0);
        }
        lemma_entries_contained(accounts.records, reopened.records);
    }
}

/// Why the result of an epoch cannot be made final, where it cannot: first for the reservations,
/// then for a consumed reservation whose settlement does not stand, then for the accounts.
pub open spec fn finalize_refusal(
    accounts: Accounts,
    reservations: Seq<([u8; 32], ReservationRecord)>,
    epoch_id: [u8; 32],
    result: BatchResult,
    nonces: Seq<[u8; 32]>,
) -> Option<AccountError> {
    if !all_known(reservations, nonces) {
        Some(AccountError::Reservation(JournalError::UnknownNonce))
    } else if !finalizable(reservations, epoch_id, nonces, result.after()) {
        Some(AccountError::Reservation(JournalError::InvalidTransition))
    } else if some_used(reservations, nonces) && !settlement_stands(accounts, epoch_id, result) {
        Some(AccountError::StaleSettlement)
    } else {
        settlement_refusal(accounts, epoch_id, result)
    }
}

/// What making a result final comes to: a refusal changes nothing; otherwise the accounts have the
/// balances of the batch and the reservations are used.
pub open spec fn finalize_outcome(
    before: Accounts,
    after: Accounts,
    reserved: Seq<([u8; 32], ReservationRecord)>,
    used: Seq<([u8; 32], ReservationRecord)>,
    epoch_id: [u8; 32],
    result: BatchResult,
    nonces: Seq<[u8; 32]>,
    outcome: Result<(), AccountError>,
) -> bool {
    &&& outcome == (match finalize_refusal(before, reserved, epoch_id, result, nonces) {
        Some(error) => Err::<(), _>(error),
        None => Ok(()),
    })
    &&& outcome is Err ==> after == before && used == reserved
    &&& outcome is Ok ==> settlement_applied(before, after, epoch_id, result) && states_set(
        reserved,
        used,
        nonces,
        ReservationState::Used,
    )
}

/// What giving the reservations of an ended epoch back comes to: an unknown nonce is refused first, then
/// a reservation of another epoch or a used one, then an epoch whose settlement was applied.
pub open spec fn release_outcome(
    accounts: Accounts,
    before: Seq<([u8; 32], ReservationRecord)>,
    after: Seq<([u8; 32], ReservationRecord)>,
    epoch_id: [u8; 32],
    nonces: Seq<[u8; 32]>,
    outcome: Result<(), AccountError>,
) -> bool {
    &&& outcome == (if !all_known(before, nonces) {
        Err::<(), _>(AccountError::Reservation(JournalError::UnknownNonce))
    } else if !releasable(before, epoch_id, nonces) {
        Err(AccountError::Reservation(JournalError::InvalidTransition))
    } else if has_id(accounts.applied, epoch_id) {
        Err(AccountError::StaleSettlement)
    } else {
        Ok(())
    })
    &&& outcome is Err ==> after == before
    &&& outcome is Ok ==> states_set(before, after, nonces, ReservationState::Released)
}

/// Makes the result of an epoch final: applies it to the accounts and consumes its reservations.
/// A refusal changes neither.
pub fn finalize_settlement(
    accounts: &mut AccountJournal,
    reservations: &mut ReservationJournal,
    epoch_id: [u8; 32],
    result: &BatchResult,
    reservation_nonces: &[[u8; 32]],
) -> (outcome: Result<(), AccountError>)
    requires
        old(accounts).wf(),
        old(reservations).wf(),
        result.wf(),
    ensures
        final(accounts).wf(),
        final(reservations).wf(),
        accounts_storable(old(accounts)@) && settlement_digest_of(*result)@ != zeros(32)
            ==> accounts_storable(final(accounts)@),
        finalize_outcome(
            old(accounts)@,
            final(accounts)@,
            old(reservations)@,
            final(reservations)@,
            epoch_id,
            *result,
            reservation_nonces@,
            outcome,
        ),
{
    let had_used = match reservations.check_finalize(
        epoch_id,
        reservation_nonces,
        result.balances(),
    ) {
        Ok(had_used) => had_used,
        Err(error) => {
            return Err(AccountError::Reservation(error));
        },
    };
    if had_used && !accounts.settlement_matches(epoch_id, result) {
        return Err(AccountError::StaleSettlement);
    }
    match accounts.apply_settlement(epoch_id, result) {
        Ok(_) => {},
        Err(error) => {
            return Err(error);
        },
    }
    reservations.set_states(reservation_nonces, ReservationState::Used);
    Ok(())
}

/// Releases one reservation batch only with a confirmed capability for the same aborted or
/// expired onchain epoch, and never once a settlement of that epoch was applied.
pub fn release_reservations(
    accounts: &AccountJournal,
    reservations: &mut ReservationJournal,
    terminal_epoch: &ConfirmedTerminalEpoch,
    reservation_nonces: &[[u8; 32]],
) -> (outcome: Result<(), AccountError>)
    requires
        accounts.wf(),
        old(reservations).wf(),
    ensures
        final(reservations).wf(),
        release_outcome(
            accounts@,
            old(reservations)@,
            final(reservations)@,
            terminal_epoch.epoch(),
            reservation_nonces@,
            outcome,
        ),
{
    let epoch_id = terminal_epoch.epoch_id();
    match reservations.check_release(epoch_id, reservation_nonces) {
        Ok(_) => {},
        Err(error) => {
            return Err(AccountError::Reservation(error));
        },
    }
    if accounts.has_applied_epoch(epoch_id) {
        return Err(AccountError::StaleSettlement);
    }
    reservations.set_states(reservation_nonces, ReservationState::Released);
    Ok(())
}

/// Opening an account and asking for its result: the key that it was opened with learns that the result
/// is pending, and every other key learns nothing.
pub proof fn law_registered_account_has_no_result_yet(
    before: Accounts,
    after: Accounts,
    participant_id: [u8; 32],
    trading_key: [u8; 32],
    balance: PoolBalance,
    asking: [u8; 32],
    told: Result<AccountResultV1, AccountError>,
)
    requires
        registration_outcome(before, after, participant_id, trading_key, balance, Ok(())),
        result_told(after, participant_id, asking, told),
    ensures
        asking == trading_key ==> told == Err::<AccountResultV1, _>(AccountError::ResultPending),
        asking != trading_key ==> told == Err::<AccountResultV1, _>(AccountError::Unauthorized),
{
}

/// A participant has one account: opening a second is refused and leaves the first, whatever key and
/// balance are offered. The zero participant and a balance of nothing open none.
pub proof fn law_participant_has_one_account(
    before: Accounts,
    opened: Accounts,
    after: Accounts,
    participant_id: [u8; 32],
    first_key: [u8; 32],
    first: PoolBalance,
    second_key: [u8; 32],
    second: PoolBalance,
    outcome: Result<(), AccountError>,
)
    requires
        registration_outcome(before, opened, participant_id, first_key, first, Ok(())),
        registration_outcome(opened, after, participant_id, second_key, second, outcome),
    ensures
        participant_id@ != zeros(32),
        first.base_atoms != 0 || first.quote_atoms != 0,
        outcome is Err,
        after == opened,
        second.base_atoms != 0 || second.quote_atoms != 0 ==> outcome == Err::<(), _>(
            AccountError::DuplicateAccount,
        ),
        value_of(after.records, participant_id) matches Some(record) && record.trading_key
            == first_key && record.balance == first,
{
}

/// A participant who has no account opens one with any funds at all.
pub proof fn law_funded_participant_opens_an_account(
    before: Accounts,
    after: Accounts,
    participant_id: [u8; 32],
    trading_key: [u8; 32],
    balance: PoolBalance,
    outcome: Result<(), AccountError>,
)
    requires
        registration_outcome(before, after, participant_id, trading_key, balance, outcome),
        value_of(before.records, participant_id) is None,
        before.records.len() < u32::MAX,
        participant_id@ != zeros(32),
        balance.base_atoms > 0 || balance.quote_atoms > 0,
    ensures
        outcome == Ok::<(), AccountError>(()),
        forall|other: [u8; 32]|
            other != participant_id ==> #[trigger] value_of(after.records, other) == value_of(
                before.records,
                other,
            ),
        after.applied == before.applied,
{
}

/// Once a result is final, each member's registered key is told the epoch and the balance that the batch
/// left, every other key is told nothing, and nobody else's account has changed.
pub proof fn law_final_result_is_told_to_its_member(
    before: Accounts,
    after: Accounts,
    reserved: Seq<([u8; 32], ReservationRecord)>,
    used: Seq<([u8; 32], ReservationRecord)>,
    epoch_id: [u8; 32],
    result: BatchResult,
    nonces: Seq<[u8; 32]>,
    participant_id: [u8; 32],
    asking: [u8; 32],
    told: Result<AccountResultV1, AccountError>,
)
    requires
        result.wf(),
        finalize_outcome(before, after, reserved, used, epoch_id, result, nonces, Ok(())),
        result_told(after, participant_id, asking, told),
    ensures
        value_of(result.after(), participant_id) matches Some(balance) ==> (value_of(
            before.records,
            participant_id,
        ) matches Some(record) && if asking == record.trading_key {
            told matches Ok(answer) && answer@ == (epoch_id, balance)
        } else {
            told == Err::<AccountResultV1, _>(AccountError::Unauthorized)
        }),
        value_of(result.after(), participant_id) is None ==> value_of(
            after.records,
            participant_id,
        ) == value_of(before.records, participant_id),
{
    let members = result.after();
    if has_id(members, participant_id) {
        let i = position_of(members, participant_id);
        lemma_value_at(members, i);
        assert(members[i].0 == participant_id);
        assert(has_id(before.records, members[i].0));
        if has_id(before.applied, epoch_id) {
            assert(account_settled(before.records, epoch_id, members[i].0, members[i].1));
        } else {
            assert(value_of(after.records, participant_id) == settled_account(
                before.records,
                epoch_id,
                members,
                participant_id,
            ));
        }
    } else if !has_id(before.applied, epoch_id) {
        assert(value_of(after.records, participant_id) == settled_account(
            before.records,
            epoch_id,
            members,
            participant_id,
        ));
    }
}

/// A result becomes final where every member has an account that still holds what the batch found, the
/// epoch has no result yet, and the reservations are one for each member, of this epoch and still
/// reserved; they are used then, and no other reservation changes.
pub proof fn law_current_result_becomes_final(
    before: Accounts,
    after: Accounts,
    reserved: Seq<([u8; 32], ReservationRecord)>,
    used: Seq<([u8; 32], ReservationRecord)>,
    epoch_id: [u8; 32],
    result: BatchResult,
    nonces: Seq<[u8; 32]>,
    outcome: Result<(), AccountError>,
)
    requires
        result.wf(),
        finalize_outcome(before, after, reserved, used, epoch_id, result, nonces, outcome),
        epoch_id@ != zeros(32),
        value_of(before.applied, epoch_id) is None,
        before.applied.len() < u32::MAX,
        nonces.len() == result.after().len(),
        forall|i: int|
            0 <= i < nonces.len() ==> {
                &&& value_of(reserved, #[trigger] nonces[i]) matches Some(record)
                    && record@.epoch_id == epoch_id && record@.state == ReservationState::Reserved
                    && value_of(result.after(), record@.participant_id) is Some
            },
        forall|i: int, j: int|
            0 <= i < j < nonces.len() ==> value_of(
                reserved,
                #[trigger] nonces[i],
            ).unwrap()@.participant_id != value_of(
                reserved,
                #[trigger] nonces[j],
            ).unwrap()@.participant_id,
        forall|i: int|
            0 <= i < result.before().len() ==> {
                &&& value_of(before.records, (#[trigger] result.before()[i]).0) matches Some(record)
                    && record.balance == result.before()[i].1
            },
    ensures
        outcome == Ok::<(), AccountError>(()),
        forall|i: int|
            0 <= i < nonces.len() ==> value_of(used, #[trigger] nonces[i]) is Some && value_of(
                used,
                nonces[i],
            ).unwrap()@.state == ReservationState::Used,
        forall|nonce: [u8; 32]|
            !nonces.contains(nonce) ==> (#[trigger] value_of(used, nonce) is Some <==> value_of(
                reserved,
                nonce,
            ) is Some) && (value_of(reserved, nonce) is Some ==> value_of(used, nonce).unwrap()@
                == value_of(reserved, nonce).unwrap()@),
        value_of(after.applied, epoch_id) is Some,
        forall|other: [u8; 32]|
            other != epoch_id ==> #[trigger] value_of(after.applied, other) == value_of(
                before.applied,
                other,
            ),
{
    let members = result.after();
    assert forall|i: int| 0 <= i < nonces.len() implies has_id(reserved, #[trigger] nonces[i])
        && crate::admission::finalizable_one(reserved, epoch_id, nonces[i], members) by {
        assert(value_of(reserved, nonces[i]) is Some);
    }
    assert(finalizable(reserved, epoch_id, nonces, members)) by {
        assert forall|i: int, j: int| 0 <= i < j < nonces.len() implies reservation_of(
            reserved,
            #[trigger] nonces[i],
        ).participant_id != reservation_of(reserved, #[trigger] nonces[j]).participant_id by {
            assert(value_of(reserved, nonces[i]).unwrap()@.participant_id != value_of(
                reserved,
                nonces[j],
            ).unwrap()@.participant_id);
        }
    }
    assert(!some_used(reserved, nonces)) by {
        if some_used(reserved, nonces) {
            let i = choose|i: int|
                0 <= i < nonces.len() && reservation_of(reserved, #[trigger] nonces[i]).state
                    == ReservationState::Used;
            assert(value_of(reserved, nonces[i]) is Some);
        }
    }
    assert(members_known(before.records, result)) by {
        assert forall|i: int| 0 <= i < members.len() implies has_id(
            before.records,
            (#[trigger] members[i]).0,
        ) by {
            assert(result.before()[i].0 == members[i].0);
            assert(value_of(before.records, result.before()[i].0) is Some);
        }
    }
    assert(accounts_current(before.records, result)) by {
        assert forall|i: int| 0 <= i < result.before().len() implies account_stands(
            before.records,
            (#[trigger] result.before()[i]).0,
            result.before()[i].1,
        ) by {
            assert(value_of(before.records, result.before()[i].0) is Some);
        }
    }
    assert forall|i: int| 0 <= i < nonces.len() implies value_of(used, #[trigger] nonces[i]) is Some
        && value_of(used, nonces[i]).unwrap()@.state == ReservationState::Used by {
        assert(value_of(reserved, nonces[i]) is Some);
        assert(value_of(used, nonces[i]) is Some);
        assert(nonces.contains(nonces[i]));
    }
    assert(value_of(after.applied, epoch_id) == Some(settlement_digest_of(result)));
}

/// A stale result is refused and changes nothing: one of an account whose balance is no longer what the
/// batch found, and another result of an epoch that has one.
pub proof fn law_stale_result_is_refused(
    before: Accounts,
    after: Accounts,
    reserved: Seq<([u8; 32], ReservationRecord)>,
    used: Seq<([u8; 32], ReservationRecord)>,
    epoch_id: [u8; 32],
    result: BatchResult,
    nonces: Seq<[u8; 32]>,
    outcome: Result<(), AccountError>,
    i: int,
)
    requires
        result.wf(),
        finalize_outcome(before, after, reserved, used, epoch_id, result, nonces, outcome),
        ({
            ||| 0 <= i < result.before().len() && value_of(before.applied, epoch_id) is None && !(
            value_of(before.records, result.before()[i].0) matches Some(record) && record.balance
                == result.before()[i].1)
            ||| 0 <= i < result.after().len() && value_of(before.applied, epoch_id) is Some && !(
            value_of(before.records, result.after()[i].0) matches Some(record)
                && record.last_epoch == epoch_id && record.balance == result.after()[i].1)
            ||| value_of(before.applied, epoch_id) matches Some(digest) && digest
                != settlement_digest_of(result)
            ||| epoch_id@ == zeros(32)
        }),
    ensures
        outcome is Err,
        after == before,
        used == reserved,
{
    if settlement_refusal(before, epoch_id, result) is None {
        if 0 <= i < result.before().len() && value_of(before.applied, epoch_id) is None {
            assert(accounts_current(before.records, result));
            assert(account_stands(
                before.records,
                result.before()[i].0,
                result.before()[i].1,
            ));
        } else if value_of(before.applied, epoch_id) is Some {
            assert(settlement_stands(before, epoch_id, result));
            if 0 <= i < result.after().len() {
                assert(account_settled(
                    before.records,
                    epoch_id,
                    result.after()[i].0,
                    result.after()[i].1,
                ));
            }
        }
    }
}

/// Reservations of an epoch that ended without a result are given back exactly where each is known, is of
/// that epoch, was not used, and no result was ever applied for it.
pub proof fn law_release_is_for_epochs_without_a_result(
    accounts: Accounts,
    before: Seq<([u8; 32], ReservationRecord)>,
    after: Seq<([u8; 32], ReservationRecord)>,
    epoch_id: [u8; 32],
    nonces: Seq<[u8; 32]>,
    outcome: Result<(), AccountError>,
)
    requires
        release_outcome(accounts, before, after, epoch_id, nonces, outcome),
    ensures
        outcome is Ok <==> value_of(accounts.applied, epoch_id) is None && (forall|i: int|
            0 <= i < nonces.len() ==> {
                &&& value_of(before, #[trigger] nonces[i]) matches Some(record) && record@.epoch_id
                    == epoch_id && record@.state != ReservationState::Used
            }),
        outcome is Ok ==> forall|i: int|
            0 <= i < nonces.len() ==> value_of(after, #[trigger] nonces[i]) is Some && value_of(
                after,
                nonces[i],
            ).unwrap()@.state == ReservationState::Released,
        outcome is Ok ==> forall|nonce: [u8; 32]|
            !nonces.contains(nonce) && value_of(before, nonce) is Some ==> (#[trigger] value_of(
                after,
                nonce,
            )) is Some && value_of(after, nonce).unwrap()@ == value_of(before, nonce).unwrap()@,
        outcome is Err ==> after == before,
{
    if outcome is Ok {
        assert forall|i: int| 0 <= i < nonces.len() implies {
            &&& value_of(before, #[trigger] nonces[i]) matches Some(record) && record@.epoch_id
                == epoch_id && record@.state != ReservationState::Used
        } && value_of(after, nonces[i]) is Some && value_of(after, nonces[i]).unwrap()@.state
            == ReservationState::Released by {
            assert(has_id(before, nonces[i]));
            assert(reservation_of(before, nonces[i]).epoch_id == epoch_id);
            assert(value_of(after, nonces[i]) is Some);
            assert(nonces.contains(nonces[i]));
        }
    }
    if value_of(accounts.applied, epoch_id) is None && (forall|i: int|
        0 <= i < nonces.len() ==> {
            &&& value_of(before, #[trigger] nonces[i]) matches Some(record) && record@.epoch_id
                == epoch_id && record@.state != ReservationState::Used
        }) {
        assert forall|i: int| 0 <= i < nonces.len() implies has_id(before, #[trigger] nonces[i])
            && reservation_of(before, nonces[i]).epoch_id == epoch_id && reservation_of(
            before,
            nonces[i],
        ).state != ReservationState::Used by {
            assert(value_of(before, nonces[i]) is Some);
        }
        assert(all_known(before, nonces));
        assert(releasable(before, epoch_id, nonces));
    }
}

/// The reservations of one epoch are either used or given back, never both: what was given back cannot
/// make a result final, and what a result used cannot be given back.
pub proof fn law_reservations_are_used_or_given_back(
    accounts: Accounts,
    settled: Accounts,
    first: Seq<([u8; 32], ReservationRecord)>,
    middle: Seq<([u8; 32], ReservationRecord)>,
    last: Seq<([u8; 32], ReservationRecord)>,
    epoch_id: [u8; 32],
    result: BatchResult,
    nonces: Seq<[u8; 32]>,
    outcome: Result<(), AccountError>,
)
    requires
        nonces.len() > 0,
        result.wf(),
    ensures
        release_outcome(accounts, first, middle, epoch_id, nonces, Ok(())) && finalize_outcome(
            accounts,
            settled,
            middle,
            last,
            epoch_id,
            result,
            nonces,
            outcome,
        ) ==> outcome is Err && settled == accounts && last == middle,
        finalize_outcome(
            accounts,
            settled,
            first,
            middle,
            epoch_id,
            result,
            nonces,
            Ok(()),
        ) && release_outcome(settled, middle, last, epoch_id, nonces, outcome) ==> outcome is Err
            && last == middle,
{
    let nonce = nonces[0];
    if release_outcome(accounts, first, middle, epoch_id, nonces, Ok(())) {
        assert(has_id(first, nonce));
        assert(value_of(first, nonce) is Some);
        assert(value_of(middle, nonce) is Some);
        assert(nonces.contains(nonce));
        assert(reservation_of(middle, nonces[0]).state == ReservationState::Released);
        if finalizable(middle, epoch_id, nonces, result.after()) {
            assert(crate::admission::finalizable_one(
                middle,
                epoch_id,
                nonces[0],
                result.after(),
            ));
        }
    }
    if finalize_outcome(accounts, settled, first, middle, epoch_id, result, nonces, Ok(())) {
        assert(has_id(first, nonce));
        assert(value_of(first, nonce) is Some);
        assert(value_of(middle, nonce) is Some);
        assert(nonces.contains(nonce));
        assert(reservation_of(middle, nonces[0]).state == ReservationState::Used);
    }
}

/// Making a result final twice is making it final once: the second time is accepted and finds
/// every account and every reservation as the first left it.
pub proof fn law_finalize_is_idempotent(
    before: Accounts,
    after: Accounts,
    reserved: Seq<([u8; 32], ReservationRecord)>,
    used: Seq<([u8; 32], ReservationRecord)>,
    epoch_id: [u8; 32],
    result: BatchResult,
    nonces: Seq<[u8; 32]>,
)
    requires
        accounts_wf(before),
        accounts_wf(after),
        reservations_wf(reserved),
        reservations_wf(used),
        result.wf(),
        finalize_refusal(before, reserved, epoch_id, result, nonces) is None,
        settlement_applied(before, after, epoch_id, result),
        states_set(reserved, used, nonces, ReservationState::Used),
    ensures
        finalize_refusal(after, used, epoch_id, result, nonces) is None,
        forall|again: Accounts| #[trigger]
            settlement_applied(after, again, epoch_id, result) ==> again == after,
        forall|again: Seq<([u8; 32], ReservationRecord)>|
            reservations_wf(again) && #[trigger] states_set(
                used,
                again,
                nonces,
                ReservationState::Used,
            ) ==> again == used,
{
    let members = result.after();
    assert forall|i: int| 0 <= i < nonces.len() implies has_id(used, #[trigger] nonces[i])
        && crate::admission::reservation_of(used, nonces[i]) == crate::admission::in_state(
        crate::admission::reservation_of(reserved, nonces[i]),
        ReservationState::Used,
    ) by {
        assert(has_id(reserved, nonces[i]));
        assert(value_of(reserved, nonces[i]) is Some);
        assert(value_of(used, nonces[i]) is Some);
        assert(nonces.contains(nonces[i]));
    }
    assert(all_known(used, nonces));
    assert(finalizable(used, epoch_id, nonces, members)) by {
        assert forall|i: int| 0 <= i < nonces.len() implies crate::admission::finalizable_one(
            used,
            epoch_id,
            #[trigger] nonces[i],
            members,
        ) by {
            assert(crate::admission::finalizable_one(reserved, epoch_id, nonces[i], members));
        }
    }
    assert(has_id(after.applied, epoch_id) && settlement_stands(after, epoch_id, result)) by {
        if !has_id(before.applied, epoch_id) {
            assert(value_of(after.applied, epoch_id) == Some(settlement_digest_of(result)));
            assert forall|i: int| 0 <= i < members.len() implies account_settled(
                after.records,
                epoch_id,
                (#[trigger] members[i]).0,
                members[i].1,
            ) by {
                lemma_value_at(members, i);
                assert(has_id(before.records, members[i].0));
                assert(value_of(after.records, members[i].0) == settled_account(
                    before.records,
                    epoch_id,
                    members,
                    members[i].0,
                ));
            }
        }
    }
    assert forall|i: int| 0 <= i < members.len() implies has_id(
        after.records,
        (#[trigger] members[i]).0,
    ) by {
        assert(account_settled(after.records, epoch_id, members[i].0, members[i].1));
    }
    assert forall|again: Seq<([u8; 32], ReservationRecord)>|
        reservations_wf(again) && #[trigger] states_set(
            used,
            again,
            nonces,
            ReservationState::Used,
        ) implies again == used by {
        assert forall|i: int| 0 <= i < used.len() implies value_of(again, (#[trigger] used[i]).0)
            == Some(used[i].1) by {
            lemma_value_at(used, i);
            let nonce = used[i].0;
            assert(value_of(again, nonce) is Some);
            if nonces.contains(nonce) {
                let k = choose|k: int| 0 <= k < nonces.len() && nonces[k] == nonce;
                assert(crate::admission::reservation_of(used, nonces[k]).state
                    == ReservationState::Used);
            }
            ReservationRecord::lemma_view_determines(
                value_of(again, nonce).unwrap(),
                used[i].1,
            );
        }
        lemma_entries_contained(used, again);
    }
}

/// A final result is found again after a restart: once it is final, and both journals are written
/// and opened again, every member has the settled balance and its epoch under the same trading key,
/// every other account stands as before, and every reservation of the batch is used. Making it final
/// again is accepted, and changes nothing.
pub proof fn law_final_result_survives_a_restart(
    before: Accounts,
    after: Accounts,
    reopened: Accounts,
    reserved: Seq<([u8; 32], ReservationRecord)>,
    used: Seq<([u8; 32], ReservationRecord)>,
    found: Seq<([u8; 32], ReservationRecord)>,
    epoch_id: [u8; 32],
    result: BatchResult,
    nonces: Seq<[u8; 32]>,
)
    requires
        accounts_storable(before),
        accounts_wf(after),
        reservations_wf(reserved),
        reservations_wf(used),
        result.wf(),
        settlement_digest_of(result)@ != zeros(32),
        finalize_refusal(before, reserved, epoch_id, result, nonces) is None,
        settlement_applied(before, after, epoch_id, result),
        states_set(reserved, used, nonces, ReservationState::Used),
        accounts_wf(reopened),
        account_file(sealed(accounts_payload(after))) matches Some((list, pairs)) ==> (
        holds_accounts(reopened.records, list) && holds_pairs(reopened.applied, pairs)),
        reservations_wf(found),
        reservation_file(sealed(reservation_payload(listed(used)))) matches Some(fields)
            ==> holds_all(found, fields),
    ensures
        account_file(sealed(accounts_payload(after))) is Some,
        reservation_file(sealed(reservation_payload(listed(used)))) is Some,
        reopened == after,
        found == used,
        forall|i: int|
            0 <= i < result.after().len() ==> {
                let id = (#[trigger] result.after()[i]).0;
                &&& account_settled(reopened.records, epoch_id, id, result.after()[i].1)
                &&& epoch_id@ != zeros(32)
                &&& value_of(reopened.records, id).unwrap().trading_key == value_of(
                    before.records,
                    id,
                ).unwrap().trading_key
            },
        forall|id: [u8; 32]|
            !has_id(result.after(), id) ==> #[trigger] value_of(reopened.records, id) == value_of(
                before.records,
                id,
            ),
        forall|i: int|
            0 <= i < nonces.len() ==> value_of(found, #[trigger] nonces[i]) is Some && value_of(
                found,
                nonces[i],
            ).unwrap()@.state == ReservationState::Used,
        finalize_refusal(reopened, found, epoch_id, result, nonces) is None,
        forall|again: Accounts| #[trigger]
            settlement_applied(reopened, again, epoch_id, result) ==> again == reopened,
{
    law_finalize_is_idempotent(before, after, reserved, used, epoch_id, result, nonces);
    lemma_settled_storable(before, after, epoch_id, result);
    law_accounts_survive_a_restart(after, reopened);
    crate::admission::law_reservations_survive_a_restart(used, found);
    let members = result.after();
    assert forall|i: int| 0 <= i < members.len() implies {
        let id = (#[trigger] members[i]).0;
        &&& account_settled(reopened.records, epoch_id, id, members[i].1)
        &&& value_of(reopened.records, id).unwrap().trading_key == value_of(
            before.records,
            id,
        ).unwrap().trading_key
    } by {
        let id = members[i].0;
        assert(has_id(before.records, id));
        if !has_id(before.applied, epoch_id) {
            lemma_value_at(members, i);
            assert(value_of(after.records, id) == settled_account(
                before.records,
                epoch_id,
                members,
                id,
            ));
        } else {
            assert(settlement_stands(before, epoch_id, result));
        }
    }
    assert forall|id: [u8; 32]| !has_id(members, id) implies #[trigger] value_of(
        reopened.records,
        id,
    ) == value_of(before.records, id) by {
        if !has_id(before.applied, epoch_id) {
            assert(value_of(after.records, id) == settled_account(
                before.records,
                epoch_id,
                members,
                id,
            ));
        }
    }
    assert forall|i: int| 0 <= i < nonces.len() implies value_of(found, #[trigger] nonces[i]) is Some
        && value_of(found, nonces[i]).unwrap()@.state == ReservationState::Used by {
        assert(has_id(reserved, nonces[i]));
        assert(value_of(reserved, nonces[i]) is Some);
        assert(value_of(used, nonces[i]) is Some);
        assert(nonces.contains(nonces[i]));
    }
}

/// An account file counts and names its accounts, no participant twice and each of them valid, and the
/// epochs whose results were applied, no epoch twice and neither an epoch nor a digest of zeros. Nothing
/// else is such a file.
pub proof fn law_account_files_are_exact(
    bytes: Seq<u8>,
    list: Seq<AccountRecord>,
    pairs: Seq<([u8; 32], [u8; 32])>,
)
    ensures
        account_file(bytes) == Some((list, pairs)) <==> {
            &&& list.len() <= u32::MAX
            &&& pairs.len() <= u32::MAX
            &&& forall|i: int, j: int|
                0 <= i < j < list.len() ==> (#[trigger] list[i]).participant_id != (
                #[trigger] list[j]).participant_id
            &&& forall|i: int| 0 <= i < list.len() ==> AccountRecord::valid(#[trigger] list[i])
            &&& forall|i: int, j: int|
                0 <= i < j < pairs.len() ==> (#[trigger] pairs[i]).0 != (#[trigger] pairs[j]).0
            &&& forall|i: int|
                0 <= i < pairs.len() ==> (#[trigger] pairs[i]).0@ != zeros(32) && pairs[i].1@
                    != zeros(32)
            &&& bytes == sealed(
                account_header() + spec_u32_to_le_bytes(list.len() as u32) + spec_u32_to_le_bytes(
                    pairs.len() as u32,
                ) + encode_all::<AccountRecord>(list) + encode_all::<IdPair>(pairs),
            )
        },
{
    lemma_auto_spec_u32_to_from_le_bytes();
    let accounts = spec_u32_to_le_bytes(list.len() as u32);
    let epochs = spec_u32_to_le_bytes(pairs.len() as u32);
    if account_file(bytes) == Some((list, pairs)) {
        let payload = unsealed(bytes).unwrap();
        let split = 16 + spec_u32_from_le_bytes(payload.subrange(8, 12)) as int * 112;
        lemma_seal(bytes, payload);
        lemma_encode_parse_all::<AccountRecord>(payload.subrange(16, split));
        lemma_encode_parse_all::<IdPair>(payload.skip(split));
        lemma_encode_all_len::<AccountRecord>(list);
        lemma_encode_all_len::<IdPair>(pairs);
        assert(payload.subrange(8, 12) =~= accounts);
        assert(payload.subrange(12, 16) =~= epochs);
        assert(payload =~= payload.take(8) + payload.subrange(8, 12) + payload.subrange(12, 16)
            + payload.subrange(16, split) + payload.skip(split));
    }
    if list.len() <= u32::MAX && pairs.len() <= u32::MAX && accounts_distinct(list)
        && pairs_distinct(pairs) && pairs_nonzero(pairs) && (forall|i: int|
        0 <= i < list.len() ==> AccountRecord::valid(#[trigger] list[i])) {
        let payload = account_header() + accounts + epochs + encode_all::<AccountRecord>(list)
            + encode_all::<IdPair>(pairs);
        let split = 16 + list.len() as int * 112;
        lemma_seal(sealed(payload), payload);
        lemma_encode_all_len::<AccountRecord>(list);
        lemma_encode_all_len::<IdPair>(pairs);
        lemma_parse_encode_all::<AccountRecord>(list);
        lemma_parse_encode_all::<IdPair>(pairs);
        assert(payload.take(8) =~= account_header());
        assert(payload.subrange(8, 12) =~= accounts);
        assert(payload.subrange(12, 16) =~= epochs);
        assert(payload.subrange(16, split) =~= encode_all::<AccountRecord>(list));
        assert(payload.skip(split) =~= encode_all::<IdPair>(pairs));
    }
}

} // verus!
