//! A keyper's journal of the locks that it signed.

use crate::bytes::{append, same_array, same_bytes};
use crate::codec::{
    collect_pairs, encode_all, holds_pairs, lemma_pairs_listed, lemma_parse_encode_all, lemma_seal,
    list_pairs, pairs_distinct, parse_all, read_all, seal, sealed, unseal, unsealed, write_all,
    IdPair,
};
use crate::idmap::{ids_sorted, value_of, IdMap};
use crate::snapshot::LockValidationError;
use vstd::bytes::{
    lemma_auto_spec_u32_to_from_le_bytes, spec_u32_from_le_bytes, spec_u32_to_le_bytes,
    u32_from_le_bytes, u32_to_le_bytes,
};
use vstd::prelude::*;
use vstd::slice::slice_subrange;

verus! {

/// The header of a journal file: `KGBLCK1` and a zero byte.
pub open spec fn journal_header() -> Seq<u8> {
    seq![75u8, 71u8, 66u8, 76u8, 67u8, 75u8, 49u8, 0u8]
}

/// The header of the file that marks a journal as initialized: `KGBINI1` and a zero byte.
pub open spec fn marker_header() -> Seq<u8> {
    seq![75u8, 71u8, 66u8, 73u8, 78u8, 73u8, 49u8, 0u8]
}

/// The payload of a journal file.
pub open spec fn journal_payload(entries: Seq<([u8; 32], [u8; 32])>) -> Seq<u8> {
    journal_header() + spec_u32_to_le_bytes(entries.len() as u32) + encode_all::<IdPair>(entries)
}

/// The pairs of epoch and digest that a journal file lists, where it is one.
pub open spec fn journal_file(bytes: Seq<u8>) -> Option<Seq<([u8; 32], [u8; 32])>> {
    match unsealed(bytes) {
        Some(payload) => if payload.len() >= 12 && payload.take(8) == journal_header() {
            match parse_all::<IdPair>(payload.skip(12)) {
                Some(pairs) => if spec_u32_from_le_bytes(payload.subrange(8, 12)) == pairs.len()
                    && pairs_distinct(pairs) {
                    Some(pairs)
                } else {
                    None
                },
                None => None,
            }
        } else {
            None
        },
        None => None,
    }
}

/// The digests of the locks that a keyper signed, one for each epoch.
pub struct LockJournal {
    records: IdMap<[u8; 32]>,
}

impl View for LockJournal {
    type V = Seq<([u8; 32], [u8; 32])>;

    closed spec fn view(&self) -> Seq<([u8; 32], [u8; 32])> {
        self.records@
    }
}

/// What becomes of a journal, and what is answered, where the digest of an epoch's lock is recorded.
pub open spec fn lock_recorded(
    before: Seq<([u8; 32], [u8; 32])>,
    after: Seq<([u8; 32], [u8; 32])>,
    epoch: [u8; 32],
    digest: [u8; 32],
    outcome: Result<(), LockValidationError>,
) -> bool {
    match value_of(before, epoch) {
        Some(existing) => after == before && outcome == (if existing == digest {
            Ok::<(), _>(())
        } else {
            Err(LockValidationError::ConflictingLock)
        }),
        None => {
            &&& outcome is Ok
            &&& after.len() == before.len() + 1
            &&& forall|id: [u8; 32]| #[trigger]
                value_of(after, id) == (if id == epoch {
                    Some(digest)
                } else {
                    value_of(before, id)
                })
        },
    }
}

impl LockJournal {
    /// Epochs stand in order, each once.
    pub open spec fn wf(&self) -> bool {
        ids_sorted(self@)
    }

    /// Opens a journal from the contents of its file and of its marker. Where neither exists the
    /// journal is new; where one is missing, or either is not what it should be, it is corrupt.
    pub fn open(file: Option<&[u8]>, marker: Option<&[u8]>) -> (journal: Result<
        Self,
        LockValidationError,
    >)
        ensures
            match journal {
                Ok(journal) => journal.wf() && match (file, marker) {
                    (None, None) => journal@.len() == 0,
                    (Some(bytes), Some(marker)) => marker@ == sealed(marker_header()) && (
                    journal_file(bytes@) matches Some(pairs) && holds_pairs(journal@, pairs)),
                    _ => false,
                },
                Err(error) => error == LockValidationError::CorruptJournal && match (file, marker) {
                    (None, None) => false,
                    (Some(bytes), Some(marker)) => marker@ != sealed(marker_header())
                        || journal_file(bytes@) is None,
                    _ => true,
                },
            },
    {
        let (bytes, marker) = match (file, marker) {
            (None, None) => {
                return Ok(LockJournal { records: IdMap::new() });
            },
            (Some(bytes), Some(marker)) => (bytes, marker),
            _ => {
                return Err(LockValidationError::CorruptJournal);
            },
        };
        let expected = Self::initialization_marker();
        if !same_bytes(marker, expected.as_slice()) {
            return Err(LockValidationError::CorruptJournal);
        }
        let payload = match unseal(bytes) {
            Some(payload) => payload,
            None => {
                return Err(LockValidationError::CorruptJournal);
            },
        };
        if payload.len() < 12 {
            return Err(LockValidationError::CorruptJournal);
        }
        let header: [u8; 8] = [75u8, 71u8, 66u8, 76u8, 67u8, 75u8, 49u8, 0u8];
        assert(header@ =~= journal_header());
        let head = slice_subrange(payload, 0, 8);
        assert(head@ =~= payload@.take(8));
        if !same_bytes(head, header.as_slice()) {
            return Err(LockValidationError::CorruptJournal);
        }
        let count: u64 = u32_from_le_bytes(slice_subrange(payload, 8, 12)) as u64;
        let rest = slice_subrange(payload, 12, payload.len());
        assert(rest@ =~= payload@.skip(12));
        let pairs = match read_all::<IdPair>(rest) {
            Some(pairs) => pairs,
            None => {
                return Err(LockValidationError::CorruptJournal);
            },
        };
        if count != pairs.len() as u64 {
            return Err(LockValidationError::CorruptJournal);
        }
        match collect_pairs(pairs.as_slice()) {
            Some(records) => Ok(LockJournal { records }),
            None => Err(LockValidationError::CorruptJournal),
        }
    }

    /// The contents of the file that marks a journal as initialized.
    pub fn initialization_marker() -> (bytes: Vec<u8>)
        ensures
            bytes@ == sealed(marker_header()),
    {
        let header: [u8; 8] = [75u8, 71u8, 66u8, 73u8, 78u8, 73u8, 49u8, 0u8];
        assert(header@ =~= marker_header());
        let mut bytes: Vec<u8> = Vec::new();
        append(&mut bytes, header.as_slice());
        assert(bytes@ =~= marker_header());
        seal(bytes)
    }

    /// The contents of the journal's file; more records than a file can count are refused.
    pub fn encode(&self) -> (bytes: Result<Vec<u8>, LockValidationError>)
        ensures
            match bytes {
                Ok(bytes) => self@.len() <= u32::MAX && bytes@ == sealed(journal_payload(self@)),
                Err(error) => error == LockValidationError::CorruptJournal && self@.len()
                    > u32::MAX,
            },
    {
        if self.records.len() > u32::MAX as usize {
            return Err(LockValidationError::CorruptJournal);
        }
        let header: [u8; 8] = [75u8, 71u8, 66u8, 76u8, 67u8, 75u8, 49u8, 0u8];
        assert(header@ =~= journal_header());
        let mut bytes: Vec<u8> = Vec::new();
        append(&mut bytes, header.as_slice());
        append(&mut bytes, u32_to_le_bytes(self.records.len() as u32).as_slice());
        let pairs = list_pairs(&self.records);
        write_all::<IdPair>(&mut bytes, pairs.as_slice());
        assert(bytes@ =~= journal_payload(self@));
        Ok(seal(bytes))
    }

    /// The digest of the lock that was signed for an epoch.
    pub fn digest(&self, epoch: [u8; 32]) -> (digest: Option<[u8; 32]>)
        requires
            self.wf(),
        ensures
            digest == value_of(self@, epoch),
    {
        self.records.get(&epoch)
    }

    /// Records the digest of a lock. The same digest may be recorded again; another digest for the
    /// epoch is refused, and leaves the journal as it was.
    pub fn record(&mut self, epoch: [u8; 32], digest: [u8; 32]) -> (outcome: Result<
        (),
        LockValidationError,
    >)
        requires
            old(self).wf(),
        ensures
            final(self).wf(),
            lock_recorded(old(self)@, final(self)@, epoch, digest, outcome),
    {
        match self.records.get(&epoch) {
            Some(existing) => if same_array(&existing, &digest) {
                Ok(())
            } else {
                Err(LockValidationError::ConflictingLock)
            },
            None => {
                self.records.insert(epoch, digest);
                Ok(())
            },
        }
    }
}

/// A journal comes back from its file: the digests that a keyper signed survive a restart.
pub proof fn law_locks_survive_a_restart(
    entries: Seq<([u8; 32], [u8; 32])>,
    reopened: Seq<([u8; 32], [u8; 32])>,
)
    requires
        ids_sorted(entries),
        ids_sorted(reopened),
        entries.len() <= u32::MAX,
    ensures
        journal_file(sealed(journal_payload(entries))) == Some(entries),
        holds_pairs(reopened, entries) ==> reopened == entries,
{
    lemma_auto_spec_u32_to_from_le_bytes();
    let payload = journal_payload(entries);
    lemma_seal(sealed(payload), payload);
    lemma_parse_encode_all::<IdPair>(entries);
    lemma_pairs_listed(entries, reopened);
    assert(payload.take(8) =~= journal_header());
    assert(payload.subrange(8, 12) =~= spec_u32_to_le_bytes(entries.len() as u32));
    assert(payload.skip(12) =~= encode_all::<IdPair>(entries));
}

/// An epoch keeps the lock that was recorded first: recording it again changes nothing, another one is
/// refused and changes nothing, and the locks of other epochs are recorded beside it.
pub proof fn law_epoch_keeps_its_lock(
    before: Seq<([u8; 32], [u8; 32])>,
    after: Seq<([u8; 32], [u8; 32])>,
    later: Seq<([u8; 32], [u8; 32])>,
    epoch: [u8; 32],
    digest: [u8; 32],
    first: Result<(), LockValidationError>,
    other_epoch: [u8; 32],
    other_digest: [u8; 32],
    second: Result<(), LockValidationError>,
)
    requires
        lock_recorded(before, after, epoch, digest, first),
        first is Ok,
        lock_recorded(after, later, other_epoch, other_digest, second),
    ensures
        value_of(after, epoch) == Some(digest),
        value_of(later, epoch) == Some(digest),
        other_epoch == epoch ==> later == after && (second is Ok <==> other_digest == digest),
        other_epoch == epoch && other_digest != digest ==> second == Err::<(), _>(
            LockValidationError::ConflictingLock,
        ),
        other_epoch != epoch && value_of(before, other_epoch) is None ==> second is Ok && value_of(
            later,
            other_epoch,
        ) == Some(other_digest),
        other_epoch != epoch && value_of(before, other_epoch) is Some ==> later == after && value_of(
            later,
            other_epoch,
        ) == value_of(before, other_epoch),
{
    assert(value_of(after, epoch) == Some(digest));
    assert(value_of(after, other_epoch) == value_of(after, other_epoch));
    assert(value_of(later, epoch) == value_of(later, epoch));
    assert(value_of(later, other_epoch) == value_of(later, other_epoch));
}

/// A journal's file counts and names its locks, no epoch twice, and nothing else is one.
pub proof fn law_lock_files_are_exact(bytes: Seq<u8>, pairs: Seq<([u8; 32], [u8; 32])>)
    ensures
        journal_file(bytes) == Some(pairs) ==> bytes == sealed(journal_payload(pairs))
            && pairs_distinct(pairs) && pairs.len() <= u32::MAX,
        pairs.len() <= u32::MAX && (forall|i: int, j: int|
            0 <= i < j < pairs.len() ==> (#[trigger] pairs[i]).0 != (#[trigger] pairs[j]).0)
            ==> journal_file(sealed(journal_payload(pairs))) == Some(pairs),
{
    lemma_auto_spec_u32_to_from_le_bytes();
    if journal_file(bytes) == Some(pairs) {
        let payload = unsealed(bytes).unwrap();
        lemma_seal(bytes, payload);
        crate::codec::lemma_encode_parse_all::<IdPair>(payload.skip(12));
        assert(payload.subrange(8, 12) =~= spec_u32_to_le_bytes(pairs.len() as u32));
        assert(payload =~= payload.take(8) + payload.subrange(8, 12) + payload.skip(12));
    }
    if pairs.len() <= u32::MAX {
        let payload = journal_payload(pairs);
        lemma_seal(sealed(payload), payload);
        lemma_parse_encode_all::<IdPair>(pairs);
        assert(payload.take(8) =~= journal_header());
        assert(payload.subrange(8, 12) =~= spec_u32_to_le_bytes(pairs.len() as u32));
        assert(payload.skip(12) =~= encode_all::<IdPair>(pairs));
    }
}

} // verus!
