//! Reservations: the funds that back an order, and the journal that remembers them.

use crate::bytes::{append, is_zero, read_array, same_array, same_bytes, zero_id, zeros};
use crate::codec::{
    encode_all, lemma_encode_parse_all, lemma_parse_encode_all, lemma_seal, lemma_views_push,
    parse_all, read_all, seal, sealed, unseal, unsealed, views, write_all, Entry,
};
use crate::idmap::{
    has_id, ids_sorted, lemma_entries_contained, lemma_value_at, value_of, IdMap,
};
use crate::ledger::PoolBalance;
use vstd::bytes::{
    lemma_auto_spec_u32_to_from_le_bytes, lemma_auto_spec_u64_to_from_le_bytes,
    spec_u32_from_le_bytes, spec_u32_to_le_bytes, spec_u64_from_le_bytes, spec_u64_to_le_bytes,
    u32_from_le_bytes, u32_to_le_bytes, u64_from_le_bytes, u64_to_le_bytes,
};
use vstd::prelude::*;
use vstd::slice::slice_subrange;

verus! {

/// What has become of a reservation.
#[derive(Clone, Copy, Debug, PartialEq, Eq, Structural)]
pub enum ReservationState {
    Reserved,
    Used,
    Released,
}

impl ReservationState {
    /// The byte that stands for a state.
    pub open spec fn code(self) -> u8 {
        match self {
            ReservationState::Reserved => 1,
            ReservationState::Used => 2,
            ReservationState::Released => 3,
        }
    }

    pub fn to_code(self) -> (code: u8)
        ensures
            code == self.code(),
    {
        match self {
            ReservationState::Reserved => 1,
            ReservationState::Used => 2,
            ReservationState::Released => 3,
        }
    }

    /// The state that a byte stands for.
    pub fn from_code(value: u8) -> (state: Result<Self, JournalError>)
        ensures
            match state {
                Ok(state) => value == state.code(),
                Err(error) => error == JournalError::Corrupt && (value == 0 || value > 3),
            },
    {
        match value {
            1 => Ok(ReservationState::Reserved),
            2 => Ok(ReservationState::Used),
            3 => Ok(ReservationState::Released),
            _ => Err(JournalError::Corrupt),
        }
    }
}

#[derive(Clone, Copy, Debug, PartialEq, Eq, Structural)]
pub enum JournalError {
    Corrupt,
    DuplicateNonce,
    UnknownNonce,
    InvalidTransition,
    InvalidAmount,
    InsufficientBalance,
    ArithmeticOverflow,
}

/// What a reservation says. The zero epoch stands for a reservation that is bound to none.
pub struct ReservationFields {
    pub nonce: [u8; 32],
    pub epoch_id: [u8; 32],
    pub participant_id: [u8; 32],
    pub base_atoms: u64,
    pub quote_atoms: u64,
    pub state: ReservationState,
}

/// Whether both sides are funded.
pub open spec fn reservation_valid(fields: ReservationFields) -> bool {
    fields.base_atoms != 0 && fields.quote_atoms != 0
}

/// Whether a reservation belongs to no epoch in particular.
pub open spec fn unbound(fields: ReservationFields) -> bool {
    fields.epoch_id@ == zeros(32)
}

/// A reservation of both sides of one lot.
#[derive(Clone, Copy, Debug, PartialEq, Eq)]
pub struct ReservationRecord {
    nonce: [u8; 32],
    epoch_id: [u8; 32],
    participant_id: [u8; 32],
    base_atoms: u64,
    quote_atoms: u64,
    state: ReservationState,
}

impl View for ReservationRecord {
    type V = ReservationFields;

    closed spec fn view(&self) -> ReservationFields {
        ReservationFields {
            nonce: self.nonce,
            epoch_id: self.epoch_id,
            participant_id: self.participant_id,
            base_atoms: self.base_atoms,
            quote_atoms: self.quote_atoms,
            state: self.state,
        }
    }
}

impl ReservationRecord {
    /// Every reservation that exists has both sides funded.
    pub open spec fn wf(&self) -> bool {
        reservation_valid(self@)
    }

    /// Reservations that say the same are the same.
    pub proof fn lemma_view_determines(a: Self, b: Self)
        requires
            a@ == b@,
        ensures
            a == b,
    {
    }

    /// A new reservation that is bound to no epoch; a zero amount on either side is refused.
    pub fn new(
        nonce: [u8; 32],
        participant_id: [u8; 32],
        base_atoms: u64,
        quote_atoms: u64,
    ) -> (record: Result<Self, JournalError>)
        ensures
            match record {
                Ok(record) => {
                    &&& record.wf()
                    &&& unbound(record@)
                    &&& record@.nonce == nonce
                    &&& record@.participant_id == participant_id
                    &&& record@.base_atoms == base_atoms
                    &&& record@.quote_atoms == quote_atoms
                    &&& record@.state == ReservationState::Reserved
                },
                Err(error) => error == JournalError::InvalidAmount && (base_atoms == 0
                    || quote_atoms == 0),
            },
    {
        let epoch_id: [u8; 32] = zero_id();
        Self::for_epoch(nonce, epoch_id, participant_id, base_atoms, quote_atoms)
    }

    /// A new reservation for one epoch; a zero amount on either side is refused.
    pub fn for_epoch(
        nonce: [u8; 32],
        epoch_id: [u8; 32],
        participant_id: [u8; 32],
        base_atoms: u64,
        quote_atoms: u64,
    ) -> (record: Result<Self, JournalError>)
        ensures
            match record {
                Ok(record) => record.wf() && record@ == (ReservationFields {
                    nonce,
                    epoch_id,
                    participant_id,
                    base_atoms,
                    quote_atoms,
                    state: ReservationState::Reserved,
                }),
                Err(error) => error == JournalError::InvalidAmount && (base_atoms == 0
                    || quote_atoms == 0),
            },
    {
        if base_atoms == 0 || quote_atoms == 0 {
            return Err(JournalError::InvalidAmount);
        }
        Ok(
            ReservationRecord {
                nonce,
                epoch_id,
                participant_id,
                base_atoms,
                quote_atoms,
                state: ReservationState::Reserved,
            },
        )
    }
}

/// The part of a record that both layouts share.
pub open spec fn reservation_tail(fields: ReservationFields) -> Seq<u8> {
    fields.participant_id@ + spec_u64_to_le_bytes(fields.base_atoms) + spec_u64_to_le_bytes(
        fields.quote_atoms,
    ) + seq![fields.state.code()]
}

proof fn lemma_reservation_tail(a: ReservationFields, b: ReservationFields)
    ensures
        reservation_tail(a).len() == 49,
        reservation_tail(a) == reservation_tail(b) ==> a.participant_id == b.participant_id
            && a.base_atoms == b.base_atoms && a.quote_atoms == b.quote_atoms && a.state == b.state,
{
    lemma_auto_spec_u64_to_from_le_bytes();
    if reservation_tail(a) == reservation_tail(b) {
        let t = reservation_tail(a);
        let u = reservation_tail(b);
        assert(t.subrange(0, 32) =~= a.participant_id@);
        assert(u.subrange(0, 32) =~= b.participant_id@);
        assert(t.subrange(32, 40) =~= spec_u64_to_le_bytes(a.base_atoms));
        assert(u.subrange(32, 40) =~= spec_u64_to_le_bytes(b.base_atoms));
        assert(t.subrange(40, 48) =~= spec_u64_to_le_bytes(a.quote_atoms));
        assert(u.subrange(40, 48) =~= spec_u64_to_le_bytes(b.quote_atoms));
        assert(t[48] == a.state.code());
        assert(u[48] == b.state.code());
        assert(a.participant_id =~= b.participant_id);
        assert(spec_u64_from_le_bytes(spec_u64_to_le_bytes(a.base_atoms)) == a.base_atoms);
        assert(spec_u64_from_le_bytes(spec_u64_to_le_bytes(b.base_atoms)) == b.base_atoms);
        assert(spec_u64_from_le_bytes(spec_u64_to_le_bytes(a.quote_atoms)) == a.quote_atoms);
        assert(spec_u64_from_le_bytes(spec_u64_to_le_bytes(b.quote_atoms)) == b.quote_atoms);
    }
}

fn write_tail(record: &ReservationRecord, out: &mut Vec<u8>)
    ensures
        final(out)@ == old(out)@ + reservation_tail(record@),
{
    append(out, record.participant_id.as_slice());
    append(out, u64_to_le_bytes(record.base_atoms).as_slice());
    append(out, u64_to_le_bytes(record.quote_atoms).as_slice());
    out.push(record.state.to_code());
    assert(out@ =~= old(out)@ + reservation_tail(record@));
}

/// Reads the shared part; the nonce and the epoch are those given.
fn read_tail(bytes: &[u8], nonce: [u8; 32], epoch_id: [u8; 32]) -> (record: Option<
    ReservationRecord,
>)
    requires
        bytes@.len() == 49,
    ensures
        match record {
            Some(record) => record.wf() && record@.nonce == nonce && record@.epoch_id == epoch_id
                && bytes@ == reservation_tail(record@),
            None => forall|fields: ReservationFields|
                reservation_valid(fields) ==> bytes@ != #[trigger] reservation_tail(fields),
        },
{
    let participant_id: [u8; 32] = read_array::<32>(bytes, 0);
    let base_atoms: u64 = u64_from_le_bytes(slice_subrange(bytes, 32, 40));
    let quote_atoms: u64 = u64_from_le_bytes(slice_subrange(bytes, 40, 48));
    proof {
        lemma_auto_spec_u64_to_from_le_bytes();
        assert forall|fields: ReservationFields| bytes@ == #[trigger] reservation_tail(
            fields,
        ) implies fields.base_atoms == base_atoms && fields.quote_atoms == quote_atoms
            && bytes@[48] == fields.state.code() by {
            let t = reservation_tail(fields);
            assert(t.subrange(32, 40) =~= spec_u64_to_le_bytes(fields.base_atoms));
            assert(t.subrange(40, 48) =~= spec_u64_to_le_bytes(fields.quote_atoms));
            assert(t[48] == fields.state.code());
            assert(spec_u64_from_le_bytes(spec_u64_to_le_bytes(fields.base_atoms))
                == fields.base_atoms);
            assert(spec_u64_from_le_bytes(spec_u64_to_le_bytes(fields.quote_atoms))
                == fields.quote_atoms);
        }
    }
    let state = match ReservationState::from_code(bytes[48]) {
        Ok(state) => state,
        Err(_) => {
            return None;
        },
    };
    if base_atoms == 0 || quote_atoms == 0 {
        return None;
    }
    let record = ReservationRecord {
        nonce,
        epoch_id,
        participant_id,
        base_atoms,
        quote_atoms,
        state,
    };
    assert(bytes@ =~= reservation_tail(record@));
    Some(record)
}

/// A record in the layout without an epoch.
#[derive(Clone, Copy)]
pub struct UnboundReservation {
    pub record: ReservationRecord,
}

impl View for UnboundReservation {
    type V = ReservationFields;

    open spec fn view(&self) -> ReservationFields {
        self.record@
    }
}

impl Entry for UnboundReservation {
    open spec fn width() -> nat {
        81
    }

    open spec fn valid(value: ReservationFields) -> bool {
        reservation_valid(value) && unbound(value)
    }

    open spec fn encoded(value: ReservationFields) -> Seq<u8> {
        value.nonce@ + reservation_tail(value)
    }

    proof fn lemma_encoded(a: ReservationFields, b: ReservationFields) {
        lemma_reservation_tail(a, b);
        lemma_reservation_tail(b, a);
        if Self::encoded(a) == Self::encoded(b) && unbound(a) && unbound(b) {
            let x = Self::encoded(a);
            let y = Self::encoded(b);
            assert(x.take(32) =~= a.nonce@);
            assert(y.take(32) =~= b.nonce@);
            assert(x.skip(32) =~= reservation_tail(a));
            assert(y.skip(32) =~= reservation_tail(b));
            assert(a.nonce =~= b.nonce);
            assert(a.epoch_id =~= b.epoch_id);
        }
    }

    fn size() -> (size: usize) {
        81
    }

    fn parse(bytes: &[u8]) -> (record: Option<Self>) {
        let nonce: [u8; 32] = read_array::<32>(bytes, 0);
        let epoch_id: [u8; 32] = zero_id();
        let tail = slice_subrange(bytes, 32, 81);
        let ghost all = bytes@;
        proof {
            assert forall|value: ReservationFields| all == #[trigger] Self::encoded(
                value,
            ) implies tail@ == reservation_tail(value) by {
                lemma_reservation_tail(value, value);
                assert(Self::encoded(value).skip(32) =~= reservation_tail(value));
                assert(tail@ =~= all.skip(32));
            }
        }
        match read_tail(tail, nonce, epoch_id) {
            Some(record) => {
                assert(bytes@ =~= Self::encoded(record@));
                Some(UnboundReservation { record })
            },
            None => None,
        }
    }

    fn write(&self, out: &mut Vec<u8>) {
        append(out, self.record.nonce.as_slice());
        write_tail(&self.record, out);
        assert(out@ =~= old(out)@ + Self::encoded(self@));
    }
}

/// A record in the layout with an epoch.
#[derive(Clone, Copy)]
pub struct BoundReservation {
    pub record: ReservationRecord,
}

impl View for BoundReservation {
    type V = ReservationFields;

    open spec fn view(&self) -> ReservationFields {
        self.record@
    }
}

impl Entry for BoundReservation {
    open spec fn width() -> nat {
        113
    }

    open spec fn valid(value: ReservationFields) -> bool {
        reservation_valid(value)
    }

    open spec fn encoded(value: ReservationFields) -> Seq<u8> {
        value.nonce@ + value.epoch_id@ + reservation_tail(value)
    }

    proof fn lemma_encoded(a: ReservationFields, b: ReservationFields) {
        lemma_reservation_tail(a, b);
        lemma_reservation_tail(b, a);
        if Self::encoded(a) == Self::encoded(b) {
            let x = Self::encoded(a);
            let y = Self::encoded(b);
            assert(x.take(32) =~= a.nonce@);
            assert(y.take(32) =~= b.nonce@);
            assert(x.subrange(32, 64) =~= a.epoch_id@);
            assert(y.subrange(32, 64) =~= b.epoch_id@);
            assert(x.skip(64) =~= reservation_tail(a));
            assert(y.skip(64) =~= reservation_tail(b));
            assert(a.nonce =~= b.nonce);
            assert(a.epoch_id =~= b.epoch_id);
        }
    }

    fn size() -> (size: usize) {
        113
    }

    fn parse(bytes: &[u8]) -> (record: Option<Self>) {
        let nonce: [u8; 32] = read_array::<32>(bytes, 0);
        let epoch_id: [u8; 32] = read_array::<32>(bytes, 32);
        let tail = slice_subrange(bytes, 64, 113);
        let ghost all = bytes@;
        proof {
            assert forall|value: ReservationFields| all == #[trigger] Self::encoded(
                value,
            ) implies tail@ == reservation_tail(value) by {
                lemma_reservation_tail(value, value);
                assert(Self::encoded(value).skip(64) =~= reservation_tail(value));
                assert(tail@ =~= all.skip(64));
            }
        }
        match read_tail(tail, nonce, epoch_id) {
            Some(record) => {
                assert(bytes@ =~= Self::encoded(record@));
                Some(BoundReservation { record })
            },
            None => None,
        }
    }

    fn write(&self, out: &mut Vec<u8>) {
        append(out, self.record.nonce.as_slice());
        append(out, self.record.epoch_id.as_slice());
        write_tail(&self.record, out);
        assert(out@ =~= old(out)@ + Self::encoded(self@));
    }
}

/// Capability returned only after its backing reservation is recorded.
#[derive(Debug, PartialEq, Eq)]
pub struct UnsignedFundedAuthorizationV1 {
    nonce: [u8; 32],
    participant_id: [u8; 32],
    base_atoms: u64,
    quote_atoms: u64,
}

/// What a recorded reservation allows its participant to ask for.
pub struct AuthorizationFields {
    pub nonce: [u8; 32],
    pub participant_id: [u8; 32],
    pub base_atoms: u64,
    pub quote_atoms: u64,
}

impl View for UnsignedFundedAuthorizationV1 {
    type V = AuthorizationFields;

    closed spec fn view(&self) -> AuthorizationFields {
        AuthorizationFields {
            nonce: self.nonce,
            participant_id: self.participant_id,
            base_atoms: self.base_atoms,
            quote_atoms: self.quote_atoms,
        }
    }
}

impl UnsignedFundedAuthorizationV1 {
    pub fn nonce(&self) -> (nonce: [u8; 32])
        ensures
            nonce == self@.nonce,
    {
        self.nonce
    }

    pub fn participant_id(&self) -> (participant_id: [u8; 32])
        ensures
            participant_id == self@.participant_id,
    {
        self.participant_id
    }

    /// Gives the capability up for its nonce, participant, base atoms and quote atoms.
    pub fn into_parts(self) -> (parts: ([u8; 32], [u8; 32], u64, u64))
        ensures
            parts == (
                self@.nonce,
                self@.participant_id,
                self@.base_atoms,
                self@.quote_atoms,
            ),
    {
        (self.nonce, self.participant_id, self.base_atoms, self.quote_atoms)
    }
}

/// A capability together with the digest of the ciphertext that it will carry.
#[derive(Debug, PartialEq, Eq)]
pub struct SubmissionV1 {
    authorization: UnsignedFundedAuthorizationV1,
    ciphertext_hash: [u8; 32],
}

impl SubmissionV1 {
    /// The capability inside.
    pub closed spec fn authorized(&self) -> AuthorizationFields {
        self.authorization@
    }

    /// The digest inside.
    pub closed spec fn hash(&self) -> [u8; 32] {
        self.ciphertext_hash
    }

    pub fn new(authorization: UnsignedFundedAuthorizationV1, ciphertext_hash: [u8; 32]) -> (
        submission: Self)
        ensures
            submission.authorized() == authorization@,
            submission.hash() == ciphertext_hash,
    {
        SubmissionV1 { authorization, ciphertext_hash }
    }

    pub fn ciphertext_hash(&self) -> (hash: [u8; 32])
        ensures
            hash == self.hash(),
    {
        self.ciphertext_hash
    }
}

/// Whether a reservation still holds funds of a participant.
pub open spec fn holds_for(fields: ReservationFields, participant_id: [u8; 32]) -> bool {
    fields.participant_id == participant_id && fields.state == ReservationState::Reserved
}

/// The base atoms that are reserved for a participant.
pub open spec fn reserved_base(
    entries: Seq<([u8; 32], ReservationRecord)>,
    participant_id: [u8; 32],
) -> int
    decreases entries.len(),
{
    if entries.len() == 0 {
        0
    } else {
        reserved_base(entries.drop_last(), participant_id) + if holds_for(
            entries.last().1@,
            participant_id,
        ) {
            entries.last().1@.base_atoms as int
        } else {
            0
        }
    }
}

/// The quote atoms that are reserved for a participant.
pub open spec fn reserved_quote(
    entries: Seq<([u8; 32], ReservationRecord)>,
    participant_id: [u8; 32],
) -> int
    decreases entries.len(),
{
    if entries.len() == 0 {
        0
    } else {
        reserved_quote(entries.drop_last(), participant_id) + if holds_for(
            entries.last().1@,
            participant_id,
        ) {
            entries.last().1@.quote_atoms as int
        } else {
            0
        }
    }
}

proof fn lemma_reserved_monotone(
    entries: Seq<([u8; 32], ReservationRecord)>,
    participant_id: [u8; 32],
    n: int,
)
    requires
        0 <= n <= entries.len(),
    ensures
        0 <= reserved_base(entries.take(n), participant_id) <= reserved_base(
            entries,
            participant_id,
        ),
        0 <= reserved_quote(entries.take(n), participant_id) <= reserved_quote(
            entries,
            participant_id,
        ),
    decreases entries.len(),
{
    if n == entries.len() {
        assert(entries.take(n) =~= entries);
        if n > 0 {
            lemma_reserved_monotone(entries.drop_last(), participant_id, n - 1);
            assert(entries.drop_last().take(n - 1) =~= entries.drop_last());
        }
    } else {
        lemma_reserved_monotone(entries.drop_last(), participant_id, n);
        assert(entries.drop_last().take(n) =~= entries.take(n));
    }
}

/// A reservation in another state.
pub open spec fn in_state(fields: ReservationFields, state: ReservationState) -> ReservationFields {
    ReservationFields { state, ..fields }
}

/// What the records of a journal say, in its order.
pub open spec fn listed(entries: Seq<([u8; 32], ReservationRecord)>) -> Seq<ReservationFields> {
    entries.map_values(|entry: ([u8; 32], ReservationRecord)| entry.1@)
}

/// Whether a journal may hold these entries: sorted by nonce, each under its own nonce, each
/// funded on both sides, and few enough to be counted in the file.
pub open spec fn reservations_wf(entries: Seq<([u8; 32], ReservationRecord)>) -> bool {
    &&& ids_sorted(entries)
    &&& entries.len() <= u32::MAX
    &&& forall|i: int|
        0 <= i < entries.len() ==> (#[trigger] entries[i]).0 == entries[i].1@.nonce
            && reservation_valid(entries[i].1@)
}

/// Where two journals differ only in the states of some reservations.
pub open spec fn states_set(
    before: Seq<([u8; 32], ReservationRecord)>,
    after: Seq<([u8; 32], ReservationRecord)>,
    nonces: Seq<[u8; 32]>,
    state: ReservationState,
) -> bool {
    &&& after.len() == before.len()
    &&& forall|nonce: [u8; 32]| #[trigger]
        value_of(after, nonce) is Some <==> value_of(before, nonce) is Some
    &&& forall|nonce: [u8; 32]|
        #![trigger value_of(after, nonce)]
        value_of(before, nonce) matches Some(record) ==> value_of(after, nonce).unwrap()@ == (
        if nonces.contains(nonce) {
            in_state(record@, state)
        } else {
            record@
        })
}

/// What a request to reserve comes to: a nonce that was used before, totals that cannot be counted and
/// funds that do not cover all that is reserved are refused and change nothing; any other reservation
/// is recorded under its nonce.
pub open spec fn reservation_outcome(
    before: Seq<([u8; 32], ReservationRecord)>,
    after: Seq<([u8; 32], ReservationRecord)>,
    record: ReservationRecord,
    available: PoolBalance,
    outcome: Result<UnsignedFundedAuthorizationV1, JournalError>,
) -> bool {
    let id = record@.participant_id;
    let base = reserved_base(before, id) + record@.base_atoms;
    let quote = reserved_quote(before, id) + record@.quote_atoms;
    &&& if has_id(before, record@.nonce) {
        outcome == Err::<UnsignedFundedAuthorizationV1, _>(JournalError::DuplicateNonce)
    } else if base > u64::MAX || quote > u64::MAX {
        outcome == Err::<UnsignedFundedAuthorizationV1, _>(JournalError::ArithmeticOverflow)
    } else if base > available.base_atoms || quote > available.quote_atoms {
        outcome == Err::<UnsignedFundedAuthorizationV1, _>(JournalError::InsufficientBalance)
    } else if before.len() >= u32::MAX {
        outcome == Err::<UnsignedFundedAuthorizationV1, _>(JournalError::ArithmeticOverflow)
    } else {
        outcome matches Ok(authorization) && authorization@ == (AuthorizationFields {
            nonce: record@.nonce,
            participant_id: id,
            base_atoms: record@.base_atoms,
            quote_atoms: record@.quote_atoms,
        })
    }
    &&& outcome is Err ==> after == before
    &&& outcome is Ok ==> (forall|nonce: [u8; 32]| #[trigger]
        value_of(after, nonce) == (if nonce == record@.nonce {
            Some(record)
        } else {
            value_of(before, nonce)
        }))
}

/// The reservations that were made, and what has become of each.
#[derive(Debug, PartialEq, Eq)]
pub struct ReservationJournal {
    records: IdMap<ReservationRecord>,
}

impl View for ReservationJournal {
    type V = Seq<([u8; 32], ReservationRecord)>;

    closed spec fn view(&self) -> Seq<([u8; 32], ReservationRecord)> {
        self.records@
    }
}

impl ReservationJournal {
    pub open spec fn wf(&self) -> bool {
        reservations_wf(self@)
    }

    /// Records a reservation against the funds that its participant has.
    ///
    /// All that is reserved for the participant, with the new reservation, must be covered. A
    /// refused reservation changes nothing.
    pub fn reserve(&mut self, record: ReservationRecord, available: PoolBalance) -> (outcome: Result<
        UnsignedFundedAuthorizationV1,
        JournalError,
    >)
        requires
            old(self).wf(),
            record.wf(),
        ensures
            final(self).wf(),
            reservation_outcome(old(self)@, final(self)@, record, available, outcome),
            outcome is Err ==> *final(self) == *old(self),
    {
        if self.records.get(&record.nonce).is_some() {
            return Err(JournalError::DuplicateNonce);
        }
        let ghost entries = self@;
        let ghost id = record@.participant_id;
        let mut base: u64 = 0;
        let mut quote: u64 = 0;
        let mut i: usize = 0;
        while i < self.records.len()
            invariant
                *self == *old(self),
                entries == self@,
                entries == self.records@,
                id == record@.participant_id,
                i <= entries.len(),
                base == reserved_base(entries.take(i as int), id),
                quote == reserved_quote(entries.take(i as int), id),
                !has_id(old(self)@, record@.nonce),
                old(self).wf(),
            decreases entries.len() - i,
        {
            let existing = self.records.entry(i).1;
            proof {
                assert(entries.take(i + 1).drop_last() =~= entries.take(i as int));
                lemma_reserved_monotone(entries, id, i + 1);
                lemma_reserved_monotone(entries, id, i as int);
            }
            if same_array(&existing.participant_id, &record.participant_id) && existing.state
                == ReservationState::Reserved {
                match (
                    base.checked_add(existing.base_atoms),
                    quote.checked_add(existing.quote_atoms),
                ) {
                    (Some(next_base), Some(next_quote)) => {
                        base = next_base;
                        quote = next_quote;
                    },
                    _ => {
                        return Err(JournalError::ArithmeticOverflow);
                    },
                }
            }
            i += 1;
        }
        assert(entries.take(i as int) =~= entries);
        let (required_base, required_quote) = match (
            base.checked_add(record.base_atoms),
            quote.checked_add(record.quote_atoms),
        ) {
            (Some(required_base), Some(required_quote)) => (required_base, required_quote),
            _ => {
                return Err(JournalError::ArithmeticOverflow);
            },
        };
        if available.base_atoms < required_base || available.quote_atoms < required_quote {
            return Err(JournalError::InsufficientBalance);
        }
        if self.records.len() >= 0xffff_ffff {
            return Err(JournalError::ArithmeticOverflow);
        }
        self.records.insert(record.nonce, record);
        proof {
            lemma_inserted_wf(entries, self@, record);
        }
        Ok(
            UnsignedFundedAuthorizationV1 {
                nonce: record.nonce,
                participant_id: record.participant_id,
                base_atoms: record.base_atoms,
                quote_atoms: record.quote_atoms,
            },
        )
    }

    /// Records that a reservation was consumed.
    pub fn mark_used(&mut self, nonce: [u8; 32]) -> (outcome: Result<(), JournalError>)
        requires
            old(self).wf(),
        ensures
            final(self).wf(),
            transition_outcome(old(self)@, final(self)@, nonce, ReservationState::Used, outcome),
    {
        self.transition(nonce, ReservationState::Used)
    }

    /// Records that a reservation was given back.
    pub fn release(&mut self, nonce: [u8; 32]) -> (outcome: Result<(), JournalError>)
        requires
            old(self).wf(),
        ensures
            final(self).wf(),
            transition_outcome(
                old(self)@,
                final(self)@,
                nonce,
                ReservationState::Released,
                outcome,
            ),
    {
        self.transition(nonce, ReservationState::Released)
    }

    /// What has become of a reservation.
    pub fn state(&self, nonce: [u8; 32]) -> (state: Option<ReservationState>)
        requires
            self.wf(),
        ensures
            state == match value_of(self@, nonce) {
                Some(record) => Some(record@.state),
                None => None,
            },
    {
        match self.records.get(&nonce) {
            Some(record) => Some(record.state),
            None => None,
        }
    }

    fn transition(&mut self, nonce: [u8; 32], next: ReservationState) -> (outcome: Result<
        (),
        JournalError,
    >)
        requires
            old(self).wf(),
        ensures
            final(self).wf(),
            transition_outcome(old(self)@, final(self)@, nonce, next, outcome),
    {
        let record = match self.records.get(&nonce) {
            Some(record) => record,
            None => {
                return Err(JournalError::UnknownNonce);
            },
        };
        if record.state != ReservationState::Reserved {
            return Err(JournalError::InvalidTransition);
        }
        self.set_state(nonce, record, next);
        Ok(())
    }

    /// Gives a recorded reservation another state.
    fn set_state(&mut self, nonce: [u8; 32], record: ReservationRecord, next: ReservationState)
        requires
            old(self).wf(),
            value_of(old(self)@, nonce) == Some(record),
        ensures
            final(self).wf(),
            states_set(old(self)@, final(self)@, seq![nonce], next),
    {
        let ghost entries = self@;
        let ghost at = crate::idmap::position_of(entries, nonce);
        let updated = ReservationRecord { state: next, ..record };
        proof {
            assert(has_id(entries, nonce));
            assert(entries[at].0 == nonce);
            assert(seq![nonce].contains(nonce)) by {
                assert(seq![nonce][0] == nonce);
            }
        }
        self.records.insert(nonce, updated);
        proof {
            assert(self@ == entries.update(at, (nonce, updated)));
            assert forall|other: [u8; 32]| seq![nonce].contains(other) implies other == nonce by {}
        }
    }
}

/// What one change of state does: an unknown nonce and a reservation that is not reserved are
/// refused and change nothing.
pub open spec fn transition_outcome(
    before: Seq<([u8; 32], ReservationRecord)>,
    after: Seq<([u8; 32], ReservationRecord)>,
    nonce: [u8; 32],
    next: ReservationState,
    outcome: Result<(), JournalError>,
) -> bool {
    match value_of(before, nonce) {
        None => outcome == Err::<(), _>(JournalError::UnknownNonce) && after == before,
        Some(record) => if record@.state != ReservationState::Reserved {
            outcome == Err::<(), _>(JournalError::InvalidTransition) && after == before
        } else {
            outcome == Ok::<(), JournalError>(()) && states_set(before, after, seq![nonce], next)
        },
    }
}

proof fn lemma_reserved_update(
    entries: Seq<([u8; 32], ReservationRecord)>,
    at: int,
    entry: ([u8; 32], ReservationRecord),
    participant_id: [u8; 32],
)
    requires
        0 <= at < entries.len(),
    ensures
        reserved_base(entries.update(at, entry), participant_id) == reserved_base(
            entries,
            participant_id,
        ) - (if holds_for(entries[at].1@, participant_id) {
            entries[at].1@.base_atoms as int
        } else {
            0
        }) + (if holds_for(entry.1@, participant_id) {
            entry.1@.base_atoms as int
        } else {
            0
        }),
        reserved_quote(entries.update(at, entry), participant_id) == reserved_quote(
            entries,
            participant_id,
        ) - (if holds_for(entries[at].1@, participant_id) {
            entries[at].1@.quote_atoms as int
        } else {
            0
        }) + (if holds_for(entry.1@, participant_id) {
            entry.1@.quote_atoms as int
        } else {
            0
        }),
    decreases entries.len(),
{
    let updated = entries.update(at, entry);
    if at == entries.len() - 1 {
        assert(updated.drop_last() =~= entries.drop_last());
    } else {
        assert(updated.drop_last() =~= entries.drop_last().update(at, entry));
        lemma_reserved_update(entries.drop_last(), at, entry, participant_id);
    }
}

proof fn lemma_reserved_insert(
    entries: Seq<([u8; 32], ReservationRecord)>,
    at: int,
    entry: ([u8; 32], ReservationRecord),
    participant_id: [u8; 32],
)
    requires
        0 <= at <= entries.len(),
    ensures
        reserved_base(entries.insert(at, entry), participant_id) == reserved_base(
            entries,
            participant_id,
        ) + (if holds_for(entry.1@, participant_id) {
            entry.1@.base_atoms as int
        } else {
            0
        }),
        reserved_quote(entries.insert(at, entry), participant_id) == reserved_quote(
            entries,
            participant_id,
        ) + (if holds_for(entry.1@, participant_id) {
            entry.1@.quote_atoms as int
        } else {
            0
        }),
    decreases entries.len(),
{
    let inserted = entries.insert(at, entry);
    if at == entries.len() {
        assert(inserted.drop_last() =~= entries);
    } else {
        assert(inserted.drop_last() =~= entries.drop_last().insert(at, entry));
        assert(inserted.last() == entries.last());
        lemma_reserved_insert(entries.drop_last(), at, entry, participant_id);
    }
}

/// A reservation that was used or given back holds nothing any more: what its participant has reserved
/// falls by exactly its amounts, what everyone else has reserved stays, and so does every other
/// reservation.
pub proof fn law_ended_reservation_holds_nothing(
    before: Seq<([u8; 32], ReservationRecord)>,
    after: Seq<([u8; 32], ReservationRecord)>,
    nonce: [u8; 32],
    next: ReservationState,
    participant_id: [u8; 32],
)
    requires
        reservations_wf(before),
        reservations_wf(after),
        next == ReservationState::Used || next == ReservationState::Released,
        transition_outcome(before, after, nonce, next, Ok(())),
    ensures
        value_of(before, nonce) is Some,
        value_of(before, nonce).unwrap()@.state == ReservationState::Reserved,
        value_of(after, nonce) is Some,
        value_of(after, nonce).unwrap()@.state == next,
        ({
            let ended = value_of(before, nonce).unwrap()@;
            if ended.participant_id == participant_id {
                &&& reserved_base(after, participant_id) == reserved_base(before, participant_id)
                    - ended.base_atoms
                &&& reserved_quote(after, participant_id) == reserved_quote(before, participant_id)
                    - ended.quote_atoms
            } else {
                &&& reserved_base(after, participant_id) == reserved_base(before, participant_id)
                &&& reserved_quote(after, participant_id) == reserved_quote(before, participant_id)
            }
        }),
        forall|other: [u8; 32]|
            other != nonce ==> #[trigger] value_of(after, other) == value_of(before, other),
{
    let record = value_of(before, nonce).unwrap();
    let at = crate::idmap::position_of(before, nonce);
    assert(has_id(before, nonce));
    assert(seq![nonce].contains(nonce)) by {
        assert(seq![nonce][0] == nonce);
    }
    let updated = value_of(after, nonce).unwrap();
    let expected = before.update(at, (nonce, updated));
    assert forall|other: [u8; 32]| other != nonce implies #[trigger] value_of(after, other)
        == value_of(before, other) by {
        assert(!seq![nonce].contains(other));
        if value_of(before, other) is Some {
            ReservationRecord::lemma_view_determines(
                value_of(after, other).unwrap(),
                value_of(before, other).unwrap(),
            );
        }
    }
    assert(ids_sorted(expected)) by {
        assert forall|i: int, j: int| 0 <= i < j < expected.len() implies crate::bytes::bytes_less(
            #[trigger] expected[i].0@,
            #[trigger] expected[j].0@,
        ) by {
            assert(expected[i].0 == before[i].0 && expected[j].0 == before[j].0);
        }
    }
    assert forall|i: int| 0 <= i < expected.len() implies value_of(after, (#[trigger] expected[i]).0)
        == Some(expected[i].1) by {
        lemma_value_at(before, i);
        crate::idmap::lemma_position_at(before, i);
    }
    lemma_entries_contained(expected, after);
    lemma_reserved_update(before, at, (nonce, updated), participant_id);
}

/// A reservation that is made holds exactly its amounts for its participant, nothing for anyone else,
/// and all that its participant then has reserved is covered by the funds that were available.
pub proof fn law_reservation_is_covered(
    before: Seq<([u8; 32], ReservationRecord)>,
    after: Seq<([u8; 32], ReservationRecord)>,
    record: ReservationRecord,
    available: PoolBalance,
    authorization: UnsignedFundedAuthorizationV1,
    participant_id: [u8; 32],
)
    requires
        reservations_wf(before),
        reservations_wf(after),
        record@.state == ReservationState::Reserved,
        reservation_outcome(before, after, record, available, Ok(authorization)),
    ensures
        value_of(before, record@.nonce) is None,
        value_of(after, record@.nonce) == Some(record),
        authorization@.nonce == record@.nonce,
        authorization@.participant_id == record@.participant_id,
        authorization@.base_atoms == record@.base_atoms,
        authorization@.quote_atoms == record@.quote_atoms,
        if record@.participant_id == participant_id {
            &&& reserved_base(after, participant_id) == reserved_base(before, participant_id)
                + record@.base_atoms
            &&& reserved_quote(after, participant_id) == reserved_quote(before, participant_id)
                + record@.quote_atoms
            &&& reserved_base(after, participant_id) <= available.base_atoms
            &&& reserved_quote(after, participant_id) <= available.quote_atoms
        } else {
            &&& reserved_base(after, participant_id) == reserved_base(before, participant_id)
            &&& reserved_quote(after, participant_id) == reserved_quote(before, participant_id)
        },
{
    let at = crate::idmap::lemma_insertable(before, record@.nonce, record);
    let expected = before.insert(at, (record@.nonce, record));
    assert forall|id: [u8; 32]| value_of(expected, id) == value_of(after, id) by {
        assert(value_of(after, id) == (if id == record@.nonce {
            Some(record)
        } else {
            value_of(before, id)
        }));
    }
    crate::idmap::lemma_entries_determined(expected, after);
    lemma_reserved_insert(before, at, (record@.nonce, record), participant_id);
}

pub proof fn lemma_nothing_reserved(
    entries: Seq<([u8; 32], ReservationRecord)>,
    participant_id: [u8; 32],
)
    requires
        forall|i: int|
            0 <= i < entries.len() && (#[trigger] entries[i]).1@.participant_id == participant_id
                ==> entries[i].1@.state != ReservationState::Reserved,
    ensures
        reserved_base(entries, participant_id) == 0,
        reserved_quote(entries, participant_id) == 0,
    decreases entries.len(),
{
    if entries.len() > 0 {
        let rest = entries.drop_last();
        assert forall|i: int|
            0 <= i < rest.len() && (#[trigger] rest[i]).1@.participant_id
                == participant_id implies rest[i].1@.state != ReservationState::Reserved by {
            assert(rest[i] == entries[i]);
        }
        lemma_nothing_reserved(rest, participant_id);
        assert(entries[entries.len() - 1] == entries.last());
    }
}

/// A reservation that is still reserved holds at least its own amounts for its participant.
pub proof fn law_open_reservation_holds_its_amounts(
    entries: Seq<([u8; 32], ReservationRecord)>,
    i: int,
)
    requires
        0 <= i < entries.len(),
        entries[i].1@.state == ReservationState::Reserved,
    ensures
        reserved_base(entries, entries[i].1@.participant_id) >= entries[i].1@.base_atoms,
        reserved_quote(entries, entries[i].1@.participant_id) >= entries[i].1@.quote_atoms,
{
    let id = entries[i].1@.participant_id;
    lemma_reserved_monotone(entries, id, i + 1);
    lemma_reserved_monotone(entries.take(i + 1), id, i);
    assert(entries.take(i + 1).take(i) =~= entries.take(i));
    assert(entries.take(i + 1).drop_last() =~= entries.take(i));
    assert(entries.take(i + 1).last() == entries[i]);
}

/// A participant none of whose reservations is still reserved can reserve, under a new nonce, anything
/// up to all that is available, and nothing beyond it.
pub proof fn law_free_participant_reserves_all_that_is_available(
    before: Seq<([u8; 32], ReservationRecord)>,
    after: Seq<([u8; 32], ReservationRecord)>,
    record: ReservationRecord,
    available: PoolBalance,
    outcome: Result<UnsignedFundedAuthorizationV1, JournalError>,
)
    requires
        reservations_wf(before),
        before.len() < u32::MAX,
        forall|i: int| 0 <= i < before.len() ==> (#[trigger] before[i]).0 != record@.nonce,
        forall|i: int|
            0 <= i < before.len() && (#[trigger] before[i]).1@.participant_id
                == record@.participant_id ==> before[i].1@.state != ReservationState::Reserved,
        reservation_outcome(before, after, record, available, outcome),
    ensures
        outcome is Ok <==> record@.base_atoms <= available.base_atoms && record@.quote_atoms
            <= available.quote_atoms,
        outcome is Err ==> outcome == Err::<UnsignedFundedAuthorizationV1, _>(
            JournalError::InsufficientBalance,
        ) && after == before,
{
    lemma_nothing_reserved(before, record@.participant_id);
}

/// Two open reservations of one participant never promise the same funds: a second one is made only
/// where both are covered together.
pub proof fn law_open_reservations_share_the_funds(
    before: Seq<([u8; 32], ReservationRecord)>,
    after: Seq<([u8; 32], ReservationRecord)>,
    record: ReservationRecord,
    available: PoolBalance,
    outcome: Result<UnsignedFundedAuthorizationV1, JournalError>,
    i: int,
)
    requires
        0 <= i < before.len(),
        before[i].1@.participant_id == record@.participant_id,
        before[i].1@.state == ReservationState::Reserved,
        before[i].1@.base_atoms + record@.base_atoms > available.base_atoms
            || before[i].1@.quote_atoms + record@.quote_atoms > available.quote_atoms,
        reservation_outcome(before, after, record, available, outcome),
    ensures
        outcome is Err,
        after == before,
{
    lemma_reserved_monotone(before, record@.participant_id, i + 1);
    lemma_reserved_monotone(before, record@.participant_id, i);
    assert(before.take(i + 1).drop_last() =~= before.take(i));
    assert(before.take(i + 1).last() == before[i]);
}

/// A nonce reserves once: whatever has become of its reservation, it cannot be reserved again.
pub proof fn law_nonce_reserves_once(
    before: Seq<([u8; 32], ReservationRecord)>,
    after: Seq<([u8; 32], ReservationRecord)>,
    record: ReservationRecord,
    available: PoolBalance,
    outcome: Result<UnsignedFundedAuthorizationV1, JournalError>,
)
    requires
        value_of(before, record@.nonce) is Some,
        reservation_outcome(before, after, record, available, outcome),
    ensures
        outcome == Err::<UnsignedFundedAuthorizationV1, _>(JournalError::DuplicateNonce),
        after == before,
{
}

/// A reservation ends once: what was used or given back can be neither used nor given back again, and
/// an attempt changes nothing.
pub proof fn law_reservation_ends_once(
    before: Seq<([u8; 32], ReservationRecord)>,
    ended: Seq<([u8; 32], ReservationRecord)>,
    after: Seq<([u8; 32], ReservationRecord)>,
    nonce: [u8; 32],
    first: ReservationState,
    second: ReservationState,
    outcome: Result<(), JournalError>,
)
    requires
        first == ReservationState::Used || first == ReservationState::Released,
        transition_outcome(before, ended, nonce, first, Ok(())),
        transition_outcome(ended, after, nonce, second, outcome),
    ensures
        outcome == Err::<(), _>(JournalError::InvalidTransition),
        after == ended,
{
    assert(seq![nonce].contains(nonce)) by {
        assert(seq![nonce][0] == nonce);
    }
    assert(value_of(ended, nonce) is Some);
}

/// A reservation that is still reserved can be used, and can be given back.
pub proof fn law_open_reservation_can_end(
    before: Seq<([u8; 32], ReservationRecord)>,
    after: Seq<([u8; 32], ReservationRecord)>,
    nonce: [u8; 32],
    next: ReservationState,
    outcome: Result<(), JournalError>,
)
    requires
        value_of(before, nonce) matches Some(record) && record@.state == ReservationState::Reserved,
        transition_outcome(before, after, nonce, next, outcome),
    ensures
        outcome == Ok::<(), JournalError>(()),
        value_of(after, nonce) matches Some(record) && record@.state == next
            && record@.participant_id == value_of(before, nonce).unwrap()@.participant_id
            && record@.base_atoms == value_of(before, nonce).unwrap()@.base_atoms
            && record@.quote_atoms == value_of(before, nonce).unwrap()@.quote_atoms
            && record@.epoch_id == value_of(before, nonce).unwrap()@.epoch_id,
{
    assert(seq![nonce].contains(nonce)) by {
        assert(seq![nonce][0] == nonce);
    }
    assert(value_of(after, nonce) is Some);
}

proof fn lemma_inserted_wf(
    before: Seq<([u8; 32], ReservationRecord)>,
    after: Seq<([u8; 32], ReservationRecord)>,
    record: ReservationRecord,
)
    requires
        reservations_wf(before),
        before.len() < u32::MAX,
        ids_sorted(after),
        after.len() == before.len() + 1,
        record.wf(),
        forall|nonce: [u8; 32]| #[trigger]
            value_of(after, nonce) == (if nonce == record@.nonce {
                Some(record)
            } else {
                value_of(before, nonce)
            }),
    ensures
        reservations_wf(after),
{
    assert forall|i: int| 0 <= i < after.len() implies (#[trigger] after[i]).0
        == after[i].1@.nonce && reservation_valid(after[i].1@) by {
        lemma_value_at(after, i);
        let id = after[i].0;
        if id != record@.nonce {
            assert(has_id(before, id));
            let k = crate::idmap::position_of(before, id);
            assert(before[k].0 == id);
        }
    }
}

/// The header of a journal without epochs.
pub open spec fn unbound_header() -> Seq<u8> {
    seq![75u8, 71u8, 66u8, 82u8, 83u8, 86u8, 49u8, 0u8]
}

/// The header of a journal with epochs.
pub open spec fn bound_header() -> Seq<u8> {
    seq![75u8, 71u8, 66u8, 82u8, 83u8, 86u8, 50u8, 0u8]
}

/// Whether no reservation of a list is bound to an epoch.
pub open spec fn all_unbound(fields: Seq<ReservationFields>) -> bool {
    forall|i: int| 0 <= i < fields.len() ==> unbound(#[trigger] fields[i])
}

/// The payload of a journal file: header, number of records, records. The layout with epochs is
/// used once a reservation has one.
pub open spec fn reservation_payload(fields: Seq<ReservationFields>) -> Seq<u8> {
    if all_unbound(fields) {
        unbound_header() + spec_u32_to_le_bytes(fields.len() as u32) + encode_all::<
            UnboundReservation,
        >(fields)
    } else {
        bound_header() + spec_u32_to_le_bytes(fields.len() as u32) + encode_all::<
            BoundReservation,
        >(fields)
    }
}

/// The records that a payload holds, in either layout.
pub open spec fn payload_records(payload: Seq<u8>) -> Option<Seq<ReservationFields>> {
    if payload.len() < 12 {
        None
    } else if payload.take(8) == unbound_header() {
        parse_all::<UnboundReservation>(payload.skip(12))
    } else if payload.take(8) == bound_header() {
        parse_all::<BoundReservation>(payload.skip(12))
    } else {
        None
    }
}

/// Whether no two reservations of a list share a nonce.
pub open spec fn nonces_distinct(fields: Seq<ReservationFields>) -> bool {
    forall|i: int, j: int|
        0 <= i < j < fields.len() ==> (#[trigger] fields[i]).nonce != (#[trigger] fields[j]).nonce
}

/// The reservations that a journal file holds; a file that is truncated, tampered with, miscounted
/// or that repeats a nonce holds none.
pub open spec fn reservation_file(bytes: Seq<u8>) -> Option<Seq<ReservationFields>> {
    match unsealed(bytes) {
        None => None,
        Some(payload) => match payload_records(payload) {
            None => None,
            Some(fields) => if spec_u32_from_le_bytes(payload.subrange(8, 12)) == fields.len()
                && nonces_distinct(fields) {
                Some(fields)
            } else {
                None
            },
        },
    }
}

/// Whether entries are the reservations of a list.
pub open spec fn holds_all(
    entries: Seq<([u8; 32], ReservationRecord)>,
    fields: Seq<ReservationFields>,
) -> bool {
    &&& entries.len() == fields.len()
    &&& forall|i: int|
        0 <= i < fields.len() ==> value_of(entries, (#[trigger] fields[i]).nonce) is Some
            && value_of(entries, fields[i].nonce).unwrap()@ == fields[i]
}

/// Builds the entries of a journal, where no nonce repeats.
fn collect(records: &[ReservationRecord]) -> (entries: Option<IdMap<ReservationRecord>>)
    requires
        records@.len() <= u32::MAX,
        forall|i: int| 0 <= i < records@.len() ==> (#[trigger] records@[i]).wf(),
    ensures
        match entries {
            Some(entries) => reservations_wf(entries@) && nonces_distinct(views(records@))
                && holds_all(entries@, views(records@)),
            None => !nonces_distinct(views(records@)),
        },
{
    let mut entries: IdMap<ReservationRecord> = IdMap::new();
    let ghost fields = views(records@);
    let mut i: usize = 0;
    while i < records.len()
        invariant
            fields == views(records@),
            i <= records@.len(),
            records@.len() <= u32::MAX,
            forall|k: int| 0 <= k < records@.len() ==> (#[trigger] records@[k]).wf(),
            reservations_wf(entries@),
            nonces_distinct(fields.take(i as int)),
            holds_all(entries@, fields.take(i as int)),
            forall|nonce: [u8; 32]| #[trigger]
                has_id(entries@, nonce) ==> exists|k: int| 0 <= k < i && fields[k].nonce == nonce,
        decreases records@.len() - i,
    {
        let record = records[i];
        assert(fields[i as int] == record@);
        if entries.get(&record.nonce).is_some() {
            proof {
                assert(has_id(entries@, record@.nonce));
                let k = choose|k: int| 0 <= k < i && fields[k].nonce == record@.nonce;
                assert(fields[k].nonce == fields[i as int].nonce);
            }
            return None;
        }
        let ghost before = entries@;
        entries.insert(record.nonce, record);
        proof {
            lemma_inserted_wf(before, entries@, record);
            let done = fields.take(i as int);
            let next = fields.take(i + 1);
            assert forall|k: int| 0 <= k < next.len() implies value_of(
                entries@,
                (#[trigger] next[k]).nonce,
            ) is Some && value_of(entries@, next[k].nonce).unwrap()@ == next[k] by {
                if k < i {
                    assert(next[k] == done[k]);
                    assert(value_of(before, done[k].nonce) is Some);
                    assert(has_id(before, done[k].nonce));
                }
            }
            assert forall|a: int, b: int| 0 <= a < b < next.len() implies (
            #[trigger] next[a]).nonce != (#[trigger] next[b]).nonce by {
                if b < i {
                    assert(done[a].nonce != done[b].nonce);
                } else {
                    assert(next[a] == done[a]);
                    assert(value_of(before, done[a].nonce) is Some);
                }
            }
            assert forall|nonce: [u8; 32]| #[trigger] has_id(entries@, nonce) implies exists|k: int|
                0 <= k < i + 1 && fields[k].nonce == nonce by {
                assert(value_of(entries@, nonce) is Some);
                if nonce != record@.nonce {
                    assert(value_of(before, nonce) is Some);
                    assert(has_id(before, nonce));
                } else {
                    assert(fields[i as int].nonce == nonce);
                }
            }
        }
        i += 1;
    }
    assert(fields.take(i as int) =~= fields);
    Some(entries)
}

impl ReservationJournal {
    /// Opens a journal from the contents of its file; a missing file is a new journal.
    pub fn open(file: Option<&[u8]>) -> (journal: Result<Self, JournalError>)
        ensures
            match journal {
                Ok(journal) => journal.wf() && match file {
                    None => journal@ == Seq::<([u8; 32], ReservationRecord)>::empty(),
                    Some(bytes) => reservation_file(bytes@) matches Some(fields) && holds_all(
                        journal@,
                        fields,
                    ),
                },
                Err(error) => error == JournalError::Corrupt && (file matches Some(bytes)
                    && reservation_file(bytes@) is None),
            },
    {
        let bytes = match file {
            None => {
                return Ok(ReservationJournal { records: IdMap::new() });
            },
            Some(bytes) => bytes,
        };
        let payload = match unseal(bytes) {
            Some(payload) => payload,
            None => {
                return Err(JournalError::Corrupt);
            },
        };
        if payload.len() < 12 {
            return Err(JournalError::Corrupt);
        }
        let unbound_head: [u8; 8] = [75u8, 71u8, 66u8, 82u8, 83u8, 86u8, 49u8, 0u8];
        let bound_head: [u8; 8] = [75u8, 71u8, 66u8, 82u8, 83u8, 86u8, 50u8, 0u8];
        assert(unbound_head@ =~= unbound_header());
        assert(bound_head@ =~= bound_header());
        let head = slice_subrange(payload, 0, 8);
        let body = slice_subrange(payload, 12, payload.len());
        assert(head@ =~= payload@.take(8));
        assert(body@ =~= payload@.skip(12));
        let mut records: Vec<ReservationRecord> = Vec::new();
        if same_bytes(head, unbound_head.as_slice()) {
            match read_all::<UnboundReservation>(body) {
                Some(list) => {
                    proof {
                        lemma_encode_parse_all::<UnboundReservation>(body@);
                    }
                    let mut i: usize = 0;
                    while i < list.len()
                        invariant
                            i <= list@.len(),
                            forall|k: int|
                                0 <= k < list@.len() ==> UnboundReservation::valid(
                                    #[trigger] views(list@)[k],
                                ),
                            views(records@) == views(list@).take(i as int),
                            forall|k: int| 0 <= k < records@.len() ==> (#[trigger] records@[k]).wf(),
                        decreases list@.len() - i,
                    {
                        assert(UnboundReservation::valid(views(list@)[i as int]));
                        let record = list[i].record;
                        proof {
                            lemma_views_push(records@, record);
                            assert(views(list@).take(i + 1) =~= views(list@).take(i as int).push(
                                record@,
                            ));
                        }
                        records.push(record);
                        i += 1;
                    }
                    assert(views(records@) =~= views(list@));
                },
                None => {
                    return Err(JournalError::Corrupt);
                },
            }
        } else if same_bytes(head, bound_head.as_slice()) {
            match read_all::<BoundReservation>(body) {
                Some(list) => {
                    proof {
                        lemma_encode_parse_all::<BoundReservation>(body@);
                    }
                    let mut i: usize = 0;
                    while i < list.len()
                        invariant
                            i <= list@.len(),
                            forall|k: int|
                                0 <= k < list@.len() ==> BoundReservation::valid(
                                    #[trigger] views(list@)[k],
                                ),
                            views(records@) == views(list@).take(i as int),
                            forall|k: int| 0 <= k < records@.len() ==> (#[trigger] records@[k]).wf(),
                        decreases list@.len() - i,
                    {
                        assert(BoundReservation::valid(views(list@)[i as int]));
                        let record = list[i].record;
                        proof {
                            lemma_views_push(records@, record);
                            assert(views(list@).take(i + 1) =~= views(list@).take(i as int).push(
                                record@,
                            ));
                        }
                        records.push(record);
                        i += 1;
                    }
                    assert(views(records@) =~= views(list@));
                },
                None => {
                    return Err(JournalError::Corrupt);
                },
            }
        } else {
            return Err(JournalError::Corrupt);
        }
        let count: u32 = u32_from_le_bytes(slice_subrange(payload, 8, 12));
        if count as usize != records.len() {
            return Err(JournalError::Corrupt);
        }
        match collect(records.as_slice()) {
            Some(records) => Ok(ReservationJournal { records }),
            None => Err(JournalError::Corrupt),
        }
    }

    /// The contents of the journal's file.
    pub fn encode(&self) -> (bytes: Vec<u8>)
        requires
            self.wf(),
        ensures
            bytes@ == sealed(reservation_payload(listed(self@))),
    {
        let ghost fields = listed(self@);
        let mut plain: Vec<UnboundReservation> = Vec::new();
        let mut bound: Vec<BoundReservation> = Vec::new();
        let mut only_unbound: bool = true;
        let mut i: usize = 0;
        while i < self.records.len()
            invariant
                i <= self@.len(),
                self@ == self.records@,
                fields == listed(self@),
                views(plain@) == fields.take(i as int),
                views(bound@) == fields.take(i as int),
                only_unbound == all_unbound(fields.take(i as int)),
            decreases self@.len() - i,
        {
            let record = self.records.entry(i).1;
            assert(fields[i as int] == record@);
            if !is_zero(record.epoch_id.as_slice()) {
                only_unbound = false;
            }
            proof {
                lemma_views_push(plain@, UnboundReservation { record });
                lemma_views_push(bound@, BoundReservation { record });
            }
            plain.push(UnboundReservation { record });
            bound.push(BoundReservation { record });
            proof {
                let next = fields.take(i + 1);
                let done = fields.take(i as int);
                assert(next =~= done.push(record@));
                assert(all_unbound(next) <==> all_unbound(done) && unbound(record@)) by {
                    assert(next[i as int] == record@);
                    if all_unbound(next) {
                        assert forall|k: int| 0 <= k < done.len() implies unbound(
                            #[trigger] done[k],
                        ) by {
                            assert(next[k] == done[k]);
                        }
                    }
                }
            }
            i += 1;
        }
        assert(fields.take(i as int) =~= fields);
        let unbound_head: [u8; 8] = [75u8, 71u8, 66u8, 82u8, 83u8, 86u8, 49u8, 0u8];
        let bound_head: [u8; 8] = [75u8, 71u8, 66u8, 82u8, 83u8, 86u8, 50u8, 0u8];
        assert(unbound_head@ =~= unbound_header());
        assert(bound_head@ =~= bound_header());
        let mut payload: Vec<u8> = Vec::new();
        if only_unbound {
            append(&mut payload, unbound_head.as_slice());
            append(&mut payload, u32_to_le_bytes(self.records.len() as u32).as_slice());
            write_all(&mut payload, plain.as_slice());
        } else {
            append(&mut payload, bound_head.as_slice());
            append(&mut payload, u32_to_le_bytes(self.records.len() as u32).as_slice());
            write_all(&mut payload, bound.as_slice());
        }
        assert(payload@ =~= reservation_payload(fields));
        seal(payload)
    }
}

/// A journal comes back from its file as it was: what was recorded before a restart is there
/// after it.
pub proof fn law_reservations_survive_a_restart(
    entries: Seq<([u8; 32], ReservationRecord)>,
    reopened: Seq<([u8; 32], ReservationRecord)>,
)
    requires
        reservations_wf(entries),
        reservations_wf(reopened),
    ensures
        reservation_file(sealed(reservation_payload(listed(entries)))) == Some(listed(entries)),
        holds_all(reopened, listed(entries)) ==> reopened == entries,
{
    let fields = listed(entries);
    let payload = reservation_payload(fields);
    lemma_seal(sealed(payload), payload);
    lemma_auto_spec_u32_to_from_le_bytes();
    assert forall|i: int| 0 <= i < fields.len() implies reservation_valid(#[trigger] fields[i]) by {
        assert(fields[i] == entries[i].1@);
    }
    assert(spec_u32_to_le_bytes(fields.len() as u32).len() == 4);
    assert(payload.subrange(8, 12) =~= spec_u32_to_le_bytes(fields.len() as u32));
    if all_unbound(fields) {
        assert(payload.take(8) =~= unbound_header());
        assert(payload.skip(12) =~= encode_all::<UnboundReservation>(fields));
        lemma_parse_encode_all::<UnboundReservation>(fields);
    } else {
        assert(payload.take(8) =~= bound_header());
        assert(payload.take(8)[6] == 50u8);
        assert(payload.skip(12) =~= encode_all::<BoundReservation>(fields));
        lemma_parse_encode_all::<BoundReservation>(fields);
    }
    assert forall|i: int, j: int| 0 <= i < j < fields.len() implies (#[trigger] fields[i]).nonce
        != (#[trigger] fields[j]).nonce by {
        assert(fields[i].nonce == entries[i].0);
        assert(fields[j].nonce == entries[j].0);
        crate::bytes::lemma_bytes_less_irreflexive(entries[i].0@);
        assert(crate::bytes::bytes_less(entries[i].0@, entries[j].0@));
    }
    if holds_all(reopened, fields) {
        lemma_holds_all_determines(entries, reopened);
    }
}

proof fn lemma_holds_all_determines(
    entries: Seq<([u8; 32], ReservationRecord)>,
    reopened: Seq<([u8; 32], ReservationRecord)>,
)
    requires
        reservations_wf(entries),
        reservations_wf(reopened),
        holds_all(reopened, listed(entries)),
    ensures
        reopened == entries,
{
    let fields = listed(entries);
    assert forall|i: int| 0 <= i < entries.len() implies value_of(
        reopened,
        (#[trigger] entries[i]).0,
    ) == Some(entries[i].1) by {
        assert(fields[i].nonce == entries[i].0);
        ReservationRecord::lemma_view_determines(
            value_of(reopened, fields[i].nonce).unwrap(),
            entries[i].1,
        );
    }
    lemma_entries_contained(entries, reopened);
}

/// Whether every nonce has a reservation.
pub open spec fn all_known(
    entries: Seq<([u8; 32], ReservationRecord)>,
    nonces: Seq<[u8; 32]>,
) -> bool {
    forall|i: int| 0 <= i < nonces.len() ==> has_id(entries, #[trigger] nonces[i])
}

/// What the reservation of a nonce says.
pub open spec fn reservation_of(
    entries: Seq<([u8; 32], ReservationRecord)>,
    nonce: [u8; 32],
) -> ReservationFields {
    value_of(entries, nonce).unwrap()@
}

/// Whether known reservations may be consumed by the result of an epoch: each belongs to the
/// epoch and is not released, no participant has two, and they are those of the result's members.
pub open spec fn finalizable(
    entries: Seq<([u8; 32], ReservationRecord)>,
    epoch_id: [u8; 32],
    nonces: Seq<[u8; 32]>,
    members: Seq<([u8; 32], PoolBalance)>,
) -> bool {
    &&& nonces.len() == members.len()
    &&& forall|i: int|
        0 <= i < nonces.len() ==> finalizable_one(entries, epoch_id, #[trigger] nonces[i], members)
    &&& forall|i: int, j: int|
        0 <= i < j < nonces.len() ==> reservation_of(entries, #[trigger] nonces[i]).participant_id
            != reservation_of(entries, #[trigger] nonces[j]).participant_id
}

/// Whether one reservation may be consumed by the result of an epoch.
pub open spec fn finalizable_one(
    entries: Seq<([u8; 32], ReservationRecord)>,
    epoch_id: [u8; 32],
    nonce: [u8; 32],
    members: Seq<([u8; 32], PoolBalance)>,
) -> bool {
    let fields = reservation_of(entries, nonce);
    &&& fields.epoch_id == epoch_id
    &&& fields.state != ReservationState::Released
    &&& has_id(members, fields.participant_id)
}

/// Whether one of the reservations was consumed before.
pub open spec fn some_used(
    entries: Seq<([u8; 32], ReservationRecord)>,
    nonces: Seq<[u8; 32]>,
) -> bool {
    exists|i: int|
        0 <= i < nonces.len() && reservation_of(entries, #[trigger] nonces[i]).state
            == ReservationState::Used
}

/// Whether known reservations may be given back for an epoch: each belongs to it and none was
/// consumed.
pub open spec fn releasable(
    entries: Seq<([u8; 32], ReservationRecord)>,
    epoch_id: [u8; 32],
    nonces: Seq<[u8; 32]>,
) -> bool {
    forall|i: int|
        0 <= i < nonces.len() ==> reservation_of(entries, #[trigger] nonces[i]).epoch_id
            == epoch_id && reservation_of(entries, nonces[i]).state != ReservationState::Used
}

impl ReservationJournal {
    fn knows_all(&self, nonces: &[[u8; 32]]) -> (known: bool)
        requires
            self.wf(),
        ensures
            known == all_known(self@, nonces@),
    {
        let mut i: usize = 0;
        while i < nonces.len()
            invariant
                self.wf(),
                i <= nonces@.len(),
                forall|k: int| 0 <= k < i ==> has_id(self@, #[trigger] nonces@[k]),
            decreases nonces@.len() - i,
        {
            if self.records.get(&nonces[i]).is_none() {
                assert(!has_id(self@, nonces@[i as int]));
                return false;
            }
            i += 1;
        }
        true
    }

    /// Checks that the result of an epoch may consume reservations; the answer is whether one of
    /// them was consumed before. An unknown nonce is refused first.
    pub fn check_finalize(
        &self,
        epoch_id: [u8; 32],
        nonces: &[[u8; 32]],
        members: &IdMap<PoolBalance>,
    ) -> (outcome: Result<bool, JournalError>)
        requires
            self.wf(),
            members.wf(),
        ensures
            match outcome {
                Ok(had_used) => all_known(self@, nonces@) && finalizable(
                    self@,
                    epoch_id,
                    nonces@,
                    members@,
                ) && had_used == some_used(self@, nonces@),
                Err(JournalError::UnknownNonce) => !all_known(self@, nonces@),
                Err(error) => error == JournalError::InvalidTransition && all_known(self@, nonces@)
                    && !finalizable(self@, epoch_id, nonces@, members@),
            },
    {
        if !self.knows_all(nonces) {
            return Err(JournalError::UnknownNonce);
        }
        if nonces.len() != members.len() {
            return Err(JournalError::InvalidTransition);
        }
        let mut participants: IdMap<()> = IdMap::new();
        let mut had_used: bool = false;
        let mut i: usize = 0;
        while i < nonces.len()
            invariant
                self.wf(),
                members.wf(),
                participants.wf(),
                i <= nonces@.len(),
                nonces@.len() == members@.len(),
                all_known(self@, nonces@),
                forall|k: int|
                    0 <= k < i ==> finalizable_one(self@, epoch_id, #[trigger] nonces@[k], members@),
                forall|j: int, k: int|
                    0 <= j < k < i ==> reservation_of(self@, #[trigger] nonces@[j]).participant_id
                        != reservation_of(self@, #[trigger] nonces@[k]).participant_id,
                forall|id: [u8; 32]| #[trigger]
                    value_of(participants@, id) is Some <==> exists|k: int|
                        0 <= k < i && reservation_of(self@, #[trigger] nonces@[k]).participant_id
                            == id,
                had_used == exists|k: int|
                    0 <= k < i && reservation_of(self@, #[trigger] nonces@[k]).state
                        == ReservationState::Used,
            decreases nonces@.len() - i,
        {
            let nonce = nonces[i];
            assert(has_id(self@, nonces@[i as int]));
            let record = match self.records.get(&nonce) {
                Some(record) => record,
                None => {
                    return Err(JournalError::UnknownNonce);
                },
            };
            assert(reservation_of(self@, nonces@[i as int]) == record@);
            if !same_array(&record.epoch_id, &epoch_id) || record.state
                == ReservationState::Released || members.get(&record.participant_id).is_none() {
                assert(!finalizable_one(self@, epoch_id, nonces@[i as int], members@));
                return Err(JournalError::InvalidTransition);
            }
            if participants.get(&record.participant_id).is_some() {
                proof {
                    let k = choose|k: int|
                        0 <= k < i && reservation_of(self@, #[trigger] nonces@[k]).participant_id
                            == record@.participant_id;
                    assert(reservation_of(self@, nonces@[k]).participant_id == reservation_of(
                        self@,
                        nonces@[i as int],
                    ).participant_id);
                }
                return Err(JournalError::InvalidTransition);
            }
            let ghost seen = participants@;
            participants.insert(record.participant_id, ());
            proof {
                assert forall|id: [u8; 32]| #[trigger]
                    value_of(participants@, id) is Some <==> exists|k: int|
                        0 <= k < i + 1 && reservation_of(self@, #[trigger] nonces@[k]).participant_id
                            == id by {
                    if id == record@.participant_id {
                        assert(reservation_of(self@, nonces@[i as int]).participant_id == id);
                    } else {
                        assert(value_of(participants@, id) == value_of(seen, id));
                        assert(value_of(seen, id) is Some <==> exists|k: int|
                            0 <= k < i && reservation_of(
                                self@,
                                #[trigger] nonces@[k],
                            ).participant_id == id);
                    }
                }
                assert forall|j: int, k: int| 0 <= j < k < i + 1 implies reservation_of(
                    self@,
                    #[trigger] nonces@[j],
                ).participant_id != reservation_of(self@, #[trigger] nonces@[k]).participant_id by {
                    if k == i {
                        let id = reservation_of(self@, nonces@[j]).participant_id;
                        assert(value_of(seen, id) is Some);
                    }
                }
            }
            if record.state == ReservationState::Used {
                had_used = true;
                assert(reservation_of(self@, nonces@[i as int]).state == ReservationState::Used);
            }
            i += 1;
        }
        Ok(had_used)
    }

    /// Checks that reservations may be given back for an epoch. An unknown nonce is refused first.
    pub fn check_release(&self, epoch_id: [u8; 32], nonces: &[[u8; 32]]) -> (outcome: Result<
        (),
        JournalError,
    >)
        requires
            self.wf(),
        ensures
            match outcome {
                Ok(_) => all_known(self@, nonces@) && releasable(self@, epoch_id, nonces@),
                Err(JournalError::UnknownNonce) => !all_known(self@, nonces@),
                Err(error) => error == JournalError::InvalidTransition && all_known(self@, nonces@)
                    && !releasable(self@, epoch_id, nonces@),
            },
    {
        if !self.knows_all(nonces) {
            return Err(JournalError::UnknownNonce);
        }
        let mut i: usize = 0;
        while i < nonces.len()
            invariant
                self.wf(),
                i <= nonces@.len(),
                all_known(self@, nonces@),
                forall|k: int|
                    0 <= k < i ==> reservation_of(self@, #[trigger] nonces@[k]).epoch_id
                        == epoch_id && reservation_of(self@, nonces@[k]).state
                        != ReservationState::Used,
            decreases nonces@.len() - i,
        {
            let nonce = nonces[i];
            assert(has_id(self@, nonces@[i as int]));
            let record = match self.records.get(&nonce) {
                Some(record) => record,
                None => {
                    return Err(JournalError::UnknownNonce);
                },
            };
            assert(reservation_of(self@, nonces@[i as int]) == record@);
            if !same_array(&record.epoch_id, &epoch_id) || record.state == ReservationState::Used {
                return Err(JournalError::InvalidTransition);
            }
            i += 1;
        }
        Ok(())
    }

    /// Gives known reservations one state.
    pub(crate) fn set_states(&mut self, nonces: &[[u8; 32]], state: ReservationState)
        requires
            old(self).wf(),
            all_known(old(self)@, nonces@),
        ensures
            final(self).wf(),
            states_set(old(self)@, final(self)@, nonces@, state),
    {
        let ghost before = self@;
        let mut i: usize = 0;
        assert(nonces@.take(0) =~= Seq::empty());
        while i < nonces.len()
            invariant
                self.wf(),
                before == old(self)@,
                i <= nonces@.len(),
                all_known(before, nonces@),
                states_set(before, self@, nonces@.take(i as int), state),
            decreases nonces@.len() - i,
        {
            let nonce = nonces[i];
            let ghost middle = self@;
            assert(has_id(before, nonces@[i as int]));
            assert(value_of(before, nonce) is Some);
            assert(value_of(middle, nonce) is Some);
            match self.records.get(&nonce) {
                Some(record) => {
                    self.set_state(nonce, record, state);
                },
                None => {
                    assert(false);
                },
            }
            proof {
                let done = nonces@.take(i as int);
                let next = nonces@.take(i + 1);
                assert(next =~= done.push(nonce));
                assert(next[i as int] == nonce);
                assert forall|n: [u8; 32]| #[trigger]
                    value_of(self@, n) is Some <==> value_of(before, n) is Some by {
                    assert(value_of(self@, n) is Some <==> value_of(middle, n) is Some);
                    assert(value_of(middle, n) is Some <==> value_of(before, n) is Some);
                }
                assert forall|n: [u8; 32]|
                    #![trigger value_of(self@, n)]
                    value_of(before, n) matches Some(record) ==> value_of(self@, n).unwrap()@ == (
                    if next.contains(n) {
                        in_state(record@, state)
                    } else {
                        record@
                    }) by {
                    if value_of(before, n) is Some {
                        assert(value_of(middle, n) is Some);
                        assert(next.contains(n) <==> done.contains(n) || n == nonce) by {
                            if next.contains(n) {
                                let k = choose|k: int| 0 <= k < next.len() && next[k] == n;
                                if k < i {
                                    assert(done[k] == n);
                                }
                            }
                            if done.contains(n) {
                                let k = choose|k: int| 0 <= k < done.len() && done[k] == n;
                                assert(next[k] == n);
                            }
                        }
                        assert(seq![nonce].contains(n) <==> n == nonce) by {
                            assert(seq![nonce][0] == nonce);
                        }
                    }
                }
            }
            i += 1;
        }
        assert(nonces@.take(i as int) =~= nonces@);
    }
}

/// A reservation file counts and names its reservations, no nonce twice, each of them with amounts: those
/// of the first form are bound to no epoch, those of the second to the one that they name. Nothing else is
/// such a file.
pub proof fn law_reservation_files_are_exact(bytes: Seq<u8>, fields: Seq<ReservationFields>)
    ensures
        reservation_file(bytes) == Some(fields) <==> {
            let counted = spec_u32_to_le_bytes(fields.len() as u32);
            &&& fields.len() <= u32::MAX
            &&& forall|i: int, j: int|
                0 <= i < j < fields.len() ==> (#[trigger] fields[i]).nonce != (
                #[trigger] fields[j]).nonce
            &&& forall|i: int|
                0 <= i < fields.len() ==> (#[trigger] fields[i]).base_atoms > 0
                    && fields[i].quote_atoms > 0
            &&& {
                ||| bytes == sealed(
                    unbound_header() + counted + encode_all::<UnboundReservation>(fields),
                ) && (forall|i: int|
                    0 <= i < fields.len() ==> (#[trigger] fields[i]).epoch_id@ == zeros(32))
                ||| bytes == sealed(
                    bound_header() + counted + encode_all::<BoundReservation>(fields),
                )
            }
        },
{
    lemma_auto_spec_u32_to_from_le_bytes();
    let counted = spec_u32_to_le_bytes(fields.len() as u32);
    if reservation_file(bytes) == Some(fields) {
        let payload = unsealed(bytes).unwrap();
        lemma_seal(bytes, payload);
        lemma_encode_parse_all::<UnboundReservation>(payload.skip(12));
        lemma_encode_parse_all::<BoundReservation>(payload.skip(12));
        assert(payload.subrange(8, 12) =~= counted);
        assert(payload =~= payload.take(8) + payload.subrange(8, 12) + payload.skip(12));
        if payload.take(8) == unbound_header() {
            assert forall|i: int| 0 <= i < fields.len() implies (#[trigger] fields[i]).base_atoms
                > 0 && fields[i].quote_atoms > 0 && fields[i].epoch_id@ == zeros(32) by {
                assert(UnboundReservation::valid(fields[i]));
            }
        } else {
            assert forall|i: int| 0 <= i < fields.len() implies (#[trigger] fields[i]).base_atoms
                > 0 && fields[i].quote_atoms > 0 by {
                assert(BoundReservation::valid(fields[i]));
            }
        }
    }
    if fields.len() <= u32::MAX && nonces_distinct(fields) && (forall|i: int|
        0 <= i < fields.len() ==> (#[trigger] fields[i]).base_atoms > 0 && fields[i].quote_atoms
            > 0) {
        if forall|i: int| 0 <= i < fields.len() ==> (#[trigger] fields[i]).epoch_id@ == zeros(32) {
            assert forall|i: int| 0 <= i < fields.len() implies UnboundReservation::valid(
                #[trigger] fields[i],
            ) by {}
            let payload = unbound_header() + counted + encode_all::<UnboundReservation>(fields);
            lemma_seal(sealed(payload), payload);
            lemma_parse_encode_all::<UnboundReservation>(fields);
            assert(payload.take(8) =~= unbound_header());
            assert(payload.subrange(8, 12) =~= counted);
            assert(payload.skip(12) =~= encode_all::<UnboundReservation>(fields));
        }
        assert forall|i: int| 0 <= i < fields.len() implies BoundReservation::valid(
            #[trigger] fields[i],
        ) by {}
        let payload = bound_header() + counted + encode_all::<BoundReservation>(fields);
        lemma_seal(sealed(payload), payload);
        lemma_parse_encode_all::<BoundReservation>(fields);
        assert(payload.take(8) =~= bound_header());
        assert(bound_header()[6] != unbound_header()[6]);
        assert(payload.subrange(8, 12) =~= counted);
        assert(payload.skip(12) =~= encode_all::<BoundReservation>(fields));
    }
}

} // verus!
