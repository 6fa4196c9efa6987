//! Trading keys that may not receive an authorization any more.

use crate::admission::{AuthorizationFields, UnsignedFundedAuthorizationV1};
use crate::bytes::{
    append, bytes_less, id_less, lemma_bytes_less_total, lemma_bytes_less_transitive, read_array,
    same_array, same_bytes,
};
use crate::codec::{
    encode_all, lemma_parse_encode_all, lemma_seal, parse_all, read_all, seal, sealed, unseal,
    unsealed, views, write_all, Entry,
};
use crate::crypto::{authorization_refusal, funded_message, FundedAuthorizationV1, PolicyFields};
use crate::commitment::hashes_sorted;
use crate::signing::{ed25519_signed, SigningKey, VerifyingKey};
use vstd::prelude::*;
use vstd::slice::slice_subrange;

verus! {

/// Why a registry refuses.
#[derive(Clone, Copy, Debug, PartialEq, Eq, Structural)]
pub enum SuspensionError {
    Corrupt,
    Suspended,
}

/// A suspended trading key, as a registry file lists it.
#[derive(Clone, Copy)]
pub struct SuspendedKey {
    pub key: [u8; 32],
}

impl View for SuspendedKey {
    type V = [u8; 32];

    open spec fn view(&self) -> [u8; 32] {
        self.key
    }
}

impl Entry for SuspendedKey {
    open spec fn width() -> nat {
        32
    }

    open spec fn valid(value: [u8; 32]) -> bool {
        true
    }

    open spec fn encoded(value: [u8; 32]) -> Seq<u8> {
        value@
    }

    proof fn lemma_encoded(a: [u8; 32], b: [u8; 32]) {
        if a@ == b@ {
            assert(a =~= b);
        }
    }

    fn size() -> (size: usize) {
        32
    }

    fn parse(bytes: &[u8]) -> (record: Option<Self>) {
        let key = read_array::<32>(bytes, 0);
        assert(bytes@ =~= key@);
        Some(SuspendedKey { key })
    }

    fn write(&self, out: &mut Vec<u8>) {
        append(out, self.key.as_slice());
    }
}

/// The header of a registry file: `KGBSUS1` and a zero byte.
pub open spec fn registry_header() -> Seq<u8> {
    seq![75u8, 71u8, 66u8, 83u8, 85u8, 83u8, 49u8, 0u8]
}

/// The payload of a registry file.
pub open spec fn registry_payload(keys: Seq<[u8; 32]>) -> Seq<u8> {
    registry_header() + encode_all::<SuspendedKey>(keys)
}

/// The keys that a registry file lists in order, where it is one.
pub open spec fn registry_file(bytes: Seq<u8>) -> Option<Seq<[u8; 32]>> {
    match unsealed(bytes) {
        Some(payload) => if payload.len() >= 8 && payload.take(8) == registry_header() {
            match parse_all::<SuspendedKey>(payload.skip(8)) {
                Some(keys) => if hashes_sorted(keys) {
                    Some(keys)
                } else {
                    None
                },
                None => None,
            }
        } else {
            None
        },
        None => None,
    }
}

proof fn lemma_sorted_push(keys: Seq<[u8; 32]>, key: [u8; 32])
    requires
        hashes_sorted(keys),
        keys.len() > 0 ==> bytes_less(keys.last()@, key@),
    ensures
        hashes_sorted(keys.push(key)),
{
    let n = keys.len();
    let next = keys.push(key);
    assert forall|i: int, j: int| 0 <= i < j < next.len() implies bytes_less(
        #[trigger] next[i]@,
        #[trigger] next[j]@,
    ) by {
        if j == n {
            if i < n - 1 {
                assert(bytes_less(keys[i]@, keys[n - 1]@));
                lemma_bytes_less_transitive(keys[i]@, keys[n - 1]@, key@);
            }
        } else {
            assert(bytes_less(keys[i]@, keys[j]@));
        }
    }
}

proof fn lemma_sorted_insert(keys: Seq<[u8; 32]>, at: int, key: [u8; 32])
    requires
        hashes_sorted(keys),
        0 <= at <= keys.len(),
        forall|k: int| 0 <= k < at ==> bytes_less((#[trigger] keys[k])@, key@),
        at < keys.len() ==> !bytes_less(keys[at]@, key@) && keys[at] != key,
    ensures
        hashes_sorted(keys.insert(at, key)),
        forall|other: [u8; 32]| #[trigger]
            keys.insert(at, key).contains(other) <==> other == key || keys.contains(other),
{
    let next = keys.insert(at, key);
    if at < keys.len() {
        lemma_bytes_less_total(keys[at]@, key@);
        if keys[at]@ == key@ {
            assert(keys[at] =~= key);
        }
    }
    assert forall|i: int, j: int| 0 <= i < j < next.len() implies bytes_less(
        #[trigger] next[i]@,
        #[trigger] next[j]@,
    ) by {
        if i < at && j > at {
            assert(bytes_less(keys[i]@, keys[j - 1]@));
        } else if i < at && j < at {
            assert(bytes_less(keys[i]@, keys[j]@));
        } else if i == at {
            if j - 1 > at {
                assert(bytes_less(keys[at]@, keys[j - 1]@));
                lemma_bytes_less_transitive(key@, keys[at]@, keys[j - 1]@);
            }
        } else if i > at {
            assert(bytes_less(keys[i - 1]@, keys[j - 1]@));
        }
    }
    assert forall|other: [u8; 32]| #[trigger] next.contains(other) <==> other == key
        || keys.contains(other) by {
        if keys.contains(other) {
            let k = choose|k: int| 0 <= k < keys.len() && keys[k] == other;
            assert(next[if k < at { k } else { k + 1 }] == other);
        }
        if next.contains(other) && other != key {
            let k = choose|k: int| 0 <= k < next.len() && next[k] == other;
            assert(keys[if k < at { k } else { k - 1 }] == other);
        }
        assert(next[at] == key);
    }
}

/// The trading keys that are suspended.
pub struct SuspensionRegistry {
    keys: Vec<[u8; 32]>,
}

impl View for SuspensionRegistry {
    type V = Seq<[u8; 32]>;

    closed spec fn view(&self) -> Seq<[u8; 32]> {
        self.keys@
    }
}

/// Whether suspending a key leaves a registry with the keys that it had and that one.
pub open spec fn key_suspended(
    before: Seq<[u8; 32]>,
    after: Seq<[u8; 32]>,
    trading_key: [u8; 32],
) -> bool {
    forall|key: [u8; 32]| #[trigger]
        after.contains(key) <==> key == trading_key || before.contains(key)
}

/// What an operator answers to a reservation and a trading key.
pub open spec fn authorization_issued(
    suspended: Seq<[u8; 32]>,
    reserved: AuthorizationFields,
    epoch_id: [u8; 32],
    trading_key: [u8; 32],
    operator: [u8; 32],
    secret: [u8; 32],
    expiry_slot: u64,
    authorization: Result<FundedAuthorizationV1, SuspensionError>,
) -> bool {
    match authorization {
        Ok(authorization) => {
            let fields = authorization@;
            &&& !suspended.contains(trading_key)
            &&& fields.version == 1
            &&& fields.operator_key == operator
            &&& fields.epoch_id == epoch_id
            &&& fields.participant_id == reserved.participant_id
            &&& fields.trading_key == trading_key
            &&& fields.nonce == reserved.nonce
            &&& fields.base_atoms == reserved.base_atoms
            &&& fields.quote_atoms == reserved.quote_atoms
            &&& fields.expiry_slot == expiry_slot
            &&& fields.operator_signature == ed25519_signed(secret@, funded_message(fields))
            &&& forall|policy: PolicyFields|
                policy.operator_key == operator && policy.epoch_id == epoch_id && policy.base_atoms
                    == reserved.base_atoms && policy.quote_atoms == reserved.quote_atoms
                    && policy.current_slot <= expiry_slot ==> (#[trigger] authorization_refusal(
                    fields,
                    policy,
                )) is None
        },
        Err(error) => error == SuspensionError::Suspended && suspended.contains(trading_key),
    }
}

impl SuspensionRegistry {
    /// Keys stand in order, each once.
    pub open spec fn wf(&self) -> bool {
        hashes_sorted(self@)
    }

    /// Opens a registry from the contents of its file; a missing file is a new registry.
    pub fn open(file: Option<&[u8]>) -> (registry: Result<Self, SuspensionError>)
        ensures
            match registry {
                Ok(registry) => registry.wf() && match file {
                    None => registry@.len() == 0,
                    Some(bytes) => registry_file(bytes@) == Some(registry@),
                },
                Err(error) => error == SuspensionError::Corrupt && (file matches Some(bytes)
                    && registry_file(bytes@) is None),
            },
    {
        let bytes = match file {
            None => {
                return Ok(SuspensionRegistry { keys: Vec::new() });
            },
            Some(bytes) => bytes,
        };
        let payload = match unseal(bytes) {
            Some(payload) => payload,
            None => {
                return Err(SuspensionError::Corrupt);
            },
        };
        if payload.len() < 8 {
            return Err(SuspensionError::Corrupt);
        }
        let header: [u8; 8] = [75u8, 71u8, 66u8, 83u8, 85u8, 83u8, 49u8, 0u8];
        assert(header@ =~= registry_header());
        let head = slice_subrange(payload, 0, 8);
        assert(head@ =~= payload@.take(8));
        if !same_bytes(head, header.as_slice()) {
            return Err(SuspensionError::Corrupt);
        }
        let rest = slice_subrange(payload, 8, payload.len());
        assert(rest@ =~= payload@.skip(8));
        let list = match read_all::<SuspendedKey>(rest) {
            Some(list) => list,
            None => {
                return Err(SuspensionError::Corrupt);
            },
        };
        let ghost all = views(list@);
        let mut keys: Vec<[u8; 32]> = Vec::new();
        let mut i: usize = 0;
        assert(keys@ =~= all.take(0));
        while i < list.len()
            invariant
                i <= list@.len(),
                all == views(list@),
                file == Some(bytes),
                registry_file(bytes@) == (if hashes_sorted(all) {
                    Some(all)
                } else {
                    None
                }),
                hashes_sorted(keys@),
                keys@ == all.take(i as int),
            decreases list@.len() - i,
        {
            let key = list[i].key;
            assert(all[i as int] == key);
            if i > 0 && !id_less(&keys[i - 1], &key) {
                assert(!bytes_less(all[i - 1]@, all[i as int]@));
                return Err(SuspensionError::Corrupt);
            }
            let ghost before = keys@;
            keys.push(key);
            proof {
                assert(all.take(i + 1) =~= all.take(i as int).push(key));
                lemma_sorted_push(before, key);
            }
            i += 1;
        }
        assert(all.take(i as int) =~= all);
        Ok(SuspensionRegistry { keys })
    }

    /// The contents of the registry's file.
    pub fn encode(&self) -> (bytes: Vec<u8>)
        ensures
            bytes@ == sealed(registry_payload(self@)),
    {
        let header: [u8; 8] = [75u8, 71u8, 66u8, 83u8, 85u8, 83u8, 49u8, 0u8];
        assert(header@ =~= registry_header());
        let mut list: Vec<SuspendedKey> = Vec::new();
        let mut i: usize = 0;
        assert(views(list@) =~= self.keys@.take(0));
        while i < self.keys.len()
            invariant
                i <= self.keys@.len(),
                views(list@) == self.keys@.take(i as int),
            decreases self.keys@.len() - i,
        {
            let key = self.keys[i];
            proof {
                crate::codec::lemma_views_push(list@, SuspendedKey { key });
                assert(self.keys@.take(i + 1) =~= self.keys@.take(i as int).push(key));
            }
            list.push(SuspendedKey { key });
            i += 1;
        }
        assert(self.keys@.take(i as int) =~= self.keys@);
        let mut bytes: Vec<u8> = Vec::new();
        append(&mut bytes, header.as_slice());
        write_all::<SuspendedKey>(&mut bytes, list.as_slice());
        assert(bytes@ =~= registry_payload(self@));
        seal(bytes)
    }

    /// Suspends a trading key.
    pub fn suspend(&mut self, trading_key: [u8; 32])
        requires
            old(self).wf(),
        ensures
            final(self).wf(),
            key_suspended(old(self)@, final(self)@, trading_key),
    {
        let mut at: usize = 0;
        while at < self.keys.len() && id_less(&self.keys[at], &trading_key)
            invariant
                at <= self.keys@.len(),
                forall|k: int| 0 <= k < at ==> bytes_less((#[trigger] self.keys@[k])@, trading_key@),
            decreases self.keys@.len() - at,
        {
            at += 1;
        }
        if at < self.keys.len() && same_array(&self.keys[at], &trading_key) {
            assert(self@[at as int] == trading_key);
            return;
        }
        let ghost before = self.keys@;
        self.keys.insert(at, trading_key);
        proof {
            lemma_sorted_insert(before, at as int, trading_key);
            assert(self@ =~= before.insert(at as int, trading_key));
        }
    }

    pub fn is_suspended(&self, trading_key: [u8; 32]) -> (suspended: bool)
        ensures
            suspended == self@.contains(trading_key),
    {
        let mut i: usize = 0;
        while i < self.keys.len()
            invariant
                i <= self.keys@.len(),
                forall|k: int| 0 <= k < i ==> #[trigger] self.keys@[k] != trading_key,
            decreases self.keys@.len() - i,
        {
            if same_array(&self.keys[i], &trading_key) {
                assert(self@[i as int] == trading_key);
                return true;
            }
            i += 1;
        }
        false
    }

    /// Signs an authorization for a recorded reservation, unless the trading key is suspended.
    pub fn issue_authorization(
        &self,
        reserved: UnsignedFundedAuthorizationV1,
        epoch_id: [u8; 32],
        trading_key: VerifyingKey,
        operator: &SigningKey,
        expiry_slot: u64,
    ) -> (authorization: Result<FundedAuthorizationV1, SuspensionError>)
        ensures
            authorization_issued(
                self@,
                reserved@,
                epoch_id,
                trading_key@,
                operator.public(),
                operator.secret(),
                expiry_slot,
                authorization,
            ),
    {
        if self.is_suspended(trading_key.to_bytes()) {
            return Err(SuspensionError::Suspended);
        }
        Ok(FundedAuthorizationV1::sign(reserved, epoch_id, trading_key, operator, expiry_slot))
    }
}

/// A registry comes back from its file: a suspended key stays suspended after a restart.
pub proof fn law_suspensions_survive_a_restart(keys: Seq<[u8; 32]>)
    requires
        hashes_sorted(keys),
    ensures
        registry_file(sealed(registry_payload(keys))) == Some(keys),
{
    let payload = registry_payload(keys);
    lemma_seal(sealed(payload), payload);
    lemma_parse_encode_all::<SuspendedKey>(keys);
    assert(payload.take(8) =~= registry_header());
    assert(payload.skip(8) =~= encode_all::<SuspendedKey>(keys));
}

/// A suspended key gets no authorization, whatever is reserved for it; every other key gets one exactly
/// where it got one before, for the participant, the amounts and the nonce of the reservation, for that
/// key and that epoch, and it is accepted wherever a policy asks for these until its last slot.
pub proof fn law_suspended_key_gets_no_authorization(
    before: Seq<[u8; 32]>,
    after: Seq<[u8; 32]>,
    suspended: [u8; 32],
    reserved: AuthorizationFields,
    epoch_id: [u8; 32],
    trading_key: [u8; 32],
    operator: [u8; 32],
    secret: [u8; 32],
    expiry_slot: u64,
    authorization: Result<FundedAuthorizationV1, SuspensionError>,
    policy: PolicyFields,
)
    requires
        key_suspended(before, after, suspended),
        authorization_issued(
            after,
            reserved,
            epoch_id,
            trading_key,
            operator,
            secret,
            expiry_slot,
            authorization,
        ),
    ensures
        trading_key == suspended ==> authorization == Err::<FundedAuthorizationV1, _>(
            SuspensionError::Suspended,
        ),
        before.contains(trading_key) ==> authorization is Err,
        trading_key != suspended && !before.contains(trading_key) ==> authorization is Ok,
        authorization matches Ok(issued) ==> {
            &&& issued@.version == 1
            &&& issued@.operator_key == operator
            &&& issued@.epoch_id == epoch_id
            &&& issued@.participant_id == reserved.participant_id
            &&& issued@.trading_key == trading_key
            &&& issued@.nonce == reserved.nonce
            &&& issued@.base_atoms == reserved.base_atoms
            &&& issued@.quote_atoms == reserved.quote_atoms
            &&& issued@.expiry_slot == expiry_slot
            &&& policy.operator_key == operator && policy.epoch_id == epoch_id && policy.base_atoms
                == reserved.base_atoms && policy.quote_atoms == reserved.quote_atoms
                && policy.current_slot <= expiry_slot ==> authorization_refusal(
                issued@,
                policy,
            ) is None
            &&& policy.current_slot > expiry_slot ==> authorization_refusal(
                issued@,
                policy,
            ) is Some
        },
{
    assert(after.contains(trading_key) <==> trading_key == suspended || before.contains(
        trading_key,
    ));
}

/// A registry's file holds exactly the keys that it names, in ascending order and each once.
pub proof fn law_registry_files_are_exact(bytes: Seq<u8>, keys: Seq<[u8; 32]>)
    ensures
        registry_file(bytes) == Some(keys) <==> bytes == sealed(registry_payload(keys)) && (forall|
            i: int,
            j: int,
        |
            0 <= i < j < keys.len() ==> bytes_less(#[trigger] keys[i]@, #[trigger] keys[j]@)),
{
    if hashes_sorted(keys) {
        law_suspensions_survive_a_restart(keys);
    }
    if registry_file(bytes) == Some(keys) {
        let payload = unsealed(bytes).unwrap();
        lemma_seal(bytes, payload);
        crate::codec::lemma_encode_parse_all::<SuspendedKey>(payload.skip(8));
        assert(payload =~= payload.take(8) + payload.skip(8));
    }
}

} // verus!
