//! Lists of fixed-width records, and byte strings sealed by their digest.

use crate::bytes::{
    append, bytes_less, lemma_bytes_less_irreflexive, read_array, same_bytes,
};
use crate::hash::{digest_of, sha256};
use crate::idmap::{ids_sorted, lemma_entries_contained, lemma_value_at, value_of, IdMap};
use vstd::prelude::*;
use vstd::slice::slice_subrange;

verus! {

/// A record whose wire form has one width.
pub trait Entry: View + Sized {
    /// The width of the wire form.
    spec fn width() -> nat;

    /// Whether a record may stand in a list.
    spec fn valid(value: Self::V) -> bool;

    /// The wire form of a record.
    spec fn encoded(value: Self::V) -> Seq<u8>;

    /// The wire form of a valid record has the width, and no two valid records share one.
    proof fn lemma_encoded(a: Self::V, b: Self::V)
        ensures
            Self::width() > 0,
            Self::valid(a) ==> Self::encoded(a).len() == Self::width(),
            Self::valid(a) && Self::valid(b) && Self::encoded(a) == Self::encoded(b) ==> a == b,
    ;

    fn size() -> (size: usize)
        ensures
            size == Self::width(),
            size > 0,
    ;

    fn parse(bytes: &[u8]) -> (record: Option<Self>)
        requires
            bytes@.len() == Self::width(),
        ensures
            match record {
                Some(record) => Self::valid(record@) && bytes@ == Self::encoded(record@),
                None => forall|value: Self::V|
                    Self::valid(value) ==> bytes@ != #[trigger] Self::encoded(value),
            },
    ;

    fn write(&self, out: &mut Vec<u8>)
        ensures
            final(out)@ == old(out)@ + Self::encoded(self@),
    ;
}

/// Whether a byte string is the wire form of a valid record.
pub open spec fn is_entry<T: Entry>(bytes: Seq<u8>) -> bool {
    exists|value: T::V| T::valid(value) && bytes == #[trigger] T::encoded(value)
}

/// The valid record that a byte string is the wire form of, where it is one.
pub open spec fn parsed<T: Entry>(bytes: Seq<u8>) -> Option<T::V> {
    if is_entry::<T>(bytes) {
        Some(choose|value: T::V| T::valid(value) && bytes == #[trigger] T::encoded(value))
    } else {
        None
    }
}

/// A valid record comes back from its wire form.
pub proof fn lemma_parsed<T: Entry>(value: T::V)
    requires
        T::valid(value),
    ensures
        parsed::<T>(T::encoded(value)) == Some(value),
{
    let bytes = T::encoded(value);
    assert(is_entry::<T>(bytes));
    let other = parsed::<T>(bytes).unwrap();
    T::lemma_encoded(value, other);
}

/// What records say.
pub open spec fn views<T: View>(records: Seq<T>) -> Seq<T::V> {
    records.map_values(|record: T| record@)
}

/// What one record more says.
pub proof fn lemma_views_push<T: View>(records: Seq<T>, record: T)
    ensures
        views(records.push(record)) == views(records).push(record@),
{
    assert(views(records.push(record)) =~= views(records).push(record@));
}

/// The wire forms of records, one after another.
pub open spec fn encode_all<T: Entry>(values: Seq<T::V>) -> Seq<u8>
    decreases values.len(),
{
    if values.len() == 0 {
        Seq::empty()
    } else {
        T::encoded(values[0]) + encode_all::<T>(values.skip(1))
    }
}

/// The records that a byte string is made of, where it is made of records.
pub open spec fn parse_all<T: Entry>(bytes: Seq<u8>) -> Option<Seq<T::V>>
    decreases bytes.len(),
{
    if bytes.len() == 0 {
        Some(Seq::empty())
    } else if bytes.len() < T::width() || T::width() == 0 {
        None
    } else {
        match (parsed::<T>(bytes.take(T::width() as int)), parse_all::<T>(
            bytes.skip(T::width() as int),
        )) {
            (Some(first), Some(rest)) => Some(seq![first] + rest),
            _ => None,
        }
    }
}

/// Records come back from their wire forms.
pub proof fn lemma_parse_encode_all<T: Entry>(values: Seq<T::V>)
    requires
        forall|i: int| 0 <= i < values.len() ==> T::valid(#[trigger] values[i]),
    ensures
        parse_all::<T>(encode_all::<T>(values)) == Some(values),
    decreases values.len(),
{
    if values.len() > 0 {
        let rest = values.skip(1);
        assert forall|i: int| 0 <= i < rest.len() implies T::valid(#[trigger] rest[i]) by {
            assert(rest[i] == values[i + 1]);
        }
        lemma_parse_encode_all::<T>(rest);
        T::lemma_encoded(values[0], values[0]);
        let bytes = encode_all::<T>(values);
        let w = T::width() as int;
        assert(bytes.take(w) =~= T::encoded(values[0]));
        assert(bytes.skip(w) =~= encode_all::<T>(rest));
        assert(T::valid(values[0]));
        lemma_parsed::<T>(values[0]);
        assert(seq![values[0]] + rest =~= values);
    } else {
        assert(values =~= Seq::empty());
    }
}

/// What parses to records is made of their wire forms, and each is valid.
pub proof fn lemma_encode_parse_all<T: Entry>(bytes: Seq<u8>)
    ensures
        parse_all::<T>(bytes) matches Some(values) ==> bytes == encode_all::<T>(values) && (forall|
            i: int,
        |
            0 <= i < values.len() ==> T::valid(#[trigger] values[i])),
    decreases bytes.len(),
{
    if let Some(values) = parse_all::<T>(bytes) {
        if bytes.len() == 0 {
            assert(bytes =~= encode_all::<T>(values));
        } else {
            let w = T::width() as int;
            lemma_encode_parse_all::<T>(bytes.skip(w));
            assert(is_entry::<T>(bytes.take(w)));
            let rest = parse_all::<T>(bytes.skip(w)).unwrap();
            assert(values.skip(1) =~= rest);
            assert(bytes =~= bytes.take(w) + bytes.skip(w));
            assert forall|i: int| 0 <= i < values.len() implies T::valid(#[trigger] values[i]) by {
                if i > 0 {
                    assert(values[i] == rest[i - 1]);
                }
            }
        }
    }
}

/// The length of a list in bytes.
pub proof fn lemma_encode_all_len<T: Entry>(values: Seq<T::V>)
    requires
        forall|i: int| 0 <= i < values.len() ==> T::valid(#[trigger] values[i]),
    ensures
        encode_all::<T>(values).len() == values.len() * T::width(),
    decreases values.len(),
{
    if values.len() > 0 {
        let rest = values.skip(1);
        assert forall|i: int| 0 <= i < rest.len() implies T::valid(#[trigger] rest[i]) by {
            assert(rest[i] == values[i + 1]);
        }
        lemma_encode_all_len::<T>(rest);
        T::lemma_encoded(values[0], values[0]);
        assert(T::valid(values[0]));
        let n = values.len() as int;
        let w = T::width() as int;
        assert((n - 1) * w + w == n * w) by (nonlinear_arith);
    }
}

/// One record more adds its wire form at the end.
pub proof fn lemma_encode_all_push<T: Entry>(values: Seq<T::V>, value: T::V)
    ensures
        encode_all::<T>(values.push(value)) == encode_all::<T>(values) + T::encoded(value),
    decreases values.len(),
{
    let more = values.push(value);
    if values.len() == 0 {
        assert(more.skip(1) =~= Seq::empty());
        assert(more[0] == value);
        assert(encode_all::<T>(more.skip(1)) =~= Seq::empty());
        assert(encode_all::<T>(more) =~= encode_all::<T>(values) + T::encoded(value));
    } else {
        assert(more.skip(1) =~= values.skip(1).push(value));
        lemma_encode_all_push::<T>(values.skip(1), value);
        assert(encode_all::<T>(more) =~= encode_all::<T>(values) + T::encoded(value));
    }
}

/// Appends the wire forms of records.
pub fn write_all<T: Entry>(out: &mut Vec<u8>, records: &[T])
    ensures
        final(out)@ == old(out)@ + encode_all::<T>(views(records@)),
{
    let mut i: usize = 0;
    let ghost values = views(records@);
    assert(values.take(0) =~= Seq::empty());
    assert(out@ =~= old(out)@ + encode_all::<T>(values.take(0)));
    while i < records.len()
        invariant
            i <= records@.len(),
            values == views(records@),
            out@ == old(out)@ + encode_all::<T>(values.take(i as int)),
        decreases records@.len() - i,
    {
        records[i].write(out);
        proof {
            lemma_encode_all_push::<T>(values.take(i as int), values[i as int]);
            assert(values.take(i as int).push(values[i as int]) =~= values.take(i + 1));
            assert(out@ =~= old(out)@ + encode_all::<T>(values.take(i + 1)));
        }
        i += 1;
    }
    assert(values.take(i as int) =~= values);
}

/// Reads a byte string that is made of records.
pub fn read_all<T: Entry>(bytes: &[u8]) -> (records: Option<Vec<T>>)
    ensures
        match records {
            Some(records) => parse_all::<T>(bytes@) == Some(views(records@)),
            None => parse_all::<T>(bytes@) is None,
        },
{
    let mut records: Vec<T> = Vec::new();
    let mut at: usize = 0;
    let width: usize = T::size();
    assert(bytes@.skip(0) =~= bytes@);
    proof {
        assert(views(records@) =~= Seq::<T::V>::empty());
        if let Some(rest) = parse_all::<T>(bytes@) {
            assert(views(records@) + rest =~= rest);
        }
    }
    while at < bytes.len()
        invariant
            at <= bytes@.len(),
            width == T::width(),
            width > 0,
            match parse_all::<T>(bytes@.skip(at as int)) {
                Some(rest) => parse_all::<T>(bytes@) == Some(views(records@) + rest),
                None => parse_all::<T>(bytes@) is None,
            },
        decreases bytes@.len() - at,
    {
        let ghost tail = bytes@.skip(at as int);
        if bytes.len() - at < width {
            return None;
        }
        let chunk = slice_subrange(bytes, at, at + width);
        assert(chunk@ =~= tail.take(width as int));
        assert(tail.skip(width as int) =~= bytes@.skip(at + width));
        match T::parse(chunk) {
            Some(record) => {
                proof {
                    lemma_parsed::<T>(record@);
                }
                let ghost done = views(records@);
                records.push(record);
                proof {
                    assert(views(records@) =~= done.push(record@));
                    if let Some(rest) = parse_all::<T>(bytes@.skip(at + width)) {
                        assert(views(records@) + rest =~= done + (seq![record@] + rest));
                    }
                }
            },
            None => {
                return None;
            },
        }
        at += width;
    }
    proof {
        assert(bytes@.skip(at as int) =~= Seq::empty());
        assert(views(records@) + Seq::<T::V>::empty() =~= views(records@));
    }
    Some(records)
}

/// Two identifiers side by side.
#[derive(Clone, Copy, Debug, PartialEq, Eq)]
pub struct IdPair {
    pub id: [u8; 32],
    pub value: [u8; 32],
}

impl View for IdPair {
    type V = ([u8; 32], [u8; 32]);

    open spec fn view(&self) -> ([u8; 32], [u8; 32]) {
        (self.id, self.value)
    }
}

impl Entry for IdPair {
    open spec fn width() -> nat {
        64
    }

    open spec fn valid(value: ([u8; 32], [u8; 32])) -> bool {
        true
    }

    open spec fn encoded(value: ([u8; 32], [u8; 32])) -> Seq<u8> {
        value.0@ + value.1@
    }

    proof fn lemma_encoded(a: ([u8; 32], [u8; 32]), b: ([u8; 32], [u8; 32])) {
        if Self::encoded(a) == Self::encoded(b) {
            assert(Self::encoded(a).take(32) =~= a.0@);
            assert(Self::encoded(b).take(32) =~= b.0@);
            assert(Self::encoded(a).skip(32) =~= a.1@);
            assert(Self::encoded(b).skip(32) =~= b.1@);
            assert(a.0 =~= b.0);
            assert(a.1 =~= b.1);
        }
    }

    fn size() -> (size: usize) {
        64
    }

    fn parse(bytes: &[u8]) -> (record: Option<Self>) {
        let id: [u8; 32] = read_array::<32>(bytes, 0);
        let value: [u8; 32] = read_array::<32>(bytes, 32);
        assert(bytes@ =~= id@ + value@);
        Some(IdPair { id, value })
    }

    fn write(&self, out: &mut Vec<u8>) {
        append(out, self.id.as_slice());
        append(out, self.value.as_slice());
        assert(out@ =~= old(out)@ + Self::encoded(self@));
    }
}

/// Whether no identifier is the first of two pairs.
pub open spec fn pairs_distinct(pairs: Seq<([u8; 32], [u8; 32])>) -> bool {
    forall|i: int, j: int|
        0 <= i < j < pairs.len() ==> (#[trigger] pairs[i]).0 != (#[trigger] pairs[j]).0
}

/// Whether entries are the pairs of a list.
pub open spec fn holds_pairs(
    entries: Seq<([u8; 32], [u8; 32])>,
    pairs: Seq<([u8; 32], [u8; 32])>,
) -> bool {
    &&& entries.len() == pairs.len()
    &&& forall|i: int|
        0 <= i < pairs.len() ==> value_of(entries, (#[trigger] pairs[i]).0) == Some(pairs[i].1)
}

/// Builds the map of pairs, where no identifier repeats.
pub fn collect_pairs(pairs: &[IdPair]) -> (entries: Option<IdMap<[u8; 32]>>)
    ensures
        match entries {
            Some(entries) => entries.wf() && pairs_distinct(views(pairs@)) && holds_pairs(
                entries@,
                views(pairs@),
            ) && (forall|i: int|
                0 <= i < entries@.len() ==> views(pairs@).contains(#[trigger] entries@[i])),
            None => !pairs_distinct(views(pairs@)),
        },
{
    let mut entries: IdMap<[u8; 32]> = IdMap::new();
    let ghost list = views(pairs@);
    let mut i: usize = 0;
    while i < pairs.len()
        invariant
            list == views(pairs@),
            i <= pairs@.len(),
            entries.wf(),
            pairs_distinct(list.take(i as int)),
            holds_pairs(entries@, list.take(i as int)),
            forall|id: [u8; 32]| #[trigger]
                value_of(entries@, id) is Some ==> exists|k: int| 0 <= k < i && list[k].0 == id,
        decreases pairs@.len() - i,
    {
        let pair = pairs[i];
        assert(list[i as int] == pair@);
        if entries.get(&pair.id).is_some() {
            proof {
                let k = choose|k: int| 0 <= k < i && list[k].0 == pair.id;
                assert(list[k].0 == list[i as int].0);
            }
            return None;
        }
        let ghost before = entries@;
        entries.insert(pair.id, pair.value);
        proof {
            let done = list.take(i as int);
            let next = list.take(i + 1);
            assert forall|k: int| 0 <= k < next.len() implies value_of(
                entries@,
                (#[trigger] next[k]).0,
            ) == Some(next[k].1) by {
                if k < i {
                    assert(next[k] == done[k]);
                    assert(value_of(before, done[k].0) == Some(done[k].1));
                }
            }
            assert forall|a: int, b: int| 0 <= a < b < next.len() implies (#[trigger] next[a]).0
                != (#[trigger] next[b]).0 by {
                if b < i {
                    assert(done[a].0 != done[b].0);
                } else {
                    assert(next[a] == done[a]);
                    assert(value_of(before, done[a].0) is Some);
                }
            }
            assert forall|id: [u8; 32]| #[trigger] value_of(entries@, id) is Some implies exists|
                k: int,
            | 0 <= k < i + 1 && list[k].0 == id by {
                if id != pair.id {
                    assert(value_of(before, id) is Some);
                } else {
                    assert(list[i as int].0 == id);
                }
            }
        }
        i += 1;
    }
    assert(list.take(i as int) =~= list);
    assert forall|k: int| 0 <= k < entries@.len() implies list.contains(#[trigger] entries@[k]) by {
        lemma_value_at(entries@, k);
        assert(value_of(entries@, entries@[k].0) is Some);
        let at = choose|at: int| 0 <= at < list.len() && list[at].0 == entries@[k].0;
        assert(value_of(entries@, list[at].0) == Some(list[at].1));
        assert(list[at] == entries@[k]);
    }
    Some(entries)
}

/// Lists the entries of a map of pairs, in its order.
pub fn list_pairs(entries: &IdMap<[u8; 32]>) -> (pairs: Vec<IdPair>)
    ensures
        views(pairs@) == entries@,
{
    let mut pairs: Vec<IdPair> = Vec::new();
    let mut i: usize = 0;
    assert(views(pairs@) =~= entries@.take(0));
    while i < entries.len()
        invariant
            i <= entries@.len(),
            views(pairs@) == entries@.take(i as int),
        decreases entries@.len() - i,
    {
        let (id, value) = entries.entry(i);
        proof {
            lemma_views_push(pairs@, IdPair { id, value });
            assert(entries@.take(i + 1) =~= entries@.take(i as int).push((id, value)));
        }
        pairs.push(IdPair { id, value });
        i += 1;
    }
    assert(entries@.take(i as int) =~= entries@);
    pairs
}

/// A map of pairs lists distinct pairs, and only that map holds them.
pub proof fn lemma_pairs_listed(
    entries: Seq<([u8; 32], [u8; 32])>,
    other: Seq<([u8; 32], [u8; 32])>,
)
    requires
        ids_sorted(entries),
        ids_sorted(other),
    ensures
        pairs_distinct(entries),
        holds_pairs(other, entries) ==> other == entries,
{
    assert forall|i: int, j: int| 0 <= i < j < entries.len() implies (#[trigger] entries[i]).0
        != (#[trigger] entries[j]).0 by {
        assert(bytes_less(entries[i].0@, entries[j].0@));
        lemma_bytes_less_irreflexive(entries[i].0@);
    }
    if holds_pairs(other, entries) {
        lemma_entries_contained(entries, other);
    }
}

/// A byte string followed by its digest.
pub open spec fn sealed(payload: Seq<u8>) -> Seq<u8> {
    payload + sha256(payload)@
}

/// The payload of a sealed byte string, where a byte string is one.
pub open spec fn unsealed(bytes: Seq<u8>) -> Option<Seq<u8>> {
    if bytes.len() >= 32 && bytes == sealed(bytes.take(bytes.len() - 32)) {
        Some(bytes.take(bytes.len() - 32))
    } else {
        None
    }
}

/// A sealed payload comes back, and only a sealed payload opens.
pub proof fn lemma_seal(bytes: Seq<u8>, payload: Seq<u8>)
    ensures
        unsealed(sealed(payload)) == Some(payload),
        unsealed(bytes) == Some(payload) ==> bytes == sealed(payload),
{
    let s = sealed(payload);
    assert(s.take(s.len() - 32) =~= payload);
}

/// Seals a payload.
pub fn seal(payload: Vec<u8>) -> (bytes: Vec<u8>)
    ensures
        bytes@ == sealed(payload@),
{
    let mut bytes: Vec<u8> = payload;
    let digest = digest_of(bytes.as_slice());
    append(&mut bytes, digest.as_slice());
    bytes
}

/// Opens a sealed payload; a digest that does not fit, or a string too short for one, is refused.
pub fn unseal(bytes: &[u8]) -> (payload: Option<&[u8]>)
    ensures
        match payload {
            Some(payload) => unsealed(bytes@) == Some(payload@),
            None => unsealed(bytes@) is None,
        },
{
    if bytes.len() < 32 {
        return None;
    }
    let end: usize = bytes.len() - 32;
    let payload = slice_subrange(bytes, 0, end);
    let digest = digest_of(payload);
    assert(payload@ =~= bytes@.take(end as int));
    assert(bytes@ =~= bytes@.take(end as int) + bytes@.subrange(end as int, bytes@.len() as int));
    if same_bytes(digest.as_slice(), slice_subrange(bytes, end, bytes.len())) {
        Some(payload)
    } else {
        proof {
            if bytes@ == sealed(payload@) {
                assert(bytes@.subrange(end as int, bytes@.len() as int) =~= sha256(payload@)@);
            }
        }
        None
    }
}

/// Records stand in a list one behind the other, each at its own place.
pub proof fn law_records_stand_in_order<T: Entry>(values: Seq<T::V>, i: int)
    requires
        0 <= i < values.len(),
        forall|k: int| 0 <= k < values.len() ==> T::valid(#[trigger] values[k]),
    ensures
        encode_all::<T>(values).len() == values.len() * T::width(),
        encode_all::<T>(values).subrange(i * T::width(), i * T::width() + T::width())
            == T::encoded(values[i]),
    decreases values.len(),
{
    let w = T::width() as int;
    let rest = values.skip(1);
    T::lemma_encoded(values[0], values[0]);
    assert(T::valid(values[0]));
    assert forall|k: int| 0 <= k < rest.len() implies T::valid(#[trigger] rest[k]) by {
        assert(rest[k] == values[k + 1]);
    }
    lemma_encode_all_len::<T>(values);
    lemma_encode_all_len::<T>(rest);
    let bytes = encode_all::<T>(values);
    if i > 0 {
        law_records_stand_in_order::<T>(rest, i - 1);
        assert(rest[i - 1] == values[i]);
        assert((i - 1) * w + w == i * w) by (nonlinear_arith);
        assert(0 <= (i - 1) * w) by (nonlinear_arith)
            requires
                i > 0,
                w > 0,
        ;
        assert(i * w + w <= values.len() * w) by (nonlinear_arith)
            requires
                i + 1 <= values.len(),
                w > 0,
        ;
        assert(bytes.subrange(i * w, i * w + w) =~= encode_all::<T>(rest).subrange(
            (i - 1) * w,
            (i - 1) * w + w,
        ));
    } else {
        assert(i * w == 0) by (nonlinear_arith)
            requires
                i == 0,
        ;
        assert(bytes.subrange(0, w) =~= T::encoded(values[0]));
    }
}

/// A seal is the digest behind the payload: a byte string opens exactly where its last bytes are the
/// digest of those before them.
pub proof fn law_seal_is_the_digest(bytes: Seq<u8>, payload: Seq<u8>)
    ensures
        unsealed(payload + sha256(payload)@) == Some(payload),
        unsealed(bytes) is Some <==> bytes.len() >= 32 && bytes.skip(bytes.len() - 32) == sha256(
            bytes.take(bytes.len() - 32),
        )@,
        unsealed(bytes) matches Some(opened) ==> opened == bytes.take(bytes.len() - 32),
{
    lemma_seal(bytes, payload);
    if bytes.len() >= 32 {
        let front = bytes.take(bytes.len() - 32);
        assert(bytes =~= front + bytes.skip(bytes.len() - 32));
        assert(sealed(front).skip(bytes.len() - 32) =~= sha256(front)@);
    }
}

} // verus!
