//! A map from 32-byte identifiers to values, kept in the order of the identifiers.

use crate::bytes::{
    bytes_less, id_less, lemma_bytes_less_irreflexive, lemma_bytes_less_total,
    lemma_bytes_less_transitive, same_array,
};
use vstd::prelude::*;

verus! {

/// Whether entries stand in strictly increasing order of identifier, so that none occurs twice.
pub open spec fn ids_sorted<V>(entries: Seq<([u8; 32], V)>) -> bool {
    forall|i: int, j: int|
        0 <= i < j < entries.len() ==> bytes_less(
            #[trigger] entries[i].0@,
            #[trigger] entries[j].0@,
        )
}

/// Whether an identifier has an entry.
pub open spec fn has_id<V>(entries: Seq<([u8; 32], V)>, id: [u8; 32]) -> bool {
    exists|i: int| 0 <= i < entries.len() && #[trigger] entries[i].0 == id
}

/// A position at which an identifier stands.
pub open spec fn position_of<V>(entries: Seq<([u8; 32], V)>, id: [u8; 32]) -> int {
    choose|i: int| 0 <= i < entries.len() && #[trigger] entries[i].0 == id
}

/// The value that an identifier has, where it has one.
pub open spec fn value_of<V>(entries: Seq<([u8; 32], V)>, id: [u8; 32]) -> Option<V> {
    if has_id(entries, id) {
        Some(entries[position_of(entries, id)].1)
    } else {
        None
    }
}

/// Where entries are sorted, an identifier stands at one position only.
pub proof fn lemma_position_at<V>(entries: Seq<([u8; 32], V)>, i: int)
    requires
        ids_sorted(entries),
        0 <= i < entries.len(),
    ensures
        position_of(entries, entries[i].0) == i,
{
    let id = entries[i].0;
    assert(has_id(entries, id));
    let k = position_of(entries, id);
    if k < i {
        assert(bytes_less(entries[k].0@, entries[i].0@));
        lemma_bytes_less_irreflexive(id@);
    } else if i < k {
        assert(bytes_less(entries[i].0@, entries[k].0@));
        lemma_bytes_less_irreflexive(id@);
    }
}

/// Where entries are sorted, an entry is the one that its identifier looks up.
pub proof fn lemma_value_at<V>(entries: Seq<([u8; 32], V)>, i: int)
    requires
        ids_sorted(entries),
        0 <= i < entries.len(),
    ensures
        has_id(entries, entries[i].0),
        value_of(entries, entries[i].0) == Some(entries[i].1),
{
    assert(has_id(entries, entries[i].0));
    lemma_position_at(entries, i);
}

/// Sorted entries that agree on every lookup are the same entries.
pub proof fn lemma_entries_determined<V>(a: Seq<([u8; 32], V)>, b: Seq<([u8; 32], V)>)
    requires
        ids_sorted(a),
        ids_sorted(b),
        forall|id: [u8; 32]| value_of(a, id) == value_of(b, id),
    ensures
        a == b,
    decreases a.len(),
{
    if a.len() == 0 {
        if b.len() > 0 {
            lemma_value_at(b, 0);
            assert(value_of(a, b[0].0) == value_of(b, b[0].0));
        }
        assert(a =~= b);
    } else {
        lemma_value_at(a, a.len() - 1);
        let last = a[a.len() - 1];
        assert(value_of(a, last.0) == value_of(b, last.0));
        let k = choose|k: int| 0 <= k < b.len() && #[trigger] b[k].0 == last.0;
        let top = b[b.len() - 1];
        lemma_value_at(b, b.len() - 1);
        assert(value_of(a, top.0) == value_of(b, top.0));
        let m = choose|m: int| 0 <= m < a.len() && #[trigger] a[m].0 == top.0;
        if k != b.len() - 1 {
            assert(bytes_less(b[k].0@, top.0@));
            if m != a.len() - 1 {
                assert(bytes_less(a[m].0@, last.0@));
                lemma_bytes_less_total(last.0@, top.0@);
            } else {
                lemma_bytes_less_irreflexive(last.0@);
            }
        }
        lemma_value_at(b, k);
        let a1 = a.drop_last();
        let b1 = b.drop_last();
        assert forall|id: [u8; 32]| value_of(a1, id) == value_of(b1, id) by {
            lemma_value_without_last(a, id);
            lemma_value_without_last(b, id);
            assert(value_of(a, id) == value_of(b, id));
        }
        lemma_entries_determined(a1, b1);
        assert(a =~= a1.push(last));
        assert(b =~= b1.push(top));
    }
}

proof fn lemma_value_without_last<V>(s: Seq<([u8; 32], V)>, id: [u8; 32])
    requires
        ids_sorted(s),
        s.len() > 0,
    ensures
        ids_sorted(s.drop_last()),
        value_of(s.drop_last(), id) == (if id == s.last().0 {
            None
        } else {
            value_of(s, id)
        }),
{
    let t = s.drop_last();
    assert forall|i: int, j: int| 0 <= i < j < t.len() implies bytes_less(
        #[trigger] t[i].0@,
        #[trigger] t[j].0@,
    ) by {
        assert(bytes_less(s[i].0@, s[j].0@));
    }
    if has_id(t, id) {
        let i = choose|i: int| 0 <= i < t.len() && #[trigger] t[i].0 == id;
        lemma_value_at(t, i);
        assert(s[i] == t[i]);
        lemma_value_at(s, i);
        assert(bytes_less(s[i].0@, s[s.len() - 1].0@));
        lemma_bytes_less_irreflexive(id@);
    } else if has_id(s, id) {
        let i = choose|i: int| 0 <= i < s.len() && #[trigger] s[i].0 == id;
        if i < t.len() {
            assert(t[i].0 == id);
        }
    }
}

proof fn lemma_positions_rise<V>(a: Seq<([u8; 32], V)>, b: Seq<([u8; 32], V)>, i: int)
    requires
        ids_sorted(a),
        ids_sorted(b),
        forall|k: int| 0 <= k < a.len() ==> has_id(b, (#[trigger] a[k]).0),
        0 <= i < a.len(),
    ensures
        i <= position_of(b, a[i].0) < b.len(),
        b[position_of(b, a[i].0)].0 == a[i].0,
    decreases i,
{
    assert(has_id(b, a[i].0));
    if i > 0 {
        lemma_positions_rise(a, b, i - 1);
        let low = position_of(b, a[i - 1].0);
        let high = position_of(b, a[i].0);
        assert(bytes_less(a[i - 1].0@, a[i].0@));
        if high <= low {
            if high < low {
                assert(bytes_less(b[high].0@, b[low].0@));
            }
            lemma_bytes_less_total(a[i - 1].0@, a[i].0@);
            lemma_bytes_less_irreflexive(a[i].0@);
        }
    }
}

proof fn lemma_positions_fall<V>(a: Seq<([u8; 32], V)>, b: Seq<([u8; 32], V)>, i: int)
    requires
        ids_sorted(a),
        ids_sorted(b),
        a.len() == b.len(),
        forall|k: int| 0 <= k < a.len() ==> has_id(b, (#[trigger] a[k]).0),
        0 <= i < a.len(),
    ensures
        position_of(b, a[i].0) == i,
    decreases a.len() - i,
{
    lemma_positions_rise(a, b, i);
    if i < a.len() - 1 {
        lemma_positions_rise(a, b, i + 1);
        lemma_positions_fall(a, b, i + 1);
        let low = position_of(b, a[i].0);
        assert(bytes_less(a[i].0@, a[i + 1].0@));
        if low >= i + 1 {
            if low > i + 1 {
                assert(bytes_less(b[i + 1].0@, b[low].0@));
            }
            lemma_bytes_less_total(a[i].0@, a[i + 1].0@);
            lemma_bytes_less_irreflexive(a[i].0@);
        }
    }
}

/// Sorted entries that are all among as many others are those others.
pub proof fn lemma_entries_contained<V>(a: Seq<([u8; 32], V)>, b: Seq<([u8; 32], V)>)
    requires
        ids_sorted(a),
        ids_sorted(b),
        a.len() == b.len(),
        forall|i: int|
            0 <= i < a.len() ==> value_of(b, (#[trigger] a[i]).0) == Some(a[i].1),
    ensures
        a == b,
{
    assert forall|k: int| 0 <= k < a.len() implies has_id(b, (#[trigger] a[k]).0) by {
        assert(value_of(b, a[k].0) is Some);
    }
    assert forall|i: int| 0 <= i < a.len() implies a[i] == b[i] by {
        lemma_positions_rise(a, b, i);
        lemma_positions_fall(a, b, i);
        assert(value_of(b, a[i].0) == Some(a[i].1));
    }
    assert(a =~= b);
}

/// A map from identifiers to values.
#[derive(Debug, PartialEq, Eq)]
pub struct IdMap<V> {
    entries: Vec<([u8; 32], V)>,
}

impl<V> View for IdMap<V> {
    type V = Seq<([u8; 32], V)>;

    closed spec fn view(&self) -> Seq<([u8; 32], V)> {
        self.entries@
    }
}

impl<V: Copy> IdMap<V> {
    /// The entries are sorted and no identifier occurs twice.
    pub open spec fn wf(&self) -> bool {
        ids_sorted(self@)
    }

    /// The map without entries.
    pub fn new() -> (map: Self)
        ensures
            map.wf(),
            map@ == Seq::<([u8; 32], V)>::empty(),
    {
        IdMap { entries: Vec::new() }
    }

    /// The number of entries.
    pub fn len(&self) -> (len: usize)
        ensures
            len == self@.len(),
    {
        self.entries.len()
    }

    /// The entry at a position of the order.
    pub fn entry(&self, i: usize) -> (entry: ([u8; 32], V))
        requires
            i < self@.len(),
        ensures
            entry == self@[i as int],
    {
        self.entries[i]
    }

    /// The position of the first entry whose identifier does not precede `id`.
    fn position(&self, id: &[u8; 32]) -> (at: usize)
        requires
            self.wf(),
        ensures
            at <= self@.len(),
            forall|i: int| 0 <= i < at ==> bytes_less(#[trigger] self@[i].0@, id@),
            forall|i: int| at <= i < self@.len() ==> !bytes_less(#[trigger] self@[i].0@, id@),
    {
        let mut at: usize = 0;
        while at < self.entries.len()
            invariant
                self.wf(),
                self@ == self.entries@,
                at <= self@.len(),
                forall|i: int| 0 <= i < at ==> bytes_less(#[trigger] self@[i].0@, id@),
            decreases self@.len() - at,
        {
            if !id_less(&self.entries[at].0, id) {
                assert forall|i: int| at <= i < self@.len() implies !bytes_less(
                    #[trigger] self@[i].0@,
                    id@,
                ) by {
                    if i > at && bytes_less(self@[i].0@, id@) {
                        assert(bytes_less(self@[at as int].0@, self@[i].0@));
                        lemma_bytes_less_transitive(self@[at as int].0@, self@[i].0@, id@);
                    }
                }
                return at;
            }
            at += 1;
        }
        at
    }

    /// The value of an identifier, where it has one.
    pub fn get(&self, id: &[u8; 32]) -> (value: Option<V>)
        requires
            self.wf(),
        ensures
            value == value_of(self@, *id),
    {
        let at: usize = self.position(id);
        if at < self.entries.len() && same_array(&self.entries[at].0, id) {
            proof {
                lemma_value_at(self@, at as int);
            }
            Some(self.entries[at].1)
        } else {
            proof {
                lemma_absent(self@, *id, at as int);
            }
            None
        }
    }

    /// Gives an identifier a value, in place of the one it had.
    pub fn insert(&mut self, id: [u8; 32], value: V)
        requires
            old(self).wf(),
        ensures
            final(self).wf(),
            forall|k: [u8; 32]| #[trigger]
                value_of(final(self)@, k) == (if k == id {
                    Some(value)
                } else {
                    value_of(old(self)@, k)
                }),
            has_id(old(self)@, id) ==> final(self)@ == old(self)@.update(
                position_of(old(self)@, id),
                (id, value),
            ),
            !has_id(old(self)@, id) ==> final(self)@.len() == old(self)@.len() + 1,
    {
        let at: usize = self.position(&id);
        let ghost before = self@;
        if at < self.entries.len() && same_array(&self.entries[at].0, &id) {
            self.entries.set(at, (id, value));
            proof {
                assert(has_id(before, before[at as int].0));
                lemma_position_at(before, at as int);
                lemma_replaced(before, at as int, value);
                assert(self@ =~= before.update(at as int, (id, value)));
            }
        } else {
            proof {
                lemma_absent(before, id, at as int);
                lemma_inserted(before, at as int, id, value);
            }
            self.entries.insert(at, (id, value));
            assert(self@ =~= before.insert(at as int, (id, value)));
        }
    }
}

proof fn lemma_absent<V>(s: Seq<([u8; 32], V)>, id: [u8; 32], at: int)
    requires
        ids_sorted(s),
        0 <= at <= s.len(),
        forall|i: int| 0 <= i < at ==> bytes_less(#[trigger] s[i].0@, id@),
        forall|i: int| at <= i < s.len() ==> !bytes_less(#[trigger] s[i].0@, id@),
        at < s.len() ==> s[at].0 != id,
    ensures
        !has_id(s, id),
        forall|i: int| at <= i < s.len() ==> bytes_less(id@, #[trigger] s[i].0@),
{
    assert forall|i: int| at <= i < s.len() implies bytes_less(id@, #[trigger] s[i].0@) by {
        lemma_bytes_less_total(id@, s[at].0@);
        if id@ == s[at].0@ {
            assert(id =~= s[at].0);
        }
        if i > at {
            assert(bytes_less(s[at].0@, s[i].0@));
            lemma_bytes_less_transitive(id@, s[at].0@, s[i].0@);
        }
    }
    if has_id(s, id) {
        let i = choose|i: int| 0 <= i < s.len() && #[trigger] s[i].0 == id;
        lemma_bytes_less_irreflexive(id@);
        if i >= at {
            assert(bytes_less(id@, s[i].0@));
        } else {
            assert(bytes_less(s[i].0@, id@));
        }
    }
}

proof fn lemma_replaced<V>(s: Seq<([u8; 32], V)>, at: int, value: V)
    requires
        ids_sorted(s),
        0 <= at < s.len(),
    ensures
        ids_sorted(s.update(at, (s[at].0, value))),
        forall|k: [u8; 32]| #[trigger]
            value_of(s.update(at, (s[at].0, value)), k) == (if k == s[at].0 {
                Some(value)
            } else {
                value_of(s, k)
            }),
{
    let t = s.update(at, (s[at].0, value));
    assert forall|i: int, j: int| 0 <= i < j < t.len() implies bytes_less(
        #[trigger] t[i].0@,
        #[trigger] t[j].0@,
    ) by {
        assert(t[i].0 == s[i].0 && t[j].0 == s[j].0);
        assert(bytes_less(s[i].0@, s[j].0@));
    }
    assert forall|k: [u8; 32]| #[trigger]
        value_of(t, k) == (if k == s[at].0 {
            Some(value)
        } else {
            value_of(s, k)
        }) by {
        lemma_value_at(t, at);
        if has_id(s, k) {
            let i = choose|i: int| 0 <= i < s.len() && #[trigger] s[i].0 == k;
            assert(t[i].0 == k);
            lemma_value_at(t, i);
            lemma_value_at(s, i);
        } else if has_id(t, k) {
            let i = choose|i: int| 0 <= i < t.len() && #[trigger] t[i].0 == k;
            assert(s[i].0 == k);
        }
    }
}

proof fn lemma_inserted<V>(s: Seq<([u8; 32], V)>, at: int, id: [u8; 32], value: V)
    requires
        ids_sorted(s),
        0 <= at <= s.len(),
        !has_id(s, id),
        forall|i: int| 0 <= i < at ==> bytes_less(#[trigger] s[i].0@, id@),
        forall|i: int| at <= i < s.len() ==> bytes_less(id@, #[trigger] s[i].0@),
    ensures
        ids_sorted(s.insert(at, (id, value))),
        forall|k: [u8; 32]| #[trigger]
            value_of(s.insert(at, (id, value)), k) == (if k == id {
                Some(value)
            } else {
                value_of(s, k)
            }),
{
    let t = s.insert(at, (id, value));
    assert forall|i: int, j: int| 0 <= i < j < t.len() implies bytes_less(
        #[trigger] t[i].0@,
        #[trigger] t[j].0@,
    ) by {
        let si = if i < at {
            i
        } else {
            i - 1
        };
        let sj = if j < at {
            j
        } else {
            j - 1
        };
        if i != at {
            assert(t[i] == s[si]);
        }
        if j != at {
            assert(t[j] == s[sj]);
        }
        if i != at && j != at {
            assert(bytes_less(s[si].0@, s[sj].0@));
        }
    }
    assert forall|k: [u8; 32]| #[trigger]
        value_of(t, k) == (if k == id {
            Some(value)
        } else {
            value_of(s, k)
        }) by {
        lemma_value_at(t, at);
        if has_id(s, k) {
            let i = choose|i: int| 0 <= i < s.len() && #[trigger] s[i].0 == k;
            let ti = if i < at {
                i
            } else {
                i + 1
            };
            assert(t[ti] == s[i]);
            lemma_value_at(t, ti);
            lemma_value_at(s, i);
        } else if k != id && has_id(t, k) {
            let i = choose|i: int| 0 <= i < t.len() && #[trigger] t[i].0 == k;
            let si = if i < at {
                i
            } else {
                i - 1
            };
            assert(s[si].0 == k);
        }
    }
}

proof fn lemma_place<V>(s: Seq<([u8; 32], V)>, id: [u8; 32]) -> (at: int)
    requires
        ids_sorted(s),
    ensures
        0 <= at <= s.len(),
        forall|i: int| 0 <= i < at ==> bytes_less(#[trigger] s[i].0@, id@),
        forall|i: int| at <= i < s.len() ==> !bytes_less(#[trigger] s[i].0@, id@),
    decreases s.len(),
{
    if s.len() == 0 {
        0
    } else if bytes_less(s.last().0@, id@) {
        assert forall|i: int| 0 <= i < s.len() implies bytes_less(#[trigger] s[i].0@, id@) by {
            if i < s.len() - 1 {
                assert(bytes_less(s[i].0@, s[s.len() - 1].0@));
                lemma_bytes_less_transitive(s[i].0@, s.last().0@, id@);
            }
        }
        s.len() as int
    } else {
        let rest = s.drop_last();
        assert forall|i: int, j: int| 0 <= i < j < rest.len() implies bytes_less(
            #[trigger] rest[i].0@,
            #[trigger] rest[j].0@,
        ) by {
            assert(bytes_less(s[i].0@, s[j].0@));
        }
        let at = lemma_place(rest, id);
        assert forall|i: int| 0 <= i < at implies bytes_less(#[trigger] s[i].0@, id@) by {
            assert(s[i] == rest[i]);
        }
        assert forall|i: int| at <= i < s.len() implies !bytes_less(#[trigger] s[i].0@, id@) by {
            if i < rest.len() {
                assert(s[i] == rest[i]);
            }
        }
        at
    }
}

/// A new identifier has a place among sorted entries.
pub proof fn lemma_insertable<V>(s: Seq<([u8; 32], V)>, id: [u8; 32], value: V) -> (at: int)
    requires
        ids_sorted(s),
        !has_id(s, id),
    ensures
        0 <= at <= s.len(),
        ids_sorted(s.insert(at, (id, value))),
        forall|k: [u8; 32]| #[trigger]
            value_of(s.insert(at, (id, value)), k) == (if k == id {
                Some(value)
            } else {
                value_of(s, k)
            }),
{
    let at = lemma_place(s, id);
    lemma_absent(s, id, at);
    lemma_inserted(s, at, id, value);
    at
}

impl<V: Copy> Clone for IdMap<V> {
    fn clone(&self) -> (copy: Self)
        ensures
            copy@ == self@,
    {
        let mut entries: Vec<([u8; 32], V)> = Vec::new();
        let mut i: usize = 0;
        while i < self.entries.len()
            invariant
                i <= self.entries@.len(),
                entries@ == self.entries@.take(i as int),
            decreases self.entries@.len() - i,
        {
            entries.push(self.entries[i]);
            i += 1;
            assert(entries@ =~= self.entries@.take(i as int));
        }
        assert(entries@ =~= self.entries@);
        IdMap { entries }
    }
}

} // verus!
