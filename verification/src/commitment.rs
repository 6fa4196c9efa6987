//! Content roots: one digest for an unordered set of byte strings.

use crate::bytes::{
    append, bytes_less, lemma_bytes_less_irreflexive, lemma_bytes_less_total,
    lemma_bytes_less_transitive,
};
use crate::hash::{digest_of, sha256};
use crate::idmap::{has_id, ids_sorted, value_of, IdMap};
use vstd::bytes::{
    lemma_auto_spec_u64_to_from_le_bytes, spec_u64_from_le_bytes, spec_u64_to_le_bytes,
    u64_to_le_bytes,
};
use vstd::prelude::*;
use vstd::seq_lib::to_multiset_contains;
use vstd::string::*;
use vstd::utf8::encode_utf8;

verus! {

/// What a set of leaves stands for.
#[derive(Clone, Copy, Debug, PartialEq, Eq, Structural)]
pub enum CommitmentDomain {
    BalanceSet,
    MemberSet,
    ResultSet,
}

impl CommitmentDomain {
    /// The tag that separates a domain from the others.
    pub open spec fn tag(self) -> Seq<u8> {
        match self {
            CommitmentDomain::BalanceSet => encode_utf8("KAGEB_BALANCE_SET_V1\0"@),
            CommitmentDomain::MemberSet => encode_utf8("KAGEB_MEMBER_SET_V1\0"@),
            CommitmentDomain::ResultSet => encode_utf8("KAGEB_RESULT_SET_V1\0"@),
        }
    }

    fn tag_bytes(self) -> (tag: &'static [u8])
        ensures
            tag@ == self.tag(),
    {
        match self {
            CommitmentDomain::BalanceSet => "KAGEB_BALANCE_SET_V1\0".as_bytes(),
            CommitmentDomain::MemberSet => "KAGEB_MEMBER_SET_V1\0".as_bytes(),
            CommitmentDomain::ResultSet => "KAGEB_RESULT_SET_V1\0".as_bytes(),
        }
    }
}

#[derive(Clone, Copy, Debug, PartialEq, Eq, Structural)]
pub enum CommitmentError {
    DuplicateLeaf,
}

/// A byte string behind its length.
pub open spec fn framed(bytes: Seq<u8>) -> Seq<u8> {
    spec_u64_to_le_bytes(bytes.len() as u64) + bytes
}

/// What is hashed for a leaf.
pub open spec fn leaf_preimage(domain: CommitmentDomain, leaf: Seq<u8>) -> Seq<u8> {
    encode_utf8("KAGEB_LEAF_V1\0"@) + framed(domain.tag()) + framed(leaf)
}

/// The digest that stands for a leaf.
pub open spec fn leaf_hash(domain: CommitmentDomain, leaf: Seq<u8>) -> [u8; 32] {
    sha256(leaf_preimage(domain, leaf))
}

/// Digests one after another.
pub open spec fn joined(hashes: Seq<[u8; 32]>) -> Seq<u8>
    decreases hashes.len(),
{
    if hashes.len() == 0 {
        Seq::empty()
    } else {
        joined(hashes.drop_last()) + hashes.last()@
    }
}

/// What is hashed for a root: the sorted leaf digests behind the domain and their number.
pub open spec fn root_preimage(domain: CommitmentDomain, sorted: Seq<[u8; 32]>) -> Seq<u8> {
    encode_utf8("KAGEB_ROOT_V1\0"@) + framed(domain.tag()) + spec_u64_to_le_bytes(
        sorted.len() as u64,
    ) + joined(sorted)
}

/// Whether digests stand in strictly increasing order.
pub open spec fn hashes_sorted(hashes: Seq<[u8; 32]>) -> bool {
    forall|i: int, j: int|
        0 <= i < j < hashes.len() ==> bytes_less(#[trigger] hashes[i]@, #[trigger] hashes[j]@)
}

/// Whether `sorted` holds the elements of `hashes`, each once and in order.
pub open spec fn orders(sorted: Seq<[u8; 32]>, hashes: Seq<[u8; 32]>) -> bool {
    hashes_sorted(sorted) && forall|hash: [u8; 32]|
        #![trigger sorted.contains(hash)]
        #![trigger hashes.contains(hash)]
        sorted.contains(hash) <==> hashes.contains(hash)
}

/// The elements of `hashes` in order.
pub open spec fn in_order(hashes: Seq<[u8; 32]>) -> Seq<[u8; 32]> {
    choose|sorted: Seq<[u8; 32]>| orders(sorted, hashes)
}

/// The digests of a set of leaves.
pub open spec fn leaf_hashes(domain: CommitmentDomain, leaves: Seq<Seq<u8>>) -> Seq<[u8; 32]> {
    leaves.map_values(|leaf: Seq<u8>| leaf_hash(domain, leaf))
}

/// The root of a set of leaves; a set in which two leaves share a digest has none.
pub open spec fn root_of(domain: CommitmentDomain, leaves: Seq<Seq<u8>>) -> Result<
    [u8; 32],
    CommitmentError,
> {
    if leaf_hashes(domain, leaves).no_duplicates() {
        Ok(sha256(root_preimage(domain, in_order(leaf_hashes(domain, leaves)))))
    } else {
        Err(CommitmentError::DuplicateLeaf)
    }
}

proof fn lemma_order_unique(a: Seq<[u8; 32]>, b: Seq<[u8; 32]>)
    requires
        hashes_sorted(a),
        hashes_sorted(b),
        forall|hash: [u8; 32]| #[trigger] a.contains(hash) <==> b.contains(hash),
    ensures
        a == b,
    decreases a.len(),
{
    if a.len() == 0 {
        if b.len() > 0 {
            assert(b.contains(b[0]));
            assert(a.contains(b[0]));
        }
        assert(a =~= b);
    } else {
        let last = a.last();
        assert(a[a.len() - 1] == last);
        assert(a.contains(last));
        let k = choose|k: int| 0 <= k < b.len() && b[k] == last;
        let top = b.last();
        assert(b[b.len() - 1] == top);
        assert(b.contains(top));
        assert(a.contains(top));
        let m = choose|m: int| 0 <= m < a.len() && a[m] == top;
        if k != b.len() - 1 {
            assert(bytes_less(b[k]@, b[b.len() - 1]@));
            if m != a.len() - 1 {
                assert(bytes_less(a[m]@, a[a.len() - 1]@));
                lemma_bytes_less_total(last@, top@);
            } else {
                lemma_bytes_less_irreflexive(last@);
            }
        }
        let a1 = a.drop_last();
        let b1 = b.drop_last();
        assert forall|i: int, j: int| 0 <= i < j < a1.len() implies bytes_less(
            #[trigger] a1[i]@,
            #[trigger] a1[j]@,
        ) by {
            assert(bytes_less(a[i]@, a[j]@));
        }
        assert forall|i: int, j: int| 0 <= i < j < b1.len() implies bytes_less(
            #[trigger] b1[i]@,
            #[trigger] b1[j]@,
        ) by {
            assert(bytes_less(b[i]@, b[j]@));
        }
        assert forall|hash: [u8; 32]| #[trigger] a1.contains(hash) <==> b1.contains(hash) by {
            if a1.contains(hash) {
                let i = choose|i: int| 0 <= i < a1.len() && a1[i] == hash;
                assert(a[i] == hash);
                assert(a.contains(hash));
                assert(bytes_less(a[i]@, a[a.len() - 1]@));
                lemma_bytes_less_irreflexive(hash@);
                assert(b.contains(hash));
                let j = choose|j: int| 0 <= j < b.len() && b[j] == hash;
                assert(b1[j] == hash);
            }
            if b1.contains(hash) {
                let i = choose|i: int| 0 <= i < b1.len() && b1[i] == hash;
                assert(b[i] == hash);
                assert(b.contains(hash));
                assert(bytes_less(b[i]@, b[b.len() - 1]@));
                lemma_bytes_less_irreflexive(hash@);
                assert(a.contains(hash));
                let j = choose|j: int| 0 <= j < a.len() && a[j] == hash;
                assert(a1[j] == hash);
            }
        }
        lemma_order_unique(a1, b1);
        assert(a =~= a1.push(last));
        assert(b =~= b1.push(top));
    }
}

/// Whatever sorts a set of digests is the order of that set.
proof fn lemma_in_order(sorted: Seq<[u8; 32]>, hashes: Seq<[u8; 32]>)
    requires
        orders(sorted, hashes),
    ensures
        in_order(hashes) == sorted,
{
    let chosen = in_order(hashes);
    assert(orders(chosen, hashes));
    assert forall|hash: [u8; 32]| #[trigger] chosen.contains(hash) <==> sorted.contains(hash) by {
        assert(chosen.contains(hash) <==> hashes.contains(hash));
        assert(sorted.contains(hash) <==> hashes.contains(hash));
    }
    lemma_order_unique(chosen, sorted);
}

/// The root of a set of leaves does not depend on the order in which they are given.
pub proof fn law_root_is_order_independent(
    domain: CommitmentDomain,
    a: Seq<Seq<u8>>,
    b: Seq<Seq<u8>>,
)
    requires
        a.to_multiset() == b.to_multiset(),
    ensures
        root_of(domain, a) == root_of(domain, b),
{
    let ha = leaf_hashes(domain, a);
    let hb = leaf_hashes(domain, b);
    let hash = |leaf: Seq<u8>| leaf_hash(domain, leaf);
    lemma_map_multiset(a, b, hash);
    assert(ha.to_multiset() == hb.to_multiset());
    if ha.no_duplicates() {
        lemma_duplicates_by_multiset(ha, hb);
    }
    if hb.no_duplicates() {
        lemma_duplicates_by_multiset(hb, ha);
    }
    assert forall|h: [u8; 32]| #[trigger] ha.contains(h) <==> hb.contains(h) by {
        to_multiset_contains(ha, h);
        to_multiset_contains(hb, h);
    }
    assert(in_order(ha) == in_order(hb)) by {
        lemma_exists_order(ha);
        lemma_in_order(in_order(ha), ha);
        assert(orders(in_order(ha), hb));
        lemma_in_order(in_order(ha), hb);
    }
}

proof fn lemma_map_multiset(a: Seq<Seq<u8>>, b: Seq<Seq<u8>>, f: spec_fn(Seq<u8>) -> [u8; 32])
    requires
        a.to_multiset() == b.to_multiset(),
    ensures
        a.map_values(f).to_multiset() == b.map_values(f).to_multiset(),
    decreases a.len(),
{
    a.to_multiset_ensures();
    b.to_multiset_ensures();
    if a.len() == 0 {
        assert(a.to_multiset().len() == b.to_multiset().len());
        assert(a =~= b);
    } else {
        let x = a.last();
        assert(a[a.len() - 1] == x);
        to_multiset_contains(a, x);
        to_multiset_contains(b, x);
        let k = b.index_of(x);
        assert(b[k] == x);
        let a1 = a.drop_last();
        let b1 = b.remove(k);
        assert(a =~= a1.push(x));
        a1.to_multiset_ensures();
        b1.to_multiset_ensures();
        assert(a1.to_multiset() =~= a.to_multiset().remove(x));
        assert(b1.to_multiset() =~= b.to_multiset().remove(x));
        lemma_map_multiset(a1, b1, f);
        assert(a.map_values(f) =~= a1.map_values(f).push(f(x)));
        a1.map_values(f).to_multiset_ensures();
        b.map_values(f).to_multiset_ensures();
        assert(b.map_values(f).remove(k) =~= b1.map_values(f));
        assert(b.map_values(f)[k] == f(x));
        assert(b.map_values(f).contains(f(x)));
        assert(b1.map_values(f).to_multiset() =~= b.map_values(f).to_multiset().remove(f(x)));
        assert(b.map_values(f).to_multiset() =~= b1.map_values(f).to_multiset().insert(f(x)));
    }
}

proof fn lemma_duplicates_by_multiset(a: Seq<[u8; 32]>, b: Seq<[u8; 32]>)
    requires
        a.to_multiset() == b.to_multiset(),
        a.no_duplicates(),
    ensures
        b.no_duplicates(),
{
    a.lemma_multiset_has_no_duplicates();
    b.lemma_multiset_has_no_duplicates_conv();
}

/// Every set of digests can be put in order.
proof fn lemma_exists_order(hashes: Seq<[u8; 32]>)
    ensures
        orders(in_order(hashes), hashes),
    decreases hashes.len(),
{
    if hashes.len() == 0 {
        assert(orders(hashes, hashes));
    } else {
        let rest = hashes.drop_last();
        let hash = hashes.last();
        lemma_exists_order(rest);
        let sorted = in_order(rest);
        assert forall|h: [u8; 32]| #[trigger] hashes.contains(h) <==> rest.contains(h) || h
            == hash by {
            if hashes.contains(h) {
                let i = choose|i: int| 0 <= i < hashes.len() && hashes[i] == h;
                if i < rest.len() {
                    assert(rest[i] == h);
                }
            }
            if rest.contains(h) {
                let i = choose|i: int| 0 <= i < rest.len() && rest[i] == h;
                assert(hashes[i] == h);
            }
            assert(hashes[hashes.len() - 1] == hash);
        }
        if sorted.contains(hash) {
            assert(orders(sorted, hashes));
        } else {
            lemma_order_insert(sorted, hash, 0);
            let at = choose|at: int| #[trigger] splits(sorted, hash, at);
            let next = sorted.insert(at, hash);
            lemma_sorted_insert(sorted, hash, at);
            assert(orders(next, hashes)) by {
                assert forall|h: [u8; 32]| #[trigger] next.contains(h) <==> hashes.contains(h) by {
                    assert(next.contains(h) <==> sorted.contains(h) || h == hash);
                    assert(sorted.contains(h) <==> rest.contains(h));
                }
            }
        }
    }
}

/// Whether a digest belongs at `at` in a sorted sequence.
spec fn splits(sorted: Seq<[u8; 32]>, hash: [u8; 32], at: int) -> bool {
    &&& 0 <= at <= sorted.len()
    &&& forall|i: int| 0 <= i < at ==> bytes_less(#[trigger] sorted[i]@, hash@)
    &&& forall|i: int| at <= i < sorted.len() ==> bytes_less(hash@, #[trigger] sorted[i]@)
}

proof fn lemma_order_insert(sorted: Seq<[u8; 32]>, hash: [u8; 32], from: int)
    requires
        hashes_sorted(sorted),
        !sorted.contains(hash),
        0 <= from <= sorted.len(),
        forall|i: int| 0 <= i < from ==> bytes_less(#[trigger] sorted[i]@, hash@),
    ensures
        exists|at: int| #[trigger] splits(sorted, hash, at),
    decreases sorted.len() - from,
{
    if from == sorted.len() {
        assert(splits(sorted, hash, from));
    } else {
        lemma_bytes_less_total(sorted[from]@, hash@);
        if sorted[from]@ == hash@ {
            assert(sorted[from] =~= hash);
            assert(sorted.contains(hash));
        }
        if bytes_less(sorted[from]@, hash@) {
            lemma_order_insert(sorted, hash, from + 1);
        } else {
            assert forall|i: int| from <= i < sorted.len() implies bytes_less(
                hash@,
                #[trigger] sorted[i]@,
            ) by {
                if i > from {
                    assert(bytes_less(sorted[from]@, sorted[i]@));
                    lemma_bytes_less_transitive(hash@, sorted[from]@, sorted[i]@);
                }
            }
            assert(splits(sorted, hash, from));
        }
    }
}

proof fn lemma_sorted_insert(sorted: Seq<[u8; 32]>, hash: [u8; 32], at: int)
    requires
        hashes_sorted(sorted),
        splits(sorted, hash, at),
    ensures
        hashes_sorted(sorted.insert(at, hash)),
        forall|h: [u8; 32]| #[trigger]
            sorted.insert(at, hash).contains(h) <==> sorted.contains(h) || h == hash,
{
    let next = sorted.insert(at, hash);
    assert forall|i: int, j: int| 0 <= i < j < next.len() implies bytes_less(
        #[trigger] next[i]@,
        #[trigger] next[j]@,
    ) by {
        if i != at && j != at {
            let si = if i < at {
                i
            } else {
                i - 1
            };
            let sj = if j < at {
                j
            } else {
                j - 1
            };
            assert(next[i] == sorted[si] && next[j] == sorted[sj]);
            assert(bytes_less(sorted[si]@, sorted[sj]@));
        } else if i == at {
            assert(next[j] == sorted[j - 1]);
        } else {
            assert(next[i] == sorted[i]);
        }
    }
    assert forall|h: [u8; 32]| #[trigger]
        next.contains(h) <==> sorted.contains(h) || h == hash by {
        if next.contains(h) {
            let i = choose|i: int| 0 <= i < next.len() && next[i] == h;
            if i < at {
                assert(sorted[i] == h);
            } else if i > at {
                assert(sorted[i - 1] == h);
            }
        }
        if sorted.contains(h) {
            let i = choose|i: int| 0 <= i < sorted.len() && sorted[i] == h;
            if i < at {
                assert(next[i] == h);
            } else {
                assert(next[i + 1] == h);
            }
        }
        assert(next[at] == hash);
    }
}

/// Appends a byte string behind its length.
fn append_framed(out: &mut Vec<u8>, bytes: &[u8])
    ensures
        final(out)@ == old(out)@ + framed(bytes@),
{
    append(out, u64_to_le_bytes(bytes.len() as u64).as_slice());
    append(out, bytes);
    assert(out@ =~= old(out)@ + framed(bytes@));
}

fn hash_leaf(domain: CommitmentDomain, leaf: &[u8]) -> (hash: [u8; 32])
    ensures
        hash == leaf_hash(domain, leaf@),
{
    let mut out: Vec<u8> = Vec::new();
    append(&mut out, "KAGEB_LEAF_V1\0".as_bytes());
    append_framed(&mut out, domain.tag_bytes());
    append_framed(&mut out, leaf);
    assert(out@ =~= leaf_preimage(domain, leaf@));
    digest_of(out.as_slice())
}

/// The byte strings that slices hold.
pub open spec fn contents(leaves: Seq<&[u8]>) -> Seq<Seq<u8>> {
    leaves.map_values(|leaf: &[u8]| leaf@)
}

/// The identifiers of entries.
spec fn ids_of(entries: Seq<([u8; 32], ())>) -> Seq<[u8; 32]> {
    entries.map_values(|entry: ([u8; 32], ())| entry.0)
}

proof fn lemma_ids_of(entries: Seq<([u8; 32], ())>)
    requires
        ids_sorted(entries),
    ensures
        hashes_sorted(ids_of(entries)),
        forall|id: [u8; 32]| #[trigger] ids_of(entries).contains(id) <==> has_id(entries, id),
{
    let ids = ids_of(entries);
    assert forall|i: int, j: int| 0 <= i < j < ids.len() implies bytes_less(
        #[trigger] ids[i]@,
        #[trigger] ids[j]@,
    ) by {
        assert(bytes_less(entries[i].0@, entries[j].0@));
    }
    assert forall|id: [u8; 32]| #[trigger] ids.contains(id) <==> has_id(entries, id) by {
        if ids.contains(id) {
            let i = choose|i: int| 0 <= i < ids.len() && ids[i] == id;
            assert(entries[i].0 == id);
        }
        if has_id(entries, id) {
            let i = choose|i: int| 0 <= i < entries.len() && #[trigger] entries[i].0 == id;
            assert(ids[i] == id);
        }
    }
}

/// Hashes an unordered set under a fixed protocol domain.
pub fn content_root(domain: CommitmentDomain, leaves: &[&[u8]]) -> (root: Result<
    [u8; 32],
    CommitmentError,
>)
    ensures
        root == root_of(domain, contents(leaves@)),
{
    let ghost hashes = leaf_hashes(domain, contents(leaves@));
    let mut sorted: IdMap<()> = IdMap::new();
    let mut i: usize = 0;
    while i < leaves.len()
        invariant
            i <= leaves@.len(),
            hashes == leaf_hashes(domain, contents(leaves@)),
            sorted.wf(),
            forall|j: int, k: int| 0 <= j < k < i ==> hashes[j] != hashes[k],
            forall|id: [u8; 32]| #[trigger]
                has_id(sorted@, id) <==> exists|j: int| 0 <= j < i && hashes[j] == id,
        decreases leaves@.len() - i,
    {
        let hash = hash_leaf(domain, leaves[i]);
        assert(hash == hashes[i as int]);
        if sorted.get(&hash).is_some() {
            proof {
                assert(has_id(sorted@, hash));
                let j = choose|j: int| 0 <= j < i && hashes[j] == hash;
                assert(hashes[j] == hashes[i as int]);
            }
            return Err(CommitmentError::DuplicateLeaf);
        }
        let ghost before = sorted@;
        sorted.insert(hash, ());
        proof {
            assert forall|id: [u8; 32]| #[trigger]
                has_id(sorted@, id) <==> exists|j: int| 0 <= j < i + 1 && hashes[j] == id by {
                assert(value_of(sorted@, id) is Some <==> has_id(sorted@, id));
                assert(value_of(before, id) is Some <==> has_id(before, id));
                if id == hash {
                    assert(hashes[i as int] == id);
                }
            }
            assert(!has_id(before, hash));
            assert forall|j: int, k: int| 0 <= j < k < i + 1 implies hashes[j] != hashes[k] by {
                if k == i {
                    if hashes[j] == hash {
                        assert(has_id(before, hash));
                    }
                }
            }
        }
        i += 1;
    }
    let mut out: Vec<u8> = Vec::new();
    append(&mut out, "KAGEB_ROOT_V1\0".as_bytes());
    append_framed(&mut out, domain.tag_bytes());
    append(&mut out, u64_to_le_bytes(sorted.len() as u64).as_slice());
    let ghost prefix = out@;
    let mut k: usize = 0;
    let ghost ids = ids_of(sorted@);
    assert(out@ =~= prefix + joined(ids.take(0)));
    while k < sorted.len()
        invariant
            k <= sorted@.len(),
            ids == ids_of(sorted@),
            out@ == prefix + joined(ids.take(k as int)),
        decreases sorted@.len() - k,
    {
        let id: [u8; 32] = sorted.entry(k).0;
        append(&mut out, id.as_slice());
        proof {
            assert(ids.take(k + 1).drop_last() =~= ids.take(k as int));
            assert(ids.take(k + 1).last() == id);
            assert(out@ =~= prefix + joined(ids.take(k + 1)));
        }
        k += 1;
    }
    proof {
        assert(ids.take(k as int) =~= ids);
        lemma_ids_of(sorted@);
        assert(orders(ids, hashes)) by {
            assert forall|id: [u8; 32]| #[trigger] ids.contains(id) <==> hashes.contains(id) by {
                assert(ids.contains(id) <==> has_id(sorted@, id));
                if hashes.contains(id) {
                    let j = choose|j: int| 0 <= j < hashes.len() && hashes[j] == id;
                    assert(0 <= j < i && hashes[j] == id);
                }
            }
        }
        lemma_in_order(ids, hashes);
        assert(out@ =~= root_preimage(domain, ids));
    }
    Ok(digest_of(out.as_slice()))
}

proof fn lemma_tags_differ(a: CommitmentDomain, b: CommitmentDomain)
    ensures
        a != b ==> a.tag() != b.tag(),
        a.tag().len() < 256,
{
    reveal_strlit("KAGEB_BALANCE_SET_V1\0");
    reveal_strlit("KAGEB_MEMBER_SET_V1\0");
    reveal_strlit("KAGEB_RESULT_SET_V1\0");
    vstd::utf8::is_ascii_chars_encode_utf8("KAGEB_BALANCE_SET_V1\0"@);
    vstd::utf8::is_ascii_chars_encode_utf8("KAGEB_MEMBER_SET_V1\0"@);
    vstd::utf8::is_ascii_chars_encode_utf8("KAGEB_RESULT_SET_V1\0"@);
    assert(CommitmentDomain::BalanceSet.tag().len() == 21);
    assert(CommitmentDomain::MemberSet.tag().len() == 20);
    assert(CommitmentDomain::ResultSet.tag().len() == 20);
    assert(CommitmentDomain::MemberSet.tag()[6] != CommitmentDomain::ResultSet.tag()[6]);
}

/// The byte strings that vectors hold.
pub open spec fn leaf_contents(leaves: Seq<Vec<u8>>) -> Seq<Seq<u8>> {
    leaves.map_values(|leaf: Vec<u8>| leaf@)
}

/// Hashes an unordered set whose leaves are vectors.
pub fn root_of_leaves(domain: CommitmentDomain, leaves: &[Vec<u8>]) -> (root: Result<
    [u8; 32],
    CommitmentError,
>)
    ensures
        root == root_of(domain, leaf_contents(leaves@)),
{
    let mut slices: Vec<&[u8]> = Vec::new();
    let mut i: usize = 0;
    while i < leaves.len()
        invariant
            i <= leaves@.len(),
            slices@.len() == i,
            forall|k: int| 0 <= k < i ==> (#[trigger] slices@[k])@ == leaves@[k]@,
        decreases leaves@.len() - i,
    {
        slices.push(leaves[i].as_slice());
        i += 1;
    }
    assert(contents(slices@) =~= leaf_contents(leaves@));
    content_root(domain, slices.as_slice())
}

/// Roots of two domains are never digests of one preimage, whatever leaves they hold.
pub proof fn law_domains_are_separated(
    a: CommitmentDomain,
    b: CommitmentDomain,
    left: Seq<[u8; 32]>,
    right: Seq<[u8; 32]>,
)
    requires
        a != b,
    ensures
        root_preimage(a, left) != root_preimage(b, right),
{
    lemma_tags_differ(a, b);
    lemma_tags_differ(b, a);
    lemma_auto_spec_u64_to_from_le_bytes();
    let head = encode_utf8("KAGEB_ROOT_V1\0"@);
    let p = root_preimage(a, left);
    let q = root_preimage(b, right);
    let n = head.len() as int;
    assert(p.subrange(n, n + 8) =~= spec_u64_to_le_bytes(a.tag().len() as u64));
    assert(q.subrange(n, n + 8) =~= spec_u64_to_le_bytes(b.tag().len() as u64));
    assert(p.subrange(n + 8, n + 8 + a.tag().len()) =~= a.tag());
    assert(q.subrange(n + 8, n + 8 + b.tag().len()) =~= b.tag());
    if p == q {
        assert(spec_u64_from_le_bytes(spec_u64_to_le_bytes(a.tag().len() as u64))
            == a.tag().len() as u64);
        assert(spec_u64_from_le_bytes(spec_u64_to_le_bytes(b.tag().len() as u64))
            == b.tag().len() as u64);
    }
}

proof fn lemma_joined_len(hashes: Seq<[u8; 32]>)
    ensures
        joined(hashes).len() == 32 * hashes.len(),
    decreases hashes.len(),
{
    if hashes.len() > 0 {
        lemma_joined_len(hashes.drop_last());
    }
}

proof fn lemma_joined_determines(a: Seq<[u8; 32]>, b: Seq<[u8; 32]>)
    requires
        joined(a) == joined(b),
    ensures
        a == b,
    decreases a.len(),
{
    lemma_joined_len(a);
    lemma_joined_len(b);
    if a.len() > 0 {
        let n = 32 * (a.len() - 1);
        let x = joined(a);
        lemma_joined_len(a.drop_last());
        lemma_joined_len(b.drop_last());
        assert(x.take(n) =~= joined(a.drop_last()));
        assert(x.take(n) =~= joined(b.drop_last()));
        assert(x.skip(n) =~= a.last()@);
        assert(x.skip(n) =~= b.last()@);
        assert(a.last() =~= b.last());
        lemma_joined_determines(a.drop_last(), b.drop_last());
        assert(a =~= a.drop_last().push(a.last()));
        assert(b =~= b.drop_last().push(b.last()));
    } else {
        assert(a =~= b);
    }
}

proof fn lemma_leaf_preimage(domain: CommitmentDomain, a: Seq<u8>, b: Seq<u8>)
    ensures
        leaf_preimage(domain, a) == leaf_preimage(domain, b) ==> a == b,
{
    lemma_auto_spec_u64_to_from_le_bytes();
    let n = (encode_utf8("KAGEB_LEAF_V1\0"@) + framed(domain.tag())).len() as int + 8;
    let x = leaf_preimage(domain, a);
    let y = leaf_preimage(domain, b);
    assert(x.skip(n) =~= a);
    assert(y.skip(n) =~= b);
}

/// What is hashed tells what was hashed: leaves with one preimage are one leaf, sets of leaves whose
/// roots have one preimage have the same leaf digests, and where those digests do not collide, the
/// same leaves.
pub proof fn law_preimages_determine_the_leaves(
    domain: CommitmentDomain,
    a: Seq<Seq<u8>>,
    b: Seq<Seq<u8>>,
)
    ensures
        forall|x: Seq<u8>, y: Seq<u8>|
            #![trigger leaf_preimage(domain, x), leaf_preimage(domain, y)]
            leaf_preimage(domain, x) == leaf_preimage(domain, y) ==> x == y,
        root_preimage(domain, in_order(leaf_hashes(domain, a))) == root_preimage(
            domain,
            in_order(leaf_hashes(domain, b)),
        ) && leaf_hashes(domain, a).no_duplicates() && leaf_hashes(domain, b).no_duplicates() ==> {
            &&& forall|hash: [u8; 32]| #[trigger]
                leaf_hashes(domain, a).contains(hash) <==> leaf_hashes(domain, b).contains(hash)
            &&& (forall|i: int, j: int|
                #![trigger a[i], b[j]]
                0 <= i < a.len() && 0 <= j < b.len() && leaf_hash(domain, a[i]) == leaf_hash(
                    domain,
                    b[j],
                ) ==> a[i] == b[j]) ==> (forall|leaf: Seq<u8>| #[trigger]
                a.contains(leaf) <==> b.contains(leaf))
        },
{
    assert forall|x: Seq<u8>, y: Seq<u8>|
        #![trigger leaf_preimage(domain, x), leaf_preimage(domain, y)]
        leaf_preimage(domain, x) == leaf_preimage(domain, y) implies x == y by {
        lemma_leaf_preimage(domain, x, y);
    }
    let ha = leaf_hashes(domain, a);
    let hb = leaf_hashes(domain, b);
    let p = root_preimage(domain, in_order(ha));
    let q = root_preimage(domain, in_order(hb));
    if p == q && ha.no_duplicates() && hb.no_duplicates() {
        lemma_auto_spec_u64_to_from_le_bytes();
        let n = (encode_utf8("KAGEB_ROOT_V1\0"@) + framed(domain.tag())).len() as int + 8;
        assert(p.skip(n) =~= joined(in_order(ha)));
        assert(q.skip(n) =~= joined(in_order(hb)));
        lemma_joined_determines(in_order(ha), in_order(hb));
        lemma_exists_order(ha);
        lemma_exists_order(hb);
        lemma_in_order(in_order(ha), ha);
        lemma_in_order(in_order(hb), hb);
        assert forall|hash: [u8; 32]| #[trigger] ha.contains(hash) <==> hb.contains(hash) by {
            assert(in_order(ha).contains(hash) <==> ha.contains(hash));
            assert(in_order(hb).contains(hash) <==> hb.contains(hash));
        }
        if forall|i: int, j: int|
            #![trigger a[i], b[j]]
            0 <= i < a.len() && 0 <= j < b.len() && leaf_hash(domain, a[i]) == leaf_hash(
                domain,
                b[j],
            ) ==> a[i] == b[j] {
            assert forall|leaf: Seq<u8>| #[trigger] a.contains(leaf) <==> b.contains(leaf) by {
                if a.contains(leaf) {
                    let i = choose|i: int| 0 <= i < a.len() && a[i] == leaf;
                    assert(ha[i] == leaf_hash(domain, leaf));
                    assert(ha.contains(ha[i]));
                    let j = choose|j: int| 0 <= j < hb.len() && hb[j] == ha[i];
                    assert(b[j] == a[i]);
                }
                if b.contains(leaf) {
                    let j = choose|j: int| 0 <= j < b.len() && b[j] == leaf;
                    assert(hb[j] == leaf_hash(domain, leaf));
                    assert(hb.contains(hb[j]));
                    let i = choose|i: int| 0 <= i < ha.len() && ha[i] == hb[j];
                    assert(a[i] == b[j]);
                }
            }
        }
    }
}

/// Digests are joined end to end, each in its place.
pub proof fn law_joined_digests_stand_in_order(hashes: Seq<[u8; 32]>, i: int)
    requires
        0 <= i < hashes.len(),
    ensures
        joined(hashes).len() == 32 * hashes.len(),
        joined(hashes).subrange(32 * i, 32 * i + 32) == hashes[i]@,
    decreases hashes.len(),
{
    lemma_joined_len(hashes);
    lemma_joined_len(hashes.drop_last());
    let rest = joined(hashes.drop_last());
    if i < hashes.len() - 1 {
        law_joined_digests_stand_in_order(hashes.drop_last(), i);
        assert(hashes.drop_last()[i] == hashes[i]);
        assert(joined(hashes).subrange(32 * i, 32 * i + 32) =~= rest.subrange(32 * i, 32 * i + 32));
    } else {
        assert(joined(hashes).subrange(32 * i, 32 * i + 32) =~= hashes[i]@);
    }
}

/// A root is the digest of the tag of its domain, the number of leaves, and their digests in ascending
/// order, each of which is the digest of the tag and the leaf, all of them with their lengths; two leaves
/// with one digest have no root.
pub proof fn law_root_binds_the_sorted_leaves(
    domain: CommitmentDomain,
    leaves: Seq<Seq<u8>>,
    digests: Seq<[u8; 32]>,
    sorted: Seq<[u8; 32]>,
)
    requires
        digests.len() == leaves.len(),
        forall|i: int|
            0 <= i < leaves.len() ==> #[trigger] digests[i] == sha256(
                encode_utf8("KAGEB_LEAF_V1\0"@) + spec_u64_to_le_bytes(domain.tag().len() as u64)
                    + domain.tag() + spec_u64_to_le_bytes(leaves[i].len() as u64) + leaves[i],
            ),
    ensures
        domain.tag() == match domain {
            CommitmentDomain::BalanceSet => encode_utf8("KAGEB_BALANCE_SET_V1\0"@),
            CommitmentDomain::MemberSet => encode_utf8("KAGEB_MEMBER_SET_V1\0"@),
            CommitmentDomain::ResultSet => encode_utf8("KAGEB_RESULT_SET_V1\0"@),
        },
        !digests.no_duplicates() ==> root_of(domain, leaves) == Err::<[u8; 32], _>(
            CommitmentError::DuplicateLeaf,
        ),
        digests.no_duplicates() && (forall|i: int, j: int|
            0 <= i < j < sorted.len() ==> bytes_less(#[trigger] sorted[i]@, #[trigger] sorted[j]@))
            && (forall|hash: [u8; 32]| #[trigger]
            sorted.contains(hash) <==> digests.contains(hash)) ==> root_of(domain, leaves) == Ok::<
            _,
            CommitmentError,
        >(
            sha256(
                encode_utf8("KAGEB_ROOT_V1\0"@) + spec_u64_to_le_bytes(domain.tag().len() as u64)
                    + domain.tag() + spec_u64_to_le_bytes(sorted.len() as u64) + joined(sorted),
            ),
        ),
{
    let hashes = leaf_hashes(domain, leaves);
    assert forall|i: int| 0 <= i < leaves.len() implies hashes[i] == digests[i] by {
        assert(leaf_preimage(domain, leaves[i]) =~= encode_utf8("KAGEB_LEAF_V1\0"@)
            + spec_u64_to_le_bytes(domain.tag().len() as u64) + domain.tag() + spec_u64_to_le_bytes(
            leaves[i].len() as u64,
        ) + leaves[i]);
    }
    assert(hashes =~= digests);
    if digests.no_duplicates() && hashes_sorted(sorted) && (forall|hash: [u8; 32]| #[trigger]
        sorted.contains(hash) <==> digests.contains(hash)) {
        assert(orders(sorted, hashes));
        lemma_in_order(sorted, hashes);
        assert(root_preimage(domain, sorted) =~= encode_utf8("KAGEB_ROOT_V1\0"@)
            + spec_u64_to_le_bytes(domain.tag().len() as u64) + domain.tag() + spec_u64_to_le_bytes(
            sorted.len() as u64,
        ) + joined(sorted));
    }
}

} // verus!
