//! Byte strings: fixed-width fields, equality, concatenation and the order of identifiers.

use vstd::prelude::*;

verus! {

/// Lexicographic order on byte strings of one length: the first byte that differs decides.
pub open spec fn bytes_less(a: Seq<u8>, b: Seq<u8>) -> bool {
    exists|i: int|
        0 <= i < a.len() && i < b.len() && #[trigger] a[i] < b[i] && (forall|j: int|
            0 <= j < i ==> #[trigger] a[j] == b[j])
}

/// No byte string precedes itself.
pub proof fn lemma_bytes_less_irreflexive(a: Seq<u8>)
    ensures
        !bytes_less(a, a),
{
}

/// The order is transitive.
pub proof fn lemma_bytes_less_transitive(a: Seq<u8>, b: Seq<u8>, c: Seq<u8>)
    requires
        a.len() == b.len(),
        b.len() == c.len(),
        bytes_less(a, b),
        bytes_less(b, c),
    ensures
        bytes_less(a, c),
{
    let i = choose|i: int|
        0 <= i < a.len() && i < b.len() && #[trigger] a[i] < b[i] && (forall|j: int|
            0 <= j < i ==> #[trigger] a[j] == b[j]);
    let k = choose|i: int|
        0 <= i < b.len() && i < c.len() && #[trigger] b[i] < c[i] && (forall|j: int|
            0 <= j < i ==> #[trigger] b[j] == c[j]);
    let m = if i < k {
        i
    } else {
        k
    };
    assert(a[m] < c[m]);
    assert forall|j: int| 0 <= j < m implies #[trigger] a[j] == c[j] by {
        assert(b[j] == c[j]);
    }
}

/// Two byte strings of one length are equal or one precedes the other, and never both.
pub proof fn lemma_bytes_less_total(a: Seq<u8>, b: Seq<u8>)
    requires
        a.len() == b.len(),
    ensures
        a == b || bytes_less(a, b) || bytes_less(b, a),
        !(bytes_less(a, b) && bytes_less(b, a)),
        bytes_less(a, b) ==> a != b,
{
    lemma_first_difference(a, b, 0);
    if bytes_less(a, b) && bytes_less(b, a) {
        lemma_bytes_less_transitive(a, b, a);
        lemma_bytes_less_irreflexive(a);
    }
    if bytes_less(a, b) {
        lemma_bytes_less_irreflexive(a);
    }
}

proof fn lemma_first_difference(a: Seq<u8>, b: Seq<u8>, from: int)
    requires
        a.len() == b.len(),
        0 <= from <= a.len(),
        forall|j: int| 0 <= j < from ==> a[j] == b[j],
    ensures
        a == b || bytes_less(a, b) || bytes_less(b, a),
    decreases a.len() - from,
{
    if from == a.len() {
        assert(a =~= b);
    } else if a[from] < b[from] {
        assert(bytes_less(a, b));
    } else if b[from] < a[from] {
        assert(bytes_less(b, a));
    } else {
        lemma_first_difference(a, b, from + 1);
    }
}

/// Whether `a` precedes `b` in the order of identifiers.
pub fn id_less(a: &[u8; 32], b: &[u8; 32]) -> (less: bool)
    ensures
        less == bytes_less(a@, b@),
{
    let mut i: usize = 0;
    while i < 32
        invariant
            i <= 32,
            forall|j: int| 0 <= j < i ==> a@[j] == b@[j],
        decreases 32 - i,
    {
        if a[i] < b[i] {
            assert(bytes_less(a@, b@)) by {
                assert(a@[i as int] < b@[i as int]);
            }
            return true;
        }
        if b[i] < a[i] {
            proof {
                assert(b@[i as int] < a@[i as int]);
                assert(bytes_less(b@, a@));
                lemma_bytes_less_total(a@, b@);
            }
            return false;
        }
        i += 1;
    }
    proof {
        assert(a@ =~= b@);
        lemma_bytes_less_irreflexive(a@);
    }
    false
}

/// Whether two arrays hold the same bytes.
pub fn same_array<const N: usize>(a: &[u8; N], b: &[u8; N]) -> (same: bool)
    ensures
        same == (*a == *b),
        same == (a@ == b@),
{
    let mut i: usize = 0;
    while i < N
        invariant
            i <= N,
            forall|j: int| 0 <= j < i ==> a@[j] == b@[j],
        decreases N - i,
    {
        if a[i] != b[i] {
            return false;
        }
        i += 1;
    }
    assert(a@ =~= b@);
    assert(*a =~= *b);
    true
}

/// Whether two slices hold the same bytes.
pub fn same_bytes(a: &[u8], b: &[u8]) -> (same: bool)
    ensures
        same == (a@ == b@),
{
    if a.len() != b.len() {
        return false;
    }
    let mut i: usize = 0;
    while i < a.len()
        invariant
            i <= a.len(),
            a.len() == b.len(),
            forall|j: int| 0 <= j < i ==> a@[j] == b@[j],
        decreases a.len() - i,
    {
        if a[i] != b[i] {
            return false;
        }
        i += 1;
    }
    assert(a@ =~= b@);
    true
}

/// A byte string of `n` zeros.
pub open spec fn zeros(n: nat) -> Seq<u8> {
    Seq::new(n, |i: int| 0u8)
}

/// Whether every byte is zero.
pub fn is_zero(a: &[u8]) -> (zero: bool)
    ensures
        zero == (a@ == zeros(a@.len())),
{
    let mut i: usize = 0;
    while i < a.len()
        invariant
            i <= a.len(),
            forall|j: int| 0 <= j < i ==> a@[j] == 0,
        decreases a.len() - i,
    {
        if a[i] != 0 {
            assert(a@[i as int] != zeros(a@.len())[i as int]);
            return false;
        }
        i += 1;
    }
    assert(a@ =~= zeros(a@.len()));
    true
}

/// The identifier of zeros.
pub fn zero_id() -> (id: [u8; 32])
    ensures
        id@ == zeros(32),
{
    let mut id: [u8; 32] = [0u8; 32];
    let mut i: usize = 0;
    while i < 32
        invariant
            i <= 32,
            forall|j: int| 0 <= j < i ==> id@[j] == 0,
        decreases 32 - i,
    {
        id[i] = 0;
        i += 1;
    }
    assert(id@ =~= zeros(32));
    id
}

/// The array of `N` bytes that starts at `at`.
pub fn read_array<const N: usize>(data: &[u8], at: usize) -> (out: [u8; N])
    requires
        at + N <= data@.len(),
    ensures
        out@ == data@.subrange(at as int, at + N),
{
    let size: usize = data.len();
    let mut out: [u8; N] = [0u8; N];
    let mut i: usize = 0;
    while i < N
        invariant
            i <= N,
            at + N <= data@.len(),
            size == data@.len(),
            forall|j: int| 0 <= j < i ==> out@[j] == data@[at + j],
        decreases N - i,
    {
        out[i] = data[at + i];
        i += 1;
    }
    assert(out@ =~= data@.subrange(at as int, at + N));
    out
}

/// Appends a slice to a vector.
pub fn append(out: &mut Vec<u8>, data: &[u8])
    ensures
        final(out)@ == old(out)@ + data@,
{
    out.extend_from_slice(data);
    assert(out@ =~= old(out)@ + data@);
}

/// A copy of the bytes from `from` up to `to`.
pub fn copy_range(data: &[u8], from: usize, to: usize) -> (out: Vec<u8>)
    requires
        from <= to <= data@.len(),
    ensures
        out@ == data@.subrange(from as int, to as int),
{
    let mut out: Vec<u8> = Vec::new();
    let mut i: usize = from;
    while i < to
        invariant
            from <= i <= to <= data@.len(),
            out@ == data@.subrange(from as int, i as int),
        decreases to - i,
    {
        out.push(data[i]);
        i += 1;
        assert(out@ =~= data@.subrange(from as int, i as int));
    }
    out
}

} // verus!
