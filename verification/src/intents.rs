//! The orders that a batch reveals, and the digest over all of them.

use crate::bytes::{
    append, bytes_less, id_less, lemma_bytes_less_total, lemma_bytes_less_transitive,
};
use crate::commitment::joined;
use crate::crypto::{
    is_encrypted_intent, law_signed_intent_round_trip, signed_intent_bytes, EncryptedSubmissionV1,
    SignedIntentV1, SubmissionFields,
};
use crate::domain::{intent_bytes, intent_valid, IntentFields};
use crate::hash::{digest_of, sha256};
use crate::shares::{
    is_signed_intent, opened_by, released_fields, shares_agree, shares_usable, EpochPublicKeys,
    ReleasedFields, ReleasedShareV1,
};
use vstd::bytes::{spec_u64_to_le_bytes, u64_to_le_bytes};
use vstd::prelude::*;
use vstd::seq_lib::{to_multiset_contains, to_multiset_insert, to_multiset_len, to_multiset_remove};
use vstd::string::*;
use vstd::utf8::encode_utf8;

verus! {

/// The order that a plaintext is the wire form of.
pub open spec fn intent_of(plaintext: Seq<u8>) -> (IntentFields, [u8; 64]) {
    choose|signed: (IntentFields, [u8; 64])|
        intent_valid(signed.0) && plaintext == #[trigger] signed_intent_bytes(signed.0, signed.1)
}

/// The order that two shares recover from a submission, where they recover one.
pub open spec fn recovered_intent(
    keys: Seq<u8>,
    submission: SubmissionFields,
    shares: Seq<ReleasedFields>,
) -> Option<(IntentFields, [u8; 64])> {
    if shares_agree(shares, sha256(submission.ciphertext)) && is_encrypted_intent(
        submission.ciphertext,
    ) && shares_usable(keys, submission.ciphertext, shares) {
        match opened_by(keys, submission.ciphertext, shares) {
            Some(plaintext) => if is_signed_intent(plaintext) {
                Some(intent_of(plaintext))
            } else {
                None
            },
            None => None,
        }
    } else {
        None
    }
}

/// An order is the one that its wire form is read as.
pub proof fn lemma_intent_of(intent: SignedIntentV1)
    requires
        intent.wf(),
    ensures
        intent_of(signed_intent_bytes(intent@.0, intent@.1)) == intent@,
{
    let plaintext = signed_intent_bytes(intent@.0, intent@.1);
    let chosen = intent_of(plaintext);
    assert(intent_valid(chosen.0) && plaintext == signed_intent_bytes(chosen.0, chosen.1));
    law_signed_intent_round_trip(intent@.0, intent@.1, chosen.0, chosen.1);
}

/// Recovers the order of a submission from two shares.
pub fn recover_intent(
    keys: &EpochPublicKeys,
    submission: &EncryptedSubmissionV1,
    first: &ReleasedShareV1,
    second: &ReleasedShareV1,
) -> (intent: Option<SignedIntentV1>)
    requires
        keys.wf(),
    ensures
        match intent {
            Some(intent) => intent.wf() && recovered_intent(
                keys@,
                submission@,
                seq![first@, second@],
            ) == Some(intent@),
            None => recovered_intent(keys@, submission@, seq![first@, second@]) is None,
        },
{
    let mut shares: Vec<&ReleasedShareV1> = Vec::new();
    shares.push(first);
    shares.push(second);
    assert(released_fields(shares@) =~= seq![first@, second@]);
    match keys.recover_submission(submission, shares.as_slice()) {
        Ok(intent) => {
            proof {
                lemma_intent_of(intent);
            }
            Some(intent)
        },
        Err(_) => None,
    }
}

/// Whether digests stand in order, where one may repeat.
pub open spec fn digests_ordered(digests: Seq<[u8; 32]>) -> bool {
    forall|i: int, j: int|
        0 <= i < j < digests.len() ==> !bytes_less(
            #[trigger] digests[j]@,
            #[trigger] digests[i]@,
        )
}

/// Whether a list is another one put in order.
pub open spec fn is_ordering(ordered: Seq<[u8; 32]>, digests: Seq<[u8; 32]>) -> bool {
    digests_ordered(ordered) && ordered.to_multiset() == digests.to_multiset()
}

/// A list put in order.
pub open spec fn ordering(digests: Seq<[u8; 32]>) -> Seq<[u8; 32]> {
    choose|ordered: Seq<[u8; 32]>| #[trigger] is_ordering(ordered, digests)
}

proof fn lemma_ordering_unique(a: Seq<[u8; 32]>, b: Seq<[u8; 32]>)
    requires
        digests_ordered(a),
        digests_ordered(b),
        a.to_multiset() == b.to_multiset(),
    ensures
        a == b,
    decreases a.len(),
{
    broadcast use {to_multiset_contains, to_multiset_len, to_multiset_remove};

    assert(a.len() == a.to_multiset().len());
    assert(b.len() == b.to_multiset().len());
    if a.len() == 0 {
        assert(a =~= b);
    } else {
        let x = a.last();
        let y = b.last();
        assert(a.contains(x)) by {
            assert(a[a.len() - 1] == x);
        }
        assert(b.contains(y)) by {
            assert(b[b.len() - 1] == y);
        }
        assert(a.to_multiset().count(x) > 0);
        assert(b.to_multiset().count(x) > 0);
        assert(b.contains(x));
        assert(b.to_multiset().count(y) > 0);
        assert(a.to_multiset().count(y) > 0);
        assert(a.contains(y));
        let i = choose|i: int| 0 <= i < b.len() && b[i] == x;
        let j = choose|j: int| 0 <= j < a.len() && a[j] == y;
        assert(i < b.len() - 1 ==> !bytes_less(b[b.len() - 1]@, b[i]@));
        assert(j < a.len() - 1 ==> !bytes_less(a[a.len() - 1]@, a[j]@));
        lemma_bytes_less_total(x@, y@);
        if x@ == y@ {
            assert(x =~= y);
        }
        assert(x == y);
        assert(a.remove(a.len() - 1) =~= a.drop_last());
        assert(b.remove(b.len() - 1) =~= b.drop_last());
        assert(a.drop_last().to_multiset() == a.to_multiset().remove(x));
        assert(b.drop_last().to_multiset() == b.to_multiset().remove(y));
        assert(digests_ordered(a.drop_last()));
        assert(digests_ordered(b.drop_last()));
        lemma_ordering_unique(a.drop_last(), b.drop_last());
        assert(a =~= a.drop_last().push(x));
        assert(b =~= b.drop_last().push(y));
    }
}

/// The order of a list does not depend on the order that the list came in.
pub proof fn law_ordering_is_order_independent(a: Seq<[u8; 32]>, b: Seq<[u8; 32]>)
    requires
        a.to_multiset() == b.to_multiset(),
    ensures
        ordering(a) == ordering(b),
{
    assert forall|ordered: Seq<[u8; 32]>| is_ordering(ordered, a) == is_ordering(ordered, b) by {}
    if exists|ordered: Seq<[u8; 32]>| #[trigger] is_ordering(ordered, a) {
        let ordered = choose|ordered: Seq<[u8; 32]>| #[trigger] is_ordering(ordered, a);
        assert(is_ordering(ordered, b));
        lemma_ordering_unique(ordering(a), ordering(b));
    } else {
        lemma_ordering_exists(a);
    }
}

proof fn lemma_ordering_exists(digests: Seq<[u8; 32]>)
    ensures
        exists|ordered: Seq<[u8; 32]>| #[trigger] is_ordering(ordered, digests),
    decreases digests.len(),
{
    if digests.len() == 0 {
        assert(is_ordering(digests, digests));
    } else {
        broadcast use to_multiset_remove;

        let rest = digests.drop_last();
        let digest = digests.last();
        lemma_ordering_exists(rest);
        let ordered = choose|ordered: Seq<[u8; 32]>| #[trigger] is_ordering(ordered, rest);
        let at = lemma_place(ordered, digest);
        lemma_ordered_insert(ordered, at, digest);
        assert(digests =~= rest.push(digest));
        rest.to_multiset_ensures();
        assert(digests.to_multiset() =~= rest.to_multiset().insert(digest));
        assert(is_ordering(ordered.insert(at, digest), digests));
    }
}

proof fn lemma_place(ordered: Seq<[u8; 32]>, digest: [u8; 32]) -> (at: int)
    requires
        digests_ordered(ordered),
    ensures
        0 <= at <= ordered.len(),
        forall|k: int| 0 <= k < at ==> bytes_less((#[trigger] ordered[k])@, digest@),
        at < ordered.len() ==> !bytes_less(ordered[at]@, digest@),
    decreases ordered.len(),
{
    if ordered.len() == 0 {
        0
    } else if bytes_less(ordered.last()@, digest@) {
        assert forall|k: int| 0 <= k < ordered.len() implies bytes_less(
            (#[trigger] ordered[k])@,
            digest@,
        ) by {
            let n = ordered.len() - 1;
            if k < n {
                assert(!bytes_less(ordered[n]@, ordered[k]@));
                lemma_bytes_less_total(ordered[k]@, ordered[n]@);
                if bytes_less(ordered[k]@, ordered[n]@) {
                    lemma_bytes_less_transitive(ordered[k]@, ordered[n]@, digest@);
                }
            }
        }
        ordered.len() as int
    } else {
        let front = ordered.drop_last();
        assert(digests_ordered(front));
        let at = lemma_place(front, digest);
        assert forall|k: int| 0 <= k < at implies bytes_less(
            (#[trigger] ordered[k])@,
            digest@,
        ) by {
            assert(front[k] == ordered[k]);
        }
        at
    }
}

proof fn lemma_ordered_insert(ordered: Seq<[u8; 32]>, at: int, digest: [u8; 32])
    requires
        digests_ordered(ordered),
        0 <= at <= ordered.len(),
        forall|k: int| 0 <= k < at ==> bytes_less((#[trigger] ordered[k])@, digest@),
        at < ordered.len() ==> !bytes_less(ordered[at]@, digest@),
    ensures
        digests_ordered(ordered.insert(at, digest)),
        ordered.insert(at, digest).to_multiset() == ordered.to_multiset().insert(digest),
{
    to_multiset_insert(ordered, at, digest);
    let next = ordered.insert(at, digest);
    assert forall|i: int, j: int| 0 <= i < j < next.len() implies !bytes_less(
        #[trigger] next[j]@,
        #[trigger] next[i]@,
    ) by {
        if j < at {
            assert(!bytes_less(ordered[j]@, ordered[i]@));
        } else if j == at {
            if bytes_less(digest@, ordered[i]@) {
                lemma_bytes_less_transitive(digest@, ordered[i]@, digest@);
                crate::bytes::lemma_bytes_less_irreflexive(digest@);
            }
        } else if i < at {
            assert(!bytes_less(ordered[j - 1]@, ordered[i]@));
        } else if i == at {
            if bytes_less(ordered[j - 1]@, digest@) {
                if j - 1 > at {
                    assert(!bytes_less(ordered[j - 1]@, ordered[at]@));
                    lemma_bytes_less_total(ordered[at]@, ordered[j - 1]@);
                    if bytes_less(ordered[at]@, ordered[j - 1]@) {
                        lemma_bytes_less_transitive(ordered[at]@, ordered[j - 1]@, digest@);
                    }
                }
            }
        } else {
            assert(!bytes_less(ordered[j - 1]@, ordered[i - 1]@));
        }
    }
}

/// Puts digests in order.
pub fn order_digests(digests: &[[u8; 32]]) -> (ordered: Vec<[u8; 32]>)
    ensures
        ordered@ == ordering(digests@),
        is_ordering(ordered@, digests@),
{
    let mut ordered: Vec<[u8; 32]> = Vec::new();
    let mut i: usize = 0;
    assert(digests@.take(0) =~= ordered@);
    while i < digests.len()
        invariant
            i <= digests@.len(),
            is_ordering(ordered@, digests@.take(i as int)),
        decreases digests@.len() - i,
    {
        let digest = digests[i];
        let mut at: usize = 0;
        while at < ordered.len() && id_less(&ordered[at], &digest)
            invariant
                at <= ordered@.len(),
                forall|k: int| 0 <= k < at ==> bytes_less((#[trigger] ordered@[k])@, digest@),
            decreases ordered@.len() - at,
        {
            at += 1;
        }
        let ghost before = ordered@;
        ordered.insert(at, digest);
        proof {
            lemma_ordered_insert(before, at as int, digest);
            let done = digests@.take(i as int);
            assert(ordered@ =~= before.insert(at as int, digest));
            assert(digests@.take(i + 1) =~= done.push(digest));
            done.to_multiset_ensures();
            assert(done.push(digest).to_multiset() =~= done.to_multiset().insert(digest));
        }
        i += 1;
    }
    proof {
        assert(digests@.take(i as int) =~= digests@);
        assert(is_ordering(ordering(digests@), digests@));
        lemma_ordering_unique(ordered@, ordering(digests@));
    }
    ordered
}

/// The digests of orders.
pub open spec fn intent_digests(intents: Seq<(IntentFields, [u8; 64])>) -> Seq<[u8; 32]> {
    intents.map_values(
        |signed: (IntentFields, [u8; 64])| sha256(signed_intent_bytes(signed.0, signed.1)),
    )
}

/// The digest over all orders of a batch, in the order of their own digests.
pub open spec fn intents_root(intents: Seq<(IntentFields, [u8; 64])>) -> [u8; 32] {
    sha256(
        encode_utf8("KAGEB_RECOVERED_INTENTS_V1\0"@) + spec_u64_to_le_bytes(intents.len() as u64)
            + joined(ordering(intent_digests(intents))),
    )
}

/// What orders say.
pub open spec fn intents_view(intents: Seq<SignedIntentV1>) -> Seq<(IntentFields, [u8; 64])> {
    intents.map_values(|intent: SignedIntentV1| intent@)
}

/// The digest over all orders of a batch.
pub fn recovered_intents_root(recovered: &[SignedIntentV1]) -> (root: [u8; 32])
    ensures
        root == intents_root(intents_view(recovered@)),
{
    let mut digests: Vec<[u8; 32]> = Vec::new();
    let mut i: usize = 0;
    while i < recovered.len()
        invariant
            i <= recovered@.len(),
            digests@.len() == i,
            forall|k: int|
                0 <= k < i ==> #[trigger] digests@[k] == sha256(
                    signed_intent_bytes(recovered@[k]@.0, recovered@[k]@.1),
                ),
        decreases recovered@.len() - i,
    {
        let encoded = recovered[i].encode();
        digests.push(digest_of(encoded.as_slice()));
        i += 1;
    }
    assert(digests@ =~= intent_digests(intents_view(recovered@)));
    let ordered = order_digests(digests.as_slice());
    proof {
        broadcast use to_multiset_len;

        assert(ordered@.len() == ordered@.to_multiset().len());
        assert(digests@.len() == digests@.to_multiset().len());
    }
    let mut out: Vec<u8> = Vec::new();
    append(&mut out, "KAGEB_RECOVERED_INTENTS_V1\0".as_bytes());
    append(&mut out, u64_to_le_bytes(recovered.len() as u64).as_slice());
    let ghost head = out@;
    let mut k: usize = 0;
    assert(ordered@.take(0) =~= Seq::empty());
    while k < ordered.len()
        invariant
            k <= ordered@.len(),
            out@ == head + joined(ordered@.take(k as int)),
        decreases ordered@.len() - k,
    {
        proof {
            assert(ordered@.take(k + 1).drop_last() =~= ordered@.take(k as int));
        }
        append(&mut out, ordered[k].as_slice());
        assert(out@ =~= head + joined(ordered@.take(k + 1)));
        k += 1;
    }
    assert(ordered@.take(k as int) =~= ordered@);
    digest_of(out.as_slice())
}

/// The root of recovered orders is the digest of its tag, their number and the digests of their wire
/// forms in ascending order, an order that comes twice being counted twice.
pub proof fn law_recovered_root_binds_the_orders(
    intents: Seq<(IntentFields, [u8; 64])>,
    digests: Seq<[u8; 32]>,
    ordered: Seq<[u8; 32]>,
)
    requires
        digests.len() == intents.len(),
        forall|i: int|
            0 <= i < intents.len() ==> #[trigger] digests[i] == sha256(
                intent_bytes(intents[i].0) + intents[i].1@,
            ),
        ordered.to_multiset() == digests.to_multiset(),
        forall|i: int, j: int|
            0 <= i < j < ordered.len() ==> !bytes_less(#[trigger] ordered[j]@, #[trigger] ordered[i]@),
    ensures
        intents_root(intents) == sha256(
            encode_utf8("KAGEB_RECOVERED_INTENTS_V1\0"@) + spec_u64_to_le_bytes(intents.len() as u64)
                + joined(ordered),
        ),
{
    assert(intent_digests(intents) =~= digests);
    assert(is_ordering(ordered, digests));
    lemma_ordering_exists(digests);
    lemma_ordering_unique(ordered, ordering(digests));
}

/// The order of a member is recovered by two shares exactly where both are of one epoch and one lock and of
/// the member's ciphertext, of two keypers, each matching the ciphertext, and open it to a signed order.
pub proof fn law_members_orders_are_recovered_exactly(
    keys: Seq<u8>,
    submission: SubmissionFields,
    first: ReleasedFields,
    second: ReleasedFields,
)
    ensures
        recovered_intent(keys, submission, seq![first, second]) is Some <==> {
            &&& first.epoch_account == second.epoch_account
            &&& first.lock_digest == second.lock_digest
            &&& first.ciphertext_hash == sha256(submission.ciphertext)
            &&& second.ciphertext_hash == sha256(submission.ciphertext)
            &&& submission.ciphertext.len() == 344
            &&& crate::threshold::ciphertext_valid(submission.ciphertext)
            &&& first.index != second.index
            &&& crate::threshold::share_verifies(
                keys,
                first.index,
                first.share@,
                submission.ciphertext,
            )
            &&& crate::threshold::share_verifies(
                keys,
                second.index,
                second.share@,
                submission.ciphertext,
            )
            &&& crate::threshold::opened(
                keys,
                first.index,
                first.share@,
                second.index,
                second.share@,
                submission.ciphertext,
            ) matches Some(plaintext) && plaintext.len() == 192
                && crate::domain::intent_error(plaintext.take(128)) is None
        },
{
    let shares = seq![first, second];
    assert(shares[0] == first && shares[1] == second);
    let ciphertext = submission.ciphertext;
    let one = crate::shares::share_refusal(keys, ciphertext, shares, 0);
    let two = crate::shares::share_refusal(keys, ciphertext, shares, 1);
    assert(shares_usable(keys, ciphertext, shares) <==> one is None && two is None);
    assert(two is None <==> first.index != second.index && crate::threshold::share_verifies(
        keys,
        second.index,
        second.share@,
        ciphertext,
    )) by {
        if first.index == second.index {
            assert(shares[0].index == shares[1].index);
        }
    }
    assert(shares_agree(shares, sha256(ciphertext)) <==> first.epoch_account == second.epoch_account
        && first.lock_digest == second.lock_digest && first.ciphertext_hash == sha256(ciphertext)
        && second.ciphertext_hash == sha256(ciphertext)) by {
        if shares_agree(shares, sha256(ciphertext)) {
            assert(shares[1].epoch_account == shares[0].epoch_account);
            assert(shares[0].ciphertext_hash == sha256(ciphertext));
        }
    }
}

} // verus!
