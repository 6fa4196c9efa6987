//! The crowd gate: which submissions form a batch.

use crate::bytes::bytes_less;
use crate::codec::views;
use crate::crypto::{
    submission_refusal, AdmissionPolicyV1, CryptoError, EncryptedSubmissionV1, PolicyFields,
    SubmissionFields,
};
use crate::idmap::{
    has_id, ids_sorted, lemma_entries_determined, lemma_value_at, position_of, value_of, IdMap,
};
use vstd::prelude::*;

verus! {

/// What the submissions so far have taken: participants by members, nonces by candidates, receipts
/// by fresh candidates.
pub struct Taken {
    pub participants: Set<[u8; 32]>,
    pub nonces: Set<[u8; 32]>,
    pub receipts: Set<[u8; 32]>,
}

/// Whether a submission is a candidate: the policy admits it, and its participant has no member.
pub open spec fn is_candidate(
    taken: Taken,
    submission: SubmissionFields,
    policy: PolicyFields,
) -> bool {
    submission_refusal(submission, policy) is None && !taken.participants.contains(
        submission.authorization.participant_id,
    )
}

/// Whether a submission is a candidate whose nonce is free.
pub open spec fn is_fresh(taken: Taken, submission: SubmissionFields, policy: PolicyFields) -> bool {
    is_candidate(taken, submission, policy) && !taken.nonces.contains(
        submission.authorization.nonce,
    )
}

/// Whether a submission becomes a member: a fresh candidate whose receipt is free.
pub open spec fn is_member(
    taken: Taken,
    submission: SubmissionFields,
    policy: PolicyFields,
) -> bool {
    is_fresh(taken, submission, policy) && !taken.receipts.contains(submission.receipt)
}

/// What the first `n` submissions have taken.
pub open spec fn taken(submissions: Seq<SubmissionFields>, policy: PolicyFields, n: int) -> Taken
    decreases n,
{
    if n <= 0 {
        Taken { participants: Set::empty(), nonces: Set::empty(), receipts: Set::empty() }
    } else {
        let before = taken(submissions, policy, n - 1);
        let submission = submissions[n - 1];
        Taken {
            participants: if is_member(before, submission, policy) {
                before.participants.insert(submission.authorization.participant_id)
            } else {
                before.participants
            },
            nonces: if is_candidate(before, submission, policy) {
                before.nonces.insert(submission.authorization.nonce)
            } else {
                before.nonces
            },
            receipts: if is_fresh(before, submission, policy) {
                before.receipts.insert(submission.receipt)
            } else {
                before.receipts
            },
        }
    }
}

/// Whether the submission at `i` becomes a member.
pub open spec fn member(submissions: Seq<SubmissionFields>, policy: PolicyFields, i: int) -> bool {
    is_member(taken(submissions, policy, i), submissions[i], policy)
}

/// Members among the first `n` submissions.
pub open spec fn member_total(
    submissions: Seq<SubmissionFields>,
    policy: PolicyFields,
    n: int,
) -> int
    decreases n,
{
    if n <= 0 {
        0
    } else {
        member_total(submissions, policy, n - 1) + if member(submissions, policy, n - 1) {
            1int
        } else {
            0int
        }
    }
}

/// Whether a submission is one of the members.
pub open spec fn among_members(
    submissions: Seq<SubmissionFields>,
    policy: PolicyFields,
    submission: SubmissionFields,
) -> bool {
    exists|i: int|
        0 <= i < submissions.len() && #[trigger] member(submissions, policy, i) && submissions[i]
            == submission
}

/// Whether a list holds exactly the members, in the order of their participants.
pub open spec fn is_batch(
    members: Seq<SubmissionFields>,
    submissions: Seq<SubmissionFields>,
    policy: PolicyFields,
) -> bool {
    &&& forall|a: int, b: int|
        0 <= a < b < members.len() ==> bytes_less(
            (#[trigger] members[a]).authorization.participant_id@,
            (#[trigger] members[b]).authorization.participant_id@,
        )
    &&& forall|a: int|
        0 <= a < members.len() ==> among_members(submissions, policy, #[trigger] members[a])
    &&& forall|i: int|
        0 <= i < submissions.len() && #[trigger] member(submissions, policy, i) ==> exists|a: int|
            0 <= a < members.len() && #[trigger] members[a] == submissions[i]
}

/// The members of a batch, in the order of their participants.
#[derive(PartialEq, Eq)]
pub struct AdmittedBatch {
    members: Vec<EncryptedSubmissionV1>,
}

impl View for AdmittedBatch {
    type V = Seq<SubmissionFields>;

    closed spec fn view(&self) -> Seq<SubmissionFields> {
        views(self.members@)
    }
}

impl AdmittedBatch {
    pub fn member_count(&self) -> (count: usize)
        ensures
            count == self@.len(),
    {
        self.members.len()
    }

    pub fn participant_ids(&self) -> (ids: Vec<[u8; 32]>)
        ensures
            ids@ == self@.map_values(|fields: SubmissionFields| fields.authorization.participant_id),
    {
        let mut ids: Vec<[u8; 32]> = Vec::new();
        let ghost all = self@.map_values(
            |fields: SubmissionFields| fields.authorization.participant_id,
        );
        let mut i: usize = 0;
        while i < self.members.len()
            invariant
                i <= self.members@.len(),
                self@ == views(self.members@),
                all == self@.map_values(
                    |fields: SubmissionFields| fields.authorization.participant_id,
                ),
                ids@ == all.take(i as int),
            decreases self.members@.len() - i,
        {
            assert(self@[i as int] == self.members@[i as int]@);
            ids.push(self.members[i].participant_id());
            i += 1;
            assert(ids@ =~= all.take(i as int));
        }
        assert(all.take(i as int) =~= all);
        ids
    }
}

/// What a policy makes of submissions: a batch of the members where there are enough of them, and their
/// number where there are not.
pub open spec fn batch_outcome(
    fields: Seq<SubmissionFields>,
    policy: PolicyFields,
    batch: Result<AdmittedBatch, CryptoError>,
) -> bool {
    let total = member_total(fields, policy, fields.len() as int);
    match batch {
        Ok(batch) => total >= policy.minimum && batch@.len() == total && is_batch(
            batch@,
            fields,
            policy,
        ),
        Err(error) => total < policy.minimum && error == (CryptoError::InsufficientCrowd {
            valid: total as usize,
            minimum: policy.minimum,
        }),
    }
}

/// Admits the submissions that a policy accepts, one for each participant, no nonce and no receipt
/// twice; fewer members than the minimum are refused with their number.
pub fn admit_batch(submissions: &[EncryptedSubmissionV1], policy: &AdmissionPolicyV1) -> (batch:
    Result<AdmittedBatch, CryptoError>)
    ensures
        batch_outcome(views(submissions@), policy@, batch),
{
    let ghost fields = views(submissions@);
    let mut members: IdMap<usize> = IdMap::new();
    let mut nonces: IdMap<()> = IdMap::new();
    let mut receipts: IdMap<()> = IdMap::new();
    let mut i: usize = 0;
    while i < submissions.len()
        invariant
            fields == views(submissions@),
            i <= submissions@.len(),
            members.wf(),
            nonces.wf(),
            receipts.wf(),
            members@.len() == member_total(fields, policy@, i as int),
            forall|id: [u8; 32]|
                #![trigger value_of(members@, id)]
                value_of(members@, id) matches Some(k) ==> k < i && member(
                    fields,
                    policy@,
                    k as int,
                ) && fields[k as int].authorization.participant_id == id,
            forall|k: int|
                0 <= k < i && #[trigger] member(fields, policy@, k) ==> value_of(
                    members@,
                    fields[k].authorization.participant_id,
                ) == Some(k as usize),
            forall|id: [u8; 32]| #[trigger]
                value_of(members@, id) is Some <==> taken(
                    fields,
                    policy@,
                    i as int,
                ).participants.contains(id),
            forall|nonce: [u8; 32]| #[trigger]
                value_of(nonces@, nonce) is Some <==> taken(
                    fields,
                    policy@,
                    i as int,
                ).nonces.contains(nonce),
            forall|receipt: [u8; 32]| #[trigger]
                value_of(receipts@, receipt) is Some <==> taken(
                    fields,
                    policy@,
                    i as int,
                ).receipts.contains(receipt),
        decreases submissions@.len() - i,
    {
        let submission = &submissions[i];
        assert(fields[i as int] == submission@);
        let id = submission.participant_id();
        let nonce = submission.authorization().nonce();
        let receipt = submission.receipt();
        let ghost before = taken(fields, policy@, i as int);
        let ghost old_members = members@;
        if submission.verify_admission(policy).is_ok() && members.get(&id).is_none() {
            assert(is_candidate(before, submission@, policy@));
            let seen = nonces.get(&nonce).is_some();
            nonces.insert(nonce, ());
            if !seen {
                assert(is_fresh(before, submission@, policy@));
                let known = receipts.get(&receipt).is_some();
                receipts.insert(receipt, ());
                if !known {
                    assert(member(fields, policy@, i as int));
                    members.insert(id, i);
                }
            }
        }
        proof {
            assert forall|k: int|
                0 <= k < i + 1 && #[trigger] member(fields, policy@, k) implies value_of(
                members@,
                fields[k].authorization.participant_id,
            ) == Some(k as usize) by {
                if k < i {
                    assert(value_of(old_members, fields[k].authorization.participant_id) == Some(
                        k as usize,
                    ));
                }
            }
        }
        i += 1;
    }
    if members.len() < policy.minimum() {
        return Err(
            CryptoError::InsufficientCrowd { valid: members.len(), minimum: policy.minimum() },
        );
    }
    let mut list: Vec<EncryptedSubmissionV1> = Vec::new();
    let mut k: usize = 0;
    while k < members.len()
        invariant
            fields == views(submissions@),
            members.wf(),
            k <= members@.len(),
            list@.len() == k,
            forall|id: [u8; 32]|
                #![trigger value_of(members@, id)]
                value_of(members@, id) matches Some(m) ==> m < submissions@.len() && member(
                    fields,
                    policy@,
                    m as int,
                ) && fields[m as int].authorization.participant_id == id,
            forall|a: int|
                0 <= a < k ==> (#[trigger] list@[a])@ == fields[members@[a].1 as int]
                    && members@[a].1 < submissions@.len(),
        decreases members@.len() - k,
    {
        let (id, at) = members.entry(k);
        proof {
            lemma_value_at(members@, k as int);
            assert(value_of(members@, id) == Some(at));
        }
        list.push(submissions[at].clone());
        k += 1;
    }
    let batch = AdmittedBatch { members: list };
    proof {
        assert(i == submissions@.len());
        let result = batch@;
        assert forall|a: int| 0 <= a < result.len() implies #[trigger] result[a]
            == fields[members@[a].1 as int] && result[a].authorization.participant_id
            == members@[a].0 && member(fields, policy@, members@[a].1 as int) by {
            assert(result[a] == list@[a]@);
            lemma_value_at(members@, a);
            assert(value_of(members@, members@[a].0) == Some(members@[a].1));
        }
        assert forall|a: int, b: int| 0 <= a < b < result.len() implies bytes_less(
            (#[trigger] result[a]).authorization.participant_id@,
            (#[trigger] result[b]).authorization.participant_id@,
        ) by {
            assert(bytes_less(members@[a].0@, members@[b].0@));
        }
        assert forall|n: int|
            0 <= n < fields.len() && #[trigger] member(fields, policy@, n) implies exists|a: int|
            0 <= a < result.len() && #[trigger] result[a] == fields[n] by {
            let id = fields[n].authorization.participant_id;
            assert(value_of(members@, id) == Some(n as usize));
            let a = position_of(members@, id);
            assert(members@[a].0 == id);
            assert(result[a] == fields[members@[a].1 as int]);
        }
        assert forall|a: int| 0 <= a < result.len() implies among_members(
            fields,
            policy@,
            #[trigger] result[a],
        ) by {
            let n = members@[a].1 as int;
            assert(result[a] == fields[n]);
            assert(list@[a]@ == fields[n]);
            assert(member(fields, policy@, n));
        }
        assert(is_batch(result, fields, policy@));
    }
    Ok(batch)
}

proof fn lemma_taken_grows(
    submissions: Seq<SubmissionFields>,
    policy: PolicyFields,
    i: int,
    n: int,
)
    requires
        0 <= i < n <= submissions.len(),
        member(submissions, policy, i),
    ensures
        taken(submissions, policy, n).participants.contains(
            submissions[i].authorization.participant_id,
        ),
        taken(submissions, policy, n).nonces.contains(submissions[i].authorization.nonce),
        taken(submissions, policy, n).receipts.contains(submissions[i].receipt),
    decreases n,
{
    if n > i + 1 {
        lemma_taken_grows(submissions, policy, i, n - 1);
    }
}

/// No participant, no nonce and no receipt has two members, and every member is admissible.
pub proof fn law_members_are_distinct(
    submissions: Seq<SubmissionFields>,
    policy: PolicyFields,
    i: int,
    j: int,
)
    requires
        0 <= i < j < submissions.len(),
        member(submissions, policy, i),
        member(submissions, policy, j),
    ensures
        submissions[i].authorization.participant_id != submissions[j].authorization.participant_id,
        submissions[i].authorization.nonce != submissions[j].authorization.nonce,
        submissions[i].receipt != submissions[j].receipt,
        submission_refusal(submissions[i], policy) is None,
        submission_refusal(submissions[j], policy) is None,
{
    lemma_taken_grows(submissions, policy, i, j);
}

/// Whether a policy admits a submission on its own.
pub open spec fn is_admissible(submission: SubmissionFields, policy: PolicyFields) -> bool {
    submission_refusal(submission, policy) is None
}

/// Whether two submissions cannot both be members.
pub open spec fn conflict(a: SubmissionFields, b: SubmissionFields) -> bool {
    ||| a.authorization.participant_id == b.authorization.participant_id
    ||| a.authorization.nonce == b.authorization.nonce
    ||| a.receipt == b.receipt
}

/// Whether no two admissible submissions conflict; one may stand there twice.
pub open spec fn conflict_free(submissions: Seq<SubmissionFields>, policy: PolicyFields) -> bool {
    forall|i: int, j: int|
        #![trigger submissions[i], submissions[j]]
        0 <= i < submissions.len() && 0 <= j < submissions.len() && is_admissible(
            submissions[i],
            policy,
        ) && is_admissible(submissions[j], policy) && submissions[i] != submissions[j]
            ==> !conflict(submissions[i], submissions[j])
}

/// The admissible submissions among the first `n`.
spec fn admissible_among(submissions: Seq<SubmissionFields>, policy: PolicyFields, n: int) -> Set<
    SubmissionFields,
>
    decreases n,
{
    if n <= 0 {
        Set::empty()
    } else if is_admissible(submissions[n - 1], policy) {
        admissible_among(submissions, policy, n - 1).insert(submissions[n - 1])
    } else {
        admissible_among(submissions, policy, n - 1)
    }
}

proof fn lemma_admissible_among(
    submissions: Seq<SubmissionFields>,
    policy: PolicyFields,
    n: int,
    submission: SubmissionFields,
)
    requires
        0 <= n <= submissions.len(),
    ensures
        admissible_among(submissions, policy, n).finite(),
        admissible_among(submissions, policy, n).contains(submission) <==> is_admissible(
            submission,
            policy,
        ) && exists|k: int| 0 <= k < n && #[trigger] submissions[k] == submission,
    decreases n,
{
    if n > 0 {
        lemma_admissible_among(submissions, policy, n - 1, submission);
        if submissions[n - 1] == submission {
            assert(submissions[n - 1] == submission);
        }
    }
}

/// Without conflicts, a submission is a member where it is admissible and stands there first.
proof fn lemma_conflict_free(
    submissions: Seq<SubmissionFields>,
    policy: PolicyFields,
    n: int,
)
    requires
        0 <= n <= submissions.len(),
        conflict_free(submissions, policy),
    ensures
        member_total(submissions, policy, n) == admissible_among(submissions, policy, n).len(),
        forall|s: SubmissionFields| #[trigger]
            admissible_among(submissions, policy, n).contains(s) ==> taken(
                submissions,
                policy,
                n,
            ).participants.contains(s.authorization.participant_id),
        forall|id: [u8; 32]| #[trigger]
            taken(submissions, policy, n).participants.contains(id) ==> exists|k: int|
                0 <= k < n && is_admissible(#[trigger] submissions[k], policy)
                    && submissions[k].authorization.participant_id == id,
        forall|nonce: [u8; 32]| #[trigger]
            taken(submissions, policy, n).nonces.contains(nonce) ==> exists|k: int|
                0 <= k < n && is_admissible(#[trigger] submissions[k], policy)
                    && submissions[k].authorization.nonce == nonce,
        forall|receipt: [u8; 32]| #[trigger]
            taken(submissions, policy, n).receipts.contains(receipt) ==> exists|k: int|
                0 <= k < n && is_admissible(#[trigger] submissions[k], policy)
                    && submissions[k].receipt == receipt,
        n < submissions.len() ==> (member(submissions, policy, n) <==> is_admissible(
            submissions[n],
            policy,
        ) && !admissible_among(submissions, policy, n).contains(submissions[n])),
    decreases n,
{
    if n > 0 {
        lemma_conflict_free(submissions, policy, n - 1);
        lemma_admissible_among(submissions, policy, n - 1, submissions[n - 1]);
    }
    if n < submissions.len() {
        lemma_admissible_among(submissions, policy, n, submissions[n]);
    }
}

proof fn lemma_conflict_free_member(
    submissions: Seq<SubmissionFields>,
    policy: PolicyFields,
    submission: SubmissionFields,
)
    requires
        conflict_free(submissions, policy),
    ensures
        among_members(submissions, policy, submission) <==> is_admissible(submission, policy)
            && submissions.contains(submission),
{
    if is_admissible(submission, policy) && submissions.contains(submission) {
        let k = choose|k: int| 0 <= k < submissions.len() && submissions[k] == submission;
        lemma_first_stands(submissions, policy, submission, k);
    }
}

proof fn lemma_first_stands(
    submissions: Seq<SubmissionFields>,
    policy: PolicyFields,
    submission: SubmissionFields,
    k: int,
)
    requires
        conflict_free(submissions, policy),
        is_admissible(submission, policy),
        0 <= k < submissions.len(),
        submissions[k] == submission,
    ensures
        among_members(submissions, policy, submission),
    decreases k,
{
    lemma_conflict_free(submissions, policy, k);
    lemma_admissible_among(submissions, policy, k, submission);
    if admissible_among(submissions, policy, k).contains(submission) {
        let j = choose|j: int| 0 <= j < k && #[trigger] submissions[j] == submission;
        lemma_first_stands(submissions, policy, submission, j);
    } else {
        assert(member(submissions, policy, k));
    }
}

/// The members with their participants, as entries by participant.
spec fn by_participant(members: Seq<SubmissionFields>) -> Seq<([u8; 32], SubmissionFields)> {
    members.map_values(
        |fields: SubmissionFields| (fields.authorization.participant_id, fields),
    )
}

proof fn lemma_batch_sorted(
    members: Seq<SubmissionFields>,
    submissions: Seq<SubmissionFields>,
    policy: PolicyFields,
)
    requires
        is_batch(members, submissions, policy),
    ensures
        ids_sorted(by_participant(members)),
{
    let entries = by_participant(members);
    assert forall|i: int, j: int| 0 <= i < j < entries.len() implies bytes_less(
        #[trigger] entries[i].0@,
        #[trigger] entries[j].0@,
    ) by {
        assert(entries[i].1 == members[i] && entries[j].1 == members[j]);
    }
}

proof fn lemma_by_participant(
    members: Seq<SubmissionFields>,
    submissions: Seq<SubmissionFields>,
    policy: PolicyFields,
    id: [u8; 32],
)
    requires
        conflict_free(submissions, policy),
        is_batch(members, submissions, policy),
    ensures
        match value_of(by_participant(members), id) {
            Some(fields) => fields.authorization.participant_id == id && is_admissible(
                fields,
                policy,
            ) && submissions.contains(fields),
            None => forall|fields: SubmissionFields| #[trigger]
                submissions.contains(fields) && is_admissible(fields, policy)
                    ==> fields.authorization.participant_id != id,
        },
{
    let entries = by_participant(members);
    if has_id(entries, id) {
        let k = position_of(entries, id);
        assert(entries[k].1 == members[k]);
        lemma_conflict_free_member(submissions, policy, members[k]);
    } else {
        assert forall|fields: SubmissionFields| #[trigger]
            submissions.contains(fields) && is_admissible(
            fields,
            policy,
        ) implies fields.authorization.participant_id != id by {
            lemma_conflict_free_member(submissions, policy, fields);
            let i = choose|i: int|
                0 <= i < submissions.len() && #[trigger] member(submissions, policy, i)
                    && submissions[i] == fields;
            let a = choose|a: int| 0 <= a < members.len() && #[trigger] members[a]
                == submissions[i];
            assert(entries[a].0 == fields.authorization.participant_id);
        }
    }
}

/// The batch does not depend on the order in which submissions came in: without conflicts, lists of
/// the same submissions have the same number of members, and the same batch.
pub proof fn law_admission_is_order_independent(
    a: Seq<SubmissionFields>,
    b: Seq<SubmissionFields>,
    policy: PolicyFields,
    batch_a: Seq<SubmissionFields>,
    batch_b: Seq<SubmissionFields>,
)
    requires
        forall|fields: SubmissionFields| #[trigger] a.contains(fields) <==> b.contains(fields),
        conflict_free(a, policy),
    ensures
        member_total(a, policy, a.len() as int) == member_total(b, policy, b.len() as int),
        is_batch(batch_a, a, policy) && is_batch(batch_b, b, policy) ==> batch_a == batch_b,
{
    assert forall|i: int, j: int|
        #![trigger b[i], b[j]]
        0 <= i < b.len() && 0 <= j < b.len() && is_admissible(b[i], policy) && is_admissible(
            b[j],
            policy,
        ) && b[i] != b[j] implies !conflict(b[i], b[j]) by {
        assert(b.contains(b[i]) && b.contains(b[j]));
        assert(a.contains(b[i]) && a.contains(b[j]));
        let k = choose|k: int| 0 <= k < a.len() && a[k] == b[i];
        let m = choose|m: int| 0 <= m < a.len() && a[m] == b[j];
        assert(!conflict(a[k], a[m]));
    }
    lemma_conflict_free(a, policy, a.len() as int);
    lemma_conflict_free(b, policy, b.len() as int);
    let left = admissible_among(a, policy, a.len() as int);
    let right = admissible_among(b, policy, b.len() as int);
    assert forall|fields: SubmissionFields| left.contains(fields) <==> right.contains(fields) by {
        lemma_admissible_among(a, policy, a.len() as int, fields);
        lemma_admissible_among(b, policy, b.len() as int, fields);
        assert(a.contains(fields) <==> b.contains(fields));
    }
    assert(left =~= right);
    if is_batch(batch_a, a, policy) && is_batch(batch_b, b, policy) {
        let x = by_participant(batch_a);
        let y = by_participant(batch_b);
        assert forall|id: [u8; 32]| value_of(x, id) == value_of(y, id) by {
            lemma_by_participant(batch_a, a, policy, id);
            lemma_by_participant(batch_b, b, policy, id);
            if let (Some(p), Some(q)) = (value_of(x, id), value_of(y, id)) {
                assert(a.contains(q));
                let k = choose|k: int| 0 <= k < a.len() && a[k] == p;
                let m = choose|m: int| 0 <= m < a.len() && a[m] == q;
                assert(conflict(a[k], a[m]));
            } else if let Some(p) = value_of(x, id) {
                assert(b.contains(p));
            } else if let Some(q) = value_of(y, id) {
                assert(a.contains(q));
            }
        }
        lemma_batch_sorted(batch_a, a, policy);
        lemma_batch_sorted(batch_b, b, policy);
        lemma_entries_determined(x, y);
        assert forall|i: int| 0 <= i < batch_a.len() implies batch_a[i] == batch_b[i] by {
            assert(x[i].1 == batch_a[i] && y[i].1 == batch_b[i]);
        }
        assert(batch_a =~= batch_b);
    }
}

} // verus!
