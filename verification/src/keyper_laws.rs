//! What a keyper process is sent, what it answers, and what its coordinator takes.

use crate::hash::sha256;
use crate::keyper::{
    approves, approves_settlement, bound_share_bytes, char_len, is_asked_share, is_bound_share,
    is_release, is_self_test, is_settlement_frame, is_sign_lock, leaks, lock_response_bytes,
    lock_response_judged, occurs, passes_self_test, release_bytes, release_response_judged,
    response_bytes, response_valid, self_test_answered, self_test_output_refusal,
    self_test_request_bytes, settlement_response_taken, sign_lock_bytes, text_len, url_usable,
    white, KeyperProcessError, ProcessOutput, ResponseFields,
};
use crate::lock::{ApprovalFields, LockApprovalV1, PackageFields};
use crate::request::{SettlementApprovalFields, SettlementApprovalV1};
use crate::shares::{reads_as_released, KeyperSecretShare, ReleasedFields, ReleasedShareV1};
use crate::signing::ed25519_verifies;
use crate::threshold::{
    ciphertext_valid, public_share_valid, share_public, share_signature, share_signature_verifies,
    share_verifies, signature_share_valid,
};
use vstd::bytes::{
    lemma_auto_spec_u32_to_from_le_bytes, lemma_auto_spec_u64_to_from_le_bytes,
    spec_u32_from_le_bytes, spec_u32_to_le_bytes, spec_u64_from_le_bytes, spec_u64_to_le_bytes,
};
use vstd::prelude::*;

verus! {

/// A share that is sent to its keyper is a version, the epoch that it is bound to, its index and the
/// secret; bytes are one exactly where they have its length and version, and hold an index and a secret.
pub proof fn law_bound_shares_are_exact(share: KeyperSecretShare, encoded: Seq<u8>)
    ensures
        ({
            let bytes = bound_share_bytes(share);
            &&& bytes.len() == 73
            &&& bytes[0] == 1
            &&& bytes.subrange(1, 33) == share.epoch()@
            &&& bytes.subrange(33, 41) == spec_u64_to_le_bytes(share.position() as u64)
            &&& bytes.subrange(41, 73) == share.secret()@
        }),
        is_bound_share(encoded) <==> {
            &&& encoded.len() == 73
            &&& encoded[0] == 1
            &&& spec_u64_from_le_bytes(encoded.subrange(33, 41)) <= usize::MAX
            &&& share_public(encoded.subrange(41, 73)) is Some
        },
{
    lemma_auto_spec_u64_to_from_le_bytes();
    let bytes = bound_share_bytes(share);
    assert(bytes.subrange(1, 33) =~= share.epoch()@);
    assert(bytes.subrange(33, 41) =~= spec_u64_to_le_bytes(share.position() as u64));
    assert(bytes.subrange(41, 73) =~= share.secret()@);
}

/// The frames of a keyper are its share and, behind it, the package with its length; a frame that asks for
/// a share names the member in between. A frame is read exactly where it begins with a share, is no longer
/// than it may be, and is as long as it says.
pub proof fn law_frames_are_exact(
    share: KeyperSecretShare,
    member: u32,
    package: Seq<u8>,
    encoded: Seq<u8>,
)
    ensures
        ({
            let frame = sign_lock_bytes(share, package);
            &&& frame.len() == 77 + package.len()
            &&& frame.take(73) == bound_share_bytes(share)
            &&& frame.subrange(73, 77) == spec_u32_to_le_bytes(package.len() as u32)
            &&& frame.skip(77) == package
        }),
        ({
            let frame = release_bytes(share, member, package);
            &&& frame.len() == 81 + package.len()
            &&& frame.take(73) == bound_share_bytes(share)
            &&& frame.subrange(73, 77) == spec_u32_to_le_bytes(member)
            &&& frame.subrange(77, 81) == spec_u32_to_le_bytes(package.len() as u32)
            &&& frame.skip(81) == package
        }),
        is_sign_lock(encoded) <==> {
            &&& 77 <= encoded.len() <= 65536
            &&& is_bound_share(encoded.take(73))
            &&& spec_u32_from_le_bytes(encoded.subrange(73, 77)) == encoded.len() - 77
        },
        is_release(encoded) <==> {
            &&& 81 <= encoded.len() <= 65536
            &&& is_bound_share(encoded.take(73))
            &&& spec_u32_from_le_bytes(encoded.subrange(77, 81)) == encoded.len() - 81
        },
        is_settlement_frame(encoded) <==> {
            &&& 73 < encoded.len() <= 73 + 131072
            &&& is_bound_share(encoded.take(73))
        },
{
    lemma_auto_spec_u32_to_from_le_bytes();
    law_bound_shares_are_exact(share, encoded);
    let frame = sign_lock_bytes(share, package);
    assert(frame.take(73) =~= bound_share_bytes(share));
    assert(frame.subrange(73, 77) =~= spec_u32_to_le_bytes(package.len() as u32));
    assert(frame.skip(77) =~= package);
    let release = release_bytes(share, member, package);
    assert(release.take(73) =~= bound_share_bytes(share));
    assert(release.subrange(73, 77) =~= spec_u32_to_le_bytes(member));
    assert(release.subrange(77, 81) =~= spec_u32_to_le_bytes(package.len() as u32));
    assert(release.skip(81) =~= package);
}

/// A self-test sends the index, a challenge and the secret, and is answered with that index, the public
/// share of that secret and the challenge signed with it.
pub proof fn law_self_tests_are_exact(
    share: KeyperSecretShare,
    challenge: [u8; 32],
    encoded: Seq<u8>,
    response: ResponseFields,
)
    ensures
        ({
            let bytes = self_test_request_bytes(share, challenge);
            &&& bytes.len() == 73
            &&& bytes[0] == 1
            &&& bytes.subrange(1, 9) == spec_u64_to_le_bytes(share.position() as u64)
            &&& bytes.subrange(9, 41) == challenge@
            &&& bytes.subrange(41, 73) == share.secret()@
        }),
        ({
            let bytes = response_bytes(response);
            &&& bytes.len() == 153
            &&& bytes[0] == 1
            &&& bytes.subrange(1, 9) == spec_u64_to_le_bytes(response.index as u64)
            &&& bytes.subrange(9, 57) == response.public_key_share@
            &&& bytes.subrange(57, 153) == response.signature@
        }),
        is_self_test(encoded) <==> {
            &&& encoded.len() == 73
            &&& encoded[0] == 1
            &&& spec_u64_from_le_bytes(encoded.subrange(1, 9)) <= usize::MAX
            &&& share_public(encoded.subrange(41, 73)) is Some
        },
        self_test_answered(encoded, response) ==> {
            &&& response.index == spec_u64_from_le_bytes(encoded.subrange(1, 9))
            &&& share_public(encoded.subrange(41, 73)) == Some(response.public_key_share)
            &&& share_signature(encoded.subrange(41, 73), encoded.subrange(9, 41)) == Some(
                response.signature,
            )
        },
        response_valid(response) <==> public_share_valid(response.public_key_share@)
            && signature_share_valid(response.signature@),
        passes_self_test(response, share, challenge) <==> {
            &&& public_share_valid(response.public_key_share@)
            &&& signature_share_valid(response.signature@)
            &&& response.index == share.position()
            &&& share_signature_verifies(
                response.public_key_share@,
                response.signature@,
                challenge@,
            )
        },
{
    lemma_auto_spec_u64_to_from_le_bytes();
    let bytes = self_test_request_bytes(share, challenge);
    assert(bytes.subrange(1, 9) =~= spec_u64_to_le_bytes(share.position() as u64));
    assert(bytes.subrange(9, 41) =~= challenge@);
    assert(bytes.subrange(41, 73) =~= share.secret()@);
    let answer = response_bytes(response);
    assert(answer.subrange(1, 9) =~= spec_u64_to_le_bytes(response.index as u64));
    assert(answer.subrange(9, 57) =~= response.public_key_share@);
    assert(answer.subrange(57, 153) =~= response.signature@);
}

/// A secret is found wherever it stands in what a process wrote, and nowhere else; a secret of nothing is
/// never found.
pub proof fn law_leaked_secrets_are_found(
    before: Seq<u8>,
    secret: Seq<u8>,
    behind: Seq<u8>,
    parts: Seq<&[u8]>,
    i: int,
)
    requires
        0 <= i < parts.len(),
    ensures
        secret.len() > 0 ==> occurs(before + secret + behind, secret),
        secret.len() == 0 ==> !occurs(before, secret),
        before.len() < secret.len() ==> !occurs(before, secret),
        occurs(before, secret) ==> exists|k: int|
            0 <= k <= before.len() - secret.len() && #[trigger] before.subrange(
                k,
                k + secret.len(),
            ) == secret,
        occurs(parts[i]@, secret) ==> leaks(parts, secret),
        (forall|k: int| 0 <= k < parts.len() ==> !occurs((#[trigger] parts[k])@, secret)) ==> !leaks(
            parts,
            secret,
        ),
{
    if secret.len() > 0 {
        let whole = before + secret + behind;
        let k = before.len() as int;
        assert(whole.subrange(k, k + secret.len()) =~= secret);
    }
}

/// The output of a self-test is looked at exactly where the process succeeded, wrote the secret nowhere,
/// and wrote nothing but its answer. Failure is named first, then a leak.
pub proof fn law_self_test_output_is_exact(output: ProcessOutput<'_>, secret: Seq<u8>)
    ensures
        self_test_output_refusal(output, secret) is None <==> {
            &&& output.success
            &&& !occurs(output.stdout@, secret)
            &&& !occurs(output.stderr@, secret)
            &&& output.stderr@.len() == 0
        },
        !output.success ==> self_test_output_refusal(output, secret) == Some(
            KeyperProcessError::ChildFailed,
        ),
        output.success && (occurs(output.stdout@, secret) || occurs(output.stderr@, secret))
            ==> self_test_output_refusal(output, secret) == Some(KeyperProcessError::SecretLeak),
{
}

/// An approval of a lock is taken exactly where it is of the keyper that was asked, for the digest that was
/// asked for, and signed by that keyper; it is written as a version, the keyper, the digest and the
/// signature.
pub proof fn law_lock_approvals_are_exact(
    fields: ApprovalFields,
    keyper: [u8; 32],
    digest: [u8; 32],
)
    ensures
        approves(fields, keyper, digest) <==> {
            &&& fields.keyper_key == keyper
            &&& fields.digest == digest
            &&& ed25519_verifies(keyper@, digest@, fields.signature@)
        },
        ({
            let bytes = lock_response_bytes(fields);
            &&& bytes.len() == 129
            &&& bytes[0] == 1
            &&& bytes.subrange(1, 33) == fields.keyper_key@
            &&& bytes.subrange(33, 65) == fields.digest@
            &&& bytes.subrange(65, 129) == fields.signature@
        }),
{
    let bytes = lock_response_bytes(fields);
    assert(bytes.subrange(1, 33) =~= fields.keyper_key@);
    assert(bytes.subrange(33, 65) =~= fields.digest@);
    assert(bytes.subrange(65, 129) =~= fields.signature@);
}

/// A released share is taken exactly where it is the keyper's own, for the epoch, the lock and the
/// ciphertext that were asked for, and matches that ciphertext.
pub proof fn law_asked_shares_are_exact(
    fields: ReleasedFields,
    share: KeyperSecretShare,
    epoch_account: [u8; 32],
    lock_digest: [u8; 32],
    keys: Seq<u8>,
    ciphertext: Seq<u8>,
)
    ensures
        is_asked_share(fields, share, epoch_account, lock_digest, keys, ciphertext) <==> {
            &&& fields.index == share.position()
            &&& fields.epoch_account == epoch_account
            &&& fields.lock_digest == lock_digest
            &&& fields.ciphertext_hash == sha256(ciphertext)
            &&& ciphertext.len() == 344
            &&& ciphertext_valid(ciphertext)
            &&& share_verifies(keys, share.position(), fields.share@, ciphertext)
        },
{
}

/// An approval of a settlement is taken exactly where it is of the keyper that was asked, for the digest
/// that was asked for, which is the digest of its payload, and signed by that keyper.
pub proof fn law_settlement_approvals_are_exact(
    fields: SettlementApprovalFields,
    keyper: [u8; 32],
    digest: [u8; 32],
    payload_digest: [u8; 32],
)
    ensures
        approves_settlement(fields, keyper, digest, payload_digest) <==> {
            &&& fields.keyper_key == keyper
            &&& fields.digest == digest
            &&& payload_digest == digest
            &&& ed25519_verifies(keyper@, digest@, fields.signature@)
        },
{
}

/// An address is usable exactly where it is not empty, has no white space in it and takes no more than
/// two thousand and forty-eight bytes; a character takes one to four of them by its number.
pub proof fn law_addresses_are_exact(chars: Seq<char>, c: char)
    ensures
        url_usable(chars) <==> {
            &&& chars.len() > 0
            &&& forall|i: int| 0 <= i < chars.len() ==> !white(#[trigger] chars[i])
            &&& text_len(chars) <= 2048
        },
        char_len(c) == (if (c as u32) < 0x80 {
            1int
        } else if (c as u32) < 0x800 {
            2
        } else if (c as u32) < 0x10000 {
            3
        } else {
            4
        }),
        text_len(chars.push(c)) == text_len(chars) + char_len(c),
        (forall|i: int| 0 <= i < chars.len() ==> ((#[trigger] chars[i]) as u32) < 0x80) ==> text_len(
            chars,
        ) == chars.len(),
        white(' '),
        white('\t'),
        white('\n'),
        white('\r'),
        0x21 <= (c as u32) < 0x80 ==> !white(c),
    decreases chars.len(),
{
    assert(chars.push(c).drop_last() =~= chars);
    if chars.len() > 0 {
        let rest = chars.drop_last();
        law_addresses_are_exact(rest, c);
        if forall|i: int| 0 <= i < chars.len() ==> ((#[trigger] chars[i]) as u32) < 0x80 {
            assert forall|i: int| 0 <= i < rest.len() implies ((#[trigger] rest[i]) as u32)
                < 0x80 by {
                assert(rest[i] == chars[i]);
            }
            assert((chars[chars.len() - 1] as u32) < 0x80);
        }
    }
}

/// A coordinator takes an approval of a lock exactly where the process succeeded, wrote nothing beside its
/// answer, and answered with an approval of the asked keyper for the asked digest; a process that failed is
/// named as that, and everything else is an invalid answer.
pub proof fn law_taken_lock_approvals_are_exact(
    output: ProcessOutput<'_>,
    keyper: [u8; 32],
    digest: [u8; 32],
    approval: Result<LockApprovalV1, KeyperProcessError>,
    fields: ApprovalFields,
)
    requires
        lock_response_judged(output, keyper, digest, approval),
    ensures
        !output.success ==> approval == Err::<LockApprovalV1, _>(KeyperProcessError::ChildFailed),
        output.success && output.stderr@.len() > 0 ==> approval == Err::<LockApprovalV1, _>(
            KeyperProcessError::InvalidResponse,
        ),
        approval matches Ok(taken) ==> {
            &&& output.success
            &&& output.stderr@.len() == 0
            &&& taken@.keyper_key == keyper
            &&& taken@.digest == digest
            &&& ed25519_verifies(keyper@, digest@, taken@.signature@)
            &&& output.stdout@ == seq![1u8] + keyper@ + digest@ + taken@.signature@
        },
        output.success && output.stderr@.len() == 0 && fields.keyper_key == keyper && fields.digest
            == digest && ed25519_verifies(keyper@, digest@, fields.signature@) && output.stdout@
            == seq![1u8] + keyper@ + digest@ + fields.signature@ ==> approval is Ok,
{
    if output.success && output.stderr@.len() == 0 && fields.keyper_key == keyper && fields.digest
        == digest && ed25519_verifies(keyper@, digest@, fields.signature@) && output.stdout@
        == seq![1u8] + keyper@ + digest@ + fields.signature@ {
        assert(approves(fields, keyper, digest));
        assert(output.stdout@ == lock_response_bytes(fields));
    }
}

/// A coordinator takes a share exactly where the process succeeded, wrote nothing beside its answer, and
/// answered with the keyper's own share for the epoch, the lock and the member's ciphertext, which matches
/// it.
pub proof fn law_taken_shares_are_exact(
    output: ProcessOutput<'_>,
    share: KeyperSecretShare,
    package: PackageFields,
    member_index: usize,
    lock_digest: [u8; 32],
    released: Result<ReleasedShareV1, KeyperProcessError>,
    fields: ReleasedFields,
)
    requires
        release_response_judged(output, share, package, member_index, lock_digest, released),
    ensures
        !output.success ==> released == Err::<ReleasedShareV1, _>(KeyperProcessError::ChildFailed),
        output.success && output.stderr@.len() > 0 ==> released == Err::<ReleasedShareV1, _>(
            KeyperProcessError::InvalidResponse,
        ),
        released matches Ok(taken) ==> {
            let ciphertext = package.submissions[member_index as int].ciphertext;
            &&& output.success
            &&& output.stderr@.len() == 0
            &&& member_index < package.submissions.len()
            &&& reads_as_released(output.stdout@, taken@)
            &&& taken@.index == share.position()
            &&& taken@.epoch_account == package.epoch_account
            &&& taken@.lock_digest == lock_digest
            &&& taken@.ciphertext_hash == sha256(ciphertext)
            &&& share_verifies(package.keys, share.position(), taken@.share@, ciphertext)
        },
        output.success && output.stderr@.len() == 0 && member_index < package.submissions.len()
            && reads_as_released(output.stdout@, fields) && is_asked_share(
            fields,
            share,
            package.epoch_account,
            lock_digest,
            package.keys,
            package.submissions[member_index as int].ciphertext,
        ) ==> released is Ok,
        output.success && output.stderr@.len() == 0 && member_index >= package.submissions.len()
            && reads_as_released(output.stdout@, fields) ==> released == Err::<ReleasedShareV1, _>(
            KeyperProcessError::Input,
        ),
{
}

/// A coordinator takes an approval of a settlement exactly where the process succeeded, wrote nothing
/// beside its answer, and answered with an approval of the asked keyper, one of three, for the asked digest,
/// which is that of its payload.
pub proof fn law_taken_settlement_approvals_are_exact(
    success: bool,
    stderr_empty: bool,
    approval: SettlementApprovalV1,
    payload_digest: [u8; 32],
    position: usize,
    keyper: [u8; 32],
    digest: [u8; 32],
)
    ensures
        ({
            let taken = settlement_response_taken(
                success,
                stderr_empty,
                Some(approval),
                payload_digest,
                position,
                keyper,
                digest,
            );
            let stands = stderr_empty && position < 3 && approval@.keyper_key == keyper
                && approval@.digest == digest && payload_digest == digest && ed25519_verifies(
                keyper@,
                digest@,
                approval@.signature@,
            );
            &&& !success ==> taken == Err::<SettlementApprovalV1, _>(
                KeyperProcessError::ChildFailed,
            )
            &&& success && stands ==> taken == Ok::<_, KeyperProcessError>(approval)
            &&& success && !stands ==> taken == Err::<SettlementApprovalV1, _>(
                KeyperProcessError::InvalidResponse,
            )
        }),
        success ==> settlement_response_taken(
            success,
            stderr_empty,
            None,
            payload_digest,
            position,
            keyper,
            digest,
        ) == Err::<SettlementApprovalV1, _>(KeyperProcessError::InvalidResponse),
{
}

} // verus!
