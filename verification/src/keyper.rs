//! The frames that a coordinator and a keyper process exchange, and what each makes of them.

use crate::bytes::{append, read_array, same_array, same_bytes};
use crate::crypto::is_encrypted_intent;
use crate::hash::sha256;
use crate::lock::{ApprovalFields, LockApprovalV1, LockPackageV1, PackageFields};
use crate::request::{SettlementApprovalFields, SettlementApprovalV1};
use crate::shares::{reads_as_released, KeyperSecretShare, ReleasedFields, ReleasedShareV1};
use crate::signing::ed25519_verifies;
use crate::threshold::{
    is_public_share, is_signature_share, public_share_of, public_share_valid, share_public,
    share_signature, share_signature_verifies, share_verifies, sign_share, signature_share_valid,
    verify_share_signature,
};
use vstd::bytes::{
    lemma_auto_spec_u32_to_from_le_bytes, lemma_auto_spec_u64_to_from_le_bytes,
    spec_u32_from_le_bytes, spec_u32_to_le_bytes, spec_u64_from_le_bytes, spec_u64_to_le_bytes,
    u32_from_le_bytes, u32_to_le_bytes, u64_from_le_bytes, u64_to_le_bytes,
};
use vstd::prelude::*;
use vstd::slice::slice_subrange;

verus! {

pub const REQUEST_VERSION: u8 = 1;

pub const REQUEST_LEN: usize = 73;

pub const RESPONSE_LEN: usize = 153;

pub const BOUND_SHARE_LEN: usize = 73;

pub const SIGN_LOCK_PREFIX_LEN: usize = 77;

pub const SIGN_LOCK_RESPONSE_LEN: usize = 129;

pub const MAX_SIGN_LOCK_REQUEST_LEN: usize = 65536;

pub const RELEASE_PREFIX_LEN: usize = 81;

pub const MAX_RELEASE_REQUEST_LEN: usize = 65536;

pub const MAX_SETTLEMENT_REQUEST_LEN: usize = 131072;

pub const MAX_SETTLEMENT_FRAME_LEN: usize = BOUND_SHARE_LEN + MAX_SETTLEMENT_REQUEST_LEN;

pub const SETTLEMENT_STDIN_READ_LIMIT: usize = MAX_SETTLEMENT_FRAME_LEN + 1;

/// Why an exchange with a keyper process fails.
#[derive(Clone, Copy, Debug, PartialEq, Eq, Structural)]
pub enum KeyperProcessError {
    InsecureDirectory,
    Spawn,
    Input,
    ChildFailed,
    InvalidRequest,
    InvalidResponse,
    SecretLeak,
}

/// Whether a byte string occurs in another; the empty one does not.
pub open spec fn occurs(haystack: Seq<u8>, needle: Seq<u8>) -> bool {
    needle.len() > 0 && exists|i: int|
        0 <= i <= haystack.len() - needle.len() && #[trigger] haystack.subrange(
            i,
            i + needle.len(),
        ) == needle
}

/// Whether a byte string occurs in another.
pub fn contains_bytes(haystack: &[u8], needle: &[u8]) -> (found: bool)
    ensures
        found == occurs(haystack@, needle@),
{
    if needle.len() == 0 || haystack.len() < needle.len() {
        return false;
    }
    let last: usize = haystack.len() - needle.len();
    let mut i: usize = 0;
    while i <= last
        invariant
            i <= last + 1,
            last == haystack@.len() - needle@.len(),
            last + needle@.len() <= usize::MAX,
            needle@.len() > 0,
            forall|k: int|
                0 <= k < i ==> #[trigger] haystack@.subrange(k, k + needle@.len() as int)
                    != needle@,
        decreases last + 1 - i,
    {
        if same_bytes(slice_subrange(haystack, i, i + needle.len()), needle) {
            assert(haystack@.subrange(i as int, i + needle@.len() as int) == needle@);
            return true;
        }
        i += 1;
    }
    false
}

/// Whether a secret occurs in any of the texts that a process run left behind.
pub open spec fn leaks(parts: Seq<&[u8]>, secret: Seq<u8>) -> bool {
    exists|i: int| 0 <= i < parts.len() && occurs((#[trigger] parts[i])@, secret)
}

/// Whether a secret occurs in any of the texts that a process run left behind.
pub fn any_contains(parts: &[&[u8]], secret: &[u8]) -> (found: bool)
    ensures
        found == leaks(parts@, secret@),
{
    let mut i: usize = 0;
    while i < parts.len()
        invariant
            i <= parts@.len(),
            forall|k: int| 0 <= k < i ==> !occurs((#[trigger] parts@[k])@, secret@),
        decreases parts@.len() - i,
    {
        if contains_bytes(parts[i], secret) {
            assert(occurs(parts@[i as int]@, secret@));
            return true;
        }
        i += 1;
    }
    false
}

/// The wire form of a secret share with the epoch and the index that it is bound to.
pub open spec fn bound_share_bytes(share: KeyperSecretShare) -> Seq<u8> {
    seq![REQUEST_VERSION] + share.epoch()@ + spec_u64_to_le_bytes(share.position() as u64)
        + share.secret()@
}

/// Appends a bound share.
pub fn append_bound_share(encoded: &mut Vec<u8>, share: &KeyperSecretShare)
    ensures
        final(encoded)@ == old(encoded)@ + bound_share_bytes(*share),
{
    let epoch_account = share.epoch_account();
    let secret = share.secret_bytes();
    encoded.push(REQUEST_VERSION);
    append(encoded, epoch_account.as_slice());
    append(encoded, u64_to_le_bytes(share.index() as u64).as_slice());
    append(encoded, secret.as_slice());
    assert(encoded@ =~= old(encoded)@ + bound_share_bytes(*share));
}

/// Whether a byte string is the wire form of a bound share whose secret is one.
pub open spec fn is_bound_share(encoded: Seq<u8>) -> bool {
    &&& encoded.len() == BOUND_SHARE_LEN
    &&& encoded[0] == REQUEST_VERSION
    &&& spec_u64_from_le_bytes(encoded.subrange(33, 41)) <= usize::MAX
    &&& share_public(encoded.subrange(41, 73)) is Some
}

/// Reads a bound share.
pub fn decode_bound_share(encoded: &[u8]) -> (share: Result<KeyperSecretShare, KeyperProcessError>)
    ensures
        match share {
            Ok(share) => is_bound_share(encoded@) && encoded@ == bound_share_bytes(share),
            Err(error) => error == KeyperProcessError::InvalidRequest && !is_bound_share(encoded@),
        },
{
    if encoded.len() != BOUND_SHARE_LEN || encoded[0] != REQUEST_VERSION {
        return Err(KeyperProcessError::InvalidRequest);
    }
    let index: u64 = u64_from_le_bytes(slice_subrange(encoded, 33, 41));
    if index > usize::MAX as u64 {
        return Err(KeyperProcessError::InvalidRequest);
    }
    let secret = read_array::<32>(encoded, 41);
    if public_share_of(&secret).is_none() {
        return Err(KeyperProcessError::InvalidRequest);
    }
    let share = KeyperSecretShare::from_secret(
        read_array::<32>(encoded, 1),
        index as usize,
        secret,
    );
    proof {
        lemma_auto_spec_u64_to_from_le_bytes();
        assert(spec_u64_to_le_bytes(index) == encoded@.subrange(33, 41));
        assert(encoded@ =~= bound_share_bytes(share));
    }
    Ok(share)
}

/// What asks a keyper process to prove that it holds a share.
pub open spec fn self_test_request_bytes(share: KeyperSecretShare, challenge: [u8; 32]) -> Seq<u8> {
    seq![REQUEST_VERSION] + spec_u64_to_le_bytes(share.position() as u64) + challenge@
        + share.secret()@
}

/// What asks a keyper process to prove that it holds a share.
pub fn self_test_request(share: &KeyperSecretShare, challenge: [u8; 32]) -> (encoded: Vec<u8>)
    ensures
        encoded@ == self_test_request_bytes(*share, challenge),
{
    let secret = share.secret_bytes();
    let mut encoded: Vec<u8> = Vec::new();
    encoded.push(REQUEST_VERSION);
    append(&mut encoded, u64_to_le_bytes(share.index() as u64).as_slice());
    append(&mut encoded, challenge.as_slice());
    append(&mut encoded, secret.as_slice());
    assert(encoded@ =~= self_test_request_bytes(*share, challenge));
    encoded
}

/// What a self-test response says.
pub struct ResponseFields {
    pub index: usize,
    pub public_key_share: [u8; 48],
    pub signature: [u8; 96],
}

/// The wire form of a self-test response.
pub open spec fn response_bytes(fields: ResponseFields) -> Seq<u8> {
    seq![REQUEST_VERSION] + spec_u64_to_le_bytes(fields.index as u64) + fields.public_key_share@
        + fields.signature@
}

/// A keyper's proof that it holds a share.
#[derive(Clone, Copy, PartialEq, Eq)]
pub struct KeyperSelfTestResponse {
    index: usize,
    public_key_share: [u8; 48],
    signature: [u8; 96],
}

impl View for KeyperSelfTestResponse {
    type V = ResponseFields;

    closed spec fn view(&self) -> ResponseFields {
        ResponseFields {
            index: self.index,
            public_key_share: self.public_key_share,
            signature: self.signature,
        }
    }
}

/// Whether the parts of a response are what they should be.
pub open spec fn response_valid(fields: ResponseFields) -> bool {
    public_share_valid(fields.public_key_share@) && signature_share_valid(fields.signature@)
}

impl KeyperSelfTestResponse {
    pub fn index(&self) -> (index: usize)
        ensures
            index == self@.index,
    {
        self.index
    }

    pub fn public_key_share(&self) -> (share: [u8; 48])
        ensures
            share == self@.public_key_share,
    {
        self.public_key_share
    }

    /// Whether the signature is of the challenge, by the share that the response names.
    pub fn verify(&self, challenge: [u8; 32]) -> (verified: bool)
        ensures
            verified == share_signature_verifies(
                self@.public_key_share@,
                self@.signature@,
                challenge@,
            ),
    {
        verify_share_signature(&self.public_key_share, &self.signature, &challenge)
    }

    /// The wire form.
    pub fn encode(&self) -> (encoded: Vec<u8>)
        ensures
            encoded@ == response_bytes(self@),
    {
        let mut encoded: Vec<u8> = Vec::new();
        encoded.push(REQUEST_VERSION);
        append(&mut encoded, u64_to_le_bytes(self.index as u64).as_slice());
        append(&mut encoded, self.public_key_share.as_slice());
        append(&mut encoded, self.signature.as_slice());
        assert(encoded@ =~= response_bytes(self@));
        encoded
    }

    /// Reads a wire form.
    pub fn decode(encoded: &[u8]) -> (response: Result<Self, KeyperProcessError>)
        ensures
            match response {
                Ok(response) => response_valid(response@) && encoded@ == response_bytes(response@),
                Err(error) => error == KeyperProcessError::InvalidResponse && (forall|
                    fields: ResponseFields,
                |
                    response_valid(fields) ==> encoded@ != #[trigger] response_bytes(fields)),
            },
    {
        proof {
            assert forall|fields: ResponseFields| encoded@ == #[trigger] response_bytes(
                fields,
            ) implies encoded@.len() == 153 && encoded@[0] == REQUEST_VERSION
                && spec_u64_from_le_bytes(encoded@.subrange(1, 9)) == fields.index as u64
                && encoded@.subrange(9, 57) == fields.public_key_share@ && encoded@.subrange(
                57,
                153,
            ) == fields.signature@ by {
                lemma_response_layout(fields);
            }
        }
        if encoded.len() != RESPONSE_LEN || encoded[0] != REQUEST_VERSION {
            return Err(KeyperProcessError::InvalidResponse);
        }
        let index: u64 = u64_from_le_bytes(slice_subrange(encoded, 1, 9));
        if index > usize::MAX as u64 {
            return Err(KeyperProcessError::InvalidResponse);
        }
        let response = KeyperSelfTestResponse {
            index: index as usize,
            public_key_share: read_array::<48>(encoded, 9),
            signature: read_array::<96>(encoded, 57),
        };
        if !is_public_share(&response.public_key_share) || !is_signature_share(
            &response.signature,
        ) {
            return Err(KeyperProcessError::InvalidResponse);
        }
        proof {
            lemma_auto_spec_u64_to_from_le_bytes();
            assert(spec_u64_to_le_bytes(index) == encoded@.subrange(1, 9));
            assert(encoded@ =~= response_bytes(response@));
        }
        Ok(response)
    }
}

proof fn lemma_response_layout(fields: ResponseFields)
    ensures
        response_bytes(fields).len() == 153,
        response_bytes(fields)[0] == REQUEST_VERSION,
        spec_u64_from_le_bytes(response_bytes(fields).subrange(1, 9)) == fields.index as u64,
        response_bytes(fields).subrange(9, 57) == fields.public_key_share@,
        response_bytes(fields).subrange(57, 153) == fields.signature@,
{
    lemma_auto_spec_u64_to_from_le_bytes();
    let bytes = response_bytes(fields);
    assert(bytes.subrange(1, 9) =~= spec_u64_to_le_bytes(fields.index as u64));
    assert(bytes.subrange(9, 57) =~= fields.public_key_share@);
    assert(bytes.subrange(57, 153) =~= fields.signature@);
}

/// Whether a byte string asks for a self-test.
pub open spec fn is_self_test(encoded: Seq<u8>) -> bool {
    &&& encoded.len() == REQUEST_LEN
    &&& encoded[0] == REQUEST_VERSION
    &&& spec_u64_from_le_bytes(encoded.subrange(1, 9)) <= usize::MAX
    &&& share_public(encoded.subrange(41, 73)) is Some
}

/// Whether a response answers a self-test: with its index, the public share that belongs to its secret,
/// and its challenge signed, so that the signature matches the public share.
pub open spec fn self_test_answered(encoded: Seq<u8>, response: ResponseFields) -> bool {
    let secret = encoded.subrange(41, 73);
    let challenge = encoded.subrange(9, 41);
    &&& response.index == spec_u64_from_le_bytes(encoded.subrange(1, 9))
    &&& share_public(secret) == Some(response.public_key_share)
    &&& share_signature(secret, challenge) == Some(response.signature)
    &&& response_valid(response)
    &&& share_signature_verifies(
        response.public_key_share@,
        response.signature@,
        challenge,
    )
}

/// Answers a self-test: the public share that belongs to the secret, and the challenge signed.
pub fn answer_self_test(encoded: &[u8]) -> (response: Result<
    KeyperSelfTestResponse,
    KeyperProcessError,
>)
    ensures
        match response {
            Ok(response) => is_self_test(encoded@) && self_test_answered(encoded@, response@),
            Err(error) => error == KeyperProcessError::InvalidRequest && !is_self_test(encoded@),
        },
{
    if encoded.len() != REQUEST_LEN || encoded[0] != REQUEST_VERSION {
        return Err(KeyperProcessError::InvalidRequest);
    }
    let index: u64 = u64_from_le_bytes(slice_subrange(encoded, 1, 9));
    if index > usize::MAX as u64 {
        return Err(KeyperProcessError::InvalidRequest);
    }
    let challenge = read_array::<32>(encoded, 9);
    let secret = read_array::<32>(encoded, 41);
    match (public_share_of(&secret), sign_share(&secret, &challenge)) {
        (Some(public_key_share), Some(signature)) => Ok(
            KeyperSelfTestResponse { index: index as usize, public_key_share, signature },
        ),
        _ => Err(KeyperProcessError::InvalidRequest),
    }
}

/// What a finished process left behind.
pub struct ProcessOutput<'a> {
    pub success: bool,
    pub stdout: &'a [u8],
    pub stderr: &'a [u8],
}

/// Why the output of a self-test is refused before it is read, where it is: the process failed, then
/// the secret leaked, then something stands on standard error.
pub open spec fn self_test_output_refusal(output: ProcessOutput<'_>, secret: Seq<u8>) -> Option<
    KeyperProcessError,
> {
    if !output.success {
        Some(KeyperProcessError::ChildFailed)
    } else if occurs(output.stdout@, secret) || occurs(output.stderr@, secret) {
        Some(KeyperProcessError::SecretLeak)
    } else if output.stderr@.len() != 0 {
        Some(KeyperProcessError::InvalidResponse)
    } else {
        None
    }
}

/// Whether a response passes a self-test: it has the index of the share, and a signature of the
/// challenge that matches its public share.
pub open spec fn passes_self_test(
    fields: ResponseFields,
    share: KeyperSecretShare,
    challenge: [u8; 32],
) -> bool {
    &&& response_valid(fields)
    &&& fields.index == share.position()
    &&& share_signature_verifies(fields.public_key_share@, fields.signature@, challenge@)
}

/// What a coordinator makes of the output of a self-test: an output that is refused is, and any other is
/// accepted where it is the wire form of a response that passes.
pub open spec fn self_test_judged(
    output: ProcessOutput<'_>,
    share: KeyperSecretShare,
    challenge: [u8; 32],
    response: Result<KeyperSelfTestResponse, KeyperProcessError>,
) -> bool {
    match self_test_output_refusal(output, share.secret()@) {
        Some(error) => response == Err::<KeyperSelfTestResponse, _>(error),
        None => match response {
            Ok(response) => passes_self_test(response@, share, challenge) && output.stdout@
                == response_bytes(response@),
            Err(error) => error == KeyperProcessError::InvalidResponse && (forall|
                fields: ResponseFields,
            |
                passes_self_test(fields, share, challenge) ==> output.stdout@
                    != #[trigger] response_bytes(fields)),
        },
    }
}

/// What a coordinator makes of the output of a self-test.
pub fn check_self_test(output: &ProcessOutput<'_>, share: &KeyperSecretShare, challenge: [u8; 32]) -> (
    response: Result<KeyperSelfTestResponse, KeyperProcessError>)
    ensures
        self_test_judged(*output, *share, challenge, response),
{
    if !output.success {
        return Err(KeyperProcessError::ChildFailed);
    }
    let secret = share.secret_bytes();
    if contains_bytes(output.stdout, secret.as_slice()) || contains_bytes(
        output.stderr,
        secret.as_slice(),
    ) {
        return Err(KeyperProcessError::SecretLeak);
    }
    if output.stderr.len() != 0 {
        return Err(KeyperProcessError::InvalidResponse);
    }
    let response = match KeyperSelfTestResponse::decode(output.stdout) {
        Ok(response) => response,
        Err(error) => {
            return Err(error);
        },
    };
    if response.index != share.index() || !response.verify(challenge) {
        proof {
            assert forall|fields: ResponseFields|
                passes_self_test(fields, *share, challenge) implies output.stdout@
                != #[trigger] response_bytes(fields) by {
                if output.stdout@ == response_bytes(fields) {
                    lemma_response_layout(fields);
                    lemma_response_layout(response@);
                    assert(fields.public_key_share =~= response@.public_key_share);
                    assert(fields.signature =~= response@.signature);
                }
            }
        }
        return Err(KeyperProcessError::InvalidResponse);
    }
    Ok(response)
}

/// A keyper that answers a self-test with the share that it was sent passes it: the request is one that
/// it answers, with the share's index, the public share that belongs to its secret and the challenge
/// signed, and the coordinator takes exactly that answer from a process that succeeds and writes
/// nothing else. An answer that happens to hold the bytes of the secret is left out: it is refused.
pub proof fn law_self_test_passes(
    share: KeyperSecretShare,
    challenge: [u8; 32],
    fields: ResponseFields,
    output: ProcessOutput<'_>,
    judged: Result<KeyperSelfTestResponse, KeyperProcessError>,
)
    requires
        share_public(share.secret()@) is Some,
        self_test_answered(self_test_request_bytes(share, challenge), fields),
        output.success,
        output.stdout@ == response_bytes(fields),
        output.stderr@.len() == 0,
        !occurs(output.stdout@, share.secret()@),
        self_test_judged(output, share, challenge, judged),
    ensures
        is_self_test(self_test_request_bytes(share, challenge)),
        fields.index == share.position(),
        share_public(share.secret()@) == Some(fields.public_key_share),
        share_signature(share.secret()@, challenge@) == Some(fields.signature),
        judged matches Ok(response) && response@ == fields,
{
    lemma_auto_spec_u64_to_from_le_bytes();
    let bytes = self_test_request_bytes(share, challenge);
    assert(bytes.subrange(1, 9) =~= spec_u64_to_le_bytes(share.position() as u64));
    assert(bytes.subrange(9, 41) =~= challenge@);
    assert(bytes.subrange(41, 73) =~= share.secret()@);
    assert(passes_self_test(fields, share, challenge));
    lemma_response_layout(fields);
    if let Ok(response) = judged {
        lemma_response_layout(response@);
        assert(response@.public_key_share =~= fields.public_key_share);
        assert(response@.signature =~= fields.signature);
    }
}

/// The frame that asks a keyper to sign a lock.
pub open spec fn sign_lock_bytes(share: KeyperSecretShare, package: Seq<u8>) -> Seq<u8> {
    bound_share_bytes(share) + spec_u32_to_le_bytes(package.len() as u32) + package
}

/// The frame that asks a keyper to sign a lock; one that is too long is refused.
pub fn sign_lock_frame(share: &KeyperSecretShare, package: &[u8]) -> (frame: Result<
    Vec<u8>,
    KeyperProcessError,
>)
    ensures
        match frame {
            Ok(frame) => frame@ == sign_lock_bytes(*share, package@) && frame@.len()
                <= MAX_SIGN_LOCK_REQUEST_LEN,
            Err(error) => error == KeyperProcessError::Input && SIGN_LOCK_PREFIX_LEN
                + package@.len() > MAX_SIGN_LOCK_REQUEST_LEN,
        },
{
    if package.len() > MAX_SIGN_LOCK_REQUEST_LEN - SIGN_LOCK_PREFIX_LEN {
        return Err(KeyperProcessError::Input);
    }
    let mut frame: Vec<u8> = Vec::new();
    append_bound_share(&mut frame, share);
    append(&mut frame, u32_to_le_bytes(package.len() as u32).as_slice());
    append(&mut frame, package);
    proof {
        lemma_auto_spec_u64_to_from_le_bytes();
        lemma_auto_spec_u32_to_from_le_bytes();
        assert(frame@ =~= sign_lock_bytes(*share, package@));
    }
    Ok(frame)
}

/// Whether a byte string is a frame that asks a keyper to sign a lock.
pub open spec fn is_sign_lock(encoded: Seq<u8>) -> bool {
    &&& SIGN_LOCK_PREFIX_LEN <= encoded.len() <= MAX_SIGN_LOCK_REQUEST_LEN
    &&& is_bound_share(encoded.take(73))
    &&& SIGN_LOCK_PREFIX_LEN + spec_u32_from_le_bytes(encoded.subrange(73, 77)) == encoded.len()
}

/// Reads a frame that asks a keyper to sign a lock: the share, and the package's wire form.
pub fn read_sign_lock(encoded: &[u8]) -> (parts: Result<
    (KeyperSecretShare, &[u8]),
    KeyperProcessError,
>)
    ensures
        match parts {
            Ok((share, package)) => is_sign_lock(encoded@) && encoded@ == sign_lock_bytes(
                share,
                package@,
            ),
            Err(error) => error == KeyperProcessError::InvalidRequest && !is_sign_lock(encoded@),
        },
{
    if encoded.len() < SIGN_LOCK_PREFIX_LEN || encoded.len() > MAX_SIGN_LOCK_REQUEST_LEN {
        return Err(KeyperProcessError::InvalidRequest);
    }
    let head = slice_subrange(encoded, 0, BOUND_SHARE_LEN);
    assert(head@ =~= encoded@.take(73));
    let share = match decode_bound_share(head) {
        Ok(share) => share,
        Err(error) => {
            return Err(error);
        },
    };
    let package_len: u32 = u32_from_le_bytes(slice_subrange(encoded, 73, 77));
    if (encoded.len() - SIGN_LOCK_PREFIX_LEN) as u64 != package_len as u64 {
        return Err(KeyperProcessError::InvalidRequest);
    }
    let package = slice_subrange(encoded, SIGN_LOCK_PREFIX_LEN, encoded.len());
    proof {
        lemma_auto_spec_u32_to_from_le_bytes();
        assert(spec_u32_to_le_bytes(package_len) == encoded@.subrange(73, 77));
        assert(encoded@ =~= sign_lock_bytes(share, package@));
    }
    Ok((share, package))
}

/// What a keyper answers with a lock approval.
pub open spec fn lock_response_bytes(fields: ApprovalFields) -> Seq<u8> {
    seq![REQUEST_VERSION] + fields.keyper_key@ + fields.digest@ + fields.signature@
}

/// What a keyper answers with a lock approval.
pub fn lock_response(approval: &LockApprovalV1) -> (response: Vec<u8>)
    ensures
        response@ == lock_response_bytes(approval@),
{
    let keyper_key = approval.keyper_key();
    let digest = approval.digest();
    let signature = approval.signature();
    let mut response: Vec<u8> = Vec::new();
    response.push(REQUEST_VERSION);
    append(&mut response, keyper_key.as_slice());
    append(&mut response, digest.as_slice());
    append(&mut response, signature.as_slice());
    assert(response@ =~= lock_response_bytes(approval@));
    response
}

/// Whether an approval is a keyper's, of a digest, and its signature verifies.
pub open spec fn approves(fields: ApprovalFields, keyper: [u8; 32], digest: [u8; 32]) -> bool {
    &&& fields.keyper_key == keyper
    &&& fields.digest == digest
    &&& ed25519_verifies(fields.keyper_key@, fields.digest@, fields.signature@)
}

/// Checks that an approval is the expected keyper's, of the expected digest.
pub fn validate_lock_approval(
    expected_keyper: [u8; 32],
    expected_digest: [u8; 32],
    approval: &LockApprovalV1,
) -> (outcome: Result<(), KeyperProcessError>)
    ensures
        outcome == (if approves(approval@, expected_keyper, expected_digest) {
            Ok::<(), _>(())
        } else {
            Err(KeyperProcessError::InvalidResponse)
        }),
{
    if !same_array(&approval.keyper_key(), &expected_keyper) || !same_array(
        &approval.digest(),
        &expected_digest,
    ) || !approval.verify() {
        return Err(KeyperProcessError::InvalidResponse);
    }
    Ok(())
}

/// What a coordinator makes of the output of a process that was asked to sign a lock.
pub open spec fn lock_response_judged(
    output: ProcessOutput<'_>,
    expected_keyper: [u8; 32],
    expected_digest: [u8; 32],
    approval: Result<LockApprovalV1, KeyperProcessError>,
) -> bool {
    match approval {
        Ok(approval) => output.success && output.stderr@.len() == 0 && output.stdout@
            == lock_response_bytes(approval@) && approves(
            approval@,
            expected_keyper,
            expected_digest,
        ),
        Err(error) => if !output.success {
            error == KeyperProcessError::ChildFailed
        } else {
            error == KeyperProcessError::InvalidResponse && (output.stderr@.len() != 0 || (forall|
                fields: ApprovalFields,
            |
                approves(fields, expected_keyper, expected_digest) ==> output.stdout@
                    != #[trigger] lock_response_bytes(fields)))
        },
    }
}

/// What a coordinator makes of the output of a process that was asked to sign a lock.
pub fn check_lock_response(
    output: &ProcessOutput<'_>,
    expected_keyper: [u8; 32],
    expected_digest: [u8; 32],
) -> (approval: Result<LockApprovalV1, KeyperProcessError>)
    ensures
        lock_response_judged(*output, expected_keyper, expected_digest, approval),
{
    if !output.success {
        return Err(KeyperProcessError::ChildFailed);
    }
    if output.stderr.len() != 0 || output.stdout.len() != SIGN_LOCK_RESPONSE_LEN
        || output.stdout[0] != REQUEST_VERSION {
        return Err(KeyperProcessError::InvalidResponse);
    }
    let approval = LockApprovalV1::from_parts(
        read_array::<32>(output.stdout, 1),
        read_array::<32>(output.stdout, 33),
        read_array::<64>(output.stdout, 65),
    );
    assert(output.stdout@ =~= lock_response_bytes(approval@));
    match validate_lock_approval(expected_keyper, expected_digest, &approval) {
        Ok(_) => Ok(approval),
        Err(error) => {
            proof {
                assert forall|fields: ApprovalFields|
                    approves(fields, expected_keyper, expected_digest) implies output.stdout@
                    != #[trigger] lock_response_bytes(fields) by {
                    let bytes = lock_response_bytes(fields);
                    if output.stdout@ == bytes {
                        assert(bytes.subrange(1, 33) =~= fields.keyper_key@);
                        assert(bytes.subrange(33, 65) =~= fields.digest@);
                        assert(bytes.subrange(65, 129) =~= fields.signature@);
                        assert(fields.keyper_key =~= approval@.keyper_key);
                        assert(fields.digest =~= approval@.digest);
                        assert(fields.signature =~= approval@.signature);
                    }
                }
            }
            Err(error)
        },
    }
}

/// The frame that asks a keyper to release a share.
pub open spec fn release_bytes(
    share: KeyperSecretShare,
    member_index: u32,
    package: Seq<u8>,
) -> Seq<u8> {
    bound_share_bytes(share) + spec_u32_to_le_bytes(member_index) + spec_u32_to_le_bytes(
        package.len() as u32,
    ) + package
}

/// The frame that asks a keyper to release a share; one that is too long is refused.
pub fn release_frame(share: &KeyperSecretShare, member_index: usize, package: &[u8]) -> (frame:
    Result<Vec<u8>, KeyperProcessError>)
    ensures
        match frame {
            Ok(frame) => member_index <= u32::MAX && frame@ == release_bytes(
                *share,
                member_index as u32,
                package@,
            ) && frame@.len() <= MAX_RELEASE_REQUEST_LEN,
            Err(error) => error == KeyperProcessError::Input && (member_index > u32::MAX
                || RELEASE_PREFIX_LEN + package@.len() > MAX_RELEASE_REQUEST_LEN),
        },
{
    if member_index > u32::MAX as usize || package.len() > MAX_RELEASE_REQUEST_LEN
        - RELEASE_PREFIX_LEN {
        return Err(KeyperProcessError::Input);
    }
    let mut frame: Vec<u8> = Vec::new();
    append_bound_share(&mut frame, share);
    append(&mut frame, u32_to_le_bytes(member_index as u32).as_slice());
    append(&mut frame, u32_to_le_bytes(package.len() as u32).as_slice());
    append(&mut frame, package);
    proof {
        lemma_auto_spec_u64_to_from_le_bytes();
        lemma_auto_spec_u32_to_from_le_bytes();
        assert(frame@ =~= release_bytes(*share, member_index as u32, package@));
    }
    Ok(frame)
}

/// Whether a byte string is a frame that asks a keyper to release a share.
pub open spec fn is_release(encoded: Seq<u8>) -> bool {
    &&& RELEASE_PREFIX_LEN <= encoded.len() <= MAX_RELEASE_REQUEST_LEN
    &&& is_bound_share(encoded.take(73))
    &&& RELEASE_PREFIX_LEN + spec_u32_from_le_bytes(encoded.subrange(77, 81)) == encoded.len()
}

/// Reads a frame that asks a keyper to release a share: the share, the member, and the package's wire
/// form.
pub fn read_release(encoded: &[u8]) -> (parts: Result<
    (KeyperSecretShare, usize, &[u8]),
    KeyperProcessError,
>)
    ensures
        match parts {
            Ok((share, member_index, package)) => is_release(encoded@) && member_index <= u32::MAX
                && encoded@ == release_bytes(share, member_index as u32, package@),
            Err(error) => error == KeyperProcessError::InvalidRequest && !is_release(encoded@),
        },
{
    if encoded.len() < RELEASE_PREFIX_LEN || encoded.len() > MAX_RELEASE_REQUEST_LEN {
        return Err(KeyperProcessError::InvalidRequest);
    }
    let head = slice_subrange(encoded, 0, BOUND_SHARE_LEN);
    assert(head@ =~= encoded@.take(73));
    let share = match decode_bound_share(head) {
        Ok(share) => share,
        Err(error) => {
            return Err(error);
        },
    };
    let member_index: u32 = u32_from_le_bytes(slice_subrange(encoded, 73, 77));
    let package_len: u32 = u32_from_le_bytes(slice_subrange(encoded, 77, 81));
    if (encoded.len() - RELEASE_PREFIX_LEN) as u64 != package_len as u64 {
        return Err(KeyperProcessError::InvalidRequest);
    }
    let package = slice_subrange(encoded, RELEASE_PREFIX_LEN, encoded.len());
    proof {
        lemma_auto_spec_u32_to_from_le_bytes();
        assert(spec_u32_to_le_bytes(member_index) == encoded@.subrange(73, 77));
        assert(spec_u32_to_le_bytes(package_len) == encoded@.subrange(77, 81));
        assert(encoded@ =~= release_bytes(share, member_index, package@));
    }
    Ok((share, member_index as usize, package))
}

/// Whether a released share is the one that was asked for: of the keyper, under the lock, and
/// matching the submission.
pub open spec fn is_asked_share(
    fields: ReleasedFields,
    share: KeyperSecretShare,
    epoch_account: [u8; 32],
    lock_digest: [u8; 32],
    keys: Seq<u8>,
    ciphertext: Seq<u8>,
) -> bool {
    &&& fields.index == share.position()
    &&& fields.epoch_account == epoch_account
    &&& fields.lock_digest == lock_digest
    &&& fields.ciphertext_hash == sha256(ciphertext)
    &&& is_encrypted_intent(ciphertext)
    &&& share_verifies(keys, fields.index, fields.share@, ciphertext)
}

/// What a coordinator makes of the output of a process that was asked for a share.
pub open spec fn release_response_judged(
    output: ProcessOutput<'_>,
    share: KeyperSecretShare,
    package: PackageFields,
    member_index: usize,
    lock_digest: [u8; 32],
    released: Result<ReleasedShareV1, KeyperProcessError>,
) -> bool {
    if !output.success {
        released == Err::<ReleasedShareV1, _>(KeyperProcessError::ChildFailed)
    } else if output.stderr@.len() != 0 || (forall|fields: ReleasedFields|
        !#[trigger] reads_as_released(output.stdout@, fields)) {
        released == Err::<ReleasedShareV1, _>(KeyperProcessError::InvalidResponse)
    } else if member_index >= package.submissions.len() {
        released == Err::<ReleasedShareV1, _>(KeyperProcessError::Input)
    } else {
        match released {
            Ok(released) => reads_as_released(output.stdout@, released@) && is_asked_share(
                released@,
                share,
                package.epoch_account,
                lock_digest,
                package.keys,
                package.submissions[member_index as int].ciphertext,
            ),
            Err(error) => error == KeyperProcessError::InvalidResponse && (forall|
                fields: ReleasedFields,
            | #[trigger]
                reads_as_released(output.stdout@, fields) ==> !is_asked_share(
                    fields,
                    share,
                    package.epoch_account,
                    lock_digest,
                    package.keys,
                    package.submissions[member_index as int].ciphertext,
                )),
        }
    }
}

/// What a coordinator makes of the output of a process that was asked to release a share.
/// `lock_digest` is the program's digest of the package's lock payload.
pub fn check_release_response(
    output: &ProcessOutput<'_>,
    share: &KeyperSecretShare,
    package: &LockPackageV1,
    member_index: usize,
    lock_digest: [u8; 32],
) -> (released: Result<ReleasedShareV1, KeyperProcessError>)
    ensures
        release_response_judged(*output, *share, package@, member_index, lock_digest, released),
{
    if !output.success {
        return Err(KeyperProcessError::ChildFailed);
    }
    if output.stderr.len() != 0 {
        return Err(KeyperProcessError::InvalidResponse);
    }
    let released = match ReleasedShareV1::decode_wire(output.stdout) {
        Ok(released) => released,
        Err(_) => {
            return Err(KeyperProcessError::InvalidResponse);
        },
    };
    assert(reads_as_released(output.stdout@, released@));
    if member_index >= package.submissions.len() {
        return Err(KeyperProcessError::Input);
    }
    let submission = &package.submissions[member_index];
    assert(package@.submissions[member_index as int] == submission@);
    if released.index() != share.index() || !same_array(
        &released.epoch_account(),
        &package.epoch_account,
    ) || !same_array(&released.lock_digest(), &lock_digest) || !released.verify(
        &package.epoch_public_keys,
        submission,
    ) {
        proof {
            assert forall|fields: ReleasedFields| #[trigger]
                reads_as_released(output.stdout@, fields) implies !is_asked_share(
                fields,
                *share,
                package@.epoch_account,
                lock_digest,
                package@.keys,
                package@.submissions[member_index as int].ciphertext,
            ) by {
                crate::shares::law_released_share_is_determined(
                    output.stdout@,
                    fields,
                    released@,
                );
            }
        }
        return Err(KeyperProcessError::InvalidResponse);
    }
    Ok(released)
}

/// The frame that asks a keyper to sign a settlement; one that is too long is refused.
pub fn settlement_frame(share: &KeyperSecretShare, request: &[u8]) -> (frame: Result<
    Vec<u8>,
    KeyperProcessError,
>)
    ensures
        match frame {
            Ok(frame) => request@.len() <= MAX_SETTLEMENT_REQUEST_LEN && frame@
                == bound_share_bytes(*share) + request@,
            Err(error) => error == KeyperProcessError::Input && request@.len()
                > MAX_SETTLEMENT_REQUEST_LEN,
        },
{
    if request.len() > MAX_SETTLEMENT_REQUEST_LEN {
        return Err(KeyperProcessError::Input);
    }
    let mut frame: Vec<u8> = Vec::new();
    append_bound_share(&mut frame, share);
    append(&mut frame, request);
    assert(frame@ =~= bound_share_bytes(*share) + request@);
    Ok(frame)
}

/// Whether a byte string is a frame that asks a keyper to sign a settlement.
pub open spec fn is_settlement_frame(encoded: Seq<u8>) -> bool {
    BOUND_SHARE_LEN < encoded.len() <= MAX_SETTLEMENT_FRAME_LEN && is_bound_share(encoded.take(73))
}

/// Reads a frame that asks a keyper to sign a settlement: the share, and the request's wire form.
pub fn read_settlement(encoded: &[u8]) -> (parts: Result<
    (KeyperSecretShare, &[u8]),
    KeyperProcessError,
>)
    ensures
        match parts {
            Ok((share, request)) => is_settlement_frame(encoded@) && encoded@ == bound_share_bytes(
                share,
            ) + request@,
            Err(error) => error == KeyperProcessError::InvalidRequest && !is_settlement_frame(
                encoded@,
            ),
        },
{
    if encoded.len() <= BOUND_SHARE_LEN || encoded.len() > MAX_SETTLEMENT_FRAME_LEN {
        return Err(KeyperProcessError::InvalidRequest);
    }
    let head = slice_subrange(encoded, 0, BOUND_SHARE_LEN);
    assert(head@ =~= encoded@.take(73));
    match decode_bound_share(head) {
        Ok(share) => {
            let request = slice_subrange(encoded, BOUND_SHARE_LEN, encoded.len());
            assert(encoded@ =~= bound_share_bytes(share) + request@);
            Ok((share, request))
        },
        Err(error) => Err(error),
    }
}

proof fn lemma_bound_share(share: KeyperSecretShare, tail: Seq<u8>)
    ensures
        bound_share_bytes(share).len() == BOUND_SHARE_LEN,
        (bound_share_bytes(share) + tail).take(73) == bound_share_bytes(share),
        (bound_share_bytes(share) + tail).skip(73) == tail,
        share_public(share.secret()@) is Some ==> is_bound_share(bound_share_bytes(share)),
{
    lemma_auto_spec_u64_to_from_le_bytes();
    let bytes = bound_share_bytes(share);
    assert((bytes + tail).take(73) =~= bytes);
    assert((bytes + tail).skip(73) =~= tail);
    assert(bytes.subrange(33, 41) =~= spec_u64_to_le_bytes(share.position() as u64));
    assert(bytes.subrange(41, 73) =~= share.secret()@);
}

proof fn lemma_bound_share_determined(a: KeyperSecretShare, b: KeyperSecretShare)
    ensures
        bound_share_bytes(a) == bound_share_bytes(b) ==> a.epoch() == b.epoch() && a.position()
            == b.position() && a.secret() == b.secret(),
{
    lemma_auto_spec_u64_to_from_le_bytes();
    let x = bound_share_bytes(a);
    let y = bound_share_bytes(b);
    if x == y {
        assert(x.subrange(1, 33) =~= a.epoch()@);
        assert(y.subrange(1, 33) =~= b.epoch()@);
        assert(x.subrange(33, 41) =~= spec_u64_to_le_bytes(a.position() as u64));
        assert(y.subrange(33, 41) =~= spec_u64_to_le_bytes(b.position() as u64));
        assert(x.subrange(41, 73) =~= a.secret()@);
        assert(y.subrange(41, 73) =~= b.secret()@);
        assert(a.epoch() =~= b.epoch());
        assert(a.secret() =~= b.secret());
    }
}

/// A keyper reads from a frame what the coordinator put into it: every frame that fits is accepted,
/// and the share and the rest that are read from it are those that were sent.
pub proof fn law_frames_round_trip(
    share: KeyperSecretShare,
    member_index: u32,
    body: Seq<u8>,
    read: KeyperSecretShare,
    read_index: u32,
    read_body: Seq<u8>,
)
    requires
        share_public(share.secret()@) is Some,
    ensures
        SIGN_LOCK_PREFIX_LEN + body.len() <= MAX_SIGN_LOCK_REQUEST_LEN ==> is_sign_lock(
            sign_lock_bytes(share, body),
        ),
        RELEASE_PREFIX_LEN + body.len() <= MAX_RELEASE_REQUEST_LEN ==> is_release(
            release_bytes(share, member_index, body),
        ),
        0 < body.len() <= MAX_SETTLEMENT_REQUEST_LEN ==> is_settlement_frame(
            bound_share_bytes(share) + body,
        ),
        sign_lock_bytes(share, body) == sign_lock_bytes(read, read_body) || release_bytes(
            share,
            member_index,
            body,
        ) == release_bytes(read, read_index, read_body) || bound_share_bytes(share) + body
            == bound_share_bytes(read) + read_body ==> read_body == body && read.epoch()
            == share.epoch() && read.position() == share.position() && read.secret()
            == share.secret(),
        release_bytes(share, member_index, body) == release_bytes(read, read_index, read_body)
            ==> read_index == member_index,
{
    lemma_auto_spec_u32_to_from_le_bytes();
    lemma_bound_share_determined(share, read);
    let size = spec_u32_to_le_bytes(body.len() as u32);
    let read_size = spec_u32_to_le_bytes(read_body.len() as u32);
    let at = spec_u32_to_le_bytes(member_index);
    let read_at = spec_u32_to_le_bytes(read_index);
    let sign = sign_lock_bytes(share, body);
    let release = release_bytes(share, member_index, body);
    assert(sign =~= bound_share_bytes(share) + (size + body));
    assert(sign_lock_bytes(read, read_body) =~= bound_share_bytes(read) + (read_size + read_body));
    assert(release =~= bound_share_bytes(share) + (at + size + body));
    assert(release_bytes(read, read_index, read_body) =~= bound_share_bytes(read) + (read_at
        + read_size + read_body));
    lemma_bound_share(share, size + body);
    lemma_bound_share(share, at + size + body);
    lemma_bound_share(share, body);
    lemma_bound_share(read, read_size + read_body);
    lemma_bound_share(read, read_at + read_size + read_body);
    lemma_bound_share(read, read_body);
    assert(sign.subrange(73, 77) =~= size);
    assert(release.subrange(77, 81) =~= size);
    assert((size + body).skip(4) =~= body);
    assert((read_size + read_body).skip(4) =~= read_body);
    assert((at + size + body).take(4) =~= at);
    assert((read_at + read_size + read_body).take(4) =~= read_at);
    assert((at + size + body).skip(8) =~= body);
    assert((read_at + read_size + read_body).skip(8) =~= read_body);
}

/// Whether an approval of a settlement is a keyper's, of a digest, for the payload that the program
/// digests to it.
pub open spec fn approves_settlement(
    fields: SettlementApprovalFields,
    keyper: [u8; 32],
    digest: [u8; 32],
    payload_digest: [u8; 32],
) -> bool {
    &&& fields.keyper_key == keyper
    &&& fields.digest == digest
    &&& fields.digest == payload_digest
    &&& ed25519_verifies(fields.keyper_key@, fields.digest@, fields.signature@)
}

/// What a coordinator makes of the output of a process that was asked to approve a settlement.
pub open spec fn settlement_response_taken(
    success: bool,
    stderr_empty: bool,
    approval: Option<SettlementApprovalV1>,
    payload_digest: [u8; 32],
    position: usize,
    expected_keyper: [u8; 32],
    settlement_digest: [u8; 32],
) -> Result<SettlementApprovalV1, KeyperProcessError> {
    if !success {
        Err(KeyperProcessError::ChildFailed)
    } else {
        match approval {
            Some(approval) => if stderr_empty && position < 3 && approves_settlement(
                approval@,
                expected_keyper,
                settlement_digest,
                payload_digest,
            ) {
                Ok(approval)
            } else {
                Err(KeyperProcessError::InvalidResponse)
            },
            None => Err(KeyperProcessError::InvalidResponse),
        }
    }
}

/// What a coordinator makes of the output of a process that was asked to sign a settlement.
/// `approval` is what standard output was read as, and `payload_digest` the program's digest of its
/// payload.
pub fn check_settlement_response(
    success: bool,
    stderr_empty: bool,
    approval: Option<SettlementApprovalV1>,
    payload_digest: [u8; 32],
    share: &KeyperSecretShare,
    expected_keyper: [u8; 32],
    settlement_digest: [u8; 32],
) -> (outcome: Result<SettlementApprovalV1, KeyperProcessError>)
    ensures
        outcome == settlement_response_taken(
            success,
            stderr_empty,
            approval,
            payload_digest,
            share.position(),
            expected_keyper,
            settlement_digest,
        ),
{
    if !success {
        return Err(KeyperProcessError::ChildFailed);
    }
    if !stderr_empty {
        return Err(KeyperProcessError::InvalidResponse);
    }
    match approval {
        Some(approval) => if !same_array(&approval.keyper_key(), &expected_keyper) || !same_array(
            &approval.digest(),
            &settlement_digest,
        ) || !approval.verify(payload_digest) || share.index() >= 3 {
            Err(KeyperProcessError::InvalidResponse)
        } else {
            Ok(approval)
        },
        None => Err(KeyperProcessError::InvalidResponse),
    }
}

/// Whether a file mode leaves nothing to anyone but the owner.
pub fn is_private_mode(mode: u32) -> (private: bool)
    ensures
        private == (mode & 0o077u32 == 0),
{
    mode & 0o077u32 == 0
}

/// The position of a key among the keypers of a pool.
pub fn keyper_position(keypers: &[[u8; 32]; 3], key: &[u8; 32]) -> (position: Option<usize>)
    ensures
        match position {
            Some(i) => i < 3 && keypers@[i as int] == *key && (forall|k: int|
                0 <= k < i ==> #[trigger] keypers@[k] != *key),
            None => forall|k: int| 0 <= k < 3 ==> #[trigger] keypers@[k] != *key,
        },
{
    let mut i: usize = 0;
    while i < 3
        invariant
            i <= 3,
            forall|k: int| 0 <= k < i ==> #[trigger] keypers@[k] != *key,
        decreases 3 - i,
    {
        if same_array(&keypers[i], key) {
            return Some(i);
        }
        i += 1;
    }
    None
}

/// Whether a character is white space.
pub open spec fn white(c: char) -> bool {
    let u = c as u32;
    ||| 0x9 <= u <= 0xd
    ||| u == 0x20
    ||| u == 0x85
    ||| u == 0xa0
    ||| u == 0x1680
    ||| 0x2000 <= u <= 0x200a
    ||| u == 0x2028
    ||| u == 0x2029
    ||| u == 0x202f
    ||| u == 0x205f
    ||| u == 0x3000
}

fn is_white(c: char) -> (is: bool)
    ensures
        is == white(c),
{
    let u: u32 = c as u32;
    (0x9 <= u && u <= 0xd) || u == 0x20 || u == 0x85 || u == 0xa0 || u == 0x1680 || (0x2000 <= u
        && u <= 0x200a) || u == 0x2028 || u == 0x2029 || u == 0x202f || u == 0x205f || u == 0x3000
}

/// The bytes that a character takes in UTF-8.
pub open spec fn char_len(c: char) -> int {
    let u = c as u32;
    if u < 0x80 {
        1
    } else if u < 0x800 {
        2
    } else if u < 0x10000 {
        3
    } else {
        4
    }
}

/// The bytes that text takes in UTF-8.
pub open spec fn text_len(chars: Seq<char>) -> int
    decreases chars.len(),
{
    if chars.len() == 0 {
        0
    } else {
        text_len(chars.drop_last()) + char_len(chars.last())
    }
}

/// Whether text is an address that a keyper may be configured with: not empty, of at most 2048 bytes,
/// and without white space.
pub open spec fn url_usable(chars: Seq<char>) -> bool {
    &&& chars.len() > 0
    &&& text_len(chars) <= 2048
    &&& forall|i: int| 0 <= i < chars.len() ==> !white(#[trigger] chars[i])
}

/// Whether text has no white space at either end.
pub open spec fn trimmed(chars: Seq<char>) -> bool {
    chars.len() > 0 ==> !white(chars[0]) && !white(chars.last())
}

/// The part of text between the white space at its ends.
pub fn trim_range(chars: &[char]) -> (range: (usize, usize))
    ensures
        range.0 <= range.1 <= chars@.len(),
        trimmed(chars@.subrange(range.0 as int, range.1 as int)),
        forall|i: int| 0 <= i < range.0 ==> white(#[trigger] chars@[i]),
        forall|i: int| range.1 <= i < chars@.len() ==> white(#[trigger] chars@[i]),
{
    let mut start: usize = 0;
    while start < chars.len() && is_white(chars[start])
        invariant
            start <= chars@.len(),
            forall|i: int| 0 <= i < start ==> white(#[trigger] chars@[i]),
        decreases chars@.len() - start,
    {
        start += 1;
    }
    let mut end: usize = chars.len();
    while end > start && is_white(chars[end - 1])
        invariant
            start <= end <= chars@.len(),
            forall|i: int| end <= i < chars@.len() ==> white(#[trigger] chars@[i]),
        decreases end,
    {
        end -= 1;
    }
    (start, end)
}

/// Checks an address that a keyper is configured with: white space at its ends is dropped, and what
/// is left must be usable.
pub fn check_rpc_url(chars: &[char]) -> (range: Result<(usize, usize), KeyperProcessError>)
    ensures
        match range {
            Ok((start, end)) => {
                &&& start <= end <= chars@.len()
                &&& url_usable(chars@.subrange(start as int, end as int))
                &&& forall|i: int| 0 <= i < start ==> white(#[trigger] chars@[i])
                &&& forall|i: int| end <= i < chars@.len() ==> white(#[trigger] chars@[i])
            },
            Err(error) => error == KeyperProcessError::InvalidRequest && (forall|
                start: int,
                end: int,
            |
                0 <= start <= end <= chars@.len() && (forall|i: int|
                    0 <= i < start ==> white(#[trigger] chars@[i])) && (forall|i: int|
                    end <= i < chars@.len() ==> white(#[trigger] chars@[i])) ==> !url_usable(
                    #[trigger] chars@.subrange(start, end),
                )),
        },
{
    let (start, end) = trim_range(chars);
    let ghost inner = chars@.subrange(start as int, end as int);
    let mut total: usize = 0;
    let mut clean = true;
    let mut i: usize = start;
    assert(chars@.subrange(start as int, start as int) =~= Seq::empty());
    while i < end
        invariant
            start <= i <= end <= chars@.len(),
            total <= 2052,
            clean ==> total == text_len(chars@.subrange(start as int, i as int)) && total <= 2048,
            clean ==> forall|k: int| start <= k < i ==> !white(#[trigger] chars@[k]),
            !clean ==> total > 2048 || exists|k: int| start <= k < i && white(#[trigger] chars@[k]),
            !clean && total > 2048 ==> text_len(chars@.subrange(start as int, i as int)) > 2048,
        decreases end - i,
    {
        let c = chars[i];
        proof {
            assert(chars@.subrange(start as int, i + 1).drop_last() =~= chars@.subrange(
                start as int,
                i as int,
            ));
        }
        if clean {
            let u: u32 = c as u32;
            let width: usize = if u < 0x80 {
                1
            } else if u < 0x800 {
                2
            } else if u < 0x10000 {
                3
            } else {
                4
            };
            total += width;
            if is_white(c) {
                assert(white(chars@[i as int]));
                clean = false;
            }
            if total > 2048 {
                clean = false;
            }
        }
        i += 1;
    }
    if clean && start < end {
        assert(chars@.subrange(start as int, i as int) =~= inner);
        return Ok((start, end));
    }
    proof {
        assert(chars@.subrange(start as int, i as int) =~= inner);
        if !clean && total <= 2048 {
            let k = choose|k: int| start <= k < i && white(#[trigger] chars@[k]);
            assert(inner[k - start] == chars@[k]);
        }
        lemma_url_refused(chars@, start as int, end as int);
    }
    Err(KeyperProcessError::InvalidRequest)
}

/// Where the text between the white space is not usable, no text between white space is.
proof fn lemma_url_refused(chars: Seq<char>, start: int, end: int)
    requires
        0 <= start <= end <= chars.len(),
        trimmed(chars.subrange(start, end)),
        !url_usable(chars.subrange(start, end)),
        forall|i: int| 0 <= i < start ==> white(#[trigger] chars[i]),
        forall|i: int| end <= i < chars.len() ==> white(#[trigger] chars[i]),
    ensures
        forall|a: int, b: int|
            0 <= a <= b <= chars.len() && (forall|i: int|
                0 <= i < a ==> white(#[trigger] chars[i])) && (forall|i: int|
                b <= i < chars.len() ==> white(#[trigger] chars[i])) ==> !url_usable(
                #[trigger] chars.subrange(a, b),
            ),
{
    assert forall|a: int, b: int|
        0 <= a <= b <= chars.len() && (forall|i: int| 0 <= i < a ==> white(#[trigger] chars[i]))
            && (forall|i: int| b <= i < chars.len() ==> white(#[trigger] chars[i])) implies !url_usable(
        #[trigger] chars.subrange(a, b),
    ) by {
        let part = chars.subrange(a, b);
        if url_usable(part) {
            let inner = chars.subrange(start, end);
            assert(!white(part[0]));
            assert(part[0] == chars[a]);
            assert(!white(part[part.len() - 1]));
            assert(part[part.len() - 1] == chars[b - 1]);
            assert(start <= a);
            assert(b <= end);
            if start < a {
                assert(white(chars[start]));
                assert(inner[0] == chars[start]);
            }
            if b < end {
                assert(white(chars[end - 1]));
                assert(inner.last() == chars[end - 1]);
            }
            assert(part =~= inner);
        }
    }
}

} // verus!
