//! Threshold encryption: key sets, ciphertexts and shares, held as the bytes that encode them.
//!
//! All encodings are bincode's, with fixed-width integers and no trailing bytes. A group element
//! takes 48 bytes in the first group and 96 in the second, a secret share takes 32, so that a key
//! set of two coefficients takes 104 bytes and a ciphertext of `n` bytes takes `152 + n`.

use bincode::Options;
use rand::SeedableRng;
use vstd::prelude::*;

verus! {

pub const KEY_SET_LEN: usize = 104;

/// How many shares of an epoch's keys open nothing; one more opens.
pub const SHARE_THRESHOLD: u8 = 1;

/// What a byte string that encodes a public key set encodes to again, and the set's threshold.
pub uninterp spec fn key_set(encoded: Seq<u8>) -> Option<(Seq<u8>, usize)>;

/// The public key share of an index.
pub uninterp spec fn key_share(keys: Seq<u8>, index: usize) -> Option<[u8; 48]>;

/// Whether a byte string encodes a ciphertext that is valid.
pub uninterp spec fn ciphertext_valid(encoded: Seq<u8>) -> bool;

/// The public key set of a threshold that a dealer makes of a seed.
pub uninterp spec fn dealt_keys(seed: Seq<u8>, threshold: u8) -> Seq<u8>;

/// The secret key share of an index that a dealer of a threshold makes of a seed.
pub uninterp spec fn dealt_share(seed: Seq<u8>, threshold: u8, index: usize) -> [u8; 32];

/// The public key share that belongs to a secret key share.
pub uninterp spec fn share_public(secret: Seq<u8>) -> Option<[u8; 48]>;

/// The decryption share that a secret key share makes of a ciphertext.
pub uninterp spec fn decryption_share(secret: Seq<u8>, ciphertext: Seq<u8>) -> Option<[u8; 48]>;

/// What a byte string that encodes a decryption share encodes to again.
pub uninterp spec fn decryption_share_encoding(encoded: Seq<u8>) -> Option<[u8; 48]>;

/// Whether a decryption share of an index matches a ciphertext.
pub uninterp spec fn share_verifies(
    keys: Seq<u8>,
    index: usize,
    share: Seq<u8>,
    ciphertext: Seq<u8>,
) -> bool;

/// What two decryption shares open a ciphertext to.
pub uninterp spec fn opened(
    keys: Seq<u8>,
    first: usize,
    first_share: Seq<u8>,
    second: usize,
    second_share: Seq<u8>,
    ciphertext: Seq<u8>,
) -> Option<Seq<u8>>;

/// Whether bytes encode a public key share.
pub uninterp spec fn public_share_valid(encoded: Seq<u8>) -> bool;

/// Whether bytes encode a signature share.
pub uninterp spec fn signature_share_valid(encoded: Seq<u8>) -> bool;

/// The signature share that a secret key share makes of a message.
pub uninterp spec fn share_signature(secret: Seq<u8>, message: Seq<u8>) -> Option<[u8; 96]>;

/// Whether a signature share of a message matches a public key share.
pub uninterp spec fn share_signature_verifies(
    public: Seq<u8>,
    signature: Seq<u8>,
    message: Seq<u8>,
) -> bool;

/// Whether every two shares of the dealer of a key set match a ciphertext and open it to a message.
pub open spec fn opens_to(keys: Seq<u8>, ciphertext: Seq<u8>, message: Seq<u8>) -> bool {
    forall|seed: Seq<u8>, i: usize, j: usize|
        #![trigger dealt_share(seed, SHARE_THRESHOLD, i), dealt_share(seed, SHARE_THRESHOLD, j)]
        seed.len() == 32 && dealt_keys(seed, SHARE_THRESHOLD) == keys && i != j ==> pair_opens(
            keys,
            seed,
            i,
            j,
            ciphertext,
            message,
        )
}

/// Whether the shares of two indices match a ciphertext and open it to a message.
pub open spec fn pair_opens(
    keys: Seq<u8>,
    seed: Seq<u8>,
    i: usize,
    j: usize,
    ciphertext: Seq<u8>,
    message: Seq<u8>,
) -> bool {
    let a = dealt_share(seed, SHARE_THRESHOLD, i);
    let b = dealt_share(seed, SHARE_THRESHOLD, j);
    decryption_share(a@, ciphertext) matches Some(s) && decryption_share(
        b@,
        ciphertext,
    ) matches Some(t) && share_verifies(keys, i, s@, ciphertext) && share_verifies(
        keys,
        j,
        t@,
        ciphertext,
    ) && opened(keys, i, s@, j, t@, ciphertext) == Some(message)
}

/// `threshold_crypto::PublicKeySet`, decoded and encoded again by `bincode`, and
/// `PublicKeySet::threshold`: both depend on the bytes alone, and the second encoding is stable.
#[verifier::external_body]
pub(crate) fn decode_key_set(encoded: &[u8]) -> (decoded: Option<(Vec<u8>, usize)>)
    requires
        encoded@.len() == KEY_SET_LEN,
    ensures
        match decoded {
            Some((again, threshold)) => key_set(encoded@) == Some((again@, threshold)) && key_set(
                again@,
            ) == Some((again@, threshold)) && again@.len() == KEY_SET_LEN,
            None => key_set(encoded@) is None,
        },
{
    let options = bincode::DefaultOptions::new().with_fixint_encoding().reject_trailing_bytes();
    let keys: threshold_crypto::PublicKeySet = options.deserialize(encoded).ok()?;
    let again = options.serialize(&keys).ok()?;
    Some((again, keys.threshold()))
}

/// `threshold_crypto::PublicKeySet::public_key_share`: the share depends on the key set and the
/// index. Bytes that encode no key set have none.
#[verifier::external_body]
pub(crate) fn public_key_share(keys: &[u8], index: usize) -> (share: Option<[u8; 48]>)
    ensures
        share == key_share(keys@, index),
{
    let options = bincode::DefaultOptions::new().with_fixint_encoding().reject_trailing_bytes();
    let keys: threshold_crypto::PublicKeySet = options.deserialize(keys).ok()?;
    Some(keys.public_key_share(index).to_bytes())
}

/// `threshold_crypto::Ciphertext::verify`: whether a ciphertext is valid depends on its bytes.
/// Bytes that encode no ciphertext are not valid.
#[verifier::external_body]
pub(crate) fn ciphertext_verifies(encoded: &[u8]) -> (valid: bool)
    ensures
        valid == ciphertext_valid(encoded@),
{
    let options = bincode::DefaultOptions::new().with_fixint_encoding().reject_trailing_bytes();
    match options.deserialize::<threshold_crypto::Ciphertext>(encoded) {
        Ok(ciphertext) => ciphertext.verify(),
        Err(_) => false,
    }
}

/// `threshold_crypto::PublicKey::encrypt` draws randomness, so that the ciphertext is open. Every
/// outcome is valid, has the width of its message, and opens to the message by any two shares of
/// the dealer of the key set. Only bytes that encode no key set give none.
#[verifier::external_body]
pub(crate) fn encrypt_to(keys: &[u8], message: &[u8]) -> (ciphertext: Option<Vec<u8>>)
    requires
        keys@.len() == KEY_SET_LEN,
    ensures
        ciphertext is None <==> key_set(keys@) is None,
        ciphertext matches Some(encoded) ==> {
            &&& encoded@.len() == 152 + message@.len()
            &&& ciphertext_valid(encoded@)
            &&& opens_to(keys@, encoded@, message@)
        },
{
    let options = bincode::DefaultOptions::new().with_fixint_encoding().reject_trailing_bytes();
    let keys: threshold_crypto::PublicKeySet = options.deserialize(keys).ok()?;
    options.serialize(&keys.public_key().encrypt(message)).ok()
}

/// `threshold_crypto::SecretKeySet::try_random` on the generator `rand_chacha::ChaChaRng` of a seed,
/// and `SecretKeySet::public_keys`: the key set depends on the seed and the threshold, has that
/// threshold and one coefficient more, and is always had, for only the largest of all thresholds is
/// refused.
#[verifier::external_body]
pub(crate) fn deal_keys(seed: &[u8; 32], threshold: u8) -> (keys: Option<Vec<u8>>)
    ensures
        keys is Some,
        keys->Some_0@ == dealt_keys(seed@, threshold),
        keys->Some_0@.len() == 56 + 48 * threshold,
        key_set(keys->Some_0@) == Some((keys->Some_0@, threshold as usize)),
{
    let options = bincode::DefaultOptions::new().with_fixint_encoding().reject_trailing_bytes();
    let mut generator = rand_chacha::ChaChaRng::from_seed(*seed);
    let secrets =
        threshold_crypto::SecretKeySet::try_random(threshold as usize, &mut generator).ok()?;
    options.serialize(&secrets.public_keys()).ok()
}

/// `threshold_crypto::SecretKeySet::secret_key_share` of the set that a seed and a threshold give: the
/// share depends on the seed, the threshold and the index, is had for every index, and belongs to the
/// public key share of that index.
#[verifier::external_body]
pub(crate) fn deal_share(seed: &[u8; 32], threshold: u8, index: usize) -> (share: Option<[u8; 32]>)
    ensures
        share == Some(dealt_share(seed@, threshold, index)),
        share_public(share->Some_0@) is Some,
        share_public(share->Some_0@) == key_share(dealt_keys(seed@, threshold), index),
{
    let options = bincode::DefaultOptions::new().with_fixint_encoding().reject_trailing_bytes();
    let mut generator = rand_chacha::ChaChaRng::from_seed(*seed);
    let secrets =
        threshold_crypto::SecretKeySet::try_random(threshold as usize, &mut generator).ok()?;
    let share = threshold_crypto::serde_impl::SerdeSecret(secrets.secret_key_share(index));
    options.serialize(&share).ok()?.try_into().ok()
}

/// `threshold_crypto::SecretKeyShare::public_key_share`: the public key share depends on the secret
/// key share. Bytes that encode no secret key share have none.
#[verifier::external_body]
pub(crate) fn public_share_of(secret: &[u8; 32]) -> (share: Option<[u8; 48]>)
    ensures
        share == share_public(secret@),
{
    let options = bincode::DefaultOptions::new().with_fixint_encoding().reject_trailing_bytes();
    let secret: threshold_crypto::SecretKeyShare = options.deserialize(secret).ok()?;
    Some(secret.public_key_share().to_bytes())
}

/// `threshold_crypto::SecretKeyShare::decrypt_share`: the decryption share depends on the secret
/// key share and the ciphertext, and its encoding decodes to it again. An invalid ciphertext has
/// none, nor have bytes that encode no secret key share.
#[verifier::external_body]
pub(crate) fn share_of_ciphertext(secret: &[u8; 32], ciphertext: &[u8]) -> (share: Option<
    [u8; 48],
>)
    ensures
        share == decryption_share(secret@, ciphertext@),
        share matches Some(encoded) ==> ciphertext_valid(ciphertext@) && decryption_share_encoding(
            encoded@,
        ) == Some(encoded),
{
    let options = bincode::DefaultOptions::new().with_fixint_encoding().reject_trailing_bytes();
    let secret: threshold_crypto::SecretKeyShare = options.deserialize(secret).ok()?;
    let ciphertext: threshold_crypto::Ciphertext = options.deserialize(ciphertext).ok()?;
    let share = secret.decrypt_share(&ciphertext)?;
    options.serialize(&share).ok()?.try_into().ok()
}

/// `threshold_crypto::DecryptionShare`, decoded and encoded again by `bincode`: both depend on the
/// bytes alone, the first encoding has 48 bytes, and the second is stable.
#[verifier::external_body]
pub(crate) fn decode_decryption_share(encoded: &[u8]) -> (share: Option<[u8; 48]>)
    ensures
        share == decryption_share_encoding(encoded@),
        share matches Some(again) ==> encoded@.len() == 48 && decryption_share_encoding(again@)
            == Some(again),
{
    let options = bincode::DefaultOptions::new().with_fixint_encoding().reject_trailing_bytes();
    let share: threshold_crypto::DecryptionShare = options.deserialize(encoded).ok()?;
    options.serialize(&share).ok()?.try_into().ok()
}

/// `threshold_crypto::PublicKeyShare::verify_decryption_share` of the public key share of an index:
/// the answer depends on the key set, the index, the share and the ciphertext. Bytes that encode
/// none of these verify nothing.
#[verifier::external_body]
pub(crate) fn verify_share(
    keys: &[u8],
    index: usize,
    share: &[u8; 48],
    ciphertext: &[u8],
) -> (verified: bool)
    ensures
        verified == share_verifies(keys@, index, share@, ciphertext@),
{
    let options = bincode::DefaultOptions::new().with_fixint_encoding().reject_trailing_bytes();
    match (
        options.deserialize::<threshold_crypto::PublicKeySet>(keys),
        options.deserialize::<threshold_crypto::DecryptionShare>(share),
        options.deserialize::<threshold_crypto::Ciphertext>(ciphertext),
    ) {
        (Ok(k), Ok(s), Ok(c)) => k.public_key_share(index).verify_decryption_share(&s, &c),
        _ => false,
    }
}

/// `threshold_crypto::PublicKeySet::decrypt` with two shares: what the ciphertext opens to depends
/// on the key set, both indices, both shares and the ciphertext. Bytes that encode none of these
/// open nothing.
#[verifier::external_body]
pub(crate) fn combine(
    keys: &[u8],
    first: usize,
    first_share: &[u8; 48],
    second: usize,
    second_share: &[u8; 48],
    ciphertext: &[u8],
) -> (message: Option<Vec<u8>>)
    requires
        keys@.len() == KEY_SET_LEN,
    ensures
        match message {
            Some(message) => opened(
                keys@,
                first,
                first_share@,
                second,
                second_share@,
                ciphertext@,
            ) == Some(message@),
            None => opened(
                keys@,
                first,
                first_share@,
                second,
                second_share@,
                ciphertext@,
            ) is None,
        },
{
    let options = bincode::DefaultOptions::new().with_fixint_encoding().reject_trailing_bytes();
    let keys: threshold_crypto::PublicKeySet = options.deserialize(keys).ok()?;
    let a: threshold_crypto::DecryptionShare = options.deserialize(first_share).ok()?;
    let b: threshold_crypto::DecryptionShare = options.deserialize(second_share).ok()?;
    let ciphertext: threshold_crypto::Ciphertext = options.deserialize(ciphertext).ok()?;
    keys.decrypt([(first, &a), (second, &b)].iter().copied(), &ciphertext).ok()
}

/// `threshold_crypto::PublicKeyShare::from_bytes` succeeds or fails by the bytes alone.
#[verifier::external_body]
pub(crate) fn is_public_share(encoded: &[u8; 48]) -> (valid: bool)
    ensures
        valid == public_share_valid(encoded@),
{
    threshold_crypto::PublicKeyShare::from_bytes(encoded).is_ok()
}

/// `threshold_crypto::SignatureShare::from_bytes` succeeds or fails by the bytes alone.
#[verifier::external_body]
pub(crate) fn is_signature_share(encoded: &[u8; 96]) -> (valid: bool)
    ensures
        valid == signature_share_valid(encoded@),
{
    threshold_crypto::SignatureShare::from_bytes(encoded).is_ok()
}

/// `threshold_crypto::SecretKeyShare::sign`: the signature share depends on the secret key share and
/// the message. It is a valid one, and matches the public key share that belongs to the secret.
/// Bytes that encode no secret key share give none.
#[verifier::external_body]
pub(crate) fn sign_share(secret: &[u8; 32], message: &[u8; 32]) -> (signature: Option<[u8; 96]>)
    ensures
        signature == share_signature(secret@, message@),
        signature is Some <==> share_public(secret@) is Some,
        signature matches Some(encoded) ==> signature_share_valid(encoded@) && public_share_valid(
            share_public(secret@).unwrap()@,
        ) && share_signature_verifies(share_public(secret@).unwrap()@, encoded@, message@),
{
    let options = bincode::DefaultOptions::new().with_fixint_encoding().reject_trailing_bytes();
    let secret: threshold_crypto::SecretKeyShare = options.deserialize(secret).ok()?;
    Some(secret.sign(message).to_bytes())
}

/// `threshold_crypto::PublicKeyShare::verify`: the answer depends on the public key share, the
/// signature share and the message. Bytes that encode none of these verify nothing.
#[verifier::external_body]
pub(crate) fn verify_share_signature(
    public: &[u8; 48],
    signature: &[u8; 96],
    message: &[u8; 32],
) -> (verified: bool)
    ensures
        verified == share_signature_verifies(public@, signature@, message@),
{
    match (
        threshold_crypto::PublicKeyShare::from_bytes(public),
        threshold_crypto::SignatureShare::from_bytes(signature),
    ) {
        (Ok(key), Ok(share)) => key.verify(&share, message),
        _ => false,
    }
}

/// `getrandom::getrandom` fills the array with bytes of the operating system's randomness, which
/// nothing determines. It can fail.
#[verifier::external_body]
pub(crate) fn random_bytes<const N: usize>() -> (bytes: Option<[u8; N]>) {
    let mut bytes = [0u8; N];
    getrandom::getrandom(&mut bytes).ok()?;
    Some(bytes)
}

} // verus!
