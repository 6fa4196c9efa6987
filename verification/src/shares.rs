//! Epoch keys, the secret shares of keypers, and the shares that they release.

use crate::bytes::{append, copy_range, read_array, same_array};
use crate::crypto::{
    decode_ciphertext, is_encrypted_intent, signed_intent_bytes, CryptoError, EncryptedIntentV1,
    EncryptedSubmissionV1, SignedIntentV1,
};
use crate::domain::intent_error;
use crate::hash::{digest_of, sha256};
use crate::threshold::{
    combine, deal_keys, deal_share, dealt_keys, dealt_share, decode_decryption_share,
    decode_key_set, decryption_share, decryption_share_encoding, encrypt_to, key_set, key_share,
    opened, opens_to, pair_opens, public_key_share, public_share_of, random_bytes, share_of_ciphertext,
    share_public, share_verifies, verify_share, KEY_SET_LEN, SHARE_THRESHOLD,
};
use vstd::bytes::{
    lemma_auto_spec_u32_to_from_le_bytes, lemma_auto_spec_u64_to_from_le_bytes,
    spec_u32_from_le_bytes, spec_u32_to_le_bytes, spec_u64_from_le_bytes, spec_u64_to_le_bytes,
    u32_from_le_bytes, u32_to_le_bytes, u64_from_le_bytes, u64_to_le_bytes,
};
use vstd::prelude::*;
use vstd::slice::slice_subrange;
use vstd::string::*;
use vstd::utf8::encode_utf8;

verus! {

/// What a released share says.
pub struct ReleasedFields {
    pub epoch_account: [u8; 32],
    pub lock_digest: [u8; 32],
    pub ciphertext_hash: [u8; 32],
    pub index: usize,
    pub share: [u8; 48],
}

/// The part of a released share's wire form that precedes the share itself.
pub open spec fn released_prefix(fields: ReleasedFields, share_len: u32) -> Seq<u8> {
    seq![1u8] + spec_u64_to_le_bytes(fields.index as u64) + fields.epoch_account@
        + fields.lock_digest@ + fields.ciphertext_hash@ + spec_u32_to_le_bytes(share_len)
}

/// The wire form of a released share.
pub open spec fn released_bytes(fields: ReleasedFields) -> Seq<u8> {
    released_prefix(fields, 48) + fields.share@
}

/// Whether a byte string is a wire form that a released share is read from.
pub open spec fn reads_as_released(bytes: Seq<u8>, fields: ReleasedFields) -> bool {
    &&& bytes.len() >= 109
    &&& bytes.len() - 109 <= u32::MAX
    &&& bytes.take(109) == released_prefix(fields, (bytes.len() - 109) as u32)
    &&& decryption_share_encoding(bytes.skip(109)) == Some(fields.share)
}

proof fn lemma_released_layout(fields: ReleasedFields, share_len: u32)
    ensures
        released_prefix(fields, share_len).len() == 109,
        released_prefix(fields, share_len)[0] == 1,
        spec_u64_from_le_bytes(released_prefix(fields, share_len).subrange(1, 9))
            == fields.index as u64,
        released_prefix(fields, share_len).subrange(9, 41) == fields.epoch_account@,
        released_prefix(fields, share_len).subrange(41, 73) == fields.lock_digest@,
        released_prefix(fields, share_len).subrange(73, 105) == fields.ciphertext_hash@,
        spec_u32_from_le_bytes(released_prefix(fields, share_len).subrange(105, 109)) == share_len,
{
    lemma_auto_spec_u32_to_from_le_bytes();
    lemma_auto_spec_u64_to_from_le_bytes();
    let bytes = released_prefix(fields, share_len);
    assert(bytes.subrange(1, 9) =~= spec_u64_to_le_bytes(fields.index as u64));
    assert(bytes.subrange(9, 41) =~= fields.epoch_account@);
    assert(bytes.subrange(41, 73) =~= fields.lock_digest@);
    assert(bytes.subrange(73, 105) =~= fields.ciphertext_hash@);
    assert(bytes.subrange(105, 109) =~= spec_u32_to_le_bytes(share_len));
}

/// A keyper's decryption share of one submission, bound to the lock under which it was released.
#[derive(Clone, Copy, PartialEq, Eq)]
pub struct ReleasedShareV1 {
    epoch_account: [u8; 32],
    lock_digest: [u8; 32],
    ciphertext_hash: [u8; 32],
    index: usize,
    share: [u8; 48],
}

impl View for ReleasedShareV1 {
    type V = ReleasedFields;

    closed spec fn view(&self) -> ReleasedFields {
        ReleasedFields {
            epoch_account: self.epoch_account,
            lock_digest: self.lock_digest,
            ciphertext_hash: self.ciphertext_hash,
            index: self.index,
            share: self.share,
        }
    }
}

impl ReleasedShareV1 {
    pub fn index(&self) -> (index: usize)
        ensures
            index == self@.index,
    {
        self.index
    }

    pub fn epoch_account(&self) -> (epoch_account: [u8; 32])
        ensures
            epoch_account == self@.epoch_account,
    {
        self.epoch_account
    }

    pub fn lock_digest(&self) -> (lock_digest: [u8; 32])
        ensures
            lock_digest == self@.lock_digest,
    {
        self.lock_digest
    }

    pub fn ciphertext_hash(&self) -> (ciphertext_hash: [u8; 32])
        ensures
            ciphertext_hash == self@.ciphertext_hash,
    {
        self.ciphertext_hash
    }

    /// Whether the share belongs to a submission and matches its ciphertext.
    pub fn verify(&self, public_keys: &EpochPublicKeys, submission: &EncryptedSubmissionV1) -> (
        verified: bool)
        ensures
            verified == (self@.ciphertext_hash == sha256(submission@.ciphertext)
                && is_encrypted_intent(submission@.ciphertext) && share_verifies(
                public_keys@,
                self@.index,
                self@.share@,
                submission@.ciphertext,
            )),
    {
        let digest = digest_of(submission.ciphertext());
        if !same_array(&self.ciphertext_hash, &digest) {
            return false;
        }
        if decode_ciphertext(submission.ciphertext()).is_err() {
            return false;
        }
        verify_share(
            public_keys.encoded.as_slice(),
            self.index,
            &self.share,
            submission.ciphertext(),
        )
    }

    /// The wire form.
    pub fn encode_wire(&self) -> (bytes: Vec<u8>)
        ensures
            bytes@ == released_bytes(self@),
    {
        let mut out: Vec<u8> = Vec::new();
        out.push(1);
        append(&mut out, u64_to_le_bytes(self.index as u64).as_slice());
        append(&mut out, self.epoch_account.as_slice());
        append(&mut out, self.lock_digest.as_slice());
        append(&mut out, self.ciphertext_hash.as_slice());
        append(&mut out, u32_to_le_bytes(48).as_slice());
        append(&mut out, self.share.as_slice());
        assert(out@ =~= released_bytes(self@));
        out
    }

    /// Reads a wire form; anything but a whole share behind the fixed prefix is refused.
    pub fn decode_wire(bytes: &[u8]) -> (released: Result<Self, CryptoError>)
        ensures
            match released {
                Ok(released) => reads_as_released(bytes@, released@) && bytes@.len() == 157,
                Err(error) => error == CryptoError::InvalidShare && (forall|
                    fields: ReleasedFields,
                | !#[trigger] reads_as_released(bytes@, fields)),
            },
    {
        proof {
            assert forall|fields: ReleasedFields| #[trigger] reads_as_released(
                bytes@,
                fields,
            ) implies bytes@[0] == 1 && spec_u64_from_le_bytes(bytes@.subrange(1, 9))
                == fields.index as u64 && spec_u32_from_le_bytes(bytes@.subrange(105, 109))
                == bytes@.len() - 109 by {
                let share_len = (bytes@.len() - 109) as u32;
                lemma_released_layout(fields, share_len);
                let prefix = released_prefix(fields, share_len);
                assert(bytes@[0] == prefix[0]);
                assert(bytes@.subrange(1, 9) =~= prefix.subrange(1, 9));
                assert(bytes@.subrange(105, 109) =~= prefix.subrange(105, 109));
            }
        }
        if bytes.len() < 109 || bytes[0] != 1 {
            return Err(CryptoError::InvalidShare);
        }
        let share_len: u32 = u32_from_le_bytes(slice_subrange(bytes, 105, 109));
        if share_len as u64 != (bytes.len() - 109) as u64 {
            return Err(CryptoError::InvalidShare);
        }
        let tail = slice_subrange(bytes, 109, bytes.len());
        assert(tail@ =~= bytes@.skip(109));
        let share = match decode_decryption_share(tail) {
            Some(share) => share,
            None => {
                return Err(CryptoError::InvalidShare);
            },
        };
        let index: u64 = u64_from_le_bytes(slice_subrange(bytes, 1, 9));
        if index > usize::MAX as u64 {
            return Err(CryptoError::InvalidShare);
        }
        let released = ReleasedShareV1 {
            epoch_account: read_array::<32>(bytes, 9),
            lock_digest: read_array::<32>(bytes, 41),
            ciphertext_hash: read_array::<32>(bytes, 73),
            index: index as usize,
            share,
        };
        proof {
            lemma_auto_spec_u32_to_from_le_bytes();
            lemma_auto_spec_u64_to_from_le_bytes();
            assert(spec_u64_to_le_bytes(index) == bytes@.subrange(1, 9));
            assert(spec_u32_to_le_bytes(share_len) == bytes@.subrange(105, 109));
            assert(bytes@.take(109) =~= released_prefix(released@, share_len));
        }
        Ok(released)
    }
}

/// A released share comes back from its wire form, and no other is read from it.
pub proof fn law_released_share_round_trip(fields: ReleasedFields, other: ReleasedFields)
    requires
        decryption_share_encoding(fields.share@) == Some(fields.share),
    ensures
        reads_as_released(released_bytes(fields), fields),
        reads_as_released(released_bytes(fields), other) ==> other == fields,
{
    lemma_released_layout(fields, 48);
    lemma_released_layout(other, 48);
    let bytes = released_bytes(fields);
    assert(bytes.take(109) =~= released_prefix(fields, 48));
    assert(bytes.skip(109) =~= fields.share@);
    if reads_as_released(bytes, other) {
        assert(other.epoch_account =~= fields.epoch_account);
        assert(other.lock_digest =~= fields.lock_digest);
        assert(other.ciphertext_hash =~= fields.ciphertext_hash);
    }
}

/// A byte string is read as one released share only.
pub proof fn law_released_share_is_determined(
    bytes: Seq<u8>,
    a: ReleasedFields,
    b: ReleasedFields,
)
    requires
        reads_as_released(bytes, a),
        reads_as_released(bytes, b),
    ensures
        a == b,
{
    let share_len = (bytes.len() - 109) as u32;
    lemma_released_layout(a, share_len);
    lemma_released_layout(b, share_len);
    assert(a.epoch_account =~= b.epoch_account);
    assert(a.lock_digest =~= b.lock_digest);
    assert(a.ciphertext_hash =~= b.ciphertext_hash);
}

/// A keyper's secret share of an epoch.
pub struct KeyperSecretShare {
    epoch_account: [u8; 32],
    index: usize,
    secret: [u8; 32],
}

impl KeyperSecretShare {
    /// The epoch account that the share is for.
    pub closed spec fn epoch(&self) -> [u8; 32] {
        self.epoch_account
    }

    /// The index of the keyper.
    pub closed spec fn position(&self) -> usize {
        self.index
    }

    /// The bytes of the secret.
    pub closed spec fn secret(&self) -> [u8; 32] {
        self.secret
    }

    pub fn index(&self) -> (index: usize)
        ensures
            index == self.position(),
    {
        self.index
    }

    pub fn epoch_account(&self) -> (epoch_account: [u8; 32])
        ensures
            epoch_account == self.epoch(),
    {
        self.epoch_account
    }

    pub fn secret_bytes(&self) -> (secret: [u8; 32])
        ensures
            secret == self.secret(),
    {
        self.secret
    }

    pub fn from_secret(epoch_account: [u8; 32], index: usize, secret: [u8; 32]) -> (share: Self)
        ensures
            share.epoch() == epoch_account,
            share.position() == index,
            share.secret() == secret,
    {
        KeyperSecretShare { epoch_account, index, secret }
    }

    /// The public key share that belongs to the secret, where the bytes are a secret share.
    pub fn public_key_bytes(&self) -> (key: Option<[u8; 48]>)
        ensures
            key == share_public(self.secret()@),
    {
        public_share_of(&self.secret)
    }

    /// Releases the share of a ciphertext under a lock.
    pub fn release(
        &self,
        epoch_account: [u8; 32],
        lock_digest: [u8; 32],
        ciphertext: &[u8],
    ) -> (released: Result<ReleasedShareV1, CryptoError>)
        ensures
            match released {
                Ok(released) => {
                    &&& is_encrypted_intent(ciphertext@)
                    &&& decryption_share(self.secret()@, ciphertext@) == Some(released@.share)
                    &&& released@.epoch_account == epoch_account
                    &&& released@.lock_digest == lock_digest
                    &&& released@.ciphertext_hash == sha256(ciphertext@)
                    &&& released@.index == self.position()
                },
                Err(error) => error == CryptoError::InvalidCiphertext && (!is_encrypted_intent(
                    ciphertext@,
                ) || decryption_share(self.secret()@, ciphertext@) is None),
            },
    {
        match decode_ciphertext(ciphertext) {
            Ok(_) => {},
            Err(error) => {
                return Err(error);
            },
        }
        match share_of_ciphertext(&self.secret, ciphertext) {
            Some(share) => Ok(
                ReleasedShareV1 {
                    epoch_account,
                    lock_digest,
                    ciphertext_hash: digest_of(ciphertext),
                    index: self.index,
                    share,
                },
            ),
            None => Err(CryptoError::InvalidCiphertext),
        }
    }
}

/// What the public keys of an epoch commit a batch to.
pub open spec fn keys_leaf(keys: Seq<u8>) -> Seq<u8> {
    encode_utf8("KAGEB_EPOCH_KEY_SET_V1\0"@) + keys
}

/// What shares say.
pub open spec fn released_fields(shares: Seq<&ReleasedShareV1>) -> Seq<ReleasedFields> {
    shares.map_values(|share: &ReleasedShareV1| share@)
}

/// Why the share at `i` cannot be used to open a ciphertext, where it cannot: its index was used
/// before, or it does not match.
pub open spec fn share_refusal(
    keys: Seq<u8>,
    ciphertext: Seq<u8>,
    shares: Seq<ReleasedFields>,
    i: int,
) -> Option<CryptoError> {
    if exists|k: int| 0 <= k < i && (#[trigger] shares[k]).index == shares[i].index {
        Some(CryptoError::DuplicateShare)
    } else if !share_verifies(keys, shares[i].index, shares[i].share@, ciphertext) {
        Some(CryptoError::InvalidShare)
    } else {
        None
    }
}

/// Whether the share at `i` is the first that cannot be used, for the given reason.
pub open spec fn first_share_refusal(
    keys: Seq<u8>,
    ciphertext: Seq<u8>,
    shares: Seq<ReleasedFields>,
    i: int,
    error: CryptoError,
) -> bool {
    &&& 0 <= i < shares.len()
    &&& share_refusal(keys, ciphertext, shares, i) == Some(error)
    &&& forall|k: int|
        0 <= k < i ==> #[trigger] share_refusal(keys, ciphertext, shares, k) is None
}

/// Whether every share can be used to open a ciphertext.
pub open spec fn shares_usable(
    keys: Seq<u8>,
    ciphertext: Seq<u8>,
    shares: Seq<ReleasedFields>,
) -> bool {
    forall|i: int|
        0 <= i < shares.len() ==> #[trigger] share_refusal(keys, ciphertext, shares, i) is None
}

/// What the first two of a list of shares open a ciphertext to.
pub open spec fn opened_by(
    keys: Seq<u8>,
    ciphertext: Seq<u8>,
    shares: Seq<ReleasedFields>,
) -> Option<Seq<u8>> {
    opened(
        keys,
        shares[0].index,
        shares[0].share@,
        shares[1].index,
        shares[1].share@,
        ciphertext,
    )
}

/// Whether a byte string is the wire form of a signed order.
pub open spec fn is_signed_intent(bytes: Seq<u8>) -> bool {
    bytes.len() == 192 && intent_error(bytes.take(128)) is None
}

/// What recovering an order from a ciphertext and shares gives: too few shares are refused first,
/// then the first share that cannot be used, then shares that open nothing, then a plaintext that
/// is no signed order.
pub open spec fn recovery(
    keys: Seq<u8>,
    ciphertext: Seq<u8>,
    shares: Seq<ReleasedFields>,
    outcome: Result<SignedIntentV1, CryptoError>,
) -> bool {
    if shares.len() < 2 {
        outcome == Err::<SignedIntentV1, _>(CryptoError::InsufficientShares)
    } else if !shares_usable(keys, ciphertext, shares) {
        outcome matches Err(error) && exists|i: int| #[trigger]
            first_share_refusal(keys, ciphertext, shares, i, error)
    } else {
        match opened_by(keys, ciphertext, shares) {
            None => outcome == Err::<SignedIntentV1, _>(CryptoError::InsufficientShares),
            Some(plaintext) => if is_signed_intent(plaintext) {
                outcome matches Ok(signed) && signed.wf() && plaintext == signed_intent_bytes(
                    signed@.0,
                    signed@.1,
                )
            } else {
                outcome == Err::<SignedIntentV1, _>(CryptoError::InvalidSignedIntent)
            },
        }
    }
}

/// Whether shares were released for one lock of one epoch, and for one ciphertext.
pub open spec fn shares_agree(shares: Seq<ReleasedFields>, ciphertext_hash: [u8; 32]) -> bool {
    forall|i: int|
        0 <= i < shares.len() ==> (#[trigger] shares[i]).epoch_account == shares[0].epoch_account
            && shares[i].lock_digest == shares[0].lock_digest && shares[i].ciphertext_hash
            == ciphertext_hash
}

/// What recovering the order of a submission gives.
pub open spec fn submission_recovery(
    keys: Seq<u8>,
    ciphertext: Seq<u8>,
    fields: Seq<ReleasedFields>,
    outcome: Result<SignedIntentV1, CryptoError>,
) -> bool {
    if fields.len() == 0 {
        outcome == Err::<SignedIntentV1, _>(CryptoError::InsufficientShares)
    } else if !shares_agree(fields, sha256(ciphertext)) {
        outcome == Err::<SignedIntentV1, _>(CryptoError::InvalidShare)
    } else if !is_encrypted_intent(ciphertext) {
        outcome == Err::<SignedIntentV1, _>(CryptoError::InvalidCiphertext)
    } else {
        recovery(keys, ciphertext, fields, outcome)
    }
}

/// The public keys of an epoch: a key set of which any two shares open a ciphertext.
#[derive(PartialEq, Eq)]
pub struct EpochPublicKeys {
    encoded: Vec<u8>,
}

impl View for EpochPublicKeys {
    type V = Seq<u8>;

    closed spec fn view(&self) -> Seq<u8> {
        self.encoded@
    }
}

impl Clone for EpochPublicKeys {
    fn clone(&self) -> (copy: Self)
        ensures
            copy@ == self@,
    {
        let encoded = copy_range(self.encoded.as_slice(), 0, self.encoded.len());
        assert(encoded@ =~= self.encoded@);
        proof {
            use_type_invariant(self);
        }
        EpochPublicKeys { encoded }
    }
}

impl EpochPublicKeys {
    /// The bytes encode a key set of the threshold of an epoch, and are its encoding.
    #[verifier::type_invariant]
    spec fn is_key_set(&self) -> bool {
        self.encoded@.len() == KEY_SET_LEN && key_set(self.encoded@) == Some(
            (self.encoded@, SHARE_THRESHOLD as usize),
        )
    }

    /// The keys have the width of a key set of two coefficients.
    pub open spec fn wf(&self) -> bool {
        self@.len() == KEY_SET_LEN
    }

    /// The wire form.
    pub fn encode_wire(&self) -> (bytes: Vec<u8>)
        ensures
            bytes@ == self@,
    {
        let bytes = copy_range(self.encoded.as_slice(), 0, self.encoded.len());
        assert(bytes@ =~= self.encoded@);
        bytes
    }

    /// Reads a wire form; anything but a key set of threshold one is refused.
    pub fn decode_wire(encoded: &[u8]) -> (keys: Result<Self, CryptoError>)
        ensures
            match keys {
                Ok(keys) => keys.wf() && encoded@.len() == KEY_SET_LEN && key_set(encoded@) == Some(
                    (keys@, 1usize),
                ),
                Err(error) => error == CryptoError::InvalidShare && (encoded@.len() != KEY_SET_LEN
                    || !(key_set(encoded@) matches Some((_, threshold)) && threshold == 1)),
            },
    {
        if encoded.len() != KEY_SET_LEN {
            return Err(CryptoError::InvalidShare);
        }
        match decode_key_set(encoded) {
            Some((again, threshold)) => if threshold == 1 {
                Ok(EpochPublicKeys { encoded: again })
            } else {
                Err(CryptoError::InvalidShare)
            },
            None => Err(CryptoError::InvalidShare),
        }
    }

    /// What the keys commit a batch to.
    pub fn commitment_leaf(&self) -> (leaf: Vec<u8>)
        ensures
            leaf@ == keys_leaf(self@),
    {
        let mut leaf: Vec<u8> = Vec::new();
        append(&mut leaf, "KAGEB_EPOCH_KEY_SET_V1\0".as_bytes());
        append(&mut leaf, self.encoded.as_slice());
        leaf
    }

    /// Whether a secret share belongs to these keys.
    pub fn matches_share(&self, share: &KeyperSecretShare) -> (matches: bool)
        ensures
            matches == (key_share(self@, share.position()) is Some && key_share(
                self@,
                share.position(),
            ) == share_public(share.secret()@)),
    {
        match (
            public_key_share(self.encoded.as_slice(), share.index),
            public_share_of(&share.secret),
        ) {
            (Some(a), Some(b)) => same_array(&a, &b),
            _ => false,
        }
    }

    /// Encrypts a signed order. The ciphertext is drawn at random; whatever it is, any two shares of
    /// the dealer of these keys open it to the order.
    pub fn encrypt(&self, intent: &SignedIntentV1) -> (encrypted: Result<
        EncryptedIntentV1,
        CryptoError,
    >)
        ensures
            encrypted matches Ok(encrypted) && is_encrypted_intent(encrypted@) && opens_to(
                self@,
                encrypted@,
                signed_intent_bytes(intent@.0, intent@.1),
            ),
    {
        proof {
            use_type_invariant(self);
        }
        let encoded = intent.encode();
        match encrypt_to(self.encoded.as_slice(), encoded.as_slice()) {
            Some(ciphertext) => decode_ciphertext(ciphertext.as_slice()),
            None => Err(CryptoError::InvalidCiphertext),
        }
    }

    /// Encrypts a fixed-width signed-intent wire value before semantic validation.
    ///
    /// Admission is deliberately structural: malformed plaintext is discovered only
    /// after the frozen batch reveals.
    pub fn encrypt_encoded_intent(&self, encoded: &[u8]) -> (encrypted: Result<
        EncryptedIntentV1,
        CryptoError,
    >)
        ensures
            match encrypted {
                Ok(encrypted) => encoded@.len() == 192 && is_encrypted_intent(encrypted@)
                    && opens_to(self@, encrypted@, encoded@),
                Err(error) => encoded@.len() != 192 && error == CryptoError::InvalidSignedIntent,
            },
    {
        proof {
            use_type_invariant(self);
        }
        if encoded.len() != 192 {
            return Err(CryptoError::InvalidSignedIntent);
        }
        match encrypt_to(self.encoded.as_slice(), encoded) {
            Some(ciphertext) => decode_ciphertext(ciphertext.as_slice()),
            None => Err(CryptoError::InvalidCiphertext),
        }
    }

    /// Reads an encrypted order.
    pub fn decode_ciphertext(&self, encoded: &[u8]) -> (encrypted: Result<
        EncryptedIntentV1,
        CryptoError,
    >)
        ensures
            match encrypted {
                Ok(encrypted) => is_encrypted_intent(encoded@) && encrypted@ == encoded@,
                Err(error) => error == CryptoError::InvalidCiphertext && !is_encrypted_intent(
                    encoded@,
                ),
            },
    {
        decode_ciphertext(encoded)
    }

    /// Recovers the order of a submission. No share at all is refused first, then shares of another
    /// lock or ciphertext, then a ciphertext that is not valid.
    pub fn recover_submission(
        &self,
        submission: &EncryptedSubmissionV1,
        shares: &[&ReleasedShareV1],
    ) -> (outcome: Result<SignedIntentV1, CryptoError>)
        ensures
            submission_recovery(
                self@,
                submission@.ciphertext,
                released_fields(shares@),
                outcome,
            ),
    {
        let ghost fields = released_fields(shares@);
        let digest = digest_of(submission.ciphertext());
        if shares.len() == 0 {
            return Err(CryptoError::InsufficientShares);
        }
        let first = shares[0];
        assert(fields[0] == first@);
        let mut i: usize = 0;
        while i < shares.len()
            invariant
                fields == released_fields(shares@),
                digest == sha256(submission@.ciphertext),
                shares@.len() > 0,
                fields[0] == first@,
                i <= shares@.len(),
                forall|k: int|
                    0 <= k < i ==> (#[trigger] fields[k]).epoch_account == fields[0].epoch_account
                        && fields[k].lock_digest == fields[0].lock_digest
                        && fields[k].ciphertext_hash == digest,
            decreases shares@.len() - i,
        {
            let share = shares[i];
            assert(fields[i as int] == share@);
            if !same_array(&share.epoch_account, &first.epoch_account) || !same_array(
                &share.lock_digest,
                &first.lock_digest,
            ) || !same_array(&share.ciphertext_hash, &digest) {
                return Err(CryptoError::InvalidShare);
            }
            i += 1;
        }
        match decode_ciphertext(submission.ciphertext()) {
            Ok(encrypted) => self.recover(&encrypted, shares),
            Err(error) => Err(error),
        }
    }

    /// Recovers the order of an encrypted order.
    pub fn recover(&self, encrypted: &EncryptedIntentV1, shares: &[&ReleasedShareV1]) -> (outcome:
        Result<SignedIntentV1, CryptoError>)
        ensures
            recovery(self@, encrypted@, released_fields(shares@), outcome),
    {
        proof {
            use_type_invariant(self);
        }
        let ghost fields = released_fields(shares@);
        if shares.len() < 2 {
            return Err(CryptoError::InsufficientShares);
        }
        let mut i: usize = 0;
        while i < shares.len()
            invariant
                fields == released_fields(shares@),
                i <= shares@.len(),
                shares@.len() >= 2,
                forall|k: int|
                    0 <= k < i ==> #[trigger] share_refusal(self@, encrypted@, fields, k) is None,
            decreases shares@.len() - i,
        {
            let share = shares[i];
            assert(fields[i as int] == share@);
            let mut k: usize = 0;
            while k < i
                invariant
                    fields == released_fields(shares@),
                    k <= i < shares@.len(),
                    shares@.len() >= 2,
                    fields[i as int] == share@,
                    forall|m: int|
                        0 <= m < i ==> #[trigger] share_refusal(self@, encrypted@, fields, m) is None,
                    forall|m: int|
                        0 <= m < k ==> (#[trigger] fields[m]).index != fields[i as int].index,
                decreases i - k,
            {
                assert(fields[k as int] == shares@[k as int]@);
                if shares[k].index == share.index {
                    proof {
                        assert(fields[k as int].index == fields[i as int].index);
                        assert(first_share_refusal(
                            self@,
                            encrypted@,
                            fields,
                            i as int,
                            CryptoError::DuplicateShare,
                        ));
                    }
                    return Err(CryptoError::DuplicateShare);
                }
                k += 1;
            }
            if !verify_share(
                self.encoded.as_slice(),
                share.index,
                &share.share,
                encrypted.as_bytes(),
            ) {
                assert(first_share_refusal(
                    self@,
                    encrypted@,
                    fields,
                    i as int,
                    CryptoError::InvalidShare,
                ));
                return Err(CryptoError::InvalidShare);
            }
            i += 1;
        }
        assert(fields[0] == shares@[0]@ && fields[1] == shares@[1]@);
        let first = shares[0];
        let second = shares[1];
        match combine(
            self.encoded.as_slice(),
            first.index,
            &first.share,
            second.index,
            &second.share,
            encrypted.as_bytes(),
        ) {
            Some(plaintext) => {
                let signed = SignedIntentV1::decode(plaintext.as_slice());
                proof {
                    if let Ok(signed) = signed {
                        crate::crypto::law_signed_intent_round_trip(
                            signed@.0,
                            signed@.1,
                            signed@.0,
                            signed@.1,
                        );
                    }
                }
                signed
            },
            None => Err(CryptoError::InsufficientShares),
        }
    }
}

/// Deals the keys of an epoch from one seed.
pub struct EpochDealer {
    seed: [u8; 32],
    public: EpochPublicKeys,
}

impl EpochDealer {
    /// The seed of the dealer.
    pub closed spec fn seed(&self) -> [u8; 32] {
        self.seed
    }

    /// The public keys that it dealt.
    pub closed spec fn keys(&self) -> Seq<u8> {
        self.public@
    }

    /// The public keys are those of the seed.
    #[verifier::type_invariant]
    spec fn dealt(&self) -> bool {
        self.public@ == dealt_keys(self.seed@, SHARE_THRESHOLD)
    }

    /// The dealer of a seed.
    pub fn from_seed(seed: [u8; 32]) -> (dealer: Self)
        ensures
            dealer.seed() == seed,
            dealer.keys() == dealt_keys(seed@, SHARE_THRESHOLD),
    {
        let encoded = deal_keys(&seed, SHARE_THRESHOLD).unwrap();
        EpochDealer { seed, public: EpochPublicKeys { encoded } }
    }

    /// The dealer of a seed that the operating system drew. Nothing determines the seed, and drawing
    /// it can fail.
    pub fn random() -> (dealer: Result<Self, CryptoError>)
        ensures
            match dealer {
                Ok(dealer) => dealer.keys() == dealt_keys(dealer.seed()@, SHARE_THRESHOLD),
                Err(error) => error == CryptoError::EntropyUnavailable,
            },
    {
        match random_bytes::<32>() {
            Some(seed) => Ok(Self::from_seed(seed)),
            None => Err(CryptoError::EntropyUnavailable),
        }
    }

    pub fn public_keys(&self) -> (keys: &EpochPublicKeys)
        ensures
            keys@ == self.keys(),
    {
        &self.public
    }

    /// The secret share of an index, which belongs to the public keys.
    pub fn share(&self, epoch_account: [u8; 32], index: usize) -> (share: KeyperSecretShare)
        ensures
            share.secret() == dealt_share(self.seed()@, SHARE_THRESHOLD, index),
            share.epoch() == epoch_account,
            share.position() == index,
            key_share(self.keys(), index) is Some,
            key_share(self.keys(), index) == share_public(share.secret()@),
    {
        proof {
            use_type_invariant(self);
        }
        let secret = deal_share(&self.seed, SHARE_THRESHOLD, index).unwrap();
        KeyperSecretShare { epoch_account, index, secret }
    }
}

/// Any two shares of the dealer recover an encrypted order, whatever ciphertext was drawn for it.
pub proof fn law_any_two_shares_recover(
    keys: Seq<u8>,
    seed: Seq<u8>,
    ciphertext: Seq<u8>,
    intent: SignedIntentV1,
    shares: Seq<ReleasedFields>,
)
    requires
        seed.len() == 32,
        dealt_keys(seed, SHARE_THRESHOLD) == keys,
        opens_to(keys, ciphertext, signed_intent_bytes(intent@.0, intent@.1)),
        intent.wf(),
        shares.len() == 2,
        shares[0].index != shares[1].index,
        forall|k: int|
            0 <= k < 2 ==> decryption_share(
                dealt_share(seed, SHARE_THRESHOLD, (#[trigger] shares[k]).index)@,
                ciphertext,
            ) == Some(shares[k].share),
    ensures
        shares_usable(keys, ciphertext, shares),
        opened_by(keys, ciphertext, shares) == Some(signed_intent_bytes(intent@.0, intent@.1)),
        forall|outcome: Result<SignedIntentV1, CryptoError>| #[trigger]
            recovery(keys, ciphertext, shares, outcome) ==> (outcome matches Ok(signed) && signed@
                == intent@),
{
    let i = shares[0].index;
    let j = shares[1].index;
    let message = signed_intent_bytes(intent@.0, intent@.1);
    assert(decryption_share(dealt_share(seed, SHARE_THRESHOLD, i)@, ciphertext) == Some(
        shares[0].share,
    ));
    assert(decryption_share(dealt_share(seed, SHARE_THRESHOLD, j)@, ciphertext) == Some(
        shares[1].share,
    ));
    assert(pair_opens(keys, seed, i, j, ciphertext, message));
    assert(shares_usable(keys, ciphertext, shares)) by {
        assert forall|k: int| 0 <= k < shares.len() implies #[trigger] share_refusal(
            keys,
            ciphertext,
            shares,
            k,
        ) is None by {
            if k == 1 {
                assert(shares[0].index != shares[1].index);
            }
        }
    }
    crate::crypto::law_signed_intent_round_trip(intent@.0, intent@.1, intent@.0, intent@.1);
    assert forall|outcome: Result<SignedIntentV1, CryptoError>| #[trigger]
        recovery(keys, ciphertext, shares, outcome) implies (outcome matches Ok(signed) && signed@
        == intent@) by {
        if let Ok(signed) = outcome {
            crate::crypto::law_signed_intent_round_trip(
                intent@.0,
                intent@.1,
                signed@.0,
                signed@.1,
            );
        }
    }
}

/// A share that comes twice recovers nothing, and neither does one that does not match: whichever of
/// the two comes first is named.
pub proof fn law_bad_share_recovers_nothing(
    keys: Seq<u8>,
    ciphertext: Seq<u8>,
    shares: Seq<ReleasedFields>,
    i: int,
    outcome: Result<SignedIntentV1, CryptoError>,
)
    requires
        0 <= i < shares.len(),
        shares.len() >= 2,
        share_refusal(keys, ciphertext, shares, i) is Some,
        recovery(keys, ciphertext, shares, outcome),
    ensures
        outcome matches Err(error) && (error == CryptoError::DuplicateShare || error
            == CryptoError::InvalidShare),
        (forall|k: int| 0 <= k < i ==> #[trigger] share_refusal(keys, ciphertext, shares, k) is None)
            ==> outcome == Err::<SignedIntentV1, _>(
            share_refusal(keys, ciphertext, shares, i)->Some_0,
        ),
{
    assert(!shares_usable(keys, ciphertext, shares));
}

/// One share, or no share, recovers nothing.
pub proof fn law_one_share_recovers_nothing(
    keys: Seq<u8>,
    ciphertext: Seq<u8>,
    shares: Seq<ReleasedFields>,
    outcome: Result<SignedIntentV1, CryptoError>,
)
    requires
        shares.len() < 2,
        recovery(keys, ciphertext, shares, outcome),
    ensures
        outcome == Err::<SignedIntentV1, _>(CryptoError::InsufficientShares),
{
}

/// The order of a submission is recovered exactly where there are at least two shares, all of one epoch and
/// one lock and of this ciphertext, no two of one keyper, each matching the ciphertext, and the first two
/// open it to a signed order, which is the one that is recovered.
pub proof fn law_submission_recovery_is_exact(
    keys: Seq<u8>,
    ciphertext: Seq<u8>,
    shares: Seq<ReleasedFields>,
    outcome: Result<SignedIntentV1, CryptoError>,
)
    requires
        submission_recovery(keys, ciphertext, shares, outcome),
    ensures
        outcome is Ok <==> {
            &&& shares.len() >= 2
            &&& ciphertext.len() == 344
            &&& crate::threshold::ciphertext_valid(ciphertext)
            &&& forall|i: int|
                0 <= i < shares.len() ==> {
                    &&& (#[trigger] shares[i]).epoch_account == shares[0].epoch_account
                    &&& shares[i].lock_digest == shares[0].lock_digest
                    &&& shares[i].ciphertext_hash == sha256(ciphertext)
                    &&& share_verifies(keys, shares[i].index, shares[i].share@, ciphertext)
                }
            &&& forall|i: int, j: int|
                0 <= i < j < shares.len() ==> (#[trigger] shares[i]).index != (
                #[trigger] shares[j]).index
            &&& opened(
                keys,
                shares[0].index,
                shares[0].share@,
                shares[1].index,
                shares[1].share@,
                ciphertext,
            ) matches Some(plaintext) && plaintext.len() == 192 && intent_error(
                plaintext.take(128),
            ) is None
        },
        outcome matches Ok(signed) ==> opened(
            keys,
            shares[0].index,
            shares[0].share@,
            shares[1].index,
            shares[1].share@,
            ciphertext,
        ) == Some(signed_intent_bytes(signed@.0, signed@.1)),
{
    assert(shares_usable(keys, ciphertext, shares) <==> {
        &&& forall|i: int|
            0 <= i < shares.len() ==> share_verifies(
                keys,
                (#[trigger] shares[i]).index,
                shares[i].share@,
                ciphertext,
            )
        &&& forall|i: int, j: int|
            0 <= i < j < shares.len() ==> (#[trigger] shares[i]).index != (
            #[trigger] shares[j]).index
    }) by {
        if shares_usable(keys, ciphertext, shares) {
            assert forall|i: int| 0 <= i < shares.len() implies share_verifies(
                keys,
                (#[trigger] shares[i]).index,
                shares[i].share@,
                ciphertext,
            ) by {
                assert(share_refusal(keys, ciphertext, shares, i) is None);
            }
            assert forall|i: int, j: int| 0 <= i < j < shares.len() implies (
            #[trigger] shares[i]).index != (#[trigger] shares[j]).index by {
                assert(share_refusal(keys, ciphertext, shares, j) is None);
            }
        }
    }
}

} // verus!
