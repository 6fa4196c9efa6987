//! Public evidence of a settled epoch: what it says, its content address, and its text fields.

use crate::bytes::{append, same_array, same_bytes};
use crate::encodings::{pubkey_decoded, pubkey_from_text, same_text};
use crate::hash::{digest_of, sha256};
use crate::text::{decimal, hex, push_decimal, push_hex, push_text};
use vstd::prelude::*;
use vstd::string::*;
use vstd::utf8::encode_utf8;

verus! {

pub const DEVNET_GENESIS_HASH: &'static str = "EtWTRABZaYq6iMfeYKouRu166VU2xqa1wcaWoxPkrZBG";

pub const CANONICAL_REPOSITORY: &'static str = "https://github.com/gabchess/kageb.git";

pub const MAX_EVIDENCE_BYTES: usize = 65536;

pub const MAX_CHECKPOINT_BYTES: u64 = 2097152;

/// The address of the loader of upgradeable programs.
pub open spec fn loader_id() -> Seq<u8> {
    seq![
        2u8,
        168u8,
        246u8,
        145u8,
        78u8,
        136u8,
        161u8,
        176u8,
        226u8,
        16u8,
        21u8,
        62u8,
        247u8,
        99u8,
        174u8,
        43u8,
        0u8,
        194u8,
        185u8,
        61u8,
        22u8,
        193u8,
        36u8,
        210u8,
        192u8,
        83u8,
        122u8,
        16u8,
        4u8,
        128u8,
        0u8,
        0u8,
    ]
}

/// The address of the loader of upgradeable programs.
pub fn upgradeable_loader_id() -> (id: [u8; 32])
    ensures
        id@ == loader_id(),
{
    let id: [u8; 32] = [
        2u8,
        168u8,
        246u8,
        145u8,
        78u8,
        136u8,
        161u8,
        176u8,
        226u8,
        16u8,
        21u8,
        62u8,
        247u8,
        99u8,
        174u8,
        43u8,
        0u8,
        194u8,
        185u8,
        61u8,
        22u8,
        193u8,
        36u8,
        210u8,
        192u8,
        83u8,
        122u8,
        16u8,
        4u8,
        128u8,
        0u8,
        0u8,
    ];
    assert(id@ =~= loader_id());
    id
}

/// Why evidence is refused.
#[derive(Clone, Copy, Debug, PartialEq, Eq, Structural)]
pub enum DevnetEvidenceError {
    InvalidSchema,
    ContentHashMismatch,
    WrongLoader,
    WrongProgramDataOwner,
    WrongProgramDataAddress,
    MalformedLoaderMetadata,
    TruncatedExecutable,
    InvalidElf,
    NonZeroProgramDataTail,
    InvalidPublicField,
    WrongCluster,
    WrongProgram,
    DeploymentMismatch,
    MissingTransaction,
    UnfinalizedTransaction,
    FailedTransaction,
    TransactionSlotMismatch,
    RepeatedFundingAuthority,
    WrongAccountOwner,
    WrongState,
    WrongMemberCount,
    WrongKeyper,
    ChangedCommitment,
    WrongTokenDelta,
    UnexpectedInstruction,
    SecondSettlement,
    WrongGenesis,
    RpcUnavailable,
    InvalidTransaction,
    InvalidTokenAccount,
    InvalidChronology,
    RepeatedFundingSource,
}

/// The tools that built the program.
#[derive(Clone, Debug, PartialEq, Eq)]
pub struct EvidenceBuildToolchainV1 {
    pub solana_verify: String,
    pub build_image: String,
}

/// Where the program is deployed.
#[derive(Clone, Debug, PartialEq, Eq)]
pub struct EvidenceDeploymentV1 {
    pub program: String,
    pub loader: String,
    pub programdata: String,
    pub deployment_slot: u64,
    pub upgrade_authority: Option<String>,
    pub deployed_executable_sha256: String,
}

/// A transaction and its slot.
#[derive(Clone, Debug, PartialEq, Eq)]
pub struct EvidenceTransactionV1 {
    pub signature: String,
    pub slot: u64,
}

/// A transaction by which a participant funded the pool.
#[derive(Clone, Debug, PartialEq, Eq)]
pub struct FundingTransactionEvidenceV1 {
    pub authority: String,
    pub base_source: String,
    pub quote_source: String,
    pub transaction: EvidenceTransactionV1,
}

/// The transactions of an epoch.
#[derive(Clone, Debug, PartialEq, Eq)]
pub struct EvidenceTransactionsV1 {
    pub funding: [FundingTransactionEvidenceV1; 4],
    pub lock: EvidenceTransactionV1,
    pub settlement: EvidenceTransactionV1,
}

/// The accounts of an epoch.
#[derive(Clone, Debug, PartialEq, Eq)]
pub struct EvidenceAccountsV1 {
    pub fee_payer: String,
    pub operator: String,
    pub pool: String,
    pub epoch: String,
    pub vault_authority: String,
    pub base_mint: String,
    pub quote_mint: String,
    pub pool_base_vault: String,
    pub pool_quote_vault: String,
    pub venue_authority: String,
    pub venue_base_account: String,
    pub venue_quote_account: String,
    pub token_program: String,
}

/// The terms of an epoch.
#[derive(Clone, Debug, PartialEq, Eq)]
pub struct EvidenceConfigurationV1 {
    pub epoch_id: String,
    pub minimum_count: u32,
    pub member_count: u32,
    pub lock_threshold: u8,
    pub settlement_threshold: u8,
    pub keypers: [String; 3],
    pub base_lot_atoms: u64,
    pub quote_atoms_per_lot: u64,
}

/// What an epoch committed to.
#[derive(Clone, Debug, PartialEq, Eq)]
pub struct EvidenceCommitmentsV1 {
    pub configuration_hash: String,
    pub pre_balance_root: String,
    pub member_set: String,
    pub lock_digest: String,
    pub result: String,
    pub settlement_digest: String,
    pub local_transcript_sha256: String,
}

/// What the pool and the venue held before and after the settlement.
#[derive(Clone, Copy, Debug, PartialEq, Eq, Structural)]
pub struct EvidenceTokenBalancesV1 {
    pub pool_base_before: u64,
    pub pool_base_after: u64,
    pub pool_quote_before: u64,
    pub pool_quote_after: u64,
    pub venue_base_before: u64,
    pub venue_base_after: u64,
    pub venue_quote_before: u64,
    pub venue_quote_after: u64,
}

/// What a decoded instruction says.
pub struct InstructionFields {
    pub transaction: Seq<char>,
    pub position: u16,
    pub program: Seq<char>,
    pub kind: Seq<char>,
    pub digest: Option<Seq<char>>,
}

/// A decoded instruction of one of the transactions.
#[derive(Clone, Debug, PartialEq, Eq)]
pub struct DecodedInstructionEvidenceV1 {
    pub transaction: String,
    pub position: u16,
    pub program: String,
    pub kind: String,
    pub digest: Option<String>,
}

/// The characters of a text that may be absent.
pub open spec fn optional_text(text: Option<String>) -> Option<Seq<char>> {
    match text {
        Some(text) => Some(text@),
        None => None,
    }
}

impl View for DecodedInstructionEvidenceV1 {
    type V = InstructionFields;

    open spec fn view(&self) -> InstructionFields {
        InstructionFields {
            transaction: self.transaction@,
            position: self.position,
            program: self.program@,
            kind: self.kind@,
            digest: optional_text(self.digest),
        }
    }
}

/// What evidence says.
#[derive(Clone, Debug, PartialEq, Eq)]
pub struct DevnetEvidenceContentV1 {
    pub cluster: String,
    pub public_commit: String,
    pub build_toolchain: EvidenceBuildToolchainV1,
    pub checkpoint_artifact_len: usize,
    pub checkpoint_artifact_sha256: String,
    pub deployment: EvidenceDeploymentV1,
    pub transactions: EvidenceTransactionsV1,
    pub accounts: EvidenceAccountsV1,
    pub configuration: EvidenceConfigurationV1,
    pub commitments: EvidenceCommitmentsV1,
    pub token_balances: EvidenceTokenBalancesV1,
    pub decoded_allowlist: Vec<DecodedInstructionEvidenceV1>,
    pub explorer_links: Vec<String>,
}

/// Evidence with its content address.
#[derive(Clone, Debug, PartialEq, Eq)]
pub struct DevnetEvidenceBundleV1 {
    pub schema_version: u8,
    pub content: DevnetEvidenceContentV1,
    pub evidence_sha256: String,
}

/// The content address of evidence, given its encoding.
pub open spec fn content_address(encoded: Seq<u8>) -> Seq<char> {
    hex(sha256(encode_utf8("KAGEB_EVIDENCE_BUNDLE_V1\0"@) + encoded)@)
}

/// The lower-case hexadecimal of bytes.
pub fn hex_digest(bytes: &[u8]) -> (text: String)
    ensures
        text@ == hex(bytes@),
{
    let mut text = String::new();
    push_hex(&mut text, bytes);
    assert(text@ =~= hex(bytes@));
    text
}

/// The content address of evidence, given its encoding.
pub fn evidence_content_hash(encoded: &[u8]) -> (address: String)
    ensures
        address@ == content_address(encoded@),
{
    let mut bytes: Vec<u8> = Vec::new();
    append(&mut bytes, "KAGEB_EVIDENCE_BUNDLE_V1\0".as_bytes());
    append(&mut bytes, encoded);
    hex_digest(digest_of(bytes.as_slice()).as_slice())
}

impl DevnetEvidenceBundleV1 {
    /// Whether the content address is that of an encoding, under the schema that is known.
    pub open spec fn is_sealed(&self, encoded: Seq<u8>) -> bool {
        self.schema_version == 1 && self.evidence_sha256@ == content_address(encoded)
    }

    /// Seals evidence by the content address of its encoding.
    pub fn seal(content: DevnetEvidenceContentV1, encoded: &[u8]) -> (bundle: Self)
        ensures
            bundle.content == content,
            bundle.is_sealed(encoded@),
    {
        DevnetEvidenceBundleV1 {
            schema_version: 1,
            content,
            evidence_sha256: evidence_content_hash(encoded),
        }
    }

    /// Checks the content address against the encoding of the content.
    pub fn verify_content_hash(&self, encoded: &[u8]) -> (outcome: Result<(), DevnetEvidenceError>)
        ensures
            outcome == (if self.is_sealed(encoded@) {
                Ok::<(), _>(())
            } else {
                Err(DevnetEvidenceError::ContentHashMismatch)
            }),
    {
        let address = evidence_content_hash(encoded);
        if self.schema_version != 1 || address != self.evidence_sha256 {
            return Err(DevnetEvidenceError::ContentHashMismatch);
        }
        Ok(())
    }
}

/// Whether two byte strings share a digest as evidence only where they are one.
pub open spec fn no_collision(a: Seq<u8>, b: Seq<u8>) -> bool {
    sha256(encode_utf8("KAGEB_EVIDENCE_BUNDLE_V1\0"@) + a) == sha256(
        encode_utf8("KAGEB_EVIDENCE_BUNDLE_V1\0"@) + b,
    ) ==> a == b
}

/// Sealed evidence cannot be changed under its content address: whatever encoder is used, evidence
/// that keeps the address and has another schema, or content with another encoding, is refused,
/// unless the two encodings collide.
pub proof fn law_changed_evidence_is_refused(
    encode: spec_fn(DevnetEvidenceContentV1) -> Seq<u8>,
    sealed: DevnetEvidenceBundleV1,
    changed: DevnetEvidenceBundleV1,
)
    requires
        sealed.is_sealed(encode(sealed.content)),
        changed.evidence_sha256@ == sealed.evidence_sha256@,
        changed.schema_version != 1 || encode(changed.content) != encode(sealed.content),
        no_collision(encode(sealed.content), encode(changed.content)),
    ensures
        !changed.is_sealed(encode(changed.content)),
{
    if changed.is_sealed(encode(changed.content)) {
        let x = sha256(encode_utf8("KAGEB_EVIDENCE_BUNDLE_V1\0"@) + encode(sealed.content));
        let y = sha256(encode_utf8("KAGEB_EVIDENCE_BUNDLE_V1\0"@) + encode(changed.content));
        lemma_hex_injective(x@, y@);
        assert(x =~= y);
    }
}

/// Evidence with another encoding has another content address, unless two byte strings share a
/// digest.
pub proof fn law_evidence_is_content_addressed(
    bundle: DevnetEvidenceBundleV1,
    a: Seq<u8>,
    b: Seq<u8>,
)
    requires
        bundle.is_sealed(a),
        bundle.is_sealed(b),
    ensures
        sha256(encode_utf8("KAGEB_EVIDENCE_BUNDLE_V1\0"@) + a) == sha256(
            encode_utf8("KAGEB_EVIDENCE_BUNDLE_V1\0"@) + b,
        ),
{
    let x = sha256(encode_utf8("KAGEB_EVIDENCE_BUNDLE_V1\0"@) + a);
    let y = sha256(encode_utf8("KAGEB_EVIDENCE_BUNDLE_V1\0"@) + b);
    lemma_hex_injective(x@, y@);
    assert(x =~= y);
}

proof fn lemma_hex_injective(a: Seq<u8>, b: Seq<u8>)
    requires
        hex(a) == hex(b),
    ensures
        a == b,
    decreases a.len(),
{
    lemma_hex_len(a);
    lemma_hex_len(b);
    if a.len() == 0 {
        assert(a =~= b);
    } else {
        let x = hex(a);
        let y = hex(b);
        let n = x.len();
        let u = a.last();
        let v = b.last();
        assert(x[n - 1] == crate::text::digit((u % 16) as nat));
        assert(y[n - 1] == crate::text::digit((v % 16) as nat));
        assert(x[n - 2] == crate::text::digit((u / 16) as nat));
        assert(y[n - 2] == crate::text::digit((v / 16) as nat));
        lemma_digit_injective((u % 16) as nat, (v % 16) as nat);
        lemma_digit_injective((u / 16) as nat, (v / 16) as nat);
        assert(u == v);
        assert(x.take(n - 2) =~= hex(a.drop_last()));
        assert(y.take(n - 2) =~= hex(b.drop_last()));
        lemma_hex_injective(a.drop_last(), b.drop_last());
        assert(a =~= a.drop_last().push(u));
        assert(b =~= b.drop_last().push(v));
    }
}

proof fn lemma_hex_len(bytes: Seq<u8>)
    ensures
        hex(bytes).len() == 2 * bytes.len(),
    decreases bytes.len(),
{
    if bytes.len() > 0 {
        lemma_hex_len(bytes.drop_last());
    }
}

proof fn lemma_digit_injective(a: nat, b: nat)
    requires
        a < 16,
        b < 16,
        crate::text::digit(a) == crate::text::digit(b),
    ensures
        a == b,
{
    assert((48 + a) as char as u32 == 48 + a || a >= 10);
    assert((87 + a) as char as u32 == 87 + a || a < 10);
    assert((48 + b) as char as u32 == 48 + b || b >= 10);
    assert((87 + b) as char as u32 == 87 + b || b < 10);
}

/// The value of a hexadecimal digit, in either case, where a byte is one.
pub open spec fn nibble(byte: u8) -> Option<u8> {
    if 48 <= byte <= 57 {
        Some((byte - 48) as u8)
    } else if 97 <= byte <= 102 {
        Some((byte - 87) as u8)
    } else if 65 <= byte <= 70 {
        Some((byte - 55) as u8)
    } else {
        None
    }
}

/// The value of a hexadecimal digit, in either case.
pub fn hex_nibble(byte: u8) -> (value: Result<u8, DevnetEvidenceError>)
    ensures
        value == (match nibble(byte) {
            Some(value) => Ok::<u8, DevnetEvidenceError>(value),
            None => Err(DevnetEvidenceError::InvalidPublicField),
        }),
{
    if 48 <= byte && byte <= 57 {
        Ok(byte - 48)
    } else if 97 <= byte && byte <= 102 {
        Ok(byte - 87)
    } else if 65 <= byte && byte <= 70 {
        Ok(byte - 55)
    } else {
        Err(DevnetEvidenceError::InvalidPublicField)
    }
}

/// Whether every byte from a position on is a hexadecimal digit.
pub open spec fn hex_from(bytes: Seq<u8>, at: int) -> bool {
    forall|i: int| at <= i < bytes.len() ==> nibble(#[trigger] bytes[i]) is Some
}

/// Whether every byte from a position on is a hexadecimal digit.
pub fn is_hex_from(bytes: &[u8], at: usize) -> (is: bool)
    requires
        at <= bytes@.len(),
    ensures
        is == hex_from(bytes@, at as int),
{
    let mut i: usize = at;
    while i < bytes.len()
        invariant
            at <= i <= bytes@.len(),
            forall|k: int| at <= k < i ==> nibble(#[trigger] bytes@[k]) is Some,
        decreases bytes@.len() - i,
    {
        if hex_nibble(bytes[i]).is_err() {
            assert(nibble(bytes@[i as int]) is None);
            return false;
        }
        i += 1;
    }
    true
}

/// The bytes of a digest that text holds in hexadecimal, where it holds one.
pub open spec fn digest_named(text: Seq<char>) -> Option<Seq<u8>> {
    let bytes = encode_utf8(text);
    if bytes.len() == 64 && hex_from(bytes, 0) {
        Some(
            Seq::new(
                32,
                |i: int|
                    (nibble(bytes[2 * i]).unwrap() * 16 + nibble(bytes[2 * i + 1]).unwrap()) as u8,
            ),
        )
    } else {
        None
    }
}

proof fn lemma_hex_at(bytes: Seq<u8>, i: int)
    requires
        0 <= i < bytes.len(),
    ensures
        hex(bytes).len() == 2 * bytes.len(),
        hex(bytes)[2 * i] == crate::text::digit((bytes[i] / 16) as nat),
        hex(bytes)[2 * i + 1] == crate::text::digit((bytes[i] % 16) as nat),
    decreases bytes.len(),
{
    lemma_hex_len(bytes);
    lemma_hex_len(bytes.drop_last());
    if i < bytes.len() - 1 {
        lemma_hex_at(bytes.drop_last(), i);
    }
}

/// The hexadecimal of a digest reads as that digest.
pub proof fn law_digest_text_round_trip(digest: Seq<u8>)
    requires
        digest.len() == 32,
    ensures
        digest_named(hex(digest)) == Some(digest),
{
    let text = hex(digest);
    lemma_hex_len(digest);
    assert forall|k: int| 0 <= k < text.len() implies '0' <= #[trigger] text[k] <= '9' || 'a'
        <= text[k] <= 'f' by {
        lemma_hex_at(digest, k / 2);
        assert(k == 2 * (k / 2) || k == 2 * (k / 2) + 1);
    }
    assert(vstd::utf8::is_ascii_chars(text));
    vstd::utf8::is_ascii_chars_encode_utf8(text);
    let bytes = encode_utf8(text);
    assert forall|i: int| 0 <= i < bytes.len() implies nibble(#[trigger] bytes[i]) is Some by {
        assert(bytes[i] == text[i] as u8);
    }
    assert forall|i: int| 0 <= i < 32 implies digest[i] == #[trigger] digest_named(text).unwrap()[i] by {
        lemma_hex_at(digest, i);
        assert(bytes[2 * i] == text[2 * i] as u8);
        assert(bytes[2 * i + 1] == text[2 * i + 1] as u8);
        assert(nibble(bytes[2 * i]) == Some((digest[i] / 16) as u8));
        assert(nibble(bytes[2 * i + 1]) == Some((digest[i] % 16) as u8));
    }
    assert(digest_named(text).unwrap() =~= digest);
}

/// A byte, in lower case where it is one of the six letters that are digits.
pub open spec fn lower_digit(byte: u8) -> u8 {
    if 65 <= byte <= 70 {
        (byte + 32) as u8
    } else {
        byte
    }
}

/// Text that reads as a digest is the digest's hexadecimal, but for the case of its letters: its bytes
/// in lower case are the bytes that the digest is written with.
pub proof fn law_read_digest_writes_the_text(text: Seq<char>)
    requires
        digest_named(text) is Some,
    ensures
        encode_utf8(hex(digest_named(text).unwrap())) == encode_utf8(text).map_values(
            |byte: u8| lower_digit(byte),
        ),
{
    let digest = digest_named(text).unwrap();
    let given = encode_utf8(text);
    let again = hex(digest);
    lemma_hex_len(digest);
    assert forall|k: int| 0 <= k < 64 implies '0' <= #[trigger] again[k] <= '9' || 'a' <= again[k]
        <= 'f' by {
        lemma_hex_at(digest, k / 2);
        assert(k == 2 * (k / 2) || k == 2 * (k / 2) + 1);
    }
    assert(vstd::utf8::is_ascii_chars(again));
    vstd::utf8::is_ascii_chars_encode_utf8(again);
    let written = encode_utf8(again);
    assert forall|k: int| 0 <= k < 64 implies written[k] == lower_digit(#[trigger] given[k]) by {
        let i = k / 2;
        lemma_hex_at(digest, i);
        assert(written[k] == again[k] as u8);
        assert(nibble(given[2 * i]) is Some && nibble(given[2 * i + 1]) is Some);
        let high = nibble(given[2 * i]).unwrap();
        let low = nibble(given[2 * i + 1]).unwrap();
        assert(digest[i] == high * 16 + low);
        assert(digest[i] / 16 == high && digest[i] % 16 == low);
        assert(k == 2 * i || k == 2 * i + 1);
    }
    assert(written =~= given.map_values(|byte: u8| lower_digit(byte)));
}

/// The digest that text holds in hexadecimal.
pub fn parse_digest(text: &str) -> (digest: Result<[u8; 32], DevnetEvidenceError>)
    ensures
        match digest {
            Ok(digest) => digest_named(text@) == Some(digest@),
            Err(error) => error == DevnetEvidenceError::InvalidPublicField && digest_named(
                text@,
            ) is None,
        },
{
    let bytes = text.as_bytes();
    if bytes.len() != 64 || !is_hex_from(bytes, 0) {
        return Err(DevnetEvidenceError::InvalidPublicField);
    }
    let mut digest: [u8; 32] = [0u8; 32];
    let mut i: usize = 0;
    while i < 32
        invariant
            i <= 32,
            bytes@ == encode_utf8(text@),
            bytes@.len() == 64,
            hex_from(bytes@, 0),
            forall|k: int|
                0 <= k < i ==> #[trigger] digest@[k] == (nibble(bytes@[2 * k]).unwrap() * 16
                    + nibble(bytes@[2 * k + 1]).unwrap()) as u8,
        decreases 32 - i,
    {
        assert(nibble(bytes@[2 * i as int]) is Some);
        assert(nibble(bytes@[2 * i + 1]) is Some);
        match (hex_nibble(bytes[2 * i]), hex_nibble(bytes[2 * i + 1])) {
            (Ok(high), Ok(low)) => {
                digest[i] = high * 16 + low;
            },
            _ => {
                return Err(DevnetEvidenceError::InvalidPublicField);
            },
        }
        i += 1;
    }
    assert(digest@ =~= digest_named(text@).unwrap());
    Ok(digest)
}

/// The public key that text names.
pub fn parse_pubkey(text: &str) -> (key: Result<[u8; 32], DevnetEvidenceError>)
    ensures
        key == (match pubkey_decoded(text@) {
            Some(key) => Ok::<[u8; 32], DevnetEvidenceError>(key),
            None => Err(DevnetEvidenceError::InvalidPublicField),
        }),
{
    match pubkey_from_text(text) {
        Some(key) => Ok(key),
        None => Err(DevnetEvidenceError::InvalidPublicField),
    }
}

/// Why text does not name an expected key, where it does not: it names none, or it names another,
/// which is refused for the given reason.
pub open spec fn key_refusal(text: Seq<char>, expected: Seq<u8>, wrong: DevnetEvidenceError) -> Option<
    DevnetEvidenceError,
> {
    match pubkey_decoded(text) {
        None => Some(DevnetEvidenceError::InvalidPublicField),
        Some(key) => if key@ != expected {
            Some(wrong)
        } else {
            None
        },
    }
}

/// Why text does not hold an expected digest, where it does not.
pub open spec fn digest_refusal(
    text: Seq<char>,
    expected: Seq<u8>,
    wrong: DevnetEvidenceError,
) -> Option<DevnetEvidenceError> {
    match digest_named(text) {
        None => Some(DevnetEvidenceError::InvalidPublicField),
        Some(digest) => if digest != expected {
            Some(wrong)
        } else {
            None
        },
    }
}

/// The first of two refusals.
pub open spec fn either(
    first: Option<DevnetEvidenceError>,
    second: Option<DevnetEvidenceError>,
) -> Option<DevnetEvidenceError> {
    if first is Some {
        first
    } else {
        second
    }
}

/// The first refusal of the first `n` in a row.
pub open spec fn first_refusal(refusals: spec_fn(int) -> Option<DevnetEvidenceError>, n: nat) -> Option<
    DevnetEvidenceError,
>
    decreases n,
{
    if n == 0 {
        None
    } else {
        either(first_refusal(refusals, (n - 1) as nat), refusals(n - 1))
    }
}

/// A refusal with none before it is the first of any longer row.
pub proof fn lemma_first_refusal(
    refusals: spec_fn(int) -> Option<DevnetEvidenceError>,
    i: nat,
    n: nat,
)
    requires
        i < n,
        first_refusal(refusals, i) is None,
        refusals(i as int) is Some,
    ensures
        first_refusal(refusals, n) == refusals(i as int),
    decreases n,
{
    if n > i + 1 {
        lemma_first_refusal(refusals, i, (n - 1) as nat);
    }
}

/// A refusal where a condition does not hold.
pub open spec fn unless(condition: bool, wrong: DevnetEvidenceError) -> Option<
    DevnetEvidenceError,
> {
    if condition {
        None
    } else {
        Some(wrong)
    }
}

/// What a refusal makes of an outcome.
pub open spec fn outcome_of(refusal: Option<DevnetEvidenceError>) -> Result<
    (),
    DevnetEvidenceError,
> {
    match refusal {
        Some(error) => Err(error),
        None => Ok(()),
    }
}

/// Checks that text names an expected key.
pub fn check_key(text: &str, expected: &[u8; 32], wrong: DevnetEvidenceError) -> (outcome: Result<
    (),
    DevnetEvidenceError,
>)
    ensures
        outcome == outcome_of(key_refusal(text@, expected@, wrong)),
{
    match pubkey_from_text(text) {
        Some(key) => if same_array(&key, expected) {
            Ok(())
        } else {
            Err(wrong)
        },
        None => Err(DevnetEvidenceError::InvalidPublicField),
    }
}

/// Checks that text holds an expected digest.
pub fn check_digest(text: &str, expected: &[u8; 32], wrong: DevnetEvidenceError) -> (outcome: Result<
    (),
    DevnetEvidenceError,
>)
    ensures
        outcome == outcome_of(digest_refusal(text@, expected@, wrong)),
{
    match parse_digest(text) {
        Ok(digest) => if same_array(&digest, expected) {
            Ok(())
        } else {
            Err(wrong)
        },
        Err(error) => Err(error),
    }
}

/// Whether text is forty hexadecimal digits.
pub open spec fn commit_named(text: Seq<char>) -> bool {
    encode_utf8(text).len() == 40 && hex_from(encode_utf8(text), 0)
}

/// Whether text is forty hexadecimal digits.
pub fn is_commit(text: &str) -> (is: bool)
    ensures
        is == commit_named(text@),
{
    let bytes = text.as_bytes();
    bytes.len() == 40 && is_hex_from(bytes, 0)
}

/// Whether every byte is a visible ASCII character or a blank.
pub open spec fn printable(bytes: Seq<u8>) -> bool {
    forall|i: int| 0 <= i < bytes.len() ==> 32 <= #[trigger] bytes[i] <= 126
}

/// Whether text identifies a tool: one to 128 visible characters or blanks.
pub open spec fn identity_named(text: Seq<char>) -> bool {
    0 < encode_utf8(text).len() <= 128 && printable(encode_utf8(text))
}

/// Whether text identifies a tool.
pub fn is_identity(text: &str) -> (is: bool)
    ensures
        is == identity_named(text@),
{
    let bytes = text.as_bytes();
    if bytes.len() == 0 || bytes.len() > 128 {
        return false;
    }
    let mut i: usize = 0;
    while i < bytes.len()
        invariant
            i <= bytes@.len(),
            bytes@ == encode_utf8(text@),
            forall|k: int| 0 <= k < i ==> 32 <= #[trigger] bytes@[k] <= 126,
        decreases bytes@.len() - i,
    {
        if bytes[i] < 32 || bytes[i] > 126 {
            assert(!(32 <= bytes@[i as int] <= 126));
            return false;
        }
        i += 1;
    }
    true
}

/// Text as a literal, in quotes and with what cannot stand there escaped.
pub uninterp spec fn quoted_text(text: Seq<char>) -> Seq<char>;

/// Whether text is printable, and has no quote mark and no backslash.
pub open spec fn is_plain(text: Seq<char>) -> bool {
    forall|i: int|
        0 <= i < text.len() ==> 32 <= #[trigger] text[i] as u32 <= 126 && text[i] != '"' && text[i]
            != '\'' && text[i] != '\\'
}

/// `<str as std::fmt::Debug>::fmt`, through `format!` with `{:?}`: the literal depends on the text,
/// and printable text in which there is nothing to escape comes back between quote marks.
#[verifier::external_body]
pub(crate) fn quote(text: &str) -> (literal: String)
    ensures
        literal@ == quoted_text(text@),
        is_plain(text@) ==> literal@ == seq!['"'] + text@ + seq!['"'],
{
    format!("{:?}", text)
}

/// Text as a literal: where there is nothing to escape, the text between quote marks.
pub open spec fn literal_of(text: Seq<char>) -> Seq<char> {
    if is_plain(text) {
        seq!['"'] + text + seq!['"']
    } else {
        quoted_text(text)
    }
}

/// The sentence that names a changed tool.
pub open spec fn changed_tool(field: Seq<char>, expected: Seq<char>, observed: Seq<char>) -> Seq<
    char,
> {
    "canonical checkpoint "@ + field + " differs from evidence: expected "@ + literal_of(expected)
        + ", observed "@ + literal_of(observed)
}

fn changed_tool_text(field: &str, expected: &str, observed: &str) -> (text: String)
    ensures
        text@ == changed_tool(field@, expected@, observed@),
{
    let mut text = String::new();
    let expected_literal = quote(expected);
    let observed_literal = quote(observed);
    push_text(&mut text, "canonical checkpoint ");
    push_text(&mut text, field);
    push_text(&mut text, " differs from evidence: expected ");
    push_text(&mut text, expected_literal.as_str());
    push_text(&mut text, ", observed ");
    push_text(&mut text, observed_literal.as_str());
    assert(text@ =~= changed_tool(field@, expected@, observed@));
    text
}

/// Names the first tool that differs, where one does.
pub fn build_toolchain_mismatch(
    expected: &EvidenceBuildToolchainV1,
    observed: &EvidenceBuildToolchainV1,
) -> (mismatch: Option<String>)
    ensures
        match mismatch {
            Some(text) => if expected.solana_verify@ != observed.solana_verify@ {
                text@ == changed_tool(
                    "solana_verify"@,
                    expected.solana_verify@,
                    observed.solana_verify@,
                )
            } else {
                expected.build_image@ != observed.build_image@ && text@ == changed_tool(
                    "build_image"@,
                    expected.build_image@,
                    observed.build_image@,
                )
            },
            None => expected.solana_verify@ == observed.solana_verify@ && expected.build_image@
                == observed.build_image@,
        },
{
    if !same_text(expected.solana_verify.as_str(), observed.solana_verify.as_str()) {
        return Some(
            changed_tool_text(
                "solana_verify",
                expected.solana_verify.as_str(),
                observed.solana_verify.as_str(),
            ),
        );
    }
    if !same_text(expected.build_image.as_str(), observed.build_image.as_str()) {
        return Some(
            changed_tool_text(
                "build_image",
                expected.build_image.as_str(),
                observed.build_image.as_str(),
            ),
        );
    }
    None
}

/// The sentence that names a changed version of the build tool.
pub fn solana_verify_mismatch(expected: &str, observed: &str) -> (mismatch: Option<String>)
    ensures
        match mismatch {
            Some(text) => expected@ != observed@ && text@
                == "solana-verify identity differs from checkpoint config: expected "@
                + literal_of(expected@) + ", observed "@ + literal_of(observed@),
            None => expected@ == observed@,
        },
{
    if same_text(expected, observed) {
        return None;
    }
    let expected_literal = quote(expected);
    let observed_literal = quote(observed);
    let mut text = String::new();
    push_text(&mut text, "solana-verify identity differs from checkpoint config: expected ");
    push_text(&mut text, expected_literal.as_str());
    push_text(&mut text, ", observed ");
    push_text(&mut text, observed_literal.as_str());
    assert(text@ =~= "solana-verify identity differs from checkpoint config: expected "@
        + literal_of(expected@) + ", observed "@ + literal_of(observed@));
    Some(text)
}

/// Whether an artifact differs from what evidence says of it, and the sentence that says so.
pub fn checkpoint_mismatch(content: &DevnetEvidenceContentV1, artifact: &[u8]) -> (mismatch: Option<
    String,
>)
    ensures
        match mismatch {
            Some(text) => (artifact@.len() != content.checkpoint_artifact_len || hex(
                sha256(artifact@)@,
            ) != content.checkpoint_artifact_sha256@) && text@
                == "canonical checkpoint artifact differs from evidence: expected len "@ + decimal(
                content.checkpoint_artifact_len as nat,
            ) + " sha256 "@ + content.checkpoint_artifact_sha256@ + ", observed len "@ + decimal(
                artifact@.len(),
            ) + " sha256 "@ + hex(sha256(artifact@)@),
            None => artifact@.len() == content.checkpoint_artifact_len && hex(sha256(artifact@)@)
                == content.checkpoint_artifact_sha256@,
        },
{
    let observed = hex_digest(digest_of(artifact).as_slice());
    if artifact.len() == content.checkpoint_artifact_len && same_text(
        observed.as_str(),
        content.checkpoint_artifact_sha256.as_str(),
    ) {
        return None;
    }
    let mut text = String::new();
    push_text(&mut text, "canonical checkpoint artifact differs from evidence: expected len ");
    push_decimal(&mut text, content.checkpoint_artifact_len as u64);
    push_text(&mut text, " sha256 ");
    push_text(&mut text, content.checkpoint_artifact_sha256.as_str());
    push_text(&mut text, ", observed len ");
    push_decimal(&mut text, artifact.len() as u64);
    push_text(&mut text, " sha256 ");
    push_text(&mut text, observed.as_str());
    assert(text@ =~= "canonical checkpoint artifact differs from evidence: expected len "@
        + decimal(content.checkpoint_artifact_len as nat) + " sha256 "@
        + content.checkpoint_artifact_sha256@ + ", observed len "@ + decimal(artifact@.len())
        + " sha256 "@ + hex(sha256(artifact@)@));
    Some(text)
}

/// The line that reports verified evidence.
pub fn verified_text(bundle: &DevnetEvidenceBundleV1) -> (text: String)
    ensures
        text@ == "VERIFIED: evidence "@ + bundle.evidence_sha256@ + " settlement "@
            + bundle.content.transactions.settlement.signature@ + "\n"@,
{
    let mut text = String::new();
    push_text(&mut text, "VERIFIED: evidence ");
    push_text(&mut text, bundle.evidence_sha256.as_str());
    push_text(&mut text, " settlement ");
    push_text(&mut text, bundle.content.transactions.settlement.signature.as_str());
    push_text(&mut text, "\n");
    assert(text@ =~= "VERIFIED: evidence "@ + bundle.evidence_sha256@ + " settlement "@
        + bundle.content.transactions.settlement.signature@ + "\n"@);
    text
}

/// Whether bytes are an executable, by their first four.
pub open spec fn is_elf(bytes: Seq<u8>) -> bool {
    bytes.len() >= 4 && bytes[0] == 0x7f && bytes[1] == 69 && bytes[2] == 76 && bytes[3] == 70
}

/// Whether bytes are an executable, by their first four.
pub fn starts_as_elf(bytes: &[u8]) -> (is: bool)
    ensures
        is == is_elf(bytes@),
{
    bytes.len() >= 4 && bytes[0] == 0x7f && bytes[1] == 69 && bytes[2] == 76 && bytes[3] == 70
}

/// Whether a byte string starts with another.
pub open spec fn starts_with(bytes: Seq<u8>, prefix: Seq<u8>) -> bool {
    bytes.len() >= prefix.len() && bytes.take(prefix.len() as int) == prefix
}

/// Whether every byte behind the last colon is a hexadecimal digit.
pub open spec fn hex_behind_colon(bytes: Seq<u8>) -> bool {
    exists|k: int| 0 <= k < bytes.len() && #[trigger] bytes[k] == 58 && hex_from(bytes, k + 1)
}

fn is_hex_behind_colon(bytes: &[u8]) -> (is: bool)
    ensures
        is == hex_behind_colon(bytes@),
{
    let mut i: usize = bytes.len();
    while i > 0
        invariant
            i <= bytes@.len(),
            forall|k: int| i <= k < bytes@.len() ==> nibble(#[trigger] bytes@[k]) is Some,
        decreases i,
    {
        let byte: u8 = bytes[i - 1];
        if byte == 58 {
            assert(hex_from(bytes@, (i - 1) + 1));
            assert(bytes@[i - 1] == 58);
            return true;
        }
        if hex_nibble(byte).is_err() {
            proof {
                assert forall|k: int| 0 <= k < bytes@.len() && #[trigger] bytes@[k]
                    == 58 implies !hex_from(bytes@, k + 1) by {
                    if hex_from(bytes@, k + 1) {
                        if k < i - 1 {
                            assert(nibble(bytes@[i - 1]) is Some);
                        } else {
                            assert(nibble(bytes@[k]) is Some);
                        }
                    }
                }
            }
            return false;
        }
        i -= 1;
    }
    proof {
        assert forall|k: int| 0 <= k < bytes@.len() implies #[trigger] bytes@[k] != 58 by {
            assert(nibble(bytes@[k]) is Some);
        }
    }
    false
}

/// Whether a build configuration is one that is known: the schema, the tool, and an image that is
/// pinned by its digest.
pub open spec fn build_config_known(
    schema_version: u8,
    solana_verify: Seq<char>,
    build_image: Seq<char>,
) -> bool {
    let prefix = encode_utf8("solanafoundation/solana-verifiable-build@sha256:"@);
    let image = encode_utf8(build_image);
    &&& schema_version == 1
    &&& solana_verify == "solana-verify 0.5.1"@
    &&& starts_with(image, prefix)
    &&& image.len() == prefix.len() + 64
    &&& hex_behind_colon(image)
}

/// Reads a build configuration.
pub fn read_build_config(schema_version: u8, solana_verify: String, build_image: String) -> (tools:
    Option<EvidenceBuildToolchainV1>)
    ensures
        match tools {
            Some(tools) => build_config_known(schema_version, solana_verify@, build_image@)
                && tools.solana_verify@ == solana_verify@ && tools.build_image@ == build_image@,
            None => !build_config_known(schema_version, solana_verify@, build_image@),
        },
{
    let prefix = "solanafoundation/solana-verifiable-build@sha256:".as_bytes();
    let image = build_image.as_str().as_bytes();
    if schema_version != 1 || !same_text(solana_verify.as_str(), "solana-verify 0.5.1")
        || image.len() < prefix.len() || image.len() - prefix.len() != 64 {
        return None;
    }
    let head = vstd::slice::slice_subrange(image, 0, prefix.len());
    assert(head@ =~= image@.take(prefix@.len() as int));
    if !same_bytes(head, prefix) || !is_hex_behind_colon(image) {
        return None;
    }
    Some(EvidenceBuildToolchainV1 { solana_verify, build_image })
}

/// Checks that a response has as many parts as were asked for.
pub fn validate_rpc_response_len(actual: usize, expected: usize) -> (outcome: Result<
    (),
    DevnetEvidenceError,
>)
    ensures
        outcome == outcome_of(unless(actual == expected, DevnetEvidenceError::RpcUnavailable)),
{
    if actual != expected {
        return Err(DevnetEvidenceError::RpcUnavailable);
    }
    Ok(())
}

/// A tool chain is a known one only where it is of the first schema, built by the known version, in an
/// image of the known name with a digest of sixty-four characters behind it.
pub proof fn law_known_toolchains_are_exact(
    schema_version: u8,
    solana_verify: Seq<char>,
    build_image: Seq<char>,
)
    requires
        build_config_known(schema_version, solana_verify, build_image),
    ensures
        schema_version == 1,
        solana_verify == "solana-verify 0.5.1"@,
        ({
            let name = encode_utf8("solanafoundation/solana-verifiable-build@sha256:"@);
            let image = encode_utf8(build_image);
            &&& image.len() == name.len() + 64
            &&& image.take(name.len() as int) == name
            &&& exists|k: int|
                {
                    &&& 0 <= k < image.len()
                    &&& #[trigger] image[k] == 58
                    &&& forall|i: int|
                        k < i < image.len() ==> 48 <= #[trigger] image[i] <= 57 || 65 <= image[i]
                            <= 70 || 97 <= image[i] <= 102
                }
        }),
{
    let image = encode_utf8(build_image);
    let k = choose|k: int|
        0 <= k < image.len() && #[trigger] image[k] == 58 && hex_from(image, k + 1);
    assert forall|i: int| k < i < image.len() implies 48 <= #[trigger] image[i] <= 57 || 65
        <= image[i] <= 70 || 97 <= image[i] <= 102 by {
        assert(nibble(image[i]) is Some);
    }
    assert(image[k] == 58);
}

/// A tool that changed is told with what was expected and what was seen, plain text between quotes.
pub proof fn law_changed_tools_are_told(
    field: Seq<char>,
    expected: Seq<char>,
    observed: Seq<char>,
)
    requires
        is_plain(expected),
        is_plain(observed),
    ensures
        changed_tool(field, expected, observed) == "canonical checkpoint "@ + field
            + " differs from evidence: expected "@ + (seq!['"'] + expected + seq!['"'])
            + ", observed "@ + (seq!['"'] + observed + seq!['"']),
{
}

/// A digit stands for its number, in either case of its letters.
pub proof fn law_digits_stand_for_their_numbers(byte: u8)
    ensures
        48 <= byte <= 57 ==> nibble(byte) == Some((byte - 48) as u8),
        97 <= byte <= 102 ==> nibble(byte) == Some((10 + byte - 97) as u8),
        65 <= byte <= 70 ==> nibble(byte) == Some((10 + byte - 65) as u8),
        !(48 <= byte <= 57) && !(97 <= byte <= 102) && !(65 <= byte <= 70) ==> nibble(byte) is None,
{
}

/// A digest is named by the hexadecimal of its bytes, the higher half of each first.
pub proof fn law_named_digests_are_read_byte_by_byte(text: Seq<char>, i: int)
    requires
        0 <= i < 32,
    ensures
        ({
            let bytes = encode_utf8(text);
            &&& digest_named(text) is Some <==> bytes.len() == 64 && (forall|k: int|
                0 <= k < 64 ==> nibble(#[trigger] bytes[k]) is Some)
            &&& digest_named(text) matches Some(digest) ==> digest.len() == 32 && digest[i]
                == nibble(bytes[2 * i]).unwrap() * 16 + nibble(bytes[2 * i + 1]).unwrap()
        }),
{
    let bytes = encode_utf8(text);
    if bytes.len() == 64 && hex_from(bytes, 0) {
        assert(nibble(bytes[2 * i]) is Some && nibble(bytes[2 * i + 1]) is Some);
        assert(nibble(bytes[2 * i]).unwrap() <= 15 && nibble(bytes[2 * i + 1]).unwrap() <= 15);
    }
}

} // verus!
