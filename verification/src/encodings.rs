//! Text encodings of bytes, keys and signatures.

use base64::Engine;
use std::str::FromStr;
use vstd::prelude::*;
use vstd::string::*;
use vstd::utf8::encode_utf8_decode_utf8;

use crate::bytes::same_bytes;

verus! {

/// What text in base58 decodes to.
pub uninterp spec fn base58_decoded(text: Seq<char>) -> Option<Seq<u8>>;

/// Bytes in base58.
pub uninterp spec fn base58_text(bytes: Seq<u8>) -> Seq<char>;

/// What text in standard base64 decodes to.
pub uninterp spec fn base64_decoded(text: Seq<char>) -> Option<Seq<u8>>;

/// Bytes in standard base64.
pub uninterp spec fn base64_text(bytes: Seq<u8>) -> Seq<char>;

/// The public key that text names.
pub uninterp spec fn pubkey_decoded(text: Seq<char>) -> Option<[u8; 32]>;

/// The text that names a public key.
pub uninterp spec fn pubkey_text(key: Seq<u8>) -> Seq<char>;

/// The transaction signature that text names.
pub uninterp spec fn signature_decoded(text: Seq<char>) -> Option<[u8; 64]>;

/// The address that a program with one seed derives.
pub uninterp spec fn derived_address(seed: Seq<u8>, program: Seq<u8>) -> Option<[u8; 32]>;

/// `bs58::decode` with `into_vec`: what text decodes to depends on the text.
#[verifier::external_body]
pub(crate) fn base58_decode(text: &str) -> (bytes: Option<Vec<u8>>)
    ensures
        match bytes {
            Some(bytes) => base58_decoded(text@) == Some(bytes@),
            None => base58_decoded(text@) is None,
        },
{
    bs58::decode(text).into_vec().ok()
}

/// `bs58::encode` with `into_string`: the text depends on the bytes, and decodes to them.
#[verifier::external_body]
pub(crate) fn base58_encode(bytes: &[u8]) -> (text: String)
    ensures
        text@ == base58_text(bytes@),
        base58_decoded(text@) == Some(bytes@),
{
    bs58::encode(bytes).into_string()
}

/// `base64::engine::general_purpose::STANDARD.decode`: what text decodes to depends on the text.
#[verifier::external_body]
pub(crate) fn base64_decode(text: &str) -> (bytes: Option<Vec<u8>>)
    ensures
        match bytes {
            Some(bytes) => base64_decoded(text@) == Some(bytes@),
            None => base64_decoded(text@) is None,
        },
{
    base64::engine::general_purpose::STANDARD.decode(text).ok()
}

/// `base64::engine::general_purpose::STANDARD.encode`: the text depends on the bytes, and decodes to
/// them.
#[verifier::external_body]
pub(crate) fn base64_encode(bytes: &[u8]) -> (text: String)
    ensures
        text@ == base64_text(bytes@),
        base64_decoded(text@) == Some(bytes@),
{
    base64::engine::general_purpose::STANDARD.encode(bytes)
}

/// `solana_program::pubkey::Pubkey::from_str`: the key depends on the text.
#[verifier::external_body]
pub(crate) fn pubkey_from_text(text: &str) -> (key: Option<[u8; 32]>)
    ensures
        key == pubkey_decoded(text@),
{
    solana_program::pubkey::Pubkey::from_str(text).ok().map(|key| key.to_bytes())
}

/// `solana_program::pubkey::Pubkey::to_string`: the text depends on the key, and names it.
#[verifier::external_body]
pub(crate) fn pubkey_to_text(key: &[u8; 32]) -> (text: String)
    ensures
        text@ == pubkey_text(key@),
        pubkey_decoded(text@) == Some(*key),
{
    solana_program::pubkey::Pubkey::new_from_array(*key).to_string()
}

/// `solana_signature::Signature::from_str`: the signature depends on the text.
#[verifier::external_body]
pub(crate) fn signature_from_text(text: &str) -> (signature: Option<[u8; 64]>)
    ensures
        signature == signature_decoded(text@),
{
    solana_signature::Signature::from_str(text).ok().map(|signature| signature.into())
}

/// `solana_program::pubkey::Pubkey::try_find_program_address` with one seed: the address depends on
/// the seed and the program.
#[verifier::external_body]
pub(crate) fn derive_address(seed: &[u8; 32], program: &[u8; 32]) -> (address: Option<[u8; 32]>)
    ensures
        address == derived_address(seed@, program@),
{
    let program = solana_program::pubkey::Pubkey::new_from_array(*program);
    solana_program::pubkey::Pubkey::try_find_program_address(&[seed], &program)
        .map(|(address, _)| address.to_bytes())
}

/// Whether two texts are the same.
pub fn same_text(a: &str, b: &str) -> (same: bool)
    ensures
        same == (a@ == b@),
{
    proof {
        encode_utf8_decode_utf8(a@);
        encode_utf8_decode_utf8(b@);
    }
    same_bytes(a.as_bytes(), b.as_bytes())
}

} // verus!
