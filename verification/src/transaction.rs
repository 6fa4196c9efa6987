//! Transactions as a cluster gives them, and what they decode to.

use crate::bytes::same_array;
use crate::codec::views;
use crate::observer::{ApprovalRead, KagebRead};
use solana_transaction_status_client_types::{EncodedTransaction, TransactionBinaryEncoding};
use vstd::prelude::*;
use vstd::string::*;

verus! {

/// What an instruction of a transaction says.
pub struct InstructionParts {
    pub program_id_index: u8,
    pub accounts: Seq<u8>,
    pub data: Seq<u8>,
}

/// What a transaction says, as far as it is read.
pub struct TransactionParts {
    pub signatures: Seq<[u8; 64]>,
    pub required_signatures: u8,
    pub keys: Seq<[u8; 32]>,
    pub instructions: Seq<InstructionParts>,
}

/// An instruction of a transaction.
#[derive(Debug, PartialEq, Eq)]
pub struct InstructionRead {
    pub program_id_index: u8,
    pub accounts: Vec<u8>,
    pub data: Vec<u8>,
}

impl View for InstructionRead {
    type V = InstructionParts;

    open spec fn view(&self) -> InstructionParts {
        InstructionParts {
            program_id_index: self.program_id_index,
            accounts: self.accounts@,
            data: self.data@,
        }
    }
}

/// A transaction, as far as it is read: its signatures, how many of its keys had to sign, its own
/// keys, and its instructions.
#[derive(Debug, PartialEq, Eq)]
pub struct TransactionRead {
    pub signatures: Vec<[u8; 64]>,
    pub required_signatures: u8,
    pub keys: Vec<[u8; 32]>,
    pub instructions: Vec<InstructionRead>,
}

impl View for TransactionRead {
    type V = TransactionParts;

    open spec fn view(&self) -> TransactionParts {
        TransactionParts {
            signatures: self.signatures@,
            required_signatures: self.required_signatures,
            keys: self.keys@,
            instructions: views(self.instructions@),
        }
    }
}

/// The transaction that text decodes to, in base58 or else in base64, where it decodes to one.
pub uninterp spec fn transaction_decoded(text: Seq<char>, base58: bool) -> Option<TransactionParts>;

/// Whether text, in base58 or else in base64, decodes to a transaction whose signatures all verify.
pub uninterp spec fn transaction_verifies(text: Seq<char>, base58: bool) -> bool;

/// `solana_transaction_status_client_types::EncodedTransaction::decode` of text in one of the two
/// encodings, as far as the signatures, the header, the keys and the instructions of what it gives:
/// all of them depend on the text and its encoding.
#[verifier::external_body]
fn decode_transaction(text: &str, base58: bool) -> (read: Option<TransactionRead>)
    ensures
        match read {
            Some(read) => transaction_decoded(text@, base58) == Some(read@),
            None => transaction_decoded(text@, base58) is None,
        },
{
    let encoding = match base58 {
        true => TransactionBinaryEncoding::Base58,
        false => TransactionBinaryEncoding::Base64,
    };
    let decoded = EncodedTransaction::Binary(text.to_owned(), encoding).decode()?;
    let (signatures, message) = (decoded.signatures, decoded.message);
    let parts = message.instructions().iter().cloned().map(|part| InstructionRead {
        program_id_index: part.program_id_index, accounts: part.accounts, data: part.data });
    Some(TransactionRead {
        signatures: signatures.into_iter().map(|signature| signature.into()).collect(),
        required_signatures: message.header().num_required_signatures,
        keys: message.static_account_keys().iter().map(|key| key.to_bytes()).collect(),
        instructions: parts.collect() })
}

/// `solana_transaction::versioned::VersionedTransaction::verify_and_hash_message` on what
/// `solana_transaction_status_client_types::EncodedTransaction::decode` gives: the answer depends on
/// the text and its encoding, and what does not decode does not verify.
#[verifier::external_body]
fn verify_transaction(text: &str, base58: bool) -> (verified: bool)
    ensures
        verified == transaction_verifies(text@, base58),
{
    let encoding = match base58 {
        true => TransactionBinaryEncoding::Base58,
        false => TransactionBinaryEncoding::Base64,
    };
    match EncodedTransaction::Binary(text.to_owned(), encoding).decode() {
        Some(transaction) => transaction.verify_and_hash_message().is_ok(),
        None => false,
    }
}

/// The text of a transaction, in base58 or else in base64.
#[derive(Clone, Debug, PartialEq, Eq)]
pub struct TransactionText {
    pub text: String,
    pub base58: bool,
}

impl TransactionText {
    /// What the text decodes to, where it decodes.
    pub open spec fn parts(&self) -> Option<TransactionParts> {
        transaction_decoded(self.text@, self.base58)
    }

    /// Decodes the text.
    pub fn decode(&self) -> (read: Option<TransactionRead>)
        ensures
            match read {
                Some(read) => self.parts() == Some(read@),
                None => self.parts() is None,
            },
    {
        decode_transaction(self.text.as_str(), self.base58)
    }

    /// Whether a transaction has an expected first signature, and all its signatures verify.
    pub open spec fn is_queried(&self, expected: [u8; 64]) -> bool {
        match self.parts() {
            Some(parts) => has_first_signature(parts.signatures, expected) && transaction_verifies(
                self.text@,
                self.base58,
            ),
            None => false,
        }
    }

    /// Decodes the text of a transaction that was asked for by its first signature, and checks that
    /// it is that transaction, and that it is signed.
    pub fn queried(&self, expected: &[u8; 64]) -> (read: Option<TransactionRead>)
        ensures
            match read {
                Some(read) => self.parts() == Some(read@) && self.is_queried(*expected),
                None => !self.is_queried(*expected),
            },
    {
        match self.decode() {
            Some(read) => if is_first_signature(read.signatures.as_slice(), expected)
                && verify_transaction(self.text.as_str(), self.base58) {
                Some(read)
            } else {
                None
            },
            None => None,
        }
    }
}

/// Whether signatures begin with an expected one.
pub open spec fn has_first_signature(signatures: Seq<[u8; 64]>, expected: [u8; 64]) -> bool {
    signatures.len() > 0 && signatures[0] == expected
}

/// Whether signatures begin with an expected one.
pub fn is_first_signature(signatures: &[[u8; 64]], expected: &[u8; 64]) -> (is: bool)
    ensures
        is == has_first_signature(signatures@, *expected),
{
    signatures.len() > 0 && same_array(&signatures[0], expected)
}

/// What the on-chain program's own code makes of an instruction: `approval` is what its strict
/// reader makes of it as a signature check, `kageb` what its decoder makes of its data, and `settled`
/// its digest of the payload that settlement terms complete, where it digested one.
#[derive(Clone, Copy, Debug, PartialEq, Eq)]
pub struct ProgramRead {
    pub approval: Option<ApprovalRead>,
    pub kageb: Option<KagebRead>,
    pub settled: Option<[u8; 32]>,
}

/// What the program's code makes of the instruction at `i`; of one behind the list, nothing.
pub open spec fn read_at(reads: Seq<ProgramRead>, i: int) -> ProgramRead {
    if 0 <= i < reads.len() {
        reads[i]
    } else {
        ProgramRead { approval: None, kageb: None, settled: None }
    }
}

/// An instruction that another one made, with its data in base58.
pub struct InnerRead {
    pub program_id_index: u8,
    pub accounts: Vec<u8>,
    pub data: String,
}

/// The instructions that one instruction made; one that is not compiled is none.
pub struct ObservedInner {
    pub index: u8,
    pub instructions: Vec<Option<InnerRead>>,
}

/// What a decoded transaction says, with what the program's code makes of its instructions, and the
/// instructions that they made.
pub struct ObservedParts {
    pub keys: Seq<[u8; 32]>,
    pub required_signatures: u8,
    pub instructions: Seq<InstructionParts>,
    pub reads: Seq<ProgramRead>,
    pub inner: Seq<ObservedInner>,
}

/// A decoded transaction, with what the program's code makes of its instructions, and the
/// instructions that they made.
pub struct ObservedTransaction<'a> {
    pub transaction: TransactionRead,
    pub reads: &'a [ProgramRead],
    pub inner: &'a [ObservedInner],
}

impl<'a> View for ObservedTransaction<'a> {
    type V = ObservedParts;

    open spec fn view(&self) -> ObservedParts {
        observed(self.transaction@, self.reads@, self.inner@)
    }
}

impl<'a> ObservedTransaction<'a> {
    /// The keys of the transaction itself.
    pub fn keys(&self) -> (keys: &[[u8; 32]])
        ensures
            keys@ == self@.keys,
    {
        self.transaction.keys.as_slice()
    }

    /// How many instructions the transaction has.
    pub fn total(&self) -> (total: usize)
        ensures
            total == self@.instructions.len(),
    {
        self.transaction.instructions.len()
    }

    /// The instruction at `i`.
    pub fn instruction(&self, i: usize) -> (instruction: &InstructionRead)
        requires
            i < self@.instructions.len(),
        ensures
            instruction@ == self@.instructions[i as int],
    {
        &self.transaction.instructions[i]
    }

    /// What the program's code makes of the instruction at `i`.
    pub fn read(&self, i: usize) -> (read: ProgramRead)
        ensures
            read == read_at(self@.reads, i as int),
    {
        if i < self.reads.len() {
            self.reads[i]
        } else {
            ProgramRead { approval: None, kageb: None, settled: None }
        }
    }
}

/// A decoded transaction with what is read beside it.
pub open spec fn observed(
    parts: TransactionParts,
    reads: Seq<ProgramRead>,
    inner: Seq<ObservedInner>,
) -> ObservedParts {
    ObservedParts {
        keys: parts.keys,
        required_signatures: parts.required_signatures,
        instructions: parts.instructions,
        reads,
        inner,
    }
}

/// Whether a transaction failed: it reports an error, or a status that is one.
pub fn has_failed(reports_error: bool, status_is_error: bool) -> (failed: bool)
    ensures
        failed == (reports_error || status_is_error),
{
    reports_error || status_is_error
}

/// Whether a transaction is final: no confirmation is counted any more.
pub fn is_final(confirmations: Option<usize>) -> (is: bool)
    ensures
        is == (confirmations is None),
{
    confirmations.is_none()
}

/// What a transaction reports of a token account before or after it.
#[derive(Clone, Debug, PartialEq, Eq)]
pub struct TokenBalanceRead {
    pub account_index: u8,
    pub mint: String,
    pub owner: Option<String>,
    pub program: Option<String>,
    pub decimals: u8,
    pub amount: String,
}

/// A fetched transaction: whether it has a status and failed; its text, where it was given as text;
/// what the program's code makes of its instructions; the instructions that they made; and the token
/// accounts before and after it.
pub struct FetchedTransaction {
    pub has_status: bool,
    pub failed: bool,
    pub encoded: Option<TransactionText>,
    pub reads: Vec<ProgramRead>,
    pub inner: Vec<ObservedInner>,
    pub before: Option<Vec<TokenBalanceRead>>,
    pub after: Option<Vec<TokenBalanceRead>>,
}

impl FetchedTransaction {
    /// What the transaction decodes to, with what was read beside it, where it decodes.
    pub open spec fn observed(&self) -> Option<ObservedParts> {
        match self.encoded {
            None => None,
            Some(encoded) => match encoded.parts() {
                None => None,
                Some(parts) => Some(observed(parts, self.reads@, self.inner@)),
            },
        }
    }

    /// Decodes the transaction.
    pub fn observe(&self) -> (transaction: Option<ObservedTransaction<'_>>)
        ensures
            match transaction {
                Some(transaction) => self.observed() == Some(transaction@),
                None => self.observed() is None,
            },
    {
        match &self.encoded {
            None => None,
            Some(encoded) => match encoded.decode() {
                None => None,
                Some(transaction) => Some(
                    ObservedTransaction {
                        transaction,
                        reads: self.reads.as_slice(),
                        inner: self.inner.as_slice(),
                    },
                ),
            },
        }
    }
}

/// A text is the transaction that was asked for exactly where it decodes, its first signature is the one
/// that was asked for, and its signatures stand.
pub proof fn law_queried_transactions_are_exact(
    text: TransactionText,
    expected: [u8; 64],
    parts: TransactionParts,
)
    requires
        text.parts() == Some(parts),
    ensures
        text.is_queried(expected) <==> {
            &&& parts.signatures.len() > 0
            &&& parts.signatures[0] == expected
            &&& transaction_verifies(text.text@, text.base58)
        },
{
}

/// What an observer sees of a fetched transaction is what its text decodes to, with what the program's
/// code made of its instructions and the calls that they made.
pub proof fn law_observed_transactions_are_the_decoded_ones(
    fetched: FetchedTransaction,
    seen: ObservedParts,
)
    ensures
        fetched.observed() == Some(seen) <==> {
            &&& fetched.encoded matches Some(text) && (text.parts() matches Some(parts)
                && seen.keys == parts.keys && seen.required_signatures == parts.required_signatures
                && seen.instructions == parts.instructions)
            &&& seen.reads == fetched.reads@
            &&& seen.inner == fetched.inner@
        },
{
}

} // verus!
