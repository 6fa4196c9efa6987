//! What may be printed of values that hold more than may be printed.

use crate::crypto::{EncryptedSubmissionV1, FundedAuthorizationV1, SignedIntentV1};
use crate::lock::{LockApprovalV1, LockPackageV1};
use crate::request::{SettlementApprovalV1, SettlementRequestV1};
use crate::settlement::{DecryptionEvidenceV1, SettlementBalanceV1};
use crate::shares::{EpochPublicKeys, ReleasedShareV1};
use crate::snapshot::{BalanceRecordV1, SignedBalanceSnapshotV1};
use crate::text::copy_text;
use vstd::prelude::*;
use vstd::string::*;

verus! {

impl BalanceRecordV1 {
    /// The name of the value, and nothing of what it holds.
    pub fn redacted(&self) -> (text: String)
        ensures
            text@ == "BalanceRecordV1(..redacted)"@,
    {
        copy_text("BalanceRecordV1(..redacted)")
    }
}

impl SignedBalanceSnapshotV1 {
    /// The name of the value, and nothing of what it holds.
    pub fn redacted(&self) -> (text: String)
        ensures
            text@ == "SignedBalanceSnapshotV1(..redacted)"@,
    {
        copy_text("SignedBalanceSnapshotV1(..redacted)")
    }
}

impl LockPackageV1 {
    /// The name of the value, and nothing of what it holds.
    pub fn redacted(&self) -> (text: String)
        ensures
            text@ == "LockPackageV1(..redacted)"@,
    {
        copy_text("LockPackageV1(..redacted)")
    }
}

impl LockApprovalV1 {
    /// The name of the value, and nothing of what it holds.
    pub fn redacted(&self) -> (text: String)
        ensures
            text@ == "LockApprovalV1(..redacted)"@,
    {
        copy_text("LockApprovalV1(..redacted)")
    }
}

impl FundedAuthorizationV1 {
    /// The name of the value, and nothing of what it holds.
    pub fn redacted(&self) -> (text: String)
        ensures
            text@ == "FundedAuthorizationV1(..redacted)"@,
    {
        copy_text("FundedAuthorizationV1(..redacted)")
    }
}

impl SignedIntentV1 {
    /// The name of the value, and nothing of what it holds.
    pub fn redacted(&self) -> (text: String)
        ensures
            text@ == "SignedIntentV1(..redacted)"@,
    {
        copy_text("SignedIntentV1(..redacted)")
    }
}

impl EncryptedSubmissionV1 {
    /// The name of the value, and nothing of what it holds.
    pub fn redacted(&self) -> (text: String)
        ensures
            text@ == "EncryptedSubmissionV1(..redacted)"@,
    {
        copy_text("EncryptedSubmissionV1(..redacted)")
    }
}

impl EpochPublicKeys {
    /// The name of the value, and nothing of what it holds.
    pub fn redacted(&self) -> (text: String)
        ensures
            text@ == "EpochPublicKeys(..public)"@,
    {
        copy_text("EpochPublicKeys(..public)")
    }
}

impl ReleasedShareV1 {
    /// The name of the value, and nothing of what it holds.
    pub fn redacted(&self) -> (text: String)
        ensures
            text@ == "ReleasedShareV1(..redacted)"@,
    {
        copy_text("ReleasedShareV1(..redacted)")
    }
}

impl SettlementBalanceV1 {
    /// The name of the value, and nothing of what it holds.
    pub fn redacted(&self) -> (text: String)
        ensures
            text@ == "SettlementBalanceV1(..redacted)"@,
    {
        copy_text("SettlementBalanceV1(..redacted)")
    }
}

impl DecryptionEvidenceV1 {
    /// The name of the value, and nothing of what it holds.
    pub fn redacted(&self) -> (text: String)
        ensures
            text@ == "DecryptionEvidenceV1(..redacted)"@,
    {
        copy_text("DecryptionEvidenceV1(..redacted)")
    }
}

impl SettlementRequestV1 {
    /// The name of the value, and nothing of what it holds.
    pub fn redacted(&self) -> (text: String)
        ensures
            text@ == "SettlementRequestV1(..redacted)"@,
    {
        copy_text("SettlementRequestV1(..redacted)")
    }
}

impl SettlementApprovalV1 {
    /// The name of the value, and nothing of what it holds.
    pub fn redacted(&self) -> (text: String)
        ensures
            text@ == "SettlementApprovalV1(..redacted)"@,
    {
        copy_text("SettlementApprovalV1(..redacted)")
    }
}

} // verus!
