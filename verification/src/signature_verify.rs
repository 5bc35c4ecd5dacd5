//! The values that signature verification in the GraphQL API works with.

use vstd::prelude::*;

verus! {

/// The intent scope for signature verification.
#[derive(Debug, Clone, Copy, PartialEq, Eq, Structural)]
pub enum IntentScope {
    /// The bytes are to be parsed as transaction data bytes.
    TransactionData,
    /// The bytes are to be parsed as a personal message.
    PersonalMessage,
}

/// The result of signature verification.
#[derive(Debug, Clone, Copy, PartialEq, Eq, Structural)]
pub struct SignatureVerifyResult {
    /// Whether the signature was verified successfully.
    pub success: Option<bool>,
}

/// Why signature verification did not produce a result.
#[derive(Debug)]
pub enum Error {
    /// The signature did not verify; the text says why.
    VerificationFailed(String),
    /// An argument was malformed; the text says which and how.
    InvalidArgument(String),
}

} // verus!
