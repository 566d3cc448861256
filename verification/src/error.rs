//! The failures that the library reports.

use vstd::prelude::*;
use crate::text::{decimal_digits, decimal_text};

verus! {

/// What went wrong.
#[derive(Clone, Copy, Debug, PartialEq, Eq, Hash, Structural)]
pub enum ErrorKind {
    /// A lock asks for zero signatures.
    InvalidThreshold,
    /// A lock asks for more signatures than it names keys.
    ThresholdExceedsKeys,
    /// A lock names the same key twice.
    DuplicatePublicKey,
    /// The notes spent and the outputs created differ in total value.
    BalanceMismatch,
    /// Fewer keys have signed a spend than its lock asks for.
    InsufficientSignatures,
    /// A spend holds a signature by a key that its lock does not name.
    InvalidSigner,
    /// The spend index is not below the number of spends.
    IndexOutOfBounds,
    /// The key that submits a signature is not named by the spend's lock.
    UnauthorizedSigner,
}

/// A failure, with the index of the spend it was found in where the whole
/// transaction was being examined.
#[derive(Clone, Copy, Debug, PartialEq, Eq, Hash)]
pub struct TxError {
    pub kind: ErrorKind,
    pub spend_index: Option<usize>,
}

/// The sentence that describes a kind of failure.
pub open spec fn kind_text(kind: ErrorKind) -> Seq<char> {
    match kind {
        ErrorKind::InvalidThreshold => "Threshold must be >= 1"@,
        ErrorKind::ThresholdExceedsKeys => "Threshold exceeds number of pubkeys"@,
        ErrorKind::DuplicatePublicKey => "Duplicate public key in multisig set"@,
        ErrorKind::BalanceMismatch => "Input value does not equal output value"@,
        ErrorKind::InsufficientSignatures => "Insufficient signatures"@,
        ErrorKind::InvalidSigner => "Invalid signer"@,
        ErrorKind::IndexOutOfBounds => "Spend index out of bounds"@,
        ErrorKind::UnauthorizedSigner => "Public key not allowed for this spend"@,
    }
}

/// The message of a failure. One that belongs to a spend names the spend.
pub open spec fn message_text(error: TxError) -> Seq<char> {
    match error.spend_index {
        None => kind_text(error.kind),
        Some(i) => {
            let spend = "Spend "@ + decimal_digits(i as nat);
            match error.kind {
                ErrorKind::InsufficientSignatures => spend + " has insufficient signatures"@,
                ErrorKind::InvalidSigner => spend + " has invalid signer"@,
                _ => spend + ": "@ + kind_text(error.kind),
            }
        },
    }
}

impl ErrorKind {
    /// The sentence that describes this kind of failure.
    pub fn text(self) -> (s: &'static str)
        ensures
            s@ == kind_text(self),
    {
        match self {
            ErrorKind::InvalidThreshold => "Threshold must be >= 1",
            ErrorKind::ThresholdExceedsKeys => "Threshold exceeds number of pubkeys",
            ErrorKind::DuplicatePublicKey => "Duplicate public key in multisig set",
            ErrorKind::BalanceMismatch => "Input value does not equal output value",
            ErrorKind::InsufficientSignatures => "Insufficient signatures",
            ErrorKind::InvalidSigner => "Invalid signer",
            ErrorKind::IndexOutOfBounds => "Spend index out of bounds",
            ErrorKind::UnauthorizedSigner => "Public key not allowed for this spend",
        }
    }
}

impl TxError {
    /// A failure that belongs to no particular spend.
    pub fn new(kind: ErrorKind) -> (e: TxError)
        ensures
            e == (TxError { kind, spend_index: None }),
    {
        TxError { kind, spend_index: None }
    }

    /// A failure found in the spend at `spend_index`.
    pub fn at_spend(kind: ErrorKind, spend_index: usize) -> (e: TxError)
        ensures
            e == (TxError { kind, spend_index: Some(spend_index) }),
    {
        TxError { kind, spend_index: Some(spend_index) }
    }

    /// The message of this failure, for people to read.
    pub fn message(&self) -> (s: String)
        ensures
            s@ == message_text(*self),
    {
        match self.spend_index {
            None => self.kind.text().to_owned(),
            Some(i) => {
                let mut s: String = "Spend ".to_owned();
                let index: String = decimal_text(i as u64);
                s.append(index.as_str());
                match self.kind {
                    ErrorKind::InsufficientSignatures => {
                        s.append(" has insufficient signatures");
                    },
                    ErrorKind::InvalidSigner => {
                        s.append(" has invalid signer");
                    },
                    _ => {
                        s.append(": ");
                        s.append(self.kind.text());
                    },
                }
                s
            },
        }
    }
}

} // verus!
