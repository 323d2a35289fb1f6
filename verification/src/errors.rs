//! The ways one contract's execution can fail.  Every failure is returned,
//! never panicked, and its text is surfaced verbatim as the output record's
//! message.

use vstd::prelude::*;

verus! {

use crate::model::ContractName;
use vstd::string::StringExecFns;

/// Why an `execute` call failed.  Any of these is fatal to this contract's
/// execution of the transaction and leaves its state untouched.
#[derive(Debug, Clone)]
pub enum ExecError {
    /// A blob's bytes do not match the expected action schema.
    DecodeError { message: String },
    /// No blob in the transaction matches an action this contract insisted
    /// its caller include.  Carries the scanned-for contract name and the
    /// encoded expected action.
    MissingExpectedBlob { target: ContractName, expected_action: Vec<u8> },
    /// A domain rule was broken: insufficient balance, stale nonce,
    /// duplicate pair, slippage out of band, and the like.
    InvariantViolation { message: String },
    /// The calldata's own index, or a referenced blob index, points past
    /// the end of the blob list.
    IndexOutOfRange,
}

impl ExecError {
    /// The message an output record carries for this error.
    pub open spec fn text_spec(self) -> Seq<char> {
        match self {
            ExecError::DecodeError { message } => message@,
            ExecError::MissingExpectedBlob { target, .. } => "missing expected blob for "@
                + target@,
            ExecError::InvariantViolation { message } => message@,
            ExecError::IndexOutOfRange => "blob index out of range"@,
        }
    }

    /// Renders the error as the message surfaced in the output record.
    pub fn text(&self) -> (r: String)
        ensures
            r@ == self.text_spec(),
    {
        match self {
            ExecError::DecodeError { message } => message.clone(),
            ExecError::MissingExpectedBlob { target, .. } => {
                String::from_str("missing expected blob for ").concat(target.0.as_str())
            },
            ExecError::InvariantViolation { message } => message.clone(),
            ExecError::IndexOutOfRange => String::from_str("blob index out of range"),
        }
    }

    /// Builds a domain-rule failure from a fixed description.
    pub fn violation(message: &str) -> (r: ExecError)
        ensures
            r matches ExecError::InvariantViolation { message: m } && m@ == message@,
    {
        ExecError::InvariantViolation { message: String::from_str(message) }
    }
}

} // verus!
