//! The failure of a check, with the reason a verdict gives for it.
use crate::types::ReasonCode;
use vstd::prelude::*;

verus! {

/// A failed check.
#[derive(Debug, Clone, Copy, PartialEq, Eq, Structural)]
pub struct VerifyFailure {
    /// The reason that the verdict gives.
    pub reason: ReasonCode,
}

impl VerifyFailure {
    /// The failure of a credential that cannot be parsed or misses a mandatory part.
    pub fn malformed() -> (out: VerifyFailure)
        ensures
            out.reason == ReasonCode::MalformedCredential,
    {
        VerifyFailure { reason: ReasonCode::MalformedCredential }
    }

    /// A failure for a given reason.
    pub fn with_reason(reason: ReasonCode) -> (out: VerifyFailure)
        ensures
            out.reason == reason,
    {
        VerifyFailure { reason }
    }
}

} // verus!
