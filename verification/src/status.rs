//! Revocation status of credentials.
use vstd::prelude::*;

verus! {

/// What is known of a credential's revocation.
#[derive(Debug, Clone, Copy, PartialEq, Eq, Structural)]
pub enum StatusOutcome {
    /// The credential names no status mechanism.
    NoStatus,
    /// The credential is current.
    Good,
    /// The credential was revoked.
    Revoked,
    /// The status could not be learned.
    Unavailable,
}

} // verus!
