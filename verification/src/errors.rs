use vstd::prelude::*;

verus! {

/// Why an operation was refused. Every failure is atomic: the operation
/// returns the error and leaves the state exactly as it found it.
#[derive(Clone, Copy, Debug, PartialEq, Eq, Structural)]
pub enum Error {
    /// An operation ran before the state was created.
    NotInitialized,
    /// `new` ran while a state already exists.
    AlreadyInitialized,
    /// A mint named a token id that is already present.
    TokenExists,
    /// A transfer or a query named a token id that is absent.
    TokenMissing,
    /// A transfer came from a caller that is neither the owner nor approved.
    Unauthorized,
    /// A transfer named the current owner as the receiver.
    SelfTransfer,
    /// The value attached to a mint is below the measured storage cost.
    InsufficientDeposit,
    /// An account identifier failed validation (it was empty).
    InvalidAccount,
}

} // verus!
