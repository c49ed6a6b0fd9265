//! The error taxonomy of the engine: every fallible operation surfaces one of
//! these typed errors and commits nothing.

use vstd::prelude::*;

verus! {

/// Everything that can go wrong in an engine operation.
///
/// The arithmetic variants (`DivisionByZero`, `Underflow`, `Overflow`) classify
/// a failed arithmetic operation by its cause; the rest name a missing record,
/// a violated precondition, an insufficient balance or an inconsistency
/// between a record's bookkeeping and the ledger's reserves.
#[derive(Clone, Copy, Debug, PartialEq, Eq, Structural)]
pub enum Error {
    /// A value that was expected to be present was absent.
    NoneValue,
    /// The project does not exist.
    NoProjectWithId,
    /// The account has already placed a review on this project.
    DuplicateReview,
    /// The project id counter is exhausted.
    StorageOverflow,
    /// Project owners cannot review their own projects.
    OwnerReviewedProject,
    /// Insufficient funds for a reservation or a transfer.
    InsufficientBalance,
    /// The reward recorded on the project is not backed by the ledger reserve.
    RewardInconsistent,
    /// The caller already owns a project.
    AlreadyOwnsProject,
    /// The collateral for the review is no longer fully reserved.
    InconsistentCollateral,
    /// The review matching this key cannot be found.
    ReviewNotFound,
    /// Acceptance must act on a record in the proposed state.
    AcceptingNotProposed,
    /// A checked division failed for a reason that could not be classified.
    CheckedDivisionFailed,
    /// The review score is out of the range 1 to 5.
    ReviewScoreOutOfRange,
    /// The native token cannot be used as collateral.
    NativeCollateral,
    /// An arithmetic operation divided by zero.
    DivisionByZero,
    /// An arithmetic operation underflowed.
    Underflow,
    /// An arithmetic operation overflowed.
    Overflow,
}

} // verus!
