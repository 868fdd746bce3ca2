//! Error kinds returned by the thread operations.
//!
//! Every validation failure aborts its operation before any mutation, so a
//! caller that receives an error observes the state exactly as it was before
//! the call.
use vstd::prelude::*;

verus! {

/// The error kinds of the library. Each operation's contract states exactly
/// which inputs produce which variant.
#[derive(Clone, Copy, Debug, PartialEq, Eq, Structural)]
pub enum ChoirError {
    /// Thread id exceeds the maximum length of 32 bytes.
    ThreadIdTooLong,
    /// A thread with the given id already exists.
    DuplicateId,
    /// No thread with the given id exists.
    ThreadNotFound,
    /// The acting identity is not a co-author of this thread.
    NotCoAuthor,
    /// The acting identity is already a co-author of this thread.
    AlreadyCoAuthor,
    /// The thread has reached its maximum message capacity.
    ThreadFull,
    /// The thread has reached its maximum number of pending specs.
    TooManyPendingSpecs,
    /// The stake offered is below the thread's minimum.
    InsufficientStake,
    /// The message or spec index is out of bounds.
    InvalidMessageIndex,
    /// The spec message has expired and can no longer accept votes.
    SpecExpired,
    /// The voter already holds a vote on this target.
    AlreadyVoted,
    /// The content hash already occurs among the thread's messages.
    DuplicateContent,
    /// A vote was cast on a target that has already been resolved.
    InvalidApproval,
    /// Admitting the author would exceed the co-author capacity.
    CoAuthorCapacityExceeded,
    /// Crediting the stake would overflow the thread's token balance.
    InvalidTokenOperation,
    /// An escrow release did not pay out exactly the held amount.
    ConservationViolation,
    /// The escrow ticket has already been released.
    AlreadyReleased,
}

} // verus!
