//! Program-wide constants and configuration.
use vstd::prelude::*;

verus! {

/// Maximum length of a thread id, in bytes.
pub const MAX_THREAD_ID_LENGTH: usize = 32;

/// Maximum number of co-authors per thread.
pub const MAX_COAUTHORS: usize = 10;

/// Maximum number of messages per thread.
pub const MAX_MESSAGES: usize = 100;

/// Maximum number of pending spec messages per thread.
pub const MAX_PENDING_SPECS: usize = 20;

/// Minimum stake amount a new thread demands of a spec submission.
pub const MIN_STAKE_AMOUNT: u64 = 1_000_000;

/// Spec expiration time in seconds (7 days).
pub const SPEC_EXPIRATION_TIME: i64 = 7 * 24 * 60 * 60;

} // verus!
