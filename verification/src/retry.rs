//! The policy for failed page reads: transient I/O errors are retried a
//! bounded number of times, corruption never is.

use vstd::prelude::*;

verus! {

/// How many times a read is attempted before an I/O error is surfaced.
pub const MAX_READ_ATTEMPTS: u32 = 3;

/// How a read failed.
#[derive(Debug, PartialEq, Eq, Structural, Clone, Copy)]
pub enum ReadFailure {
    /// The storage medium reported an error or timed out.
    Io,
    /// The data was read but fails its checksum.
    Checksum,
}

/// What to do after a failed read.
#[derive(Debug, PartialEq, Eq, Structural, Clone, Copy)]
pub enum RetryDecision {
    /// Attempt the read again.
    Retry,
    /// Give up and report the failure to the caller.
    Surface,
}

/// The decision after `attempts` attempts, the last of which failed.
pub open spec fn retry_policy(failure: ReadFailure, attempts: u32) -> RetryDecision {
    if failure == ReadFailure::Io && attempts < MAX_READ_ATTEMPTS {
        RetryDecision::Retry
    } else {
        RetryDecision::Surface
    }
}

/// Decides what follows a failed read: an I/O error is retried until
/// `MAX_READ_ATTEMPTS` attempts were made, a checksum error is surfaced at
/// once.
pub fn after_failure(failure: ReadFailure, attempts: u32) -> (decision: RetryDecision)
    ensures
        decision == retry_policy(failure, attempts),
{
    match failure {
        ReadFailure::Io => if attempts < MAX_READ_ATTEMPTS {
            RetryDecision::Retry
        } else {
            RetryDecision::Surface
        },
        ReadFailure::Checksum => RetryDecision::Surface,
    }
}

/// Retrying ends: no read is attempted more than `MAX_READ_ATTEMPTS`
/// times, and corruption is never retried.
pub proof fn lemma_retry_is_bounded(failure: ReadFailure, attempts: u32)
    ensures
        attempts >= MAX_READ_ATTEMPTS ==> retry_policy(failure, attempts) == RetryDecision::Surface,
        retry_policy(ReadFailure::Checksum, attempts) == RetryDecision::Surface,
{
}

} // verus!
