//! Error values: repository-operation failures and internal engine
//! failures are ordinary job outcomes, stored in the cache like successes.

use vstd::prelude::*;

verus! {

/// Why a repository operation or a job failed.
#[derive(Clone, PartialEq, Eq, Debug)]
pub enum OpError {
    /// The underlying repository library reported a failure; the payload
    /// is its message.
    Git(String),
    /// An input was rejected by this library's own checks.
    Generic(String),
    /// A worker aborted unexpectedly; caught at the job boundary and
    /// converted, so it never takes the worker pool down.
    Internal(String),
}

} // verus!
