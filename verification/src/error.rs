//! Error values reported by the scheduler.

use vstd::prelude::*;

verus! {

/// Why an enqueue call failed.
#[derive(Clone, Copy, Debug, PartialEq, Eq, Structural)]
pub enum EnqueueError {
    /// The flush trigger has been closed: the scheduler is already shut down.
    TriggerUnavailable,
}

/// Why one run of the scheduler loop ended abnormally.
#[derive(Clone, Copy, Debug, PartialEq, Eq, Structural)]
pub enum SchedulerError {
    /// A second loop tried to use a timing window that is already in use.
    ReentrancyDetected,
    /// The list of recently completed jobs could not be obtained.
    JobListUnavailable,
    /// At least one per-index upsert call of a flush failed.
    DownstreamCallFailed,
}

/// Why an index could not be made ready at start-up.
#[derive(Clone, Copy, Debug, PartialEq, Eq, Structural)]
pub enum BootstrapError {
    /// The index exists, but its primary key could not be read.
    PrimaryKeyUnavailable,
    /// The index exists with no primary key, or with another one.
    PrimaryKeyMismatch,
    /// The index was missing and creating it did not succeed.
    CreationFailed,
}

} // verus!
