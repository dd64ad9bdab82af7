use vstd::prelude::*;

verus! {

/// Error that can occur when interacting with the worker pool.
#[derive(Debug, Clone, PartialEq, Eq, Structural)]
pub enum WorkerPoolError {
    /// The pool has been shut down and takes no more jobs.
    ShutDown,
}

impl WorkerPoolError {
    /// The human-readable description of the error.
    pub fn message(&self) -> (text: String)
        ensures
            text@ == "Worker pool has been shut down"@,
    {
        match self {
            WorkerPoolError::ShutDown => "Worker pool has been shut down".to_owned(),
        }
    }
}

/// A snapshot of the pool's counters.
#[derive(Debug, Clone)]
pub struct PoolMetrics {
    /// Jobs that hold a permit and are running.
    pub active: usize,
    /// Jobs that were submitted and not yet taken by the dispatcher.
    pub queued: usize,
    /// Jobs that have run to completion.
    pub completed: usize,
}

} // verus!
