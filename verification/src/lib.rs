//! A bounded worker pool: admission, dispatch and permit accounting of a pool
//! that runs at most a fixed number of jobs at once, queues the rest in a
//! bounded first-in first-out channel, and drains every accepted job before
//! it shuts down.
mod error;
mod lemmas;
pub mod model;

pub use error::{PoolMetrics, WorkerPoolError};
pub mod laws;
mod state;

pub use model::{Dispatch, PermitChange, PoolView, Waiter, MAX_PERMITS};
pub use state::WorkerPoolState;
