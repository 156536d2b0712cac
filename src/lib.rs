//! Dispatch of one `update(tick)` call per task across a pool of workers,
//! with every call serialised through a single exclusive lock and the
//! first failure of a batch reported back to the caller.
//!
//! The library holds the decisions: how a batch is split among workers,
//! when a worker picks up its next task, the lock's single-holder protocol
//! and the first-failure slot. The caller's worker threads perform the
//! actual calls and report each outcome back.

mod batch;
mod error;
mod partition;
mod runner;

pub use batch::{
    enter_count, event_task, intervals_disjoint, lemma_all_succeeded, lemma_failure_reported,
    lemma_gate_exclusive, outcome_of, Batch, BatchView, GateEvent, TaskState,
};
pub use error::{BatchError, TaskError};
pub use partition::{chunk_start, partition};
pub use runner::{lemma_fresh_runners_equal, ParallelSystemRunner};
