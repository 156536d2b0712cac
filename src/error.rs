use vstd::prelude::*;

verus! {

/// A task's `update` call failed: which task, and what it reported.
#[derive(Debug)]
pub struct TaskError {
    pub index: usize,
    pub message: String,
}

/// The single outcome of a failed batch.
#[derive(Debug)]
pub enum BatchError {
    /// The first task failure that was recorded for the batch.
    Task(TaskError),
    /// The exclusive lock can no longer be trusted: a holder ended
    /// abnormally, or the lock's single-holder protocol was broken.
    GateFatal,
}

impl TaskError {
    pub fn duplicate(&self) -> (r: TaskError)
        ensures
            r == *self,
    {
        TaskError { index: self.index, message: self.message.clone() }
    }
}

impl BatchError {
    pub fn duplicate(&self) -> (r: BatchError)
        ensures
            r == *self,
    {
        match self {
            BatchError::Task(e) => BatchError::Task(e.duplicate()),
            BatchError::GateFatal => BatchError::GateFatal,
        }
    }

    /// The index of the failed task, where a task failed.
    pub fn task_index(&self) -> (r: Option<usize>)
        ensures
            r == match self {
                BatchError::Task(e) => Some(e.index),
                BatchError::GateFatal => None::<usize>,
            },
    {
        match self {
            BatchError::Task(e) => Some(e.index),
            BatchError::GateFatal => None,
        }
    }

    pub fn is_fatal(&self) -> (r: bool)
        ensures
            r == (self is GateFatal),
    {
        match self {
            BatchError::Task(_) => false,
            BatchError::GateFatal => true,
        }
    }
}

} // verus!
