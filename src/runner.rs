use crate::batch::{Batch, BatchView, GateEvent, TaskState};
use crate::partition::chunk_start;
use vstd::prelude::*;

verus! {

/// Relies on rayon::current_num_threads: the number of threads of the pool
/// the caller runs in (the global pool outside any pool), which is at least
/// one.
#[verifier::external_body]
fn pool_threads() -> (r: usize)
    ensures
        r >= 1,
{
    rayon::current_num_threads()
}

/// Runs batches of task updates on a pool of workers. It holds only the
/// number of workers to use: a fixed count, or the size of the pool.
pub struct ParallelSystemRunner {
    threads: Option<usize>,
}

impl View for ParallelSystemRunner {
    type V = Option<usize>;

    closed spec fn view(&self) -> Option<usize> {
        self.threads
    }
}

impl ParallelSystemRunner {
    /// A runner that uses as many workers as the pool has threads.
    pub fn new() -> (r: ParallelSystemRunner)
        ensures
            r@ == None::<usize>,
    {
        ParallelSystemRunner { threads: None }
    }

    /// A runner that uses `threads` workers (at least one).
    pub fn with_threads(threads: usize) -> (r: ParallelSystemRunner)
        ensures
            r@ == Some(threads),
    {
        ParallelSystemRunner { threads: Some(threads) }
    }

    /// How many workers a batch is split among: the fixed count where one
    /// was given (one where it was zero), else the size of the pool.
    pub fn worker_count(&self) -> (r: usize)
        ensures
            r >= 1,
            self@ matches Some(t) ==> r == if t == 0 {
                1
            } else {
                t
            },
    {
        match self.threads {
            Some(t) => if t == 0 {
                1
            } else {
                t
            },
            None => pool_threads(),
        }
    }

    /// Starts a batch of `n` tasks for `tick`, split among
    /// [`ParallelSystemRunner::worker_count`] workers.
    pub fn start(&self, n: usize, tick: i64) -> (r: Batch)
        ensures
            r.wf(),
            r@.tick == tick,
            r@.ranges.len() >= 1,
            self@ matches Some(t) ==> r@.ranges.len() == if t == 0 {
                1
            } else {
                t
            },
            forall|k: int|
                0 <= k < r@.ranges.len() ==> {
                    &&& (#[trigger] r@.ranges[k]).0 == chunk_start(
                        n as nat,
                        r@.ranges.len(),
                        k as nat,
                    )
                    &&& r@.ranges[k].1 == chunk_start(n as nat, r@.ranges.len(), (k + 1) as nat)
                    &&& r@.cursors[k] == r@.ranges[k].0
                },
            r@.states =~= Seq::new(n as nat, |i: int| TaskState::Pending),
            r@.holder is None,
            r@.failure is None,
            r@.log =~= Seq::<GateEvent>::empty(),
    {
        let workers = self.worker_count();
        Batch::new(n, tick, workers)
    }
}

/// Making a runner has no effect that another one could observe: any two
/// runners that [`ParallelSystemRunner::new`] made are the same value.
pub proof fn lemma_fresh_runners_equal(a: ParallelSystemRunner, b: ParallelSystemRunner)
    requires
        a@ == None::<usize>,
        b@ == None::<usize>,
    ensures
        a == b,
{
}

} // verus!
