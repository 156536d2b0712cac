use crate::error::{BatchError, TaskError};
use crate::partition::{chunk_start, partition};
use vstd::prelude::*;

verus! {

/// Where one task of a batch stands.
#[derive(Clone, Copy, Debug, PartialEq, Eq, Structural)]
pub enum TaskState {
    /// Not yet called.
    Pending,
    /// Inside the lock: its `update` call is running.
    Running,
    /// Its `update` call returned success.
    Succeeded,
    /// Its `update` call returned an error.
    Failed,
}

/// One step of the lock's history: a task's call entered it, or left it.
pub enum GateEvent {
    Enter { task: usize, tick: i64 },
    Exit { task: usize },
}

pub open spec fn event_task(e: GateEvent) -> usize {
    match e {
        GateEvent::Enter { task, .. } => task,
        GateEvent::Exit { task } => task,
    }
}

/// The lock's history is a sequence of closed intervals, one after another:
/// every entry is followed by the exit of the same task before the next
/// entry, so no two calls were ever inside the lock at once.
pub open spec fn intervals_disjoint(log: Seq<GateEvent>) -> bool {
    forall|k: int|
        0 <= k < log.len() ==> {
            &&& (#[trigger] log[k] is Enter <==> k % 2 == 0)
            &&& (k % 2 == 1 ==> event_task(log[k]) == event_task(log[k - 1]))
        }
}

/// How many times the lock was entered for `task`.
pub open spec fn enter_count(log: Seq<GateEvent>, task: usize) -> nat
    decreases log.len(),
{
    if log.len() == 0 {
        0
    } else {
        enter_count(log.drop_last(), task) + match log.last() {
            GateEvent::Enter { task: t, .. } => if t == task {
                1nat
            } else {
                0nat
            },
            GateEvent::Exit { .. } => 0nat,
        }
    }
}

/// What a batch returns for its state: success where no failure was
/// recorded, else the recorded failure.
pub open spec fn outcome_of(failure: Option<BatchError>) -> Result<(), BatchError> {
    match failure {
        None => Ok(()),
        Some(e) => Err(e),
    }
}

/// The model of a batch in flight.
pub struct BatchView {
    pub tick: i64,
    /// The share of each worker, as a range `[start, end)` of task indices.
    pub ranges: Seq<(usize, usize)>,
    /// The next task index that each worker will pick up.
    pub cursors: Seq<usize>,
    pub states: Seq<TaskState>,
    /// The task whose call holds the lock.
    pub holder: Option<usize>,
    /// The first failure recorded, or the lock's fatal error.
    pub failure: Option<BatchError>,
    /// Every entry into and exit from the lock, in order.
    pub log: Seq<GateEvent>,
}

/// One batch: `n` tasks, one tick, a fixed number of workers. Workers ask it
/// for their next task, report entering the lock before each call and leaving
/// it after, with the call's outcome.
pub struct Batch {
    tick: i64,
    ranges: Vec<(usize, usize)>,
    cursors: Vec<usize>,
    states: Vec<TaskState>,
    holder: Option<usize>,
    failure: Option<BatchError>,
    log: Ghost<Seq<GateEvent>>,
}

impl View for Batch {
    type V = BatchView;

    closed spec fn view(&self) -> BatchView {
        BatchView {
            tick: self.tick,
            ranges: self.ranges@,
            cursors: self.cursors@,
            states: self.states@,
            holder: self.holder,
            failure: self.failure,
            log: self.log@,
        }
    }
}

impl Batch {
    /// The invariant of a batch.
    pub closed spec fn wf(&self) -> bool {
        let n = self.states@.len();
        let log = self.log@;
        &&& self.ranges@.len() > 0
        &&& self.cursors@.len() == self.ranges@.len()
        &&& forall|k: int|
            0 <= k < self.ranges@.len() ==> {
                &&& #[trigger] self.ranges@[k].0 <= self.cursors@[k]
                &&& self.cursors@[k] <= self.ranges@[k].1
                &&& self.ranges@[k].1 <= n
            }
        &&& intervals_disjoint(log)
        &&& forall|k: int|
            0 <= k < log.len() ==> (#[trigger] log[k] is Enter ==> log[k]->Enter_tick == self.tick)
        &&& (log.len() % 2 == 1) == self.holder.is_some()
        &&& forall|i: usize|
            #![trigger self.states@[i as int]]
            i < n ==> (self.states@[i as int] == TaskState::Running <==> self.holder == Some(i))
        &&& self.holder.is_some() ==> {
            &&& self.holder.unwrap() < n
            &&& log.last() is Enter
            &&& event_task(log.last()) == self.holder.unwrap()
        }
        &&& forall|i: usize|
            #![trigger enter_count(log, i)]
            i < n ==> enter_count(log, i) == if self.states@[i as int] == TaskState::Pending {
                0nat
            } else {
                1nat
            }
        &&& forall|i: int| 0 <= i < n && #[trigger] self.states@[i] == TaskState::Failed
            ==> self.failure.is_some()
        &&& self.failure matches Some(BatchError::Task(e)) ==> {
            &&& e.index < n
            &&& self.states@[e.index as int] == TaskState::Failed
        }
    }

    /// Sets up a batch of `n` tasks for `tick`, split among `workers` workers
    /// by [`partition`]. Nothing has entered the lock.
    pub fn new(n: usize, tick: i64, workers: usize) -> (r: Batch)
        requires
            workers > 0,
        ensures
            r.wf(),
            r@.tick == tick,
            r@.ranges.len() == workers,
            forall|k: int|
                0 <= k < workers ==> {
                    &&& (#[trigger] r@.ranges[k]).0 == chunk_start(n as nat, workers as nat, k as nat)
                    &&& r@.ranges[k].1 == chunk_start(n as nat, workers as nat, (k + 1) as nat)
                    &&& r@.cursors[k] == r@.ranges[k].0
                },
            r@.states =~= Seq::new(n as nat, |i: int| TaskState::Pending),
            r@.holder is None,
            r@.failure is None,
            r@.log =~= Seq::<GateEvent>::empty(),
    {
        let ranges = partition(n, workers);
        let mut cursors: Vec<usize> = Vec::new();
        let mut k: usize = 0;
        while k < workers
            invariant
                k <= workers,
                ranges@.len() == workers,
                cursors@.len() == k,
                forall|j: int| 0 <= j < k ==> #[trigger] cursors@[j] == ranges@[j].0,
            decreases workers - k,
        {
            cursors.push(ranges[k].0);
            k = k + 1;
        }
        let mut states: Vec<TaskState> = Vec::new();
        let mut i: usize = 0;
        while i < n
            invariant
                i <= n,
                states@ =~= Seq::new(i as nat, |j: int| TaskState::Pending),
            decreases n - i,
        {
            states.push(TaskState::Pending);
            i = i + 1;
        }
        let r = Batch {
            tick,
            ranges,
            cursors,
            states,
            holder: None,
            failure: None,
            log: Ghost(Seq::empty()),
        };
        proof {
            assert forall|k: int| 0 <= k < r.ranges@.len() implies {
                &&& #[trigger] r.ranges@[k].0 <= r.cursors@[k]
                &&& r.cursors@[k] <= r.ranges@[k].1
                &&& r.ranges@[k].1 <= n
            } by {
                lemma_chunk_start_le(n as nat, workers as nat, k as nat);
                lemma_chunk_start_le(n as nat, workers as nat, (k + 1) as nat);
            }
        }
        r
    }

    /// Whether `index` may enter the lock now: it is a task of the batch not
    /// yet called, no call holds the lock, and the lock is not broken.
    pub open spec fn may_enter(v: BatchView, index: usize) -> bool {
        &&& index < v.states.len()
        &&& v.states[index as int] == TaskState::Pending
        &&& v.holder is None
        &&& !(v.failure matches Some(BatchError::GateFatal))
    }

    /// The next task of `worker`'s share. A worker picks up no new task once
    /// a failure is recorded, or when its share is used up; otherwise it takes
    /// the task at its cursor, which moves on by one.
    pub fn next_task(&mut self, worker: usize) -> (r: Option<usize>)
        requires
            old(self).wf(),
        ensures
            final(self).wf(),
            ({
                let v = old(self)@;
                if worker >= v.ranges.len() || v.failure is Some || v.cursors[worker as int]
                    == v.ranges[worker as int].1 {
                    r is None && final(self)@ == v
                } else {
                    &&& r == Some(v.cursors[worker as int])
                    &&& v.cursors[worker as int] < v.states.len()
                    &&& final(self)@ == BatchView {
                        cursors: v.cursors.update(worker as int, (v.cursors[worker as int] + 1) as usize),
                        ..v
                    }
                }
            }),
    {
        if worker >= self.ranges.len() || self.failure.is_some() || self.cursors[worker]
            == self.ranges[worker].1 {
            return None;
        }
        let index = self.cursors[worker];
        proof {
            assert(self.ranges@[worker as int].0 <= self.cursors@[worker as int]);
        }
        self.cursors[worker] = index + 1;
        proof {
            assert(self.ranges@[worker as int].0 <= old(self).cursors@[worker as int]);
        }
        Some(index)
    }

    /// Enters the lock for task `index`, before its call, and returns the tick
    /// to pass to it. Where the task may not enter (see [`Batch::may_enter`]),
    /// the single-holder protocol is broken: the lock's fatal error replaces
    /// whatever was recorded, and is returned.
    pub fn enter(&mut self, index: usize) -> (r: Result<i64, BatchError>)
        requires
            old(self).wf(),
        ensures
            final(self).wf(),
            ({
                let v = old(self)@;
                if Self::may_enter(v, index) {
                    &&& r == Ok::<i64, BatchError>(v.tick)
                    &&& final(self)@ == BatchView {
                        states: v.states.update(index as int, TaskState::Running),
                        holder: Some(index),
                        log: v.log.push(GateEvent::Enter { task: index, tick: v.tick }),
                        ..v
                    }
                } else {
                    &&& r == Err::<i64, BatchError>(BatchError::GateFatal)
                    &&& final(self)@ == BatchView { failure: Some(BatchError::GateFatal), ..v }
                }
            }),
    {
        let fatal = match &self.failure {
            Some(BatchError::GateFatal) => true,
            _ => false,
        };
        if index >= self.states.len() || self.states[index] != TaskState::Pending
            || self.holder.is_some() || fatal {
            self.poison();
            return Err(BatchError::GateFatal);
        }
        let ghost old_log = self.log@;
        let ghost old_states = self.states@;
        self.states[index] = TaskState::Running;
        self.holder = Some(index);
        self.log = Ghost(self.log@.push(GateEvent::Enter { task: index, tick: self.tick }));
        proof {
            let e = GateEvent::Enter { task: index, tick: self.tick };
            assert forall|i: usize| i < self.states@.len() implies #[trigger] enter_count(self.log@, i)
                == if self.states@[i as int] == TaskState::Pending {
                0nat
            } else {
                1nat
            } by {
                lemma_enter_count_push(old_log, e, i);
                assert(old_states[i as int] == TaskState::Pending ==> enter_count(old_log, i) == 0);
            }
            assert forall|k: int| 0 <= k < self.log@.len() implies {
                &&& (#[trigger] self.log@[k] is Enter <==> k % 2 == 0)
                &&& (k % 2 == 1 ==> event_task(self.log@[k]) == event_task(self.log@[k - 1]))
            } by {
                if k < old_log.len() {
                    assert(self.log@[k] == old_log[k]);
                    assert(k % 2 == 1 ==> self.log@[k - 1] == old_log[k - 1]);
                }
            }
            assert forall|k: int| 0 <= k < self.log@.len() && #[trigger] self.log@[k] is Enter
                implies self.log@[k]->Enter_tick == self.tick by {
                if k < old_log.len() {
                    assert(self.log@[k] == old_log[k]);
                }
            }
            assert forall|i: int| 0 <= i < self.states@.len() && #[trigger] self.states@[i]
                == TaskState::Failed implies self.failure.is_some() by {
                assert(old_states[i] == TaskState::Failed);
            }
        }
        Ok(self.tick)
    }

    /// Leaves the lock after the call of task `index`, with what the call
    /// returned. The task is marked succeeded or failed, and a failure is
    /// recorded where none was before: the first failure wins. Where `index`
    /// does not hold the lock, the protocol is broken: the lock's fatal error
    /// replaces whatever was recorded.
    pub fn leave(&mut self, index: usize, outcome: Result<(), String>)
        requires
            old(self).wf(),
        ensures
            final(self).wf(),
            ({
                let v = old(self)@;
                if v.holder == Some(index) {
                    final(self)@ == BatchView {
                        states: v.states.update(
                            index as int,
                            if outcome is Ok {
                                TaskState::Succeeded
                            } else {
                                TaskState::Failed
                            },
                        ),
                        holder: None,
                        failure: match (v.failure, outcome) {
                            (None, Err(m)) => Some(BatchError::Task(TaskError { index, message: m })),
                            _ => v.failure,
                        },
                        log: v.log.push(GateEvent::Exit { task: index }),
                        ..v
                    }
                } else {
                    final(self)@ == BatchView { failure: Some(BatchError::GateFatal), ..v }
                }
            }),
    {
        if self.holder != Some(index) {
            self.poison();
            return;
        }
        let ghost old_log = self.log@;
        let ghost old_states = self.states@;
        let ghost old_failure = self.failure;
        match outcome {
            Ok(()) => {
                self.states[index] = TaskState::Succeeded;
            },
            Err(m) => {
                self.states[index] = TaskState::Failed;
                if self.failure.is_none() {
                    self.failure = Some(BatchError::Task(TaskError { index, message: m }));
                }
            },
        }
        self.holder = None;
        self.log = Ghost(self.log@.push(GateEvent::Exit { task: index }));
        proof {
            let e = GateEvent::Exit { task: index };
            assert forall|i: usize| i < self.states@.len() implies #[trigger] enter_count(self.log@, i)
                == if self.states@[i as int] == TaskState::Pending {
                0nat
            } else {
                1nat
            } by {
                lemma_enter_count_push(old_log, e, i);
            }
            assert forall|k: int| 0 <= k < self.log@.len() implies {
                &&& (#[trigger] self.log@[k] is Enter <==> k % 2 == 0)
                &&& (k % 2 == 1 ==> event_task(self.log@[k]) == event_task(self.log@[k - 1]))
            } by {
                if k < old_log.len() {
                    assert(self.log@[k] == old_log[k]);
                    assert(k % 2 == 1 ==> self.log@[k - 1] == old_log[k - 1]);
                } else {
                    assert(self.log@[k - 1] == old_log.last());
                }
            }
            assert forall|k: int| 0 <= k < self.log@.len() && #[trigger] self.log@[k] is Enter
                implies self.log@[k]->Enter_tick == self.tick by {
                if k < old_log.len() {
                    assert(self.log@[k] == old_log[k]);
                }
            }
            assert forall|i: int| 0 <= i < self.states@.len() && #[trigger] self.states@[i]
                == TaskState::Failed implies self.failure.is_some() by {
                if i != index {
                    assert(old_states[i] == TaskState::Failed);
                }
            }
            match old_failure {
                Some(BatchError::Task(te)) => {
                    assert(te.index != index);
                },
                _ => {},
            }
        }
    }

    /// Records that the lock itself broke (a holder ended abnormally): the
    /// lock's fatal error replaces whatever was recorded, and no worker picks
    /// up a new task.
    pub fn poison(&mut self)
        requires
            old(self).wf(),
        ensures
            final(self).wf(),
            final(self)@ == (BatchView { failure: Some(BatchError::GateFatal), ..old(self)@ }),
    {
        self.failure = Some(BatchError::GateFatal);
    }

    pub fn tick(&self) -> (r: i64)
        ensures
            r == self@.tick,
    {
        self.tick
    }

    /// The number of tasks in the batch.
    pub fn len(&self) -> (r: usize)
        ensures
            r == self@.states.len(),
    {
        self.states.len()
    }

    /// The number of workers the batch is split among.
    pub fn workers(&self) -> (r: usize)
        ensures
            r == self@.ranges.len(),
    {
        self.ranges.len()
    }

    /// Where task `index` stands, for an index of the batch.
    pub fn state(&self, index: usize) -> (r: Option<TaskState>)
        ensures
            r == if index < self@.states.len() {
                Some(self@.states[index as int])
            } else {
                None::<TaskState>
            },
    {
        if index < self.states.len() {
            Some(self.states[index])
        } else {
            None
        }
    }

    /// The task whose call holds the lock, if any.
    pub fn gate_holder(&self) -> (r: Option<usize>)
        ensures
            r == self@.holder,
    {
        self.holder
    }

    /// Whether a failure is recorded, so that workers pick up no new task.
    pub fn is_stopped(&self) -> (r: bool)
        ensures
            r == self@.failure is Some,
    {
        self.failure.is_some()
    }

    /// The batch's single outcome: success where no failure was recorded,
    /// else the first task failure, or the lock's fatal error.
    pub fn outcome(&self) -> (r: Result<(), BatchError>)
        requires
            self.wf(),
        ensures
            r == outcome_of(self@.failure),
    {
        match &self.failure {
            None => Ok(()),
            Some(e) => Err(e.duplicate()),
        }
    }
}

/// When every task of a batch has succeeded and the lock did not break, the
/// batch returns success, and each task entered the lock exactly once, always
/// with the batch's tick.
pub proof fn lemma_all_succeeded(b: &Batch)
    requires
        b.wf(),
        forall|i: int| 0 <= i < b@.states.len() ==> b@.states[i] == TaskState::Succeeded,
        !(b@.failure matches Some(BatchError::GateFatal)),
    ensures
        outcome_of(b@.failure) == Ok::<(), BatchError>(()),
        forall|i: usize| i < b@.states.len() ==> #[trigger] enter_count(b@.log, i) == 1,
        forall|k: int|
            0 <= k < b@.log.len() && #[trigger] b@.log[k] is Enter ==> b@.log[k]->Enter_tick
                == b@.tick,
{
    match b.failure {
        Some(BatchError::Task(e)) => {
            assert(b@.states[e.index as int] == TaskState::Succeeded);
        },
        _ => {},
    }
    assert forall|i: usize| i < b@.states.len() implies #[trigger] enter_count(b@.log, i) == 1 by {
        assert(b@.states[i as int] == TaskState::Succeeded);
    }
}

/// A batch in which some task failed never returns success; and where it
/// returns a task failure, that failure names a task of the batch that failed.
pub proof fn lemma_failure_reported(b: &Batch, failed: usize)
    requires
        b.wf(),
        failed < b@.states.len(),
        b@.states[failed as int] == TaskState::Failed,
    ensures
        outcome_of(b@.failure) is Err,
        outcome_of(b@.failure) matches Err(BatchError::Task(e)) ==> {
            &&& e.index < b@.states.len()
            &&& b@.states[e.index as int] == TaskState::Failed
        },
{
}

/// No two calls are ever inside the lock at once: the lock's history is a
/// sequence of disjoint enter/exit intervals, at most one task is running,
/// and it is the one that holds the lock.
pub proof fn lemma_gate_exclusive(b: &Batch)
    requires
        b.wf(),
    ensures
        intervals_disjoint(b@.log),
        forall|i: usize, j: usize|
            i < b@.states.len() && j < b@.states.len() && #[trigger] b@.states[i as int]
                == TaskState::Running && #[trigger] b@.states[j as int] == TaskState::Running ==> i
                == j,
        forall|i: usize|
            i < b@.states.len() && #[trigger] b@.states[i as int] == TaskState::Running ==> b@.holder
                == Some(i),
{
}

proof fn lemma_enter_count_push(log: Seq<GateEvent>, e: GateEvent, task: usize)
    ensures
        enter_count(log.push(e), task) == enter_count(log, task) + match e {
            GateEvent::Enter { task: t, .. } => if t == task {
                1nat
            } else {
                0nat
            },
            GateEvent::Exit { .. } => 0nat,
        },
{
    assert(log.push(e).drop_last() =~= log);
}

proof fn lemma_chunk_start_le(n: nat, workers: nat, worker: nat)
    requires
        workers > 0,
        worker <= workers,
    ensures
        chunk_start(n, workers, worker) <= n,
        worker < workers ==> chunk_start(n, workers, worker) <= chunk_start(n, workers, worker + 1),
{
    crate::partition::lemma_chunk_start_bounds(n, workers, worker);
}

} // verus!
