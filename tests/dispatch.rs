use agent_concurrent::{BatchError, ParallelSystemRunner, TaskState};
use rayon::iter::{IntoParallelIterator, ParallelIterator};
use std::sync::atomic::{AtomicBool, AtomicUsize, Ordering};
use std::sync::Mutex;

/// Runs a batch of `n` tasks for `tick` on a pool of `workers` threads. Every
/// call of `update` is made while holding `host_lock`, the stand-in for the host's
/// lock; the batch itself sits behind its own mutex.
fn run_batch<F>(workers: usize, n: usize, tick: i64, update: F) -> Result<(), BatchError>
where
    F: Fn(usize, i64) -> Result<(), String> + Sync,
{
    let runner = ParallelSystemRunner::with_threads(workers);
    let batch = Mutex::new(runner.start(n, tick));
    let host_lock = Mutex::new(());
    let pool = rayon::ThreadPoolBuilder::new().num_threads(workers).build().unwrap();
    let count = batch.lock().unwrap().workers();
    pool.install(|| {
        (0..count).into_par_iter().for_each(|w| loop {
            let next = batch.lock().unwrap().next_task(w);
            let index = match next {
                Some(i) => i,
                None => break,
            };
            let _held = host_lock.lock().unwrap();
            let entered = batch.lock().unwrap().enter(index);
            let t = match entered {
                Ok(t) => t,
                Err(_) => break,
            };
            let out = update(index, t);
            batch.lock().unwrap().leave(index, out);
        });
    });
    batch.into_inner().unwrap().outcome()
}

/// Counts calls per task and any two calls that were inside at once.
struct Probe {
    calls: Vec<AtomicUsize>,
    ticks: Mutex<Vec<i64>>,
    inside: AtomicBool,
    overlaps: AtomicUsize,
}

impl Probe {
    fn new(n: usize) -> Probe {
        Probe {
            calls: (0..n).map(|_| AtomicUsize::new(0)).collect(),
            ticks: Mutex::new(Vec::new()),
            inside: AtomicBool::new(false),
            overlaps: AtomicUsize::new(0),
        }
    }

    fn record(&self, index: usize, tick: i64) {
        if self.inside.swap(true, Ordering::SeqCst) {
            self.overlaps.fetch_add(1, Ordering::SeqCst);
        }
        self.calls[index].fetch_add(1, Ordering::SeqCst);
        self.ticks.lock().unwrap().push(tick);
        self.inside.store(false, Ordering::SeqCst);
    }

    fn calls(&self, index: usize) -> usize {
        self.calls[index].load(Ordering::SeqCst)
    }
}

#[test]
fn all_succeeding_tasks_run_once_with_tick() {
    for &(workers, n) in &[(1usize, 0usize), (1, 1), (2, 7), (4, 33), (3, 100)] {
        let probe = Probe::new(n);
        let r = run_batch(workers, n, 17, |i, t| {
            probe.record(i, t);
            Ok(())
        });
        assert!(r.is_ok());
        for i in 0..n {
            assert_eq!(probe.calls(i), 1);
        }
        assert!(probe.ticks.lock().unwrap().iter().all(|&t| t == 17));
    }
}

#[test]
fn some_failing_task_is_reported() {
    let failing = [3usize, 11, 20];
    let r = run_batch(4, 24, 5, |i, _| {
        if failing.contains(&i) {
            Err(format!("task {} broke", i))
        } else {
            Ok(())
        }
    });
    match r {
        Err(BatchError::Task(e)) => {
            assert!(failing.contains(&e.index));
            assert_eq!(e.message, format!("task {} broke", e.index));
        }
        _ => panic!("a failing batch must report a task failure"),
    }
}

#[test]
fn updates_never_overlap() {
    for &workers in &[1usize, 2, 5, 8] {
        let probe = Probe::new(200);
        let r = run_batch(workers, 200, 1, |i, t| {
            probe.record(i, t);
            Ok(())
        });
        assert!(r.is_ok());
        assert_eq!(probe.overlaps.load(Ordering::SeqCst), 0);
    }
}

#[test]
fn construction_has_no_effect() {
    for _ in 0..100 {
        let a = ParallelSystemRunner::new();
        let b = ParallelSystemRunner::new();
        assert_eq!(a.worker_count(), b.worker_count());
    }
    assert_eq!(ParallelSystemRunner::new().worker_count(), rayon::current_num_threads());
}

#[test]
fn five_tasks_observe_tick() {
    let probe = Probe::new(5);
    let r = run_batch(3, 5, 42, |i, t| {
        probe.record(i, t);
        Ok(())
    });
    assert!(r.is_ok());
    let ticks = probe.ticks.lock().unwrap().clone();
    assert_eq!(ticks.len(), 5);
    assert!(ticks.iter().all(|&t| t == 42));
}

#[test]
fn failure_at_index_one_reports_boom() {
    // Three workers of one task each; every worker picks its task up before
    // any call runs, so all three calls are in flight when task 1 fails.
    let mut batch = ParallelSystemRunner::with_threads(3).start(3, 9);
    let picked: Vec<usize> = (0..3).map(|w| batch.next_task(w).unwrap()).collect();
    assert_eq!(picked, vec![0, 1, 2]);
    let mut calls = [0usize; 3];
    for &i in &picked {
        let t = batch.enter(i).unwrap();
        assert_eq!(t, 9);
        calls[i] += 1;
        let out = if i == 1 { Err("boom".to_string()) } else { Ok(()) };
        batch.leave(i, out);
    }
    match batch.outcome() {
        Err(BatchError::Task(e)) => {
            assert_eq!(e.index, 1);
            assert_eq!(e.message, "boom");
        }
        _ => panic!("expected the failure of task 1"),
    }
    assert_eq!(calls, [1, 1, 1]);
    assert_eq!(batch.state(0), Some(TaskState::Succeeded));
    assert_eq!(batch.state(1), Some(TaskState::Failed));
    assert_eq!(batch.state(2), Some(TaskState::Succeeded));
}

#[test]
fn empty_batch_succeeds() {
    let mut batch = ParallelSystemRunner::with_threads(4).start(0, 3);
    for w in 0..4 {
        assert_eq!(batch.next_task(w), None);
    }
    assert_eq!(batch.gate_holder(), None);
    assert!(batch.outcome().is_ok());
    let probe = Probe::new(0);
    assert!(run_batch(2, 0, 3, |i, t| {
        probe.record(i, t);
        Ok(())
    })
    .is_ok());
    assert_eq!(probe.ticks.lock().unwrap().len(), 0);
}

#[test]
fn stress_ten_thousand_tasks_on_eight_workers() {
    let n = 10_000;
    let probe = Probe::new(n);
    let r = run_batch(8, n, 77, |i, t| {
        probe.record(i, t);
        Ok(())
    });
    assert!(r.is_ok());
    for i in 0..n {
        assert_eq!(probe.calls(i), 1);
    }
    assert_eq!(probe.ticks.lock().unwrap().len(), n);
    assert_eq!(probe.overlaps.load(Ordering::SeqCst), 0);
}
