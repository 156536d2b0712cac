use vstd::arithmetic::div_mod::lemma_fundamental_div_mod;
use vstd::arithmetic::mul::lemma_mul_inequality;
use vstd::prelude::*;

verus! {

/// Where the share of `worker` begins when `n` tasks are split by count among
/// `workers` workers: each worker gets `n / workers` tasks, and the first
/// `n % workers` workers one task more.
pub open spec fn chunk_start(n: nat, workers: nat, worker: nat) -> nat
    recommends
        workers > 0,
{
    worker * (n / workers) + if worker < n % workers {
        worker
    } else {
        n % workers
    }
}

pub(crate) proof fn lemma_chunk_start_bounds(n: nat, workers: nat, worker: nat)
    requires
        workers > 0,
        worker <= workers,
    ensures
        chunk_start(n, workers, worker) <= n,
        worker * (n / workers) <= n,
        chunk_start(n, workers, workers) == n,
        worker < workers ==> chunk_start(n, workers, worker + 1) == chunk_start(n, workers, worker)
            + n / workers + if worker < n % workers {
            1int
        } else {
            0int
        },
{
    lemma_fundamental_div_mod(n as int, workers as int);
    lemma_mul_inequality(worker as int, workers as int, (n / workers) as int);
    let q = n / workers;
    assert((worker + 1) * q == worker * q + q) by (nonlinear_arith);
}

/// Splits the indices `0..n` into `workers` contiguous ranges `[start, end)`,
/// balanced by count: range `k` starts at `chunk_start(n, workers, k)` and ends
/// where range `k + 1` starts, so the ranges cover every index exactly once
/// and their sizes differ by at most one.
pub fn partition(n: usize, workers: usize) -> (r: Vec<(usize, usize)>)
    requires
        workers > 0,
    ensures
        r@.len() == workers,
        forall|k: int|
            0 <= k < workers ==> {
                &&& r@[k].0 == chunk_start(n as nat, workers as nat, k as nat)
                &&& r@[k].1 == chunk_start(n as nat, workers as nat, (k + 1) as nat)
                &&& r@[k].1 - r@[k].0 == n / workers + if k < n % workers {
                    1int
                } else {
                    0int
                }
            },
        r@.len() > 0 ==> r@[0].0 == 0 && r@[r@.len() - 1].1 == n,
{
    let base: usize = n / workers;
    let extra: usize = n % workers;
    let mut r: Vec<(usize, usize)> = Vec::new();
    let mut start: usize = 0;
    let mut k: usize = 0;
    while k < workers
        invariant
            k <= workers,
            base == n / workers,
            extra == n % workers,
            start == chunk_start(n as nat, workers as nat, k as nat),
            r@.len() == k,
            forall|j: int|
                0 <= j < k ==> {
                    &&& r@[j].0 == chunk_start(n as nat, workers as nat, j as nat)
                    &&& r@[j].1 == chunk_start(n as nat, workers as nat, (j + 1) as nat)
                },
        decreases workers - k,
    {
        proof {
            lemma_chunk_start_bounds(n as nat, workers as nat, (k + 1) as nat);
            lemma_chunk_start_bounds(n as nat, workers as nat, k as nat);
        }
        let size: usize = if k < extra {
            base + 1
        } else {
            base
        };
        let end: usize = start + size;
        r.push((start, end));
        start = end;
        k = k + 1;
    }
    proof {
        lemma_chunk_start_bounds(n as nat, workers as nat, 0);
        lemma_chunk_start_bounds(n as nat, workers as nat, workers as nat);
        assert forall|k: int| 0 <= k < workers implies #[trigger] r@[k].1 - r@[k].0 == n / workers
            + if k < n % workers {
            1int
        } else {
            0int
        } by {
            assert(r@[k].0 == chunk_start(n as nat, workers as nat, k as nat));
            lemma_chunk_start_bounds(n as nat, workers as nat, k as nat);
        }
    }
    r
}

} // verus!
