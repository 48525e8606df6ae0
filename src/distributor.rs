//! Static round-robin partition of the candidates among the workers: worker
//! `i` of `n` takes the candidates at indices `i, i + n, i + 2n, ...`.
use vstd::prelude::*;
use vstd::arithmetic::div_mod::{lemma_fundamental_div_mod, lemma_fundamental_div_mod_converse};

verus! {

/// How many indices of `[0, len)` leave the remainder `worker` when divided
/// by `workers`: the size of that worker's share.
pub open spec fn stride_count(len: nat, worker: nat, workers: nat) -> nat
    decreases len,
{
    if len == 0 {
        0
    } else {
        stride_count((len - 1) as nat, worker, workers) + if (len - 1) as nat % workers == worker {
            1nat
        } else {
            0nat
        }
    }
}

/// The candidates that fall to `worker`, in the order it processes them.
pub open spec fn share_of(candidates: Seq<u32>, worker: nat, workers: nat) -> Seq<u32> {
    Seq::new(
        stride_count(candidates.len(), worker, workers),
        |j: int| candidates[worker + j * workers],
    )
}

/// The sizes of the shares of workers `0..m`, added up.
pub open spec fn shares_total(len: nat, workers: nat, m: nat) -> nat
    decreases m,
{
    if m == 0 {
        0
    } else {
        shares_total(len, workers, (m - 1) as nat) + stride_count(len, (m - 1) as nat, workers)
    }
}

proof fn lemma_mod_of_sum(w: int, i: int, n: int)
    requires
        0 <= w < n,
        1 <= i < n,
    ensures
        (w + i) % n != w,
{
    if w + i < n {
        lemma_fundamental_div_mod_converse(w + i, n, 0, w + i);
    } else {
        lemma_fundamental_div_mod_converse(w + i, n, 1, w + i - n);
    }
}

/// Indices below the worker's own number hold nothing of its share.
proof fn lemma_count_below(x: nat, w: nat, n: nat)
    requires
        x <= w < n,
    ensures
        stride_count(x, w, n) == 0,
    decreases x,
{
    if x > 0 {
        lemma_fundamental_div_mod_converse((x - 1) as int, n as int, 0, (x - 1) as int);
        lemma_count_below((x - 1) as nat, w, n);
    }
}

/// Past an index `k` of the worker's share, the next `n - 1` indices belong
/// to other workers.
proof fn lemma_count_flat(k: nat, i: nat, w: nat, n: nat)
    requires
        w < n,
        k % n == w,
        1 <= i <= n,
    ensures
        stride_count(k + i, w, n) == stride_count(k, w, n) + 1,
    decreases i,
{
    if i > 1 {
        lemma_count_flat(k, (i - 1) as nat, w, n);
        lemma_fundamental_div_mod(k as int, n as int);
        let q = k as int / n as int;
        let x = (w + i - 1) as int;
        lemma_fundamental_div_mod(x, n as int);
        let a = x / (n as int);
        let b = x % (n as int);
        assert(k + i - 1 == (q + a) * n + b) by (nonlinear_arith)
            requires
                k == n * q + w,
                x == w + i - 1,
                x == n * a + b,
        ;
        lemma_mod_of_sum(w as int, (i - 1) as int, n as int);
        lemma_fundamental_div_mod_converse((k + i - 1) as int, n as int, q + a, b);
    }
}

/// The candidates of `worker`'s share: indices `worker, worker + workers, ...`.
pub fn worker_share(candidates: &Vec<u32>, worker: usize, workers: usize) -> (r: Vec<u32>)
    requires
        worker < workers,
    ensures
        r@ == share_of(candidates@, worker as nat, workers as nat),
{
    let ghost n = workers as nat;
    let ghost w = worker as nat;
    let mut out: Vec<u32> = Vec::new();
    let mut k: u128 = worker as u128;
    proof {
        lemma_fundamental_div_mod_converse(w as int, n as int, 0, w as int);
        lemma_count_below(w, w, n);
        if w >= candidates@.len() {
            lemma_count_below(candidates@.len(), w, n);
        }
    }
    while k < candidates.len() as u128
        invariant
            w < n,
            n == workers,
            k <= candidates@.len() + workers,
            k as int == w + out@.len() * n,
            (k as nat) % n == w,
            stride_count(k as nat, w, n) == out@.len(),
            forall|j: int| 0 <= j < out@.len() ==> #[trigger] out@[j] == candidates@[w + j * n],
            k >= candidates@.len() ==> stride_count(candidates@.len(), w, n) == out@.len(),
        decreases candidates@.len() + workers - k,
    {
        out.push(candidates[k as usize]);
        proof {
            lemma_count_flat(k as nat, n, w, n);
            assert(forall|j: int| 0 <= j < out@.len() ==> #[trigger] out@[j] == candidates@[w + j * n]) by {
                assert(out@[out@.len() - 1] == candidates@[k as int]);
            }
            assert(k + n == w + out@.len() * n) by (nonlinear_arith)
                requires
                    k == w + (out@.len() - 1) * n,
            ;
            lemma_fundamental_div_mod(k as int, n as int);
            let q = (k as int) / (n as int);
            assert(k + n == (q + 1) * n + w) by (nonlinear_arith)
                requires
                    k == n * q + w,
            ;
            lemma_fundamental_div_mod_converse((k + n) as int, n as int, q + 1, w as int);
            if k + n >= candidates@.len() {
                let len = candidates@.len();
                lemma_count_flat(k as nat, (len - k) as nat, w, n);
            }
        }
        k = k + workers as u128;
    }
    assert(out@ =~= share_of(candidates@, w, n));
    out
}

proof fn lemma_shares_total_empty(workers: nat, m: nat)
    ensures
        shares_total(0, workers, m) == 0,
    decreases m,
{
    if m > 0 {
        lemma_shares_total_empty(workers, (m - 1) as nat);
    }
}

proof fn lemma_shares_total_step(len: nat, workers: nat, m: nat)
    requires
        len >= 1,
        workers >= 1,
    ensures
        shares_total(len, workers, m) == shares_total((len - 1) as nat, workers, m) + if (len - 1) as nat
            % workers < m {
            1nat
        } else {
            0nat
        },
    decreases m,
{
    if m > 0 {
        lemma_shares_total_step(len, workers, (m - 1) as nat);
    }
}

/// Every candidate is counted in exactly one share: the sizes of the shares
/// of all `workers` workers add up to the number of candidates, whatever the
/// number of workers.
pub proof fn lemma_shares_cover(len: nat, workers: nat)
    requires
        workers >= 1,
    ensures
        shares_total(len, workers, workers) == len,
    decreases len,
{
    if len == 0 {
        lemma_shares_total_empty(workers, workers);
    } else {
        lemma_shares_cover((len - 1) as nat, workers);
        lemma_shares_total_step(len, workers, workers);
    }
}

/// The candidate at index `k` falls to exactly one worker, `k % workers`, at
/// exactly one place of its share, `k / workers`.
pub proof fn lemma_single_owner(k: nat, workers: nat, worker: nat, j: nat)
    requires
        workers >= 1,
        worker < workers,
    ensures
        (worker + j * workers == k) <==> (worker == k % workers && j == k / workers),
{
    lemma_fundamental_div_mod(k as int, workers as int);
    assert(j * workers == workers * j) by (nonlinear_arith);
    if worker + j * workers == k {
        lemma_fundamental_div_mod_converse(k as int, workers as int, j as int, worker as int);
    }
}

} // verus!
