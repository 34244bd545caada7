//! Epoch and batch scheduling, and the per-checkpoint control decisions.
//!
//! An epoch partitions the (already shuffled) training set into
//! consecutive batches of a fixed size; a final partial batch is kept,
//! never dropped. Every `eval_every` epochs the run takes a checkpoint:
//! the evaluator measures the error, the percentage delta is reported
//! only when the previous error was nonzero, and the adaptive policy
//! rescales the learning rate.

use vstd::prelude::*;

use vstd::arithmetic::div_mod::lemma_fundamental_div_mod;
use vstd::arithmetic::div_mod::lemma_fundamental_div_mod_converse_div;

use crate::frac::Frac;
use crate::CoreError;

verus! {

/// How many batches an epoch of `n` samples runs with batch size `s`:
/// the ceiling of `n / s`.
pub open spec fn spec_num_batches(n: int, s: int) -> int {
    if n % s == 0 {
        n / s
    } else {
        n / s + 1
    }
}

/// First sample index of batch `i`.
pub open spec fn batch_start(i: int, s: int) -> int {
    i * s
}

/// One past the last sample index of batch `i` in an epoch of `n`.
pub open spec fn batch_end(n: int, i: int, s: int) -> int {
    if (i + 1) * s <= n {
        (i + 1) * s
    } else {
        n
    }
}

/// Number of batch iterations one epoch performs.
pub fn num_batches(n: usize, batch_size: usize) -> (r: usize)
    requires
        batch_size >= 1,
    ensures
        r == spec_num_batches(n as int, batch_size as int),
{
    let q = n / batch_size;
    let rem = n % batch_size;
    if rem == 0 {
        q
    } else {
        proof {
            lemma_fundamental_div_mod(n as int, batch_size as int);
            assert(q < usize::MAX) by (nonlinear_arith)
                requires
                    n as int == batch_size as int * q as int + rem as int,
                    1 <= rem as int,
                    (rem as int) < (batch_size as int),
                    n <= usize::MAX,
                    q >= 0,
            ;
        }
        q + 1
    }
}

/// Half-open sample range `[start, end)` of batch `i`; every batch is
/// nonempty and ends within the dataset.
pub fn batch_range(n: usize, batch_size: usize, i: usize) -> (r: (usize, usize))
    requires
        batch_size >= 1,
        i < spec_num_batches(n as int, batch_size as int),
    ensures
        r.0 == batch_start(i as int, batch_size as int),
        r.1 == batch_end(n as int, i as int, batch_size as int),
        r.0 < r.1 <= n,
{
    proof {
        let ni = n as int;
        let si = batch_size as int;
        let ii = i as int;
        lemma_fundamental_div_mod(ni, si);
        assert(ii * si < ni && ii * si + si >= ii * si + 1) by (nonlinear_arith)
            requires
                ni == si * (ni / si) + ni % si,
                0 <= ni % si < si,
                1 <= si,
                0 <= ii,
                ii < spec_num_batches(ni, si),
                spec_num_batches(ni, si) == if ni % si == 0 { ni / si } else { ni / si + 1 },
        ;
        assert((ii + 1) * si == ii * si + si) by (nonlinear_arith);
    }
    let start = i * batch_size;
    if batch_size <= n - start {
        (start, start + batch_size)
    } else {
        (start, n)
    }
}

/// Law: an epoch of `n` samples with batch size `s` runs exactly
/// `ceil(n / s)` batches — the batch count is the least multiple count
/// covering `n` — and every sample index `j` lies in exactly one batch,
/// namely batch `j / s`.
pub proof fn lemma_batches_partition(n: int, s: int, j: int)
    requires
        s >= 1,
        0 <= j < n,
    ensures
        spec_num_batches(n, s) * s >= n,
        (spec_num_batches(n, s) - 1) * s < n,
        0 <= j / s < spec_num_batches(n, s),
        forall|i: int|
            0 <= i < spec_num_batches(n, s) ==> ((#[trigger] batch_start(i, s) <= j
                < batch_end(n, i, s)) <==> i == j / s),
{
    lemma_fundamental_div_mod(n, s);
    lemma_fundamental_div_mod(j, s);
    let nb = spec_num_batches(n, s);
    assert(nb * s >= n && (nb - 1) * s < n) by (nonlinear_arith)
        requires
            n == s * (n / s) + n % s,
            0 <= n % s < s,
            s >= 1,
            nb == if n % s == 0 { n / s } else { n / s + 1 },
    ;
    assert(0 <= j / s && j / s < nb) by (nonlinear_arith)
        requires
            n == s * (n / s) + n % s,
            0 <= n % s < s,
            j == s * (j / s) + j % s,
            0 <= j % s < s,
            s >= 1,
            0 <= j < n,
            nb == if n % s == 0 { n / s } else { n / s + 1 },
    ;
    assert forall|i: int|
        0 <= i < nb implies ((#[trigger] batch_start(i, s) <= j < batch_end(n, i, s)) <==> i == j
        / s) by {
        if batch_start(i, s) <= j < batch_end(n, i, s) {
            assert(i * s <= j < i * s + s) by (nonlinear_arith)
                requires
                    batch_start(i, s) <= j < batch_end(n, i, s),
                    batch_start(i, s) == i * s,
                    batch_end(n, i, s) == if (i + 1) * s <= n { (i + 1) * s } else { n },
                    j < n,
                    s >= 1,
            ;
            lemma_fundamental_div_mod_converse_div(j, s, i, j - i * s);
        }
        if i == j / s {
            assert(batch_start(i, s) <= j < batch_end(n, i, s)) by (nonlinear_arith)
                requires
                    j == s * (j / s) + j % s,
                    0 <= j % s < s,
                    i == j / s,
                    0 <= j < n,
                    s >= 1,
                    batch_start(i, s) == i * s,
                    batch_end(n, i, s) == if (i + 1) * s <= n { (i + 1) * s } else { n },
            ;
        }
    }
}

/// The full batch plan of one epoch: every batch's half-open sample
/// range, in order, the final partial batch included.
pub fn epoch_batches(n: usize, batch_size: usize) -> (r: Vec<(usize, usize)>)
    requires
        batch_size >= 1,
    ensures
        r@.len() == spec_num_batches(n as int, batch_size as int),
        forall|i: int|
            0 <= i < r@.len() ==> (#[trigger] r@[i]).0 == batch_start(i, batch_size as int)
                && r@[i].1 == batch_end(n as int, i, batch_size as int),
{
    let nb = num_batches(n, batch_size);
    let mut out: Vec<(usize, usize)> = Vec::new();
    let mut i: usize = 0;
    while i < nb
        invariant
            i <= nb,
            batch_size >= 1,
            nb == spec_num_batches(n as int, batch_size as int),
            out@.len() == i,
            forall|t: int|
                0 <= t < i ==> (#[trigger] out@[t]).0 == batch_start(t, batch_size as int)
                    && out@[t].1 == batch_end(n as int, t, batch_size as int),
        decreases nb - i,
    {
        let range = batch_range(n, batch_size, i);
        out.push(range);
        i = i + 1;
    }
    out
}

/// Whether epoch `epoch` is an evaluation checkpoint: one epoch in every
/// `eval_every` is, starting with the first.
pub fn is_checkpoint(epoch: usize, eval_every: usize) -> (r: bool)
    requires
        eval_every >= 1,
    ensures
        r <==> epoch as int % eval_every as int == 0,
{
    epoch % eval_every == 0
}

/// What one checkpoint decides: the learning rate to continue with, and
/// whether the report's percentage delta is defined at all.
pub struct CheckpointDecision {
    pub new_rate: Frac,
    pub delta_defined: bool,
}

/// The control decisions of one evaluation checkpoint. The percentage
/// delta against the previous error is defined only when that error was
/// nonzero — a zero denominator yields an undefined delta, never a
/// non-finite report. With the adaptive policy on, the rate is rescaled
/// by 99/100 when the error worsened and by 101/100 otherwise; off, it
/// is kept unchanged.
pub fn checkpoint_step(
    rate: &Frac,
    adaptive: bool,
    error_worsened: bool,
    last_error_was_zero: bool,
) -> (r: Result<CheckpointDecision, CoreError>)
    requires
        rate.wf(),
    ensures
        match r {
            Ok(d) => {
                &&& d.new_rate.wf()
                &&& (d.delta_defined <==> !last_error_was_zero)
                &&& (!adaptive ==> d.new_rate == *rate)
                &&& (adaptive && error_worsened ==> d.new_rate == (Frac {
                    num: (rate.num * 99) as u64,
                    den: (rate.den * 100) as u64,
                }))
                &&& (adaptive && !error_worsened ==> d.new_rate == (Frac {
                    num: (rate.num * 101) as u64,
                    den: (rate.den * 100) as u64,
                }))
            },
            Err(e) => {
                &&& adaptive
                &&& (rate.num > u64::MAX / 101 || rate.den > u64::MAX / 100)
                &&& e == CoreError::RateOverflow
            },
        },
{
    let new_rate = if adaptive {
        match rate.checked_adjusted(error_worsened) {
            Ok(f) => f,
            Err(e) => {
                return Err(e);
            },
        }
    } else {
        *rate
    };
    Ok(CheckpointDecision { new_rate, delta_defined: !last_error_was_zero })
}

} // verus!
