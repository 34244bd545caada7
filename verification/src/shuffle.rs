//! Random permutations for the one-shot training-set shuffle.
//!
//! The run shuffles the training set once, before the epoch loop. The
//! shuffle is split in two: a draw of random indices, trusted only for
//! staying in range, and a verified Fisher–Yates walk that turns those
//! draws into a permutation of `0..n`. Whatever the draws were, the
//! result is a permutation, so no sample is lost or duplicated.

use vstd::prelude::*;

use vstd::pervasive::VecAdditionalExecFns;

verus! {

/// Relies on rand::random_range: a draw from `0..n` lies in `[0, n)`.
#[verifier::external_body]
fn rand_below(n: usize) -> (r: usize)
    requires
        n >= 1,
    ensures
        r < n,
{
    rand::random_range(0..n)
}

/// `p` rearranges `0..n`: right length, in-range entries, no repeats.
pub open spec fn is_permutation(p: Seq<usize>, n: int) -> bool {
    &&& p.len() == n
    &&& (forall|i: int| 0 <= i < n ==> (#[trigger] p[i]) < n)
    &&& (forall|i: int, j: int| 0 <= i < j < n ==> p[i] != p[j])
}

/// Draw a uniform random permutation of `0..n` by a Fisher–Yates walk
/// from the top of an identity table down.
pub fn random_permutation(n: usize) -> (r: Vec<usize>)
    ensures
        is_permutation(r@, n as int),
{
    let mut v: Vec<usize> = Vec::new();
    let mut i: usize = 0;
    while i < n
        invariant
            i <= n,
            v@.len() == i,
            forall|t: int| 0 <= t < i ==> (#[trigger] v@[t]) == t,
        decreases n - i,
    {
        v.push(i);
        i = i + 1;
    }
    let mut top: usize = n;
    while top > 1
        invariant
            top <= n,
            is_permutation(v@, n as int),
        decreases top,
    {
        let j = rand_below(top);
        let a = v[top - 1];
        let b = v[j];
        v.set(top - 1, b);
        v.set(j, a);
        top = top - 1;
    }
    v
}

} // verus!
