//! Sample encoding: pixel normalization, one-hot targets, and arg-max.
//!
//! A raw pixel byte `b` denotes the intensity `b / 255`; the exact
//! fraction is the specification, and a driver performs the one floating
//! division when it feeds a numeric model. Targets are one-hot byte
//! vectors. Arg-max scans left to right and replaces the best index only
//! on a strictly greater value, so ties keep the lowest index.

use vstd::prelude::*;

use crate::frac::Frac;
use crate::CoreError;

verus! {

/// The exact intensity a raw pixel byte denotes.
pub open spec fn pixel_frac(b: u8) -> Frac {
    Frac { num: b as u64, den: 255 }
}

/// Normalize one raw pixel byte to its exact intensity in `[0, 1]`.
pub fn normalize_pixel(b: u8) -> (r: Frac)
    ensures
        r == pixel_frac(b),
        r.wf(),
        r.in_unit(),
{
    Frac { num: b as u64, den: 255 }
}

/// Law: normalization sends every byte into the unit interval, with the
/// extremes mapped exactly: 0 to 0 and 255 to 1.
pub proof fn lemma_normalize_unit_range(b: u8)
    ensures
        pixel_frac(b).wf(),
        pixel_frac(b).in_unit(),
        b == 0 ==> pixel_frac(b).num == 0,
        b == 255 ==> pixel_frac(b).num == pixel_frac(b).den,
{
}

/// The one-hot target for class `label` among `n` classes.
pub open spec fn one_hot_seq(label: int, n: int) -> Seq<u8> {
    Seq::new(n as nat, |i: int| if i == label { 1u8 } else { 0u8 })
}

/// Encode a class label as a one-hot target vector, rejecting labels at
/// or beyond the class count.
pub fn one_hot(label: u8, num_classes: usize) -> (r: Result<Vec<u8>, CoreError>)
    ensures
        match r {
            Ok(v) => (label as int) < num_classes && v@ == one_hot_seq(
                label as int,
                num_classes as int,
            ),
            Err(e) => (label as int) >= num_classes && e == CoreError::LabelOutOfRange,
        },
{
    if (label as usize) >= num_classes {
        return Err(CoreError::LabelOutOfRange);
    }
    let mut v: Vec<u8> = Vec::new();
    let mut i: usize = 0;
    while i < num_classes
        invariant
            i <= num_classes,
            (label as int) < num_classes,
            v@.len() == i,
            forall|j: int| 0 <= j < i ==> v@[j] == (if j == label as int { 1u8 } else { 0u8 }),
        decreases num_classes - i,
    {
        if i == label as usize {
            v.push(1);
        } else {
            v.push(0);
        }
        i = i + 1;
    }
    proof {
        assert(v@ =~= one_hot_seq(label as int, num_classes as int));
    }
    Ok(v)
}

/// Index of the maximum over the first `k` entries, lowest index on ties.
pub open spec fn argmax_upto(s: Seq<i64>, k: int) -> int
    decreases k,
{
    if k <= 1 {
        0
    } else {
        let p = argmax_upto(s, k - 1);
        if s[k - 1] > s[p] {
            k - 1
        } else {
            p
        }
    }
}

/// Index of the maximum of a whole output vector, lowest index on ties.
pub open spec fn argmax_of(s: Seq<i64>) -> int {
    argmax_upto(s, s.len() as int)
}

/// The arg-max over a prefix lies in the prefix, dominates every entry of
/// it, and strictly dominates everything to its left.
pub proof fn lemma_argmax_upto_props(s: Seq<i64>, k: int)
    requires
        1 <= k <= s.len(),
    ensures
        0 <= argmax_upto(s, k) < k,
        forall|j: int| 0 <= j < k ==> #[trigger] s[j] <= s[argmax_upto(s, k)],
        forall|j: int| 0 <= j < argmax_upto(s, k) ==> #[trigger] s[j] < s[argmax_upto(s, k)],
    decreases k,
{
    if k > 1 {
        lemma_argmax_upto_props(s, k - 1);
    }
}

/// Predicted class of an output vector: the lowest index holding the
/// maximum value.
pub fn argmax(v: &Vec<i64>) -> (r: usize)
    requires
        v@.len() >= 1,
    ensures
        r == argmax_of(v@),
        r < v@.len(),
        forall|j: int| 0 <= j < v@.len() ==> v@[j] <= v@[r as int],
        forall|j: int| 0 <= j < r ==> v@[j] < v@[r as int],
{
    let mut best: usize = 0;
    let mut i: usize = 1;
    while i < v.len()
        invariant
            1 <= i <= v@.len(),
            best == argmax_upto(v@, i as int),
            0 <= best < i,
        decreases v@.len() - i,
    {
        if v[i] > v[best] {
            best = i;
        }
        i = i + 1;
    }
    proof {
        lemma_argmax_upto_props(v@, v@.len() as int);
    }
    best
}

/// Law: ties go to the lowest index. If `i < j` hold the same maximal
/// value, the arg-max is at or before `i`, never at `j`.
pub proof fn lemma_argmax_tie_break(s: Seq<i64>, i: int, j: int)
    requires
        0 <= i < j < s.len(),
        s[i] == s[j],
        forall|k: int| 0 <= k < s.len() ==> s[k] <= s[i],
    ensures
        argmax_of(s) <= i,
        argmax_of(s) != j,
        s[argmax_of(s)] == s[i],
{
    lemma_argmax_upto_props(s, s.len() as int);
}

/// Index of the maximum over the first `k` entries of a byte vector,
/// lowest index on ties; the same rule the target path uses.
pub open spec fn argmax_bytes_upto(s: Seq<u8>, k: int) -> int
    decreases k,
{
    if k <= 1 {
        0
    } else {
        let p = argmax_bytes_upto(s, k - 1);
        if s[k - 1] > s[p] {
            k - 1
        } else {
            p
        }
    }
}

/// Index of the maximum of a target vector, lowest index on ties.
pub open spec fn argmax_bytes_of(s: Seq<u8>) -> int {
    argmax_bytes_upto(s, s.len() as int)
}

/// The byte arg-max over a prefix lies in the prefix, dominates every
/// entry of it, and strictly dominates everything to its left.
pub proof fn lemma_argmax_bytes_upto_props(s: Seq<u8>, k: int)
    requires
        1 <= k <= s.len(),
    ensures
        0 <= argmax_bytes_upto(s, k) < k,
        forall|j: int| 0 <= j < k ==> #[trigger] s[j] <= s[argmax_bytes_upto(s, k)],
        forall|j: int| 0 <= j < argmax_bytes_upto(s, k) ==> #[trigger] s[j] < s[argmax_bytes_upto(s, k)],
    decreases k,
{
    if k > 1 {
        lemma_argmax_bytes_upto_props(s, k - 1);
    }
}

/// Recover the true class from a one-hot target vector.
pub fn argmax_bytes(v: &Vec<u8>) -> (r: usize)
    requires
        v@.len() >= 1,
    ensures
        r == argmax_bytes_of(v@),
        r < v@.len(),
        forall|j: int| 0 <= j < v@.len() ==> v@[j] <= v@[r as int],
        forall|j: int| 0 <= j < r ==> v@[j] < v@[r as int],
{
    let mut best: usize = 0;
    let mut i: usize = 1;
    while i < v.len()
        invariant
            1 <= i <= v@.len(),
            best == argmax_bytes_upto(v@, i as int),
            0 <= best < i,
        decreases v@.len() - i,
    {
        if v[i] > v[best] {
            best = i;
        }
        i = i + 1;
    }
    proof {
        lemma_argmax_bytes_upto_props(v@, v@.len() as int);
    }
    best
}

/// Law: the arg-max of a one-hot vector is exactly the hot index.
pub proof fn lemma_one_hot_argmax(label: int, n: int)
    requires
        0 <= label < n,
    ensures
        argmax_bytes_of(one_hot_seq(label, n)) == label,
{
    let s = one_hot_seq(label, n);
    lemma_argmax_bytes_upto_props(s, n);
    let am = argmax_bytes_of(s);
    assert(s[label] == 1u8);
    assert(s[label] <= s[am]);
    if am != label {
        assert(s[am] == 0u8);
    }
}

} // verus!
