//! Scoring a model's outputs over the evaluation set.
//!
//! The driver runs inference and hands one output vector per sample,
//! each entry an order-preserving integer key of the model's floating
//! output — only comparisons matter to arg-max, so no float enters the
//! core. Scoring never touches the model. Each output's arg-max (lowest index
//! on ties) is the prediction; it is compared with the raw label, and a
//! miss is tallied both under the true class and under the guessed
//! class. Before any comparison the sample's one-hot target is checked
//! against the raw label — a disagreement is a data-integrity fault in
//! the encoding path, not a model error.

use vstd::prelude::*;

use vstd::pervasive::VecAdditionalExecFns;

use crate::dataset::Sample;
use crate::encode::argmax;
use crate::encode::argmax_bytes;
use crate::encode::argmax_bytes_of;
use crate::encode::argmax_of;
use crate::encode::lemma_argmax_upto_props;
use crate::frac::Frac;
use crate::CoreError;

verus! {

/// What one evaluation pass reports: the tallies; the scalar loss is
/// the gateway's own metric, measured separately by the driver.
#[derive(Clone, Debug, PartialEq, Eq)]
pub struct EvalReport {
    pub correct: usize,
    pub total: usize,
    pub incorrect_by_true: Vec<usize>,
    pub incorrect_by_guess: Vec<usize>,
}

/// The views of a batch of output vectors.
pub open spec fn output_views(o: Seq<Vec<i64>>) -> Seq<Seq<i64>> {
    o.map_values(|v: Vec<i64>| v@)
}

/// How many of the first `k` samples the model classified correctly.
pub open spec fn count_correct(outputs: Seq<Seq<i64>>, labels: Seq<u8>, k: int) -> int
    decreases k,
{
    if k <= 0 {
        0
    } else {
        count_correct(outputs, labels, k - 1) + if argmax_of(outputs[k - 1]) == labels[k - 1] as int {
            1int
        } else {
            0int
        }
    }
}

/// Misses among the first `k` samples whose true class is `c`.
pub open spec fn count_missed_true(outputs: Seq<Seq<i64>>, labels: Seq<u8>, c: int, k: int) -> int
    decreases k,
{
    if k <= 0 {
        0
    } else {
        count_missed_true(outputs, labels, c, k - 1) + if labels[k - 1] as int == c && argmax_of(
            outputs[k - 1],
        ) != labels[k - 1] as int {
            1int
        } else {
            0int
        }
    }
}

/// Misses among the first `k` samples whose guessed class is `c`.
pub open spec fn count_missed_guess(outputs: Seq<Seq<i64>>, labels: Seq<u8>, c: int, k: int) -> int
    decreases k,
{
    if k <= 0 {
        0
    } else {
        count_missed_guess(outputs, labels, c, k - 1) + if argmax_of(outputs[k - 1]) == c
            && argmax_of(outputs[k - 1]) != labels[k - 1] as int {
            1int
        } else {
            0int
        }
    }
}

/// Sum over classes `0..c_hi` of misses tallied under their true class.
pub open spec fn sum_missed_true(outputs: Seq<Seq<i64>>, labels: Seq<u8>, c_hi: int, k: int) -> int
    decreases c_hi,
{
    if c_hi <= 0 {
        0
    } else {
        sum_missed_true(outputs, labels, c_hi - 1, k) + count_missed_true(
            outputs,
            labels,
            c_hi - 1,
            k,
        )
    }
}

/// Sum over classes `0..c_hi` of misses tallied under the guessed class.
pub open spec fn sum_missed_guess(outputs: Seq<Seq<i64>>, labels: Seq<u8>, c_hi: int, k: int) -> int
    decreases c_hi,
{
    if c_hi <= 0 {
        0
    } else {
        sum_missed_guess(outputs, labels, c_hi - 1, k) + count_missed_guess(
            outputs,
            labels,
            c_hi - 1,
            k,
        )
    }
}

proof fn lemma_sum_missed_zero(outputs: Seq<Seq<i64>>, labels: Seq<u8>, c_hi: int)
    ensures
        sum_missed_true(outputs, labels, c_hi, 0) == 0,
        sum_missed_guess(outputs, labels, c_hi, 0) == 0,
    decreases c_hi,
{
    if c_hi > 0 {
        lemma_sum_missed_zero(outputs, labels, c_hi - 1);
    }
}

proof fn lemma_sum_missed_true_step(outputs: Seq<Seq<i64>>, labels: Seq<u8>, c_hi: int, k: int)
    requires
        k >= 1,
    ensures
        sum_missed_true(outputs, labels, c_hi, k) == sum_missed_true(outputs, labels, c_hi, k - 1)
            + if (labels[k - 1] as int) < c_hi && argmax_of(outputs[k - 1]) != labels[k - 1] as int {
            1int
        } else {
            0int
        },
    decreases c_hi,
{
    if c_hi > 0 {
        lemma_sum_missed_true_step(outputs, labels, c_hi - 1, k);
    }
}

proof fn lemma_sum_missed_guess_step(outputs: Seq<Seq<i64>>, labels: Seq<u8>, c_hi: int, k: int)
    requires
        k >= 1,
    ensures
        sum_missed_guess(outputs, labels, c_hi, k) == sum_missed_guess(
            outputs,
            labels,
            c_hi,
            k - 1,
        ) + if 0 <= argmax_of(outputs[k - 1]) < c_hi && argmax_of(outputs[k - 1]) != labels[k
            - 1] as int {
            1int
        } else {
            0int
        },
    decreases c_hi,
{
    if c_hi > 0 {
        lemma_sum_missed_guess_step(outputs, labels, c_hi - 1, k);
    }
}

/// Law: the per-class miss tallies each sum to exactly the number of
/// misclassified samples, total minus correct — one tally under the
/// true class and one under the guessed class, both accounting for
/// every miss exactly once.
pub proof fn lemma_miss_tallies_sum(
    outputs: Seq<Seq<i64>>,
    labels: Seq<u8>,
    num_classes: int,
    k: int,
)
    requires
        num_classes >= 1,
        0 <= k <= labels.len(),
        labels.len() <= outputs.len(),
        forall|i: int| 0 <= i < labels.len() ==> ((#[trigger] labels[i]) as int) < num_classes,
        forall|i: int| 0 <= i < labels.len() ==> (#[trigger] outputs[i]).len() == num_classes,
    ensures
        sum_missed_true(outputs, labels, num_classes, k) == k - count_correct(outputs, labels, k),
        sum_missed_guess(outputs, labels, num_classes, k) == k - count_correct(outputs, labels, k),
    decreases k,
{
    if k == 0 {
        lemma_sum_missed_zero(outputs, labels, num_classes);
    }
    if k > 0 {
        lemma_miss_tallies_sum(outputs, labels, num_classes, k - 1);
        lemma_sum_missed_true_step(outputs, labels, num_classes, k);
        lemma_sum_missed_guess_step(outputs, labels, num_classes, k);
        lemma_argmax_upto_props(outputs[k - 1], outputs[k - 1].len() as int);
        let am = argmax_of(outputs[k - 1]);
        assert(0 <= am < num_classes);
        assert((labels[k - 1] as int) < num_classes);
        assert(count_correct(outputs, labels, k) == count_correct(outputs, labels, k - 1) + if am
            == labels[k - 1] as int {
            1int
        } else {
            0int
        });
    }
}

/// The evaluation inputs agree: one output vector and one label per
/// sample, every vector as wide as the class count, every label a
/// valid class, and every target's arg-max equal to its raw label.
pub open spec fn eval_inputs_ok(
    samples: Seq<Sample>,
    outputs: Seq<Seq<i64>>,
    labels: Seq<u8>,
    num_classes: int,
) -> bool {
    &&& samples.len() == labels.len()
    &&& outputs.len() == labels.len()
    &&& (forall|i: int| 0 <= i < labels.len() ==> (#[trigger] outputs[i]).len() == num_classes)
    &&& (forall|i: int|
        0 <= i < labels.len() ==> (#[trigger] samples[i]).target@.len() == num_classes)
    &&& (forall|i: int| 0 <= i < labels.len() ==> ((#[trigger] labels[i]) as int) < num_classes)
    &&& (forall|i: int|
        0 <= i < labels.len() ==> argmax_bytes_of((#[trigger] samples[i]).target@) == labels[i] as int)
}

/// Score one inference pass over the evaluation set.
pub fn evaluate(
    samples: &Vec<Sample>,
    outputs: &Vec<Vec<i64>>,
    labels: &Vec<u8>,
    num_classes: usize,
) -> (r: Result<EvalReport, CoreError>)
    requires
        num_classes >= 1,
    ensures
        match r {
            Ok(rep) => {
                &&& eval_inputs_ok(samples@, output_views(outputs@), labels@, num_classes as int)
                &&& rep.total == labels@.len()
                &&& rep.correct == count_correct(
                    output_views(outputs@),
                    labels@,
                    labels@.len() as int,
                )
                &&& rep.correct <= rep.total
                &&& rep.incorrect_by_true@.len() == num_classes
                &&& rep.incorrect_by_guess@.len() == num_classes
                &&& (forall|c: int|
                    0 <= c < num_classes ==> rep.incorrect_by_true@[c] == count_missed_true(
                        output_views(outputs@),
                        labels@,
                        c,
                        labels@.len() as int,
                    ))
                &&& (forall|c: int|
                    0 <= c < num_classes ==> rep.incorrect_by_guess@[c] == count_missed_guess(
                        output_views(outputs@),
                        labels@,
                        c,
                        labels@.len() as int,
                    ))
            },
            Err(e) => {
                &&& !eval_inputs_ok(samples@, output_views(outputs@), labels@, num_classes as int)
                &&& (e == CoreError::SizeMismatch || e == CoreError::LabelOutOfRange || e
                    == CoreError::DataIntegrity)
                &&& (e == CoreError::SizeMismatch ==> samples@.len() != labels@.len()
                    || outputs@.len() != labels@.len() || exists|i: int|
                    0 <= i < labels@.len() && ((#[trigger] output_views(outputs@)[i]).len()
                        != num_classes || samples@[i].target@.len() != num_classes))
                &&& (e == CoreError::LabelOutOfRange ==> exists|i: int|
                    0 <= i < labels@.len() && ((#[trigger] labels@[i]) as int) >= num_classes)
                &&& (e == CoreError::DataIntegrity ==> exists|i: int|
                    0 <= i < labels@.len() && argmax_bytes_of((#[trigger] samples@[i]).target@)
                        != labels@[i] as int)
            },
        },
{
    let n = labels.len();
    if samples.len() != n || outputs.len() != n {
        return Err(CoreError::SizeMismatch);
    }
    let mut incorrect_by_true: Vec<usize> = Vec::new();
    let mut incorrect_by_guess: Vec<usize> = Vec::new();
    let mut c: usize = 0;
    while c < num_classes
        invariant
            c <= num_classes,
            incorrect_by_true@.len() == c,
            incorrect_by_guess@.len() == c,
            forall|t: int| 0 <= t < c ==> (#[trigger] incorrect_by_true@[t]) == 0,
            forall|t: int| 0 <= t < c ==> (#[trigger] incorrect_by_guess@[t]) == 0,
        decreases num_classes - c,
    {
        incorrect_by_true.push(0);
        incorrect_by_guess.push(0);
        c = c + 1;
    }
    let ghost ov = output_views(outputs@);
    let mut correct: usize = 0;
    let mut i: usize = 0;
    while i < n
        invariant
            i <= n,
            n == labels@.len(),
            n == samples@.len(),
            n == outputs@.len(),
            num_classes >= 1,
            ov == output_views(outputs@),
            correct <= i,
            correct == count_correct(ov, labels@, i as int),
            incorrect_by_true@.len() == num_classes,
            incorrect_by_guess@.len() == num_classes,
            forall|t: int|
                0 <= t < num_classes ==> (#[trigger] incorrect_by_true@[t]) == count_missed_true(
                    ov,
                    labels@,
                    t,
                    i as int,
                ) && incorrect_by_true@[t] <= i,
            forall|t: int|
                0 <= t < num_classes ==> (#[trigger] incorrect_by_guess@[t]) == count_missed_guess(
                    ov,
                    labels@,
                    t,
                    i as int,
                ) && incorrect_by_guess@[t] <= i,
            forall|t: int| 0 <= t < i ==> (#[trigger] ov[t]).len() == num_classes,
            forall|t: int|
                0 <= t < i ==> (#[trigger] samples@[t]).target@.len() == num_classes,
            forall|t: int| 0 <= t < i ==> ((#[trigger] labels@[t]) as int) < num_classes,
            forall|t: int|
                0 <= t < i ==> argmax_bytes_of((#[trigger] samples@[t]).target@) == labels@[t] as int,
        decreases n - i,
    {
        if outputs[i].len() != num_classes {
            proof {
                assert(ov[i as int] == outputs@[i as int]@);
                assert(!eval_inputs_ok(samples@, ov, labels@, num_classes as int));
                assert(output_views(outputs@)[i as int].len() != num_classes);
            }
            return Err(CoreError::SizeMismatch);
        }
        if samples[i].target.len() != num_classes {
            proof {
                assert(samples@[i as int].target@.len() != num_classes);
                assert(!eval_inputs_ok(samples@, ov, labels@, num_classes as int));
                assert(output_views(outputs@)[i as int] == ov[i as int]);
            }
            return Err(CoreError::SizeMismatch);
        }
        let lbl = labels[i];
        if (lbl as usize) >= num_classes {
            proof {
                assert((labels@[i as int] as int) >= num_classes);
                assert(!eval_inputs_ok(samples@, ov, labels@, num_classes as int));
            }
            return Err(CoreError::LabelOutOfRange);
        }
        let true_class = argmax_bytes(&samples[i].target);
        if true_class != lbl as usize {
            proof {
                assert(argmax_bytes_of(samples@[i as int].target@) != labels@[i as int] as int);
                assert(!eval_inputs_ok(samples@, ov, labels@, num_classes as int));
            }
            return Err(CoreError::DataIntegrity);
        }
        let pred = argmax(&outputs[i]);
        if pred == lbl as usize {
            correct = correct + 1;
        } else {
            let cur_true = incorrect_by_true[lbl as usize];
            incorrect_by_true.set(lbl as usize, cur_true + 1);
            let cur_guess = incorrect_by_guess[pred];
            incorrect_by_guess.set(pred, cur_guess + 1);
        }
        i = i + 1;
    }
    Ok(EvalReport { correct, total: n, incorrect_by_true, incorrect_by_guess })
}

impl EvalReport {
    /// The exact accuracy percentage, `correct * 100 / total`, as a
    /// fraction.
    pub fn accuracy_percent(&self) -> (r: Frac)
        requires
            self.total >= 1,
            self.correct <= self.total,
            self.correct * 100 <= u64::MAX,
            self.total <= u64::MAX,
        ensures
            r.wf(),
            r.num == self.correct * 100,
            r.den == self.total,
    {
        Frac { num: (self.correct as u64) * 100, den: self.total as u64 }
    }
}

} // verus!
