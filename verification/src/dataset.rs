//! Assembling raw parallel buffers into ordered datasets of samples.
//!
//! The raw source hands over one flat pixel buffer and one label byte
//! per sample. Assembly cuts the buffer into contiguous fixed-size
//! chunks, pairs chunk `i` with label `i`, and encodes the label as a
//! one-hot target. A chunk-count/label-count mismatch and an
//! out-of-range label are both fatal configuration errors. The training
//! set may be assembled in a permuted order; the evaluation set keeps
//! the raw order, which the integrity check later relies on.

use vstd::prelude::*;

use vstd::arithmetic::div_mod::lemma_fundamental_div_mod;
use vstd::arithmetic::div_mod::lemma_fundamental_div_mod_converse_div;
use vstd::arithmetic::div_mod::lemma_fundamental_div_mod_converse_mod;
use vstd::arithmetic::mul::lemma_mul_inequality;
use vstd::slice::slice_subrange;
use vstd::slice::slice_to_vec;

use crate::encode::one_hot;
use crate::encode::one_hot_seq;
use crate::CoreError;

verus! {

/// One training or evaluation sample: raw pixel bytes (each denoting
/// `b / 255`) and a one-hot target.
#[derive(Clone, Debug, PartialEq, Eq)]
pub struct Sample {
    pub pixels: Vec<u8>,
    pub target: Vec<u8>,
}

/// The pixel chunk of raw sample `i` in the flat buffer.
pub open spec fn chunk_of(images: Seq<u8>, sample_size: int, i: int) -> Seq<u8> {
    images.subrange(i * sample_size, (i + 1) * sample_size)
}

/// `s` is exactly the encoding of raw sample `i`.
pub open spec fn sample_matches(
    s: Sample,
    images: Seq<u8>,
    labels: Seq<u8>,
    sample_size: int,
    num_classes: int,
    i: int,
) -> bool {
    &&& s.pixels@ == chunk_of(images, sample_size, i)
    &&& s.target@ == one_hot_seq(labels[i] as int, num_classes)
}

/// The inputs describe a well-formed dataset read in order `order`:
/// the buffer splits into exactly one chunk per label, every requested
/// index exists, and every requested label is a valid class.
pub open spec fn assemble_ok(
    images: Seq<u8>,
    labels: Seq<u8>,
    sample_size: int,
    num_classes: int,
    order: Seq<usize>,
) -> bool {
    &&& images.len() == labels.len() * sample_size
    &&& (forall|j: int| 0 <= j < order.len() ==> (#[trigger] order[j]) < labels.len())
    &&& (forall|j: int|
        0 <= j < order.len() ==> (labels[(#[trigger] order[j]) as int] as int) < num_classes)
}

/// Build the sample at position `j` for each raw index `order[j]`.
/// Reading the training set through a random permutation is the run's
/// one-shot shuffle; the identity order keeps the raw order.
pub fn assemble_with_order(
    images: &Vec<u8>,
    labels: &Vec<u8>,
    sample_size: usize,
    num_classes: usize,
    order: &Vec<usize>,
) -> (r: Result<Vec<Sample>, CoreError>)
    requires
        sample_size >= 1,
    ensures
        match r {
            Ok(v) => {
                &&& assemble_ok(images@, labels@, sample_size as int, num_classes as int, order@)
                &&& v@.len() == order@.len()
                &&& (forall|j: int|
                    0 <= j < order@.len() ==> sample_matches(
                        #[trigger] v@[j],
                        images@,
                        labels@,
                        sample_size as int,
                        num_classes as int,
                        order@[j] as int,
                    ))
            },
            Err(e) => {
                &&& !assemble_ok(images@, labels@, sample_size as int, num_classes as int, order@)
                &&& (e == CoreError::SizeMismatch || e == CoreError::LabelOutOfRange)
                &&& (e == CoreError::SizeMismatch ==> images@.len() != labels@.len() * sample_size
                    || exists|j: int|
                    0 <= j < order@.len() && (#[trigger] order@[j]) >= labels@.len())
                &&& (e == CoreError::LabelOutOfRange ==> exists|j: int|
                    0 <= j < order@.len() && (#[trigger] order@[j]) < labels@.len() && (labels@[
                        order@[j] as int
                    ] as int) >= num_classes)
            },
        },
{
    let n_labels = labels.len();
    let n_bytes = images.len();
    let q = n_bytes / sample_size;
    let rem = n_bytes % sample_size;
    proof {
        lemma_fundamental_div_mod(n_bytes as int, sample_size as int);
        if n_bytes as int == n_labels as int * sample_size as int {
            lemma_fundamental_div_mod_converse_div(
                n_bytes as int,
                sample_size as int,
                n_labels as int,
                0,
            );
            lemma_fundamental_div_mod_converse_mod(
                n_bytes as int,
                sample_size as int,
                n_labels as int,
                0,
            );
        }
    }
    if !(q == n_labels && rem == 0) {
        return Err(CoreError::SizeMismatch);
    }
    proof {
        assert(n_bytes as int == n_labels as int * sample_size as int) by (nonlinear_arith)
            requires
                n_bytes as int == sample_size as int * (q as int) + rem as int,
                q == n_labels,
                rem == 0,
        ;
    }
    let mut out: Vec<Sample> = Vec::new();
    let mut j: usize = 0;
    while j < order.len()
        invariant
            j <= order@.len(),
            sample_size >= 1,
            n_bytes == images@.len(),
            n_labels == labels@.len(),
            n_bytes as int == n_labels as int * sample_size as int,
            out@.len() == j,
            forall|t: int| 0 <= t < j ==> (#[trigger] order@[t]) < n_labels,
            forall|t: int|
                0 <= t < j ==> (labels@[(#[trigger] order@[t]) as int] as int) < num_classes,
            forall|t: int|
                0 <= t < j ==> sample_matches(
                    #[trigger] out@[t],
                    images@,
                    labels@,
                    sample_size as int,
                    num_classes as int,
                    order@[t] as int,
                ),
        decreases order@.len() - j,
    {
        let idx = order[j];
        if idx >= n_labels {
            return Err(CoreError::SizeMismatch);
        }
        proof {
            lemma_mul_inequality(idx as int + 1, n_labels as int, sample_size as int);
            assert((idx as int + 1) * sample_size as int == idx as int * sample_size as int
                + sample_size as int) by (nonlinear_arith);
        }
        let start = idx * sample_size;
        let pixels = slice_to_vec(slice_subrange(images.as_slice(), start, start + sample_size));
        let target = match one_hot(labels[idx], num_classes) {
            Ok(t) => t,
            Err(e) => {
                return Err(e);
            },
        };
        out.push(Sample { pixels, target });
        j = j + 1;
    }
    Ok(out)
}

/// Build the dataset in raw order: sample `i` pairs chunk `i` with
/// label `i`, the order the evaluation set must keep.
pub fn assemble(
    images: &Vec<u8>,
    labels: &Vec<u8>,
    sample_size: usize,
    num_classes: usize,
) -> (r: Result<Vec<Sample>, CoreError>)
    requires
        sample_size >= 1,
    ensures
        match r {
            Ok(v) => {
                &&& images@.len() == labels@.len() * sample_size
                &&& (forall|i: int|
                    0 <= i < labels@.len() ==> ((#[trigger] labels@[i]) as int) < num_classes)
                &&& v@.len() == labels@.len()
                &&& (forall|i: int|
                    0 <= i < labels@.len() ==> sample_matches(
                        #[trigger] v@[i],
                        images@,
                        labels@,
                        sample_size as int,
                        num_classes as int,
                        i,
                    ))
            },
            Err(e) => {
                &&& (e == CoreError::SizeMismatch || e == CoreError::LabelOutOfRange)
                &&& (e == CoreError::SizeMismatch ==> images@.len() != labels@.len() * sample_size)
                &&& (e == CoreError::LabelOutOfRange ==> exists|i: int|
                    0 <= i < labels@.len() && ((#[trigger] labels@[i]) as int) >= num_classes)
            },
        },
{
    let mut order: Vec<usize> = Vec::new();
    let mut i: usize = 0;
    while i < labels.len()
        invariant
            i <= labels@.len(),
            order@.len() == i,
            forall|t: int| 0 <= t < i ==> (#[trigger] order@[t]) == t,
        decreases labels@.len() - i,
    {
        order.push(i);
        i = i + 1;
    }
    match assemble_with_order(images, labels, sample_size, num_classes, &order) {
        Ok(v) => {
            proof {
                assert forall|t: int| 0 <= t < labels@.len() implies ((#[trigger] labels@[t])
                    as int) < num_classes && sample_matches(
                    v@[t],
                    images@,
                    labels@,
                    sample_size as int,
                    num_classes as int,
                    t,
                ) by {
                    assert(order@[t] == t);
                    assert((labels@[(order@[t]) as int] as int) < num_classes);
                    assert(sample_matches(
                        v@[t],
                        images@,
                        labels@,
                        sample_size as int,
                        num_classes as int,
                        order@[t] as int,
                    ));
                }
            }
            Ok(v)
        },
        Err(e) => {
            proof {
                if e == CoreError::SizeMismatch {
                    if exists|j: int|
                        0 <= j < order@.len() && (#[trigger] order@[j]) >= labels@.len() {
                        let j = choose|j: int|
                            0 <= j < order@.len() && (#[trigger] order@[j]) >= labels@.len();
                        assert(order@[j] == j);
                    }
                }
            }
            Err(e)
        },
    }
}

} // verus!
