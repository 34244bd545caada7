//! Training orchestration core for a feed-forward image classifier.
//!
//! The crate covers the parts of a supervised-training run that make
//! decisions: encoding raw bytes into samples, partitioning epochs into
//! batches, the adaptive learning-rate policy, arg-max evaluation with a
//! deterministic tie-break, and a round-trip-exact persisted model format.
//! The numeric model itself (forward inference, gradients) is an external
//! collaborator that a driver supplies.

use vstd::prelude::*;

pub mod config;
pub mod dataset;
pub mod encode;
pub mod evaluate;
pub mod frac;
pub mod model;
pub mod schedule;
pub mod shuffle;

verus! {

/// Every failure the core can report. Configuration problems are caught
/// before training starts; the rest signal corrupt state or a bug in the
/// encoding path.
#[derive(Clone, Copy, Debug, PartialEq, Eq, Structural)]
pub enum CoreError {
    /// A class label lies outside `[0, num_classes)`.
    LabelOutOfRange,
    /// Parallel buffers disagree on how many samples they describe.
    SizeMismatch,
    /// A numeric flag value could not be parsed, or is out of range.
    InvalidNumber,
    /// Rescaling the learning rate would overflow its representation.
    RateOverflow,
    /// A persisted model file is present but does not decode.
    CorruptModel,
    /// A sample's one-hot target disagrees with its raw label.
    DataIntegrity,
}

} // verus!
