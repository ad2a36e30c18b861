//! Error kinds shared by the whole pipeline.

use vstd::prelude::*;

verus! {

/// Why a white-balance operation was refused.
///
/// Every failure is reported as a value; no function of this crate panics
/// on inputs admitted by its precondition, and a failed call never returns
/// a partially processed image.
#[derive(Clone, Copy, Debug, PartialEq, Eq, Structural)]
pub enum WbError {
    /// A malformed shape, depth, or a parameter outside its allowed domain.
    InvalidArgument,
    /// Estimation cannot proceed, e.g. every candidate pixel is excluded
    /// or the image carries no usable signal.
    InsufficientData,
    /// The learning-based estimator was asked to run without a model.
    ModelLoadError,
}

} // verus!
