//! White-balance engine for low-dynamic-range images.
//!
//! The crate implements the channel-gain white-balance pipeline: a
//! fixed-point primitive that scales and clamps every channel of an image
//! ([`gain::apply_channel_gains`]), and three strategies that estimate the
//! correction to apply — the gray-world assumption ([`grayworld`]), an
//! independent per-channel percentile stretch ([`simple`]), and a
//! learning-based estimator driven by chromaticity features ([`learning`]).
//!
//! All arithmetic is integer arithmetic: fractional quantities (gains,
//! saturation thresholds, chromaticities) are carried as fixed-point values
//! with denominator [`gain::FP_ONE`].

use vstd::prelude::*;

pub mod error;
pub mod gain;
pub mod grayworld;
pub mod image;
pub mod learning;
pub mod simple;

verus! {

/// A white-balance strategy: produces a corrected image of the same shape
/// as its input.
///
/// Each implementor says through [`WhiteBalancer::wb_ok`] exactly when it
/// owes a balanced image, and through [`WhiteBalancer::wb_post`] exactly
/// what that image is, so code generic over the trait keeps the full
/// strength of the concrete estimators' contracts.
pub trait WhiteBalancer {
    /// When this strategy succeeds on `src`: the exact success condition
    /// of its estimator.
    spec fn wb_ok(&self, src: image::Image) -> bool;

    /// What this strategy returns on success: the exact relation between
    /// `src` and the balanced image.
    spec fn wb_post(&self, src: image::Image, out: image::Image) -> bool;

    /// Applies white balancing to the input image.
    fn balance_white(&self, src: &image::Image) -> (r: Result<image::Image, error::WbError>)
        requires
            src.wf(),
        ensures
            r is Ok <==> self.wb_ok(*src),
            (r matches Ok(out) ==> out.wf() && out.width == src.width && out.height == src.height
                && out.channels == src.channels && out.depth == src.depth && self.wb_post(
                *src,
                out,
            )),
        ;
}

} // verus!
