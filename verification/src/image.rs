//! The image container the pipeline works on.
//!
//! An image is a row-major grid of pixels with 1 or 3 interleaved channels
//! per pixel. Samples are unsigned integers of bit depth 8 or 16, stored
//! widened to `u16`; the invariant [`Image::wf`] keeps every sample within
//! the range of the declared depth.

use vstd::prelude::*;

use crate::error::WbError;

verus! {

/// Bit depth of one channel sample.
#[derive(Clone, Copy, Debug, PartialEq, Eq, Structural)]
pub enum Depth {
    /// 8 bits per sample; valid samples are `0 ..= 255`.
    Bits8,
    /// 16 bits per sample; valid samples are `0 ..= 65535`.
    Bits16,
}

impl Depth {
    /// The largest valid sample for this depth.
    pub open spec fn max_spec(self) -> int {
        match self {
            Depth::Bits8 => 255,
            Depth::Bits16 => 65535,
        }
    }

    /// The largest valid sample for this depth.
    pub fn max_val(self) -> (m: u16)
        ensures
            m as int == self.max_spec(),
    {
        match self {
            Depth::Bits8 => 255u16,
            Depth::Bits16 => 65535u16,
        }
    }
}

/// A 2D image: `width * height` pixels, each with `channels` interleaved
/// samples, flattened row-major into `data`.
pub struct Image {
    /// Number of pixel columns.
    pub width: usize,
    /// Number of pixel rows.
    pub height: usize,
    /// Samples per pixel: 1 (grayscale) or 3 (B, G, R order).
    pub channels: usize,
    /// Bit depth shared by every sample.
    pub depth: Depth,
    /// The samples, pixel by pixel, channel-interleaved.
    pub data: Vec<u16>,
}

impl Image {
    /// Number of pixels.
    pub open spec fn pixel_count(self) -> int {
        self.width * self.height
    }

    /// Well-formedness: a supported channel count, a buffer of exactly the
    /// right length, and every sample within the depth's range.
    pub open spec fn wf(self) -> bool {
        &&& (self.channels == 1 || self.channels == 3)
        &&& self.data@.len() == self.width * self.height * self.channels
        &&& forall|k: int|
            0 <= k < self.data@.len() ==> self.data@[k] as int <= self.depth.max_spec()
    }

    /// Sample of channel `c` of pixel `i` (pixels numbered row-major).
    pub open spec fn sample(self, i: int, c: int) -> int {
        self.data@[i * self.channels + c] as int
    }

    /// Builds an image, validating shape and sample range.
    ///
    /// Succeeds exactly when the channel count is 1 or 3, the buffer length
    /// matches `width * height * channels`, and every sample fits the depth.
    pub fn new(width: usize, height: usize, channels: usize, depth: Depth, data: Vec<u16>) -> (r:
        Result<Image, WbError>)
        ensures
            r is Ok <==> (channels == 1 || channels == 3) && data@.len() == width * height
                * channels && (forall|k: int|
                0 <= k < data@.len() ==> data@[k] as int <= depth.max_spec()),
            (r matches Ok(im) ==> im == (Image { width, height, channels, depth, data })),
            (r matches Err(e) ==> e == WbError::InvalidArgument),
    {
        if channels != 1 && channels != 3 {
            return Err(WbError::InvalidArgument);
        }
        let n = data.len();
        let wh = match width.checked_mul(height) {
            Some(wh) => wh,
            None => {
                proof {
                    assert(n < width * height <= width * height * channels) by (nonlinear_arith)
                        requires
                            width * height > usize::MAX,
                            n <= usize::MAX,
                            channels >= 1,
                    ;
                }
                return Err(WbError::InvalidArgument);
            },
        };
        let total = match wh.checked_mul(channels) {
            Some(total) => total,
            None => {
                proof {
                    assert(width * height * channels == (width * height) * channels)
                        by (nonlinear_arith);
                }
                return Err(WbError::InvalidArgument);
            },
        };
        proof {
            assert(width * height * channels == (width * height) * channels) by (nonlinear_arith);
        }
        if n != total {
            return Err(WbError::InvalidArgument);
        }
        if !samples_in_range(&data, depth.max_val()) {
            return Err(WbError::InvalidArgument);
        }
        Ok(Image { width, height, channels, depth, data })
    }

    /// Reads the sample of channel `c` of pixel `i`.
    pub fn sample_at(&self, i: usize, c: usize) -> (s: u16)
        requires
            self.wf(),
            i < self.pixel_count(),
            c < self.channels,
        ensures
            s as int == self.sample(i as int, c as int),
            s as int <= self.depth.max_spec(),
    {
        let n = self.data.len();
        proof {
            assert(i * self.channels + c < n) by (nonlinear_arith)
                requires
                    i < self.width * self.height,
                    c < self.channels,
                    n == self.width * self.height * self.channels,
            ;
        }
        self.data[i * self.channels + c]
    }
}

/// True exactly when every sample of `data` is at most `max`.
fn samples_in_range(data: &Vec<u16>, max: u16) -> (r: bool)
    ensures
        r <==> (forall|k: int| 0 <= k < data@.len() ==> data@[k] as int <= max as int),
{
    let mut k: usize = 0;
    while k < data.len()
        invariant
            k <= data@.len(),
            forall|j: int| 0 <= j < k ==> data@[j] as int <= max as int,
        decreases data@.len() - k,
    {
        if data[k] > max {
            return false;
        }
        k = k + 1;
    }
    true
}

} // verus!
