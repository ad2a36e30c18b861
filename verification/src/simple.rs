//! Simple white balance: an independent per-channel percentile stretch.
//!
//! Each channel is stretched affinely to the configured output range.
//! For robustness the bottom and top `p/2` percent of the channel's mass
//! (samples first clamped to the configured input range) are ignored when
//! the effective input range is determined: the stretch runs from the
//! lowest to the highest sample value that survives the trim.
//!
//! The cut points are characterised exactly by counting: `lo` is the value
//! where the cumulative count first exceeds the trimmed mass, `hi` the
//! value where the count from above first exceeds it. Both are unique, so
//! the contracts pin them with [`lo_cut`] and [`hi_cut`].

use vstd::prelude::*;
use vstd::pervasive::VecAdditionalExecFns;

use crate::error::WbError;
use crate::gain::div_round;
use crate::image::Image;
use crate::WhiteBalancer;

verus! {

/// `v` clamped to `[lo, hi]`.
pub open spec fn clamp_val(v: int, lo: int, hi: int) -> int {
    if v < lo {
        lo
    } else if v > hi {
        hi
    } else {
        v
    }
}

/// Sample of channel `c` of pixel `i`, clamped to the configured input
/// range.
pub open spec fn cl_sample(im: Image, c: int, in_min: int, in_max: int, i: int) -> int {
    clamp_val(im.sample(i, c), in_min, in_max)
}

/// Number of pixels among the first `n` whose clamped sample of channel
/// `c` is at most `v`.
pub open spec fn count_le(im: Image, c: int, in_min: int, in_max: int, v: int, n: int) -> int
    decreases n,
{
    if n <= 0 {
        0
    } else {
        count_le(im, c, in_min, in_max, v, n - 1) + if cl_sample(im, c, in_min, in_max, n - 1)
            <= v {
            1int
        } else {
            0int
        }
    }
}

/// Number of pixels among the first `n` whose clamped sample of channel
/// `c` equals `v`.
pub open spec fn count_eq(im: Image, c: int, in_min: int, in_max: int, v: int, n: int) -> int
    decreases n,
{
    if n <= 0 {
        0
    } else {
        count_eq(im, c, in_min, in_max, v, n - 1) + if cl_sample(im, c, in_min, in_max, n - 1)
            == v {
            1int
        } else {
            0int
        }
    }
}

/// Cumulative counts lie in `[0, n]`.
pub proof fn lemma_count_le_bounds(im: Image, c: int, in_min: int, in_max: int, v: int, n: int)
    requires
        0 <= n,
    ensures
        0 <= count_le(im, c, in_min, in_max, v, n) <= n,
    decreases n,
{
    if n > 0 {
        lemma_count_le_bounds(im, c, in_min, in_max, v, n - 1);
    }
}

/// Per-value counts lie in `[0, n]`.
pub proof fn lemma_count_eq_bounds(im: Image, c: int, in_min: int, in_max: int, v: int, n: int)
    requires
        0 <= n,
    ensures
        0 <= count_eq(im, c, in_min, in_max, v, n) <= n,
    decreases n,
{
    if n > 0 {
        lemma_count_eq_bounds(im, c, in_min, in_max, v, n - 1);
    }
}

/// The cumulative count is nondecreasing in the value.
pub proof fn lemma_count_le_monotone(
    im: Image,
    c: int,
    in_min: int,
    in_max: int,
    v1: int,
    v2: int,
    n: int,
)
    requires
        0 <= n,
        v1 <= v2,
    ensures
        count_le(im, c, in_min, in_max, v1, n) <= count_le(im, c, in_min, in_max, v2, n),
    decreases n,
{
    if n > 0 {
        lemma_count_le_monotone(im, c, in_min, in_max, v1, v2, n - 1);
    }
}

/// Cumulative counts step by the per-value count:
/// `count_le(v) == count_le(v - 1) + count_eq(v)`.
pub proof fn lemma_count_le_split(im: Image, c: int, in_min: int, in_max: int, v: int, n: int)
    requires
        0 <= n,
    ensures
        count_le(im, c, in_min, in_max, v, n) == count_le(im, c, in_min, in_max, v - 1, n)
            + count_eq(im, c, in_min, in_max, v, n),
    decreases n,
{
    if n > 0 {
        lemma_count_le_split(im, c, in_min, in_max, v, n - 1);
    }
}

/// Below the clamp floor the cumulative count is zero.
pub proof fn lemma_count_le_below(im: Image, c: int, in_min: int, in_max: int, v: int, n: int)
    requires
        0 <= n,
        v < in_min,
        in_min <= in_max,
    ensures
        count_le(im, c, in_min, in_max, v, n) == 0,
    decreases n,
{
    if n > 0 {
        lemma_count_le_below(im, c, in_min, in_max, v, n - 1);
    }
}

/// At or above the clamp ceiling the cumulative count is the pixel count.
pub proof fn lemma_count_le_above(im: Image, c: int, in_min: int, in_max: int, v: int, n: int)
    requires
        0 <= n,
        v >= in_max,
        in_min <= in_max,
    ensures
        count_le(im, c, in_min, in_max, v, n) == n,
    decreases n,
{
    if n > 0 {
        lemma_count_le_above(im, c, in_min, in_max, v, n - 1);
    }
}

/// A zero cumulative count means every clamped sample is above `v`.
pub proof fn lemma_count_le_zero_all_above(
    im: Image,
    c: int,
    in_min: int,
    in_max: int,
    v: int,
    n: int,
)
    requires
        0 <= n,
        count_le(im, c, in_min, in_max, v, n) == 0,
    ensures
        forall|i: int| 0 <= i < n ==> cl_sample(im, c, in_min, in_max, i) > v,
    decreases n,
{
    if n > 0 {
        lemma_count_le_bounds(im, c, in_min, in_max, v, n - 1);
        lemma_count_le_zero_all_above(im, c, in_min, in_max, v, n - 1);
    }
}

/// A full cumulative count means every clamped sample is at most `v`.
pub proof fn lemma_count_le_full_all_below(
    im: Image,
    c: int,
    in_min: int,
    in_max: int,
    v: int,
    n: int,
)
    requires
        0 <= n,
        count_le(im, c, in_min, in_max, v, n) == n,
    ensures
        forall|i: int| 0 <= i < n ==> cl_sample(im, c, in_min, in_max, i) <= v,
    decreases n,
{
    if n > 0 {
        lemma_count_le_bounds(im, c, in_min, in_max, v, n - 1);
        lemma_count_le_full_all_below(im, c, in_min, in_max, v, n - 1);
    }
}

/// A positive per-value count exhibits a pixel with that clamped value.
pub proof fn lemma_count_eq_witness(im: Image, c: int, in_min: int, in_max: int, v: int, n: int)
    requires
        0 <= n,
        count_eq(im, c, in_min, in_max, v, n) > 0,
    ensures
        exists|i: int| 0 <= i < n && cl_sample(im, c, in_min, in_max, i) == v,
    decreases n,
{
    if n > 0 {
        if cl_sample(im, c, in_min, in_max, n - 1) == v {
            assert(0 <= n - 1 < n && cl_sample(im, c, in_min, in_max, n - 1) == v);
        } else {
            lemma_count_eq_witness(im, c, in_min, in_max, v, n - 1);
        }
    }
}

/// `v` is the lower cut point of channel `c` for trimmed mass `tr`: the
/// cumulative count first exceeds `tr` at `v`.
pub open spec fn lo_cut_at(
    im: Image,
    c: int,
    in_min: int,
    in_max: int,
    tr: int,
    v: int,
) -> bool {
    &&& in_min <= v <= in_max
    &&& count_le(im, c, in_min, in_max, v - 1, im.pixel_count()) <= tr
    &&& count_le(im, c, in_min, in_max, v, im.pixel_count()) > tr
}

/// `v` is the upper cut point of channel `c` for trimmed mass `tr`: the
/// count of samples above first exceeds `tr` at `v`, counting downwards.
pub open spec fn hi_cut_at(
    im: Image,
    c: int,
    in_min: int,
    in_max: int,
    tr: int,
    v: int,
) -> bool {
    &&& in_min <= v <= in_max
    &&& count_le(im, c, in_min, in_max, v - 1, im.pixel_count()) < im.pixel_count() - tr
    &&& count_le(im, c, in_min, in_max, v, im.pixel_count()) >= im.pixel_count() - tr
}

/// The lower cut point: the unique value satisfying [`lo_cut_at`].
pub open spec fn lo_cut(im: Image, c: int, in_min: int, in_max: int, tr: int) -> int {
    choose|v: int| lo_cut_at(im, c, in_min, in_max, tr, v)
}

/// The upper cut point: the unique value satisfying [`hi_cut_at`].
pub open spec fn hi_cut(im: Image, c: int, in_min: int, in_max: int, tr: int) -> int {
    choose|v: int| hi_cut_at(im, c, in_min, in_max, tr, v)
}

/// Law: the lower cut point is unique.
pub proof fn lemma_lo_cut_unique(
    im: Image,
    c: int,
    in_min: int,
    in_max: int,
    tr: int,
    v1: int,
    v2: int,
)
    requires
        im.pixel_count() >= 0,
        lo_cut_at(im, c, in_min, in_max, tr, v1),
        lo_cut_at(im, c, in_min, in_max, tr, v2),
    ensures
        v1 == v2,
{
    if v1 < v2 {
        lemma_count_le_monotone(im, c, in_min, in_max, v1, v2 - 1, im.pixel_count());
    }
    if v2 < v1 {
        lemma_count_le_monotone(im, c, in_min, in_max, v2, v1 - 1, im.pixel_count());
    }
}

/// Law: the upper cut point is unique.
pub proof fn lemma_hi_cut_unique(
    im: Image,
    c: int,
    in_min: int,
    in_max: int,
    tr: int,
    v1: int,
    v2: int,
)
    requires
        im.pixel_count() >= 0,
        hi_cut_at(im, c, in_min, in_max, tr, v1),
        hi_cut_at(im, c, in_min, in_max, tr, v2),
    ensures
        v1 == v2,
{
    if v1 < v2 {
        lemma_count_le_monotone(im, c, in_min, in_max, v1, v2 - 1, im.pixel_count());
    }
    if v2 < v1 {
        lemma_count_le_monotone(im, c, in_min, in_max, v2, v1 - 1, im.pixel_count());
    }
}

/// Effective input range of one channel after the percentile trim.
#[derive(Clone, Copy, Debug, PartialEq, Eq, Structural)]
pub struct ChannelRange {
    /// Lowest surviving clamped sample value.
    pub lo: u16,
    /// Highest surviving clamped sample value.
    pub hi: u16,
}

/// The per-value histogram of channel `c` over the clamped samples:
/// entry `v - in_min` counts the pixels whose clamped sample equals `v`.
fn build_channel_hist(src: &Image, c: usize, in_min: u16, in_max: u16, n_px: usize) -> (h: Vec<
    u64,
>)
    requires
        src.wf(),
        c < src.channels,
        in_min < in_max,
        n_px == src.pixel_count(),
    ensures
        h@.len() == in_max - in_min + 1,
        forall|v: int|
            in_min as int <= v <= in_max as int ==> h@[v - in_min] as int == count_eq(
                *src,
                c as int,
                in_min as int,
                in_max as int,
                v,
                src.pixel_count(),
            ),
{
    let size = (in_max - in_min) as usize + 1;
    let mut h: Vec<u64> = Vec::new();
    let mut k: usize = 0;
    while k < size
        invariant
            k <= size,
            h@.len() == k,
            forall|j: int| 0 <= j < k ==> h@[j] == 0,
        decreases size - k,
    {
        h.push(0u64);
        k = k + 1;
    }
    let mut i: usize = 0;
    while i < n_px
        invariant
            src.wf(),
            c < src.channels,
            in_min < in_max,
            n_px == src.pixel_count(),
            i <= n_px,
            h@.len() == in_max - in_min + 1,
            forall|v: int|
                in_min as int <= v <= in_max as int ==> h@[v - in_min] as int == count_eq(
                    *src,
                    c as int,
                    in_min as int,
                    in_max as int,
                    v,
                    i as int,
                ),
        decreases n_px - i,
    {
        let s = src.sample_at(i, c);
        let v = if s < in_min {
            in_min
        } else if s > in_max {
            in_max
        } else {
            s
        };
        let idx = (v - in_min) as usize;
        proof {
            lemma_count_eq_bounds(
                *src,
                c as int,
                in_min as int,
                in_max as int,
                v as int,
                i as int,
            );
        }
        let cur = h[idx];
        h.set(idx, cur + 1);
        proof {
            assert(cl_sample(*src, c as int, in_min as int, in_max as int, i as int) == v as int);
            assert forall|w: int| in_min as int <= w <= in_max as int implies h@[w - in_min]
                as int == #[trigger] count_eq(*src, c as int, in_min as int, in_max as int, w, i + 1) by {
                assert(count_eq(*src, c as int, in_min as int, in_max as int, w, i + 1)
                    == count_eq(*src, c as int, in_min as int, in_max as int, w, i as int) + if
                    cl_sample(*src, c as int, in_min as int, in_max as int, i as int) == w {
                    1int
                } else {
                    0int
                });
            }
        }
        i = i + 1;
    }
    h
}

/// Finds both cut points of channel `c` for trimmed mass `tr`.
fn channel_range(src: &Image, c: usize, in_min: u16, in_max: u16, tr: u64, n_px: usize) -> (cr:
    ChannelRange)
    requires
        src.wf(),
        c < src.channels,
        in_min < in_max,
        n_px == src.pixel_count(),
        n_px >= 1,
        2 * (tr as int) < n_px as int,
    ensures
        lo_cut_at(*src, c as int, in_min as int, in_max as int, tr as int, cr.lo as int),
        hi_cut_at(*src, c as int, in_min as int, in_max as int, tr as int, cr.hi as int),
        cr.lo as int == lo_cut(*src, c as int, in_min as int, in_max as int, tr as int),
        cr.hi as int == hi_cut(*src, c as int, in_min as int, in_max as int, tr as int),
        in_min <= cr.lo <= cr.hi <= in_max,
{
    let ghost im = *src;
    let ghost ci = c as int;
    let ghost lo_b = in_min as int;
    let ghost hi_b = in_max as int;
    let ghost n = src.pixel_count();
    let h = build_channel_hist(src, c, in_min, in_max, n_px);
    proof {
        lemma_count_le_below(im, ci, lo_b, hi_b, lo_b - 1, n);
    }
    let mut v: u16 = in_min;
    let mut acc: u64 = 0;
    loop
        invariant
            src.wf(),
            im == *src,
            ci == c as int,
            lo_b == in_min as int,
            hi_b == in_max as int,
            n == src.pixel_count(),
            c < src.channels,
            in_min < in_max,
            n_px == src.pixel_count(),
            n_px >= 1,
            2 * (tr as int) < n_px as int,
            h@.len() == in_max - in_min + 1,
            forall|w: int|
                lo_b <= w <= hi_b ==> h@[w - lo_b] as int == count_eq(im, ci, lo_b, hi_b, w, n),
            in_min <= v <= in_max,
            acc as int == count_le(im, ci, lo_b, hi_b, v as int - 1, n),
            forall|w: int| lo_b <= w < v as int ==> count_le(im, ci, lo_b, hi_b, w, n) <= tr as int,
        ensures
            in_min <= v <= in_max,
            lo_cut_at(im, ci, lo_b, hi_b, tr as int, v as int),
        decreases in_max as int - v as int,
    {
        proof {
            lemma_count_le_split(im, ci, lo_b, hi_b, v as int, n);
            lemma_count_le_bounds(im, ci, lo_b, hi_b, v as int, n);
            lemma_count_eq_bounds(im, ci, lo_b, hi_b, v as int, n);
        }
        let cur = acc + h[(v - in_min) as usize];
        if cur > tr {
            proof {
                lemma_count_le_below(im, ci, lo_b, hi_b, lo_b - 1, n);
            }
            break ;
        }
        proof {
            lemma_count_le_above(im, ci, lo_b, hi_b, hi_b, n);
            assert(v < in_max);
        }
        acc = cur;
        v = v + 1;
    }
    let lo = v;
    proof {
        lemma_count_le_above(im, ci, lo_b, hi_b, hi_b, n);
    }
    let mut w: u16 = in_max;
    let mut acc2: u64 = 0;
    loop
        invariant
            src.wf(),
            im == *src,
            ci == c as int,
            lo_b == in_min as int,
            hi_b == in_max as int,
            n == src.pixel_count(),
            c < src.channels,
            in_min < in_max,
            n_px == src.pixel_count(),
            n_px >= 1,
            2 * (tr as int) < n_px as int,
            h@.len() == in_max - in_min + 1,
            forall|x: int|
                lo_b <= x <= hi_b ==> h@[x - lo_b] as int == count_eq(im, ci, lo_b, hi_b, x, n),
            in_min <= w <= in_max,
            acc2 as int == n - count_le(im, ci, lo_b, hi_b, w as int, n),
            forall|y: int|
                (w as int) <= y < hi_b ==> n - #[trigger] count_le(im, ci, lo_b, hi_b, y, n)
                    <= tr as int,
        ensures
            in_min <= w <= in_max,
            hi_cut_at(im, ci, lo_b, hi_b, tr as int, w as int),
        decreases w as int - in_min as int,
    {
        proof {
            lemma_count_le_split(im, ci, lo_b, hi_b, w as int, n);
            lemma_count_le_bounds(im, ci, lo_b, hi_b, w as int, n);
            lemma_count_le_bounds(im, ci, lo_b, hi_b, w as int - 1, n);
            lemma_count_eq_bounds(im, ci, lo_b, hi_b, w as int, n);
        }
        let cur = acc2 + h[(w - in_min) as usize];
        if cur > tr {
            proof {
                if w as int == hi_b {
                    lemma_count_le_above(im, ci, lo_b, hi_b, w as int, n);
                }
            }
            break ;
        }
        proof {
            lemma_count_le_below(im, ci, lo_b, hi_b, lo_b - 1, n);
            assert(w > in_min);
        }
        acc2 = cur;
        w = w - 1;
    }
    let hi = w;
    proof {
        if hi < lo {
            lemma_count_le_monotone(im, ci, lo_b, hi_b, hi as int, lo as int - 1, n);
        }
        assert(lo_cut_at(im, ci, lo_b, hi_b, tr as int, lo_cut(im, ci, lo_b, hi_b, tr as int)))
            by {
            assert(lo_cut_at(im, ci, lo_b, hi_b, tr as int, lo as int));
        }
        lemma_lo_cut_unique(
            im,
            ci,
            lo_b,
            hi_b,
            tr as int,
            lo as int,
            lo_cut(im, ci, lo_b, hi_b, tr as int),
        );
        assert(hi_cut_at(im, ci, lo_b, hi_b, tr as int, hi_cut(im, ci, lo_b, hi_b, tr as int)))
            by {
            assert(hi_cut_at(im, ci, lo_b, hi_b, tr as int, hi as int));
        }
        lemma_hi_cut_unique(
            im,
            ci,
            lo_b,
            hi_b,
            tr as int,
            hi as int,
            hi_cut(im, ci, lo_b, hi_b, tr as int),
        );
    }
    ChannelRange { lo, hi }
}

/// The affine stretch of one sample: clamp `v` to the effective input
/// range `[lo, hi]`, then map that range onto `[out_lo, out_hi]`,
/// rounding half up. A degenerate input range maps everything to
/// `out_lo`.
pub open spec fn stretch_spec(v: int, lo: int, hi: int, out_lo: int, out_hi: int) -> int {
    let vc = clamp_val(v, lo, hi);
    if hi <= lo {
        out_lo
    } else {
        out_lo + div_round((vc - lo) * (out_hi - out_lo), hi - lo)
    }
}

/// Rounded division stays within `[0, d]` when the numerator is within
/// `[0, b * d]`.
pub proof fn lemma_div_round_bounds(a: int, b: int, d: int)
    requires
        b >= 1,
        0 <= a,
        a <= b * d,
    ensures
        0 <= div_round(a, b) <= d,
{
    assert(0 <= (2 * a + b) / (2 * b)) by (nonlinear_arith)
        requires
            b >= 1,
            0 <= a,
    ;
    assert((2 * a + b) / (2 * b) <= d) by (nonlinear_arith)
        requires
            b >= 1,
            0 <= a,
            a <= b * d,
    ;
}

/// Law: the stretched sample always lies in the output range.
pub proof fn lemma_stretch_bounds(v: int, lo: int, hi: int, out_lo: int, out_hi: int)
    requires
        lo <= hi,
        out_lo <= out_hi,
    ensures
        out_lo <= stretch_spec(v, lo, hi, out_lo, out_hi) <= out_hi,
{
    let vc = clamp_val(v, lo, hi);
    if hi > lo {
        assert(0 <= (vc - lo) * (out_hi - out_lo)) by (nonlinear_arith)
            requires
                vc >= lo,
                out_hi >= out_lo,
        ;
        assert((vc - lo) * (out_hi - out_lo) <= (hi - lo) * (out_hi - out_lo)) by (nonlinear_arith)
            requires
                vc <= hi,
                lo <= vc,
                out_hi >= out_lo,
        ;
        lemma_div_round_bounds((vc - lo) * (out_hi - out_lo), hi - lo, out_hi - out_lo);
    }
}

/// Law: the low end of the input range maps exactly to the low end of the
/// output range.
pub proof fn lemma_stretch_lo_endpoint(lo: int, hi: int, out_lo: int, out_hi: int)
    requires
        lo <= hi,
        out_lo <= out_hi,
    ensures
        stretch_spec(lo, lo, hi, out_lo, out_hi) == out_lo,
{
    if hi > lo {
        let b = hi - lo;
        let d = out_hi - out_lo;
        assert((lo - lo) * d == 0) by (nonlinear_arith);
        assert(div_round(0, b) == (2 * 0 + b) / (2 * b));
        assert((2 * 0 + b) / (2 * b) == 0) by (nonlinear_arith)
            requires
                b >= 1,
        ;
    }
}

/// Law: the high end of a nondegenerate input range maps exactly to the
/// high end of the output range.
pub proof fn lemma_stretch_hi_endpoint(lo: int, hi: int, out_lo: int, out_hi: int)
    requires
        lo < hi,
        out_lo <= out_hi,
    ensures
        stretch_spec(hi, lo, hi, out_lo, out_hi) == out_hi,
{
    let b = hi - lo;
    let d = out_hi - out_lo;
    assert((2 * (b * d) + b) / (2 * b) == d) by (nonlinear_arith)
        requires
            b >= 1,
            d >= 0,
    ;
}

/// Law: with nothing trimmed the cut points are exactly the extreme
/// clamped sample values of the channel, and the stretch maps the darkest
/// surviving value to `out_lo` and the brightest to `out_hi`.
pub proof fn lemma_zero_trim_stretch_boundary(
    im: Image,
    c: int,
    in_min: int,
    in_max: int,
    lo: int,
    hi: int,
    out_lo: int,
    out_hi: int,
)
    requires
        im.pixel_count() >= 1,
        in_min <= in_max,
        out_lo <= out_hi,
        lo_cut_at(im, c, in_min, in_max, 0, lo),
        hi_cut_at(im, c, in_min, in_max, 0, hi),
    ensures
        forall|i: int|
            0 <= i < im.pixel_count() ==> lo <= #[trigger] cl_sample(im, c, in_min, in_max, i)
                <= hi,
        exists|i: int| 0 <= i < im.pixel_count() && cl_sample(im, c, in_min, in_max, i) == lo,
        exists|i: int| 0 <= i < im.pixel_count() && cl_sample(im, c, in_min, in_max, i) == hi,
        stretch_spec(lo, lo, hi, out_lo, out_hi) == out_lo,
        lo < hi ==> stretch_spec(hi, lo, hi, out_lo, out_hi) == out_hi,
{
    let n = im.pixel_count();
    lemma_count_le_bounds(im, c, in_min, in_max, lo - 1, n);
    lemma_count_le_zero_all_above(im, c, in_min, in_max, lo - 1, n);
    lemma_count_le_split(im, c, in_min, in_max, lo, n);
    lemma_count_eq_witness(im, c, in_min, in_max, lo, n);
    lemma_count_le_bounds(im, c, in_min, in_max, hi, n);
    lemma_count_le_full_all_below(im, c, in_min, in_max, hi, n);
    lemma_count_le_split(im, c, in_min, in_max, hi, n);
    lemma_count_eq_witness(im, c, in_min, in_max, hi, n);
    if hi < lo {
        lemma_count_le_monotone(im, c, in_min, in_max, hi, lo - 1, n);
    }
    lemma_stretch_lo_endpoint(lo, hi, out_lo, out_hi);
    if lo < hi {
        lemma_stretch_hi_endpoint(lo, hi, out_lo, out_hi);
    }
}

/// Stretches one sample from `[lo, hi]` onto `[out_lo, out_hi]`.
pub fn stretch_sample(v: u16, lo: u16, hi: u16, out_lo: u16, out_hi: u16) -> (s: u16)
    requires
        lo <= hi,
        out_lo <= out_hi,
    ensures
        s as int == stretch_spec(v as int, lo as int, hi as int, out_lo as int, out_hi as int),
        out_lo <= s <= out_hi,
{
    proof {
        lemma_stretch_bounds(v as int, lo as int, hi as int, out_lo as int, out_hi as int);
    }
    let vc = if v < lo {
        lo
    } else if v > hi {
        hi
    } else {
        v
    };
    if hi == lo {
        out_lo
    } else {
        proof {
            assert(((vc - lo) as int) * ((out_hi - out_lo) as int) <= 65535 * 65535)
                by (nonlinear_arith)
                requires
                    0 <= (vc - lo) as int <= 65535,
                    0 <= (out_hi - out_lo) as int <= 65535,
            ;
            assert(((vc - lo) as int) * ((out_hi - out_lo) as int) <= ((hi - lo) as int) * ((
            out_hi - out_lo) as int)) by (nonlinear_arith)
                requires
                    lo <= vc <= hi,
                    out_lo <= out_hi,
            ;
        }
        let a: u64 = ((vc - lo) as u64) * ((out_hi - out_lo) as u64);
        let b: u64 = (hi - lo) as u64;
        proof {
            lemma_div_round_bounds(a as int, b as int, (out_hi - out_lo) as int);
        }
        let q: u64 = (2 * a + b) / (2 * b);
        out_lo + (q as u16)
    }
}

/// Simple percentile-stretch white balance. Each channel is stretched
/// independently onto the output range after trimming `p/2` percent of
/// its mass at each tail. `p` is a whole percentage in `[0, 100)`;
/// the input and output ranges are sample values.
///
/// The configured input range is the domain of the stretch: samples are
/// clamped to `[input_min, input_max]` before the percentile count, so a
/// bound set inside the data's range becomes the effective endpoint of
/// the map, while a bound outside it leaves the trimmed data extremes in
/// charge. The affine map itself always runs from the trimmed extremes
/// of the clamped data; an explicit bound never widens it past them.
pub struct SimpleWB {
    /// Percent of the pixel mass to ignore, split between the two tails;
    /// kept in `[0, 100)` by [`SimpleWB::set_p`].
    pub p: i32,
    /// Input range floor: samples are clamped to it before counting.
    pub input_min: u16,
    /// Input range ceiling: samples are clamped to it before counting.
    pub input_max: u16,
    /// Output range floor.
    pub output_min: u16,
    /// Output range ceiling; capped at the image depth's maximum when the
    /// stretch is applied.
    pub output_max: u16,
}

/// Creates a simple white-balance instance with the default parameters:
/// 2 percent trim, full input and output ranges.
pub fn create_simple_wb() -> (wb: SimpleWB)
    ensures
        wb == (SimpleWB {
            p: 2i32,
            input_min: 0u16,
            input_max: 65535u16,
            output_min: 0u16,
            output_max: 65535u16,
        }),
{
    SimpleWB { p: 2, input_min: 0, input_max: 65535, output_min: 0, output_max: 65535 }
}

impl SimpleWB {
    /// The parameters the estimator validates: a trim percentage in
    /// `[0, 100)` and a nonempty input range.
    pub open spec fn stretch_params_ok(self) -> bool {
        &&& 0 <= self.p < 100
        &&& self.input_min < self.input_max
    }

    /// Pixels trimmed per tail out of `n`: `p/2` percent, rounded down.
    pub open spec fn trim_spec(self, n: int) -> int {
        n * self.p / 200
    }

    /// The output ceiling actually applied: the configured ceiling capped
    /// at the image depth's largest sample.
    pub open spec fn out_hi_spec(self, im: Image) -> int {
        if self.output_max as int > im.depth.max_spec() {
            im.depth.max_spec()
        } else {
            self.output_max as int
        }
    }

    /// Whether the configured output range is usable for this image.
    pub open spec fn out_range_ok(self, im: Image) -> bool {
        self.output_min as int <= self.out_hi_spec(im)
    }

    /// Input image range minimum value.
    pub fn get_input_min(&self) -> (r: u16)
        ensures
            r == self.input_min,
    {
        self.input_min
    }

    /// Sets the input range minimum.
    pub fn set_input_min(&mut self, val: u16)
        ensures
            *final(self) == (SimpleWB { input_min: val, ..*old(self) }),
    {
        self.input_min = val;
    }

    /// Input image range maximum value.
    pub fn get_input_max(&self) -> (r: u16)
        ensures
            r == self.input_max,
    {
        self.input_max
    }

    /// Sets the input range maximum.
    pub fn set_input_max(&mut self, val: u16)
        ensures
            *final(self) == (SimpleWB { input_max: val, ..*old(self) }),
    {
        self.input_max = val;
    }

    /// Output image range minimum value.
    pub fn get_output_min(&self) -> (r: u16)
        ensures
            r == self.output_min,
    {
        self.output_min
    }

    /// Sets the output range minimum.
    pub fn set_output_min(&mut self, val: u16)
        ensures
            *final(self) == (SimpleWB { output_min: val, ..*old(self) }),
    {
        self.output_min = val;
    }

    /// Output image range maximum value.
    pub fn get_output_max(&self) -> (r: u16)
        ensures
            r == self.output_max,
    {
        self.output_max
    }

    /// Sets the output range maximum.
    pub fn set_output_max(&mut self, val: u16)
        ensures
            *final(self) == (SimpleWB { output_max: val, ..*old(self) }),
    {
        self.output_max = val;
    }

    /// Percent of top and bottom values to ignore.
    pub fn get_p(&self) -> (r: i32)
        ensures
            r == self.p,
    {
        self.p
    }

    /// Sets the trim percentage; rejects values outside `[0, 100)`.
    pub fn set_p(&mut self, val: i32) -> (r: Result<(), WbError>)
        ensures
            r is Ok <==> 0 <= val < 100,
            (r is Ok ==> *final(self) == (SimpleWB { p: val, ..*old(self) })),
            (r is Err ==> *final(self) == *old(self) && r == Err::<(), WbError>(
                WbError::InvalidArgument,
            )),
    {
        if val < 0 || val >= 100 {
            return Err(WbError::InvalidArgument);
        }
        self.p = val;
        Ok(())
    }

    /// Finds the effective per-channel input ranges of the stretch: the
    /// extreme clamped sample values that survive trimming `p/2` percent
    /// of the mass at each tail.
    ///
    /// Fails with `InvalidArgument` when `p` or the input range is out of
    /// domain and with `InsufficientData` on an empty image; otherwise
    /// returns exactly the cut points of [`lo_cut`] and [`hi_cut`] for
    /// every channel.
    pub fn estimate_ranges(&self, src: &Image) -> (r: Result<Vec<ChannelRange>, WbError>)
        requires
            src.wf(),
        ensures
            r is Ok <==> self.stretch_params_ok() && src.pixel_count() > 0,
            (r matches Ok(rs) ==> {
                &&& rs@.len() == src.channels
                &&& forall|c: int|
                    0 <= c < src.channels ==> {
                        &&& (#[trigger] rs@[c]).lo as int == lo_cut(
                            *src,
                            c,
                            self.input_min as int,
                            self.input_max as int,
                            self.trim_spec(src.pixel_count()),
                        )
                        &&& rs@[c].hi as int == hi_cut(
                            *src,
                            c,
                            self.input_min as int,
                            self.input_max as int,
                            self.trim_spec(src.pixel_count()),
                        )
                        &&& lo_cut_at(
                            *src,
                            c,
                            self.input_min as int,
                            self.input_max as int,
                            self.trim_spec(src.pixel_count()),
                            rs@[c].lo as int,
                        )
                        &&& hi_cut_at(
                            *src,
                            c,
                            self.input_min as int,
                            self.input_max as int,
                            self.trim_spec(src.pixel_count()),
                            rs@[c].hi as int,
                        )
                        &&& self.input_min <= rs@[c].lo <= rs@[c].hi <= self.input_max
                    }
            }),
            (!self.stretch_params_ok() ==> r == Err::<Vec<ChannelRange>, WbError>(
                WbError::InvalidArgument,
            )),
            (self.stretch_params_ok() && src.pixel_count() == 0 ==> r == Err::<
                Vec<ChannelRange>,
                WbError,
            >(WbError::InsufficientData)),
    {
        if self.p < 0 || self.p >= 100 || self.input_min >= self.input_max {
            return Err(WbError::InvalidArgument);
        }
        let n = src.data.len();
        proof {
            assert(src.width * src.height <= n) by (nonlinear_arith)
                requires
                    n == src.width * src.height * src.channels,
                    src.channels == 1 || src.channels == 3,
            ;
        }
        let wh = src.width * src.height;
        if wh == 0 {
            return Err(WbError::InsufficientData);
        }
        let ghost pp = self.p as int;
        proof {
            assert((wh as int) * pp < 0x1_0000_0000_0000_0000 * 100) by (nonlinear_arith)
                requires
                    0 <= (wh as int) < 0x1_0000_0000_0000_0000,
                    0 <= pp < 100,
            ;
        }
        let tr128: u128 = (wh as u128) * (self.p as u128) / 200;
        proof {
            assert(2 * ((wh as int) * pp / 200) < wh as int) by (nonlinear_arith)
                requires
                    wh as int >= 1,
                    0 <= pp < 100,
            ;
        }
        let tr: u64 = tr128 as u64;
        let mut rs: Vec<ChannelRange> = Vec::new();
        let mut c: usize = 0;
        while c < src.channels
            invariant
                src.wf(),
                self.input_min < self.input_max,
                wh == src.pixel_count(),
                wh >= 1,
                tr as int == self.trim_spec(src.pixel_count()),
                2 * (tr as int) < wh as int,
                c <= src.channels,
                rs@.len() == c,
                forall|j: int|
                    0 <= j < c ==> {
                        &&& lo_cut_at(
                            *src,
                            j,
                            self.input_min as int,
                            self.input_max as int,
                            tr as int,
                            (#[trigger] rs@[j]).lo as int,
                        )
                        &&& hi_cut_at(
                            *src,
                            j,
                            self.input_min as int,
                            self.input_max as int,
                            tr as int,
                            rs@[j].hi as int,
                        )
                        &&& rs@[j].lo as int == lo_cut(
                            *src,
                            j,
                            self.input_min as int,
                            self.input_max as int,
                            tr as int,
                        )
                        &&& rs@[j].hi as int == hi_cut(
                            *src,
                            j,
                            self.input_min as int,
                            self.input_max as int,
                            tr as int,
                        )
                        &&& self.input_min <= rs@[j].lo <= rs@[j].hi <= self.input_max
                    },
            decreases src.channels - c,
        {
            let cr = channel_range(src, c, self.input_min, self.input_max, tr, wh);
            rs.push(cr);
            c = c + 1;
        }
        Ok(rs)
    }

    /// Stretches every channel of the image onto the output range, the
    /// effective input range of each channel found by
    /// [`SimpleWB::estimate_ranges`].
    pub fn balance(&self, src: &Image) -> (r: Result<Image, WbError>)
        requires
            src.wf(),
        ensures
            r is Ok <==> self.stretch_params_ok() && self.out_range_ok(*src) && src.pixel_count()
                > 0,
            (r matches Ok(out) ==> {
                &&& out.wf()
                &&& out.width == src.width
                &&& out.height == src.height
                &&& out.channels == src.channels
                &&& out.depth == src.depth
                &&& out.data@.len() == src.data@.len()
                &&& forall|k: int|
                    0 <= k < src.data@.len() ==> out.data@[k] as int == stretch_spec(
                        src.data@[k] as int,
                        lo_cut(
                            *src,
                            k % (src.channels as int),
                            self.input_min as int,
                            self.input_max as int,
                            self.trim_spec(src.pixel_count()),
                        ),
                        hi_cut(
                            *src,
                            k % (src.channels as int),
                            self.input_min as int,
                            self.input_max as int,
                            self.trim_spec(src.pixel_count()),
                        ),
                        self.output_min as int,
                        self.out_hi_spec(*src),
                    )
            }),
            (!(self.stretch_params_ok() && self.out_range_ok(*src)) ==> r == Err::<Image, WbError>(
                WbError::InvalidArgument,
            )),
            (self.stretch_params_ok() && self.out_range_ok(*src) && src.pixel_count() == 0 ==> r
                == Err::<Image, WbError>(WbError::InsufficientData)),
    {
        let max = src.depth.max_val();
        let out_hi = if self.output_max > max {
            max
        } else {
            self.output_max
        };
        if self.output_min > out_hi {
            return Err(WbError::InvalidArgument);
        }
        let rs = match self.estimate_ranges(src) {
            Ok(rs) => rs,
            Err(e) => {
                return Err(e);
            },
        };
        let n = src.data.len();
        let mut out_data: Vec<u16> = Vec::new();
        let mut k: usize = 0;
        while k < n
            invariant
                src.wf(),
                self.stretch_params_ok(),
                n == src.data@.len(),
                max as int == src.depth.max_spec(),
                out_hi as int == self.out_hi_spec(*src),
                self.output_min <= out_hi,
                out_hi <= max,
                rs@.len() == src.channels,
                forall|j: int|
                    0 <= j < src.channels ==> {
                        &&& (#[trigger] rs@[j]).lo as int == lo_cut(
                            *src,
                            j,
                            self.input_min as int,
                            self.input_max as int,
                            self.trim_spec(src.pixel_count()),
                        )
                        &&& rs@[j].hi as int == hi_cut(
                            *src,
                            j,
                            self.input_min as int,
                            self.input_max as int,
                            self.trim_spec(src.pixel_count()),
                        )
                        &&& rs@[j].lo <= rs@[j].hi
                    },
                k <= n,
                out_data@.len() == k,
                forall|j: int|
                    0 <= j < k ==> out_data@[j] as int == stretch_spec(
                        src.data@[j] as int,
                        lo_cut(
                            *src,
                            j % (src.channels as int),
                            self.input_min as int,
                            self.input_max as int,
                            self.trim_spec(src.pixel_count()),
                        ),
                        hi_cut(
                            *src,
                            j % (src.channels as int),
                            self.input_min as int,
                            self.input_max as int,
                            self.trim_spec(src.pixel_count()),
                        ),
                        self.output_min as int,
                        self.out_hi_spec(*src),
                    ),
                forall|j: int| 0 <= j < k ==> out_data@[j] as int <= max as int,
            decreases n - k,
        {
            let c = k % src.channels;
            let v = src.data[k];
            let cr = rs[c];
            let s = stretch_sample(v, cr.lo, cr.hi, self.output_min, out_hi);
            out_data.push(s);
            k = k + 1;
        }
        let out = Image {
            width: src.width,
            height: src.height,
            channels: src.channels,
            depth: src.depth,
            data: out_data,
        };
        Ok(out)
    }
}

impl crate::WhiteBalancer for SimpleWB {
    /// Success: valid parameters, a usable output range for the image's
    /// depth, and at least one pixel.
    open spec fn wb_ok(&self, src: Image) -> bool {
        self.stretch_params_ok() && self.out_range_ok(src) && src.pixel_count() > 0
    }

    /// Every output sample is the source sample stretched from its
    /// channel's trimmed range onto the output range.
    open spec fn wb_post(&self, src: Image, out: Image) -> bool {
        &&& out.data@.len() == src.data@.len()
        &&& forall|k: int|
            0 <= k < src.data@.len() ==> out.data@[k] as int == stretch_spec(
                src.data@[k] as int,
                lo_cut(
                    src,
                    k % (src.channels as int),
                    self.input_min as int,
                    self.input_max as int,
                    self.trim_spec(src.pixel_count()),
                ),
                hi_cut(
                    src,
                    k % (src.channels as int),
                    self.input_min as int,
                    self.input_max as int,
                    self.trim_spec(src.pixel_count()),
                ),
                self.output_min as int,
                self.out_hi_spec(src),
            )
    }

    /// Applies the percentile stretch to the image.
    fn balance_white(&self, src: &Image) -> (r: Result<Image, WbError>) {
        self.balance(src)
    }
}

/// Law: the stretch is deterministic — two outputs meeting the contract
/// for one source and configuration hold identical samples.
pub proof fn lemma_simple_deterministic(wb: SimpleWB, src: Image, o1: Image, o2: Image)
    requires
        wb.wb_post(src, o1),
        wb.wb_post(src, o2),
    ensures
        o1.data@ == o2.data@,
{
    assert forall|k: int| 0 <= k < o1.data@.len() implies o1.data@[k] == o2.data@[k] by {}
    assert(o1.data@ =~= o2.data@);
}

} // verus!
