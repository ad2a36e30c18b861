//! Gray-world white balance.
//!
//! The estimator assumes that the average of all channels of a natural
//! image should come out gray. Pixels whose chromatic saturation
//! `(max(R,G,B) - min(R,G,B)) / max(R,G,B)` exceeds a configurable
//! threshold are excluded from the per-channel means (saturation of a
//! black pixel counts as 0); if no pixel passes, all pixels are used
//! instead. Each channel's gain is the grand mean of the three channel
//! means divided by that channel's mean, so the pixel count cancels and
//! the gain for channel `c` is `total / (3 * sum_c)` over the included
//! pixels.

use vstd::prelude::*;

use crate::error::WbError;
use crate::gain;
use crate::gain::div_round;
use crate::gain::FP_ONE;
use crate::gain::GainTriple;
use crate::image::Image;
use crate::WhiteBalancer;

verus! {

/// Largest channel sample of pixel `i` of a 3-channel image.
pub open spec fn px_max(im: Image, i: int) -> int {
    let b = im.sample(i, 0);
    let g = im.sample(i, 1);
    let r = im.sample(i, 2);
    if b >= g && b >= r {
        b
    } else if g >= r {
        g
    } else {
        r
    }
}

/// Smallest channel sample of pixel `i` of a 3-channel image.
pub open spec fn px_min(im: Image, i: int) -> int {
    let b = im.sample(i, 0);
    let g = im.sample(i, 1);
    let r = im.sample(i, 2);
    if b <= g && b <= r {
        b
    } else if g <= r {
        g
    } else {
        r
    }
}

/// Whether pixel `i` passes the saturation threshold `t / FP_ONE`:
/// `(max - min) / max <= t / FP_ONE`, cleared of the divisions. A black
/// pixel (`max == 0`) has saturation 0 and always passes.
pub open spec fn px_passes(im: Image, i: int, t: int) -> bool {
    (px_max(im, i) - px_min(im, i)) * (FP_ONE as int) <= t * px_max(im, i)
}

/// Number of pixels among the first `n` that pass the threshold.
pub open spec fn passing_count(im: Image, t: int, n: int) -> int
    decreases n,
{
    if n <= 0 {
        0
    } else {
        passing_count(im, t, n - 1) + if px_passes(im, n - 1, t) {
            1int
        } else {
            0int
        }
    }
}

/// Sum of channel `c` over the first `n` pixels; when `all` is false only
/// pixels passing the threshold contribute.
pub open spec fn channel_sum(im: Image, c: int, t: int, all: bool, n: int) -> int
    decreases n,
{
    if n <= 0 {
        0
    } else {
        channel_sum(im, c, t, all, n - 1) + if all || px_passes(im, n - 1, t) {
            im.sample(n - 1, c)
        } else {
            0int
        }
    }
}

/// Whether estimation falls back to using every pixel: true when no pixel
/// passes the threshold.
pub open spec fn uses_all_pixels(im: Image, t: int) -> bool {
    passing_count(im, t, im.pixel_count()) == 0
}

/// The sum of channel `c` that the estimator divides by: over the passing
/// pixels, or over all pixels if none passes.
pub open spec fn gw_sum(im: Image, c: int, t: int) -> int {
    channel_sum(im, c, t, uses_all_pixels(im, t), im.pixel_count())
}

/// The grand sum over the three channels of the included pixels.
pub open spec fn gw_total(im: Image, t: int) -> int {
    gw_sum(im, 0, t) + gw_sum(im, 1, t) + gw_sum(im, 2, t)
}

/// The fixed-point gain for a channel whose included-pixel sum is `s`,
/// with grand sum `total`: `total / (3 * s)` rounded half up, saturated at
/// the largest representable gain. A channel whose sum is 0 is identically
/// zero in the included pixels, so any gain reproduces it; it keeps gain 1.
pub open spec fn grayworld_gain(total: int, s: int) -> int {
    if s == 0 {
        FP_ONE as int
    } else if div_round(total * (FP_ONE as int), 3 * s) > u32::MAX as int {
        u32::MAX as int
    } else {
        div_round(total * (FP_ONE as int), 3 * s)
    }
}

/// Channel sums are bounded by the sample range: at most `65535 * n` over
/// `n` pixels.
pub proof fn lemma_channel_sum_bound(im: Image, c: int, t: int, all: bool, n: int)
    requires
        im.wf(),
        im.channels == 3,
        0 <= c < 3,
        0 <= n <= im.pixel_count(),
    ensures
        0 <= channel_sum(im, c, t, all, n) <= n * 65535,
    decreases n,
{
    if n > 0 {
        lemma_channel_sum_bound(im, c, t, all, n - 1);
        assert(0 <= (n - 1) * 3 + c < im.data@.len()) by (nonlinear_arith)
            requires
                0 <= n - 1 < im.pixel_count(),
                0 <= c < 3,
                im.pixel_count() == im.width * im.height,
                im.data@.len() == im.width * im.height * im.channels,
                im.channels == 3,
        ;
        assert(im.sample(n - 1, c) <= 65535);
        assert((n - 1) * 65535 + 65535 == n * 65535) by (nonlinear_arith);
    }
}

/// On pixels that all pass, the passing count is the pixel count.
pub proof fn lemma_all_pass_count(im: Image, t: int, k: int)
    requires
        0 <= k,
        forall|i: int| 0 <= i < k ==> px_passes(im, i, t),
    ensures
        passing_count(im, t, k) == k,
    decreases k,
{
    if k > 0 {
        lemma_all_pass_count(im, t, k - 1);
    }
}

/// On a channel of constant value whose pixels all pass, the channel sum
/// is the pixel count times the value.
pub proof fn lemma_constant_channel_sum(im: Image, c: int, t: int, all: bool, v: int, k: int)
    requires
        0 <= k,
        forall|i: int| 0 <= i < k ==> im.sample(i, c) == v && px_passes(im, i, t),
    ensures
        channel_sum(im, c, t, all, k) == k * v,
    decreases k,
{
    if k > 0 {
        lemma_constant_channel_sum(im, c, t, all, v, k - 1);
        assert(im.sample(k - 1, c) == v && px_passes(im, k - 1, t));
        assert(channel_sum(im, c, t, all, k) == channel_sum(im, c, t, all, k - 1) + v);
        assert((k - 1) * v + v == k * v) by (nonlinear_arith);
    } else {
        assert(0 * v == 0) by (nonlinear_arith);
    }
}

/// The balanced value of one constant channel stays within half a unit
/// (scaled by 24576) of a third of the grand value `S`: the fixed-point
/// gain error is below `v / 8192` and each rounding below half a unit.
proof fn lemma_gw_constant_channel_bound(n: int, big_s: int, v: int, max: int, o: int)
    requires
        n >= 1,
        3 <= big_s <= 765,
        1 <= v <= 255,
        v <= big_s,
        max >= 255,
        o == gain::apply_gain_spec(v, grayworld_gain(n * big_s, n * v), max),
    ensures
        24576 * o <= 8192 * big_s + 13053,
        24576 * o > 8192 * big_s - 13054,
{
    let a = n * (big_s * 4096);
    let b = n * (3 * v);
    assert(n * v >= 1 && n * v != 0) by (nonlinear_arith)
        requires
            n >= 1,
            v >= 1,
    ;
    assert((n * big_s) * 4096 == a && 3 * (n * v) == b && b >= 3) by (nonlinear_arith)
        requires
            n >= 1,
            v >= 1,
            a == n * (big_s * 4096),
            b == n * (3 * v),
    ;
    let q0 = div_round((n * big_s) * 4096, 3 * (n * v));
    assert(q0 == (2 * a + b) / (2 * b));
    assert(2 * b * q0 <= 2 * a + b && 2 * b * q0 > 2 * a - b && q0 >= 0) by (nonlinear_arith)
        requires
            q0 == (2 * a + b) / (2 * b),
            b >= 3,
            a >= 0,
    ;
    let big_a = big_s * 4096;
    let big_b = 3 * v;
    assert(2 * big_b * q0 <= 2 * big_a + big_b && 2 * big_b * q0 > 2 * big_a - big_b)
        by (nonlinear_arith)
        requires
            n >= 1,
            a == n * big_a,
            b == n * big_b,
            2 * b * q0 <= 2 * a + b,
            2 * b * q0 > 2 * a - b,
    ;
    assert(6 * (v * q0) == 2 * big_b * q0) by (nonlinear_arith)
        requires
            big_b == 3 * v,
    ;
    assert(q0 <= 1044607) by (nonlinear_arith)
        requires
            2 * big_b * q0 <= 2 * big_a + big_b,
            big_b >= 3,
            big_a <= 765 * 4096,
            big_b <= 765,
            q0 >= 0,
    ;
    assert(grayworld_gain(n * big_s, n * v) == q0);
    let sr = gain::scale_round_spec(v, q0);
    assert(4096 * sr <= v * q0 + 2048 && 4096 * sr > v * q0 + 2048 - 4096 && sr >= 0)
        by (nonlinear_arith)
        requires
            sr == (v * q0 + 2048) / 4096,
            v * q0 >= 0,
    ;
    assert(24576 * sr <= 6 * (v * q0) + 12288 && 24576 * sr > 6 * (v * q0) - 12288)
        by (nonlinear_arith)
        requires
            4096 * sr <= v * q0 + 2048,
            4096 * sr > v * q0 + 2048 - 4096,
    ;
    assert(24576 * sr <= 8192 * big_s + 3 * v + 12288);
    assert(24576 * sr > 8192 * big_s - 3 * v - 12288);
    assert(sr <= 255) by (nonlinear_arith)
        requires
            24576 * sr <= 8192 * 765 + 765 + 12288,
    ;
    assert(o == sr);
}

/// Law: gray-world convergence — balancing a constant-color image whose
/// three channels all carry signal, with a threshold that excludes
/// nothing, leaves the three output channels equal to within one sample
/// unit; the output channel means therefore agree within rounding
/// tolerance. (A zero channel is left out: it stays zero under every
/// gain, so its mean cannot rise to the others'.)
pub proof fn lemma_grayworld_convergence_constant(
    im: Image,
    out: Image,
    t: int,
    vb: int,
    vg: int,
    vr: int,
)
    requires
        im.wf(),
        im.channels == 3,
        im.pixel_count() >= 1,
        1 <= vb <= 255,
        1 <= vg <= 255,
        1 <= vr <= 255,
        forall|i: int|
            0 <= i < im.pixel_count() ==> im.sample(i, 0) == vb && im.sample(i, 1) == vg
                && im.sample(i, 2) == vr,
        t >= FP_ONE as int,
        gain::gains_applied(
            im,
            out,
            grayworld_gain(gw_total(im, t), gw_sum(im, 0, t)),
            grayworld_gain(gw_total(im, t), gw_sum(im, 1, t)),
            grayworld_gain(gw_total(im, t), gw_sum(im, 2, t)),
        ),
    ensures
        forall|i: int, c1: int, c2: int|
            0 <= i < im.pixel_count() && 0 <= c1 < 3 && 0 <= c2 < 3 ==> out.sample(i, c1)
                - out.sample(i, c2) <= 1,
{
    let n = im.pixel_count();
    let big_s = vb + vg + vr;
    assert forall|i: int| 0 <= i < n implies px_passes(im, i, t) by {
        assert(px_max(im, i) >= px_min(im, i) >= 0);
        assert((px_max(im, i) - px_min(im, i)) * (FP_ONE as int) <= t * px_max(im, i))
            by (nonlinear_arith)
            requires
                0 <= px_min(im, i) <= px_max(im, i),
                t >= 4096,
                FP_ONE as int == 4096,
        ;
    }
    lemma_all_pass_count(im, t, n);
    assert(!uses_all_pixels(im, t));
    lemma_constant_channel_sum(im, 0, t, false, vb, n);
    lemma_constant_channel_sum(im, 1, t, false, vg, n);
    lemma_constant_channel_sum(im, 2, t, false, vr, n);
    assert(gw_sum(im, 0, t) == n * vb && gw_sum(im, 1, t) == n * vg && gw_sum(im, 2, t) == n * vr);
    assert(gw_total(im, t) == n * big_s) by (nonlinear_arith)
        requires
            gw_total(im, t) == n * vb + n * vg + n * vr,
            big_s == vb + vg + vr,
    ;
    assert(im.depth.max_spec() >= 255);
    assert forall|i: int, c1: int, c2: int|
        0 <= i < n && 0 <= c1 < 3 && 0 <= c2 < 3 implies out.sample(i, c1) - out.sample(i, c2)
        <= 1 by {
        let k1 = i * 3 + c1;
        let k2 = i * 3 + c2;
        assert(0 <= k1 < im.data@.len() && 0 <= k2 < im.data@.len() && k1 % 3 == c1 && k2 % 3 == c2)
            by (nonlinear_arith)
            requires
                0 <= i < n,
                0 <= c1 < 3,
                0 <= c2 < 3,
                k1 == i * 3 + c1,
                k2 == i * 3 + c2,
                n == im.width * im.height,
                im.data@.len() == im.width * im.height * im.channels,
                im.channels == 3,
        ;
        let v1 = gain::channel_gain(c1, vb, vg, vr);
        let v2 = gain::channel_gain(c2, vb, vg, vr);
        assert(im.data@[k1] as int == im.sample(i, c1) && im.data@[k2] as int == im.sample(i, c2));
        lemma_gw_constant_channel_bound(
            n,
            big_s,
            v1,
            im.depth.max_spec(),
            out.data@[k1] as int,
        );
        lemma_gw_constant_channel_bound(
            n,
            big_s,
            v2,
            im.depth.max_spec(),
            out.data@[k2] as int,
        );
    }
}

/// Gray-world white-balance estimator. The saturation threshold is a
/// fixed-point fraction in `[0, FP_ONE]`, i.e. `[0, 1]`; the default is
/// 0.9.
pub struct GrayworldWB {
    /// Maximum saturation for a pixel to be included, fixed point over
    /// [`FP_ONE`]; kept in `[0, FP_ONE]` by [`GrayworldWB::set_saturation_threshold`].
    pub saturation_threshold: u32,
}

/// Creates a gray-world estimator with the default saturation threshold.
pub fn create_grayworld_wb() -> (wb: GrayworldWB)
    ensures
        wb.threshold_spec() == 3686,
{
    GrayworldWB { saturation_threshold: 3686 }
}

impl GrayworldWB {
    /// The configured saturation threshold, fixed point over [`FP_ONE`].
    pub open spec fn threshold_spec(self) -> int {
        self.saturation_threshold as int
    }

    /// Maximum saturation for a pixel to be included in the gray-world
    /// assumption, fixed point over [`FP_ONE`].
    pub fn get_saturation_threshold(&self) -> (t: u32)
        ensures
            t as int == self.threshold_spec(),
    {
        self.saturation_threshold
    }

    /// Sets the saturation threshold; rejects values above `FP_ONE`
    /// (saturation is a fraction in `[0, 1]`).
    pub fn set_saturation_threshold(&mut self, val: u32) -> (r: Result<(), WbError>)
        ensures
            r is Ok <==> val <= FP_ONE,
            (r is Ok ==> final(self).threshold_spec() == val as int),
            (r is Err ==> *final(self) == *old(self) && r == Err::<(), WbError>(
                WbError::InvalidArgument,
            )),
    {
        if val > FP_ONE {
            return Err(WbError::InvalidArgument);
        }
        self.saturation_threshold = val;
        Ok(())
    }

    /// Estimates the per-channel gains of the gray-world assumption.
    ///
    /// Fails with `InvalidArgument` on an image that is not 3-channel and
    /// with `InsufficientData` when the three channel sums of the included
    /// pixels are all zero; otherwise returns exactly the gains of
    /// [`grayworld_gain`].
    pub fn estimate_gains(&self, src: &Image) -> (r: Result<GainTriple, WbError>)
        requires
            src.wf(),
        ensures
            r is Ok <==> src.channels == 3 && gw_total(*src, self.threshold_spec()) > 0,
            (r matches Ok(g) ==> {
                &&& g.b as int == grayworld_gain(
                    gw_total(*src, self.threshold_spec()),
                    gw_sum(*src, 0, self.threshold_spec()),
                )
                &&& g.g as int == grayworld_gain(
                    gw_total(*src, self.threshold_spec()),
                    gw_sum(*src, 1, self.threshold_spec()),
                )
                &&& g.r as int == grayworld_gain(
                    gw_total(*src, self.threshold_spec()),
                    gw_sum(*src, 2, self.threshold_spec()),
                )
            }),
            src.channels != 3 ==> r == Err::<GainTriple, WbError>(WbError::InvalidArgument),
            src.channels == 3 && gw_total(*src, self.threshold_spec()) == 0 ==> r == Err::<
                GainTriple,
                WbError,
            >(WbError::InsufficientData),
    {
        if src.channels != 3 {
            return Err(WbError::InvalidArgument);
        }
        let t = self.saturation_threshold;
        let n = src.data.len();
        proof {
            assert(src.width * src.height <= n) by (nonlinear_arith)
                requires
                    n == src.width * src.height * src.channels,
                    src.channels == 3,
            ;
        }
        let wh = src.width * src.height;
        let mut i: usize = 0;
        let mut cnt: usize = 0;
        let mut sb_m: u128 = 0;
        let mut sg_m: u128 = 0;
        let mut sr_m: u128 = 0;
        let mut sb_a: u128 = 0;
        let mut sg_a: u128 = 0;
        let mut sr_a: u128 = 0;
        while i < wh
            invariant
                src.wf(),
                src.channels == 3,
                t as int == self.threshold_spec(),
                wh as int == src.pixel_count(),
                i <= wh,
                cnt as int == passing_count(*src, t as int, i as int),
                cnt <= i,
                sb_m as int == channel_sum(*src, 0, t as int, false, i as int),
                sg_m as int == channel_sum(*src, 1, t as int, false, i as int),
                sr_m as int == channel_sum(*src, 2, t as int, false, i as int),
                sb_a as int == channel_sum(*src, 0, t as int, true, i as int),
                sg_a as int == channel_sum(*src, 1, t as int, true, i as int),
                sr_a as int == channel_sum(*src, 2, t as int, true, i as int),
            decreases wh - i,
        {
            let b = src.sample_at(i, 0);
            let g = src.sample_at(i, 1);
            let r = src.sample_at(i, 2);
            let maxv = if b >= g && b >= r {
                b
            } else if g >= r {
                g
            } else {
                r
            };
            let minv = if b <= g && b <= r {
                b
            } else if g <= r {
                g
            } else {
                r
            };
            proof {
                assert(maxv as int == px_max(*src, i as int));
                assert(minv as int == px_min(*src, i as int));
                lemma_channel_sum_bound(*src, 0, t as int, false, i as int);
                lemma_channel_sum_bound(*src, 1, t as int, false, i as int);
                lemma_channel_sum_bound(*src, 2, t as int, false, i as int);
                lemma_channel_sum_bound(*src, 0, t as int, true, i as int);
                lemma_channel_sum_bound(*src, 1, t as int, true, i as int);
                lemma_channel_sum_bound(*src, 2, t as int, true, i as int);
                assert((i as int) * 65535 <= (wh as int) * 65535) by (nonlinear_arith)
                    requires
                        i as int <= wh as int,
                ;
                assert((t as int) * (maxv as int) <= 0xffff_ffff * 65535) by (nonlinear_arith)
                    requires
                        0 <= t as int <= 0xffff_ffff,
                        0 <= maxv as int <= 65535,
                ;
            }
            let passes = ((maxv - minv) as u64) * (FP_ONE as u64) <= (t as u64) * (maxv as u64);
            if passes {
                cnt = cnt + 1;
                sb_m = sb_m + b as u128;
                sg_m = sg_m + g as u128;
                sr_m = sr_m + r as u128;
            }
            sb_a = sb_a + b as u128;
            sg_a = sg_a + g as u128;
            sr_a = sr_a + r as u128;
            i = i + 1;
        }
        proof {
            lemma_channel_sum_bound(*src, 0, t as int, uses_all_pixels(*src, t as int), wh as int);
            lemma_channel_sum_bound(*src, 1, t as int, uses_all_pixels(*src, t as int), wh as int);
            lemma_channel_sum_bound(*src, 2, t as int, uses_all_pixels(*src, t as int), wh as int);
        }
        let (sb, sg, sr) = if cnt == 0 {
            (sb_a, sg_a, sr_a)
        } else {
            (sb_m, sg_m, sr_m)
        };
        let total = sb + sg + sr;
        if total == 0 {
            return Err(WbError::InsufficientData);
        }
        let gb = gain_from_sums(total, sb);
        let gg = gain_from_sums(total, sg);
        let gr = gain_from_sums(total, sr);
        Ok(GainTriple { b: gb, g: gg, r: gr })
    }

    /// Estimates the gray-world gains and applies them.
    pub fn balance(&self, src: &Image) -> (r: Result<Image, WbError>)
        requires
            src.wf(),
        ensures
            r is Ok <==> src.channels == 3 && gw_total(*src, self.threshold_spec()) > 0,
            (r matches Ok(out) ==> out.wf() && gain::gains_applied(
                *src,
                out,
                grayworld_gain(
                    gw_total(*src, self.threshold_spec()),
                    gw_sum(*src, 0, self.threshold_spec()),
                ),
                grayworld_gain(
                    gw_total(*src, self.threshold_spec()),
                    gw_sum(*src, 1, self.threshold_spec()),
                ),
                grayworld_gain(
                    gw_total(*src, self.threshold_spec()),
                    gw_sum(*src, 2, self.threshold_spec()),
                ),
            )),
            src.channels != 3 ==> r == Err::<Image, WbError>(WbError::InvalidArgument),
            src.channels == 3 && gw_total(*src, self.threshold_spec()) == 0 ==> r == Err::<
                Image,
                WbError,
            >(WbError::InsufficientData),
    {
        let gains = match self.estimate_gains(src) {
            Ok(gains) => gains,
            Err(e) => {
                return Err(e);
            },
        };
        gain::apply_channel_gains(src, gains.b, gains.g, gains.r)
    }
}

/// The fixed-point gain `total / (3 * s)` rounded half up and saturated
/// at `u32::MAX`; a zero channel sum keeps gain 1.
fn gain_from_sums(total: u128, s: u128) -> (g: u32)
    requires
        s <= total,
        total <= 0x4_0000_0000_0000_0000_0000,
    ensures
        g as int == grayworld_gain(total as int, s as int),
{
    if s == 0 {
        FP_ONE
    } else {
        let num: u128 = 2 * (total * 4096) + 3 * s;
        let den: u128 = 2 * (3 * s);
        let q: u128 = num / den;
        if q > u32::MAX as u128 {
            u32::MAX
        } else {
            q as u32
        }
    }
}

impl crate::WhiteBalancer for GrayworldWB {
    /// Success: a 3-channel image whose included pixels carry any signal.
    open spec fn wb_ok(&self, src: Image) -> bool {
        src.channels == 3 && gw_total(src, self.threshold_spec()) > 0
    }

    /// The output is the source with the gray-world gains applied.
    open spec fn wb_post(&self, src: Image, out: Image) -> bool {
        gain::gains_applied(
            src,
            out,
            grayworld_gain(gw_total(src, self.threshold_spec()), gw_sum(src, 0, self.threshold_spec())),
            grayworld_gain(gw_total(src, self.threshold_spec()), gw_sum(src, 1, self.threshold_spec())),
            grayworld_gain(gw_total(src, self.threshold_spec()), gw_sum(src, 2, self.threshold_spec())),
        )
    }

    /// Applies the gray-world gains to the image.
    fn balance_white(&self, src: &Image) -> (r: Result<Image, WbError>) {
        self.balance(src)
    }
}

/// Law: gray-world balancing is deterministic — two outputs meeting the
/// contract for one source and threshold hold identical samples.
pub proof fn lemma_grayworld_deterministic(wb: GrayworldWB, src: Image, o1: Image, o2: Image)
    requires
        wb.wb_post(src, o1),
        wb.wb_post(src, o2),
    ensures
        o1.data@ == o2.data@,
{
    gain::lemma_gains_applied_deterministic(
        src,
        o1,
        o2,
        grayworld_gain(gw_total(src, wb.threshold_spec()), gw_sum(src, 0, wb.threshold_spec())),
        grayworld_gain(gw_total(src, wb.threshold_spec()), gw_sum(src, 1, wb.threshold_spec())),
        grayworld_gain(gw_total(src, wb.threshold_spec()), gw_sum(src, 2, wb.threshold_spec())),
    );
}

} // verus!
