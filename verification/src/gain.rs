//! Channel-gain application: the final step of every white-balance
//! strategy.
//!
//! A gain is a non-negative fixed-point factor with denominator
//! [`FP_ONE`]; a raw value of `FP_ONE` means a gain of exactly 1. Each
//! output sample is `clamp(round(sample * gain), 0, max)` where `max` is
//! the largest valid sample of the image's depth and rounding is
//! round-half-up. Per pixel the scaling is a table lookup: the table is
//! precomputed once per channel and proved equal, entry by entry, to the
//! direct formula.

use vstd::prelude::*;

use crate::error::WbError;
use crate::image::Image;

verus! {

/// Denominator of all fixed-point fractions in this crate: a raw value
/// `x` stands for the fraction `x / FP_ONE`.
pub const FP_ONE: u32 = 4096;

/// `a / b` rounded half up, for `b > 0`.
pub open spec fn div_round(a: int, b: int) -> int {
    (2 * a + b) / (2 * b)
}

/// Rounded fixed-point scaling: `round(v * raw / FP_ONE)`, rounding half
/// up. Both arguments are non-negative in every use.
pub open spec fn scale_round_spec(v: int, raw: int) -> int {
    (v * raw + 2048) / 4096
}

/// One output sample: `v` scaled by the gain `raw / FP_ONE`, rounded half
/// up, clamped to `max`.
pub open spec fn apply_gain_spec(v: int, raw: int, max: int) -> int {
    if scale_round_spec(v, raw) > max {
        max
    } else {
        scale_round_spec(v, raw)
    }
}

/// Law: every scaled sample lies in `[0, max]`, for any non-negative gain.
pub proof fn lemma_gain_output_in_range(v: int, raw: int, max: int)
    requires
        0 <= v,
        0 <= raw,
        0 <= max,
    ensures
        0 <= apply_gain_spec(v, raw, max) <= max,
{
    assert(v * raw >= 0) by (nonlinear_arith)
        requires
            0 <= v,
            0 <= raw,
    ;
    assert((v * raw + 2048) / 4096 >= 0);
}

/// Law: a gain of exactly 1 leaves every in-range sample unchanged.
pub proof fn lemma_unit_gain_identity(v: int, max: int)
    requires
        0 <= v <= max,
    ensures
        apply_gain_spec(v, FP_ONE as int, max) == v,
{
    assert((v * 4096 + 2048) / 4096 == v) by (nonlinear_arith)
        requires
            0 <= v,
    ;
}

/// Scales one sample by the gain `raw / FP_ONE` and clamps it to `max`.
pub fn scale_sample(v: u16, raw: u32, max: u16) -> (s: u16)
    ensures
        s as int == apply_gain_spec(v as int, raw as int, max as int),
{
    proof {
        assert((v as int) * (raw as int) <= 65535 * 0xffff_ffff) by (nonlinear_arith)
            requires
                v as int <= 65535,
                raw as int <= 0xffff_ffff,
                0 <= v as int,
                0 <= raw as int,
        ;
    }
    let wide: u64 = (v as u64) * (raw as u64) + 2048;
    let scaled: u64 = wide / 4096;
    if scaled > max as u64 {
        max
    } else {
        scaled as u16
    }
}

/// The per-channel lookup table: entry `v` holds the scaled and clamped
/// value of sample `v`.
pub fn build_gain_table(raw: u32, max: u16) -> (t: Vec<u16>)
    ensures
        t@.len() == max as int + 1,
        forall|v: int|
            0 <= v <= max as int ==> t@[v] as int == apply_gain_spec(v, raw as int, max as int),
{
    let mut t: Vec<u16> = Vec::new();
    let mut v: u32 = 0;
    while v <= max as u32
        invariant
            v <= max as u32 + 1,
            t@.len() == v as int,
            forall|j: int|
                0 <= j < v as int ==> t@[j] as int == apply_gain_spec(j, raw as int, max as int),
        decreases max as int + 1 - v as int,
    {
        t.push(scale_sample(v as u16, raw, max));
        v = v + 1;
    }
    t
}

/// Per-channel gains, fixed point with denominator [`FP_ONE`], in
/// B, G, R order.
#[derive(Clone, Copy, Debug, PartialEq, Eq, Structural)]
pub struct GainTriple {
    /// Gain for the blue channel.
    pub b: u32,
    /// Gain for the green channel.
    pub g: u32,
    /// Gain for the red channel.
    pub r: u32,
}

/// The gain applied to channel `c` of a 3-channel image, channels in
/// B, G, R order.
pub open spec fn channel_gain(c: int, gain_b: int, gain_g: int, gain_r: int) -> int {
    if c == 0 {
        gain_b
    } else if c == 1 {
        gain_g
    } else {
        gain_r
    }
}

/// `out` is `src` with the three channel gains applied: identical shape
/// and depth, and every sample scaled by its channel's gain and clamped.
pub open spec fn gains_applied(src: Image, out: Image, gain_b: int, gain_g: int, gain_r: int) -> bool {
    &&& out.width == src.width
    &&& out.height == src.height
    &&& out.channels == src.channels
    &&& out.depth == src.depth
    &&& out.data@.len() == src.data@.len()
    &&& forall|k: int|
        0 <= k < src.data@.len() ==> out.data@[k] as int == apply_gain_spec(
            src.data@[k] as int,
            channel_gain(k % 3, gain_b, gain_g, gain_r),
            src.depth.max_spec(),
        )
}

/// Law: applying unit gains on every channel reproduces the source image
/// exactly.
pub proof fn lemma_unit_gains_identity(src: Image, out: Image)
    requires
        src.wf(),
        gains_applied(src, out, FP_ONE as int, FP_ONE as int, FP_ONE as int),
    ensures
        out.data@ == src.data@,
        out.width == src.width,
        out.height == src.height,
        out.channels == src.channels,
        out.depth == src.depth,
{
    assert forall|k: int| 0 <= k < src.data@.len() implies out.data@[k] == src.data@[k] by {
        lemma_unit_gain_identity(src.data@[k] as int, src.depth.max_spec());
    }
    assert(out.data@ =~= src.data@);
}

/// Law: gain application is deterministic — two outputs of one source
/// under the same gains hold identical samples, so repeated calls with
/// equal inputs agree.
pub proof fn lemma_gains_applied_deterministic(
    src: Image,
    o1: Image,
    o2: Image,
    gain_b: int,
    gain_g: int,
    gain_r: int,
)
    requires
        gains_applied(src, o1, gain_b, gain_g, gain_r),
        gains_applied(src, o2, gain_b, gain_g, gain_r),
    ensures
        o1.data@ == o2.data@,
        o1.width == o2.width,
        o1.height == o2.height,
        o1.channels == o2.channels,
        o1.depth == o2.depth,
{
    assert forall|k: int| 0 <= k < o1.data@.len() implies o1.data@[k] == o2.data@[k] by {}
    assert(o1.data@ =~= o2.data@);
}

/// Scales each channel of a 3-channel image by its own gain, rounding
/// half up and clamping to the depth's range, via per-channel lookup
/// tables. Fails exactly when the image is not 3-channel.
pub fn apply_channel_gains(src: &Image, gain_b: u32, gain_g: u32, gain_r: u32) -> (r: Result<
    Image,
    WbError,
>)
    requires
        src.wf(),
    ensures
        r is Ok <==> src.channels == 3,
        (r matches Ok(out) ==> out.wf() && gains_applied(
            *src,
            out,
            gain_b as int,
            gain_g as int,
            gain_r as int,
        )),
        (r matches Err(e) ==> e == WbError::InvalidArgument),
{
    if src.channels != 3 {
        return Err(WbError::InvalidArgument);
    }
    let max = src.depth.max_val();
    let table_b = build_gain_table(gain_b, max);
    let table_g = build_gain_table(gain_g, max);
    let table_r = build_gain_table(gain_r, max);
    let n = src.data.len();
    let mut out_data: Vec<u16> = Vec::new();
    let mut k: usize = 0;
    while k < n
        invariant
            src.wf(),
            src.channels == 3,
            n == src.data@.len(),
            max as int == src.depth.max_spec(),
            table_b@.len() == max as int + 1,
            table_g@.len() == max as int + 1,
            table_r@.len() == max as int + 1,
            forall|v: int|
                0 <= v <= max as int ==> table_b@[v] as int == apply_gain_spec(
                    v,
                    gain_b as int,
                    max as int,
                ),
            forall|v: int|
                0 <= v <= max as int ==> table_g@[v] as int == apply_gain_spec(
                    v,
                    gain_g as int,
                    max as int,
                ),
            forall|v: int|
                0 <= v <= max as int ==> table_r@[v] as int == apply_gain_spec(
                    v,
                    gain_r as int,
                    max as int,
                ),
            k <= n,
            out_data@.len() == k as int,
            forall|j: int|
                0 <= j < k as int ==> out_data@[j] as int == apply_gain_spec(
                    src.data@[j] as int,
                    channel_gain(j % 3, gain_b as int, gain_g as int, gain_r as int),
                    src.depth.max_spec(),
                ),
            forall|j: int|
                0 <= j < k as int ==> out_data@[j] as int <= max as int,
        decreases n - k,
    {
        let v = src.data[k];
        let c = k % 3;
        let s = if c == 0 {
            table_b[v as usize]
        } else if c == 1 {
            table_g[v as usize]
        } else {
            table_r[v as usize]
        };
        proof {
            lemma_gain_output_in_range(
                src.data@[k as int] as int,
                channel_gain(k as int % 3, gain_b as int, gain_g as int, gain_r as int),
                max as int,
            );
        }
        out_data.push(s);
        k = k + 1;
    }
    let out = Image {
        width: src.width,
        height: src.height,
        channels: src.channels,
        depth: src.depth,
        data: out_data,
    };
    Ok(out)
}

} // verus!
