//! Learning-based white balance.
//!
//! The estimator extracts four chromaticity features from the image —
//! the average color, the brightest color, the dominant color of a
//! quantized RGB histogram, and the density mode of the palette of most
//! common colors — and feeds them to a pretrained regression model that
//! produces the gain triple. Pixels whose largest channel reaches
//! `saturation_threshold * range_max_val` are excluded everywhere.
//!
//! A chromaticity pair `(r, g)` is `(R, G) / (R + G + B)`, carried fixed
//! point over [`FP_ONE`]. The model is plain data — per-channel affine
//! weights over the eight feature components — so that the regression
//! step is itself verified; loading a model from disk is the caller's
//! concern.

use vstd::prelude::*;

use crate::error::WbError;
use crate::gain;
use crate::gain::div_round;
use crate::gain::FP_ONE;
use crate::gain::GainTriple;
use crate::grayworld::px_max;
use crate::image::Image;
use crate::WhiteBalancer;

verus! {

/// A chromaticity pair, fixed point over [`FP_ONE`].
#[derive(Clone, Copy, Debug, PartialEq, Eq, Structural)]
pub struct Chromaticity {
    /// Red share of the color, `R / (R + G + B)`.
    pub r: u32,
    /// Green share of the color, `G / (R + G + B)`.
    pub g: u32,
}

/// The four chromaticity features fed to the model.
#[derive(Clone, Copy, Debug, PartialEq, Eq, Structural)]
pub struct Features {
    /// Chromaticity of the average color of the included pixels.
    pub average: Chromaticity,
    /// Chromaticity of the brightest included color.
    pub brightest: Chromaticity,
    /// Chromaticity of the dominant color: the fullest histogram bin.
    pub dominant: Chromaticity,
    /// Density mode of the palette of most common colors.
    pub mode: Chromaticity,
}

/// Whether pixel `i` is included: its largest channel stays below
/// `t / FP_ONE` of `range_max`.
pub open spec fn px_included(im: Image, i: int, t: int, range_max: int) -> bool {
    px_max(im, i) * (FP_ONE as int) < t * range_max
}

/// Number of included pixels among the first `n`.
pub open spec fn included_count(im: Image, t: int, range_max: int, n: int) -> int
    decreases n,
{
    if n <= 0 {
        0
    } else {
        included_count(im, t, range_max, n - 1) + if px_included(im, n - 1, t, range_max) {
            1int
        } else {
            0int
        }
    }
}

/// Sum of channel `c` over the included pixels among the first `n`.
pub open spec fn included_sum(im: Image, c: int, t: int, range_max: int, n: int) -> int
    decreases n,
{
    if n <= 0 {
        0
    } else {
        included_sum(im, c, t, range_max, n - 1) + if px_included(im, n - 1, t, range_max) {
            im.sample(n - 1, c)
        } else {
            0int
        }
    }
}

/// Included sums are bounded by the sample range.
pub proof fn lemma_included_sum_bound(im: Image, c: int, t: int, range_max: int, n: int)
    requires
        im.wf(),
        im.channels == 3,
        0 <= c < 3,
        0 <= n <= im.pixel_count(),
    ensures
        0 <= included_sum(im, c, t, range_max, n) <= n * 65535,
    decreases n,
{
    if n > 0 {
        lemma_included_sum_bound(im, c, t, range_max, n - 1);
        assert(0 <= (n - 1) * 3 + c < im.data@.len()) by (nonlinear_arith)
            requires
                0 <= n - 1 < im.pixel_count(),
                0 <= c < 3,
                im.pixel_count() == im.width * im.height,
                im.data@.len() == im.width * im.height * im.channels,
                im.channels == 3,
        ;
        assert((n - 1) * 65535 + 65535 == n * 65535) by (nonlinear_arith);
    }
}

/// Brightness of pixel `i`: the sum of its three channels.
pub open spec fn px_sum3(im: Image, i: int) -> int {
    im.sample(i, 0) + im.sample(i, 1) + im.sample(i, 2)
}

/// Index of the first brightest included pixel among the first `n`, or
/// `-1` when none is included.
pub open spec fn brightest_idx(im: Image, t: int, range_max: int, n: int) -> int
    decreases n,
{
    if n <= 0 {
        -1
    } else {
        let prev = brightest_idx(im, t, range_max, n - 1);
        if !px_included(im, n - 1, t, range_max) {
            prev
        } else if prev < 0 {
            n - 1
        } else if px_sum3(im, n - 1) > px_sum3(im, prev) {
            n - 1
        } else {
            prev
        }
    }
}

/// The brightest index is a valid included pixel whenever one exists.
pub proof fn lemma_brightest_idx_valid(im: Image, t: int, range_max: int, n: int)
    requires
        0 <= n,
    ensures
        included_count(im, t, range_max, n) >= 0,
        included_count(im, t, range_max, n) == 0 <==> brightest_idx(im, t, range_max, n) == -1,
        brightest_idx(im, t, range_max, n) != -1 ==> 0 <= brightest_idx(im, t, range_max, n) < n
            && px_included(im, brightest_idx(im, t, range_max, n), t, range_max),
    decreases n,
{
    if n > 0 {
        lemma_brightest_idx_valid(im, t, range_max, n - 1);
    }
}

/// The chromaticity pair of a color `(rv, gv, bv)`: the red and green
/// shares of the channel sum, rounded half up, fixed point over
/// [`FP_ONE`]. A black color counts as neutral gray.
pub open spec fn chroma_spec(rv: int, gv: int, bv: int) -> Chromaticity {
    let s = rv + gv + bv;
    if s <= 0 {
        Chromaticity { r: (FP_ONE / 3) as u32, g: (FP_ONE / 3) as u32 }
    } else {
        Chromaticity {
            r: div_round(rv * (FP_ONE as int), s) as u32,
            g: div_round(gv * (FP_ONE as int), s) as u32,
        }
    }
}

/// A nonnegative share of the sum stays within `[0, FP_ONE]`.
pub proof fn lemma_chroma_component_bounds(x: int, s: int)
    requires
        0 <= x <= s,
        1 <= s,
    ensures
        0 <= div_round(x * (FP_ONE as int), s) <= FP_ONE as int,
{
    assert(x * (FP_ONE as int) <= s * (FP_ONE as int)) by (nonlinear_arith)
        requires
            0 <= x <= s,
    ;
    assert(0 <= x * (FP_ONE as int)) by (nonlinear_arith)
        requires
            0 <= x,
    ;
    crate::simple::lemma_div_round_bounds(x * (FP_ONE as int), s, FP_ONE as int);
}

/// Computes the chromaticity pair of a color, channel sums given as
/// wide integers.
fn chroma_of(rv: u128, gv: u128, bv: u128) -> (c: Chromaticity)
    requires
        rv <= 0x10_0000_0000_0000_0000_0000,
        gv <= 0x10_0000_0000_0000_0000_0000,
        bv <= 0x10_0000_0000_0000_0000_0000,
    ensures
        c == chroma_spec(rv as int, gv as int, bv as int),
        c.r <= FP_ONE,
        c.g <= FP_ONE,
{
    let s: u128 = rv + gv + bv;
    if s == 0 {
        Chromaticity { r: FP_ONE / 3, g: FP_ONE / 3 }
    } else {
        proof {
            lemma_chroma_component_bounds(rv as int, s as int);
            lemma_chroma_component_bounds(gv as int, s as int);
        }
        proof {
            assert(FP_ONE == 4096);
        }
        let rn: u128 = 2 * (rv * 4096) + s;
        let gn: u128 = 2 * (gv * 4096) + s;
        let d: u128 = 2 * s;
        Chromaticity { r: (rn / d) as u32, g: (gn / d) as u32 }
    }
}

/// A pretrained regression model: for each output channel, eight affine
/// weights over the feature components and an intercept, fixed point over
/// [`FP_ONE`]. Row order is B, G, R; within a row the weights multiply
/// `(average.r, average.g, brightest.r, brightest.g, dominant.r,
/// dominant.g, mode.r, mode.g)` and the last entry is the intercept.
#[derive(Clone, Copy, Debug)]
pub struct WbModel {
    /// The 27 weights: three rows of nine.
    pub weights: [i64; 27],
}

/// The feature component `j` of `f`, in the model's input order.
pub open spec fn feature_component(f: Features, j: int) -> int {
    if j == 0 {
        f.average.r as int
    } else if j == 1 {
        f.average.g as int
    } else if j == 2 {
        f.brightest.r as int
    } else if j == 3 {
        f.brightest.g as int
    } else if j == 4 {
        f.dominant.r as int
    } else if j == 5 {
        f.dominant.g as int
    } else if j == 6 {
        f.mode.r as int
    } else {
        f.mode.g as int
    }
}

/// The affine response of model row `c` to the features, before
/// rescaling: the first `m` weighted terms of
/// `sum_j w[9c + j] * f_j + w[9c + 8] * FP_ONE`.
pub open spec fn model_acc(w: Seq<i64>, f: Features, c: int, m: int) -> int
    decreases m,
{
    if m <= 0 {
        0
    } else {
        model_acc(w, f, c, m - 1) + w[9 * c + (m - 1)] * feature_component(f, m - 1)
    }
}

/// The gain of model row `c`: the affine response rescaled to fixed
/// point, rounded half up, clamped to the representable range.
pub open spec fn model_gain(w: Seq<i64>, f: Features, c: int) -> int {
    let v = model_acc(w, f, c, 8) + w[9 * c + 8] * (FP_ONE as int);
    if v <= 0 {
        0
    } else if div_round(v, FP_ONE as int) > u32::MAX as int {
        u32::MAX as int
    } else {
        div_round(v, FP_ONE as int)
    }
}

impl WbModel {
    /// The built-in default model: zero weights with a unit intercept,
    /// i.e. every gain comes out as exactly 1.
    pub fn default_model() -> (m: WbModel)
        ensures
            forall|c: int| 0 <= c < 3 ==> m.weights@[#[trigger] (9 * c + 8)] == FP_ONE as i64,
            forall|k: int| 0 <= k < 27 && #[trigger] (k % 9) != 8 ==> m.weights@[k] == 0,
    {
        let w: [i64; 27] = [
            0, 0, 0, 0, 0, 0, 0, 0, 4096,
            0, 0, 0, 0, 0, 0, 0, 0, 4096,
            0, 0, 0, 0, 0, 0, 0, 0, 4096,
        ];
        WbModel { weights: w }
    }

    /// Applies the model to the features, producing the gain triple.
    ///
    /// Requires the features to be valid chromaticities (components at
    /// most [`FP_ONE`]), which [`LearningBasedWB::extract_simple_features`]
    /// guarantees.
    pub fn apply(&self, f: &Features) -> (r: GainTriple)
        requires
            forall|j: int| 0 <= j < 8 ==> feature_component(*f, j) <= FP_ONE as int,
        ensures
            r.b as int == model_gain(self.weights@, *f, 0),
            r.g as int == model_gain(self.weights@, *f, 1),
            r.r as int == model_gain(self.weights@, *f, 2),
    {
        let b = self.apply_row(f, 0);
        let g = self.apply_row(f, 1);
        let rr = self.apply_row(f, 2);
        GainTriple { b, g, r: rr }
    }

    /// Applies one model row.
    fn apply_row(&self, f: &Features, c: usize) -> (gain: u32)
        requires
            c < 3,
            forall|j: int| 0 <= j < 8 ==> feature_component(*f, j) <= FP_ONE as int,
        ensures
            gain as int == model_gain(self.weights@, *f, c as int),
    {
        let mut acc: i128 = 0;
        let mut j: usize = 0;
        while j < 8
            invariant
                c < 3,
                forall|q: int| 0 <= q < 8 ==> feature_component(*f, q) <= FP_ONE as int,
                j <= 8,
                acc as int == model_acc(self.weights@, *f, c as int, j as int),
                -(j as int) * 0x8000_0000_0000_0000 * 4096 <= acc as int,
                acc as int <= (j as int) * 0x8000_0000_0000_0000 * 4096,
            decreases 8 - j,
        {
            let w = self.weights[9 * c + j];
            let fc: u32 = if j == 0 {
                f.average.r
            } else if j == 1 {
                f.average.g
            } else if j == 2 {
                f.brightest.r
            } else if j == 3 {
                f.brightest.g
            } else if j == 4 {
                f.dominant.r
            } else if j == 5 {
                f.dominant.g
            } else if j == 6 {
                f.mode.r
            } else {
                f.mode.g
            };
            proof {
                assert(fc as int == feature_component(*f, j as int));
                assert(-0x8000_0000_0000_0000 * 4096 <= (w as int) * (fc as int)
                    <= 0x8000_0000_0000_0000 * 4096) by (nonlinear_arith)
                    requires
                        -0x8000_0000_0000_0000 <= w as int <= 0x7fff_ffff_ffff_ffff,
                        0 <= fc as int <= 4096,
                ;
            }
            let term: i128 = (w as i128) * (fc as i128);
            acc = acc + term;
            j = j + 1;
        }
        let w8 = self.weights[9 * c + 8];
        proof {
            assert(-0x8000_0000_0000_0000 * 4096 <= (w8 as int) * 4096 <= 0x8000_0000_0000_0000
                * 4096) by (nonlinear_arith)
                requires
                    -0x8000_0000_0000_0000 <= w8 as int <= 0x7fff_ffff_ffff_ffff,
            ;
        }
        let intercept: i128 = (w8 as i128) * (FP_ONE as i128);
        let v: i128 = acc + intercept;
        if v <= 0 {
            0
        } else {
            let q: i128 = (2 * v + 4096) / (2 * 4096);
            if q > u32::MAX as i128 {
                u32::MAX
            } else {
                q as u32
            }
        }
    }
}


/// Quantized bin of one sample: `v * nbins / (range_max + 1)`, clamped to
/// the top bin for samples above `range_max`.
pub open spec fn bin_of(v: int, nbins: int, range_max: int) -> int {
    let b = v * nbins / (range_max + 1);
    if b >= nbins {
        nbins - 1
    } else {
        b
    }
}

/// Flat histogram bin of pixel `i`: its three channel bins combined,
/// blue major.
pub open spec fn px_bin(im: Image, i: int, nbins: int, range_max: int) -> int {
    (bin_of(im.sample(i, 0), nbins, range_max) * nbins + bin_of(
        im.sample(i, 1),
        nbins,
        range_max,
    )) * nbins + bin_of(im.sample(i, 2), nbins, range_max)
}

/// Number of included pixels among the first `n` that fall into flat bin
/// `bidx`.
pub open spec fn bin_count(im: Image, t: int, range_max: int, nbins: int, bidx: int, n: int) -> int
    decreases n,
{
    if n <= 0 {
        0
    } else {
        bin_count(im, t, range_max, nbins, bidx, n - 1) + if px_included(im, n - 1, t, range_max)
            && px_bin(im, n - 1, nbins, range_max) == bidx {
            1int
        } else {
            0int
        }
    }
}

/// Bin counts lie in `[0, n]`.
pub proof fn lemma_bin_count_bounds(
    im: Image,
    t: int,
    range_max: int,
    nbins: int,
    bidx: int,
    n: int,
)
    requires
        0 <= n,
    ensures
        0 <= bin_count(im, t, range_max, nbins, bidx, n) <= n,
    decreases n,
{
    if n > 0 {
        lemma_bin_count_bounds(im, t, range_max, nbins, bidx, n - 1);
    }
}

/// The quantized RGB histogram of the included pixels: entry `bidx`
/// holds `bin_count` of that flat bin.
pub open spec fn hist_of(im: Image, t: int, range_max: int, nbins: int) -> Seq<int> {
    Seq::new((nbins * nbins * nbins) as nat, |bidx: int| bin_count(
        im,
        t,
        range_max,
        nbins,
        bidx,
        im.pixel_count(),
    ))
}

/// Index of the first maximal entry among the first `m` of `h`.
pub open spec fn argmax_idx(h: Seq<int>, m: int) -> int
    decreases m,
{
    if m <= 1 {
        0
    } else {
        let prev = argmax_idx(h, m - 1);
        if h[m - 1] > h[prev] {
            m - 1
        } else {
            prev
        }
    }
}

/// The argmax index is valid and dominant.
pub proof fn lemma_argmax_valid(h: Seq<int>, m: int)
    requires
        1 <= m <= h.len(),
    ensures
        0 <= argmax_idx(h, m) < m,
        forall|k: int| 0 <= k < m ==> #[trigger] h[k] <= h[argmax_idx(h, m)],
    decreases m,
{
    if m > 1 {
        lemma_argmax_valid(h, m - 1);
    }
}

/// The center color value of bin `b`: the midpoint of the bin's span,
/// rounded down.
pub open spec fn center_of(b: int, nbins: int, range_max: int) -> int {
    (2 * b + 1) * (range_max + 1) / (2 * nbins)
}

/// The chromaticity of the center color of flat bin `bidx`.
pub open spec fn bin_chroma(bidx: int, nbins: int, range_max: int) -> Chromaticity {
    let bb = bidx / (nbins * nbins);
    let bg = (bidx / nbins) % nbins;
    let br = bidx % nbins;
    chroma_spec(
        center_of(br, nbins, range_max),
        center_of(bg, nbins, range_max),
        center_of(bb, nbins, range_max),
    )
}

/// `s` is sorted by count, nonincreasing.
pub open spec fn sorted_by_count(s: Seq<(usize, u64)>) -> bool {
    forall|j1: int, j2: int| 0 <= j1 < j2 < s.len() ==> (#[trigger] s[j1]).1 >= (#[trigger] s[j2]).1
}

/// Bin `b` appears in the palette `s`.
pub open spec fn in_palette(s: Seq<(usize, u64)>, b: int) -> bool {
    exists|j: int| 0 <= j < s.len() && (#[trigger] s[j]).0 as int == b
}

/// `s` is a palette of the (at most) `cap` fullest bins of `h`: sorted by
/// count, entries are distinct nonempty bins carrying their true counts,
/// and every nonempty bin left out counts no more than the palette's
/// smallest member.
pub open spec fn is_top_palette(h: Seq<int>, s: Seq<(usize, u64)>, cap: int) -> bool {
    &&& s.len() <= cap
    &&& sorted_by_count(s)
    &&& forall|j: int|
        0 <= j < s.len() ==> ((#[trigger] s[j]).0 < h.len() && h[s[j].0 as int] == s[j].1 as int
            && s[j].1 > 0)
    &&& forall|j1: int, j2: int|
        0 <= j1 < j2 < s.len() ==> (#[trigger] s[j1]).0 != (#[trigger] s[j2]).0
    &&& forall|b: int|
        0 <= b < h.len() && h[b] > 0 && !in_palette(s, b) ==> (s.len() == cap && h[b] <= s[cap
            - 1].1 as int)
}

/// The insertion point of count `c` in a count-sorted list: after every
/// entry of count at least `c`, before the first strictly smaller one.
pub open spec fn palette_insert_pos(s: Seq<(usize, u64)>, c: u64) -> int
    decreases s.len(),
{
    if s.len() == 0 {
        0
    } else if s[0].1 < c {
        0
    } else {
        1 + palette_insert_pos(s.drop_first(), c)
    }
}

/// An index with every entry before it counting at least `c` and every
/// entry from it on counting less is the insertion point.
pub proof fn lemma_palette_insert_pos_pins(s: Seq<(usize, u64)>, c: u64, p: int)
    requires
        sorted_by_count(s),
        0 <= p <= s.len(),
        forall|j: int| 0 <= j < p ==> (#[trigger] s[j]).1 >= c,
        forall|j: int| p <= j < s.len() ==> (#[trigger] s[j]).1 < c,
    ensures
        p == palette_insert_pos(s, c),
    decreases s.len(),
{
    if s.len() == 0 {
    } else if s[0].1 < c {
        assert(p == 0);
    } else {
        assert(p >= 1);
        let s2 = s.drop_first();
        assert forall|j1: int, j2: int| 0 <= j1 < j2 < s2.len() implies (#[trigger] s2[j1]).1 >= (
        #[trigger] s2[j2]).1 by {
            assert(s2[j1] == s[j1 + 1] && s2[j2] == s[j2 + 1]);
        }
        assert forall|j: int| 0 <= j < p - 1 implies (#[trigger] s2[j]).1 >= c by {
            assert(s2[j] == s[j + 1]);
        }
        assert forall|j: int| p - 1 <= j < s2.len() implies (#[trigger] s2[j]).1 < c by {
            assert(s2[j] == s[j + 1]);
        }
        lemma_palette_insert_pos_pins(s2, c, p - 1);
    }
}

/// One step of the palette construction: a nonempty bin enters in count
/// order, after existing entries of equal count; a full palette admits it
/// only by displacing its smallest member.
pub open spec fn palette_with(s: Seq<(usize, u64)>, b: usize, c: u64, cap: int) -> Seq<
    (usize, u64),
> {
    if c == 0 {
        s
    } else if s.len() < cap {
        s.insert(palette_insert_pos(s, c), (b, c))
    } else if c > s[cap - 1].1 {
        s.insert(palette_insert_pos(s, c), (b, c)).subrange(0, cap)
    } else {
        s
    }
}

/// The palette of the (at most) `cap` fullest bins among the first `m`
/// entries of `h`, bins visited in ascending order.
pub open spec fn palette_fold(h: Seq<int>, m: int, cap: int) -> Seq<(usize, u64)>
    decreases m,
{
    if m <= 0 {
        Seq::<(usize, u64)>::empty()
    } else {
        palette_with(palette_fold(h, m - 1, cap), (m - 1) as usize, h[m - 1] as u64, cap)
    }
}

/// Inserts `(b, c)` into a count-sorted list, keeping it sorted; the new
/// entry goes after existing entries of equal count.
fn sorted_insert(list: &mut Vec<(usize, u64)>, b: usize, c: u64) -> (pos: usize)
    requires
        sorted_by_count(old(list)@),
        old(list)@.len() < 1000,
    ensures
        pos <= old(list)@.len(),
        forall|j: int| 0 <= j < pos ==> (#[trigger] old(list)@[j]).1 >= c,
        forall|j: int| pos <= j < old(list)@.len() ==> (#[trigger] old(list)@[j]).1 < c,
        final(list)@ == old(list)@.insert(pos as int, (b, c)),
        sorted_by_count(final(list)@),
        final(list)@.len() == old(list)@.len() + 1,
{
    let ghost orig = list@;
    let mut pos: usize = 0;
    while pos < list.len() && list[pos].1 >= c
        invariant
            list@ == orig,
            pos <= orig.len(),
            forall|j: int| 0 <= j < pos ==> (#[trigger] orig[j]).1 >= c,
            sorted_by_count(orig),
        decreases orig.len() - pos,
    {
        pos = pos + 1;
    }
    proof {
        assert forall|j: int| pos <= j < orig.len() implies (#[trigger] orig[j]).1 < c by {
            if j > pos {
                assert(orig[pos as int].1 >= orig[j].1);
            }
        }
        orig.insert_ensures(pos as int, (b, c));
    }
    list.insert(pos, (b, c));
    proof {
        let newl = list@;
        assert forall|j1: int, j2: int| 0 <= j1 < j2 < newl.len() implies (#[trigger] newl[j1]).1
            >= (#[trigger] newl[j2]).1 by {
            let p = pos as int;
            if j1 < p && j2 < p {
                assert(newl[j1] == orig[j1] && newl[j2] == orig[j2]);
            } else if j1 < p && j2 == p {
                assert(newl[j1] == orig[j1]);
            } else if j1 < p && j2 > p {
                assert(newl[j1] == orig[j1] && newl[j2] == orig[j2 - 1]);
            } else if j1 == p && j2 > p {
                assert(newl[j2] == orig[j2 - 1]);
                assert(orig[j2 - 1].1 < c);
            } else {
                assert(newl[j1] == orig[j1 - 1] && newl[j2] == orig[j2 - 1]);
            }
        }
    }
    pos
}

/// The (at most) `cap` fullest nonempty bins of the histogram `h`,
/// sorted by count. Ties at the boundary keep the bins met first.
#[verifier::rlimit(100)]
fn top_colors(h: &Vec<u64>, cap: usize) -> (pal: Vec<(usize, u64)>)
    requires
        1 <= cap <= 300,
    ensures
        is_top_palette(h@.map_values(|x: u64| x as int), pal@, cap as int),
        pal@ == palette_fold(h@.map_values(|x: u64| x as int), h@.len() as int, cap as int),
{
    let ghost hs = h@.map_values(|x: u64| x as int);
    let mut pal: Vec<(usize, u64)> = Vec::new();
    let mut b: usize = 0;
    while b < h.len()
        invariant
            hs == h@.map_values(|x: u64| x as int),
            hs.len() == h@.len(),
            forall|k: int| 0 <= k < hs.len() ==> hs[k] == h@[k] as int,
            1 <= cap <= 300,
            b <= h@.len(),
            pal@.len() <= cap,
            sorted_by_count(pal@),
            forall|j: int|
                0 <= j < pal@.len() ==> ((#[trigger] pal@[j]).0 < b && pal@[j].0 < h@.len()
                    && h@[pal@[j].0 as int] == pal@[j].1 && pal@[j].1 > 0),
            forall|j1: int, j2: int|
                0 <= j1 < j2 < pal@.len() ==> (#[trigger] pal@[j1]).0 != (#[trigger] pal@[j2]).0,
            forall|bb: int|
                0 <= bb < b && hs[bb] > 0 && !in_palette(pal@, bb) ==> (pal@.len() == cap as int
                    && hs[bb] <= pal@[pal@.len() - 1].1 as int),
            pal@ == palette_fold(hs, b as int, cap as int),
        decreases h@.len() - b,
    {
        let ghost before = pal@;
        let c = h[b];
        if c > 0 {
            if pal.len() < cap {
                let pos = sorted_insert(&mut pal, b, c);
                proof {
                    before.insert_ensures(pos as int, (b, c));
                    lemma_palette_insert_pos_pins(before, c, pos as int);
                    assert(pal@ == palette_with(before, b, c, cap as int));
                    assert forall|bb: int|
                        0 <= bb < b + 1 && hs[bb] > 0 && !in_palette(pal@, bb) implies (pal@.len()
                        == cap as int && hs[bb] <= pal@[pal@.len() - 1].1 as int) by {
                        if bb == b as int {
                            assert(pal@[pos as int].0 as int == bb);
                            assert(in_palette(pal@, bb));
                        } else {
                            if in_palette(before, bb) {
                                let j = choose|j: int|
                                    0 <= j < before.len() && (#[trigger] before[j]).0 as int == bb;
                                if j < pos as int {
                                    assert(pal@[j].0 as int == bb);
                                } else {
                                    assert(pal@[j + 1].0 as int == bb);
                                }
                                assert(in_palette(pal@, bb));
                            } else {
                                assert(before.len() == cap as int);
                                assert(false);
                            }
                        }
                    }
                }
            } else {
                let last = pal[pal.len() - 1];
                if c > last.1 {
                    let ghost lastv = pal@[pal@.len() - 1];
                    let pos = sorted_insert(&mut pal, b, c);
                    let ghost mid = pal@;
                    proof {
                        before.insert_ensures(pos as int, (b, c));
                        assert(pos < before.len());
                        assert(mid[mid.len() - 1] == before[before.len() - 1]);
                    }
                    pal.pop();
                    proof {
                        lemma_palette_insert_pos_pins(before, c, pos as int);
                        assert(pal@ == mid.subrange(0, mid.len() - 1));
                        assert(mid.len() - 1 == cap as int);
                        assert(pal@ == palette_with(before, b, c, cap as int));
                        assert forall|j1: int, j2: int|
                            0 <= j1 < j2 < pal@.len() implies (#[trigger] pal@[j1]).0 != (
                        #[trigger] pal@[j2]).0 by {
                            assert(pal@[j1] == mid[j1] && pal@[j2] == mid[j2]);
                        }
                        assert(pal@.len() == cap as int);
                        assert(pal@[pal@.len() - 1] == mid[mid.len() - 2]);
                        assert(mid[mid.len() - 2].1 >= mid[mid.len() - 1].1);
                        assert forall|bb: int|
                            0 <= bb < b + 1 && hs[bb] > 0 && !in_palette(pal@, bb) implies (
                        pal@.len() == cap as int && hs[bb] <= pal@[pal@.len() - 1].1 as int) by {
                            if bb == b as int {
                                assert(mid[pos as int].0 as int == bb);
                                assert(pos < mid.len() - 1);
                                assert(pal@[pos as int].0 as int == bb);
                                assert(in_palette(pal@, bb));
                            } else if bb == lastv.0 as int {
                                assert(hs[bb] == lastv.1 as int);
                                assert(lastv.1 <= mid[mid.len() - 2].1);
                            } else {
                                if in_palette(before, bb) {
                                    let j = choose|j: int|
                                        0 <= j < before.len() && (#[trigger] before[j]).0 as int
                                            == bb;
                                    assert(j < before.len() - 1);
                                    if j < pos as int {
                                        assert(mid[j].0 as int == bb);
                                        assert(pal@[j].0 as int == bb);
                                    } else {
                                        assert(mid[j + 1].0 as int == bb);
                                        assert(j + 1 < mid.len() - 1);
                                        assert(pal@[j + 1].0 as int == bb);
                                    }
                                    assert(in_palette(pal@, bb));
                                } else {
                                    assert(hs[bb] <= before[before.len() - 1].1 as int);
                                    assert(hs[bb] <= pal@[pal@.len() - 1].1 as int);
                                }
                            }
                        }
                    }
                } else {
                    proof {
                        assert(pal@ == palette_with(before, b, c, cap as int));
                        assert forall|bb: int|
                            0 <= bb < b + 1 && hs[bb] > 0 && !in_palette(pal@, bb) implies (
                        pal@.len() == cap as int && hs[bb] <= pal@[pal@.len() - 1].1 as int) by {
                            if bb == b as int {
                                assert(hs[bb] == c as int);
                            }
                        }
                    }
                }
            }
        } else {
            proof {
                assert(pal@ == palette_with(before, b, c, cap as int));
            }
        }
        proof {
            assert(hs[b as int] == c as int);
            assert(hs[b as int] as u64 == c);
            assert(palette_fold(hs, b as int + 1, cap as int) == palette_with(
                palette_fold(hs, b as int, cap as int),
                b,
                hs[b as int] as u64,
                cap as int,
            ));
            assert(pal@ == palette_fold(hs, b as int + 1, cap as int));
        }
        b = b + 1;
    }
    pal
}


/// One palette color projected onto the chromaticity plane, with the
/// count of its histogram bin.
#[derive(Clone, Copy, Debug, PartialEq, Eq, Structural)]
pub struct PalettePoint {
    /// Red chromaticity of the bin's center color.
    pub r: u32,
    /// Green chromaticity of the bin's center color.
    pub g: u32,
    /// Number of included pixels in the bin.
    pub count: u64,
}

/// Squared bandwidth of the kernel density estimate on the chromaticity
/// plane: a bandwidth of 0.05 in fixed point (205), squared.
pub const KDE_H2: u64 = 42025;

/// Epanechnikov kernel weight at chromaticity offset `(dr, dg)`,
/// unnormalized: `H2 - d2` inside the bandwidth, 0 outside.
pub open spec fn epan_weight(dr: int, dg: int) -> int {
    let d2 = dr * dr + dg * dg;
    if d2 >= KDE_H2 as int {
        0
    } else {
        KDE_H2 as int - d2
    }
}

/// The kernel weight lies in `[0, KDE_H2]`.
pub proof fn lemma_epan_weight_bounds(dr: int, dg: int)
    ensures
        0 <= epan_weight(dr, dg) <= KDE_H2 as int,
{
    assert(dr * dr >= 0) by (nonlinear_arith);
    assert(dg * dg >= 0) by (nonlinear_arith);
}

/// Kernel density of the palette at `(r, g)`: the count-weighted kernel
/// sum over the first `m` points.
pub open spec fn density_at(pts: Seq<PalettePoint>, r: int, g: int, m: int) -> int
    decreases m,
{
    if m <= 0 {
        0
    } else {
        density_at(pts, r, g, m - 1) + (pts[m - 1].count as int) * epan_weight(
            r - pts[m - 1].r,
            g - pts[m - 1].g,
        )
    }
}

/// Index of the first palette point of maximal density.
pub open spec fn mode_idx(pts: Seq<PalettePoint>, m: int) -> int
    decreases m,
{
    if m <= 1 {
        0
    } else {
        let prev = mode_idx(pts, m - 1);
        if density_at(pts, pts[m - 1].r as int, pts[m - 1].g as int, pts.len() as int) > density_at(
            pts,
            pts[prev].r as int,
            pts[prev].g as int,
            pts.len() as int,
        ) {
            m - 1
        } else {
            prev
        }
    }
}

/// The mode index is a valid palette index.
pub proof fn lemma_mode_idx_valid(pts: Seq<PalettePoint>, m: int)
    requires
        1 <= m,
    ensures
        0 <= mode_idx(pts, m) < m,
    decreases m,
{
    if m > 1 {
        lemma_mode_idx_valid(pts, m - 1);
    }
}

/// Densities are nonnegative and bounded by the term count.
pub proof fn lemma_density_bounds(pts: Seq<PalettePoint>, r: int, g: int, m: int)
    requires
        0 <= m,
    ensures
        0 <= density_at(pts, r, g, m) <= m * (0xffff_ffff_ffff_ffff * 42025),
    decreases m,
{
    if m > 0 {
        lemma_density_bounds(pts, r, g, m - 1);
        let cnt = pts[m - 1].count as int;
        let w = epan_weight(r - pts[m - 1].r, g - pts[m - 1].g);
        lemma_epan_weight_bounds(r - pts[m - 1].r, g - pts[m - 1].g);
        assert(0 <= cnt * w <= 0xffff_ffff_ffff_ffff * 42025) by (nonlinear_arith)
            requires
                0 <= cnt <= 0xffff_ffff_ffff_ffff,
                0 <= w <= 42025,
        ;
        assert((m - 1) * (0xffff_ffff_ffff_ffff * 42025) + 0xffff_ffff_ffff_ffff * 42025 == m * (
        0xffff_ffff_ffff_ffff * 42025)) by (nonlinear_arith);
    }
}

/// The kernel weight between two palette chromaticities.
fn epan_weight_at(r1: u32, g1: u32, r2: u32, g2: u32) -> (w: u64)
    requires
        r1 <= 4096,
        g1 <= 4096,
        r2 <= 4096,
        g2 <= 4096,
    ensures
        w as int == epan_weight(r1 as int - r2 as int, g1 as int - g2 as int),
        w <= 42025,
{
    let dr: i64 = r1 as i64 - r2 as i64;
    let dg: i64 = g1 as i64 - g2 as i64;
    proof {
        assert(0 <= dr * dr <= 4096 * 4096) by (nonlinear_arith)
            requires
                -4096 <= dr <= 4096,
        ;
        assert(0 <= dg * dg <= 4096 * 4096) by (nonlinear_arith)
            requires
                -4096 <= dg <= 4096,
        ;
    }
    let d2: i64 = dr * dr + dg * dg;
    if d2 >= 42025 {
        0
    } else {
        (42025 - d2) as u64
    }
}

/// The density of the palette at point `j`.
fn density_of(pts: &Vec<PalettePoint>, j: usize) -> (d: u128)
    requires
        j < pts@.len(),
        pts@.len() <= 300,
        forall|q: int| 0 <= q < pts@.len() ==> (#[trigger] pts@[q]).r <= 4096 && pts@[q].g <= 4096,
    ensures
        d as int == density_at(pts@, pts@[j as int].r as int, pts@[j as int].g as int, pts@.len() as int),
{
    let pj = pts[j];
    let mut acc: u128 = 0;
    let mut k: usize = 0;
    while k < pts.len()
        invariant
            j < pts@.len(),
            pts@.len() <= 300,
            forall|q: int|
                0 <= q < pts@.len() ==> (#[trigger] pts@[q]).r <= 4096 && pts@[q].g <= 4096,
            pj == pts@[j as int],
            k <= pts@.len(),
            acc as int == density_at(pts@, pj.r as int, pj.g as int, k as int),
            acc as int <= (k as int) * (0xffff_ffff_ffff_ffff * 42025),
        decreases pts@.len() - k,
    {
        let pk = pts[k];
        let w = epan_weight_at(pj.r, pj.g, pk.r, pk.g);
        proof {
            assert(0 <= (pk.count as int) * (w as int) <= 0xffff_ffff_ffff_ffff * 42025)
                by (nonlinear_arith)
                requires
                    0 <= pk.count as int <= 0xffff_ffff_ffff_ffff,
                    0 <= w as int <= 42025,
            ;
        }
        let term: u128 = (pk.count as u128) * (w as u128);
        proof {
            lemma_density_bounds(pts@, pj.r as int, pj.g as int, k as int);
            assert((k as int) * (0xffff_ffff_ffff_ffff * 42025) + 0xffff_ffff_ffff_ffff * 42025
                == (k as int + 1) * (0xffff_ffff_ffff_ffff * 42025)) by (nonlinear_arith);
        }
        acc = acc + term;
        k = k + 1;
    }
    acc
}

/// The chromaticity of the densest palette point: the mode of the
/// palette under the kernel density estimate.
fn palette_mode(pts: &Vec<PalettePoint>) -> (c: Chromaticity)
    requires
        1 <= pts@.len() <= 300,
        forall|q: int| 0 <= q < pts@.len() ==> (#[trigger] pts@[q]).r <= 4096 && pts@[q].g <= 4096,
    ensures
        c.r == pts@[mode_idx(pts@, pts@.len() as int)].r,
        c.g == pts@[mode_idx(pts@, pts@.len() as int)].g,
        c.r <= FP_ONE,
        c.g <= FP_ONE,
{
    let mut best: usize = 0;
    let mut best_d: u128 = density_of(pts, 0);
    let mut j: usize = 1;
    while j < pts.len()
        invariant
            1 <= pts@.len() <= 300,
            forall|q: int|
                0 <= q < pts@.len() ==> (#[trigger] pts@[q]).r <= 4096 && pts@[q].g <= 4096,
            1 <= j <= pts@.len(),
            best < j,
            best as int == mode_idx(pts@, j as int),
            best_d as int == density_at(pts@, pts@[best as int].r as int, pts@[best as int].g as int, pts@.len() as int),
        decreases pts@.len() - j,
    {
        let d = density_of(pts, j);
        if d > best_d {
            best = j;
            best_d = d;
        }
        j = j + 1;
    }
    proof {
        lemma_mode_idx_valid(pts@, pts@.len() as int);
    }
    let p = pts[best];
    Chromaticity { r: p.r, g: p.g }
}


/// A positive included count exhibits an included pixel.
pub proof fn lemma_included_witness(im: Image, t: int, range_max: int, n: int)
    requires
        0 <= n,
        included_count(im, t, range_max, n) > 0,
    ensures
        exists|i: int| 0 <= i < n && px_included(im, i, t, range_max),
    decreases n,
{
    if n > 0 {
        if px_included(im, n - 1, t, range_max) {
            assert(0 <= n - 1 < n && px_included(im, n - 1, t, range_max));
        } else {
            lemma_included_witness(im, t, range_max, n - 1);
        }
    }
}

/// An included pixel makes its own bin nonempty.
pub proof fn lemma_bin_count_of_pixel(
    im: Image,
    t: int,
    range_max: int,
    nbins: int,
    i: int,
    n: int,
)
    requires
        0 <= i < n,
        px_included(im, i, t, range_max),
    ensures
        bin_count(im, t, range_max, nbins, px_bin(im, i, nbins, range_max), n) >= 1,
    decreases n,
{
    lemma_bin_count_bounds(im, t, range_max, nbins, px_bin(im, i, nbins, range_max), n - 1);
    if i < n - 1 {
        lemma_bin_count_of_pixel(im, t, range_max, nbins, i, n - 1);
    }
}

/// Channel bins lie in `[0, nbins)` for nonnegative samples.
pub proof fn lemma_bin_of_range(v: int, nbins: int, range_max: int)
    requires
        0 <= v,
        1 <= nbins,
        1 <= range_max,
    ensures
        0 <= bin_of(v, nbins, range_max) < nbins,
{
    assert(v * nbins >= 0) by (nonlinear_arith)
        requires
            0 <= v,
            0 <= nbins,
    ;
    assert(v * nbins / (range_max + 1) >= 0) by (nonlinear_arith)
        requires
            v * nbins >= 0,
            range_max + 1 >= 1,
    ;
}

/// Flat bins lie in `[0, nbins^3)`.
pub proof fn lemma_px_bin_range(im: Image, i: int, nbins: int, range_max: int)
    requires
        1 <= nbins,
        1 <= range_max,
    ensures
        0 <= px_bin(im, i, nbins, range_max) < nbins * nbins * nbins,
{
    lemma_bin_of_range(im.sample(i, 0), nbins, range_max);
    lemma_bin_of_range(im.sample(i, 1), nbins, range_max);
    lemma_bin_of_range(im.sample(i, 2), nbins, range_max);
    let bb = bin_of(im.sample(i, 0), nbins, range_max);
    let bg = bin_of(im.sample(i, 1), nbins, range_max);
    let br = bin_of(im.sample(i, 2), nbins, range_max);
    assert(0 <= (bb * nbins + bg) * nbins + br < nbins * nbins * nbins) by (nonlinear_arith)
        requires
            0 <= bb < nbins,
            0 <= bg < nbins,
            0 <= br < nbins,
    ;
}

/// The quantized bin of one sample.
fn bin_idx(v: u16, nb: usize, rm: u16) -> (b: usize)
    requires
        1 <= nb <= 256,
        rm >= 1,
    ensures
        b as int == bin_of(v as int, nb as int, rm as int),
        b < nb,
{
    proof {
        assert((v as int) * (nb as int) <= 65535 * 256) by (nonlinear_arith)
            requires
                0 <= v as int <= 65535,
                0 <= nb as int <= 256,
        ;
        lemma_bin_of_range(v as int, nb as int, rm as int);
    }
    let q: u64 = (v as u64) * (nb as u64) / (rm as u64 + 1);
    if q >= nb as u64 {
        nb - 1
    } else {
        q as usize
    }
}

/// The center sample value of bin `b`.
fn center_val(b: usize, nb: usize, rm: u16) -> (c: u64)
    requires
        b < nb,
        1 <= nb <= 256,
    ensures
        c as int == center_of(b as int, nb as int, rm as int),
{
    proof {
        assert((2 * (b as int) + 1) * (rm as int + 1) <= 513 * 65536) by (nonlinear_arith)
            requires
                0 <= b as int <= 255,
                0 <= rm as int <= 65535,
        ;
    }
    (2 * (b as u64) + 1) * (rm as u64 + 1) / (2 * (nb as u64))
}

/// The quantized RGB histogram of the included pixels.
fn build_rgb_hist(src: &Image, t: u32, rm: u16, nb: usize) -> (h: Vec<u64>)
    requires
        src.wf(),
        src.channels == 3,
        1 <= nb <= 256,
        rm >= 1,
    ensures
        h@.len() == (nb * nb * nb) as int,
        forall|bidx: int|
            0 <= bidx < h@.len() ==> h@[bidx] as int == bin_count(
                *src,
                t as int,
                rm as int,
                nb as int,
                bidx,
                src.pixel_count(),
            ),
{
    proof {
        assert((nb as int) * (nb as int) <= 65536 && (nb as int) * (nb as int) * (nb as int)
            <= 16777216) by (nonlinear_arith)
            requires
                1 <= nb as int <= 256,
        ;
    }
    let nb2: usize = nb * nb;
    let nb3: usize = nb2 * nb;
    let mut h: Vec<u64> = Vec::new();
    let mut z: usize = 0;
    while z < nb3
        invariant
            z <= nb3,
            h@.len() == z,
            forall|q: int| 0 <= q < z ==> h@[q] == 0,
        decreases nb3 - z,
    {
        h.push(0u64);
        z = z + 1;
    }
    let n = src.data.len();
    proof {
        assert(src.width * src.height <= n) by (nonlinear_arith)
            requires
                n == src.width * src.height * src.channels,
                src.channels == 3,
        ;
    }
    let wh = src.width * src.height;
    let mut i: usize = 0;
    while i < wh
        invariant
            src.wf(),
            src.channels == 3,
            1 <= nb <= 256,
            rm >= 1,
            nb2 == nb * nb,
            nb3 == nb2 * nb,
            wh as int == src.pixel_count(),
            i <= wh,
            h@.len() == nb3,
            forall|bidx: int|
                0 <= bidx < h@.len() ==> h@[bidx] as int == bin_count(
                    *src,
                    t as int,
                    rm as int,
                    nb as int,
                    bidx,
                    i as int,
                ),
        decreases wh - i,
    {
        let b = src.sample_at(i, 0);
        let g = src.sample_at(i, 1);
        let r = src.sample_at(i, 2);
        let maxv = if b >= g && b >= r {
            b
        } else if g >= r {
            g
        } else {
            r
        };
        proof {
            assert(maxv as int == px_max(*src, i as int));
        }
        proof {
            assert(FP_ONE == 4096);
            assert((t as int) * (rm as int) <= 0xffff_ffff * 65535) by (nonlinear_arith)
                requires
                    0 <= t as int <= 0xffff_ffff,
                    0 <= rm as int <= 65535,
            ;
        }
        let included = (maxv as u64) * 4096u64 < (t as u64) * (rm as u64);
        if included {
            let bb = bin_idx(b, nb, rm);
            let bg = bin_idx(g, nb, rm);
            let br = bin_idx(r, nb, rm);
            proof {
                assert((bb as int) * (nb as int) <= 65536 && ((bb as int) * (nb as int) + (
                bg as int)) * (nb as int) <= 16777216 && ((bb as int) * (nb as int) + (bg as int))
                    * (nb as int) + (br as int) < (nb3 as int)) by (nonlinear_arith)
                    requires
                        0 <= (bb as int) < (nb as int),
                        0 <= (bg as int) < (nb as int),
                        0 <= (br as int) < (nb as int),
                        nb as int <= 256,
                        nb3 as int == (nb as int) * (nb as int) * (nb as int),
                ;
            }
            let idx: usize = (bb * nb + bg) * nb + br;
            proof {
                assert(idx as int == px_bin(*src, i as int, nb as int, rm as int));
                lemma_bin_count_bounds(*src, t as int, rm as int, nb as int, idx as int, i as int);
            }
            let cur = h[idx];
            h.set(idx, cur + 1);
        }
        proof {
            assert forall|bidx: int| 0 <= bidx < h@.len() implies h@[bidx] as int == #[trigger]
                bin_count(*src, t as int, rm as int, nb as int, bidx, i + 1) by {
                assert(bin_count(*src, t as int, rm as int, nb as int, bidx, i + 1) == bin_count(
                    *src,
                    t as int,
                    rm as int,
                    nb as int,
                    bidx,
                    i as int,
                ) + if px_included(*src, i as int, t as int, rm as int) && px_bin(
                    *src,
                    i as int,
                    nb as int,
                    rm as int,
                ) == bidx {
                    1int
                } else {
                    0int
                });
            }
        }
        i = i + 1;
    }
    h
}

/// Learning-based white-balance estimator. The saturation threshold is
/// fixed point over [`FP_ONE`] (default 0.98); `range_max_val` is the
/// largest sample value the image data uses (default 255);
/// `hist_bin_num` is the number of histogram bins per axis (default 64).
pub struct LearningBasedWB {
    /// Maximum possible sample value of the input image; kept in
    /// `[1, 65535]` by [`LearningBasedWB::set_range_max_val`].
    pub range_max_val: i32,
    /// Pixels whose largest channel reaches this fraction of
    /// `range_max_val` are ignored; fixed point over [`FP_ONE`], kept in
    /// `[0, FP_ONE]` by [`LearningBasedWB::set_saturation_threshold`].
    pub saturation_threshold: u32,
    /// Bins per axis of the RGB histogram; kept in `[1, 256]` by
    /// [`LearningBasedWB::set_hist_bin_num`].
    pub hist_bin_num: i32,
    /// The regression model; estimation without one fails with
    /// `ModelLoadError`.
    pub model: Option<WbModel>,
}

/// Creates a learning-based estimator with the default configuration and
/// the built-in default model.
pub fn create_learning_based_wb() -> (wb: LearningBasedWB)
    ensures
        wb.range_max_val == 255,
        wb.saturation_threshold == 4014,
        wb.hist_bin_num == 64,
        wb.model is Some,
        (wb.model matches Some(m) ==> (forall|c: int|
            0 <= c < 3 ==> m.weights@[#[trigger] (9 * c + 8)] == FP_ONE as i64) && (forall|k: int|
            0 <= k < 27 && #[trigger] (k % 9) != 8 ==> m.weights@[k] == 0)),
{
    LearningBasedWB {
        range_max_val: 255,
        saturation_threshold: 4014,
        hist_bin_num: 64,
        model: Some(WbModel::default_model()),
    }
}

impl LearningBasedWB {
    /// The configuration the estimator validates: a usable sample range
    /// and a usable bin count.
    pub open spec fn params_ok(self) -> bool {
        &&& 1 <= self.range_max_val <= 65535
        &&& 1 <= self.hist_bin_num <= 256
    }

    /// Maximum possible sample value of the input image.
    pub fn get_range_max_val(&self) -> (r: i32)
        ensures
            r == self.range_max_val,
    {
        self.range_max_val
    }

    /// Sets the maximum sample value; rejects values outside `[1, 65535]`
    /// (the samples this image type can hold).
    pub fn set_range_max_val(&mut self, val: i32) -> (r: Result<(), WbError>)
        ensures
            r is Ok <==> 1 <= val <= 65535,
            (r is Ok ==> *final(self) == (LearningBasedWB { range_max_val: val, ..*old(self) })),
            (r is Err ==> *final(self) == *old(self) && r == Err::<(), WbError>(
                WbError::InvalidArgument,
            )),
    {
        if val < 1 || val > 65535 {
            return Err(WbError::InvalidArgument);
        }
        self.range_max_val = val;
        Ok(())
    }

    /// The saturation threshold, fixed point over [`FP_ONE`].
    pub fn get_saturation_threshold(&self) -> (r: u32)
        ensures
            r == self.saturation_threshold,
    {
        self.saturation_threshold
    }

    /// Sets the saturation threshold; rejects values above `FP_ONE`
    /// (the threshold is a fraction in `[0, 1]`).
    pub fn set_saturation_threshold(&mut self, val: u32) -> (r: Result<(), WbError>)
        ensures
            r is Ok <==> val <= FP_ONE,
            (r is Ok ==> *final(self) == (LearningBasedWB {
                saturation_threshold: val,
                ..*old(self)
            })),
            (r is Err ==> *final(self) == *old(self) && r == Err::<(), WbError>(
                WbError::InvalidArgument,
            )),
    {
        if val > FP_ONE {
            return Err(WbError::InvalidArgument);
        }
        self.saturation_threshold = val;
        Ok(())
    }

    /// Bins per axis of the internal RGB histogram.
    pub fn get_hist_bin_num(&self) -> (r: i32)
        ensures
            r == self.hist_bin_num,
    {
        self.hist_bin_num
    }

    /// Sets the histogram bin count; rejects values outside `[1, 256]`
    /// (the histogram holds the cube of this many bins).
    pub fn set_hist_bin_num(&mut self, val: i32) -> (r: Result<(), WbError>)
        ensures
            r is Ok <==> 1 <= val <= 256,
            (r is Ok ==> *final(self) == (LearningBasedWB { hist_bin_num: val, ..*old(self) })),
            (r is Err ==> *final(self) == *old(self) && r == Err::<(), WbError>(
                WbError::InvalidArgument,
            )),
    {
        if val < 1 || val > 256 {
            return Err(WbError::InvalidArgument);
        }
        self.hist_bin_num = val;
        Ok(())
    }
}


/// The palette bins projected onto the chromaticity plane: each point
/// carries the chromaticity of its bin's center color and the bin's
/// count.
pub open spec fn palette_points(bins: Seq<(usize, u64)>, nbins: int, rm: int) -> Seq<PalettePoint> {
    Seq::new(
        bins.len(),
        |j: int|
            PalettePoint {
                r: bin_chroma(bins[j].0 as int, nbins, rm).r,
                g: bin_chroma(bins[j].0 as int, nbins, rm).g,
                count: bins[j].1,
            },
    )
}

/// The palette of the image's quantized histogram: its 300 fullest bins,
/// ties resolved towards lower bin indexes.
pub open spec fn palette_of(im: Image, t: int, rm: int, nbins: int) -> Seq<(usize, u64)> {
    palette_fold(hist_of(im, t, rm, nbins), nbins * nbins * nbins, 300)
}

/// The density mode of the chromaticity palette: the densest of the
/// palette's points, the first on a tie. Neutral gray on an empty
/// palette, which never occurs while any pixel is included.
pub open spec fn mode_chroma_spec(im: Image, t: int, rm: int, nbins: int) -> Chromaticity {
    let pts = palette_points(palette_of(im, t, rm, nbins), nbins, rm);
    if pts.len() == 0 {
        Chromaticity { r: (FP_ONE / 3) as u32, g: (FP_ONE / 3) as u32 }
    } else {
        Chromaticity {
            r: pts[mode_idx(pts, pts.len() as int)].r,
            g: pts[mode_idx(pts, pts.len() as int)].g,
        }
    }
}

/// The four features of the image under threshold `t`, sample range
/// `rm` and `nbins` histogram bins per axis: the learning-based
/// estimator's input, a function of the image and configuration alone.
pub open spec fn features_spec(im: Image, t: int, rm: int, nbins: int) -> Features {
    let n = im.pixel_count();
    let bi = brightest_idx(im, t, rm, n);
    Features {
        average: chroma_spec(
            included_sum(im, 2, t, rm, n),
            included_sum(im, 1, t, rm, n),
            included_sum(im, 0, t, rm, n),
        ),
        brightest: chroma_spec(im.sample(bi, 2), im.sample(bi, 1), im.sample(bi, 0)),
        dominant: bin_chroma(
            argmax_idx(hist_of(im, t, rm, nbins), nbins * nbins * nbins),
            nbins,
            rm,
        ),
        mode: mode_chroma_spec(im, t, rm, nbins),
    }
}

/// Agreement on the included pixels carries to the included channel
/// sums.
pub proof fn lemma_included_sum_agree(a: Image, b: Image, t: int, rm: int, c: int, n: int)
    requires
        0 <= n,
        0 <= c < 3,
        forall|i: int| 0 <= i < n ==> (px_included(a, i, t, rm) <==> px_included(b, i, t, rm)),
        forall|i: int, cc: int|
            0 <= i < n && 0 <= cc < 3 && px_included(a, i, t, rm) ==> a.sample(i, cc) == b.sample(
                i,
                cc,
            ),
    ensures
        included_sum(a, c, t, rm, n) == included_sum(b, c, t, rm, n),
    decreases n,
{
    if n > 0 {
        lemma_included_sum_agree(a, b, t, rm, c, n - 1);
    }
}

/// Agreement on the included pixels carries to the brightest index.
pub proof fn lemma_brightest_agree(a: Image, b: Image, t: int, rm: int, n: int)
    requires
        0 <= n,
        forall|i: int| 0 <= i < n ==> (px_included(a, i, t, rm) <==> px_included(b, i, t, rm)),
        forall|i: int, cc: int|
            0 <= i < n && 0 <= cc < 3 && px_included(a, i, t, rm) ==> a.sample(i, cc) == b.sample(
                i,
                cc,
            ),
    ensures
        brightest_idx(a, t, rm, n) == brightest_idx(b, t, rm, n),
    decreases n,
{
    if n > 0 {
        lemma_brightest_agree(a, b, t, rm, n - 1);
        lemma_brightest_idx_valid(a, t, rm, n - 1);
    }
}

/// Agreement on the included pixels carries to every histogram bin.
pub proof fn lemma_bin_count_agree(
    a: Image,
    b: Image,
    t: int,
    rm: int,
    nbins: int,
    bidx: int,
    n: int,
)
    requires
        0 <= n,
        forall|i: int| 0 <= i < n ==> (px_included(a, i, t, rm) <==> px_included(b, i, t, rm)),
        forall|i: int, cc: int|
            0 <= i < n && 0 <= cc < 3 && px_included(a, i, t, rm) ==> a.sample(i, cc) == b.sample(
                i,
                cc,
            ),
    ensures
        bin_count(a, t, rm, nbins, bidx, n) == bin_count(b, t, rm, nbins, bidx, n),
    decreases n,
{
    if n > 0 {
        lemma_bin_count_agree(a, b, t, rm, nbins, bidx, n - 1);
        if px_included(a, n - 1, t, rm) {
            assert(px_bin(a, n - 1, nbins, rm) == px_bin(b, n - 1, nbins, rm));
        }
    }
}

/// Law: feature extraction ignores saturated pixels — two images of one
/// shape that agree on every included pixel, and whose remaining pixels
/// are excluded in both, yield identical features.
pub proof fn lemma_features_saturation_agreement(a: Image, b: Image, t: int, rm: int, nbins: int)
    requires
        a.width == b.width,
        a.height == b.height,
        a.channels == b.channels,
        included_count(a, t, rm, a.pixel_count()) > 0,
        forall|i: int|
            0 <= i < a.pixel_count() ==> (px_included(a, i, t, rm) <==> px_included(b, i, t, rm)),
        forall|i: int, cc: int|
            0 <= i < a.pixel_count() && 0 <= cc < 3 && px_included(a, i, t, rm) ==> a.sample(i, cc)
                == b.sample(i, cc),
    ensures
        features_spec(a, t, rm, nbins) == features_spec(b, t, rm, nbins),
{
    let n = a.pixel_count();
    assert(b.pixel_count() == n);
    lemma_included_sum_agree(a, b, t, rm, 0, n);
    lemma_included_sum_agree(a, b, t, rm, 1, n);
    lemma_included_sum_agree(a, b, t, rm, 2, n);
    lemma_brightest_agree(a, b, t, rm, n);
    lemma_brightest_idx_valid(a, t, rm, n);
    assert forall|bidx: int|
        0 <= bidx < hist_of(a, t, rm, nbins).len() implies hist_of(a, t, rm, nbins)[bidx]
        == hist_of(b, t, rm, nbins)[bidx] by {
        lemma_bin_count_agree(a, b, t, rm, nbins, bidx, n);
    }
    assert(hist_of(a, t, rm, nbins) =~= hist_of(b, t, rm, nbins));
}

impl LearningBasedWB {
    /// Extracts the four chromaticity features: the average and the
    /// brightest included color, the dominant color of the quantized RGB
    /// histogram, and the density mode of the palette of its 300 fullest
    /// bins.
    ///
    /// Fails with `InvalidArgument` on an image that is not 3-channel or
    /// on an out-of-domain configuration, and with `InsufficientData`
    /// when every pixel is excluded as saturated.
    pub fn extract_simple_features(&self, src: &Image) -> (r: Result<Features, WbError>)
        requires
            src.wf(),
        ensures
            r is Ok <==> (src.channels == 3 && self.params_ok() && included_count(
                *src,
                self.saturation_threshold as int,
                self.range_max_val as int,
                src.pixel_count(),
            ) > 0),
            (r matches Ok(f) ==> f == features_spec(
                *src,
                self.saturation_threshold as int,
                self.range_max_val as int,
                self.hist_bin_num as int,
            ) && (forall|j: int| 0 <= j < 8 ==> feature_component(f, j) <= FP_ONE as int)),
            ((src.channels != 3 || !self.params_ok()) ==> r == Err::<Features, WbError>(
                WbError::InvalidArgument,
            )),
            ((src.channels == 3 && self.params_ok() && included_count(
                *src,
                self.saturation_threshold as int,
                self.range_max_val as int,
                src.pixel_count(),
            ) == 0) ==> r == Err::<Features, WbError>(WbError::InsufficientData)),
    {
        if src.channels != 3 {
            return Err(WbError::InvalidArgument);
        }
        if self.range_max_val < 1 || self.range_max_val > 65535 || self.hist_bin_num < 1
            || self.hist_bin_num > 256 {
            return Err(WbError::InvalidArgument);
        }
        let t = self.saturation_threshold;
        let rm: u16 = self.range_max_val as u16;
        let nb: usize = self.hist_bin_num as usize;
        let ghost ti = t as int;
        let ghost rmi = rm as int;
        let ghost nbi = nb as int;
        let ghost im = *src;
        let n = src.data.len();
        proof {
            assert(src.width * src.height <= n) by (nonlinear_arith)
                requires
                    n == src.width * src.height * src.channels,
                    src.channels == 3,
            ;
        }
        let wh = src.width * src.height;
        let mut i: usize = 0;
        let mut cnt: usize = 0;
        let mut sb: u128 = 0;
        let mut sg: u128 = 0;
        let mut sr: u128 = 0;
        let mut bi: usize = 0;
        let mut bsum: u32 = 0;
        while i < wh
            invariant
                src.wf(),
                im == *src,
                src.channels == 3,
                ti == t as int,
                rmi == rm as int,
                wh as int == src.pixel_count(),
                i <= wh,
                cnt as int == included_count(im, ti, rmi, i as int),
                cnt <= i,
                sb as int == included_sum(im, 0, ti, rmi, i as int),
                sg as int == included_sum(im, 1, ti, rmi, i as int),
                sr as int == included_sum(im, 2, ti, rmi, i as int),
                cnt > 0 ==> (bi < i && bi as int == brightest_idx(im, ti, rmi, i as int) && bsum
                    as int == px_sum3(im, bi as int)),
            decreases wh - i,
        {
            let b = src.sample_at(i, 0);
            let g = src.sample_at(i, 1);
            let r = src.sample_at(i, 2);
            let maxv = if b >= g && b >= r {
                b
            } else if g >= r {
                g
            } else {
                r
            };
            proof {
                assert(maxv as int == px_max(im, i as int));
                assert((t as int) * (rm as int) <= 0xffff_ffff * 65535) by (nonlinear_arith)
                    requires
                        0 <= t as int <= 0xffff_ffff,
                        0 <= rm as int <= 65535,
                ;
                lemma_included_sum_bound(im, 0, ti, rmi, i as int);
                lemma_included_sum_bound(im, 1, ti, rmi, i as int);
                lemma_included_sum_bound(im, 2, ti, rmi, i as int);
                assert((i as int) * 65535 <= (wh as int) * 65535) by (nonlinear_arith)
                    requires
                        i as int <= wh as int,
                ;
                lemma_brightest_idx_valid(im, ti, rmi, i as int);
            }
            let included = (maxv as u64) * 4096u64 < (t as u64) * (rm as u64);
            if included {
                let s3: u32 = b as u32 + g as u32 + r as u32;
                if cnt == 0 {
                    bi = i;
                    bsum = s3;
                } else if s3 > bsum {
                    bi = i;
                    bsum = s3;
                }
                cnt = cnt + 1;
                sb = sb + b as u128;
                sg = sg + g as u128;
                sr = sr + r as u128;
            }
            i = i + 1;
        }
        if cnt == 0 {
            return Err(WbError::InsufficientData);
        }
        proof {
            lemma_included_sum_bound(im, 0, ti, rmi, wh as int);
            lemma_included_sum_bound(im, 1, ti, rmi, wh as int);
            lemma_included_sum_bound(im, 2, ti, rmi, wh as int);
            assert((wh as int) * 65535 <= 0xffff_ffff_ffff_ffff * 65535) by (nonlinear_arith)
                requires
                    0 <= wh as int <= 0xffff_ffff_ffff_ffff,
            ;
        }
        let average = chroma_of(sr, sg, sb);
        let brightest = chroma_of(
            src.sample_at(bi, 2) as u128,
            src.sample_at(bi, 1) as u128,
            src.sample_at(bi, 0) as u128,
        );
        let h = build_rgb_hist(src, t, rm, nb);
        let ghost hsq = hist_of(im, ti, rmi, nbi);
        proof {
            assert((nbi * nbi) * nbi == nbi * nbi * nbi) by (nonlinear_arith);
            assert(nbi * nbi * nbi >= 1) by (nonlinear_arith)
                requires
                    nbi >= 1,
            ;
            assert(hsq.len() == h@.len());
            assert forall|k: int| 0 <= k < hsq.len() implies hsq[k] == h@[k] as int by {
                assert(hsq[k] == bin_count(im, ti, rmi, nbi, k, im.pixel_count()));
            }
        }
        let nb3 = h.len();
        proof {
            assert(1 <= nbi * nbi <= 65536) by (nonlinear_arith)
                requires
                    1 <= nbi <= 256,
            ;
        }
        let nb2 = nb * nb;
        let mut bestb: usize = 0;
        let mut bestc: u64 = h[0];
        let mut k: usize = 1;
        while k < nb3
            invariant
                hsq.len() == h@.len(),
                forall|q: int| 0 <= q < hsq.len() ==> hsq[q] == h@[q] as int,
                h@.len() == nb3,
                1 <= k <= nb3,
                bestb < k,
                bestb as int == argmax_idx(hsq, k as int),
                bestc as int == hsq[bestb as int],
            decreases nb3 - k,
        {
            let c = h[k];
            if c > bestc {
                bestb = k;
                bestc = c;
            }
            k = k + 1;
        }
        let dbb = bestb / nb2;
        let dbg = (bestb / nb) % nb;
        let dbr = bestb % nb;
        proof {
            lemma_argmax_valid(hsq, nb3 as int);
            assert(bestb < nb3);
            assert((dbb as int) < nbi && (dbg as int) < nbi && (dbr as int) < nbi) by (nonlinear_arith)
                requires
                    0 <= (bestb as int) < (nb3 as int),
                    nb3 as int == nbi * nbi * nbi,
                    nb2 as int == nbi * nbi,
                    nbi >= 1,
                    dbb as int == (bestb as int) / (nb2 as int),
                    dbg as int == ((bestb as int) / (nbi)) % nbi,
                    dbr as int == (bestb as int) % nbi,
            ;
        }
        let dominant = chroma_of(
            center_val(dbr, nb, rm) as u128,
            center_val(dbg, nb, rm) as u128,
            center_val(dbb, nb, rm) as u128,
        );
        let pal = top_colors(&h, 300);
        let ghost hs = h@.map_values(|x: u64| x as int);
        proof {
            assert(hs =~= hsq);
            lemma_included_witness(im, ti, rmi, wh as int);
            let i1 = choose|i1: int| 0 <= i1 < wh as int && px_included(im, i1, ti, rmi);
            lemma_bin_count_of_pixel(im, ti, rmi, nbi, i1, wh as int);
            lemma_px_bin_range(im, i1, nbi, rmi);
            let b0 = px_bin(im, i1, nbi, rmi);
            assert(hsq[b0] > 0);
            if pal@.len() == 0 {
                assert(!in_palette(pal@, b0));
                assert(false);
            }
        }
        let mut pts: Vec<PalettePoint> = Vec::new();
        let mut j: usize = 0;
        while j < pal.len()
            invariant
                1 <= nb <= 256,
                rm >= 1,
                nbi == nb as int,
                rmi == rm as int,
                nb2 == nb * nb,
                is_top_palette(hs, pal@, 300),
                hs.len() == h@.len(),
                h@.len() as int == nbi * nbi * nbi,
                j <= pal@.len(),
                pts@.len() == j,
                forall|q: int|
                    0 <= q < j ==> #[trigger] pts@[q] == (PalettePoint {
                        r: bin_chroma((#[trigger] pal@[q]).0 as int, nbi, rmi).r,
                        g: bin_chroma(pal@[q].0 as int, nbi, rmi).g,
                        count: pal@[q].1,
                    }),
                forall|q: int|
                    0 <= q < j ==> (#[trigger] pts@[q]).r <= 4096 && pts@[q].g <= 4096,
            decreases pal@.len() - j,
        {
            let e = pal[j];
            let pb = e.0;
            proof {
                assert(pb < h@.len());
            }
            let cbb = pb / nb2;
            let cbg = (pb / nb) % nb;
            let cbr = pb % nb;
            proof {
                assert((cbb as int) < nbi && (cbg as int) < nbi && (cbr as int) < nbi)
                    by (nonlinear_arith)
                    requires
                        0 <= (pb as int) < nbi * nbi * nbi,
                        nb2 as int == nbi * nbi,
                        nbi >= 1,
                        cbb as int == (pb as int) / (nb2 as int),
                        cbg as int == ((pb as int) / nbi) % nbi,
                        cbr as int == (pb as int) % nbi,
                ;
            }
            let ch = chroma_of(
                center_val(cbr, nb, rm) as u128,
                center_val(cbg, nb, rm) as u128,
                center_val(cbb, nb, rm) as u128,
            );
            pts.push(PalettePoint { r: ch.r, g: ch.g, count: e.1 });
            j = j + 1;
        }
        let mode = palette_mode(&pts);
        let f = Features {
            average,
            brightest,
            dominant: dominant,
            mode: Chromaticity { r: mode.r, g: mode.g },
        };
        proof {
            assert(hs == hsq);
            assert(pal@ == palette_of(im, ti, rmi, nbi));
            assert(pts@ =~= palette_points(pal@, nbi, rmi));
            assert(f.mode == mode_chroma_spec(im, ti, rmi, nbi));
            assert(f == features_spec(im, ti, rmi, nbi));
        }
        Ok(f)
    }

    /// Estimates the gain triple: extracts the features and applies the
    /// configured model. Fails with `ModelLoadError` when no model is
    /// set, and otherwise as
    /// [`LearningBasedWB::extract_simple_features`] does.
    pub fn estimate_gains(&self, src: &Image) -> (r: Result<GainTriple, WbError>)
        requires
            src.wf(),
        ensures
            r is Ok <==> (src.channels == 3 && self.params_ok() && self.model is Some
                && included_count(
                *src,
                self.saturation_threshold as int,
                self.range_max_val as int,
                src.pixel_count(),
            ) > 0),
            (r matches Ok(g) ==> (self.model matches Some(mo) && {
                let f = features_spec(
                    *src,
                    self.saturation_threshold as int,
                    self.range_max_val as int,
                    self.hist_bin_num as int,
                );
                &&& g.b as int == model_gain(mo.weights@, f, 0)
                &&& g.g as int == model_gain(mo.weights@, f, 1)
                &&& g.r as int == model_gain(mo.weights@, f, 2)
            })),
            ((src.channels != 3 || !self.params_ok()) ==> r == Err::<GainTriple, WbError>(
                WbError::InvalidArgument,
            )),
            ((src.channels == 3 && self.params_ok() && self.model is None) ==> r == Err::<
                GainTriple,
                WbError,
            >(WbError::ModelLoadError)),
            ((src.channels == 3 && self.params_ok() && self.model is Some && included_count(
                *src,
                self.saturation_threshold as int,
                self.range_max_val as int,
                src.pixel_count(),
            ) == 0) ==> r == Err::<GainTriple, WbError>(WbError::InsufficientData)),
    {
        if src.channels != 3 {
            return Err(WbError::InvalidArgument);
        }
        if self.range_max_val < 1 || self.range_max_val > 65535 || self.hist_bin_num < 1
            || self.hist_bin_num > 256 {
            return Err(WbError::InvalidArgument);
        }
        let model = match self.model {
            Some(m) => m,
            None => {
                return Err(WbError::ModelLoadError);
            },
        };
        let f = match self.extract_simple_features(src) {
            Ok(f) => f,
            Err(e) => {
                return Err(e);
            },
        };
        let gains = model.apply(&f);
        Ok(gains)
    }

    /// Estimates the gains and applies them to the image.
    pub fn balance(&self, src: &Image) -> (r: Result<Image, WbError>)
        requires
            src.wf(),
        ensures
            r is Ok <==> (src.channels == 3 && self.params_ok() && self.model is Some
                && included_count(
                *src,
                self.saturation_threshold as int,
                self.range_max_val as int,
                src.pixel_count(),
            ) > 0),
            (r matches Ok(out) ==> out.wf() && (self.model matches Some(mo) && {
                let f = features_spec(
                    *src,
                    self.saturation_threshold as int,
                    self.range_max_val as int,
                    self.hist_bin_num as int,
                );
                gain::gains_applied(
                    *src,
                    out,
                    model_gain(mo.weights@, f, 0),
                    model_gain(mo.weights@, f, 1),
                    model_gain(mo.weights@, f, 2),
                )
            })),
            ((src.channels != 3 || !self.params_ok()) ==> r == Err::<Image, WbError>(
                WbError::InvalidArgument,
            )),
            ((src.channels == 3 && self.params_ok() && self.model is None) ==> r == Err::<
                Image,
                WbError,
            >(WbError::ModelLoadError)),
            ((src.channels == 3 && self.params_ok() && self.model is Some && included_count(
                *src,
                self.saturation_threshold as int,
                self.range_max_val as int,
                src.pixel_count(),
            ) == 0) ==> r == Err::<Image, WbError>(WbError::InsufficientData)),
    {
        let gains = match self.estimate_gains(src) {
            Ok(gains) => gains,
            Err(e) => {
                return Err(e);
            },
        };
        gain::apply_channel_gains(src, gains.b, gains.g, gains.r)
    }
}

impl crate::WhiteBalancer for LearningBasedWB {
    /// Success: a 3-channel image, a valid configuration, a model, and at
    /// least one non-saturated pixel.
    open spec fn wb_ok(&self, src: Image) -> bool {
        src.channels == 3 && self.params_ok() && self.model is Some && included_count(
            src,
            self.saturation_threshold as int,
            self.range_max_val as int,
            src.pixel_count(),
        ) > 0
    }

    /// The output is the source with the model's gains for the extracted
    /// features applied.
    open spec fn wb_post(&self, src: Image, out: Image) -> bool {
        self.model matches Some(mo) && {
            let f = features_spec(
                src,
                self.saturation_threshold as int,
                self.range_max_val as int,
                self.hist_bin_num as int,
            );
            gain::gains_applied(
                src,
                out,
                model_gain(mo.weights@, f, 0),
                model_gain(mo.weights@, f, 1),
                model_gain(mo.weights@, f, 2),
            )
        }
    }

    /// Applies the learning-based gains to the image.
    fn balance_white(&self, src: &Image) -> (r: Result<Image, WbError>) {
        self.balance(src)
    }
}

/// Law: learning-based balancing is deterministic — the features are a
/// function of the image and configuration, so two outputs meeting the
/// contract for one source hold identical samples.
pub proof fn lemma_learning_deterministic(wb: LearningBasedWB, src: Image, o1: Image, o2: Image)
    requires
        wb.model is Some,
        wb.wb_post(src, o1),
        wb.wb_post(src, o2),
    ensures
        o1.data@ == o2.data@,
{
    let mo = wb.model->Some_0;
    let f = features_spec(
        src,
        wb.saturation_threshold as int,
        wb.range_max_val as int,
        wb.hist_bin_num as int,
    );
    gain::lemma_gains_applied_deterministic(
        src,
        o1,
        o2,
        model_gain(mo.weights@, f, 0),
        model_gain(mo.weights@, f, 1),
        model_gain(mo.weights@, f, 2),
    );
}

} // verus!
