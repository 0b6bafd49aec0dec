//! What the automatic grade measures on a rendered proxy, and how it scores it.

use vstd::prelude::*;
use crate::film::FilmImage;
use crate::histogram::Counts;
use crate::options::ZoneRange;
use crate::single::Single;

verus! {

/// Measures of a rendered picture.
#[derive(Debug, Clone, Copy, PartialEq, Eq, Structural)]
pub struct HistMetrics {
    /// Mean brightness, 0 to 255.
    pub centroid: Single,
    /// Part of the pixels that a channel clips at its top.
    pub clip_hi: Single,
    /// Part of the pixels that a channel clips at its bottom.
    pub clip_lo: Single,
    /// Brightness below which one in a hundred pixels lies.
    pub p1: Single,
    pub p50: Single,
    pub p99: Single,
}

/// Brightness of pixel `i`.
pub open spec fn luma(rgb: Seq<u8>, i: int) -> int {
    (rgb[3 * i] + rgb[3 * i + 1] + rgb[3 * i + 2]) / 3
}

/// How many of the first `n` pixels have brightness `v`.
pub open spec fn luma_tally(rgb: Seq<u8>, v: int, n: nat) -> nat
    decreases n,
{
    if n == 0 {
        0
    } else {
        luma_tally(rgb, v, (n - 1) as nat) + if luma(rgb, n - 1) == v {
            1nat
        } else {
            0nat
        }
    }
}

/// Sum of the brightness of the first `n` pixels.
pub open spec fn luma_total(rgb: Seq<u8>, n: nat) -> nat
    decreases n,
{
    if n == 0 {
        0
    } else {
        luma_total(rgb, (n - 1) as nat) + luma(rgb, n - 1) as nat
    }
}

/// How many pixels have value `v` in channel `c`.
pub open spec fn channel_tally(rgb: Seq<u8>, c: int, v: int, n: nat) -> nat {
    crate::histogram::tally(rgb, None, 1, c, v, n)
}

/// The first value of `v..256` up to which at least `target` pixels are counted; 255 if none.
pub open spec fn reached(hist: spec_fn(int) -> nat, target: nat, v: nat) -> nat
    decreases 256 - v,
{
    if v >= 256 {
        255
    } else if crate::histogram::sum_of(hist, v + 1) >= target {
        v
    } else {
        reached(hist, target, v + 1)
    }
}

/// How many of `n` pixels make up the part `p`, at least one.
pub open spec fn pixels_in(n: u32, p: Single) -> u64 {
    Single::whole(n as u64).times(p).ceiled().larger(Single::whole(1)).to_int(0xffff_ffff)
}

/// The value at or below which the part `p` of `n` pixels lies; zero without pixels.
pub open spec fn percentile_of(hist: spec_fn(int) -> nat, n: u32, p: Single) -> Single {
    if n == 0 {
        Single::whole(0)
    } else {
        Single::whole(reached(hist, pixels_in(n, p) as nat, 0) as u64)
    }
}

/// The counts as a function.
pub open spec fn as_counts(hist: Counts) -> spec_fn(int) -> nat {
    |v: int| hist@[v] as nat
}

/// The value at or below which the part `p` of the `n` counted pixels lies.
pub fn percentile(hist: &Counts, n: u32, p: Single) -> (r: Single)
    requires
        crate::histogram::sum_of(as_counts(*hist), 256) <= u32::MAX,
    ensures
        r == percentile_of(as_counts(*hist), n, p),
{
    if n == 0 {
        return Single::whole(0);
    }
    let target: u64 = Single::whole(n as u64).times(p).ceiled().larger(Single::whole(1)).to_int(
        0xffff_ffff,
    );
    let ghost counts = as_counts(*hist);
    let mut acc: u64 = 0;
    let mut v: usize = 0;
    while v < 256
        invariant
            v <= 256,
            n != 0,
            target == pixels_in(n, p),
            counts == as_counts(*hist),
            acc == crate::histogram::sum_of(counts, v as nat),
            crate::histogram::sum_of(counts, 256) <= u32::MAX,
            reached(counts, target as nat, 0) == reached(counts, target as nat, v as nat),
        decreases 256 - v,
    {
        proof {
            lemma_sum_grows(counts, (v + 1) as nat, 256);
            assert(crate::histogram::sum_of(counts, (v + 1) as nat)
                == crate::histogram::sum_of(counts, v as nat) + counts(v as int));
        }
        acc = acc + hist[v] as u64;
        if acc >= target {
            return Single::whole(v as u64);
        }
        v = v + 1;
    }
    Single::whole(255)
}

proof fn lemma_sum_grows(hist: spec_fn(int) -> nat, a: nat, b: nat)
    requires
        a <= b,
    ensures
        crate::histogram::sum_of(hist, a) <= crate::histogram::sum_of(hist, b),
    decreases b,
{
    if a < b {
        lemma_sum_grows(hist, a, (b - 1) as nat);
    }
}

proof fn lemma_same_sum(f: spec_fn(int) -> nat, g: spec_fn(int) -> nat, k: nat)
    requires
        forall|v: int| 0 <= v < k ==> #[trigger] f(v) == g(v),
    ensures
        crate::histogram::sum_of(f, k) == crate::histogram::sum_of(g, k),
    decreases k,
{
    if k > 0 {
        lemma_same_sum(f, g, (k - 1) as nat);
    }
}

proof fn lemma_same_reach(f: spec_fn(int) -> nat, g: spec_fn(int) -> nat, target: nat, v: nat)
    requires
        forall|v: int| 0 <= v < 256 ==> #[trigger] f(v) == g(v),
    ensures
        reached(f, target, v) == reached(g, target, v),
    decreases 256 - v,
{
    if v < 256 {
        lemma_same_sum(f, g, v + 1);
        lemma_same_reach(f, g, target, v + 1);
    }
}

pub proof fn lemma_luma_sum(rgb: Seq<u8>, n: nat, k: nat)
    requires
        n > 0,
    ensures
        crate::histogram::sum_of(|v: int| luma_tally(rgb, v, n), k) == crate::histogram::sum_of(
            |v: int| luma_tally(rgb, v, (n - 1) as nat),
            k,
        ) + if 0 <= luma(rgb, n - 1) < k {
            1nat
        } else {
            0nat
        },
    decreases k,
{
    if k > 0 {
        lemma_luma_sum(rgb, n, (k - 1) as nat);
    }
}

pub proof fn lemma_luma_none(rgb: Seq<u8>, k: nat)
    ensures
        crate::histogram::sum_of(|v: int| luma_tally(rgb, v, 0), k) == 0,
    decreases k,
{
    if k > 0 {
        lemma_luma_none(rgb, (k - 1) as nat);
    }
}

/// Every pixel is counted at one brightness.
pub proof fn luma_counts_add_up(rgb: Seq<u8>, n: nat)
    ensures
        crate::histogram::sum_of(|v: int| luma_tally(rgb, v, n), 256) == n,
    decreases n,
{
    if n == 0 {
        lemma_luma_none(rgb, 256);
    } else {
        luma_counts_add_up(rgb, (n - 1) as nat);
        lemma_luma_sum(rgb, n, 256);
    }
}

proof fn lemma_bounds(rgb: Seq<u8>, c: int, v: int, n: nat)
    ensures
        luma_tally(rgb, v, n) <= n,
        luma_total(rgb, n) <= 255 * n,
    decreases n,
{
    if n > 0 {
        lemma_bounds(rgb, c, v, (n - 1) as nat);
    }
}

proof fn lemma_three(rgb: Seq<u8>, c: int, v: int, n: nat)
    ensures
        channel_tally(rgb, c, v, n) + channel_tally(rgb, c, v + 1, n) + channel_tally(
            rgb,
            c,
            v + 2,
            n,
        ) <= n,
        channel_tally(rgb, c, v, n) <= n,
    decreases n,
{
    if n > 0 {
        lemma_three(rgb, c, v, (n - 1) as nat);
    }
}

/// Pixels whose channel `c` has one of the three values from `v` on.
pub open spec fn rail(rgb: Seq<u8>, c: int, v: int, n: nat) -> nat {
    channel_tally(rgb, c, v, n) + channel_tally(rgb, c, v + 1, n) + channel_tally(rgb, c, v + 2, n)
}

/// The largest of three counts.
pub open spec fn most(a: nat, b: nat, c: nat) -> nat {
    if a >= b && a >= c {
        a
    } else if b >= c {
        b
    } else {
        c
    }
}

/// Part of `n` pixels that the worst channel has at the three values from `v` on.
pub open spec fn railed(rgb: Seq<u8>, v: int, n: nat) -> Single {
    Single::whole(most(rail(rgb, 0, v, n), rail(rgb, 1, v, n), rail(rgb, 2, v, n)) as u64).over(
        Single::whole(if n > 0 {
            n as u64
        } else {
            1
        }),
    )
}

/// The measures of an RGB picture.
pub open spec fn measured(rgb: Seq<u8>) -> HistMetrics {
    let n = (rgb.len() / 3) as nat;
    let hist = |v: int| luma_tally(rgb, v, n);
    HistMetrics {
        centroid: Single::mean(
            luma_total(rgb, n) as u64,
            if n > 0 {
                n as u64
            } else {
                1
            },
        ),
        clip_hi: railed(rgb, 253, n),
        clip_lo: railed(rgb, 0, n),
        p1: percentile_of(hist, n as u32, Single::ratio(1, 100)),
        p50: percentile_of(hist, n as u32, Single::ratio(50, 100)),
        p99: percentile_of(hist, n as u32, Single::ratio(99, 100)),
    }
}

fn largest(a: u32, b: u32, c: u32) -> (r: u32)
    ensures
        r == most(a as nat, b as nat, c as nat),
{
    if a >= b && a >= c {
        a
    } else if b >= c {
        b
    } else {
        c
    }
}

/// Measures an RGB picture, three bytes to a pixel; what is left over at the end is ignored.
pub fn metrics_from_rgb(rgb: &[u8]) -> (r: HistMetrics)
    requires
        rgb.len() / 3 <= u32::MAX,
    ensures
        r == measured(rgb@),
{
    let mut lum: Counts = [0u32;256];
    let mut r_h: Counts = [0u32;256];
    let mut g_h: Counts = [0u32;256];
    let mut b_h: Counts = [0u32;256];
    let mut sum: u64 = 0;
    let n: usize = rgb.len() / 3;
    let mut i: usize = 0;
    while i < n
        invariant
            i <= n,
            n == rgb.len() / 3,
            n <= u32::MAX,
            forall|v: int| 0 <= v < 256 ==> #[trigger] lum@[v] == luma_tally(rgb@, v, i as nat),
            crate::histogram::is_tally(r_h, rgb@, None, 1, 0, i as nat),
            crate::histogram::is_tally(g_h, rgb@, None, 1, 1, i as nat),
            crate::histogram::is_tally(b_h, rgb@, None, 1, 2, i as nat),
            sum == luma_total(rgb@, i as nat),
        decreases n - i,
    {
        let r: u8 = rgb[3 * i];
        let g: u8 = rgb[3 * i + 1];
        let b: u8 = rgb[3 * i + 2];
        let y: u32 = (r as u32 + g as u32 + b as u32) / 3;
        proof {
            lemma_bounds(rgb@, 0, y as int, i as nat);
            lemma_three(rgb@, 0, r as int, i as nat);
            lemma_three(rgb@, 1, g as int, i as nat);
            lemma_three(rgb@, 2, b as int, i as nat);
        }
        r_h[r as usize] = r_h[r as usize] + 1;
        g_h[g as usize] = g_h[g as usize] + 1;
        b_h[b as usize] = b_h[b as usize] + 1;
        lum[y as usize] = lum[y as usize] + 1;
        sum = sum + y as u64;
        i = i + 1;
    }
    let count: u64 = if n > 0 {
        n as u64
    } else {
        1
    };
    proof {
        let k = n as nat;
        lemma_bounds(rgb@, 0, 0, k);
        lemma_three(rgb@, 0, 0, k);
        lemma_three(rgb@, 1, 0, k);
        lemma_three(rgb@, 2, 0, k);
        lemma_three(rgb@, 0, 253, k);
        lemma_three(rgb@, 1, 253, k);
        lemma_three(rgb@, 2, 253, k);
        let f = as_counts(lum);
        let g = |v: int| luma_tally(rgb@, v, k);
        assert forall|v: int| 0 <= v < 256 implies #[trigger] f(v) == g(v) by {
            assert(lum@[v] == luma_tally(rgb@, v, k));
        }
        lemma_same_sum(f, g, 256);
        luma_counts_add_up(rgb@, k);
        lemma_same_reach(f, g, pixels_in(n as u32, Single::ratio(1, 100)) as nat, 0);
        lemma_same_reach(f, g, pixels_in(n as u32, Single::ratio(50, 100)) as nat, 0);
        lemma_same_reach(f, g, pixels_in(n as u32, Single::ratio(99, 100)) as nat, 0);
        assert(r_h@[0] + r_h@[1] + r_h@[2] == rail(rgb@, 0, 0, k));
        assert(g_h@[0] + g_h@[1] + g_h@[2] == rail(rgb@, 1, 0, k));
        assert(b_h@[0] + b_h@[1] + b_h@[2] == rail(rgb@, 2, 0, k));
        assert(r_h@[253] + r_h@[254] + r_h@[255] == rail(rgb@, 0, 253, k));
        assert(g_h@[253] + g_h@[254] + g_h@[255] == rail(rgb@, 1, 253, k));
        assert(b_h@[253] + b_h@[254] + b_h@[255] == rail(rgb@, 2, 253, k));
    }
    let hi: u32 = largest(
        r_h[253] + r_h[254] + r_h[255],
        g_h[253] + g_h[254] + g_h[255],
        b_h[253] + b_h[254] + b_h[255],
    );
    let lo: u32 = largest(
        r_h[0] + r_h[1] + r_h[2],
        g_h[0] + g_h[1] + g_h[2],
        b_h[0] + b_h[1] + b_h[2],
    );
    HistMetrics {
        centroid: Single::mean(sum, count),
        clip_hi: Single::whole(hi as u64).over(Single::whole(count)),
        clip_lo: Single::whole(lo as u64).over(Single::whole(count)),
        p1: percentile(&lum, n as u32, Single::ratio(1, 100)),
        p50: percentile(&lum, n as u32, Single::ratio(50, 100)),
        p99: percentile(&lum, n as u32, Single::ratio(99, 100)),
    }
}

/// Distance of a brightness from the target, in halves of the range.
pub open spec fn off_centre(v: Single) -> Single {
    v.minus(Single::whole(118)).abs().over(Single::whole(128))
}

fn off_target(v: Single) -> (r: Single)
    ensures
        r == off_centre(v),
{
    v.minus(Single::whole(118)).abs().over(Single::whole(128))
}

impl HistMetrics {
    pub open spec fn gamma_score_spec(self) -> Single {
        off_centre(self.centroid).plus(Single::whole(8).times(self.clip_hi)).plus(
            Single::whole(2).times(self.clip_lo),
        )
    }

    /// How far the picture is from the wanted mean, clipping counted in; the lower, the better.
    #[verifier::when_used_as_spec(gamma_score_spec)]
    pub fn gamma_score(self) -> (r: Single)
        ensures
            r == self.gamma_score_spec(),
    {
        off_target(self.centroid).plus(Single::whole(8).times(self.clip_hi)).plus(
            Single::whole(2).times(self.clip_lo),
        )
    }

    pub open spec fn toe_score_spec(self) -> Single {
        let limit = Single::ratio(15, 10_000);
        let near = self.p1.minus(Single::whole(8)).abs().over(Single::whole(255));
        let clipped = if limit.less(self.clip_lo) {
            near.plus(Single::whole(4).times(self.clip_lo.minus(limit)))
        } else {
            near
        };
        if self.p1.less(Single::whole(2)) {
            clipped.plus(Single::ratio(3, 10))
        } else {
            clipped
        }
    }

    /// How far the shadows are from just touching black; the lower, the better.
    #[verifier::when_used_as_spec(toe_score_spec)]
    pub fn toe_score(self) -> (r: Single)
        ensures
            r == self.toe_score_spec(),
    {
        let limit: Single = Single::ratio(15, 10_000);
        let mut s: Single = self.p1.minus(Single::whole(8)).abs().over(Single::whole(255));
        if limit.less(self.clip_lo) {
            s = s.plus(Single::whole(4).times(self.clip_lo.minus(limit)));
        }
        if self.p1.less(Single::whole(2)) {
            s = s.plus(Single::ratio(3, 10));
        }
        s
    }

    pub open spec fn hardness_score_spec(self) -> Single {
        off_centre(self.p50).plus(Single::whole(4).times(self.clip_hi))
    }

    /// How far the middle brightness is from the wanted one, clipping counted in; the lower,
    /// the better.
    #[verifier::when_used_as_spec(hardness_score_spec)]
    pub fn hardness_score(self) -> (r: Single)
        ensures
            r == self.hardness_score_spec(),
    {
        off_target(self.p50).plus(Single::whole(4).times(self.clip_hi))
    }

    pub open spec fn grade_score_spec(self) -> Single {
        let spread = self.p99.minus(self.p1).over(Single::whole(255)).clamp(
            Single::whole(0),
            Single::whole(1),
        );
        off_centre(self.centroid).plus(Single::whole(6).times(self.clip_hi)).plus(
            Single::ratio(35, 100).times(Single::whole(1).minus(spread)),
        )
    }

    /// As the first score, but a narrow picture counts against it; the lower, the better.
    #[verifier::when_used_as_spec(grade_score_spec)]
    pub fn grade_score(self) -> (r: Single)
        ensures
            r == self.grade_score_spec(),
    {
        let spread: Single = self.p99.minus(self.p1).over(Single::whole(255)).clamp(
            Single::whole(0),
            Single::whole(1),
        );
        off_target(self.centroid).plus(Single::whole(6).times(self.clip_hi)).plus(
            Single::ratio(35, 100).times(Single::whole(1).minus(spread)),
        )
    }
}

/// The saturation that brings a measured chroma to the target, within its range; one where
/// there is hardly any chroma.
pub open spec fn saturation_for(measured: Single, target: Single) -> Single {
    if measured.less(Single::ratio(1, 100_000)) {
        Single::whole(1)
    } else {
        target.over(measured).clamp(Single::ratio(90, 100), Single::ratio(135, 100))
    }
}

/// The saturation that brings a measured chroma to the target.
pub fn solve_saturation(measured: Single, target: Single) -> (r: Single)
    ensures
        r == saturation_for(measured, target),
{
    if measured.less(Single::ratio(1, 100_000)) {
        return Single::whole(1);
    }
    target.over(measured).clamp(Single::ratio(90, 100), Single::ratio(135, 100))
}

/// Channel `c` of pixel `i`.
pub open spec fn density(image: FilmImage, i: int, c: int) -> Single {
    image.samples@[3 * i + c]
}

/// Mean density of pixel `i`.
pub open spec fn mean_density(image: FilmImage, i: int) -> Single {
    density(image, i, 0).plus(density(image, i, 1)).plus(density(image, i, 2)).over(
        Single::whole(3),
    )
}

/// Mean distance of the channels of pixel `i` from its mean density.
pub open spec fn chroma(image: FilmImage, i: int) -> Single {
    let mean = mean_density(image, i);
    density(image, i, 0).minus(mean).abs().plus(density(image, i, 1).minus(mean).abs()).plus(
        density(image, i, 2).minus(mean).abs(),
    ).over(Single::whole(3))
}

/// Pixel `i` lies in the middle zone.
pub open spec fn in_midtones(image: FilmImage, offset: Single, zone: ZoneRange, i: int) -> bool {
    let d = mean_density(image, i).plus(offset);
    zone.d_p33.at_most(d) && d.at_most(zone.d_p66)
}

/// Sum of the chroma of the midtones among the first `k` pixels looked at, every `step`-th
/// one, and their number.
pub open spec fn chroma_total(
    image: FilmImage,
    offset: Single,
    zone: ZoneRange,
    step: nat,
    k: nat,
) -> (Single, nat)
    decreases k,
{
    if k == 0 {
        (Single::whole(0), 0)
    } else {
        let (sum, count) = chroma_total(image, offset, zone, step, (k - 1) as nat);
        let i = (k - 1) * step;
        if in_midtones(image, offset, zone, i) {
            (sum.plus(chroma(image, i)), count + 1)
        } else {
            (sum, count)
        }
    }
}

/// Every how many pixels one is looked at, of `n`.
pub open spec fn stride(n: nat) -> nat {
    if n / 4096 > 1 {
        n / 4096
    } else {
        1
    }
}

/// How many pixels of `n` are looked at.
pub open spec fn looked_at(n: nat) -> nat {
    ((n + stride(n) - 1) / stride(n) as int) as nat
}

/// Mean chroma of the midtones of a density image, given its middle zone, over about four
/// thousand pixels; zero where none lies in the zone.
pub fn midtone_chroma(image: &FilmImage, curve_offset: Single, zone: ZoneRange) -> (r: Single)
    requires
        image.wf(),
        image.channels == 3,
    ensures
        ({
            let n = (image.width * image.height) as nat;
            let (sum, count) = chroma_total(*image, curve_offset, zone, stride(n), looked_at(n));
            r == if count > 0 {
                sum.over(Single::whole(count as u64))
            } else {
                Single::whole(0)
            }
        }),
        forall|lo: int, hi: int|
            image.width * image.height > 0 && #[trigger] clear_cut(
                *image,
                curve_offset,
                zone,
                lo,
                hi,
            ) ==> measures_midtones(*image, curve_offset, zone, lo, hi, r),
{
    let n: usize = image.samples.len() / 3;
    let ghost m = (image.width * image.height) as nat;
    assert(n == image.width * image.height) by (nonlinear_arith)
        requires
            image.samples.len() == image.width * image.height * image.channels,
            image.channels == 3,
            n == image.samples.len() / 3,
    ;
    let step: usize = if n / 4096 > 1 {
        n / 4096
    } else {
        1
    };
    let offset: Single = curve_offset;
    let mut sum: Single = Single::whole(0);
    let mut count: u64 = 0;
    let mut i: usize = 0;
    let ghost mut k: nat = 0;
    while i < n
        invariant
            n == m,
            n * 3 == image.samples.len(),
            step == stride(m),
            step >= 1,
            step <= n || n == 0,
            k <= n,
            i == if k * step < n {
                k * step
            } else {
                n as int
            },
            k > 0 ==> (k - 1) * step < n,
            count <= k,
            (sum, count as nat) == chroma_total(*image, offset, zone, step as nat, k),
        decreases n - i,
    {
        assert(k * step == i);
        let dr: Single = image.samples[3 * i];
        let dg: Single = image.samples[3 * i + 1];
        let db: Single = image.samples[3 * i + 2];
        let mean: Single = dr.plus(dg).plus(db).over(Single::whole(3));
        let d: Single = mean.plus(offset);
        proof {
            assert((k + 1) * step == k * step + step) by (nonlinear_arith);
            assert(k <= k * step) by (nonlinear_arith)
                requires
                    step >= 1,
            ;
        }
        if zone.d_p33.at_most(d) && d.at_most(zone.d_p66) {
            sum = sum.plus(
                dr.minus(mean).abs().plus(dg.minus(mean).abs()).plus(db.minus(mean).abs()).over(
                    Single::whole(3),
                ),
            );
            count = count + 1;
        }
        proof {
            k = k + 1;
        }
        i = if n - i > step {
            i + step
        } else {
            n
        };
    }
    proof {
        let s = step as int;
        if n > 0 {
            assert(k == (n + s - 1) / s) by {
                assert((k as int) * s >= n);
                assert((k - 1) * s < n);
                let r = n + s - 1 - k * s;
                assert((k - 1) * s == k * s - s) by (nonlinear_arith);
                vstd::arithmetic::div_mod::lemma_fundamental_div_mod_converse(
                    n + s - 1,
                    s,
                    k as int,
                    r,
                );
            }
        } else {
            assert((0 + s - 1) / s == 0) by {
                vstd::arithmetic::div_mod::lemma_basic_div(s - 1, s);
            }
        }
    }
    proof {
        assert forall|lo: int, hi: int|
            image.width * image.height > 0 && #[trigger] clear_cut(
                *image,
                curve_offset,
                zone,
                lo,
                hi,
            ) implies measures_midtones(
            *image,
            curve_offset,
            zone,
            lo,
            hi,
            if count > 0 {
                sum.over(Single::whole(count))
            } else {
                Single::whole(0)
            },
        ) by {
            midtones_are_measured_by_their_mean_distance(*image, curve_offset, zone, lo, hi);
        }
    }
    if count > 0 {
        sum.over(Single::whole(count))
    } else {
        Single::whole(0)
    }
}

/// Three times the mean density of pixel `i`, as a count of units.
pub open spec fn density_sum(image: FilmImage, i: int) -> int {
    image.samples@[3 * i].signed() + image.samples@[3 * i + 1].signed() + image.samples@[3 * i
        + 2].signed()
}

/// Nine times the true mean distance of the channels of pixel `i` from their mean.
pub open spec fn distance_sum(image: FilmImage, i: int) -> int {
    let s = density_sum(image, i);
    crate::single::size(3 * image.samples@[3 * i].signed() - s) + crate::single::size(
        3 * image.samples@[3 * i + 1].signed() - s,
    ) + crate::single::size(3 * image.samples@[3 * i + 2].signed() - s)
}

/// A number from minus eight to eight.
pub open spec fn is_density(v: Single) -> bool {
    v.finite() && -8 * crate::near::one() <= v.signed() <= 8 * crate::near::one()
}

/// All channels of pixel `i` are densities.
pub open spec fn is_dense(image: FilmImage, i: int) -> bool {
    is_density(image.samples@[3 * i]) && is_density(image.samples@[3 * i + 1]) && is_density(
        image.samples@[3 * i + 2],
    )
}

/// The mean of a pixel's densities, to rounding.
proof fn lemma_mean_density(image: FilmImage, i: int)
    requires
        is_dense(image, i),
    ensures
        ({
            let m = mean_density(image, i);
            let e = crate::near::slip();
            &&& m.finite()
            &&& -68 * e <= 3 * m.signed() - density_sum(image, i) <= 68 * e
            &&& -9 * crate::near::one() <= m.signed() <= 9 * crate::near::one()
        }),
{
    crate::near::lemma_sizes();
    crate::near::lemma_whole(3);
    let c = crate::near::one();
    let e = crate::near::slip();
    let (r, g, b) = (
        image.samples@[3 * i],
        image.samples@[3 * i + 1],
        image.samples@[3 * i + 2],
    );
    crate::near::lemma_sum(r, g, 16);
    let s = r.plus(g);
    crate::near::lemma_sum(s, b, 25);
    let t = s.plus(b);
    let three = Single::whole(3);
    assert(9 * (3 * c) == 27 * c);
    crate::near::lemma_quotient(t, three, 9);
    let m = t.over(three).signed();
    assert(9 * e * (3 * c) == (27 * e) * c) by (nonlinear_arith);
    assert(m * (3 * c) - t.signed() * c == (3 * m - t.signed()) * c) by (nonlinear_arith);
    crate::near::lemma_divided(3 * m - t.signed(), 27 * e, c);
}

proof fn lemma_distance(d: Single, m: Single, s: int)
    requires
        is_density(d),
        m.finite(),
        -9 * crate::near::one() <= m.signed() <= 9 * crate::near::one(),
        -68 * crate::near::slip() <= 3 * m.signed() - s <= 68 * crate::near::slip(),
    ensures
        ({
            let x = d.minus(m).abs();
            let e = crate::near::slip();
            &&& x.finite()
            &&& 0 <= x.signed() <= 17 * crate::near::one() + 17 * e
            &&& -119 * e <= 3 * x.signed() - crate::single::size(3 * d.signed() - s) <= 119 * e
        }),
{
    crate::near::lemma_sizes();
    crate::near::lemma_difference(d, m, 17);
    crate::near::lemma_size(d.minus(m));
}

/// The chroma of a pixel is the true mean distance of its channels from their mean, to a
/// ten-thousandth.
pub proof fn chroma_is_the_mean_distance(image: FilmImage, i: int)
    requires
        is_dense(image, i),
    ensures
        chroma(image, i).finite(),
        0 <= chroma(image, i).signed(),
        -9 * crate::near::one() <= (9 * chroma(image, i).signed() - distance_sum(image, i))
            * 10_000 <= 9 * crate::near::one(),
{
    crate::near::lemma_sizes();
    crate::near::lemma_whole(3);
    let c = crate::near::one();
    let e = crate::near::slip();
    lemma_mean_density(image, i);
    let m = mean_density(image, i);
    let s = density_sum(image, i);
    let (r, g, b) = (
        image.samples@[3 * i],
        image.samples@[3 * i + 1],
        image.samples@[3 * i + 2],
    );
    lemma_distance(r, m, s);
    lemma_distance(g, m, s);
    lemma_distance(b, m, s);
    let (x, y, z) = (r.minus(m).abs(), g.minus(m).abs(), b.minus(m).abs());
    crate::near::lemma_sum(x, y, 35);
    let u = x.plus(y);
    crate::near::lemma_sum(u, z, 53);
    let f = u.plus(z);
    let three = Single::whole(3);
    crate::near::lemma_quotient(f, three, 18);
    let q = f.over(three).signed();
    assert(18 * e * (3 * c) == (54 * e) * c) by (nonlinear_arith);
    assert(q * (3 * c) - f.signed() * c == (3 * q - f.signed()) * c) by (nonlinear_arith);
    crate::near::lemma_divided(3 * q - f.signed(), 54 * e, c);
    lemma_not_below_zero(x, y);
    lemma_not_below_zero(u, z);
    lemma_third_not_below_zero(f);
}

proof fn lemma_not_below_zero(a: Single, b: Single)
    requires
        a.finite(),
        b.finite(),
        0 <= a.signed(),
        0 <= b.signed(),
        a.plus(b).finite(),
    ensures
        0 <= a.plus(b).signed(),
{
    reveal(Single::plus_spec);
    let t = a.signed() + b.signed();
    if t > 0 {
        crate::single::lemma_round_is_a_number(false, t as nat, 1);
    } else {
        let none = crate::single::pack(a.negative() && b.negative(), 0);
        assert(none.mag() == 0);
        crate::single::lemma_units_positive(none);
    }
}

proof fn lemma_third_not_below_zero(a: Single)
    requires
        a.finite(),
        0 <= a.signed(),
        a.over(Single::whole(3)).finite(),
    ensures
        0 <= a.over(Single::whole(3)).signed(),
{
    reveal(Single::over_spec);
    crate::near::lemma_sizes();
    crate::near::lemma_whole(3);
    let d = Single::whole(3);
    crate::single::lemma_units_positive(d);
    let p = vstd::arithmetic::power2::pow2(149);
    if a.negative() {
        assert(a.units() == 0);
        assert(0 * p == 0);
        crate::single::lemma_zero_rounds(true, d.units());
        crate::single::lemma_units_positive(a.over(d));
    } else {
        crate::single::lemma_round_is_a_number(false, a.units() * p, d.units());
    }
}

/// Pixel `i` lies in the zone, by a ten-thousandth at least.
pub open spec fn clearly_inside(image: FilmImage, offset: Single, zone: ZoneRange, i: int) -> bool {
    let d = (density_sum(image, i) + 3 * offset.signed()) * 10_000;
    &&& d >= 30_000 * zone.d_p33.signed() + 3 * crate::near::one()
    &&& d <= 30_000 * zone.d_p66.signed() - 3 * crate::near::one()
}

/// Pixel `i` lies beside the zone, by a ten-thousandth at least.
pub open spec fn clearly_outside(
    image: FilmImage,
    offset: Single,
    zone: ZoneRange,
    i: int,
) -> bool {
    let d = (density_sum(image, i) + 3 * offset.signed()) * 10_000;
    ||| d <= 30_000 * zone.d_p33.signed() - 3 * crate::near::one()
    ||| d >= 30_000 * zone.d_p66.signed() + 3 * crate::near::one()
}

proof fn lemma_zone(image: FilmImage, offset: Single, zone: ZoneRange, i: int)
    requires
        is_dense(image, i),
        is_density(offset),
        zone.d_p33.finite(),
        zone.d_p66.finite(),
    ensures
        clearly_inside(image, offset, zone, i) ==> in_midtones(image, offset, zone, i),
        clearly_outside(image, offset, zone, i) ==> !in_midtones(image, offset, zone, i),
{
    crate::near::lemma_sizes();
    lemma_mean_density(image, i);
    let m = mean_density(image, i);
    crate::near::lemma_sum(m, offset, 17);
    let d = m.plus(offset);
    crate::single::order_is_by_value(zone.d_p33, d);
    crate::single::order_is_by_value(d, zone.d_p66);
}

/// What the midtones of an image are told by: each of its pixels lies clearly in the zone, with a
/// mean distance between the bounds, or clearly beside it.
pub open spec fn clear_cut(
    image: FilmImage,
    offset: Single,
    zone: ZoneRange,
    lo: int,
    hi: int,
) -> bool {
    &&& is_density(offset)
    &&& zone.d_p33.finite()
    &&& zone.d_p66.finite()
    &&& 0 <= lo <= hi <= 200 * crate::near::one()
    &&& forall|i: int|
        0 <= i < image.width * image.height ==> {
            &&& #[trigger] is_dense(image, i)
            &&& clearly_outside(image, offset, zone, i) || (clearly_inside(image, offset, zone, i)
                && lo <= distance_sum(image, i) <= hi)
        }
}

proof fn lemma_chroma_total(
    image: FilmImage,
    offset: Single,
    zone: ZoneRange,
    lo: int,
    hi: int,
    step: nat,
    k: nat,
) -> (total: int)
    requires
        clear_cut(image, offset, zone, lo, hi),
        k <= 0x2000,
        step >= 1,
        k > 0 ==> (k - 1) * step < image.width * image.height,
    ensures
        ({
            let (sum, count) = chroma_total(image, offset, zone, step, k);
            &&& count <= k
            &&& crate::near::sums_to(sum, total, count as int)
            &&& (lo * 10_000 - 9 * crate::near::one()) * count <= 90_000 * total <= (hi * 10_000
                + 9 * crate::near::one()) * count
            &&& clearly_inside(image, offset, zone, 0) && k > 0 ==> count > 0
        }),
    decreases k,
{
    let c = crate::near::one();
    crate::near::lemma_sizes();
    crate::near::lemma_whole(0);
    if k == 0 {
        assert((lo * 10_000 - 9 * c) * 0 == 0 && (hi * 10_000 + 9 * c) * 0 == 0);
        0
    } else {
        let i = (k - 1) * step;
        assert(0 <= i && (k >= 2 ==> (k - 2) * step < i)) by (nonlinear_arith)
            requires
                i == (k - 1) * step,
                k >= 1,
                step >= 1,
        ;
        if k == 1 {
            assert(0 * step == 0);
        }
        let before = lemma_chroma_total(image, offset, zone, lo, hi, step, (k - 1) as nat);
        let (sum, count) = chroma_total(image, offset, zone, step, (k - 1) as nat);
        assert(is_dense(image, i));
        lemma_zone(image, offset, zone, i);
        if in_midtones(image, offset, zone, i) {
            chroma_is_the_mean_distance(image, i);
            let x = chroma(image, i);
            assert(before * 90_000 <= 0x2000 * (2_000_009 * c)) by (nonlinear_arith)
                requires
                    90_000 * before <= (hi * 10_000 + 9 * c) * count,
                    hi <= 200 * c,
                    0 <= hi,
                    count <= 0x2000,
                    c > 0,
            ;
            crate::near::lemma_one_more(sum, before, count as int, x);
            assert((lo * 10_000 - 9 * c) * (count + 1) == (lo * 10_000 - 9 * c) * count + (lo
                * 10_000 - 9 * c) && (hi * 10_000 + 9 * c) * (count + 1) == (hi * 10_000 + 9 * c)
                * count + (hi * 10_000 + 9 * c)) by (nonlinear_arith);
            before + x.signed()
        } else {
            before
        }
    }
}

/// What is measured of the midtones is a mean of their true distances: it lies between the
/// smallest and the largest of them, to a part in two hundred and a thousandth. Pixels beside the
/// zone do not count, and where all lie beside it nothing is measured.
pub open spec fn measures_midtones(
    image: FilmImage,
    offset: Single,
    zone: ZoneRange,
    lo: int,
    hi: int,
    r: Single,
) -> bool {
    let near = r.finite() && lo * 995 - 9 * crate::near::one() <= 9000 * r.signed() <= hi * 1005 + 9
        * crate::near::one();
    &&& near || r == Single::whole(0)
    &&& clearly_inside(image, offset, zone, 0) ==> near
    &&& (forall|i: int|
        0 <= i < image.width * image.height ==> #[trigger] clearly_outside(image, offset, zone, i))
        ==> r == Single::whole(0)
}

proof fn lemma_looked_at(n: nat)
    requires
        n > 0,
    ensures
        1 <= looked_at(n) <= 0x2000,
        (looked_at(n) - 1) * stride(n) < n,
        stride(n) >= 1,
{
    let s = stride(n) as int;
    let k = looked_at(n) as int;
    vstd::arithmetic::div_mod::lemma_fundamental_div_mod(n + s - 1, s);
    vstd::arithmetic::div_mod::lemma_mod_bound(n + s - 1, s);
    assert((k - 1) * s < n && k >= 1) by (nonlinear_arith)
        requires
            n + s - 1 == s * k + (n + s - 1) % s,
            0 <= (n + s - 1) % s < s,
            n > 0,
            s >= 1,
    ;
    if n / 4096 > 1 {
        vstd::arithmetic::div_mod::lemma_fundamental_div_mod(n as int, 4096);
        assert(k <= 0x2000) by (nonlinear_arith)
            requires
                (k - 1) * s < n,
                n < 4096 * s + 4096,
                s >= 2,
        {
            if k > 0x2000 {
                assert(0x2000 * s <= (k - 1) * s);
            }
        }
    } else {
        assert(k <= 0x2000);
    }
}

proof fn lemma_none_inside(
    image: FilmImage,
    offset: Single,
    zone: ZoneRange,
    lo: int,
    hi: int,
    step: nat,
    k: nat,
)
    requires
        clear_cut(image, offset, zone, lo, hi),
        step >= 1,
        k > 0 ==> (k - 1) * step < image.width * image.height,
        forall|i: int|
            0 <= i < image.width * image.height ==> #[trigger] clearly_outside(
                image,
                offset,
                zone,
                i,
            ),
    ensures
        chroma_total(image, offset, zone, step, k).1 == 0,
    decreases k,
{
    if k > 0 {
        let i = (k - 1) * step;
        assert(0 <= i && (k >= 2 ==> (k - 2) * step < i)) by (nonlinear_arith)
            requires
                i == (k - 1) * step,
                k >= 1,
                step >= 1,
        ;
        lemma_none_inside(image, offset, zone, lo, hi, step, (k - 1) as nat);
        assert(is_dense(image, i));
        assert(clearly_outside(image, offset, zone, i));
        lemma_zone(image, offset, zone, i);
    }
}

/// The measure of an image whose pixels lie clearly in the middle zone or beside it.
pub proof fn midtones_are_measured_by_their_mean_distance(
    image: FilmImage,
    offset: Single,
    zone: ZoneRange,
    lo: int,
    hi: int,
)
    requires
        image.width * image.height > 0,
        clear_cut(image, offset, zone, lo, hi),
    ensures
        ({
            let n = (image.width * image.height) as nat;
            let (sum, count) = chroma_total(image, offset, zone, stride(n), looked_at(n));
            measures_midtones(
                image,
                offset,
                zone,
                lo,
                hi,
                if count > 0 {
                    sum.over(Single::whole(count as u64))
                } else {
                    Single::whole(0)
                },
            )
        }),
{
    let n = (image.width * image.height) as nat;
    lemma_looked_at(n);
    let total = lemma_chroma_total(image, offset, zone, lo, hi, stride(n), looked_at(n));
    let (sum, count) = chroma_total(image, offset, zone, stride(n), looked_at(n));
    if forall|i: int|
        0 <= i < image.width * image.height ==> #[trigger] clearly_outside(image, offset, zone, i) {
        lemma_none_inside(image, offset, zone, lo, hi, stride(n), looked_at(n));
    }
    if count > 0 {
        lemma_mean_of_chroma(sum, total, count as int, lo, hi);
    }
}

proof fn lemma_mean_of_chroma(sum: Single, total: int, n: int, lo: int, hi: int)
    requires
        1 <= n <= 0x2000,
        crate::near::sums_to(sum, total, n),
        0 <= lo <= hi <= 200 * crate::near::one(),
        (lo * 10_000 - 9 * crate::near::one()) * n <= 90_000 * total <= (hi * 10_000 + 9
            * crate::near::one()) * n,
    ensures
        ({
            let r = sum.over(Single::whole(n as u64));
            r.finite() && lo * 995 - 9 * crate::near::one() <= 9000 * r.signed() <= hi * 1005 + 9
                * crate::near::one()
        }),
{
    let c = crate::near::one();
    let e = crate::near::slip();
    crate::near::lemma_sizes();
    crate::near::lemma_whole(n as u64);
    let d = Single::whole(n as u64);
    let s = sum.signed();
    assert(90_000 * total <= 2_000_009 * (n * c)) by (nonlinear_arith)
        requires
            90_000 * total <= (hi * 10_000 + 9 * c) * n,
            hi <= 200 * c,
            n >= 1,
    ;
    let h: int = 0x8000_0000_0000;
    assert(2 * n * (total + h) == 2 * (n * total) + 2 * n * h && n * total <= 0x2000 * total && n
        * h * 0x80 <= n * c) by (nonlinear_arith)
        requires
            1 <= n <= 0x2000,
            total >= 0,
            c >= h * 0x80,
    ;
    assert(s <= 24 * (n * c));
    crate::near::lemma_quotient(sum, d, 24);
    let q = sum.over(d).signed();
    assert(24 * e * (n * c) == (24 * e * n) * c) by (nonlinear_arith);
    assert(q * (n * c) - s * c == (q * n - s) * c) by (nonlinear_arith);
    crate::near::lemma_divided(q * n - s, 24 * e * n, c);
    // Off from the true total, in parts of it.
    let en = e * n;
    assert(24 * e * n == 24 * en && n * c == en * 0x80_0000) by (nonlinear_arith)
        requires
            en == e * n,
            c == e * 0x80_0000,
    ;
    let (ln, hn) = (lo * n, hi * n);
    assert((lo * 10_000 - 9 * c) * n == 10_000 * ln - 9 * (n * c) && (hi * 10_000 + 9 * c) * n
        == 10_000 * hn + 9 * (n * c)) by (nonlinear_arith)
        requires
            ln == lo * n,
            hn == hi * n,
    ;
    let x = q * n;
    assert((x - total) * 0x200 <= total + en * 0x1_0000 && (total - x) * 0x200 <= total + en
        * 0x1_0000);
    assert(9000 * x <= 1005 * hn + 9 * (n * c) && 9000 * x >= 995 * ln - 9 * (n * c));
    assert(lo * 995 - 9 * c <= 9000 * q <= hi * 1005 + 9 * c) by (nonlinear_arith)
        requires
            9000 * (q * n) <= 1005 * (hi * n) + 9 * (n * c),
            9000 * (q * n) >= 995 * (lo * n) - 9 * (n * c),
            n >= 1,
    ;
}

} // verus!
