//! What the measures of a picture say of it, and what the scores make of them.

use vstd::prelude::*;
use crate::metrics::HistMetrics;
use crate::single::Single;

verus! {

/// How many of the first `n` pixels are darker than `v`: their three bytes add up to less than
/// three times as much.
pub open spec fn darker(rgb: Seq<u8>, v: int, n: nat) -> nat
    decreases n,
{
    if n == 0 {
        0
    } else {
        darker(rgb, v, (n - 1) as nat) + if rgb[3 * (n - 1)] + rgb[3 * (n - 1) + 1] + rgb[3 * (n
            - 1) + 2] < 3 * v {
            1nat
        } else {
            0nat
        }
    }
}

/// How many of the first `n` pixels have at least `v` in channel `c`.
pub open spec fn at_least(rgb: Seq<u8>, c: int, v: int, n: nat) -> nat
    decreases n,
{
    if n == 0 {
        0
    } else {
        at_least(rgb, c, v, (n - 1) as nat) + if rgb[3 * (n - 1) + c] >= v {
            1nat
        } else {
            0nat
        }
    }
}

/// The bytes of the first `n` pixels, added up.
pub open spec fn byte_total(rgb: Seq<u8>, n: nat) -> nat
    decreases n,
{
    if n == 0 {
        0
    } else {
        (byte_total(rgb, (n - 1) as nat) + rgb[3 * (n - 1)] + rgb[3 * (n - 1) + 1] + rgb[3 * (n - 1)
            + 2]) as nat
    }
}

proof fn lemma_darker(rgb: Seq<u8>, v: nat, n: nat)
    ensures
        crate::histogram::sum_of(|k: int| crate::metrics::luma_tally(rgb, k, n), v) == darker(
            rgb,
            v as int,
            n,
        ),
    decreases n,
{
    if n == 0 {
        crate::metrics::lemma_luma_none(rgb, v);
    } else {
        lemma_darker(rgb, v, (n - 1) as nat);
        crate::metrics::lemma_luma_sum(rgb, n, v);
    }
}

proof fn lemma_all_are_dark(rgb: Seq<u8>, n: nat)
    ensures
        darker(rgb, 256, n) == n,
    decreases n,
{
    if n > 0 {
        lemma_all_are_dark(rgb, (n - 1) as nat);
    }
}

proof fn lemma_reached(hist: spec_fn(int) -> nat, target: nat, v: nat)
    requires
        v < 256,
        crate::histogram::sum_of(hist, v) < target <= crate::histogram::sum_of(hist, 256),
    ensures
        v <= crate::metrics::reached(hist, target, v) < 256,
        crate::histogram::sum_of(hist, crate::metrics::reached(hist, target, v)) < target,
        target <= crate::histogram::sum_of(hist, crate::metrics::reached(hist, target, v) + 1),
    decreases 256 - v,
{
    if crate::histogram::sum_of(hist, v + 1) < target {
        lemma_reached(hist, target, v + 1);
    }
}

/// How many pixels a part of them is: the part, brought to a whole number from below.
proof fn lemma_pixels_in(n: u32, a: u32)
    requires
        0 < n < 0x40_0000,
        0 < a < 100,
    ensures
        ({
            let t = crate::metrics::pixels_in(n, Single::ratio(a, 100));
            &&& 1 <= t <= n
            &&& (t - 1) * 1_000 <= n * (10 * a + 1)
            &&& n * (10 * a - 1) <= t * 1_000
        }),
{
    let c = crate::near::one();
    let e = crate::near::slip();
    crate::near::lemma_sizes();
    let p = Single::ratio(a, 100);
    crate::near::lemma_ratio(a, 100, 1);
    crate::near::lemma_whole(n as u64);
    crate::near::lemma_whole(1);
    let w = Single::whole(n as u64);
    let pv = p.signed();
    assert(c <= a * c <= 99 * c) by (nonlinear_arith)
        requires
            1 <= a <= 99,
            c > 0,
    ;
    assert(1 * e * 100 == 100 * e);
    assert(0 < 2 * pv && pv < c);
    assert(0 <= n * c * pv <= n * c * c) by (nonlinear_arith)
        requires
            0 <= pv <= c,
            c > 0,
            n > 0,
    ;
    crate::near::lemma_product(w, p, n as int);
    let x = w.times(p);
    let xv = x.signed();
    assert(-(n * e) <= xv - n * pv <= n * e) by (nonlinear_arith)
        requires
            -(n * e * c) <= xv * c - n * c * pv <= n * e * c,
            c > 0,
    ;
    // A hundred times the part against the percentage.
    assert(-(100 * (n * e)) <= 100 * (n * pv) - n * a * c <= 100 * (n * e)) by (nonlinear_arith)
        requires
            -(100 * e) <= pv * 100 - a * c <= 100 * e,
            n > 0,
    ;
    assert(n * e * 0x80_0000 == n * c && n * e > 0) by (nonlinear_arith)
        requires
            c == e * 0x80_0000,
            n > 0,
            e > 0,
    ;
    assert(n * a * c >= n * c && n * a * c <= 99 * (n * c)) by (nonlinear_arith)
        requires
            1 <= a <= 99,
            n > 0,
            c > 0,
    ;
    assert(0 < xv && 100 * xv < 100 * (n * c));
    assert(n * c < 0x40_0000 * c) by (nonlinear_arith)
        requires
            n < 0x40_0000,
            c > 0,
    ;
    let q = crate::near::lemma_ceiled(x);
    let one = Single::whole(1);
    assert(1 * c == c);
    crate::near::lemma_smaller_larger(x.ceiled(), one);
    assert(q >= 1) by (nonlinear_arith)
        requires
            q * c >= xv,
            xv > 0,
            c > 0,
    ;
    assert(q * c >= c) by (nonlinear_arith)
        requires
            q >= 1,
            c > 0,
    ;
    crate::near::lemma_unique(x.ceiled().larger(one), x.ceiled());
    let t = crate::metrics::pixels_in(n, p);
    assert(t == q);
    assert((t - 1) * 1_000 <= n * (10 * a + 1)) by (nonlinear_arith)
        requires
            (t * c) < xv + c,
            100 * xv <= n * a * c + 200 * (n * e),
            n * e * 0x80_0000 == n * c,
            n * c >= 0,
            c > 0,
    ;
    assert(n * (10 * a - 1) <= t * 1_000) by (nonlinear_arith)
        requires
            t * c >= xv,
            100 * xv >= n * a * c - 200 * (n * e),
            n * e * 0x80_0000 == n * c,
            n * c >= 0,
            c > 0,
    ;
    assert(t <= n) by (nonlinear_arith)
        requires
            t * c < xv + c,
            xv < n * c,
            c > 0,
    ;
}

/// `v` is a brightness that the given part of the pixels, in hundredths, does not pass: about as
/// many lie at or below it, and no more lie below it.
pub open spec fn splits(v: Single, rgb: Seq<u8>, hundredths: int) -> bool {
    exists|k: int| #[trigger] splits_at(v, rgb, hundredths, k)
}

pub open spec fn splits_at(v: Single, rgb: Seq<u8>, hundredths: int, k: int) -> bool {
    let n = (rgb.len() / 3) as nat;
    &&& 0 <= k < 256
    &&& v.finite()
    &&& v.signed() == k * crate::near::one()
    &&& n * (10 * hundredths - 1) <= darker(rgb, k + 1, n) * 1_000
    &&& darker(rgb, k, n) * 1_000 <= n * (10 * hundredths + 1)
}

proof fn lemma_percentile(rgb: Seq<u8>, a: u32)
    requires
        3 <= rgb.len() < 0xc0_0000,
        0 < a < 100,
    ensures
        ({
            let n = (rgb.len() / 3) as nat;
            let hist = |v: int| crate::metrics::luma_tally(rgb, v, n);
            splits(
                crate::metrics::percentile_of(hist, n as u32, Single::ratio(a, 100)),
                rgb,
                a as int,
            )
        }),
{
    let n = (rgb.len() / 3) as nat;
    let hist = |v: int| crate::metrics::luma_tally(rgb, v, n);
    lemma_pixels_in(n as u32, a);
    let t = crate::metrics::pixels_in(n as u32, Single::ratio(a, 100)) as nat;
    lemma_darker(rgb, 256, n);
    lemma_all_are_dark(rgb, n);
    lemma_reached(hist, t, 0);
    let k = crate::metrics::reached(hist, t, 0);
    lemma_darker(rgb, k, n);
    lemma_darker(rgb, k + 1, n);
    crate::near::lemma_whole(k as u64);
    let v = crate::metrics::percentile_of(hist, n as u32, Single::ratio(a, 100));
    assert(splits_at(v, rgb, a as int, k as int));
}

/// The three percentiles of a picture split its pixels by brightness: one in a hundred, half of
/// them, ninety-nine in a hundred.
pub proof fn percentiles_split_the_pixels(rgb: Seq<u8>)
    requires
        3 <= rgb.len() < 0xc0_0000,
    ensures
        splits(crate::metrics::measured(rgb).p1, rgb, 1),
        splits(crate::metrics::measured(rgb).p50, rgb, 50),
        splits(crate::metrics::measured(rgb).p99, rgb, 99),
{
    lemma_percentile(rgb, 1);
    lemma_percentile(rgb, 50);
    lemma_percentile(rgb, 99);
}

proof fn lemma_rails(rgb: Seq<u8>, c: int, n: nat)
    ensures
        crate::metrics::rail(rgb, c, 253, n) == at_least(rgb, c, 253, n),
        crate::metrics::rail(rgb, c, 0, n) == n - at_least(rgb, c, 3, n),
        at_least(rgb, c, 253, n) <= n,
        at_least(rgb, c, 3, n) <= n,
    decreases n,
{
    if n > 0 {
        lemma_rails(rgb, c, (n - 1) as nat);
    }
}

/// `part` is the largest of three counts, as a part of `n`.
pub open spec fn is_largest_part(part: Single, a: int, b: int, c: int, n: int) -> bool {
    let most = if a >= b && a >= c {
        a
    } else if b >= c {
        b
    } else {
        c
    };
    &&& part.finite()
    &&& -(crate::near::slip() * n) <= part.signed() * n - most * crate::near::one()
        <= crate::near::slip() * n
}

proof fn lemma_part(a: nat, n: nat)
    requires
        a <= n,
        0 < n < 0x100_0000,
    ensures
        ({
            let v = Single::whole(a as u64).over(Single::whole(n as u64));
            &&& v.finite()
            &&& -(crate::near::slip() * n) <= v.signed() * n - a * crate::near::one()
                <= crate::near::slip() * n
        }),
{
    let c = crate::near::one();
    let e = crate::near::slip();
    crate::near::lemma_sizes();
    crate::near::lemma_whole(a as u64);
    crate::near::lemma_whole(n as u64);
    assert(0 <= a * c <= 1 * (n * c) && n * c > 0) by (nonlinear_arith)
        requires
            0 <= a <= n,
            n > 0,
            c > 0,
    ;
    crate::near::lemma_quotient(Single::whole(a as u64), Single::whole(n as u64), 1);
    let v = Single::whole(a as u64).over(Single::whole(n as u64)).signed();
    assert(-(e * n) <= v * n - a * c <= e * n) by (nonlinear_arith)
        requires
            -(1 * e * (n * c)) <= v * (n * c) - a * c * c <= 1 * e * (n * c),
            c > 0,
    ;
}

/// Clipping is measured by the channel that clips most: pixels at 253 or more for highlights,
/// pixels at 2 or less for shadows.
pub proof fn clipping_is_that_of_the_worst_channel(rgb: Seq<u8>)
    requires
        3 <= rgb.len() < 0x300_0000,
    ensures
        ({
            let n = (rgb.len() / 3) as nat;
            let m = crate::metrics::measured(rgb);
            &&& is_largest_part(
                m.clip_hi,
                at_least(rgb, 0, 253, n) as int,
                at_least(rgb, 1, 253, n) as int,
                at_least(rgb, 2, 253, n) as int,
                n as int,
            )
            &&& is_largest_part(
                m.clip_lo,
                n - at_least(rgb, 0, 3, n),
                n - at_least(rgb, 1, 3, n),
                n - at_least(rgb, 2, 3, n),
                n as int,
            )
        }),
{
    let n = (rgb.len() / 3) as nat;
    lemma_rails(rgb, 0, n);
    lemma_rails(rgb, 1, n);
    lemma_rails(rgb, 2, n);
    lemma_part(
        crate::metrics::most(
            crate::metrics::rail(rgb, 0, 253, n),
            crate::metrics::rail(rgb, 1, 253, n),
            crate::metrics::rail(rgb, 2, 253, n),
        ),
        n,
    );
    lemma_part(
        crate::metrics::most(
            crate::metrics::rail(rgb, 0, 0, n),
            crate::metrics::rail(rgb, 1, 0, n),
            crate::metrics::rail(rgb, 2, 0, n),
        ),
        n,
    );
}

proof fn lemma_byte_total(rgb: Seq<u8>, n: nat)
    ensures
        0 <= byte_total(rgb, n) - 3 * crate::metrics::luma_total(rgb, n) <= 2 * n,
        byte_total(rgb, n) <= 765 * n,
    decreases n,
{
    if n > 0 {
        lemma_byte_total(rgb, (n - 1) as nat);
    }
}

/// The centroid is the mean of all bytes, but for what is cut off when the three bytes of a
/// pixel are averaged.
pub proof fn the_centroid_is_the_mean(rgb: Seq<u8>)
    requires
        3 <= rgb.len() < 0xc000_0000,
    ensures
        ({
            let n = rgb.len() as int / 3;
            let m = crate::metrics::measured(rgb).centroid;
            let one = crate::near::one();
            &&& m.finite()
            &&& 1_000 * (m.signed() * (3 * n)) <= 1_000 * (byte_total(rgb, n as nat) * one) + n
                * one
            &&& 1_000 * (byte_total(rgb, n as nat) * one) <= 1_000 * (m.signed() * (3 * n)) + 2_001
                * (n * one)
        }),
{
    let n = (rgb.len() / 3) as nat;
    let c = crate::near::one();
    let e = crate::near::slip();
    crate::near::lemma_sizes();
    lemma_byte_total(rgb, n);
    let s = crate::metrics::luma_total(rgb, n);
    let b = byte_total(rgb, n);
    crate::near::lemma_mean(s as u64, n as u64, 255);
    let m = crate::metrics::measured(rgb).centroid.signed();
    assert(2 * 255 * e * n * 10_000 <= n * c) by (nonlinear_arith)
        requires
            c == e * 0x80_0000,
            e > 0,
    ;
    assert(m * (3 * n) == 3 * (m * n)) by (nonlinear_arith);
    assert(3 * (s * c) <= b * c <= 3 * (s * c) + 2 * (n * c)) by (nonlinear_arith)
        requires
            0 <= b - 3 * s <= 2 * n,
            c > 0,
    ;
}

/// A brightness of a picture.
pub open spec fn is_brightness(v: Single) -> bool {
    v.finite() && 0 <= v.signed() <= 255 * crate::near::one()
}

/// A part of the pixels.
pub open spec fn is_share(v: Single) -> bool {
    v.finite() && 0 <= v.signed() <= crate::near::one()
}

/// `v` lies within a thousandth of `true_value / d`.
pub open spec fn about(v: Single, d: int, true_value: int) -> bool {
    v.finite() && -(d * crate::near::one()) <= 1_000 * (d * v.signed() - true_value) <= d
        * crate::near::one()
}

/// The distance of a brightness from a whole one, as a part of a range.
proof fn lemma_distance_part(v: Single, at: u64, range: u64)
    requires
        is_brightness(v),
        at <= 255,
        128 <= range <= 255,
    ensures
        ({
            let q = v.minus(Single::whole(at)).abs().over(Single::whole(range));
            &&& q.finite()
            &&& -crate::near::one() <= q.signed() <= 3 * crate::near::one()
            &&& -(800 * crate::near::slip()) <= range * q.signed() - crate::single::size(
                v.signed() - at * crate::near::one(),
            ) <= 800 * crate::near::slip()
        }),
{
    let c = crate::near::one();
    let e = crate::near::slip();
    crate::near::lemma_sizes();
    crate::near::lemma_whole(at);
    crate::near::lemma_whole(range);
    assert(0 <= at * c <= 255 * c && 128 * c <= range * c <= 255 * c) by (nonlinear_arith)
        requires
            at <= 255,
            128 <= range <= 255,
            c > 0,
    ;
    let d = v.minus(Single::whole(at));
    crate::near::lemma_difference(v, Single::whole(at), 255);
    crate::near::lemma_size(d);
    let a = d.abs();
    crate::near::lemma_quotient(a, Single::whole(range), 2);
    let q = a.over(Single::whole(range)).signed();
    let av = a.signed();
    let off = range * q - av;
    assert(-(2 * e * range) <= off <= 2 * e * range) by (nonlinear_arith)
        requires
            off == range * q - av,
            -(2 * e * (range * c)) <= q * (range * c) - av * c <= 2 * e * (range * c),
            c > 0,
    ;
    assert(2 * e * range <= 510 * e) by (nonlinear_arith)
        requires
            range <= 255,
            e > 0,
    ;
    assert(q <= 3 * c && q >= -c) by (nonlinear_arith)
        requires
            -(510 * e) <= range * q - av <= 510 * e,
            0 <= av <= 255 * c + 255 * e,
            c == e * 0x80_0000,
            e > 0,
            range >= 128,
    ;
}

/// A part of the pixels, so many times.
proof fn lemma_times(n: u64, v: Single)
    requires
        is_share(v),
        1 <= n <= 8,
    ensures
        Single::whole(n).times(v).finite(),
        -(8 * crate::near::slip()) <= Single::whole(n).times(v).signed() - n * v.signed() <= 8
            * crate::near::slip(),
        0 <= n * v.signed() <= n * crate::near::one(),
{
    let c = crate::near::one();
    let e = crate::near::slip();
    crate::near::lemma_sizes();
    crate::near::lemma_whole(n);
    let x = v.signed();
    assert(0 <= n * c * x <= 8 * c * c && 0 <= n * x <= n * c) by (nonlinear_arith)
        requires
            0 <= x <= c,
            1 <= n <= 8,
    ;
    crate::near::lemma_product(Single::whole(n), v, 8);
    let p = Single::whole(n).times(v).signed();
    assert(-(8 * e) <= p - n * x <= 8 * e) by (nonlinear_arith)
        requires
            -(8 * e * c) <= p * c - n * c * x <= 8 * e * c,
            c > 0,
    ;
}

/// The score of a mean: its distance from 118, in halves of the range; clipped highlights count
/// eight times, clipped shadows twice.
pub proof fn gamma_scores_add_up(m: HistMetrics)
    requires
        is_brightness(m.centroid),
        is_share(m.clip_hi),
        is_share(m.clip_lo),
    ensures
        about(
            m.gamma_score(),
            128,
            crate::single::size(m.centroid.signed() - 118 * crate::near::one()) + 1_024
                * m.clip_hi.signed() + 256 * m.clip_lo.signed(),
        ),
{
    crate::near::lemma_sizes();
    lemma_distance_part(m.centroid, 118, 128);
    lemma_times(8, m.clip_hi);
    lemma_times(2, m.clip_lo);
    let a = crate::metrics::off_centre(m.centroid);
    let x = Single::whole(8).times(m.clip_hi);
    let y = Single::whole(2).times(m.clip_lo);
    crate::near::lemma_sum(a, x, 12);
    crate::near::lemma_sum(a.plus(x), y, 15);
}

/// The score of a middle brightness: its distance from 118; clipped highlights count four times.
pub proof fn hardness_scores_add_up(m: HistMetrics)
    requires
        is_brightness(m.p50),
        is_share(m.clip_hi),
    ensures
        about(
            m.hardness_score(),
            128,
            crate::single::size(m.p50.signed() - 118 * crate::near::one()) + 512
                * m.clip_hi.signed(),
        ),
{
    crate::near::lemma_sizes();
    lemma_distance_part(m.p50, 118, 128);
    lemma_times(4, m.clip_hi);
    let a = crate::metrics::off_centre(m.p50);
    let x = Single::whole(4).times(m.clip_hi);
    crate::near::lemma_sum(a, x, 12);
}

/// The score of shadows: their distance from 8; what clips beyond 15 in ten thousand counts four
/// times, and shadows below 2 cost three tenths more.
pub proof fn toe_scores_add_up(m: HistMetrics)
    requires
        is_brightness(m.p1),
        is_share(m.clip_lo),
    ensures
        about(
            m.toe_score(),
            2_550_000,
            10_000 * crate::single::size(m.p1.signed() - 8 * crate::near::one()) + (if 10_000
                * m.clip_lo.signed() > 15 * crate::near::one() {
                1_020 * (10_000 * m.clip_lo.signed() - 15 * crate::near::one())
            } else {
                0
            }) + (if m.p1.signed() < 2 * crate::near::one() {
                765_000 * crate::near::one()
            } else {
                0
            }),
        ),
{
    let c = crate::near::one();
    let e = crate::near::slip();
    crate::near::lemma_sizes();
    lemma_distance_part(m.p1, 8, 255);
    let near = m.p1.minus(Single::whole(8)).abs().over(Single::whole(255));
    let limit = Single::ratio(15, 10_000);
    crate::near::lemma_ratio(15, 10_000, 1);
    crate::near::lemma_ratio(3, 10, 1);
    crate::near::lemma_whole(2);
    crate::near::lemma_whole(4);
    crate::single::order_is_by_value(limit, m.clip_lo);
    crate::single::order_is_by_value(m.p1, Single::whole(2));
    let lo = m.clip_lo.signed();
    let past = m.clip_lo.minus(limit);
    crate::near::lemma_difference(m.clip_lo, limit, 1);
    let pv = past.signed();
    assert(-(8 * c * c) <= 4 * c * pv <= 8 * c * c) by (nonlinear_arith)
        requires
            -(2 * c) <= pv <= 2 * c,
            c > 0,
    ;
    crate::near::lemma_product(Single::whole(4), past, 8);
    let x = Single::whole(4).times(past);
    let xv = x.signed();
    assert(-(8 * e) <= xv - 4 * pv <= 8 * e) by (nonlinear_arith)
        requires
            -(8 * e * c) <= xv * c - 4 * c * pv <= 8 * e * c,
            c > 0,
    ;
    crate::near::lemma_sum(near, x, 12);
    let clipped = if limit.less(m.clip_lo) {
        near.plus(x)
    } else {
        near
    };
    crate::near::lemma_sum(clipped, Single::ratio(3, 10), 14);
}

/// The score of a grade: as the score of a mean, but clipped highlights count six times, clipped
/// shadows not at all, and what a picture lacks of the full range from shadows to highlights
/// costs thirty-five hundredths of it.
pub proof fn grade_scores_add_up(m: HistMetrics)
    requires
        is_brightness(m.centroid),
        is_brightness(m.p1),
        is_brightness(m.p99),
        m.p1.signed() <= m.p99.signed(),
        is_share(m.clip_hi),
    ensures
        about(
            m.grade_score(),
            3_264_000,
            25_500 * crate::single::size(m.centroid.signed() - 118 * crate::near::one())
                + 19_584_000 * m.clip_hi.signed() + 4_480 * (255 * crate::near::one() - (
            m.p99.signed() - m.p1.signed())),
        ),
{
    let c = crate::near::one();
    let e = crate::near::slip();
    crate::near::lemma_sizes();
    lemma_distance_part(m.centroid, 118, 128);
    lemma_times(6, m.clip_hi);
    crate::near::lemma_whole(0);
    crate::near::lemma_whole(1);
    crate::near::lemma_whole(255);
    crate::near::lemma_ratio(35, 100, 1);
    let d = m.p99.minus(m.p1);
    crate::near::lemma_difference(m.p99, m.p1, 255);
    let dv = d.signed();
    crate::near::lemma_quotient(d, Single::whole(255), 2);
    let q = d.over(Single::whole(255));
    let qv = q.signed();
    assert(-(510 * e) <= 255 * qv - dv <= 510 * e) by (nonlinear_arith)
        requires
            -(2 * e * (255 * c)) <= qv * (255 * c) - dv * c <= 2 * e * (255 * c),
            c > 0,
    ;
    crate::near::lemma_held(q, Single::whole(0), Single::whole(1));
    let s = q.clamp(Single::whole(0), Single::whole(1));
    crate::near::lemma_difference(Single::whole(1), s, 1);
    let r = Single::whole(1).minus(s);
    let rv = r.signed();
    let f = Single::ratio(35, 100);
    let fv = f.signed();
    assert(-(1 * c * c) <= fv * rv <= 1 * c * c) by (nonlinear_arith)
        requires
            0 <= 2 * fv <= c,
            -c <= rv <= 2 * c,
            c > 0,
    ;
    crate::near::lemma_product(f, r, 1);
    let z = f.times(r);
    let zv = z.signed();
    // A hundred times this term against thirty-five times what is lacking.
    assert(-(400 * e) <= 100 * zv - 35 * rv <= 400 * e) by {
        let x = zv * c - fv * rv;
        let y = fv * 100 - 35 * c;
        crate::near::lemma_bounded(y, 100 * e, rv, 2 * c);
        let off = 100 * zv - 35 * rv;
        assert(off * c == 100 * x + y * rv) by (nonlinear_arith)
            requires
                off == 100 * zv - 35 * rv,
                x == zv * c - fv * rv,
                y == fv * 100 - 35 * c,
        ;
        assert(1 * e * c == e * c && 100 * e * (2 * c) == 200 * (e * c) && 400 * e * c == 400 * (e
            * c)) by (nonlinear_arith);
        crate::near::lemma_divided(off, 400 * e, c);
    }
    let a = crate::metrics::off_centre(m.centroid);
    let x = Single::whole(6).times(m.clip_hi);
    crate::near::lemma_sum(a, x, 12);
    crate::near::lemma_sum(a.plus(x), z, 16);
}

/// Saturation brings a measured chroma to the target where it can: it goes no lower than nine
/// tenths, no higher than one and thirty-five hundredths, and stays one where there is hardly
/// any chroma.
pub proof fn saturation_brings_chroma_to_the_target(measured: Single, target: Single)
    requires
        crate::metrics::is_density(measured),
        crate::metrics::is_density(target),
        0 <= measured.signed(),
        0 <= target.signed(),
    ensures
        ({
            let s = crate::metrics::saturation_for(measured, target);
            let one = crate::near::one();
            let (m, t) = (measured.signed(), target.signed());
            &&& s.finite()
            &&& 200_000 * m < one ==> s.signed() == one
            &&& 89 * one <= 100 * s.signed() <= 136 * one
            &&& 50_000 * m >= one && 91 * m <= 100 * t && 100 * t <= 134 * m ==> -(m * one) <= (
            s.signed() * m - t * one) * 100_000 <= m * one
            &&& 50_000 * m >= one && 100 * t <= 89 * m ==> 100 * s.signed() <= 91 * one
            &&& 50_000 * m >= one && 100 * t >= 136 * m ==> 134 * one <= 100 * s.signed()
        }),
{
    let c = crate::near::one();
    let e = crate::near::slip();
    crate::near::lemma_sizes();
    let (m, t) = (measured.signed(), target.signed());
    let tiny = Single::ratio(1, 100_000);
    crate::near::lemma_ratio(1, 100_000, 1);
    crate::near::lemma_ratio(90, 100, 1);
    crate::near::lemma_ratio(135, 100, 2);
    crate::near::lemma_whole(1);
    assert(tiny.signed() * 100_000 >= c - 100_000 * e);
    tiny_is_above(tiny);
    crate::single::order_is_by_value(measured, tiny);
    let lo = Single::ratio(90, 100);
    let hi = Single::ratio(135, 100);
    if !measured.less(tiny) {
        assert(200_000 * m >= c);
        assert(t <= 0x1_0000_0000 * m);
        crate::near::lemma_quotient(target, measured, 0x1_0000_0000);
        let q = target.over(measured);
        crate::near::lemma_held(q, lo, hi);
        let qv = q.signed();
        if t <= 2 * m {
            crate::near::lemma_quotient(target, measured, 2);
            assert(2 * e * m * 0x40_0000 == m * c) by (nonlinear_arith)
                requires
                    c == e * 0x80_0000,
            ;
            let mc = m * c;
            let off = qv * m - t * c;
            assert(-(2 * e * m) <= off <= 2 * e * m);
            if 91 * m <= 100 * t {
                assert(qv > lo.signed()) by (nonlinear_arith)
                    requires
                        -(2 * e * m) <= qv * m - t * c,
                        91 * m <= 100 * t,
                        100 * lo.signed() <= 90 * c + 100 * e,
                        c == e * 0x80_0000,
                        m > 0,
                        e > 0,
                ;
            }
            if 100 * t <= 134 * m {
                assert(qv < hi.signed()) by (nonlinear_arith)
                    requires
                        qv * m - t * c <= 2 * e * m,
                        100 * t <= 134 * m,
                        100 * hi.signed() >= 135 * c - 200 * e,
                        c == e * 0x80_0000,
                        m > 0,
                        e > 0,
                ;
            }
            if 100 * t <= 89 * m {
                assert(100 * qv <= 91 * c) by (nonlinear_arith)
                    requires
                        qv * m - t * c <= 2 * e * m,
                        100 * t <= 89 * m,
                        c == e * 0x80_0000,
                        m > 0,
                        e > 0,
                ;
            }
            if 100 * t >= 136 * m {
                assert(100 * qv >= 134 * c) by (nonlinear_arith)
                    requires
                        qv * m - t * c >= -(2 * e * m),
                        100 * t >= 136 * m,
                        c == e * 0x80_0000,
                        m > 0,
                        e > 0,
                ;
            }
        } else {
            assert(100 * qv >= 134 * c) by {
                lemma_more_than_twice(target, measured);
            }
        }
    }
}

/// More than twice as much, divided, is more than one and a half.
proof fn lemma_more_than_twice(a: Single, b: Single)
    requires
        a.finite(),
        b.finite(),
        b.signed() > 0,
        a.signed() > 2 * b.signed(),
        a.signed() <= 0x1_0000_0000 * b.signed(),
    ensures
        a.over(b).finite(),
        100 * a.over(b).signed() >= 150 * crate::near::one(),
{
    reveal(Single::over_spec);
    crate::near::lemma_sizes();
    crate::near::lemma_quotient(a, b, 0x1_0000_0000);
    let c = vstd::arithmetic::power2::pow2(149);
    let (n, d) = (a.units() * c, b.units());
    assert(n >= (2 * c) * d) by (nonlinear_arith)
        requires
            n == a.units() * c,
            d == b.units(),
            a.units() >= 2 * b.units(),
            c > 0,
    ;
    crate::single::lemma_round_monotone(2 * c, 1, n, d);
    let two = crate::single::round_units(false, 2 * c, 1);
    crate::single::lemma_dyadic_exact(2, 149);
    assert(a.over(b) == crate::single::round_units(false, n, d));
    crate::single::lemma_units_monotone(two, a.over(b));
}

/// The least chroma that is brought to a target.
proof fn tiny_is_above(tiny: Single)
    requires
        tiny == Single::ratio(1, 100_000),
    ensures
        tiny.finite(),
        150_000 * tiny.signed() >= crate::near::one(),
        60_000 * tiny.signed() <= crate::near::one(),
{
    reveal(Single::ratio_spec);
    crate::near::lemma_sizes();
    let c = vstd::arithmetic::power2::pow2(149);
    assert(1 * c <= 100_000 * vstd::arithmetic::power2::pow2(270)) by (nonlinear_arith)
        requires
            vstd::arithmetic::power2::pow2(270) >= c,
            c >= 0,
    ;
    crate::single::lemma_round_near(1 * c, 100_000);
    let u = tiny.units();
    assert(u * 100_000 * 0x100_0000 <= c * 0x100_0001 + 0x8000_0000_0000 * 100_000);
}

} // verus!
