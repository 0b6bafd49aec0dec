//! What the mean of a surrounding is.

use vstd::prelude::*;
use crate::color::Triple;
use crate::single::Single;

verus! {

/// One of the three numbers of a colour.
pub open spec fn part_of(t: Triple, c: int) -> Single {
    if c == 0 {
        t.a
    } else if c == 1 {
        t.b
    } else {
        t.c
    }
}

/// The weights of the first `n` colours, added up.
pub open spec fn weight_total(weights: Seq<Single>, n: nat) -> int
    decreases n,
{
    if n == 0 {
        0
    } else {
        weight_total(weights, (n - 1) as nat) + weights[n - 1].signed()
    }
}

/// One number of the first `n` colours, times their weights, added up.
pub open spec fn weighted_total(
    colours: Seq<Triple>,
    weights: Seq<Single>,
    c: int,
    n: nat,
) -> int
    decreases n,
{
    if n == 0 {
        0
    } else {
        weighted_total(colours, weights, c, (n - 1) as nat) + part_of(colours[n - 1], c).signed()
            * weights[n - 1].signed()
    }
}

/// Colours and weights that a mean is made of.
pub open spec fn can_be_averaged(colours: Seq<Triple>, weights: Seq<Single>) -> bool {
    let one = crate::near::one();
    &&& colours.len() <= 97
    &&& weights.len() == colours.len()
    &&& forall|i: int|
        0 <= i < weights.len() ==> (#[trigger] weights[i]).finite() && 0 <= weights[i].signed()
            <= one
    &&& forall|i: int, c: int|
        0 <= i < colours.len() && 0 <= c < 3 ==> (#[trigger] part_of(colours[i], c)).finite()
            && -(4 * one) <= part_of(colours[i], c).signed() <= 4 * one
}

proof fn lemma_weighted(colours: Seq<Triple>, weights: Seq<Single>, c: int, n: nat)
    requires
        can_be_averaged(colours, weights),
        n <= colours.len(),
        0 <= c < 3,
    ensures
        ({
            let (acc, sum) = crate::bujack::weighted(colours, weights, n);
            let a = part_of(acc, c);
            let (k, e) = (crate::near::one(), crate::near::slip());
            &&& a.finite()
            &&& -(n * (400 * (e * k))) <= a.signed() * k - weighted_total(colours, weights, c, n)
                <= n * (400 * (e * k))
            &&& sum.finite()
            &&& -(n * (100 * e)) <= sum.signed() - weight_total(weights, n) <= n * (100 * e)
            &&& 0 <= weight_total(weights, n) <= n * k
            &&& -(4 * k * weight_total(weights, n)) <= weighted_total(colours, weights, c, n) <= 4
                * k * weight_total(weights, n)
        }),
    decreases n,
{
    let k = crate::near::one();
    let e = crate::near::slip();
    crate::near::lemma_sizes();
    crate::near::lemma_whole(0);
    if n > 0 {
        let m = (n - 1) as nat;
        lemma_weighted(colours, weights, c, m);
        let (acc, sum) = crate::bujack::weighted(colours, weights, m);
        let s = part_of(colours[n - 1], c);
        let w = weights[n - 1];
        let (sv, wv) = (s.signed(), w.signed());
        let a = part_of(acc, c);
        let (t, total) = (weighted_total(colours, weights, c, m), weight_total(weights, m));
        crate::near::lemma_bounded(sv, 4 * k, wv, k);
        assert(4 * k * k == 4 * (k * k)) by (nonlinear_arith);
        crate::near::lemma_product(s, w, 4);
        let p = s.times(w);
        let pv = p.signed();
        assert(-(5 * k) <= pv <= 5 * k) by (nonlinear_arith)
            requires
                -(4 * e * k) <= pv * k - sv * wv <= 4 * e * k,
                -(4 * k * k) <= sv * wv <= 4 * k * k,
                k == e * 0x80_0000,
                e > 0,
        ;
        assert(n * (400 * (e * k)) == m * (400 * (e * k)) + 400 * (e * k) && n * (100 * e) == m * (100
            * e) + 100 * e && n * k == m * k + k) by (nonlinear_arith)
            requires
                n == m + 1,
        ;
        assert(0 <= m * k <= 96 * k && 0 <= m * (100 * e) <= 9_600 * e && 0 <= m * (400 * (e * k))
            <= 38_400 * (e * k)) by (nonlinear_arith)
            requires
                0 <= m <= 96,
                e > 0,
                k > 0,
        ;
        let av = a.signed();
        assert(-(386 * k) <= av <= 386 * k) by (nonlinear_arith)
            requires
                -(38_400 * (e * k)) <= av * k - t <= 38_400 * (e * k),
                -(4 * k * total) <= t <= 4 * k * total,
                0 <= total <= 96 * k,
                k == e * 0x80_0000,
                e > 0,
        ;
        crate::near::lemma_sum(a, p, 391);
        crate::near::lemma_sum(sum, w, 98);
        let r = a.plus(p).signed();
        let d = r - av - pv;
        crate::near::lemma_bounded(d, 391 * e, k, k);
        assert(d * k == r * k - av * k - pv * k) by (nonlinear_arith)
            requires
                d == r - av - pv,
        ;
        assert(391 * e * k == 391 * (e * k) && 4 * e * k == 4 * (e * k) && e * k > 0)
            by (nonlinear_arith)
            requires
                e > 0,
                k > 0,
        ;
        assert(4 * k * (total + wv) == 4 * k * total + 4 * k * wv) by (nonlinear_arith);
        assert(-(4 * k * wv) <= sv * wv <= 4 * k * wv) by (nonlinear_arith)
            requires
                -(4 * k) <= sv <= 4 * k,
                0 <= wv,
        ;
    } else {
        assert(4 * k * 0 == 0);
    }
}

/// The mean of colours by their weights is what they add up to, each as often as it weighs, over
/// all weights: to a fiftieth, where the weights add up to one at least.
pub proof fn means_go_by_weight(colours: Seq<Triple>, weights: Seq<Single>, c: int)
    requires
        can_be_averaged(colours, weights),
        0 <= c < 3,
        weight_total(weights, colours.len()) >= crate::near::one(),
    ensures
        ({
            let r = part_of(crate::bujack::mean_of(colours, weights), c);
            let one = crate::near::one();
            let all = weight_total(weights, colours.len());
            &&& r.finite()
            &&& -(all * one) <= 50 * (r.signed() * all - weighted_total(
                colours,
                weights,
                c,
                colours.len(),
            )) <= all * one
        }),
{
    let n = colours.len();
    let k = crate::near::one();
    let e = crate::near::slip();
    crate::near::lemma_sizes();
    lemma_weighted(colours, weights, c, n);
    let (acc, sum) = crate::bujack::weighted(colours, weights, n);
    let a = part_of(acc, c);
    let (av, s) = (a.signed(), sum.signed());
    let (t, all) = (weighted_total(colours, weights, c, n), weight_total(weights, n));
    assert(0 <= n * k <= 97 * k && 0 <= n * (100 * e) <= 9_700 * e && 0 <= n * (400 * (e * k))
        <= 38_800 * (e * k)) by (nonlinear_arith)
        requires
            0 <= n <= 97,
            e > 0,
            k > 0,
    ;
    let tiny = Single::ratio(1, 1_000_000);
    crate::near::lemma_ratio(1, 1_000_000, 1);
    crate::near::lemma_smaller_larger(sum, tiny);
    crate::near::lemma_whole(1);
    let m = sum.larger(tiny);
    assert(m.signed() == s);
    crate::near::lemma_quotient(Single::whole(1), m, 2);
    let inv = Single::whole(1).over(m);
    let iv = inv.signed();
    assert(-k <= iv <= 2 * k) by (nonlinear_arith)
        requires
            -(2 * e * s) <= iv * s - 1 * k * k <= 2 * e * s,
            10 * s >= 9 * k,
            k == e * 0x80_0000,
            e > 0,
    ;
    // The sum is no more than five times the weights.
    assert(-(5 * s) <= av <= 5 * s) by (nonlinear_arith)
        requires
            -(38_800 * (e * k)) <= av * k - t <= 38_800 * (e * k),
            -(4 * k * all) <= t <= 4 * k * all,
            -(9_700 * e) <= s - all <= 9_700 * e,
            all >= k,
            k == e * 0x80_0000,
            e > 0,
    ;
    assert(-(500 * k) <= av <= 500 * k);
    crate::near::lemma_bounded(av, 500 * k, iv, 2 * k);
    assert(500 * k * (2 * k) == 1_000 * k * k) by (nonlinear_arith);
    crate::near::lemma_product(a, inv, 1_000);
    let r = a.times(inv);
    let rv = r.signed();
    let f1 = rv * k - av * iv;
    let f2 = iv * s - k * k;
    // r·s is a·one, nearly.
    let g = rv * s - av * k;
    assert(-(2_000 * e * s) <= g <= 2_000 * e * s) by {
        assert(g * k == f1 * s + av * f2) by {
            assert(f1 * s == rv * k * s - av * iv * s) by (nonlinear_arith)
                requires
                    f1 == rv * k - av * iv,
            ;
            assert(av * f2 == av * iv * s - av * k * k) by (nonlinear_arith)
                requires
                    f2 == iv * s - k * k,
            ;
            assert(g * k == rv * k * s - av * k * k) by (nonlinear_arith)
                requires
                    g == rv * s - av * k,
            ;
        }
        let es = e * s;
        assert(-(1_000 * (es * k)) <= f1 * s <= 1_000 * (es * k)) by (nonlinear_arith)
            requires
                -(1_000 * e * k) <= f1 <= 1_000 * e * k,
                es == e * s,
                s > 0,
        ;
        assert(1 * k * k == k * k);
        crate::near::lemma_bounded(av, 500 * k, f2, 2 * e * s);
        assert(500 * k * (2 * e * s) == 1_000 * (es * k) && 2_000 * e * s == 2_000 * es && (2_000
            * es) * k == 2_000 * (es * k)) by (nonlinear_arith)
            requires
                es == e * s,
        ;
        crate::near::lemma_divided(g, 2_000 * es, k);
    }
    assert(-(6 * k) <= rv <= 6 * k) by (nonlinear_arith)
        requires
            -(2_000 * e * s) <= rv * s - av * k <= 2_000 * e * s,
            -(5 * s) <= av <= 5 * s,
            s > 0,
            k == e * 0x80_0000,
            e > 0,
    ;
    // From the rounded sums to the true ones.
    let d = s - all;
    let h = av * k - t;
    crate::near::lemma_bounded(rv, 6 * k, d, 9_700 * e);
    let off = rv * all - t;
    assert(off == g - rv * d + h) by {
        assert(rv * d == rv * s - rv * all) by (nonlinear_arith)
            requires
                d == s - all,
        ;
    }
    assert(6 * k * (9_700 * e) == 58_200 * (e * k)) by (nonlinear_arith);
    assert(2_000 * e * s <= 2_100 * (e * all)) by (nonlinear_arith)
        requires
            s <= all + 9_700 * e,
            all >= k,
            k == e * 0x80_0000,
            e > 0,
    ;
    assert(e * k <= e * all && all * k == 0x80_0000 * (e * all)) by (nonlinear_arith)
        requires
            all >= k,
            k == e * 0x80_0000,
            e > 0,
    ;
}

proof fn lemma_between(
    colours: Seq<Triple>,
    weights: Seq<Single>,
    c: int,
    n: nat,
    lo: int,
    hi: int,
)
    requires
        can_be_averaged(colours, weights),
        n <= colours.len(),
        0 <= c < 3,
        forall|i: int|
            0 <= i < colours.len() ==> lo <= (#[trigger] part_of(colours[i], c)).signed() <= hi,
    ensures
        lo * weight_total(weights, n) <= weighted_total(colours, weights, c, n) <= hi
            * weight_total(weights, n),
    decreases n,
{
    if n > 0 {
        let m = (n - 1) as nat;
        lemma_between(colours, weights, c, m, lo, hi);
        let (w, v) = (weights[n - 1].signed(), part_of(colours[n - 1], c).signed());
        let t = weight_total(weights, m);
        assert(lo * (t + w) == lo * t + lo * w && hi * (t + w) == hi * t + hi * w)
            by (nonlinear_arith);
        assert(lo * w <= v * w <= hi * w) by (nonlinear_arith)
            requires
                lo <= v <= hi,
                w >= 0,
        ;
    } else {
        assert(lo * 0 == 0 && hi * 0 == 0);
    }
}

/// The mean of a surrounding lies between its colours; a plain surrounding keeps its colour.
pub proof fn means_lie_between_the_colours(
    colours: Seq<Triple>,
    weights: Seq<Single>,
    c: int,
    lo: int,
    hi: int,
)
    requires
        can_be_averaged(colours, weights),
        0 <= c < 3,
        weight_total(weights, colours.len()) >= crate::near::one(),
        forall|i: int|
            0 <= i < colours.len() ==> lo <= (#[trigger] part_of(colours[i], c)).signed() <= hi,
    ensures
        ({
            let r = part_of(crate::bujack::mean_of(colours, weights), c);
            let one = crate::near::one();
            &&& r.finite()
            &&& 50 * lo - one <= 50 * r.signed() <= 50 * hi + one
        }),
{
    means_go_by_weight(colours, weights, c);
    let n = colours.len();
    lemma_between(colours, weights, c, n, lo, hi);
    let k = crate::near::one();
    crate::near::lemma_sizes();
    let all = weight_total(weights, n);
    let r = part_of(crate::bujack::mean_of(colours, weights), c).signed();
    let t = weighted_total(colours, weights, c, n);
    assert(50 * lo - k <= 50 * r <= 50 * hi + k) by (nonlinear_arith)
        requires
            -(all * k) <= 50 * (r * all - t) <= all * k,
            lo * all <= t <= hi * all,
            all > 0,
    ;
}

/// The neighbours of a pixel lie in its own row, or in its own column, as many on one side as on
/// the other; where the picture ends, its last pixel stands for them.
pub proof fn neighbours_lie_in_line(w: int, h: int, p: int, across: bool, d: int)
    requires
        0 < w,
        0 < h,
        0 <= p < w * h,
    ensures
        ({
            let q = crate::bujack::tap(w, h, p, across, d);
            let (x, y) = (p % w, p / w);
            &&& 0 <= q < w * h
            &&& across ==> q / w == y
            &&& !across ==> q % w == x
            &&& across && 0 <= x + d < w ==> q == p + d
            &&& !across && 0 <= y + d < h ==> q == p + d * w
            &&& d == 0 ==> q == p
            &&& across && x + d >= w ==> q == y * w + w - 1
            &&& across && x + d < 0 ==> q == y * w
            &&& !across && y + d >= h ==> q == (h - 1) * w + x
            &&& !across && y + d < 0 ==> q == x
        }),
{
    let (x, y) = (p % w, p / w);
    vstd::arithmetic::div_mod::lemma_fundamental_div_mod(p, w);
    vstd::arithmetic::div_mod::lemma_mod_bound(p, w);
    assert(p == w * y + x && y * w == w * y) by (nonlinear_arith)
        requires
            p == w * y + x,
    ;
    assert(0 <= y < h) by (nonlinear_arith)
        requires
            p == w * y + x,
            0 <= x < w,
            0 <= p < w * h,
            w > 0,
    ;
    let q = crate::bujack::tap(w, h, p, across, d);
    let (u, v) = if across {
        (crate::bujack::moved(x, d, w), y)
    } else {
        (x, crate::bujack::moved(y, d, h))
    };
    assert(q == v * w + u);
    assert(0 <= v * w + u < w * h) by (nonlinear_arith)
        requires
            0 <= v < h,
            0 <= u < w,
    ;
    vstd::arithmetic::div_mod::lemma_fundamental_div_mod_converse(q, w, v, u);
    assert((y + d) * w == y * w + d * w) by (nonlinear_arith);
    assert(0 * w == 0);
}

} // verus!
