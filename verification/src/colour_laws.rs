//! What the changes of colour come to, whatever way they take.

use vstd::prelude::*;
use crate::aces::Matrix;
use crate::color::Levels;
use crate::single::Single;

verus! {

/// A colour under a matrix: row `c` mixes its red, green and blue, and makes channel `c`.
pub proof fn matrices_mix_channels(
    after: Seq<Single>,
    before: Seq<Single>,
    m: Matrix,
    i: int,
    c: int,
    bound: int,
)
    requires
        crate::aces::changed_by(after, before, m),
        0 <= i < before.len() / 3,
        0 <= c < 3,
        crate::print_laws::bounded_mix(m@[c]@, before.subrange(3 * i, 3 * i + 3), bound),
    ensures
        crate::print_laws::is_mix(
            after[3 * i + c],
            m@[c]@,
            before.subrange(3 * i, 3 * i + 3),
            bound,
        ),
{
    let d = before.subrange(3 * i, 3 * i + 3);
    crate::print_laws::lemma_mix(m@[c]@, d, bound);
    assert(d[0] == before[3 * i] && d[1] == before[3 * i + 1] && d[2] == before[3 * i + 2]);
    assert(after[3 * i + c] == crate::aces::changed(
        m,
        before[3 * i],
        before[3 * i + 1],
        before[3 * i + 2],
        c,
    ));
}

/// A value cut to zero to one.
pub open spec fn held(v: Single) -> int {
    let one = crate::near::one();
    if v.signed() < 0 {
        0
    } else if v.signed() > one {
        one
    } else {
        v.signed()
    }
}

proof fn lemma_cut(v: Single)
    requires
        v.finite(),
    ensures
        crate::curve::part(v).finite(),
        crate::curve::part(v).signed() == held(v),
        0 <= held(v) <= crate::near::one(),
{
    crate::near::lemma_sizes();
    crate::near::lemma_whole(0);
    crate::near::lemma_whole(1);
    crate::near::lemma_held(v, Single::whole(0), Single::whole(1));
}

/// A fraction times a number from zero to two.
proof fn lemma_ratio_times(n: u32, d: u32, v: Single, k: int)
    requires
        0 < d,
        1 <= k <= 0x1000,
        n <= k * d,
        v.finite(),
        0 <= v.signed() <= 2 * crate::near::one(),
    ensures
        ({
            let r = Single::ratio(n, d).times(v);
            let e = crate::near::slip();
            &&& r.finite()
            &&& 0 <= r.signed() <= 4 * k * crate::near::one()
            &&& -(6 * k * e * d) <= r.signed() * d - n * v.signed() <= 6 * k * e * d
        }),
{
    let c = crate::near::one();
    let e = crate::near::slip();
    crate::near::lemma_sizes();
    crate::near::lemma_ratio(n, d, k);
    let f = Single::ratio(n, d);
    let (fv, x) = (f.signed(), v.signed());
    assert(fv <= 2 * k * c) by (nonlinear_arith)
        requires
            fv * d - n * c <= k * e * d,
            n <= k * d,
            c == e * 0x80_0000,
            e > 0,
            d > 0,
            k >= 1,
    ;
    assert(0 <= fv * x <= 4 * k * c * c) by (nonlinear_arith)
        requires
            0 <= fv <= 2 * k * c,
            0 <= x <= 2 * c,
    ;
    crate::near::lemma_product(f, v, 4 * k);
    crate::near::lemma_product_not_below(f, v);
    let r = f.times(v).signed();
    let p = r * c - fv * x;
    let q = fv * d - n * c;
    let off = r * d - n * x;
    assert(off * c == p * d + q * x) by {
        assert(p * d == r * d * c - fv * x * d) by (nonlinear_arith)
            requires
                p == r * c - fv * x,
        ;
        assert(q * x == fv * x * d - n * x * c) by (nonlinear_arith)
            requires
                q == fv * d - n * c,
        ;
        assert(off * c == r * d * c - n * x * c) by (nonlinear_arith)
            requires
                off == r * d - n * x,
        ;
    }
    let kd = k * e * d;
    assert(-(4 * (kd * c)) <= p * d <= 4 * (kd * c)) by (nonlinear_arith)
        requires
            -(4 * k * e * c) <= p <= 4 * k * e * c,
            kd == k * e * d,
            d > 0,
    ;
    assert(-(2 * (kd * c)) <= q * x <= 2 * (kd * c)) by (nonlinear_arith)
        requires
            -kd <= q <= kd,
            0 <= x <= 2 * c,
            kd >= 0,
    ;
    assert((6 * kd) * c == 6 * (kd * c) && 6 * k * e * d == 6 * kd) by (nonlinear_arith)
        requires
            kd == k * e * d,
    ;
    crate::near::lemma_divided(off, 6 * kd, c);
    assert(r <= 4 * k * c) by (nonlinear_arith)
        requires
            r * d - n * x <= 6 * kd,
            kd == k * e * d,
            n <= k * d,
            x <= 2 * c,
            c == e * 0x80_0000,
            d > 0,
            k >= 1,
            e > 0,
            x >= 0,
    ;
}

/// The display's curve: a straight line of slope 12.92 near black; above it, 1.055 times the
/// power less 0.055.
pub proof fn codes_follow_the_curve(v: Single, raised: Single)
    requires
        v.finite(),
        raised.finite(),
        0 <= raised.signed() <= crate::near::one(),
    ensures
        ({
            let r = crate::color_space::encoded(v, raised);
            let x = held(v);
            let one = crate::near::one();
            &&& 100_000 * x <= 313 * one ==> r.finite() && -one <= 1_000 * (100 * r.signed() - 1_292
                * x) <= one
            &&& 100_000 * x >= 314 * one ==> r.finite() && -one <= 100 * (1_000 * r.signed() - (
            1_055 * raised.signed() - 55 * one)) <= one
        }),
{
    let c = crate::near::one();
    let e = crate::near::slip();
    crate::near::lemma_sizes();
    lemma_cut(v);
    let x = crate::curve::part(v);
    let limit = Single::ratio(31_308, 10_000_000);
    crate::near::lemma_ratio(31_308, 10_000_000, 1);
    crate::single::order_is_by_value(x, limit);
    crate::single::order_is_by_value(limit, x);
    lemma_ratio_times(1_292, 100, x, 13);
    lemma_ratio_times(1_055, 1_000, raised, 2);
    crate::near::lemma_ratio(55, 1_000, 1);
    let a = Single::ratio(1_055, 1_000).times(raised);
    crate::near::lemma_difference(a, Single::ratio(55, 1_000), 9);
}

/// A code value is decoded by the same curve, taken back.
pub proof fn codes_are_taken_back(v: Single, raised: Single)
    requires
        v.finite(),
    ensures
        ({
            let r = crate::color_space::decoded(v, raised);
            let l = crate::color_space::lifted(v);
            let x = held(v);
            let one = crate::near::one();
            &&& 10_000 * x <= 404 * one ==> r.finite() && -one <= 1_000 * (1_292 * r.signed() - 100
                * x) <= one
            &&& 10_000 * x >= 405 * one ==> r == raised
            &&& l.finite()
            &&& -one <= 100 * (1_055 * l.signed() - (1_000 * x + 55 * one)) <= one
        }),
{
    let c = crate::near::one();
    let e = crate::near::slip();
    crate::near::lemma_sizes();
    lemma_cut(v);
    let x = crate::curve::part(v);
    let xv = x.signed();
    let limit = Single::ratio(4_045, 100_000);
    crate::near::lemma_ratio(4_045, 100_000, 1);
    crate::single::order_is_by_value(x, limit);
    crate::single::order_is_by_value(limit, x);
    let s = Single::ratio(1_292, 100);
    crate::near::lemma_ratio(1_292, 100, 13);
    crate::near::lemma_quotient(x, s, 1);
    let q = x.over(s).signed();
    let sv = s.signed();
    assert(-(2_000 * e) <= 1_292 * q - 100 * xv <= 2_000 * e) by {
        let a = q * sv - xv * c;
        let b = sv * 100 - 1_292 * c;
        let off = 1_292 * q - 100 * xv;
        assert(off * c == 100 * a - q * b) by (nonlinear_arith)
            requires
                a == q * sv - xv * c,
                b == sv * 100 - 1_292 * c,
                off == 1_292 * q - 100 * xv,
        ;
        assert(0 < sv <= 13 * c && 12 * c <= sv);
        assert(-c <= 4 * q && 4 * q <= c) by (nonlinear_arith)
            requires
                -(1 * e * sv) <= q * sv - xv * c <= 1 * e * sv,
                0 <= xv <= c,
                12 * c <= sv,
                c == e * 0x80_0000,
                e > 0,
        ;
        crate::near::lemma_bounded(4 * q, c, b, 1_300 * e);
        assert(4 * q * b == 4 * (q * b) && c * (1_300 * e) == 1_300 * (e * c)) by (nonlinear_arith);
        assert(1 * e * sv <= 13 * (e * c)) by (nonlinear_arith)
            requires
                sv <= 13 * c,
                e > 0,
        ;
        assert(2_000 * e * c == 2_000 * (e * c)) by (nonlinear_arith);
        crate::near::lemma_divided(off, 2_000 * e, c);
    }
    // What is raised.
    crate::near::lemma_ratio(55, 1_000, 1);
    crate::near::lemma_ratio(1_055, 1_000, 2);
    let a = x.plus(Single::ratio(55, 1_000));
    crate::near::lemma_sum(x, Single::ratio(55, 1_000), 2);
    let d = Single::ratio(1_055, 1_000);
    let (av, dv) = (a.signed(), d.signed());
    crate::near::lemma_quotient(a, d, 2);
    let l = a.over(d).signed();
    assert(-(8_000 * e) <= 1_055 * l - 1_000 * av <= 8_000 * e) by {
        let p = l * dv - av * c;
        let b = dv * 1_000 - 1_055 * c;
        let off = 1_055 * l - 1_000 * av;
        assert(off * c == 1_000 * p - l * b) by (nonlinear_arith)
            requires
                p == l * dv - av * c,
                b == dv * 1_000 - 1_055 * c,
                off == 1_055 * l - 1_000 * av,
        ;
        assert(-(2 * c) <= l <= 2 * c) by (nonlinear_arith)
            requires
                -(2 * e * dv) <= l * dv - av * c <= 2 * e * dv,
                -c <= av <= 11 * c / 10 + c / 10,
                c <= dv <= 11 * c / 10,
                c == e * 0x80_0000,
                e > 0,
        ;
        crate::near::lemma_bounded(l, 2 * c, b, 2_000 * e);
        assert(2 * c * (2_000 * e) == 4_000 * (e * c) && 8_000 * e * c == 8_000 * (e * c))
            by (nonlinear_arith);
        assert(2 * e * dv <= 3 * (e * c)) by (nonlinear_arith)
            requires
                2 * dv <= 3 * c,
                e > 0,
        ;
        crate::near::lemma_divided(off, 8_000 * e, c);
    }
}

/// The exponent that encodes is one over the exponent that decodes, which is 2.4.
pub proof fn exponents_undo_each_other()
    ensures
        ({
            let (g, x) = (crate::color_space::display_gamma(), crate::color_space::srgb_exponent());
            let one = crate::near::one();
            &&& g.finite()
            &&& x.finite()
            &&& -one <= 100_000 * (10 * g.signed() - 24 * one) <= one
            &&& -(one * one) <= 100_000 * (g.signed() * x.signed() - one * one) <= one * one
        }),
{
    let c = crate::near::one();
    let e = crate::near::slip();
    crate::near::lemma_sizes();
    crate::near::lemma_ratio(24, 10, 3);
    crate::near::lemma_whole(1);
    let g = Single::ratio(24, 10);
    crate::near::lemma_quotient(Single::whole(1), g, 1);
    let gv = g.signed();
    assert(1 * e * gv * 100_000 <= c * c) by (nonlinear_arith)
        requires
            gv <= 3 * c,
            c == e * 0x80_0000,
            e > 0,
    ;
    let x = crate::color_space::srgb_exponent().signed();
    assert(x * gv == gv * x && 1 * c * c == c * c) by (nonlinear_arith);
}

/// Levels stretch what lies between black and white to the full range, in proportion; what lies
/// beyond is cut off.
pub proof fn levels_stretch_in_proportion(l: Levels, v: Single)
    requires
        crate::metrics::is_density(l.black),
        crate::metrics::is_density(l.white),
        crate::metrics::is_density(v),
        l.white.signed() >= l.black.signed() + crate::near::one() / 100,
    ensures
        ({
            let r = l.stretched(v);
            let one = crate::near::one();
            let (b, w, x) = (l.black.signed(), l.white.signed(), v.signed());
            &&& r.finite()
            &&& 0 <= r.signed() <= one
            &&& x <= b ==> r.signed() == 0
            &&& b <= x <= w ==> -((w - b) * one) <= 500 * (r.signed() * (w - b) - (x - b) * one)
                <= (w - b) * one
            &&& x > w ==> 1_000 * r.signed() >= 998 * one
        }),
{
    let c = crate::near::one();
    let e = crate::near::slip();
    crate::near::lemma_sizes();
    crate::near::lemma_whole(0);
    crate::near::lemma_whole(1);
    crate::near::lemma_ratio(1, 1_000_000, 1);
    let (b, w, x) = (l.black.signed(), l.white.signed(), v.signed());
    crate::near::lemma_difference(v, l.black, 16);
    crate::near::lemma_difference(l.white, l.black, 16);
    let n = v.minus(l.black);
    let d = l.white.minus(l.black);
    let tiny = Single::ratio(1, 1_000_000);
    crate::near::lemma_smaller_larger(d, tiny);
    let m = d.larger(tiny);
    let (nv, dv) = (n.signed(), d.signed());
    assert(c / 100 >= 80_000 * e);
    assert(dv >= 79_000 * e);
    assert(1_000_000 * tiny.signed() <= c + 1_000_000 * e);
    assert(tiny.signed() <= 10 * e);
    assert(m.signed() == dv);
    assert(nv <= 0x1_0000 * dv && -nv <= 0x1_0000 * dv);
    crate::near::lemma_quotient(n, m, 0x1_0000);
    let q = n.over(m);
    let qv = q.signed();
    crate::near::lemma_held(q, Single::whole(0), Single::whole(1));
    let r = l.stretched(v).signed();
    if x <= b {
        assert(qv <= 0) by {
            lemma_not_above(v, l.black);
            lemma_quotient_not_above(n, m);
        }
    } else if x <= w {
        // The way from black, and the whole of it, with their slips.
        let y = w - b;
        assert(nv <= 2 * dv && -nv <= 2 * dv);
        crate::near::lemma_quotient(n, m, 2);
        assert(-(2 * e * dv) <= qv * dv - nv * c <= 2 * e * dv);
        assert(-(3 * c) <= qv <= 3 * c) by (nonlinear_arith)
            requires
                -(2 * e * dv) <= qv * dv - nv * c <= 2 * e * dv,
                -(2 * dv) <= nv <= 2 * dv,
                dv > 0,
                c == e * 0x80_0000,
                e > 0,
        ;
        let s = qv * dv - nv * c;
        let f = dv - y;
        let g = nv - (x - b);
        crate::near::lemma_bounded(qv, 3 * c, f, 16 * e);
        crate::near::lemma_bounded(g, 16 * e, c, c);
        let off = qv * y - (x - b) * c;
        assert(off == s - qv * f + g * c) by {
            assert(qv * f == qv * dv - qv * y) by (nonlinear_arith)
                requires
                    f == dv - y,
            ;
            assert(g * c == nv * c - (x - b) * c) by (nonlinear_arith)
                requires
                    g == nv - (x - b),
            ;
        }
        assert(2 * e * dv <= 40 * (e * c)) by (nonlinear_arith)
            requires
                dv <= 20 * c,
                e > 0,
        ;
        assert(3 * c * (16 * e) == 48 * (e * c) && 16 * e * c == 16 * (e * c)) by (nonlinear_arith);
        assert(104 * (e * c) * 500 <= y * c) by (nonlinear_arith)
            requires
                y >= 79_000 * e,
                c > 0,
                e > 0,
        ;
        assert(-(y * c) <= 500 * off <= y * c) by {
            assert(-(104 * (e * c)) <= off <= 104 * (e * c));
        }
        lemma_held_between(qv, y, x - b);
    } else {
        assert(nv * c >= 999 * (dv * c) / 1_000) by {
            assert(1_000 * nv >= 999 * dv + 100 * e);
            assert(1_000 * (nv * c) >= 999 * (dv * c)) by (nonlinear_arith)
                requires
                    1_000 * nv >= 999 * dv,
                    c > 0,
            ;
        }
        lemma_at_least_white(n, m);
    }
}

/// A difference is not above zero where the first number is not above the second.
proof fn lemma_not_above(a: Single, b: Single)
    requires
        a.finite(),
        b.finite(),
        a.signed() <= b.signed(),
        a.minus(b).finite(),
    ensures
        a.minus(b).signed() <= 0,
{
    crate::single::lemma_opposite(b);
    reveal(Single::minus_spec);
    reveal(Single::plus_spec);
    let t = a.signed() - b.signed();
    if t == 0 {
        crate::near::lemma_whole(0);
        crate::near::lemma_exact_difference(a, b, Single::whole(0));
    } else {
        crate::single::lemma_round_is_a_number(true, (-t) as nat, 1);
    }
}

proof fn lemma_quotient_not_above(a: Single, b: Single)
    requires
        a.finite(),
        b.finite(),
        a.signed() <= 0,
        0 < b.signed(),
        a.over(b).finite(),
    ensures
        a.over(b).signed() <= 0,
{
    reveal(Single::over_spec);
    crate::near::lemma_sizes();
    let p = vstd::arithmetic::power2::pow2(149);
    if a.negative() {
        crate::single::lemma_round_is_a_number(true, a.units() * p, b.units());
    } else {
        assert(a.units() == 0);
        assert(0 * p == 0);
        crate::single::lemma_zero_rounds(false, b.units());
        crate::single::lemma_units_positive(a.over(b));
    }
}

/// Holding a share between zero and one brings it no further from the true one.
proof fn lemma_held_between(q: int, y: int, z: int)
    requires
        0 <= z <= y,
        y > 0,
        -(y * crate::near::one()) <= 500 * (q * y - z * crate::near::one()) <= y
            * crate::near::one(),
    ensures
        ({
            let one = crate::near::one();
            let r = if q < 0 {
                0
            } else if q > one {
                one
            } else {
                q
            };
            -(y * one) <= 500 * (r * y - z * one) <= y * one
        }),
{
    let c = crate::near::one();
    crate::near::lemma_sizes();
    assert(0 <= z * c <= y * c) by (nonlinear_arith)
        requires
            0 <= z <= y,
            c > 0,
    ;
    if q < 0 {
        assert(q * y <= 0 && 0 * y == 0) by (nonlinear_arith)
            requires
                q < 0,
                y > 0,
        ;
    } else if q > c {
        assert(q * y >= c * y && c * y == y * c) by (nonlinear_arith)
            requires
                q > c,
                y > 0,
        ;
    }
}

proof fn lemma_at_least_white(n: Single, m: Single)
    requires
        n.finite(),
        m.finite(),
        m.signed() > 0,
        0 < n.signed(),
        1_000 * n.signed() >= 999 * m.signed(),
        n.signed() <= 0x1_0000 * m.signed(),
        n.over(m).finite(),
    ensures
        10_000 * n.over(m).signed() >= 9_980 * crate::near::one(),
{
    reveal(Single::over_spec);
    crate::near::lemma_sizes();
    let p = vstd::arithmetic::power2::pow2(149);
    let a = n.units() * p;
    let d = m.units();
    let c = crate::near::one();
    assert(a <= d * vstd::arithmetic::power2::pow2(270)) by (nonlinear_arith)
        requires
            a == n.units() * p,
            n.units() <= 0x1_0000 * d,
            vstd::arithmetic::power2::pow2(270) >= p * 0x1_0000_0000_0000_0000,
            d > 0,
            p > 0,
    ;
    crate::single::lemma_round_near(a, d);
    let u = n.over(m).units();
    assert(1_000 * a >= 999 * (d * p)) by (nonlinear_arith)
        requires
            a == n.units() * p,
            1_000 * n.units() >= 999 * d,
            p > 0,
    ;
    assert(10_000 * u >= 9_980 * p) by (nonlinear_arith)
        requires
            a * 0xff_ffff <= u * d * 0x100_0000 + 0x8000_0000_0000 * d,
            1_000 * a >= 999 * (d * p),
            p >= 0x1_0000_0000_0000_0000 * 0x80_0000,
            d > 0,
    ;
}

/// Brightness of a colour, in ten-thousandths: green counts most, blue least.
pub open spec fn true_luma(r: Single, g: Single, b: Single) -> int {
    2_126 * r.signed() + 7_152 * g.signed() + 722 * b.signed()
}

/// How far the largest channel is from the smallest.
pub open spec fn true_spread(r: Single, g: Single, b: Single) -> int {
    let most = if r.signed() >= g.signed() && r.signed() >= b.signed() {
        r.signed()
    } else if g.signed() >= b.signed() {
        g.signed()
    } else {
        b.signed()
    };
    let least = if r.signed() <= g.signed() && r.signed() <= b.signed() {
        r.signed()
    } else if g.signed() <= b.signed() {
        g.signed()
    } else {
        b.signed()
    };
    most - least
}

/// A number from zero to one.
pub open spec fn is_unit(v: Single) -> bool {
    v.finite() && 0 <= v.signed() <= crate::near::one()
}

/// The measured brightness of a colour.
pub proof fn lemma_luma(r: Single, g: Single, b: Single)
    requires
        is_unit(r),
        is_unit(g),
        is_unit(b),
    ensures
        ({
            let l = crate::curve::luma(r, g, b);
            let c = crate::near::one();
            &&& l.finite()
            &&& -c <= 8 * (10_000 * l.signed() - true_luma(r, g, b)) <= c
            &&& 0 <= true_luma(r, g, b) <= 10_000 * c
        }),
{
    let c = crate::near::one();
    let e = crate::near::slip();
    crate::near::lemma_sizes();
    let w = seq![Single::ratio(2_126, 10_000), Single::ratio(7_152, 10_000), Single::ratio(722, 10_000)];
    let d = seq![r, g, b];
    crate::near::lemma_ratio(2_126, 10_000, 1);
    crate::near::lemma_ratio(7_152, 10_000, 1);
    crate::near::lemma_ratio(722, 10_000, 1);
    assert forall|k: int| 0 <= k < 3 implies (#[trigger] w[k]).finite() && d[k].finite() && -(1 * c
        * c) <= w[k].signed() * d[k].signed() <= 1 * c * c by {
        let (x, y) = (w[k].signed(), d[k].signed());
        assert(0 <= x <= c && 0 <= y <= c);
        assert(0 <= x * y <= 1 * c * c) by (nonlinear_arith)
            requires
                0 <= x <= c,
                0 <= y <= c,
        ;
    }
    crate::print_laws::lemma_mix(w, d, 1);
    let l = crate::curve::luma(r, g, b).signed();
    let (x, y, z) = (r.signed(), g.signed(), b.signed());
    let (p, q, s) = (w[0].signed(), w[1].signed(), w[2].signed());
    let t = true_luma(r, g, b);
    let (dp, dq, ds) = (p * 10_000 - 2_126 * c, q * 10_000 - 7_152 * c, s * 10_000 - 722 * c);
    crate::near::lemma_bounded(dp, 10_000 * e, x, c);
    crate::near::lemma_bounded(dq, 10_000 * e, y, c);
    crate::near::lemma_bounded(ds, 10_000 * e, z, c);
    let sum = p * x + q * y + s * z;
    assert(10_000 * sum - t * c == dp * x + dq * y + ds * z) by {
        assert(dp * x == 10_000 * (p * x) - 2_126 * (x * c)) by (nonlinear_arith)
            requires
                dp == p * 10_000 - 2_126 * c,
        ;
        assert(dq * y == 10_000 * (q * y) - 7_152 * (y * c)) by (nonlinear_arith)
            requires
                dq == q * 10_000 - 7_152 * c,
        ;
        assert(ds * z == 10_000 * (s * z) - 722 * (z * c)) by (nonlinear_arith)
            requires
                ds == s * 10_000 - 722 * c,
        ;
        assert(t * c == 2_126 * (x * c) + 7_152 * (y * c) + 722 * (z * c)) by (nonlinear_arith)
            requires
                t == 2_126 * x + 7_152 * y + 722 * z,
        ;
    }
    let off = 10_000 * l - t;
    assert(off * c == 10_000 * (l * c - sum) + (10_000 * sum - t * c)) by (nonlinear_arith)
        requires
            off == 10_000 * l - t,
    ;
    assert(10_000 * e * c == 10_000 * (e * c) && c * c == 0x80_0000 * (e * c) && 1 * c * c == c * c
        && e * c > 0) by (nonlinear_arith)
        requires
            c == e * 0x80_0000,
            e > 0,
    ;
    assert((8 * off) * c == 8 * (off * c)) by (nonlinear_arith);
    crate::near::lemma_divided(8 * off, c, c);
}

/// How much further a channel is moved from the brightness of its colour.
proof fn lemma_boost(r: Single, g: Single, b: Single, strength: Single)
    requires
        is_unit(r),
        is_unit(g),
        is_unit(b),
        strength.finite(),
        -crate::near::one() <= strength.signed() <= crate::near::one(),
    ensures
        ({
            let boost = Single::whole(1).plus(
                strength.times(
                    Single::whole(1).minus(crate::curve::part(crate::curve::spread(r, g, b))),
                ),
            );
            let (c, e) = (crate::near::one(), crate::near::slip());
            let kt = c * c + strength.signed() * (c - true_spread(r, g, b));
            &&& boost.finite()
            &&& -(5 * c) <= boost.signed() <= 5 * c
            &&& -(10 * (e * c)) <= boost.signed() * c - kt <= 10 * (e * c)
            &&& -(c * c) <= kt - c * c <= c * c
        }),
{
    let c = crate::near::one();
    let e = crate::near::slip();
    crate::near::lemma_sizes();
    crate::near::lemma_whole(1);
    let sv = strength.signed();
    crate::near::lemma_smaller_larger(r, g);
    crate::near::lemma_smaller_larger(r.larger(g), b);
    crate::near::lemma_smaller_larger(r.smaller(g), b);
    crate::near::lemma_difference(r.larger(g).larger(b), r.smaller(g).smaller(b), 1);
    let s = crate::curve::spread(r, g, b);
    let sp = true_spread(r, g, b);
    assert(0 <= sp <= c);
    lemma_cut(s);
    let ps = crate::curve::part(s);
    assert(-e <= ps.signed() - sp <= e);
    // The boost.
    crate::near::lemma_difference(Single::whole(1), ps, 1);
    let m = Single::whole(1).minus(ps);
    let mv = m.signed();
    assert(-(2 * e) <= mv - (c - sp) <= 2 * e);
    crate::near::lemma_bounded(sv, c, mv, 2 * c);
    assert(c * (2 * c) == 2 * c * c) by (nonlinear_arith);
    crate::near::lemma_product(strength, m, 2);
    let sm = strength.times(m);
    let smv = sm.signed();
    let k1 = smv * c - sv * mv;
    assert(-(3 * c) <= smv <= 3 * c) by (nonlinear_arith)
        requires
            k1 == smv * c - sv * mv,
            -(2 * e * c) <= k1 <= 2 * e * c,
            -(2 * c * c) <= sv * mv <= 2 * c * c,
            c == e * 0x80_0000,
            e > 0,
    ;
    crate::near::lemma_sum(Single::whole(1), sm, 4);
    let boost = Single::whole(1).plus(sm);
    let bv = boost.signed();
    let kt = c * c + sv * (c - sp);
    let kappa = bv * c - kt;
    assert(-(10 * (e * c)) <= kappa <= 10 * (e * c)) by {
        let k2 = bv - c - smv;
        let k3 = mv - (c - sp);
        crate::near::lemma_bounded(k2, 4 * e, c, c);
        crate::near::lemma_bounded(sv, c, k3, 2 * e);
        assert(kappa == k2 * c + k1 + sv * k3) by {
            assert(k2 * c == bv * c - c * c - smv * c) by (nonlinear_arith)
                requires
                    k2 == bv - c - smv,
            ;
            assert(sv * k3 == sv * mv - sv * (c - sp)) by (nonlinear_arith)
                requires
                    k3 == mv - (c - sp),
            ;
        }
        assert(4 * e * c == 4 * (e * c) && 2 * e * c == 2 * (e * c) && c * (2 * e) == 2 * (e * c) && e
            * c > 0) by (nonlinear_arith)
            requires
                e > 0,
                c > 0,
        ;
    }
    assert(-(5 * c) <= bv <= 5 * c);
    crate::near::lemma_bounded(sv, c, c - sp, c);
}

/// Vibrance moves each channel away from the brightness of its colour, or towards it: by its
/// strength, the less the more the colour is spread already.
pub proof fn vibrance_spares_spread_colours(
    v: Single,
    r: Single,
    g: Single,
    b: Single,
    strength: Single,
)
    requires
        is_unit(v),
        is_unit(r),
        is_unit(g),
        is_unit(b),
        strength.finite(),
        -crate::near::one() <= strength.signed() <= crate::near::one(),
        50_000 * crate::single::size(strength.signed()) >= crate::near::one(),
    ensures
        ({
            let one = crate::near::one();
            let y = true_luma(r, g, b);
            let boost = one * one + strength.signed() * (one - true_spread(r, g, b));
            let t = y * one * one + (10_000 * v.signed() - y) * boost;
            let o = crate::curve::vivid(v, r, g, b, strength);
            &&& o.finite()
            &&& 0 <= o.signed() <= one
            &&& 0 <= t <= 10_000 * one * one * one ==> -(one * one * one) <= 10_000 * o.signed()
                * one * one - t <= one * one * one
        }),
{
    let c = crate::near::one();
    let e = crate::near::slip();
    crate::near::lemma_sizes();
    crate::near::lemma_whole(0);
    crate::near::lemma_whole(1);
    let sv = strength.signed();
    // The strength matters.
    crate::near::lemma_size(strength);
    crate::near::lemma_ratio(1, 1_000_000, 1);
    crate::single::order_is_by_value(strength.abs(), Single::ratio(1, 1_000_000));
    lemma_luma(r, g, b);
    let l = crate::curve::luma(r, g, b);
    let lv = l.signed();
    let y = true_luma(r, g, b);
    lemma_boost(r, g, b, strength);
    let boost = Single::whole(1).plus(
        strength.times(Single::whole(1).minus(crate::curve::part(crate::curve::spread(r, g, b)))),
    );
    let bv = boost.signed();
    let kt = c * c + sv * (c - true_spread(r, g, b));
    let kappa = bv * c - kt;
    // The distance from the brightness.
    assert(-c <= lv <= 2 * c);
    crate::near::lemma_difference(v, l, 2);
    let d = v.minus(l);
    let dv = d.signed();
    crate::near::lemma_bounded(dv, 3 * c, bv, 5 * c);
    assert(3 * c * (5 * c) == 15 * c * c) by (nonlinear_arith);
    crate::near::lemma_product(d, boost, 15);
    let p = d.times(boost);
    let pv = p.signed();
    let k4 = pv * c - dv * bv;
    assert(-(16 * c) <= pv <= 16 * c) by (nonlinear_arith)
        requires
            k4 == pv * c - dv * bv,
            -(15 * e * c) <= k4 <= 15 * e * c,
            -(15 * c * c) <= dv * bv <= 15 * c * c,
            c == e * 0x80_0000,
            e > 0,
    ;
    crate::near::lemma_sum(l, p, 18);
    let u = l.plus(p);
    let uv = u.signed();
    lemma_cut(u);
    lemma_vivid_sum(uv, lv, pv, dv, bv, v.signed(), y, kt, kappa, k4);
    lemma_held_colour(uv, y * c * c + (10_000 * v.signed() - y) * kt);
}

proof fn lemma_vivid_sum(
    u: int,
    l: int,
    p: int,
    d: int,
    b: int,
    v: int,
    y: int,
    k: int,
    kappa: int,
    k4: int,
)
    requires
        ({
            let (c, e) = (crate::near::one(), crate::near::slip());
            &&& -(18 * e) <= u - (l + p) <= 18 * e
            &&& k4 == p * c - d * b
            &&& -(15 * e * c) <= k4 <= 15 * e * c
            &&& -(2 * e) <= d - (v - l) <= 2 * e
            &&& -c <= 8 * (10_000 * l - y) <= c
            &&& kappa == b * c - k
            &&& -(10 * (e * c)) <= kappa <= 10 * (e * c)
            &&& 0 <= v <= c
            &&& 0 <= y <= 10_000 * c
            &&& -(c * c) <= k - c * c <= c * c
        }),
    ensures
        ({
            let c = crate::near::one();
            -(c * c * c) <= 10_000 * u * c * c - (y * c * c + (10_000 * v - y) * k) <= c * c * c
        }),
{
    let c = crate::near::one();
    let e = crate::near::slip();
    crate::near::lemma_sizes();
    let cc = c * c;
    let x = u - l - p;
    let f = 10_000 * l - y;
    let h = d - (v - l);
    let n = 10_000 * v - y;
    let bc = b * c;
    // 10 000·d·b·c = (n - f + 10 000·h)·(k + kappa).
    assert(10_000 * (d * b) * c == n * k + n * kappa + (10_000 * h - f) * bc) by {
        assert(10_000 * d == n - f + 10_000 * h);
        let g = 10_000 * d;
        assert(10_000 * (d * b) * c == g * bc) by (nonlinear_arith)
            requires
                g == 10_000 * d,
                bc == b * c,
        ;
        assert(g * bc == n * bc + (10_000 * h - f) * bc) by (nonlinear_arith)
            requires
                g == n - f + 10_000 * h,
        ;
        assert(n * bc == n * k + n * kappa) by (nonlinear_arith)
            requires
                bc == k + kappa,
        ;
    }
    let off = 10_000 * u * c * c - (y * c * c + n * k);
    assert(off == 10_000 * (x * cc) + 10_000 * (k4 * c) + f * cc + n * kappa + (10_000 * h - f)
        * bc) by {
        assert(10_000 * u * c * c == 10_000 * (x * cc) + 10_000 * (l * cc) + 10_000 * (p * cc))
            by (nonlinear_arith)
            requires
                x == u - l - p,
                cc == c * c,
        ;
        let db = d * b;
        assert(k4 * c == p * cc - db * c) by (nonlinear_arith)
            requires
                k4 == p * c - db,
                cc == c * c,
        ;
        assert(10_000 * db * c == 10_000 * (db * c)) by (nonlinear_arith);
        assert(f * cc == 10_000 * (l * cc) - y * cc) by (nonlinear_arith)
            requires
                f == 10_000 * l - y,
        ;
        assert(y * c * c == y * cc) by (nonlinear_arith)
            requires
                cc == c * c,
        ;
    }
    // (f·cc - f·bc) is f·(cc - bc): the brightness moves by no more than the boost.
    let w = cc - bc;
    assert(f * cc + (10_000 * h - f) * bc == f * w + 10_000 * (h * bc)) by (nonlinear_arith)
        requires
            w == cc - bc,
    ;
    let ccc = cc * c;
    assert(c * c * c == ccc) by (nonlinear_arith)
        requires
            cc == c * c,
            ccc == cc * c,
    ;
    let ecc = e * cc;
    assert(ccc == 0x80_0000 * ecc && ecc > 0 && 10 * (e * c) <= cc) by (nonlinear_arith)
        requires
            cc == c * c,
            ccc == cc * c,
            ecc == e * cc,
            c == e * 0x80_0000,
            e > 0,
    ;
    assert(-(2 * ccc) <= 8 * (f * w) <= 2 * ccc) by {
        assert(-(2 * cc) <= w <= 2 * cc);
        crate::near::lemma_bounded(8 * f, c, w, 2 * cc);
        assert(8 * f * w == 8 * (f * w) && c * (2 * cc) == 2 * ccc) by (nonlinear_arith)
            requires
                ccc == cc * c,
        ;
    }
    crate::near::lemma_bounded(x, 18 * e, cc, cc);
    crate::near::lemma_bounded(k4, 15 * e * c, c, c);
    crate::near::lemma_bounded(n, 10_000 * c, kappa, 10 * (e * c));
    crate::near::lemma_bounded(h, 2 * e, bc, 4 * cc);
    assert(18 * e * cc == 18 * ecc && 15 * e * c * c == 15 * ecc && 10_000 * c * (10 * (e * c))
        == 100_000 * ecc && 2 * e * (4 * cc) == 8 * ecc) by (nonlinear_arith)
        requires
            ecc == e * cc,
            cc == c * c,
    ;
}

/// Holding a channel between zero and one brings it no further from where it belongs.
proof fn lemma_held_colour(u: int, t: int)
    requires
        ({
            let c = crate::near::one();
            -(c * c * c) <= 10_000 * u * c * c - t <= c * c * c
        }),
    ensures
        ({
            let c = crate::near::one();
            let o = if u < 0 {
                0
            } else if u > c {
                c
            } else {
                u
            };
            0 <= t <= 10_000 * c * c * c ==> -(c * c * c) <= 10_000 * o * c * c - t <= c * c * c
        }),
{
    let c = crate::near::one();
    crate::near::lemma_sizes();
    let cc = c * c;
    assert(cc > 0 && c * c * c == cc * c) by (nonlinear_arith)
        requires
            cc == c * c,
            c > 0,
    ;
    assert(cc * c > 0) by (nonlinear_arith)
        requires
            cc > 0,
            c > 0,
    ;
    assert(10_000 * u * c * c == 10_000 * (u * cc) && 10_000 * c * c * c == 10_000 * (c * cc) && cc
        * c == c * cc) by (nonlinear_arith)
        requires
            cc == c * c,
    ;
    if u < 0 {
        assert(u * cc <= 0) by (nonlinear_arith)
            requires
                u < 0,
                cc > 0,
        ;
        assert(10_000 * 0 * c * c == 0) by (nonlinear_arith);
    } else if u > c {
        assert(u * cc >= c * cc) by (nonlinear_arith)
            requires
                u > c,
                cc > 0,
        ;
    }
}

/// A channel of a light's colour, or a mean of gains.
pub open spec fn is_strength(v: Single) -> bool {
    v.finite() && crate::near::one() <= v.signed() <= 255 * crate::near::one()
}

proof fn lemma_whitened(v: Single, mean: Single)
    requires
        is_strength(v),
        is_strength(mean),
    ensures
        ({
            let r = crate::color::whitening(v).over(mean);
            let one = crate::near::one();
            let x = r.signed() * v.signed() * mean.signed();
            &&& r.finite()
            &&& -(one * one * one) <= 1_000 * (x - 255 * (one * one * one)) <= one * one * one
        }),
{
    let c = crate::near::one();
    let e = crate::near::slip();
    crate::near::lemma_sizes();
    crate::near::lemma_whole(255);
    crate::near::lemma_whole(1);
    crate::near::lemma_smaller_larger(v, Single::whole(1));
    let d = v.larger(Single::whole(1));
    let (dv, mv) = (d.signed(), mean.signed());
    assert(dv == v.signed());
    let n = Single::whole(255);
    crate::near::lemma_quotient_part(n, d);
    let w = n.over(d);
    let wv = w.signed();
    let tiny: int = 0x8000_0000_0000;
    let k1 = wv * dv - 255 * (c * c);
    let cc = c * c;
    assert(255 * c * c == 255 * cc && cc > 0) by (nonlinear_arith)
        requires
            cc == c * c,
            c > 0,
    ;
    assert(tiny * dv <= cc) by (nonlinear_arith)
        requires
            dv <= 255 * c,
            cc == c * c,
            c >= 255 * tiny,
            c > 0,
            tiny > 0,
    ;
    assert(-(256 * cc) <= k1 * 0x100_0000 <= 256 * cc);
    assert(wv > 0) by (nonlinear_arith)
        requires
            wv * dv - 255 * cc == k1,
            k1 * 0x100_0000 >= -(256 * cc),
            cc > 0,
            dv > 0,
    {
        assert(wv * dv > 0);
    }
    assert(wv <= 256 * c) by (nonlinear_arith)
        requires
            wv * dv - 255 * cc == k1,
            k1 * 0x100_0000 <= 256 * cc,
            dv >= c,
            cc == c * c,
            c > 0,
    ;
    assert(!w.negative()) by {
        if w.negative() {
            assert(w.signed() <= 0);
        }
    }
    crate::near::lemma_quotient_part(w, mean);
    let r = w.over(mean).signed();
    let k2 = r * mv - wv * c;
    assert(-(2 * (wv * c)) - tiny * mv <= k2 * 0x100_0000 <= 2 * (wv * c) + tiny * mv) by {
        assert(wv * c >= 0) by (nonlinear_arith)
            requires
                wv > 0,
                c > 0,
        ;
    }
    // r·v·mean = k2·v + w·v·one = k2·v + (255·one² + k1)·one.
    let x = r * dv * mv;
    let ccc = cc * c;
    assert(x == k2 * dv + k1 * c + 255 * ccc) by {
        assert(x == r * mv * dv) by (nonlinear_arith)
            requires
                x == r * dv * mv,
        ;
        assert(k2 * dv == r * mv * dv - wv * dv * c) by (nonlinear_arith)
            requires
                k2 == r * mv - wv * c,
        ;
        assert(k1 * c == wv * dv * c - 255 * ccc) by (nonlinear_arith)
            requires
                k1 == wv * dv - 255 * cc,
                ccc == cc * c,
        ;
    }
    assert(-(600 * ccc) <= (k2 * dv) * 0x100_0000 <= 600 * ccc) by {
        let z = wv * dv;
        assert(0 <= z <= 256 * cc);
        assert(-(2 * (z * c)) - tiny * (mv * dv) <= (k2 * dv) * 0x100_0000 <= 2 * (z * c) + tiny * (
        mv * dv)) by (nonlinear_arith)
            requires
                -(2 * (wv * c)) - tiny * mv <= k2 * 0x100_0000 <= 2 * (wv * c) + tiny * mv,
                z == wv * dv,
                dv > 0,
        ;
        assert(z * c <= 256 * ccc && tiny * (mv * dv) <= ccc) by (nonlinear_arith)
            requires
                0 <= z <= 256 * cc,
                ccc == cc * c,
                0 < mv <= 255 * c,
                0 < dv <= 255 * c,
                cc == c * c,
                c >= 0x1_0000 * tiny,
                c > 0,
                tiny > 0,
        ;
    }
    assert(-(256 * ccc) <= (k1 * c) * 0x100_0000 <= 256 * ccc) by (nonlinear_arith)
        requires
            -(256 * cc) <= k1 * 0x100_0000 <= 256 * cc,
            ccc == cc * c,
            c > 0,
    ;
    assert(c * c * c == ccc && ccc > 0) by (nonlinear_arith)
        requires
            ccc == cc * c,
            cc == c * c,
            c > 0,
    ;
}

/// The gains of a white balance make a light of that colour neutral: each channel times its gain
/// comes to the same, whatever the channel.
pub proof fn gains_make_the_light_neutral(body: crate::color::Triple, mean: Single)
    requires
        is_strength(body.a),
        is_strength(body.b),
        is_strength(body.c),
        is_strength(mean),
    ensures
        ({
            let g = crate::color::balanced(body, mean);
            let one = crate::near::one();
            let m = mean.signed();
            let ooo = one * one * one;
            &&& g.a.finite() && -ooo <= 1_000 * (g.a.signed() * body.a.signed() * m - 255 * ooo)
                <= ooo
            &&& g.b.finite() && -ooo <= 1_000 * (g.b.signed() * body.b.signed() * m - 255 * ooo)
                <= ooo
            &&& g.c.finite() && -ooo <= 1_000 * (g.c.signed() * body.c.signed() * m - 255 * ooo)
                <= ooo
        }),
{
    lemma_whitened(body.a, mean);
    lemma_whitened(body.b, mean);
    lemma_whitened(body.c, mean);
}

} // verus!
