//! What Lab and the changes of primaries around it take back.

use vstd::prelude::*;
use vstd::arithmetic::power2::*;
use crate::color::Triple;
use crate::single::Single;

verus! {

/// A number to the third.
pub open spec fn cubed(x: int) -> int {
    x * x * x
}

/// A compressed value above the straight part of the curve, from a quarter to one.
pub open spec fn is_root(v: Single) -> bool {
    let one = crate::near::one();
    v.finite() && one <= 4 * v.signed() && v.signed() <= one
}

/// A distance from white, scaled up and down again.
proof fn lemma_scaled_back(x: Single, y: Single, n: u64)
    requires
        is_root(x),
        is_root(y),
        1 <= n <= 500,
    ensures
        ({
            let d = Single::whole(n).times(x.minus(y)).over(Single::whole(n));
            let e = crate::near::slip();
            &&& d.finite()
            &&& -(5 * e) <= d.signed() - (x.signed() - y.signed()) <= 5 * e
        }),
{
    let c = crate::near::one();
    let e = crate::near::slip();
    crate::near::lemma_sizes();
    crate::near::lemma_whole(n);
    crate::near::lemma_difference(x, y, 1);
    let d = x.minus(y);
    let dv = d.signed();
    assert(-(n * c * c) - n * c * c <= n * c * dv <= 2 * n * c * c) by (nonlinear_arith)
        requires
            -(2 * c) <= dv <= 2 * c,
            n >= 1,
            c > 0,
    ;
    assert(-(2 * n * c * c) == -(n * c * c) - n * c * c) by (nonlinear_arith);
    crate::near::lemma_product(Single::whole(n), d, 2 * n);
    let p = Single::whole(n).times(d);
    let pv = p.signed();
    let f = pv - n * dv;
    assert(-(2 * n * e) <= f <= 2 * n * e) by (nonlinear_arith)
        requires
            f == pv - n * dv,
            -(2 * n * e * c) <= pv * c - n * c * dv <= 2 * n * e * c,
            c > 0,
    ;
    assert(-(n * c) <= n * c && n * c > 0 && -(2 * (n * c)) <= pv <= 2 * (n * c)) by (nonlinear_arith)
        requires
            f == pv - n * dv,
            -(2 * n * e) <= f <= 2 * n * e,
            -(c + e) <= dv <= c + e,
            n >= 1,
            c == e * 0x80_0000,
            e > 0,
    ;
    crate::near::lemma_quotient(p, Single::whole(n), 2);
    let q = p.over(Single::whole(n)).signed();
    let g = q * n - pv;
    assert(-(2 * e * n) <= g <= 2 * e * n) by (nonlinear_arith)
        requires
            g == q * n - pv,
            -(2 * e * (n * c)) <= q * (n * c) - pv * c <= 2 * e * (n * c),
            c > 0,
    ;
    assert(-(4 * e) <= q - dv <= 4 * e) by (nonlinear_arith)
        requires
            f == pv - n * dv,
            g == q * n - pv,
            -(2 * n * e) <= f <= 2 * n * e,
            -(2 * e * n) <= g <= 2 * e * n,
            n >= 1,
    ;
}

/// The cube of a number that lies near a root.
proof fn lemma_cube(t: Single, f: Single)
    requires
        is_root(f),
        t.finite(),
        -(20 * crate::near::slip()) <= t.signed() - f.signed() <= 20 * crate::near::slip(),
    ensures
        ({
            let r = crate::color::lab_f_inv(t);
            let (c, e) = (crate::near::one(), crate::near::slip());
            &&& r.finite()
            &&& 0 <= r.signed() <= 2 * c
            &&& -(100 * (e * (c * c))) <= r.signed() * (c * c) - cubed(f.signed()) <= 100 * (e * (c
                * c))
        }),
{
    let c = crate::near::one();
    let e = crate::near::slip();
    crate::near::lemma_sizes();
    let (tv, fv) = (t.signed(), f.signed());
    let cc = c * c;
    assert(0 <= tv * tv <= 2 * c * c) by (nonlinear_arith)
        requires
            0 <= tv <= c + 20 * e,
            c == e * 0x80_0000,
            e > 0,
    ;
    crate::near::lemma_product(t, t, 2);
    crate::near::lemma_product_not_below(t, t);
    let s = t.times(t);
    let sv = s.signed();
    let k1 = sv * c - tv * tv;
    assert(2 * sv <= 3 * c) by (nonlinear_arith)
        requires
            k1 == sv * c - tv * tv,
            k1 <= 2 * e * c,
            0 <= tv <= c + 20 * e,
            c == e * 0x80_0000,
            e > 0,
    ;
    assert(0 <= sv * tv <= 3 * c * c) by (nonlinear_arith)
        requires
            0 <= sv <= 2 * c,
            0 <= tv <= c + 20 * e,
            c == e * 0x80_0000,
            e > 0,
    ;
    crate::near::lemma_product(s, t, 3);
    crate::near::lemma_product_not_below(s, t);
    let r = s.times(t);
    let rv = r.signed();
    let k2 = rv * c - sv * tv;
    let ec = e * cc;
    assert(cc > 0) by (nonlinear_arith)
        requires
            cc == c * c,
            c > 0,
    ;
    // r·one² against t³, and t³ against f³.
    assert(rv * cc - tv * tv * tv == k2 * c + k1 * tv) by {
        assert(k2 * c == rv * cc - sv * tv * c) by (nonlinear_arith)
            requires
                k2 == rv * c - sv * tv,
                cc == c * c,
        ;
        assert(k1 * tv == sv * tv * c - tv * tv * tv) by (nonlinear_arith)
            requires
                k1 == sv * c - tv * tv,
        ;
    }
    assert(-(3 * ec) <= k2 * c <= 3 * ec) by (nonlinear_arith)
        requires
            -(3 * e * c) <= k2 <= 3 * e * c,
            ec == e * cc,
            cc == c * c,
            c > 0,
    ;
    assert(-(3 * ec) <= k1 * tv <= 3 * ec) by {
        crate::near::lemma_bounded(k1, 2 * e * c, tv, c + 20 * e);
        assert(2 * e * c * (c + 20 * e) <= 3 * ec) by (nonlinear_arith)
            requires
                ec == e * cc,
                cc == c * c,
                c == e * 0x80_0000,
                e > 0,
        ;
    }
    let h = tv - fv;
    let w = tv * tv + tv * fv + fv * fv;
    assert(tv * tv * tv - cubed(fv) == h * w) by {
        assert(h * w == tv * w - fv * w) by (nonlinear_arith)
            requires
                h == tv - fv,
        ;
        assert(tv * w == tv * tv * tv + tv * tv * fv + tv * fv * fv) by (nonlinear_arith)
            requires
                w == tv * tv + tv * fv + fv * fv,
        ;
        assert(fv * w == tv * tv * fv + tv * fv * fv + fv * fv * fv) by (nonlinear_arith)
            requires
                w == tv * tv + tv * fv + fv * fv,
        ;
    }
    assert(0 <= w <= 4 * cc) by (nonlinear_arith)
        requires
            w == tv * tv + tv * fv + fv * fv,
            0 <= tv <= c + 20 * e,
            0 <= fv <= c,
            cc == c * c,
            c == e * 0x80_0000,
            e > 0,
    ;
    crate::near::lemma_bounded(h, 20 * e, w, 4 * cc);
    assert(20 * e * (4 * cc) == 80 * ec) by (nonlinear_arith)
        requires
            ec == e * cc,
    ;
    // It is above the straight part.
    assert(100 * rv > c) by {
        let z = fv * fv * fv;
        assert(64 * z >= c * cc) by (nonlinear_arith)
            requires
                z == fv * fv * fv,
                4 * fv >= c,
                cc == c * c,
                c > 0,
        ;
        assert(z == cubed(fv));
        assert(100 * rv > c) by (nonlinear_arith)
            requires
                rv * cc >= z - 86 * ec,
                64 * z >= c * cc,
                ec == e * cc,
                c == e * 0x80_0000,
                e > 0,
                cc > 0,
        ;
    }
    let eps = crate::color::lab_eps();
    crate::near::lemma_ratio(216, 24_389, 1);
    crate::single::order_is_by_value(eps, r);
    assert(rv <= 2 * c) by (nonlinear_arith)
        requires
            k2 == rv * c - sv * tv,
            k2 <= 3 * e * c,
            0 <= sv,
            2 * sv <= 3 * c,
            0 <= tv <= c + 20 * e,
            c == e * 0x80_0000,
            e > 0,
    ;
}

/// Lab keeps what it is made of: the values that it is read back to are the cubes of the three
/// compressed ones, each times its part of white.
pub proof fn lab_reads_back(f: Triple)
    requires
        is_root(f.a),
        is_root(f.b),
        is_root(f.c),
    ensures
        ({
            let r = crate::color::from_lab(crate::color::lab_of(f));
            let one = crate::near::one();
            let ooo = cubed(one);
            &&& r.a.finite() && r.b.finite() && r.c.finite()
            &&& -(2 * ooo) <= 100_000 * (r.a.signed() * (one * one)) - 95_047 * cubed(f.a.signed())
                <= 2 * ooo
            &&& -ooo <= 1_000 * (r.b.signed() * (one * one) - cubed(f.b.signed())) <= ooo
            &&& -(2 * ooo) <= 100_000 * (r.c.signed() * (one * one)) - 108_883 * cubed(f.c.signed())
                <= 2 * ooo
        }),
{
    let c = crate::near::one();
    let e = crate::near::slip();
    crate::near::lemma_sizes();
    crate::near::lemma_whole(1);
    crate::near::lemma_whole(16);
    crate::near::lemma_whole(116);
    let (fx, fy, fz) = (f.a, f.b, f.c);
    let yv = fy.signed();
    // Lightness, there and back.
    assert(0 <= 116 * c * yv <= 116 * c * c) by (nonlinear_arith)
        requires
            0 <= yv <= c,
            c > 0,
    ;
    crate::near::lemma_product(Single::whole(116), fy, 116);
    let p = Single::whole(116).times(fy);
    let pv = p.signed();
    assert(-(116 * e) <= pv - 116 * yv <= 116 * e) by (nonlinear_arith)
        requires
            -(116 * e * c) <= pv * c - 116 * c * yv <= 116 * e * c,
            c > 0,
    ;
    crate::near::lemma_difference(p, Single::whole(16), 117);
    let l = p.minus(Single::whole(16));
    crate::near::lemma_sum(l, Single::whole(16), 117);
    let s = l.plus(Single::whole(16));
    let sv = s.signed();
    crate::near::lemma_quotient(s, Single::whole(116), 2);
    let y2 = s.over(Single::whole(116));
    let y2v = y2.signed();
    assert(-(232 * e) <= 116 * y2v - sv <= 232 * e) by (nonlinear_arith)
        requires
            -(2 * e * (116 * c)) <= y2v * (116 * c) - sv * c <= 2 * e * (116 * c),
            c > 0,
    ;
    assert(-(6 * e) <= y2v - yv <= 6 * e);
    // The other two.
    lemma_scaled_back(fx, fy, 500);
    lemma_scaled_back(fy, fz, 200);
    let b = Single::whole(500).times(fx.minus(fy)).over(Single::whole(500));
    let g = Single::whole(200).times(fy.minus(fz)).over(Single::whole(200));
    crate::near::lemma_sum(y2, b, 2);
    crate::near::lemma_difference(y2, g, 2);
    lemma_cube(y2, fy);
    lemma_cube(y2.plus(b), fx);
    lemma_cube(y2.minus(g), fz);
    // Their parts of white.
    let (x1, y1, z1) = (
        crate::color::lab_f_inv(y2.plus(b)),
        crate::color::lab_f_inv(y2),
        crate::color::lab_f_inv(y2.minus(g)),
    );
    crate::near::lemma_once(Single::whole(1), y1);
    crate::near::lemma_once(Single::whole(1), Single::whole(1));
    lemma_white_part(x1, 95_047, cubed(fx.signed()));
    lemma_white_part(z1, 108_883, cubed(fz.signed()));
    let cc = c * c;
    assert(cubed(c) == 0x80_0000 * (e * cc) && e * cc > 0) by (nonlinear_arith)
        requires
            cubed(c) == c * c * c,
            cc == c * c,
            c == e * 0x80_0000,
            e > 0,
    ;
}

proof fn lemma_white_part(v: Single, n: u32, cube: int)
    requires
        v.finite(),
        0 <= v.signed() <= 2 * crate::near::one(),
        90_000 <= n <= 110_000,
        ({
            let (c, e) = (crate::near::one(), crate::near::slip());
            -(100 * (e * (c * c))) <= v.signed() * (c * c) - cube <= 100 * (e * (c * c))
        }),
    ensures
        ({
            let r = v.times(Single::ratio(n, 100_000));
            let c = crate::near::one();
            &&& r.finite()
            &&& -(2 * cubed(c)) <= 100_000 * (r.signed() * (c * c)) - n * cube <= 2 * cubed(c)
        }),
{
    let c = crate::near::one();
    let e = crate::near::slip();
    crate::near::lemma_sizes();
    crate::near::lemma_ratio(n, 100_000, 2);
    let w = Single::ratio(n, 100_000);
    let (wv, vv) = (w.signed(), v.signed());
    assert(n * c <= 110_000 * c) by (nonlinear_arith)
        requires
            n <= 110_000,
            c > 0,
    ;
    assert(0 <= wv <= 2 * c);
    assert(0 <= vv * wv <= 4 * c * c) by (nonlinear_arith)
        requires
            0 <= vv <= 2 * c,
            0 <= wv <= 2 * c,
    ;
    crate::near::lemma_product(v, w, 4);
    let r = v.times(w).signed();
    let k = r * c - vv * wv;
    let q = wv * 100_000 - n * c;
    let cc = c * c;
    let ec = e * cc;
    let h = vv * cc - cube;
    let off = 100_000 * (r * cc) - n * cube;
    assert(off == 100_000 * (k * c) + q * vv * c + n * h) by {
        assert(k * c == r * cc - vv * wv * c) by (nonlinear_arith)
            requires
                k == r * c - vv * wv,
                cc == c * c,
        ;
        assert(q * vv * c == 100_000 * (vv * wv * c) - n * (vv * cc)) by (nonlinear_arith)
            requires
                q == wv * 100_000 - n * c,
                cc == c * c,
        ;
        assert(n * h == n * (vv * cc) - n * cube) by (nonlinear_arith)
            requires
                h == vv * cc - cube,
        ;
    }
    assert(-(4 * ec) <= k * c <= 4 * ec) by (nonlinear_arith)
        requires
            -(4 * e * c) <= k <= 4 * e * c,
            ec == e * cc,
            cc == c * c,
            c > 0,
    ;
    crate::near::lemma_bounded(q, 200_000 * e, vv, 2 * c);
    assert(200_000 * e * (2 * c) == 400_000 * (e * c)) by (nonlinear_arith);
    assert(-(400_000 * ec) <= q * vv * c <= 400_000 * ec) by (nonlinear_arith)
        requires
            -(400_000 * (e * c)) <= q * vv <= 400_000 * (e * c),
            ec == e * cc,
            cc == c * c,
            c > 0,
    ;
    assert(-(11_000_000 * ec) <= n * h <= 11_000_000 * ec) by (nonlinear_arith)
        requires
            -(100 * ec) <= h <= 100 * ec,
            0 <= n <= 110_000,
            ec >= 0,
    ;
    assert(cubed(c) == 0x80_0000 * ec && ec > 0) by (nonlinear_arith)
        requires
            cubed(c) == c * c * c,
            ec == e * cc,
            cc == c * c,
            c == e * 0x80_0000,
            e > 0,
    ;
}

/// A colour of three equal compressed values has no colour in Lab.
pub proof fn neutrals_have_no_colour(f: Triple)
    requires
        is_root(f.a),
        f.a == f.b,
        f.b == f.c,
    ensures
        crate::color::lab_of(f).b.finite(),
        crate::color::lab_of(f).b.signed() == 0,
        crate::color::lab_of(f).c.finite(),
        crate::color::lab_of(f).c.signed() == 0,
{
    crate::near::lemma_sizes();
    crate::near::lemma_whole(0);
    crate::near::lemma_whole(500);
    crate::near::lemma_whole(200);
    crate::near::lemma_exact_difference(f.a, f.b, Single::whole(0));
    let d = f.a.minus(f.b);
    crate::near::lemma_none(d, Single::whole(500));
    crate::near::lemma_none(d, Single::whole(200));
}

/// A weight of ten-millionths.
pub open spec fn weighs(w: Single, n: int) -> bool {
    let one = crate::near::one();
    &&& w.finite()
    &&& -(5 * one) <= w.signed() <= 5 * one
    &&& -(4 * one) <= 10_000_000 * w.signed() - n * one <= 4 * one
}

proof fn lemma_weighs(n: u32)
    requires
        n <= 20_000_000,
    ensures
        weighs(Single::ratio(n, 10_000_000), n as int),
        weighs(Single::ratio(n, 10_000_000).neg(), -(n as int)),
        Single::ratio(n, 10_000_000).signed() >= 0,
{
    let c = crate::near::one();
    crate::near::lemma_sizes();
    crate::near::lemma_ratio(n, 10_000_000, 2);
    crate::single::lemma_opposite(Single::ratio(n, 10_000_000));
    assert(0 <= n * c <= 20_000_000 * c) by (nonlinear_arith)
        requires
            n <= 20_000_000,
            c > 0,
    ;
    let m = -(n as int);
    assert(m * c == -(n * c)) by (nonlinear_arith)
        requires
            m == -n,
    ;
}

/// Weights that are given by their bits.
proof fn lemma_weighs_by_bits()
    ensures
        weighs(Single { bits: 0x404f_639a }, 32_404_542),
        weighs(Single { bits: 0x3ff0_211f }, 18_760_108),
{
    lemma2_to64();
    lemma_held_bits(Single { bits: 0x404f_639a }, 127, 13_591_450, 22, 4_194_304, 32_404_542);
    lemma_held_bits(Single { bits: 0x3ff0_211f }, 126, 15_737_119, 23, 8_388_608, 18_760_108);
}

/// A term of a mix.
proof fn lemma_weighed(w: Single, n: int, v: Single)
    requires
        weighs(w, n),
        v.finite(),
        -(3 * crate::near::one()) <= v.signed() <= 3 * crate::near::one(),
    ensures
        w.times(v).finite(),
        -(16 * crate::near::one()) <= w.times(v).signed() <= 16 * crate::near::one(),
        -(31 * crate::near::one()) <= 10_000_000 * w.times(v).signed() - n * v.signed() <= 31
            * crate::near::one(),
{
    let c = crate::near::one();
    let e = crate::near::slip();
    crate::near::lemma_sizes();
    let (wv, x) = (w.signed(), v.signed());
    crate::near::lemma_bounded(wv, 5 * c, x, 3 * c);
    assert(5 * c * (3 * c) == 15 * c * c) by (nonlinear_arith);
    crate::near::lemma_product(w, v, 15);
    let r = w.times(v).signed();
    let k = r * c - wv * x;
    let q = 10_000_000 * wv - n * c;
    crate::near::lemma_bounded(q, 4 * c, x, 3 * c);
    let off = 10_000_000 * r - n * x;
    assert(off * c == 10_000_000 * k + q * x) by {
        assert(q * x == 10_000_000 * (wv * x) - n * x * c) by (nonlinear_arith)
            requires
                q == 10_000_000 * wv - n * c,
        ;
        assert(off * c == 10_000_000 * (r * c) - n * x * c) by (nonlinear_arith)
            requires
                off == 10_000_000 * r - n * x,
        ;
    }
    assert(15 * e * c == 15 * (e * c) && c * c == 0x80_0000 * (e * c) && 31 * c * c == 31 * (c * c) && 4
        * c * (3 * c) == 12 * (c * c) && e * c > 0) by (nonlinear_arith)
        requires
            c == e * 0x80_0000,
            e > 0,
    ;
    crate::near::lemma_divided(off, 31 * c, c);
    assert(r <= 16 * c && r >= -(16 * c)) by (nonlinear_arith)
        requires
            k == r * c - wv * x,
            -(15 * e * c) <= k <= 15 * e * c,
            -(15 * c * c) <= wv * x <= 15 * c * c,
            c == e * 0x80_0000,
            e > 0,
    ;
}

/// Colours from zero to one.
pub open spec fn is_colour(v: Triple) -> bool {
    let one = crate::near::one();
    &&& v.a.finite() && 0 <= v.a.signed() <= one
    &&& v.b.finite() && 0 <= v.b.signed() <= one
    &&& v.c.finite() && 0 <= v.c.signed() <= one
}

proof fn lemma_mixed(n0: u32, n1: u32, n2: u32, v: Triple)
    requires
        is_colour(v),
        n0 <= 10_000_000,
        n1 <= 10_000_000,
        n2 <= 10_000_000,
        n0 + n1 + n2 <= 11_000_000,
    ensures
        ({
            let x = crate::color::mix(
                Single::ratio(n0, 10_000_000),
                Single::ratio(n1, 10_000_000),
                Single::ratio(n2, 10_000_000),
                v,
            );
            let one = crate::near::one();
            &&& x.finite()
            &&& 0 <= x.signed() <= 2 * one
            &&& -(150 * one) <= 10_000_000 * x.signed() - (n0 * v.a.signed() + n1 * v.b.signed() + n2
                * v.c.signed()) <= 150 * one
        }),
{
    let c = crate::near::one();
    let e = crate::near::slip();
    crate::near::lemma_sizes();
    lemma_weighs(n0);
    lemma_weighs(n1);
    lemma_weighs(n2);
    let (w0, w1, w2) = (
        Single::ratio(n0, 10_000_000),
        Single::ratio(n1, 10_000_000),
        Single::ratio(n2, 10_000_000),
    );
    lemma_weighed(w0, n0 as int, v.a);
    lemma_weighed(w1, n1 as int, v.b);
    lemma_weighed(w2, n2 as int, v.c);
    let (x, y, z) = (w0.times(v.a), w1.times(v.b), w2.times(v.c));
    crate::near::lemma_product_not_below(w0, v.a);
    crate::near::lemma_product_not_below(w1, v.b);
    crate::near::lemma_product_not_below(w2, v.c);
    assert(n0 * v.a.signed() <= n0 * c && n1 * v.b.signed() <= n1 * c && n2 * v.c.signed() <= n2 * c
        && n0 * c + n1 * c + n2 * c <= 11_000_000 * c && n0 * c >= 0 && n1 * c >= 0 && n2 * c >= 0)
        by (nonlinear_arith)
        requires
            v.a.signed() <= c,
            v.b.signed() <= c,
            v.c.signed() <= c,
            n0 + n1 + n2 <= 11_000_000,
            n0 >= 0,
            n1 >= 0,
            n2 >= 0,
            c > 0,
    ;
    crate::near::lemma_sum(x, y, 2);
    crate::near::lemma_sum_not_below(x, y);
    crate::near::lemma_sum(x.plus(y), z, 2);
    crate::near::lemma_sum_not_below(x.plus(y), z);
}

/// Linear colours taken to XYZ and back are themselves.
pub proof fn xyz_is_taken_back(v: Triple)
    requires
        is_colour(v),
    ensures
        ({
            let r = crate::color::to_rgb(crate::color::to_xyz(v));
            let one = crate::near::one();
            &&& r.a.finite() && -one <= 10_000 * (r.a.signed() - v.a.signed()) <= one
            &&& r.b.finite() && -one <= 10_000 * (r.b.signed() - v.b.signed()) <= one
            &&& r.c.finite() && -one <= 10_000 * (r.c.signed() - v.c.signed()) <= one
        }),
{
    let c = crate::near::one();
    let e = crate::near::slip();
    crate::near::lemma_sizes();
    lemma_mixed(4_124_564, 3_575_761, 1_804_375, v);
    lemma_mixed(2_126_729, 7_151_522, 721_750, v);
    lemma_mixed(193_339, 1_191_920, 9_503_041, v);
    let t = crate::color::to_xyz(v);
    lemma_weighs_by_bits();
    lemma_weighs(15_371_385);
    lemma_weighs(4_985_314);
    lemma_weighs(9_692_660);
    lemma_weighs(415_560);
    lemma_weighs(556_434);
    lemma_weighs(2_040_259);
    lemma_weighs(10_572_252);
    let w0 = Single { bits: 0x404f_639a };
    let w1 = Single::ratio(15_371_385, 10_000_000);
    let w2 = Single::ratio(4_985_314, 10_000_000);
    lemma_weighed(w0, 32_404_542, t.a);
    lemma_weighed(w1, 15_371_385, t.b);
    lemma_weighed(w2, 4_985_314, t.c);
    crate::near::lemma_difference(w0.times(t.a), w1.times(t.b), 32);
    crate::near::lemma_difference(w0.times(t.a).minus(w1.times(t.b)), w2.times(t.c), 49);
    let w3 = Single::ratio(9_692_660, 10_000_000).neg();
    let w4 = Single { bits: 0x3ff0_211f };
    let w5 = Single::ratio(415_560, 10_000_000);
    lemma_weighed(w3, -9_692_660, t.a);
    lemma_weighed(w4, 18_760_108, t.b);
    lemma_weighed(w5, 415_560, t.c);
    crate::near::lemma_sum(w3.times(t.a), w4.times(t.b), 32);
    crate::near::lemma_sum(w3.times(t.a).plus(w4.times(t.b)), w5.times(t.c), 49);
    let w6 = Single::ratio(556_434, 10_000_000);
    let w7 = Single::ratio(2_040_259, 10_000_000);
    let w8 = Single::ratio(10_572_252, 10_000_000);
    lemma_weighed(w6, 556_434, t.a);
    lemma_weighed(w7, 2_040_259, t.b);
    lemma_weighed(w8, 10_572_252, t.c);
    crate::near::lemma_difference(w6.times(t.a), w7.times(t.b), 32);
    crate::near::lemma_sum(w6.times(t.a).minus(w7.times(t.b)), w8.times(t.c), 49);
}

/// A weight of so many bits is one of so many ten-millionths.
proof fn lemma_held_bits(w: Single, e: nat, m: nat, shift: nat, two: nat, n: int)
    requires
        w.finite(),
        w.exp() == e,
        w.mant() == m,
        w.negative() == (n < 0),
        e + shift == 149,
        pow2(shift) == two,
        m <= 5 * two,
        n >= 0 ==> -(4 * two) <= 10_000_000 * m - n * two <= 4 * two,
        n < 0 ==> -(4 * two) <= 10_000_000 * m + n * two <= 4 * two,
    ensures
        weighs(w, n),
{
    crate::near::lemma_sizes();
    lemma_pow2_adds(e, shift);
    lemma_pow2_pos(e);
    let c = crate::near::one();
    let p = pow2(e) as int;
    assert(c == p * two);
    let u = w.units() as int;
    assert(u == m * p);
    assert(0 <= u <= 5 * c) by (nonlinear_arith)
        requires
            u == m * p,
            c == p * two,
            0 <= m <= 5 * two,
            p > 0,
    ;
    if n >= 0 {
        assert(-(4 * c) <= 10_000_000 * u - n * c <= 4 * c) by (nonlinear_arith)
            requires
                u == m * p,
                c == p * two,
                -(4 * two) <= 10_000_000 * m - n * two <= 4 * two,
                p > 0,
        ;
    } else {
        assert(-(4 * c) <= 10_000_000 * (-u) - n * c <= 4 * c) by (nonlinear_arith)
            requires
                u == m * p,
                c == p * two,
                -(4 * two) <= 10_000_000 * m + n * two <= 4 * two,
                p > 0,
        ;
    }
}

proof fn lemma_cones_weigh()
    ensures
        weighs(Single { bits: 0x3ed3_0eb1 }, 4_122_215),
        weighs(Single { bits: 0x3f09_4d17 }, 5_363_325),
        weighs(Single { bits: 0x3d52_b909 }, 514_460),
        weighs(Single { bits: 0x3e58_fd3b }, 2_119_035),
        weighs(Single { bits: 0x3f2e_4253 }, 6_806_995),
        weighs(Single { bits: 0x3ddb_f2f0 }, 1_073_970),
        weighs(Single { bits: 0x3db4_d7ec }, 883_025),
        weighs(Single { bits: 0x3e90_3d74 }, 2_817_188),
        weighs(Single { bits: 0x3f21_4649 }, 6_299_787),
{
    lemma2_to64();
    lemma2_to64_rest();
    lemma_held_bits(Single { bits: 0x3ed3_0eb1 }, 124, 13_831_857, 25, 33_554_432, 4_122_215);
    lemma_held_bits(Single { bits: 0x3f09_4d17 }, 125, 8_998_167, 24, 16_777_216, 5_363_325);
    lemma_held_bits(Single { bits: 0x3d52_b909 }, 121, 13_809_929, 28, 268_435_456, 514_460);
    lemma_held_bits(Single { bits: 0x3e58_fd3b }, 123, 14_220_603, 26, 67_108_864, 2_119_035);
    lemma_held_bits(Single { bits: 0x3f2e_4253 }, 125, 11_420_243, 24, 16_777_216, 6_806_995);
    lemma_held_bits(Single { bits: 0x3ddb_f2f0 }, 122, 14_414_576, 27, 134_217_728, 1_073_970);
    lemma_held_bits(Single { bits: 0x3db4_d7ec }, 122, 11_851_756, 27, 134_217_728, 883_025);
    lemma_held_bits(Single { bits: 0x3e90_3d74 }, 124, 9_452_916, 25, 33_554_432, 2_817_188);
    lemma_held_bits(Single { bits: 0x3f21_4649 }, 125, 10_569_289, 24, 16_777_216, 6_299_787);
}

proof fn lemma_lab_weigh()
    ensures
        weighs(Single { bits: 0x3e57_8152 }, 2_104_543),
        weighs(Single { bits: 0x3f4b_2a89 }, 7_936_178),
        weighs(Single { bits: 0x3b85_6ece }, 40_720),
        weighs(Single { bits: 0x3ffd_2f0e }, 19_779_985),
        weighs(Single { bits: 0x401b_6e0e }, 24_285_922),
        weighs(Single { bits: 0x3ee6_b438 }, 4_505_937),
        weighs(Single { bits: 0x3cd4_34b4 }, 259_040),
        weighs(Single { bits: 0x3f48_63bb }, 7_827_718),
        weighs(Single { bits: 0x3f4f_0560 }, 8_086_758),
{
    lemma2_to64();
    lemma2_to64_rest();
    lemma_held_bits(Single { bits: 0x3e57_8152 }, 123, 14_123_346, 26, 67_108_864, 2_104_543);
    lemma_held_bits(Single { bits: 0x3f4b_2a89 }, 125, 13_314_697, 24, 16_777_216, 7_936_178);
    lemma_held_bits(Single { bits: 0x3b85_6ece }, 118, 8_744_654, 31, 2_147_483_648, 40_720);
    lemma_held_bits(Single { bits: 0x3ffd_2f0e }, 126, 16_592_654, 23, 8_388_608, 19_779_985);
    lemma_held_bits(Single { bits: 0x401b_6e0e }, 127, 10_186_254, 22, 4_194_304, 24_285_922);
    lemma_held_bits(Single { bits: 0x3ee6_b438 }, 124, 15_119_416, 25, 33_554_432, 4_505_937);
    lemma_held_bits(Single { bits: 0x3cd4_34b4 }, 120, 13_907_124, 29, 536_870_912, 259_040);
    lemma_held_bits(Single { bits: 0x3f48_63bb }, 125, 13_132_731, 24, 16_777_216, 7_827_718);
    lemma_held_bits(Single { bits: 0x3f4f_0560 }, 125, 13_567_328, 24, 16_777_216, 8_086_758);
}

proof fn lemma_cubes_weigh()
    ensures
        weighs(Single { bits: 0x3eca_ecc9 }, 3_963_378),
        weighs(Single { bits: 0x3e5c_fba9 }, 2_158_038),
        weighs(Single { bits: 0x3dd8_308c }, 1_055_613),
        weighs(Single { bits: 0x3d82_c5fa }, 638_542),
        weighs(Single { bits: 0x3db7_437b }, 894_842),
        weighs(Single { bits: 0x3fa5_4f66 }, 12_914_855),
{
    lemma2_to64();
    lemma2_to64_rest();
    lemma_held_bits(Single { bits: 0x3eca_ecc9 }, 124, 13_298_889, 25, 33_554_432, 3_963_378);
    lemma_held_bits(Single { bits: 0x3e5c_fba9 }, 123, 14_482_345, 26, 67_108_864, 2_158_038);
    lemma_held_bits(Single { bits: 0x3dd8_308c }, 122, 14_168_204, 27, 134_217_728, 1_055_613);
    lemma_held_bits(Single { bits: 0x3d82_c5fa }, 122, 8_570_362, 27, 134_217_728, 638_542);
    lemma_held_bits(Single { bits: 0x3db7_437b }, 122, 12_010_363, 27, 134_217_728, 894_842);
    lemma_held_bits(Single { bits: 0x3fa5_4f66 }, 126, 10_833_766, 23, 8_388_608, 12_914_855);
}

proof fn lemma_back_weigh()
    ensures
        weighs(Single { bits: 0x4082_74ab }, 40_767_417),
        weighs(Single { bits: 0x4053_b18c }, 33_077_116),
        weighs(Single { bits: 0x3e6c_8362 }, 2_309_699),
        weighs(Single { bits: 0xbfa2_5c2d }, -12_684_380),
        weighs(Single { bits: 0x4027_0644 }, 26_097_574),
        weighs(Single { bits: 0x3eae_c16a }, 3_413_194),
        weighs(Single { bits: 0xbb89_7f53 }, -41_961),
        weighs(Single { bits: 0x3f34_133e }, 7_034_186),
        weighs(Single { bits: 0x3fda_931e }, 17_076_147),
{
    lemma2_to64();
    lemma2_to64_rest();
    lemma_held_bits(Single { bits: 0x4082_74ab }, 128, 8_549_547, 21, 2_097_152, 40_767_417);
    lemma_held_bits(Single { bits: 0x4053_b18c }, 127, 13_873_548, 22, 4_194_304, 33_077_116);
    lemma_held_bits(Single { bits: 0x3e6c_8362 }, 123, 15_500_130, 26, 67_108_864, 2_309_699);
    lemma_held_bits(Single { bits: 0xbfa2_5c2d }, 126, 10_640_429, 23, 8_388_608, -12_684_380);
    lemma_held_bits(Single { bits: 0x4027_0644 }, 127, 10_946_116, 22, 4_194_304, 26_097_574);
    lemma_held_bits(Single { bits: 0x3eae_c16a }, 124, 11_452_778, 25, 33_554_432, 3_413_194);
    lemma_held_bits(Single { bits: 0xbb89_7f53 }, 118, 9_011_027, 31, 2_147_483_648, -41_961);
    lemma_held_bits(Single { bits: 0x3f34_133e }, 125, 11_801_406, 24, 16_777_216, 7_034_186);
    lemma_held_bits(Single { bits: 0x3fda_931e }, 126, 14_324_510, 23, 8_388_608, 17_076_147);
}

/// A number from zero to one whose cube is taken.
pub open spec fn is_unit(v: Single) -> bool {
    v.finite() && 0 <= v.signed() <= crate::near::one()
}

/// The cube of a number that lies near another.
proof fn lemma_cube_near(t: Single, f: Single)
    requires
        is_unit(f),
        t.finite(),
        -crate::near::one() <= 10_000 * (t.signed() - f.signed()) <= crate::near::one(),
    ensures
        ({
            let r = t.times(t).times(t);
            let c = crate::near::one();
            &&& r.finite()
            &&& -c <= r.signed() <= 2 * c
            &&& -cubed(c) <= 3_000 * (r.signed() * (c * c) - cubed(f.signed())) <= cubed(c)
        }),
{
    let c = crate::near::one();
    let e = crate::near::slip();
    crate::near::lemma_sizes();
    let (tv, fv) = (t.signed(), f.signed());
    let cc = c * c;
    let b = c + c / 10_000;
    assert(-b <= tv <= b);
    assert(cc > 0 && 10_000 * (c / 10_000) <= c) by (nonlinear_arith)
        requires
            cc == c * c,
            c > 0,
    ;
    crate::near::lemma_bounded(tv, b, tv, b);
    assert(b * b <= 2 * c * c) by (nonlinear_arith)
        requires
            0 <= 10_000 * b <= 10_001 * c,
            c > 0,
    ;
    crate::near::lemma_product(t, t, 2);
    let s = t.times(t);
    let sv = s.signed();
    let k1 = sv * c - tv * tv;
    assert(0 <= tv * tv) by (nonlinear_arith);
    assert(-(2 * c) <= 2 * sv && 2 * sv <= 3 * c) by (nonlinear_arith)
        requires
            k1 == sv * c - tv * tv,
            -(2 * e * c) <= k1 <= 2 * e * c,
            -(b * b) <= tv * tv <= b * b,
            0 <= tv * tv,
            0 <= 10_000 * b <= 10_001 * c,
            c == e * 0x80_0000,
            e > 0,
    ;
    crate::near::lemma_bounded(sv, 2 * c, tv, b);
    assert(2 * c * b <= 3 * c * c) by (nonlinear_arith)
        requires
            0 <= 10_000 * b <= 10_001 * c,
            c > 0,
    ;
    crate::near::lemma_product(s, t, 3);
    let r = s.times(t);
    let rv = r.signed();
    let k2 = rv * c - sv * tv;
    let ec = e * cc;
    assert(rv * cc - tv * tv * tv == k2 * c + k1 * tv) by {
        assert(k2 * c == rv * cc - sv * tv * c) by (nonlinear_arith)
            requires
                k2 == rv * c - sv * tv,
                cc == c * c,
        ;
        assert(k1 * tv == sv * tv * c - tv * tv * tv) by (nonlinear_arith)
            requires
                k1 == sv * c - tv * tv,
        ;
    }
    assert(-(3 * ec) <= k2 * c <= 3 * ec) by (nonlinear_arith)
        requires
            -(3 * e * c) <= k2 <= 3 * e * c,
            ec == e * cc,
            cc == c * c,
            c > 0,
    ;
    crate::near::lemma_bounded(k1, 2 * e * c, tv, b);
    assert(2 * e * c * b <= 3 * ec) by (nonlinear_arith)
        requires
            ec == e * cc,
            cc == c * c,
            0 <= 10_000 * b <= 10_001 * c,
            c > 0,
            e > 0,
    ;
    let h = tv - fv;
    let w = tv * tv + tv * fv + fv * fv;
    assert(tv * tv * tv - cubed(fv) == h * w) by {
        assert(h * w == tv * w - fv * w) by (nonlinear_arith)
            requires
                h == tv - fv,
        ;
        assert(tv * w == tv * tv * tv + tv * tv * fv + tv * fv * fv) by (nonlinear_arith)
            requires
                w == tv * tv + tv * fv + fv * fv,
        ;
        assert(fv * w == tv * tv * fv + tv * fv * fv + fv * fv * fv) by (nonlinear_arith)
            requires
                w == tv * tv + tv * fv + fv * fv,
        ;
    }
    crate::near::lemma_bounded(tv, b, fv, c);
    assert(0 <= fv * fv <= cc) by (nonlinear_arith)
        requires
            0 <= fv <= c,
            cc == c * c,
    ;
    assert(b * b + b * c + cc <= 3 * cc + cc / 1_000) by {
        assert(1_000_000 * (b * b) <= 1_000_300 * cc && 10_000 * (b * c) <= 10_001 * cc)
            by (nonlinear_arith)
            requires
                0 <= 10_000 * b <= 10_001 * c,
                cc == c * c,
                c > 0,
        ;
    }
    let wb = 3 * cc + cc / 1_000;
    assert(-wb <= w <= wb);
    crate::near::lemma_bounded(10_000 * h, c, w, wb);
    let ccc = cc * c;
    assert(cubed(c) == ccc && ccc == 0x80_0000 * ec && ec > 0) by (nonlinear_arith)
        requires
            cubed(c) == c * c * c,
            ccc == cc * c,
            ec == e * cc,
            cc == c * c,
            c == e * 0x80_0000,
            e > 0,
    ;
    assert(10_000 * h * w == 10_000 * (h * w)) by (nonlinear_arith);
    assert(c * wb <= 3 * ccc + ccc / 900) by {
        assert(1_000 * (c * wb) <= 3_001 * ccc) by (nonlinear_arith)
            requires
                1_000 * wb <= 3_001 * cc,
                ccc == cc * c,
                c > 0,
        ;
    }
    assert(0 <= fv * fv * fv <= ccc) by (nonlinear_arith)
        requires
            0 <= fv * fv <= cc,
            0 <= fv <= c,
            ccc == cc * c,
    ;
    assert(cubed(fv) == fv * fv * fv);
    assert(rv <= 2 * c && rv >= -c) by (nonlinear_arith)
        requires
            3_000 * (rv * cc - cubed(fv)) <= ccc,
            3_000 * (rv * cc - cubed(fv)) >= -ccc,
            0 <= cubed(fv) <= ccc,
            ccc == cc * c,
            cc > 0,
            c > 0,
    {
        assert(3_000 * (rv * cc) <= 3_001 * (cc * c));
    }
}

/// The three numbers of OkLab, by the roots that they are made of.
pub open spec fn made_of(lab: Triple, f: Triple) -> bool {
    let one = crate::near::one();
    &&& lab.a.finite() && -(3 * one) <= lab.a.signed() <= 3 * one
    &&& lab.b.finite() && -(3 * one) <= lab.b.signed() <= 3 * one
    &&& lab.c.finite() && -(3 * one) <= lab.c.signed() <= 3 * one
    &&& -(200 * one) <= 10_000_000 * lab.a.signed() - (2_104_543 * f.a.signed() + 7_936_178 * f.b.signed() - 40_720 * f.c.signed()) <= 200 * one
    &&& -(200 * one) <= 10_000_000 * lab.b.signed() - (19_779_985 * f.a.signed() - 24_285_922 * f.b.signed() + 4_505_937 * f.c.signed()) <= 200 * one
    &&& -(200 * one) <= 10_000_000 * lab.c.signed() - (259_040 * f.a.signed() + 7_827_718 * f.b.signed() - 8_086_758 * f.c.signed()) <= 200 * one
}

proof fn lemma_lightness(f: Triple)
    requires
        is_unit(f.a),
        is_unit(f.b),
        is_unit(f.c),
    ensures
        ({
            let lab = crate::bujack::oklab_from(f);
            let one = crate::near::one();
            &&& lab.a.finite() && -(3 * one) <= lab.a.signed() <= 3 * one
            &&& -(200 * one) <= 10_000_000 * lab.a.signed() - (2_104_543 * f.a.signed() + 7_936_178 * f.b.signed() - 40_720 * f.c.signed()) <= 200 * one
        }),
{
    crate::near::lemma_sizes();
    lemma_lab_weigh();
    lemma_weighed(Single { bits: 0x3e57_8152 }, 2_104_543, f.a);
    lemma_weighed(Single { bits: 0x3f4b_2a89 }, 7_936_178, f.b);
    lemma_weighed(Single { bits: 0x3b85_6ece }, 40_720, f.c);
    crate::near::lemma_sum(Single { bits: 0x3e57_8152 }.times(f.a), Single { bits: 0x3f4b_2a89 }.times(f.b), 32);
    crate::near::lemma_difference(Single { bits: 0x3e57_8152 }.times(f.a).plus(Single { bits: 0x3f4b_2a89 }.times(f.b)), Single { bits: 0x3b85_6ece }.times(f.c), 49);
}

proof fn lemma_first_colour(f: Triple)
    requires
        is_unit(f.a),
        is_unit(f.b),
        is_unit(f.c),
    ensures
        ({
            let lab = crate::bujack::oklab_from(f);
            let one = crate::near::one();
            &&& lab.b.finite() && -(3 * one) <= lab.b.signed() <= 3 * one
            &&& -(200 * one) <= 10_000_000 * lab.b.signed() - (19_779_985 * f.a.signed() - 24_285_922 * f.b.signed() + 4_505_937 * f.c.signed()) <= 200 * one
        }),
{
    crate::near::lemma_sizes();
    lemma_lab_weigh();
    lemma_weighed(Single { bits: 0x3ffd_2f0e }, 19_779_985, f.a);
    lemma_weighed(Single { bits: 0x401b_6e0e }, 24_285_922, f.b);
    lemma_weighed(Single { bits: 0x3ee6_b438 }, 4_505_937, f.c);
    crate::near::lemma_difference(Single { bits: 0x3ffd_2f0e }.times(f.a), Single { bits: 0x401b_6e0e }.times(f.b), 32);
    crate::near::lemma_sum(Single { bits: 0x3ffd_2f0e }.times(f.a).minus(Single { bits: 0x401b_6e0e }.times(f.b)), Single { bits: 0x3ee6_b438 }.times(f.c), 49);
}

proof fn lemma_second_colour(f: Triple)
    requires
        is_unit(f.a),
        is_unit(f.b),
        is_unit(f.c),
    ensures
        ({
            let lab = crate::bujack::oklab_from(f);
            let one = crate::near::one();
            &&& lab.c.finite() && -(3 * one) <= lab.c.signed() <= 3 * one
            &&& -(200 * one) <= 10_000_000 * lab.c.signed() - (259_040 * f.a.signed() + 7_827_718 * f.b.signed() - 8_086_758 * f.c.signed()) <= 200 * one
        }),
{
    crate::near::lemma_sizes();
    lemma_lab_weigh();
    lemma_weighed(Single { bits: 0x3cd4_34b4 }, 259_040, f.a);
    lemma_weighed(Single { bits: 0x3f48_63bb }, 7_827_718, f.b);
    lemma_weighed(Single { bits: 0x3f4f_0560 }, 8_086_758, f.c);
    crate::near::lemma_sum(Single { bits: 0x3cd4_34b4 }.times(f.a), Single { bits: 0x3f48_63bb }.times(f.b), 32);
    crate::near::lemma_difference(Single { bits: 0x3cd4_34b4 }.times(f.a).plus(Single { bits: 0x3f48_63bb }.times(f.b)), Single { bits: 0x3f4f_0560 }.times(f.c), 49);
}

proof fn lemma_oklab_parts(f: Triple)
    requires
        is_unit(f.a),
        is_unit(f.b),
        is_unit(f.c),
    ensures
        made_of(crate::bujack::oklab_from(f), f),
{
    lemma_lightness(f);
    lemma_first_colour(f);
    lemma_second_colour(f);
}

proof fn lemma_first_root(lab: Triple, f: Triple)
    requires
        is_unit(f.a),
        is_unit(f.b),
        is_unit(f.c),
        made_of(lab, f),
    ensures
        ({
            let r = crate::bujack::cubes(lab).a;
            let c = crate::near::one();
            &&& r.finite() && -c <= r.signed() <= 2 * c
            &&& -cubed(c) <= 3_000 * (r.signed() * (c * c) - cubed(f.a.signed())) <= cubed(c)
        }),
{
    crate::near::lemma_sizes();
    lemma_cubes_weigh();
    lemma_weighed(Single { bits: 0x3eca_ecc9 }, 3_963_378, lab.b);
    lemma_weighed(Single { bits: 0x3e5c_fba9 }, 2_158_038, lab.c);
    crate::near::lemma_sum(lab.a, Single { bits: 0x3eca_ecc9 }.times(lab.b), 19);
    crate::near::lemma_sum(lab.a.plus(Single { bits: 0x3eca_ecc9 }.times(lab.b)), Single { bits: 0x3e5c_fba9 }.times(lab.c), 36);
    lemma_cube_near(lab.a.plus(Single { bits: 0x3eca_ecc9 }.times(lab.b)).plus(Single { bits: 0x3e5c_fba9 }.times(lab.c)), f.a);
}

proof fn lemma_second_root(lab: Triple, f: Triple)
    requires
        is_unit(f.a),
        is_unit(f.b),
        is_unit(f.c),
        made_of(lab, f),
    ensures
        ({
            let r = crate::bujack::cubes(lab).b;
            let c = crate::near::one();
            &&& r.finite() && -c <= r.signed() <= 2 * c
            &&& -cubed(c) <= 3_000 * (r.signed() * (c * c) - cubed(f.b.signed())) <= cubed(c)
        }),
{
    crate::near::lemma_sizes();
    lemma_cubes_weigh();
    lemma_weighed(Single { bits: 0x3dd8_308c }, 1_055_613, lab.b);
    lemma_weighed(Single { bits: 0x3d82_c5fa }, 638_542, lab.c);
    crate::near::lemma_difference(lab.a, Single { bits: 0x3dd8_308c }.times(lab.b), 19);
    crate::near::lemma_difference(lab.a.minus(Single { bits: 0x3dd8_308c }.times(lab.b)), Single { bits: 0x3d82_c5fa }.times(lab.c), 36);
    lemma_cube_near(lab.a.minus(Single { bits: 0x3dd8_308c }.times(lab.b)).minus(Single { bits: 0x3d82_c5fa }.times(lab.c)), f.b);
}

proof fn lemma_third_root(lab: Triple, f: Triple)
    requires
        is_unit(f.a),
        is_unit(f.b),
        is_unit(f.c),
        made_of(lab, f),
    ensures
        ({
            let r = crate::bujack::cubes(lab).c;
            let c = crate::near::one();
            &&& r.finite() && -c <= r.signed() <= 2 * c
            &&& -cubed(c) <= 3_000 * (r.signed() * (c * c) - cubed(f.c.signed())) <= cubed(c)
        }),
{
    crate::near::lemma_sizes();
    lemma_cubes_weigh();
    lemma_weighed(Single { bits: 0x3db7_437b }, 894_842, lab.b);
    lemma_weighed(Single { bits: 0x3fa5_4f66 }, 12_914_855, lab.c);
    crate::near::lemma_difference(lab.a, Single { bits: 0x3db7_437b }.times(lab.b), 19);
    crate::near::lemma_difference(lab.a.minus(Single { bits: 0x3db7_437b }.times(lab.b)), Single { bits: 0x3fa5_4f66 }.times(lab.c), 36);
    lemma_cube_near(lab.a.minus(Single { bits: 0x3db7_437b }.times(lab.b)).minus(Single { bits: 0x3fa5_4f66 }.times(lab.c)), f.c);
}

proof fn lemma_three_roots(f: Triple)
    requires
        is_unit(f.a),
        is_unit(f.b),
        is_unit(f.c),
    ensures
        ({
            let r = crate::bujack::cubes(crate::bujack::oklab_from(f));
            let c = crate::near::one();
            &&& r.a.finite() && -c <= r.a.signed() <= 2 * c
            &&& r.b.finite() && -c <= r.b.signed() <= 2 * c
            &&& r.c.finite() && -c <= r.c.signed() <= 2 * c
            &&& -cubed(c) <= 3_000 * (r.a.signed() * (c * c) - cubed(f.a.signed())) <= cubed(c)
            &&& -cubed(c) <= 3_000 * (r.b.signed() * (c * c) - cubed(f.b.signed())) <= cubed(c)
            &&& -cubed(c) <= 3_000 * (r.c.signed() * (c * c) - cubed(f.c.signed())) <= cubed(c)
        }),
{
    let lab = crate::bujack::oklab_from(f);
    lemma_oklab_parts(f);
    lemma_first_root(lab, f);
    lemma_second_root(lab, f);
    lemma_third_root(lab, f);
}

/// `f` is a cube root of `v`, to a hundred-thousandth.
pub open spec fn roots(f: Single, v: Single) -> bool {
    let one = crate::near::one();
    &&& is_unit(f)
    &&& v.finite()
    &&& -cubed(one) <= 100_000 * (cubed(f.signed()) - v.signed() * (one * one)) <= cubed(one)
}

proof fn lemma_near_root(f: Single, v: Single, u: int)
    requires
        roots(f, v),
        -cubed(crate::near::one()) <= 3_000 * (u * (crate::near::one() * crate::near::one())
            - cubed(f.signed())) <= cubed(crate::near::one()),
    ensures
        -crate::near::one() <= 2_900 * (u - v.signed()) <= crate::near::one(),
{
    let c = crate::near::one();
    crate::near::lemma_sizes();
    let cc = c * c;
    let x = v.signed();
    assert(cubed(c) == cc * c && cc > 0) by (nonlinear_arith)
        requires
            cubed(c) == c * c * c,
            cc == c * c,
            c > 0,
    ;
    let d = u * cc - x * cc;
    assert(-(cc * c) <= 2_900 * d <= cc * c);
    assert(-c <= 2_900 * (u - x) <= c) by (nonlinear_arith)
        requires
            d == u * cc - x * cc,
            -(cc * c) <= 2_900 * d <= cc * c,
            cc > 0,
    ;
}

/// A linear colour taken to OkLab and back is itself, where the roots are.
pub proof fn oklab_is_taken_back(v: Triple, f: Triple)
    requires
        is_colour(v),
        roots(f.a, crate::bujack::cones(v).a),
        roots(f.b, crate::bujack::cones(v).b),
        roots(f.c, crate::bujack::cones(v).c),
    ensures
        ({
            let r = crate::bujack::from_oklab(crate::bujack::oklab_from(f));
            let one = crate::near::one();
            &&& r.a.finite() && -one <= 200 * (r.a.signed() - v.a.signed()) <= one
            &&& r.b.finite() && -one <= 200 * (r.b.signed() - v.b.signed()) <= one
            &&& r.c.finite() && -one <= 200 * (r.c.signed() - v.c.signed()) <= one
        }),
{
    let c = crate::near::one();
    let e = crate::near::slip();
    crate::near::lemma_sizes();
    lemma_three_roots(f);
    let u = crate::bujack::cubes(crate::bujack::oklab_from(f));
    let w = crate::bujack::cones(v);
    lemma_near_root(f.a, w.a, u.a.signed());
    lemma_near_root(f.b, w.b, u.b.signed());
    lemma_near_root(f.c, w.c, u.c.signed());
    lemma_cones_weigh();
    lemma_back_weigh();
    lemma_weighed(Single { bits: 0x3ed3_0eb1 }, 4_122_215, v.a);
    lemma_weighed(Single { bits: 0x3f09_4d17 }, 5_363_325, v.b);
    lemma_weighed(Single { bits: 0x3d52_b909 }, 514_460, v.c);
    crate::near::lemma_sum(Single { bits: 0x3ed3_0eb1 }.times(v.a), Single { bits: 0x3f09_4d17 }.times(v.b), 32);
    crate::near::lemma_sum(Single { bits: 0x3ed3_0eb1 }.times(v.a).plus(Single { bits: 0x3f09_4d17 }.times(v.b)), Single { bits: 0x3d52_b909 }.times(v.c), 49);
    lemma_weighed(Single { bits: 0x3e58_fd3b }, 2_119_035, v.a);
    lemma_weighed(Single { bits: 0x3f2e_4253 }, 6_806_995, v.b);
    lemma_weighed(Single { bits: 0x3ddb_f2f0 }, 1_073_970, v.c);
    crate::near::lemma_sum(Single { bits: 0x3e58_fd3b }.times(v.a), Single { bits: 0x3f2e_4253 }.times(v.b), 32);
    crate::near::lemma_sum(Single { bits: 0x3e58_fd3b }.times(v.a).plus(Single { bits: 0x3f2e_4253 }.times(v.b)), Single { bits: 0x3ddb_f2f0 }.times(v.c), 49);
    lemma_weighed(Single { bits: 0x3db4_d7ec }, 883_025, v.a);
    lemma_weighed(Single { bits: 0x3e90_3d74 }, 2_817_188, v.b);
    lemma_weighed(Single { bits: 0x3f21_4649 }, 6_299_787, v.c);
    crate::near::lemma_sum(Single { bits: 0x3db4_d7ec }.times(v.a), Single { bits: 0x3e90_3d74 }.times(v.b), 32);
    crate::near::lemma_sum(Single { bits: 0x3db4_d7ec }.times(v.a).plus(Single { bits: 0x3e90_3d74 }.times(v.b)), Single { bits: 0x3f21_4649 }.times(v.c), 49);
    lemma_weighed(Single { bits: 0x4082_74ab }, 40_767_417, u.a);
    lemma_weighed(Single { bits: 0x4053_b18c }, 33_077_116, u.b);
    lemma_weighed(Single { bits: 0x3e6c_8362 }, 2_309_699, u.c);
    crate::near::lemma_difference(Single { bits: 0x4082_74ab }.times(u.a), Single { bits: 0x4053_b18c }.times(u.b), 32);
    crate::near::lemma_sum(Single { bits: 0x4082_74ab }.times(u.a).minus(Single { bits: 0x4053_b18c }.times(u.b)), Single { bits: 0x3e6c_8362 }.times(u.c), 49);
    lemma_weighed(Single { bits: 0xbfa2_5c2d }, -12_684_380, u.a);
    lemma_weighed(Single { bits: 0x4027_0644 }, 26_097_574, u.b);
    lemma_weighed(Single { bits: 0x3eae_c16a }, 3_413_194, u.c);
    crate::near::lemma_sum(Single { bits: 0xbfa2_5c2d }.times(u.a), Single { bits: 0x4027_0644 }.times(u.b), 32);
    crate::near::lemma_difference(Single { bits: 0xbfa2_5c2d }.times(u.a).plus(Single { bits: 0x4027_0644 }.times(u.b)), Single { bits: 0x3eae_c16a }.times(u.c), 49);
    lemma_weighed(Single { bits: 0xbb89_7f53 }, -41_961, u.a);
    lemma_weighed(Single { bits: 0x3f34_133e }, 7_034_186, u.b);
    lemma_weighed(Single { bits: 0x3fda_931e }, 17_076_147, u.c);
    crate::near::lemma_difference(Single { bits: 0xbb89_7f53 }.times(u.a), Single { bits: 0x3f34_133e }.times(u.b), 32);
    crate::near::lemma_sum(Single { bits: 0xbb89_7f53 }.times(u.a).minus(Single { bits: 0x3f34_133e }.times(u.b)), Single { bits: 0x3fda_931e }.times(u.c), 49);
}

/// A neutral has no colour in OkLab: three equal roots give their lightness alone.
pub proof fn oklab_of_neutrals_has_no_colour(f: Triple)
    requires
        is_unit(f.a),
        f.a == f.b,
        f.b == f.c,
    ensures
        ({
            let lab = crate::bujack::oklab_from(f);
            let one = crate::near::one();
            &&& lab.a.finite() && -one <= 10_000 * (lab.a.signed() - f.a.signed()) <= one
            &&& lab.b.finite() && -one <= 10_000 * lab.b.signed() <= one
            &&& lab.c.finite() && -one <= 10_000 * lab.c.signed() <= one
        }),
{
    let c = crate::near::one();
    let e = crate::near::slip();
    crate::near::lemma_sizes();
    lemma_oklab_parts(f);
}

proof fn lemma_kept(v: Single, lum: Single)
    requires
        is_unit(v),
    ensures
        crate::bujack::kept_for(v, lum, Single::whole(1)) == Single::whole(1),
{
    crate::near::lemma_sizes();
    crate::near::lemma_whole(0);
    crate::near::lemma_whole(1);
    crate::single::order_is_by_value(Single::whole(1), v);
    crate::single::order_is_by_value(v, Single::whole(0));
}

proof fn lemma_pulled_by_nothing(v: Single, lum: Single)
    requires
        is_unit(v),
        is_unit(lum),
    ensures
        ({
            let r = lum.plus(v.minus(lum).times(Single::whole(1)));
            &&& r.finite()
            &&& -(4 * crate::near::slip()) <= r.signed() - v.signed() <= 4 * crate::near::slip()
        }),
{
    crate::near::lemma_sizes();
    crate::near::lemma_whole(1);
    crate::near::lemma_difference(v, lum, 1);
    crate::near::lemma_once(Single::whole(1), v.minus(lum));
    crate::near::lemma_sum(lum, v.minus(lum).times(Single::whole(1)), 2);
}

/// A colour that fits the gamut is left where it is.
pub proof fn colours_of_the_gamut_are_kept(v: Triple)
    requires
        is_colour(v),
    ensures
        ({
            let r = crate::bujack::clipped(v);
            let e = crate::near::slip();
            &&& r.a.finite() && -(4 * e) <= r.a.signed() - v.a.signed() <= 4 * e
            &&& r.b.finite() && -(4 * e) <= r.b.signed() - v.b.signed() <= 4 * e
            &&& r.c.finite() && -(4 * e) <= r.c.signed() - v.c.signed() <= 4 * e
        }),
{
    crate::near::lemma_sizes();
    crate::near::lemma_whole(0);
    crate::near::lemma_whole(1);
    let lum = crate::bujack::luminance(v);
    let sum = Single::ratio(2126, 10_000).times(v.a).plus(
        Single::ratio(7152, 10_000).times(v.b),
    ).plus(Single::ratio(722, 10_000).times(v.c));
    crate::colour_laws::lemma_luma(v.a, v.b, v.c);
    assert(sum == crate::curve::luma(v.a, v.b, v.c));
    crate::near::lemma_held(sum, Single::whole(0), Single::whole(1));
    assert(is_unit(lum));
    lemma_kept(v.a, lum);
    lemma_kept(v.b, lum);
    lemma_kept(v.c, lum);
    let one = Single::whole(1);
    crate::near::lemma_held(one, Single::whole(0), one);
    crate::near::lemma_unique(one.clamp(Single::whole(0), one), one);
    lemma_pulled_by_nothing(v.a, lum);
    lemma_pulled_by_nothing(v.b, lum);
    lemma_pulled_by_nothing(v.c, lum);
}

/// A colour is pulled to the luminance that it has: green counts most, blue least.
pub proof fn colours_are_pulled_to_their_luminance(v: Triple)
    requires
        is_colour(v),
    ensures
        ({
            let l = crate::bujack::luminance(v);
            let one = crate::near::one();
            &&& l.finite()
            &&& 0 <= l.signed() <= one
            &&& -one <= 8 * (10_000 * l.signed() - (2_126 * v.a.signed() + 7_152 * v.b.signed() + 722
                * v.c.signed())) <= one
        }),
{
    crate::near::lemma_sizes();
    crate::near::lemma_whole(0);
    crate::near::lemma_whole(1);
    crate::colour_laws::lemma_luma(v.a, v.b, v.c);
    let sum = crate::curve::luma(v.a, v.b, v.c);
    crate::near::lemma_held(sum, Single::whole(0), Single::whole(1));
    assert(crate::bujack::luminance(v) == sum.clamp(Single::whole(0), Single::whole(1)));
}

} // verus!
