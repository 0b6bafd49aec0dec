//! What the scores of crops and the curves of histograms show.

use vstd::prelude::*;
use crate::crop_score::Parts;
use crate::options::Rect;
use crate::single::Single;
use crate::view::UvRect;

verus! {

/// Edges on the picture, from zero to one each way.
pub open spec fn on_the_picture(p: Parts) -> bool {
    let one = crate::near::one();
    &&& p.left.finite() && 0 <= p.left.signed() <= one
    &&& p.top.finite() && 0 <= p.top.signed() <= one
    &&& p.right.finite() && 0 <= p.right.signed() <= one
    &&& p.bottom.finite() && 0 <= p.bottom.signed() <= one
}

/// The way from one place to another, none where it leads back.
pub open spec fn way(from: int, to: int) -> int {
    if to > from {
        to - from
    } else {
        0
    }
}

/// The area of a rectangle, in squared units.
pub open spec fn true_area(p: Parts) -> int {
    way(p.left.signed(), p.right.signed()) * way(p.top.signed(), p.bottom.signed())
}

/// What two rectangles share of a side, in units.
pub open spec fn shared_way(a0: Single, a1: Single, b0: Single, b1: Single) -> int {
    way(
        if a0.signed() > b0.signed() {
            a0.signed()
        } else {
            b0.signed()
        },
        if a1.signed() < b1.signed() {
            a1.signed()
        } else {
            b1.signed()
        },
    )
}

/// What two rectangles share, in squared units.
pub open spec fn shared_area(a: Parts, b: Parts) -> int {
    shared_way(a.left, a.right, b.left, b.right) * shared_way(a.top, a.bottom, b.top, b.bottom)
}

proof fn lemma_area(left: Single, top: Single, right: Single, bottom: Single)
    requires
        left.finite() && 0 <= left.signed() <= crate::near::one(),
        top.finite() && 0 <= top.signed() <= crate::near::one(),
        right.finite() && 0 <= right.signed() <= crate::near::one(),
        bottom.finite() && 0 <= bottom.signed() <= crate::near::one(),
    ensures
        ({
            let a = crate::crop_score::area_of(left, top, right, bottom);
            let p = way(left.signed(), right.signed()) * way(top.signed(), bottom.signed());
            let (c, e) = (crate::near::one(), crate::near::slip());
            &&& a.finite()
            &&& 0 <= a.signed()
            &&& -(5 * (e * c)) <= a.signed() * c - p <= 5 * (e * c)
            &&& 0 <= p <= c * c
        }),
{
    let c = crate::near::one();
    let e = crate::near::slip();
    crate::near::lemma_sizes();
    crate::near::lemma_whole(0);
    crate::near::lemma_difference(right, left, 1);
    crate::near::lemma_difference(bottom, top, 1);
    crate::near::lemma_smaller_larger(right.minus(left), Single::whole(0));
    crate::near::lemma_smaller_larger(bottom.minus(top), Single::whole(0));
    let x = right.minus(left).larger(Single::whole(0));
    let y = bottom.minus(top).larger(Single::whole(0));
    let (xv, yv) = (x.signed(), y.signed());
    let u = way(left.signed(), right.signed());
    let v = way(top.signed(), bottom.signed());
    assert(0 <= xv <= c + e && 0 <= yv <= c + e && -e <= xv - u <= e && -e <= yv - v <= e);
    assert(0 <= xv * yv <= 2 * c * c) by (nonlinear_arith)
        requires
            0 <= xv <= c + e,
            0 <= yv <= c + e,
            c == e * 0x80_0000,
            e > 0,
    ;
    crate::near::lemma_product(x, y, 2);
    crate::near::lemma_product_not_below(x, y);
    let p = u * v;
    assert(0 <= p <= c * c) by (nonlinear_arith)
        requires
            p == u * v,
            0 <= u <= c,
            0 <= v <= c,
    ;
    let s = (xv - u) * yv;
    let t = (yv - v) * u;
    crate::near::lemma_bounded(xv - u, e, yv, c + e);
    crate::near::lemma_bounded(yv - v, e, u, c);
    assert(xv * yv - p == s + t) by (nonlinear_arith)
        requires
            p == u * v,
            s == (xv - u) * yv,
            t == (yv - v) * u,
    ;
    assert(e * (c + e) <= 2 * (e * c) && 2 * e * c == 2 * (e * c)) by (nonlinear_arith)
        requires
            c == e * 0x80_0000,
            e > 0,
    ;
}

/// The overlap of two rectangles is what they share as a part of what they cover together; it is
/// all of it for a rectangle and itself.
pub proof fn overlaps_are_shared_parts(a: Parts, b: Parts)
    requires
        on_the_picture(a),
        on_the_picture(b),
        100 * (true_area(a) + true_area(b) - shared_area(a, b)) >= crate::near::one()
            * crate::near::one(),
    ensures
        ({
            let r = crate::crop_score::overlap(a, b);
            let one = crate::near::one();
            let shared = shared_area(a, b);
            let all = true_area(a) + true_area(b) - shared;
            &&& r.finite()
            &&& -(all * one) <= 500 * (r.signed() * all - shared * one) <= all * one
        }),
{
    let c = crate::near::one();
    let e = crate::near::slip();
    crate::near::lemma_sizes();
    crate::near::lemma_smaller_larger(a.left, b.left);
    crate::near::lemma_smaller_larger(a.top, b.top);
    crate::near::lemma_smaller_larger(a.right, b.right);
    crate::near::lemma_smaller_larger(a.bottom, b.bottom);
    lemma_area(a.left, a.top, a.right, a.bottom);
    lemma_area(b.left, b.top, b.right, b.bottom);
    lemma_area(
        a.left.larger(b.left),
        a.top.larger(b.top),
        a.right.smaller(b.right),
        a.bottom.smaller(b.bottom),
    );
    let x = crate::crop_score::area_of(a.left, a.top, a.right, a.bottom);
    let y = crate::crop_score::area_of(b.left, b.top, b.right, b.bottom);
    let i = crate::crop_score::common(a, b);
    let (xv, yv, iv) = (x.signed(), y.signed(), i.signed());
    lemma_small(xv, true_area(a));
    lemma_small(yv, true_area(b));
    lemma_small(iv, shared_area(a, b));
    crate::near::lemma_sum(x, y, 3);
    crate::near::lemma_difference(x.plus(y), i, 4);
    let u = crate::crop_score::covered(a, b);
    let uv = u.signed();
    let all = true_area(a) + true_area(b) - shared_area(a, b);
    let k = uv - (xv + yv - iv);
    crate::near::lemma_bounded(k, 7 * e, c, c);
    assert(k * c == uv * c - xv * c - yv * c + iv * c) by (nonlinear_arith)
        requires
            k == uv - (xv + yv - iv),
    ;
    let ec = e * c;
    assert(7 * e * c == 7 * ec && c * c == 0x80_0000 * ec && ec > 0) by (nonlinear_arith)
        requires
            ec == e * c,
            c == e * 0x80_0000,
            e > 0,
    ;
    let f = uv * c - all;
    assert(-(22 * ec) <= f <= 22 * ec);
    // Something is covered.
    assert(200 * uv >= c) by (nonlinear_arith)
        requires
            uv * c >= all - 22 * ec,
            100 * all >= c * c,
            ec == e * c,
            c == e * 0x80_0000,
            e > 0,
    ;
    let tiny = Single::ratio(1, 1_000_000);
    crate::near::lemma_ratio(1, 1_000_000, 1);
    crate::single::order_is_by_value(u, tiny);
    // The quotient.
    let shared = shared_area(a, b);
    assert(shared <= true_area(a)) by {
        lemma_no_more(a, b);
    }
    assert(true_area(b) >= shared) by {
        lemma_no_more(b, a);
    }
    assert(iv <= 2 * uv) by (nonlinear_arith)
        requires
            iv * c <= shared + 5 * ec,
            uv * c >= all - 22 * ec,
            all >= shared,
            100 * all >= c * c,
            c * c == 0x80_0000 * ec,
            c > 0,
    ;
    crate::near::lemma_quotient(i, u, 2);
    let q = i.over(u).signed();
    assert(-(3 * c) <= q <= 3 * c) by (nonlinear_arith)
        requires
            -(2 * e * uv) <= q * uv - iv * c <= 2 * e * uv,
            0 <= iv <= 2 * uv,
            uv > 0,
            c == e * 0x80_0000,
            e > 0,
    ;
    let s = q * uv - iv * c;
    let g = iv * c - shared;
    let off = q * all - shared * c;
    assert(off == s * c - q * f + g * c) by {
        assert(s * c == q * uv * c - iv * c * c) by (nonlinear_arith)
            requires
                s == q * uv - iv * c,
        ;
        assert(q * f == q * uv * c - q * all) by (nonlinear_arith)
            requires
                f == uv * c - all,
        ;
        assert(g * c == iv * c * c - shared * c) by (nonlinear_arith)
            requires
                g == iv * c - shared,
        ;
    }
    crate::near::lemma_bounded(q, 3 * c, f, 22 * ec);
    assert(-(8 * (ec * c)) <= s * c <= 8 * (ec * c)) by (nonlinear_arith)
        requires
            -(2 * e * uv) <= s <= 2 * e * uv,
            0 <= uv <= 4 * c,
            ec == e * c,
            c > 0,
            e > 0,
    ;
    assert(-(5 * (ec * c)) <= g * c <= 5 * (ec * c)) by (nonlinear_arith)
        requires
            -(5 * ec) <= g <= 5 * ec,
            c > 0,
    ;
    assert(3 * c * (22 * ec) == 66 * (ec * c)) by (nonlinear_arith);
    assert(79 * (ec * c) * 500 <= all * c) by (nonlinear_arith)
        requires
            100 * all >= c * c,
            c * c == 0x80_0000 * ec,
            c > 0,
            ec > 0,
    ;
}

proof fn lemma_small(v: int, p: int)
    requires
        0 <= v,
        0 <= p <= crate::near::one() * crate::near::one(),
        v * crate::near::one() - p <= 5 * (crate::near::slip() * crate::near::one()),
    ensures
        v <= crate::near::one() + 5 * crate::near::slip(),
{
    crate::near::lemma_sizes();
    let c = crate::near::one();
    let e = crate::near::slip();
    assert(v <= c + 5 * e) by (nonlinear_arith)
        requires
            v * c <= c * c + 5 * (e * c),
            c > 0,
    ;
}

/// Nothing shares more with another than it has.
proof fn lemma_no_more(a: Parts, b: Parts)
    ensures
        0 <= shared_area(a, b) <= true_area(a),
{
    let (x, y) = (
        shared_way(a.left, a.right, b.left, b.right),
        shared_way(a.top, a.bottom, b.top, b.bottom),
    );
    let (u, v) = (
        way(a.left.signed(), a.right.signed()),
        way(a.top.signed(), a.bottom.signed()),
    );
    assert(0 <= x * y <= u * v) by (nonlinear_arith)
        requires
            0 <= x <= u,
            0 <= y <= v,
    ;
}

/// The edges of a rectangle are parts of the sides of the picture: left and right of its width,
/// top and bottom of its height.
pub proof fn edges_are_parts_of_the_sides(r: Rect, size: (u32, u32))
    requires
        0 < size.0 < 0x100_0000,
        0 < size.1 < 0x100_0000,
        r.x + r.width <= size.0,
        r.y + r.height <= size.1,
    ensures
        ({
            let p = crate::crop_score::parts_of(r, size);
            &&& is_part_of(p.left, r.x as int, size.0 as int)
            &&& is_part_of(p.right, r.x + r.width, size.0 as int)
            &&& is_part_of(p.top, r.y as int, size.1 as int)
            &&& is_part_of(p.bottom, r.y + r.height, size.1 as int)
        }),
{
    lemma_part_of(r.x as int, size.0);
    lemma_part_of(r.x + r.width, size.0);
    lemma_part_of(r.y as int, size.1);
    lemma_part_of(r.y + r.height, size.1);
}

/// `v` is a place as a part of a side.
pub open spec fn is_part_of(v: Single, at: int, side: int) -> bool {
    &&& v.finite()
    &&& -(crate::near::slip() * side) <= v.signed() * side - at * crate::near::one()
        <= crate::near::slip() * side
}

proof fn lemma_part_of(at: int, side: u32)
    requires
        0 <= at <= side,
        0 < side < 0x100_0000,
    ensures
        is_part_of(crate::crop_score::part_of(at, side), at, side as int),
{
    let c = crate::near::one();
    let e = crate::near::slip();
    crate::near::lemma_sizes();
    crate::near::lemma_whole(at as u64);
    crate::near::lemma_whole(side as u64);
    assert(0 <= at * c <= 1 * (side * c) && side * c > 0) by (nonlinear_arith)
        requires
            0 <= at <= side,
            side > 0,
            c > 0,
    ;
    crate::near::lemma_quotient(Single::whole(at as u64), Single::whole(side as u64), 1);
    let v = crate::crop_score::part_of(at, side).signed();
    assert(-(e * side) <= v * side - at * c <= e * side) by (nonlinear_arith)
        requires
            -(1 * e * (side * c)) <= v * (side * c) - at * c * c <= 1 * e * (side * c),
            c > 0,
    ;
}

/// An area of the screen that has room for a curve.
pub open spec fn has_room(area: UvRect) -> bool {
    let one = crate::near::one();
    &&& area.left.finite() && 0 <= area.left.signed() <= 0x1_0000 * one
    &&& area.right.finite() && 0 <= area.right.signed() <= 0x1_0000 * one
    &&& area.top.finite() && 0 <= area.top.signed() <= 0x1_0000 * one
    &&& area.bottom.finite() && 0 <= area.bottom.signed() <= 0x1_0000 * one
    &&& area.left.signed() + one <= area.right.signed()
    &&& area.top.signed() <= area.bottom.signed()
}

/// The curve of a histogram goes from the left of its area to the right, bin by bin; it stands
/// at the bottom where nothing is counted, at the top where the count fills the height or goes
/// beyond it, and in proportion between.
pub proof fn curves_are_drawn_in_proportion(count: u32, bin: int, scale: Single, area: UvRect)
    requires
        has_room(area),
        0 <= bin < 256,
        count < 0x100_0000,
        scale.finite(),
        crate::near::one() <= scale.signed() <= 0x100_0000 * crate::near::one(),
    ensures
        ({
            let p = crate::readout::curve_point(count, bin, scale, area);
            let one = crate::near::one();
            let (l, r) = (area.left.signed(), area.right.signed());
            let (t, b) = (area.top.signed(), area.bottom.signed());
            let s = scale.signed();
            let y = p.at.y.signed();
            &&& p.at.x.finite()
            &&& -(255 * one) <= 8 * (255 * p.at.x.signed() - (255 * l + bin * (r - l))) <= 255 * one
            &&& p.at.y.finite()
            &&& t <= y <= b
            &&& count * one <= s ==> -(s * one) <= 8 * ((b - y) * s - (b - t) * (count * one)) <= s
                * one
            &&& count * one >= s ==> 8 * (y - t) <= one
            &&& p.clipped ==> count * one >= s
            &&& 100 * (count * one) >= 101 * s ==> p.clipped
        }),
{
    let c = crate::near::one();
    let e = crate::near::slip();
    crate::near::lemma_sizes();
    crate::near::lemma_whole(1);
    crate::near::lemma_whole(255);
    crate::near::lemma_whole(bin as u64);
    crate::near::lemma_whole(count as u64);
    let (l, r) = (area.left.signed(), area.right.signed());
    let (t, b) = (area.top.signed(), area.bottom.signed());
    // Across.
    crate::near::lemma_difference(area.right, area.left, 0x1_0000);
    let d = area.right.minus(area.left);
    crate::near::lemma_smaller_larger(d, Single::whole(1));
    let w = d.larger(Single::whole(1));
    let wv = w.signed();
    assert(-(0x1_0000 * e) <= wv - (r - l) <= 0x1_0000 * e);
    assert(0 <= bin * c <= 1 * (255 * c)) by (nonlinear_arith)
        requires
            0 <= bin <= 255,
            c > 0,
    ;
    crate::near::lemma_quotient(Single::whole(bin as u64), Single::whole(255), 1);
    let f = Single::whole(bin as u64).over(Single::whole(255));
    let fv = f.signed();
    assert(-(255 * e) <= 255 * fv - bin * c <= 255 * e) by (nonlinear_arith)
        requires
            -(1 * e * (255 * c)) <= fv * (255 * c) - bin * c * c <= 1 * e * (255 * c),
            c > 0,
    ;
    assert(-e <= fv <= c + e);
    crate::near::lemma_bounded(fv, 2 * c, wv, 0x1_0001 * c);
    assert(2 * c * (0x1_0001 * c) == 0x2_0002 * c * c) by (nonlinear_arith);
    crate::near::lemma_product(f, w, 0x2_0002);
    let g = f.times(w);
    let gv = g.signed();
    let m = gv * c - fv * wv;
    let h = 255 * gv - bin * (r - l);
    assert(-(0x400_0000 * e) <= h <= 0x400_0000 * e) by {
        let p = 255 * fv - bin * c;
        let q = wv - (r - l);
        crate::near::lemma_bounded(p, 255 * e, wv, 0x1_0001 * c);
        assert(0 <= bin * c <= 255 * c);
        crate::near::lemma_bounded(bin * c, 255 * c, q, 0x1_0000 * e);
        assert(h * c == 255 * m + p * wv + bin * c * q) by {
            assert(p * wv == 255 * (fv * wv) - bin * c * wv) by (nonlinear_arith)
                requires
                    p == 255 * fv - bin * c,
            ;
            assert(bin * c * q == bin * c * wv - bin * (r - l) * c) by (nonlinear_arith)
                requires
                    q == wv - (r - l),
            ;
            assert(h * c == 255 * (gv * c) - bin * (r - l) * c) by (nonlinear_arith)
                requires
                    h == 255 * gv - bin * (r - l),
            ;
        }
        assert(0x2_0002 * e * c == 0x2_0002 * (e * c) && 255 * e * (0x1_0001 * c) == 0xff_00ff * (e
            * c) && 255 * c * (0x1_0000 * e) == 0xff_0000 * (e * c) && 0x400_0000 * e * c
            == 0x400_0000 * (e * c) && e * c > 0) by (nonlinear_arith)
            requires
                e > 0,
                c > 0,
        ;
        crate::near::lemma_divided(h, 0x400_0000 * e, c);
    }
    assert(-(0x8_0000 * c) <= 8 * gv <= 0x10_0000 * c) by {
        assert(0 <= bin * (r - l) <= 255 * (0x1_0000 * c)) by (nonlinear_arith)
            requires
                0 <= bin <= 255,
                0 <= r - l <= 0x1_0000 * c,
        ;
    }
    crate::near::lemma_sum(area.left, g, 0x4_0000);
    // Up.
    lemma_height(count, scale, area);
}

proof fn lemma_height(count: u32, scale: Single, area: UvRect)
    requires
        has_room(area),
        count < 0x100_0000,
        scale.finite(),
        crate::near::one() <= scale.signed() <= 0x100_0000 * crate::near::one(),
    ensures
        ({
            let raw = Single::whole(count as u64).over(scale);
            let one = crate::near::one();
            let y = area.bottom.minus(
                area.bottom.minus(area.top).times(raw.smaller(Single::whole(1))),
            ).clamp(area.top, area.bottom);
            let (t, b) = (area.top.signed(), area.bottom.signed());
            let s = scale.signed();
            &&& y.finite()
            &&& t <= y.signed() <= b
            &&& count * one <= s ==> -(s * one) <= 8 * ((b - y.signed()) * s - (b - t) * (count
                * one)) <= s * one
            &&& count * one >= s ==> 8 * (y.signed() - t) <= one
            &&& Single::whole(1).less(raw) ==> count * one >= s
            &&& 100 * (count * one) >= 101 * s ==> Single::whole(1).less(raw)
        }),
{
    let c = crate::near::one();
    let e = crate::near::slip();
    crate::near::lemma_sizes();
    crate::near::lemma_whole(1);
    crate::near::lemma_whole(count as u64);
    let (t, b) = (area.top.signed(), area.bottom.signed());
    let s = scale.signed();
    let n = count * c;
    let one = Single::whole(1);
    assert(0 <= n <= 0x100_0000 * c) by (nonlinear_arith)
        requires
            n == count * c,
            count < 0x100_0000,
            c > 0,
    ;
    assert(n <= 0x100_0000 * s);
    crate::near::lemma_quotient(Single::whole(count as u64), scale, 0x100_0000);
    let raw = Single::whole(count as u64).over(scale);
    let rv = raw.signed();
    crate::near::lemma_smaller_larger(raw, one);
    crate::single::order_is_by_value(one, raw);
    let m = raw.smaller(one);
    let mv = m.signed();
    assert(1 * c == c);
    lemma_raw(count, scale);
    crate::near::lemma_difference(area.bottom, area.top, 0x1_0000);
    let d = area.bottom.minus(area.top);
    let dv = d.signed();
    crate::near::lemma_bounded(dv, 0x1_0001 * c, mv, 2 * c);
    assert(0x1_0001 * c * (2 * c) == 0x2_0002 * c * c) by (nonlinear_arith);
    crate::near::lemma_product(d, m, 0x2_0002);
    let p = d.times(m);
    let pv = p.signed();
    let k = pv * c - dv * mv;
    assert(-(0x3_0000 * c) <= pv <= 0x3_0000 * c) by (nonlinear_arith)
        requires
            k == pv * c - dv * mv,
            -(0x2_0002 * e * c) <= k <= 0x2_0002 * e * c,
            -(0x2_0002 * c * c) <= dv * mv <= 0x2_0002 * c * c,
            c == e * 0x80_0000,
            e > 0,
    ;
    crate::near::lemma_difference(area.bottom, p, 0x5_0000);
    let z = area.bottom.minus(p);
    crate::near::lemma_held(z, area.top, area.bottom);
    let zv = z.signed();
    // How far it is down from the bottom, times one.
    let o = b - zv - pv;
    assert(-(0x5_0000 * e) <= o <= 0x5_0000 * e);
    let q = dv - (b - t);
    if n <= s {
        // m is count over scale.
        let x = mv * s - n * c;
        assert(-(2 * e * s) <= x <= 2 * e * s);
        let f = (b - zv) * s - (b - t) * n;
        assert(f * c == o * s * c + k * s + dv * x + q * n * c) by {
            assert(f * c == (b - zv) * s * c - (b - t) * n * c) by (nonlinear_arith)
                requires
                    f == (b - zv) * s - (b - t) * n,
            ;
            assert(o * s * c == (b - zv) * s * c - pv * s * c) by (nonlinear_arith)
                requires
                    o == b - zv - pv,
            ;
            assert(k * s == pv * s * c - dv * mv * s) by (nonlinear_arith)
                requires
                    k == pv * c - dv * mv,
            ;
            assert(dv * x == dv * mv * s - dv * n * c) by (nonlinear_arith)
                requires
                    x == mv * s - n * c,
            ;
            assert(q * n * c == dv * n * c - (b - t) * n * c) by (nonlinear_arith)
                requires
                    q == dv - (b - t),
            ;
        }
        let sec = s * e * c;
        assert(-(0x5_0000 * sec) <= o * s * c <= 0x5_0000 * sec) by (nonlinear_arith)
            requires
                -(0x5_0000 * e) <= o <= 0x5_0000 * e,
                sec == s * e * c,
                s > 0,
                c > 0,
        ;
        assert(-(0x2_0002 * sec) <= k * s <= 0x2_0002 * sec) by (nonlinear_arith)
            requires
                -(0x2_0002 * e * c) <= k <= 0x2_0002 * e * c,
                sec == s * e * c,
                s > 0,
        ;
        crate::near::lemma_bounded(dv, 0x1_0001 * c, x, 2 * e * s);
        assert(0x1_0001 * c * (2 * e * s) == 0x2_0002 * sec) by (nonlinear_arith)
            requires
                sec == s * e * c,
        ;
        assert(-(0x1_0000 * sec) <= q * n * c <= 0x1_0000 * sec) by (nonlinear_arith)
            requires
                -(0x1_0000 * e) <= q <= 0x1_0000 * e,
                0 <= n <= s,
                sec == s * e * c,
                c > 0,
                e > 0,
        ;
        assert(-(0xf_0000 * sec) <= f * c <= 0xf_0000 * sec);
        assert(-(s * c) <= 8 * f <= s * c) by (nonlinear_arith)
            requires
                -(0xf_0000 * sec) <= f * c <= 0xf_0000 * sec,
                sec == s * e * c,
                c == e * 0x80_0000,
                e > 0,
                s > 0,
        ;
        // Holding it on the area brings it no further off.
        lemma_held_height(zv, t, b, s, n);
    }
    if n >= s {
        assert(mv >= c - 2 * e);
        assert(dv * mv >= (b - t) * c - 0x4_0000 * (e * c)) by {
            let u = mv - c;
            crate::near::lemma_bounded(dv, 0x1_0001 * c, u, 2 * e);
            assert(dv * mv == dv * u + dv * c && 0x1_0001 * c * (2 * e) == 0x2_0002 * (e * c))
                by (nonlinear_arith)
                requires
                    u == mv - c,
            ;
            assert(dv * c >= (b - t) * c - 0x1_0000 * (e * c)) by (nonlinear_arith)
                requires
                    dv >= b - t - 0x1_0000 * e,
                    c > 0,
            ;
        }
        assert(pv >= b - t - 0x7_0000 * e) by (nonlinear_arith)
            requires
                pv * c >= (b - t) * c - 0x4_0000 * (e * c) - 0x2_0002 * e * c,
                c > 0,
                e > 0,
        ;
    }
}

proof fn lemma_held_height(z: int, t: int, b: int, s: int, n: int)
    requires
        t <= b,
        0 <= n <= s,
        s > 0,
        -(s * crate::near::one()) <= 8 * ((b - z) * s - (b - t) * n) <= s * crate::near::one(),
    ensures
        ({
            let y = if z < t {
                t
            } else if z > b {
                b
            } else {
                z
            };
            -(s * crate::near::one()) <= 8 * ((b - y) * s - (b - t) * n) <= s * crate::near::one()
        }),
{
    let c = crate::near::one();
    crate::near::lemma_sizes();
    assert(0 <= (b - t) * n <= (b - t) * s) by (nonlinear_arith)
        requires
            0 <= n <= s,
            t <= b,
    ;
    assert(s * c >= 0) by (nonlinear_arith)
        requires
            s > 0,
            c > 0,
    ;
    if z < t {
        assert((b - z) * s >= (b - t) * s) by (nonlinear_arith)
            requires
                z < t,
                s > 0,
        ;
    } else if z > b {
        assert((b - z) * s <= 0) by (nonlinear_arith)
            requires
                z > b,
                s > 0,
        ;
        assert((b - b) * s == 0);
    }
}

/// The count over the scale, against one.
proof fn lemma_raw(count: u32, scale: Single)
    requires
        count < 0x100_0000,
        scale.finite(),
        crate::near::one() <= scale.signed() <= 0x100_0000 * crate::near::one(),
    ensures
        ({
            let raw = Single::whole(count as u64).over(scale);
            let (c, e) = (crate::near::one(), crate::near::slip());
            let (n, s) = (count * c, scale.signed());
            &&& raw.finite()
            &&& 0 <= raw.signed()
            &&& n <= s ==> raw.signed() <= c && -(2 * e * s) <= raw.signed() * s - n * c <= 2 * e
                * s
            &&& n >= s ==> raw.signed() >= c
            &&& 100 * n >= 101 * s ==> raw.signed() > c
        }),
{
    let c = crate::near::one();
    let e = crate::near::slip();
    crate::near::lemma_sizes();
    crate::near::lemma_whole(count as u64);
    let a = Single::whole(count as u64);
    let (n, s) = (count * c, scale.signed());
    assert(0 <= n <= 0x100_0000 * c) by (nonlinear_arith)
        requires
            n == count * c,
            count < 0x100_0000,
            c > 0,
    ;
    crate::near::lemma_quotient(a, scale, 0x100_0000);
    let raw = a.over(scale);
    let p = vstd::arithmetic::power2::pow2(149);
    reveal(Single::over_spec);
    crate::single::lemma_units_positive(scale);
    crate::single::lemma_round_is_a_number(false, a.units() * p, scale.units());
    let one = Single::whole(1);
    crate::near::lemma_whole(1);
    crate::single::lemma_dyadic_exact(1, 149);
    if n <= s {
        crate::near::lemma_quotient(a, scale, 1);
        assert(1 * e * s <= 2 * e * s) by (nonlinear_arith)
            requires
                e > 0,
                s > 0,
        ;
        assert(a.units() * p * 1 <= (1 * p) * scale.units()) by (nonlinear_arith)
            requires
                a.units() <= scale.units(),
                p > 0,
        ;
        crate::single::lemma_round_monotone(a.units() * p, scale.units(), 1 * p, 1);
        let w = crate::single::round_units(false, 1 * p, 1);
        crate::single::lemma_units_monotone(raw, w);
    }
    if n >= s {
        assert((1 * p) * scale.units() <= a.units() * p * 1) by (nonlinear_arith)
            requires
                a.units() >= scale.units(),
                p > 0,
        ;
        crate::single::lemma_round_monotone(1 * p, 1, a.units() * p, scale.units());
        let w = crate::single::round_units(false, 1 * p, 1);
        crate::single::lemma_units_monotone(w, raw);
    }
    if 100 * n >= 101 * s {
        let d = scale.units();
        let m = a.units() * p;
        assert(m <= d * vstd::arithmetic::power2::pow2(270)) by (nonlinear_arith)
            requires
                m == a.units() * p,
                a.units() <= 0x100_0000 * d,
                vstd::arithmetic::power2::pow2(270) >= p * 0x1_0000_0000_0000_0000,
                d > 0,
                p > 0,
        ;
        crate::single::lemma_round_near(m, d);
        let u = raw.units();
        assert(u > p) by (nonlinear_arith)
            requires
                m * 0xff_ffff <= u * d * 0x100_0000 + 0x8000_0000_0000 * d,
                m == a.units() * p,
                100 * a.units() >= 101 * d,
                p >= 0x1_0000_0000_0000_0000 * 0x80_0000,
                d > 0,
        ;
    }
}

} // verus!
