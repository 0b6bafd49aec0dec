//! How pictures are shrunk, sampled and painted on.

use vstd::prelude::*;
use vstd::arithmetic::power2::*;
use crate::options::Rect;
use crate::single::Single;

verus! {

/// Pixel `p` of `n` covers the middle of pixel `i` of `m`, both spread over the same side, but
/// for a fiftieth of a pixel.
pub open spec fn covers_the_middle(p: int, n: int, i: int, m: int) -> bool {
    &&& 0 <= p < n
    &&& 50 * (m * p) <= 25 * ((2 * i + 1) * n) + m
    &&& 25 * ((2 * i + 1) * n) <= 50 * (m * (p + 1)) + m
}

proof fn lemma_and_a_half(i: u64)
    requires
        i < 0x40_0000,
    ensures
        Single::whole(i).plus(Single::ratio(1, 2)).finite(),
        2 * Single::whole(i).plus(Single::ratio(1, 2)).signed() == (2 * i + 1)
            * crate::near::one(),
{
    crate::near::lemma_sizes();
    crate::near::lemma_whole(i);
    lemma2_to64();
    let c = pow2(149);
    let h = Single { bits: 0x3f00_0000 };
    assert(h.exp() == 125 && h.mant() == 0x80_0000 && !h.negative());
    lemma_pow2_adds(23, 125);
    lemma_pow2_unfold(149);
    crate::single::lemma_ratio_bounds(1, 2, h, h);
    let t = Single::ratio(1, 2);
    assert(t.mag() == h.mag());
    crate::single::lemma_units_monotone(t, h);
    assert(2 * t.signed() == c);
    let m = (2 * i + 1) as nat;
    crate::single::lemma_dyadic_exact(m, 148);
    let x = crate::single::round_units(false, m * pow2(148), 1);
    assert(2 * (m * pow2(148)) == (2 * i + 1) * c) by (nonlinear_arith)
        requires
            m == 2 * i + 1,
            c == 2 * pow2(148),
    ;
    assert((2 * i + 1) * c == 2 * (i * c) + c) by (nonlinear_arith);
    crate::near::lemma_exact_sum(Single::whole(i), t, x);
}

/// A shrunk picture shows, at each of its pixels, the pixel of the picture that covers its
/// middle.
pub proof fn thumbnails_show_what_covers_the_middle(i: int, n: u32, m: u32)
    requires
        0 <= i < m <= 0x1_0000,
        0 < n <= 0x1_0000,
    ensures
        covers_the_middle(crate::pictures::source_place(i, n, m), n as int, i, m as int),
{
    let c = crate::near::one();
    crate::near::lemma_sizes();
    lemma_and_a_half(i as u64);
    crate::near::lemma_whole(0);
    crate::near::lemma_whole(n as u64);
    crate::near::lemma_whole(m as u64);
    let last = (n - 1) as u64;
    crate::near::lemma_whole(last);
    let a = Single::whole(i as u64).plus(Single::ratio(1, 2));
    let av = a.signed();
    let (w, d) = (Single::whole(n as u64), Single::whole(m as u64));
    let k = 2 * i + 1;
    assert(0 < k * c <= 0x2_0000 * c && n * c <= 0x1_0000 * c && m * c <= 0x1_0000 * c && m * c > 0
        && n * c > 0) by (nonlinear_arith)
        requires
            0 < k <= 0x2_0000,
            0 < n <= 0x1_0000,
            0 < m <= 0x1_0000,
            c > 0,
    ;
    crate::near::lemma_product_part(a, w);
    let x = a.times(w);
    let xv = x.signed();
    // Twice x is k·n, nearly.
    let y = k * n;
    assert(2 * (av * (n * c)) == y * c * c) by (nonlinear_arith)
        requires
            2 * av == k * c,
            y == k * n,
    ;
    assert(1 <= y <= 0x2_0000_0000) by (nonlinear_arith)
        requires
            y == k * n,
            1 <= k <= 0x2_0000,
            1 <= n <= 0x1_0000,
    ;
    let tiny: int = 0x8000_0000_0000;
    assert(-(2 * (y * c)) <= (2 * xv - y * c) * 0x100_0000 <= 2 * (y * c)) by (nonlinear_arith)
        requires
            2 * (av * (n * c)) == y * c * c,
            -(av * (n * c) + tiny * c) <= (xv * c - av * (n * c)) * 0x100_0000 <= av * (n * c) + tiny
                * c,
            y >= 1,
            c >= 2 * tiny,
            c > 0,
    ;
    assert(y * c >= c) by (nonlinear_arith)
        requires
            y >= 1,
            c > 0,
    ;
    assert(!x.negative()) by {
        if x.negative() {
            assert(x.signed() <= 0);
        }
    }
    assert(xv <= 0x1_0000_0000_0000_0000 * (m * c)) by (nonlinear_arith)
        requires
            (2 * xv - y * c) * 0x100_0000 <= 2 * (y * c),
            y <= 0x2_0000_0000,
            m >= 1,
            c > 0,
    ;
    crate::near::lemma_quotient_part(x, d);
    let q = x.over(d);
    let qv = q.signed();
    // Twice q times m is k·n, nearly.
    let z = 2 * (qv * m) - y * c;
    assert(-(5 * (y * c)) <= z * 0x100_0000 <= 5 * (y * c)) by {
        let u = qv * m - xv;
        assert(-(xv + tiny * m) <= u * 0x100_0000 <= xv + tiny * m) by (nonlinear_arith)
            requires
                u == qv * m - xv,
                -(xv * c + tiny * (m * c)) <= (qv * (m * c) - xv * c) * 0x100_0000 <= xv * c + tiny
                    * (m * c),
                c > 0,
        ;
        assert(tiny * m <= tiny * 0x1_0000);
        assert(c >= 0x80_0000 * (tiny * 0x1_0000));
    }
    // Up to the side, a fiftieth at most.
    assert(y <= 2 * (m * n)) by (nonlinear_arith)
        requires
            y == k * n,
            k <= 2 * m,
            n > 0,
    ;
    assert(-(m * c) <= 25 * z <= m * c) by (nonlinear_arith)
        requires
            -(5 * (y * c)) <= z * 0x100_0000 <= 5 * (y * c),
            y <= 2 * (m * n),
            n <= 0x1_0000,
            m > 0,
            n > 0,
            c > 0,
    ;
    assert(qv < 0x80_0000 * c) by (nonlinear_arith)
        requires
            2 * (qv * m) - y * c == z,
            25 * z <= m * c,
            y <= 2 * (m * n),
            n <= 0x1_0000,
            m > 0,
            c > 0,
    ;
    let f = crate::near::lemma_floored(q);
    crate::near::lemma_held(q.floored(), Single::whole(0), Single::whole(last));
    let h = q.floored().clamp(Single::whole(0), Single::whole(last));
    assert(0 <= f * c && 0 <= last * c) by (nonlinear_arith)
        requires
            f >= 0,
            last >= 0,
            c > 0,
    ;
    let p0: int = if f > last {
        last as int
    } else {
        f as int
    };
    assert(h.signed() == p0 * c) by {
        if f > last {
            assert(f * c > last * c) by (nonlinear_arith)
                requires
                    f > last,
                    c > 0,
            ;
        } else {
            assert(f * c <= last * c) by (nonlinear_arith)
                requires
                    f <= last,
                    c > 0,
            ;
        }
    }
    crate::near::lemma_cut(h, u64::MAX);
    let p = h.to_int(u64::MAX);
    assert(p == p0) by (nonlinear_arith)
        requires
            p * c <= p0 * c,
            p < u64::MAX ==> p0 * c < (p + 1) * c,
            0 <= p0 <= 0x1_0000,
            p <= u64::MAX,
            c > 0,
    ;
    // Below.
    assert(50 * (m * p0) <= 25 * y + m) by (nonlinear_arith)
        requires
            p0 * c <= qv,
            2 * (qv * m) - y * c == z,
            25 * z <= m * c,
            m > 0,
            c > 0,
    ;
    // Above.
    if f > last {
        assert(m * (p0 + 1) == m * n && 25 * y <= 50 * (m * n)) by (nonlinear_arith)
            requires
                p0 + 1 == n,
                y <= 2 * (m * n),
        ;
    } else {
        assert(25 * y <= 50 * (m * (p0 + 1)) + m) by (nonlinear_arith)
            requires
                qv < (p0 + 1) * c,
                2 * (qv * m) - y * c == z,
                -(m * c) <= 25 * z,
                m > 0,
                c > 0,
        ;
    }
}

/// A place on the picture or near it.
pub open spec fn is_place(v: Single) -> bool {
    v.finite() && -(0x1_0000 * crate::near::one()) <= v.signed() <= 0x1_0000 * crate::near::one()
}

/// `v` lies `s` of `steps` parts of the way `d` from `from`, but for a sixteenth of a pixel.
pub open spec fn lies_along(v: Single, from: Single, d: Single, s: int, steps: int) -> bool {
    let one = crate::near::one();
    &&& v.finite()
    &&& -(steps * one) <= 16 * (v.signed() * steps - (from.signed() * steps + d.signed() * s))
        <= steps * one
}

proof fn lemma_along(from: Single, d: Single, s: u64, steps: u64)
    requires
        is_place(from),
        is_place(d),
        s <= steps,
        0 < steps < 0x100_0000,
    ensures
        lies_along(
            from.plus(d.times(Single::whole(s).over(Single::whole(steps)))),
            from,
            d,
            s as int,
            steps as int,
        ),
{
    let c = crate::near::one();
    let e = crate::near::slip();
    crate::near::lemma_sizes();
    crate::near::lemma_whole(s);
    crate::near::lemma_whole(steps);
    assert(0 <= s * c <= 1 * (steps * c) && steps * c > 0) by (nonlinear_arith)
        requires
            0 <= s <= steps,
            steps > 0,
            c > 0,
    ;
    crate::near::lemma_quotient(Single::whole(s), Single::whole(steps), 1);
    let t = Single::whole(s).over(Single::whole(steps));
    let tv = t.signed();
    assert(-(e * steps) <= tv * steps - s * c <= e * steps) by (nonlinear_arith)
        requires
            -(1 * e * (steps * c)) <= tv * (steps * c) - s * c * c <= 1 * e * (steps * c),
            c > 0,
    ;
    assert(-(2 * c) <= tv <= 2 * c) by (nonlinear_arith)
        requires
            -(e * steps) <= tv * steps - s * c <= e * steps,
            0 <= s <= steps,
            steps > 0,
            c == e * 0x80_0000,
            e > 0,
    ;
    let dv = d.signed();
    crate::near::lemma_bounded(dv, 0x1_0000 * c, tv, 2 * c);
    assert(0x1_0000 * c * (2 * c) == 0x2_0000 * c * c) by (nonlinear_arith);
    crate::near::lemma_product(d, t, 0x2_0000);
    let p = d.times(t);
    let pv = p.signed();
    let k = pv * c - dv * tv;
    assert(-(0x3_0000 * c) <= pv <= 0x3_0000 * c) by (nonlinear_arith)
        requires
            k == pv * c - dv * tv,
            -(0x2_0000 * e * c) <= k <= 0x2_0000 * e * c,
            -(0x2_0000 * c * c) <= dv * tv <= 0x2_0000 * c * c,
            c == e * 0x80_0000,
            e > 0,
    ;
    crate::near::lemma_sum(from, p, 0x4_0000);
    let r = from.plus(p).signed();
    let fv = from.signed();
    let m = r - fv - pv;
    let u = tv * steps - s * c;
    let off = r * steps - (fv * steps + dv * s);
    assert(off * c == m * steps * c + k * steps + dv * u) by {
        assert(m * steps * c == r * steps * c - fv * steps * c - pv * steps * c)
            by (nonlinear_arith)
            requires
                m == r - fv - pv,
        ;
        assert(k * steps == pv * steps * c - dv * tv * steps) by (nonlinear_arith)
            requires
                k == pv * c - dv * tv,
        ;
        assert(dv * u == dv * tv * steps - dv * s * c) by (nonlinear_arith)
            requires
                u == tv * steps - s * c,
        ;
        assert(off * c == r * steps * c - fv * steps * c - dv * s * c) by (nonlinear_arith)
            requires
                off == r * steps - (fv * steps + dv * s),
        ;
    }
    let sec = steps * e * c;
    assert(-(0x4_0000 * sec) <= m * steps * c <= 0x4_0000 * sec) by (nonlinear_arith)
        requires
            -(0x4_0000 * e) <= m <= 0x4_0000 * e,
            sec == steps * e * c,
            steps > 0,
            c > 0,
    ;
    assert(-(0x2_0000 * sec) <= k * steps <= 0x2_0000 * sec) by (nonlinear_arith)
        requires
            -(0x2_0000 * e * c) <= k <= 0x2_0000 * e * c,
            sec == steps * e * c,
            steps > 0,
    ;
    crate::near::lemma_bounded(dv, 0x1_0000 * c, u, e * steps);
    assert(0x1_0000 * c * (e * steps) == 0x1_0000 * sec) by (nonlinear_arith)
        requires
            sec == steps * e * c,
    ;
    assert(-(steps * c) <= 16 * off <= steps * c) by (nonlinear_arith)
        requires
            -(0x7_0000 * sec) <= off * c <= 0x7_0000 * sec,
            sec == steps * e * c,
            c == e * 0x80_0000,
            e > 0,
            steps > 0,
    ;
}

/// The stamps of a brush lie evenly on the line from one point to the next, each way by its own
/// distance, and the last of them at its end.
pub proof fn stamps_lie_on_the_line(
    from: (Single, Single),
    dx: Single,
    dy: Single,
    s: u64,
    steps: u64,
)
    requires
        is_place(from.0),
        is_place(from.1),
        is_place(dx),
        is_place(dy),
        s <= steps,
        0 < steps < 0x100_0000,
    ensures
        lies_along(
            crate::dust::stamp_at(from, dx, dy, s, steps).0,
            from.0,
            dx,
            s as int,
            steps as int,
        ),
        lies_along(
            crate::dust::stamp_at(from, dx, dy, s, steps).1,
            from.1,
            dy,
            s as int,
            steps as int,
        ),
{
    lemma_along(from.0, dx, s, steps);
    lemma_along(from.1, dy, s, steps);
}

/// What is painted shows through: nothing of it where the mask is empty, the more of it the more
/// the mask covers, and never all of it.
pub proof fn overlays_grow_with_the_mask(a: u8, b: u8)
    ensures
        crate::dust::overlay_alpha(0) == 0,
        crate::dust::overlay_alpha(255) == 120,
        a <= b ==> crate::dust::overlay_alpha(a) <= crate::dust::overlay_alpha(b),
        2 * a <= b ==> 2 * crate::dust::overlay_alpha(a) <= crate::dust::overlay_alpha(b),
{
    assert(0 * 120 / 255 == 0 && 255 * 120 / 255 == 120);
}

/// A length brought to another size: to the nearest pixel, nearly.
proof fn lemma_rescaled(v: u32, reference: u32, current: u32) -> (n: nat)
    requires
        0 < reference <= 0x8_0000,
        0 < current <= 0x8_0000,
        v <= reference,
    ensures
        ({
            let r = crate::geometry::rescaled(v, reference, current);
            &&& r.finite()
            &&& r.signed() == n * crate::near::one()
            &&& r.to_int(0xffff_ffff) == n
            &&& n <= 0x8_0001
            &&& -(7 * reference) <= 10 * (n * reference - v * current) <= 7 * reference
        }),
{
    let c = crate::near::one();
    crate::near::lemma_sizes();
    crate::near::lemma_whole(v as u64);
    crate::near::lemma_whole(reference as u64);
    crate::near::lemma_whole(current as u64);
    let a = Single::whole(v as u64);
    let b = Single::whole(current as u64);
    let d = Single::whole(reference as u64);
    assert(0 <= v * c <= 0x8_0000 * c && 0 < current * c <= 0x8_0000 * c && 0 < reference * c
        <= 0x8_0000 * c) by (nonlinear_arith)
        requires
            v <= 0x8_0000,
            0 < current <= 0x8_0000,
            0 < reference <= 0x8_0000,
            c > 0,
    ;
    crate::near::lemma_product_part(a, b);
    let x = a.times(b);
    let xv = x.signed();
    let y = v * current;
    let tiny: int = 0x8000_0000_0000;
    assert((v * c) * (current * c) == y * c * c && 0 <= y) by (nonlinear_arith)
        requires
            y == v * current,
            v >= 0,
            current >= 0,
    ;
    let f = xv - y * c;
    assert(-(y * c + tiny) <= f * 0x100_0000 <= y * c + tiny) by (nonlinear_arith)
        requires
            f == xv - y * c,
            -(y * c * c + tiny * c) <= (xv * c - y * c * c) * 0x100_0000 <= y * c * c + tiny * c,
            c > 0,
    ;
    let rc = reference * c;
    assert(y * c <= 0x8_0000 * rc) by (nonlinear_arith)
        requires
            y == v * current,
            v <= reference,
            current <= 0x8_0000,
            rc == reference * c,
            c > 0,
    ;
    assert(c >= 0x80_0000 * (tiny * 0x1_0000));
    assert(rc >= c) by (nonlinear_arith)
        requires
            rc == reference * c,
            reference >= 1,
            c > 0,
    ;
    assert(xv <= 0x10_0000 * rc);
    crate::near::lemma_quotient_part(x, d);
    let q = x.over(d);
    let qv = q.signed();
    let g = qv * reference - xv;
    assert(-(xv + tiny * reference) <= g * 0x100_0000 <= xv + tiny * reference) by (nonlinear_arith)
        requires
            g == qv * reference - xv,
            -(xv * c + tiny * rc) <= (qv * rc - xv * c) * 0x100_0000 <= xv * c + tiny * rc,
            rc == reference * c,
            c > 0,
    ;
    assert(tiny * reference <= rc) by (nonlinear_arith)
        requires
            rc == reference * c,
            tiny <= c,
            reference >= 0,
    ;
    // Both slips together are a tenth of the reference at most.
    assert(-rc <= 10 * (qv * reference - y * c) <= rc);
    assert(qv * reference <= 0x8_0001 * rc);
    assert(qv <= 0x8_0001 * c) by (nonlinear_arith)
        requires
            qv * reference <= 0x8_0001 * rc,
            rc == reference * c,
            reference >= 1,
    ;
    let n = crate::near::lemma_rounded(q);
    assert(n <= 0x8_0001) by (nonlinear_arith)
        requires
            2 * (n * c - qv) <= c,
            qv <= 0x8_0001 * c,
            c > 0,
    ;
    let h = n * c - qv;
    assert(-rc <= 2 * (h * reference) <= rc) by (nonlinear_arith)
        requires
            -c <= 2 * h <= c,
            rc == reference * c,
            reference >= 1,
    ;
    let off = n * reference - y;
    assert(off * c == h * reference + (qv * reference - y * c)) by (nonlinear_arith)
        requires
            off == n * reference - y,
            h == n * c - qv,
    ;
    assert(-(7 * rc) <= 10 * (off * c) <= 7 * rc);
    assert((10 * off) * c == 10 * (off * c) && (7 * reference) * c == 7 * rc) by (nonlinear_arith)
        requires
            rc == reference * c,
    ;
    crate::near::lemma_divided(10 * off, 7 * reference, c);
    n
}

proof fn lemma_at_least_one(r: Single, n: nat)
    requires
        r.finite(),
        r.signed() == n * crate::near::one(),
        n <= 0x10_0000,
    ensures
        r.larger(Single::whole(1)).to_int(0xffff_ffff) == if n > 1 {
            n
        } else {
            1
        },
{
    let c = crate::near::one();
    crate::near::lemma_sizes();
    crate::near::lemma_whole(1);
    crate::near::lemma_smaller_larger(r, Single::whole(1));
    let x = r.larger(Single::whole(1));
    let m: int = if n > 1 {
        n as int
    } else {
        1
    };
    assert(x.signed() == m * c) by {
        if n > 1 {
            assert(n * c >= 1 * c) by (nonlinear_arith)
                requires
                    n > 1,
                    c > 0,
            ;
        } else {
            assert(n * c <= 1 * c) by (nonlinear_arith)
                requires
                    n <= 1,
                    c > 0,
            ;
        }
    }
    assert(0 <= m * c) by (nonlinear_arith)
        requires
            m >= 1,
            c > 0,
    ;
    crate::near::lemma_cut(x, 0xffff_ffff);
    let k = x.to_int(0xffff_ffff);
    assert(k == m) by (nonlinear_arith)
        requires
            k * c <= m * c,
            k < 0xffff_ffff ==> m * c < (k + 1) * c,
            0 <= m <= 0x10_0000,
            k <= 0xffff_ffff,
            c > 0,
    ;
}

/// A rectangle that is brought to another size covers the same part of it: its place and its
/// width go by the widths, its place and its height by the heights.
pub proof fn scaled_rects_keep_their_proportions(
    rect: Rect,
    reference: (u32, u32),
    w: u32,
    h: u32,
)
    requires
        0 < reference.0 <= 0x8_0000,
        0 < reference.1 <= 0x8_0000,
        0 < w <= 0x8_0000,
        0 < h <= 0x8_0000,
        rect.x + rect.width <= reference.0,
        rect.y + rect.height <= reference.1,
    ensures
        crate::auto_crop::proportionate(
            crate::geometry::scaled_rect(rect, Some(reference), w, h),
            (w as int, h as int),
            rect,
            (reference.0 as int, reference.1 as int),
        ),
{
    let (rw, rh) = reference;
    let x = lemma_rescaled(rect.x, rw, w);
    let y = lemma_rescaled(rect.y, rh, h);
    let wide = lemma_rescaled(rect.width, rw, w);
    let high = lemma_rescaled(rect.height, rh, h);
    lemma_at_least_one(crate::geometry::rescaled(rect.width, rw, w), wide);
    lemma_at_least_one(crate::geometry::rescaled(rect.height, rh, h), high);
    lemma_still_in_proportion(wide as int, rect.width as int, rw as int, w as int);
    lemma_still_in_proportion(high as int, rect.height as int, rh as int, h as int);
    if !crate::geometry::needs_scaling(Some(reference), w, h) {
        lemma_same_proportion(rect.width as int, rw as int);
        lemma_same_proportion(rect.height as int, rh as int);
    }
}

proof fn lemma_still_in_proportion(n: int, v: int, reference: int, current: int)
    requires
        0 <= n,
        0 <= v,
        0 < reference,
        0 < current,
        -(7 * reference) <= 10 * (n * reference - v * current) <= 7 * reference,
    ensures
        crate::auto_crop::in_proportion(
            if n > 1 {
                n
            } else {
                1
            },
            current,
            v,
            reference,
        ),
{
    if n == 0 {
        assert(v * current >= 0) by (nonlinear_arith)
            requires
                v >= 0,
                current > 0,
        ;
        assert(0 * reference == 0);
    }
}

proof fn lemma_same_proportion(v: int, side: int)
    requires
        0 <= v <= side,
        0 < side,
    ensures
        crate::auto_crop::in_proportion(
            if v > 1 {
                v
            } else {
                1
            },
            side,
            v,
            side,
        ),
{
    if v == 0 {
        assert(0 * side == 0);
    }
}

/// The sample around a pixel holds that pixel, and no more than four each way, all of them on
/// the picture.
pub proof fn samples_hold_their_pixel(c: int, n: int)
    requires
        0 <= c < n,
    ensures
        crate::pictures::sample_start(c, n) <= c < crate::pictures::sample_end(c, n) <= n,
        0 <= crate::pictures::sample_start(c, n),
        crate::pictures::sample_end(c, n) - crate::pictures::sample_start(c, n) <= 4,
        1 <= c && c + 3 <= n ==> crate::pictures::sample_end(c, n) - crate::pictures::sample_start(
            c,
            n,
        ) == 4,
{
}

proof fn lemma_row_share(
    rgb: Seq<u8>,
    w: int,
    y: int,
    x0: int,
    x: int,
    c: int,
    lo: int,
    hi: int,
)
    requires
        0 <= c < 3,
        0 <= lo,
        x0 <= x,
        forall|i: int|
            x0 <= i < x && (y * w + i) * 3 + 2 < rgb.len() ==> lo <= #[trigger]
                crate::pictures::byte_at(rgb, w, i, y, c) <= hi,
    ensures
        lo * crate::pictures::row_share(rgb, w, y, x0, x, 3) <= crate::pictures::row_share(
            rgb,
            w,
            y,
            x0,
            x,
            c,
        ) <= hi * crate::pictures::row_share(rgb, w, y, x0, x, 3),
    decreases x - x0,
{
    if x > x0 {
        lemma_row_share(rgb, w, y, x0, x - 1, c, lo, hi);
        let m = crate::pictures::row_share(rgb, w, y, x0, x - 1, 3);
        assert(lo * (m + 1) == lo * m + lo && hi * (m + 1) == hi * m + hi) by (nonlinear_arith);
        if (y * w + (x - 1)) * 3 + 2 < rgb.len() {
            assert(lo <= crate::pictures::byte_at(rgb, w, x - 1, y, c) <= hi);
        }
    } else {
        assert(lo * 0 == 0 && hi * 0 == 0);
    }
}

/// What a sample adds up to in a channel lies between its darkest and its brightest pixel, times
/// the number of its pixels; so the mean lies between the two.
pub proof fn samples_lie_between_their_pixels(
    rgb: Seq<u8>,
    w: int,
    x0: int,
    x1: int,
    y0: int,
    y: int,
    c: int,
    lo: int,
    hi: int,
)
    requires
        0 <= c < 3,
        0 <= lo,
        x0 <= x1,
        y0 <= y,
        forall|i: int, j: int|
            x0 <= i < x1 && y0 <= j < y && (j * w + i) * 3 + 2 < rgb.len() ==> lo <= #[trigger]
                crate::pictures::byte_at(rgb, w, i, j, c) <= hi,
    ensures
        lo * crate::pictures::block_share(rgb, w, x0, x1, y0, y, 3)
            <= crate::pictures::block_share(rgb, w, x0, x1, y0, y, c) <= hi
            * crate::pictures::block_share(rgb, w, x0, x1, y0, y, 3),
    decreases y - y0,
{
    if y > y0 {
        samples_lie_between_their_pixels(rgb, w, x0, x1, y0, y - 1, c, lo, hi);
        lemma_row_share(rgb, w, y - 1, x0, x1, c, lo, hi);
        let m = crate::pictures::block_share(rgb, w, x0, x1, y0, y - 1, 3);
        let k = crate::pictures::row_share(rgb, w, y - 1, x0, x1, 3);
        assert(lo * (m + k) == lo * m + lo * k && hi * (m + k) == hi * m + hi * k)
            by (nonlinear_arith);
    } else {
        assert(lo * 0 == 0 && hi * 0 == 0);
    }
}

} // verus!
