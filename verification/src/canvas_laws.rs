//! Where pictures lie on the canvas, and what lies under a pointer.

use vstd::prelude::*;
use crate::canvas::{Camera, Point};
use crate::single::Single;

verus! {

proof fn lemma_side(n: u32)
    requires
        0 < n <= 0x1_0000,
    ensures
        crate::canvas::side(n).finite(),
        crate::canvas::side(n).signed() == n * crate::near::one(),
        crate::near::one() <= n * crate::near::one() <= 0x1_0000 * crate::near::one(),
{
    let c = crate::near::one();
    crate::near::lemma_sizes();
    crate::near::lemma_whole(n as u64);
    crate::near::lemma_whole(1);
    crate::near::lemma_smaller_larger(Single::whole(n as u64), Single::whole(1));
    assert(c <= n * c <= 0x1_0000 * c) by (nonlinear_arith)
        requires
            0 < n <= 0x1_0000,
            c > 0,
    ;
}

/// A place that is on the screen or not far from it.
pub open spec fn is_near_screen(v: Single) -> bool {
    v.finite() && -(0x2_0000 * crate::near::one()) <= v.signed() <= 0x2_0000 * crate::near::one()
}

/// A length on screen, of one point at least.
pub open spec fn is_length(v: Single) -> bool {
    v.finite() && crate::near::one() <= v.signed() <= 0x2_0000 * crate::near::one()
}

/// From the picture to the screen and back, along one side of it.
pub open spec fn there_and_back(p: Single, left: Single, size: Single, full: Single) -> Single {
    left.plus(p.over(full).times(size)).minus(left).over(size).times(full)
}

proof fn lemma_there_and_back(p: Single, left: Single, size: Single, n: u32)
    requires
        0 < n <= 0x1_0000,
        p.finite(),
        0 <= p.signed() <= n * crate::near::one(),
        is_near_screen(left),
        is_length(size),
    ensures
        ({
            let r = there_and_back(p, left, size, crate::canvas::side(n));
            let one = crate::near::one();
            &&& r.finite()
            &&& -(n * one * one) <= 2 * ((r.signed() - p.signed()) * size.signed()) <= n * one * one
        }),
{
    let c = crate::near::one();
    let e = crate::near::slip();
    crate::near::lemma_sizes();
    lemma_side(n);
    let full = crate::canvas::side(n);
    let (pv, a, s) = (p.signed(), left.signed(), size.signed());
    // To the screen.
    crate::near::lemma_quotient(p, full, 1);
    let t = p.over(full);
    let tv = t.signed();
    let f1 = tv * n - pv;
    assert(-(e * n) <= f1 <= e * n) by (nonlinear_arith)
        requires
            f1 == tv * n - pv,
            -(1 * e * (n * c)) <= tv * (n * c) - pv * c <= 1 * e * (n * c),
            c > 0,
    ;
    assert(-c <= tv <= 2 * c) by (nonlinear_arith)
        requires
            -(e * n) <= tv * n - pv <= e * n,
            0 <= pv <= n * c,
            n > 0,
            c == e * 0x80_0000,
            e > 0,
    ;
    crate::near::lemma_bounded(tv, 2 * c, s, 0x2_0000 * c);
    assert(2 * c * (0x2_0000 * c) == 0x4_0000 * c * c) by (nonlinear_arith);
    crate::near::lemma_product(t, size, 0x4_0000);
    let u = t.times(size);
    let uv = u.signed();
    let f2 = uv * c - tv * s;
    assert(-(0x5_0000 * c) <= uv <= 0x5_0000 * c) by (nonlinear_arith)
        requires
            f2 == uv * c - tv * s,
            -(0x4_0000 * e * c) <= f2 <= 0x4_0000 * e * c,
            -(0x4_0000 * c * c) <= tv * s <= 0x4_0000 * c * c,
            c == e * 0x80_0000,
            e > 0,
    ;
    crate::near::lemma_sum(left, u, 0x7_0000);
    let x = left.plus(u);
    let xv = x.signed();
    // And back.
    crate::near::lemma_difference(x, left, 0x6_0000);
    let w = x.minus(left);
    let wv = w.signed();
    let f3 = wv - uv;
    assert(-(0xd_0000 * e) <= f3 <= 0xd_0000 * e);
    assert(-(0x6_0000 * s) <= wv <= 0x6_0000 * s);
    crate::near::lemma_quotient(w, size, 0x6_0000);
    let y0 = w.over(size).signed();
    // Closer: the share is no larger than two.
    lemma_share(wv, uv, tv, s, f2, f3);
    crate::near::lemma_quotient(w, size, 4);
    let y = w.over(size);
    let yv = y.signed();
    let f4 = yv * s - wv * c;
    assert(-(5 * c) <= yv <= 5 * c) by (nonlinear_arith)
        requires
            f4 == yv * s - wv * c,
            -(4 * e * s) <= f4 <= 4 * e * s,
            -(4 * s) <= wv <= 4 * s,
            s > 0,
            c == e * 0x80_0000,
            e > 0,
    ;
    assert(-(5 * n * c * c) <= yv * (n * c) <= 5 * n * c * c) by (nonlinear_arith)
        requires
            -(5 * c) <= yv <= 5 * c,
            n > 0,
            c > 0,
    ;
    crate::near::lemma_product(y, full, 5 * n);
    let r = y.times(full).signed();
    let f5 = r - yv * n;
    assert(-(5 * n * e) <= f5 <= 5 * n * e) by (nonlinear_arith)
        requires
            f5 == r - yv * n,
            -(5 * n * e * c) <= r * c - yv * (n * c) <= 5 * n * e * c,
            c > 0,
    ;
    lemma_back(r, pv, s, n as int, tv, uv, wv, yv, f1, f2, f3, f4, f5);
}

proof fn lemma_share(w: int, u: int, t: int, s: int, f2: int, f3: int)
    requires
        ({
            let (c, e) = (crate::near::one(), crate::near::slip());
            &&& f2 == u * c - t * s
            &&& -(0x4_0000 * e * c) <= f2 <= 0x4_0000 * e * c
            &&& f3 == w - u
            &&& -(0xd_0000 * e) <= f3 <= 0xd_0000 * e
            &&& -c <= t <= 2 * c
            &&& c <= s
        }),
    ensures
        -(4 * s) <= w <= 4 * s,
{
    let c = crate::near::one();
    let e = crate::near::slip();
    crate::near::lemma_sizes();
    assert(-(2 * s) - c <= u && u <= 2 * s + c) by (nonlinear_arith)
        requires
            f2 == u * c - t * s,
            -(0x4_0000 * e * c) <= f2 <= 0x4_0000 * e * c,
            -c <= t <= 2 * c,
            s > 0,
            c == e * 0x80_0000,
            e > 0,
    ;
}

proof fn lemma_back(
    r: int,
    p: int,
    s: int,
    n: int,
    t: int,
    u: int,
    w: int,
    y: int,
    f1: int,
    f2: int,
    f3: int,
    f4: int,
    f5: int,
)
    requires
        ({
            let (c, e) = (crate::near::one(), crate::near::slip());
            &&& 0 < n <= 0x1_0000
            &&& c <= s <= 0x2_0000 * c
            &&& f1 == t * n - p
            &&& -(e * n) <= f1 <= e * n
            &&& f2 == u * c - t * s
            &&& -(0x4_0000 * e * c) <= f2 <= 0x4_0000 * e * c
            &&& f3 == w - u
            &&& -(0xd_0000 * e) <= f3 <= 0xd_0000 * e
            &&& f4 == y * s - w * c
            &&& -(4 * e * s) <= f4 <= 4 * e * s
            &&& f5 == r - y * n
            &&& -(5 * n * e) <= f5 <= 5 * n * e
        }),
    ensures
        ({
            let c = crate::near::one();
            -(n * c * c) <= 2 * ((r - p) * s) <= n * c * c
        }),
{
    let c = crate::near::one();
    let e = crate::near::slip();
    crate::near::lemma_sizes();
    // (r - p)·s = f5·s + n·(f4 + c·f3 + f2) + f1·s.
    let off = (r - p) * s;
    assert(off == f5 * s + n * f4 + n * (c * f3) + n * f2 + f1 * s) by {
        assert(f5 * s == r * s - y * s * n) by (nonlinear_arith)
            requires
                f5 == r - y * n,
        ;
        assert(n * f4 == y * s * n - n * (w * c)) by (nonlinear_arith)
            requires
                f4 == y * s - w * c,
        ;
        assert(n * (c * f3) == n * (w * c) - n * (u * c)) by (nonlinear_arith)
            requires
                f3 == w - u,
        ;
        assert(n * f2 == n * (u * c) - t * s * n) by (nonlinear_arith)
            requires
                f2 == u * c - t * s,
        ;
        assert(f1 * s == t * s * n - p * s) by (nonlinear_arith)
            requires
                f1 == t * n - p,
        ;
        assert(off == r * s - p * s) by (nonlinear_arith)
            requires
                off == (r - p) * s,
        ;
    }
    let nec = n * (e * c);
    assert(nec > 0 && n * c * c == 0x80_0000 * nec) by (nonlinear_arith)
        requires
            nec == n * (e * c),
            n > 0,
            c == e * 0x80_0000,
            e > 0,
    ;
    assert(-(0xa_0000 * nec) <= f5 * s <= 0xa_0000 * nec) by (nonlinear_arith)
        requires
            -(5 * n * e) <= f5 <= 5 * n * e,
            0 < s <= 0x2_0000 * c,
            nec == n * (e * c),
            n > 0,
            e > 0,
    ;
    assert(-(0x8_0000 * nec) <= n * f4 <= 0x8_0000 * nec) by (nonlinear_arith)
        requires
            -(4 * e * s) <= f4 <= 4 * e * s,
            0 < s <= 0x2_0000 * c,
            nec == n * (e * c),
            n > 0,
            e > 0,
    ;
    assert(-(0xd_0000 * nec) <= n * (c * f3) <= 0xd_0000 * nec) by (nonlinear_arith)
        requires
            -(0xd_0000 * e) <= f3 <= 0xd_0000 * e,
            nec == n * (e * c),
            n > 0,
            c > 0,
    ;
    assert(-(0x4_0000 * nec) <= n * f2 <= 0x4_0000 * nec) by (nonlinear_arith)
        requires
            -(0x4_0000 * e * c) <= f2 <= 0x4_0000 * e * c,
            nec == n * (e * c),
            n > 0,
    ;
    assert(-(0x2_0000 * nec) <= f1 * s <= 0x2_0000 * nec) by (nonlinear_arith)
        requires
            -(e * n) <= f1 <= e * n,
            0 < s <= 0x2_0000 * c,
            nec == n * (e * c),
            n > 0,
            e > 0,
    ;
}

/// A pointer on a place of the picture is read as that place, each way, but for half a
/// point of the screen.
pub proof fn pointers_find_their_place(camera: Camera, p: Point)
    requires
        0 < camera.full.0 <= 0x1_0000,
        0 < camera.full.1 <= 0x1_0000,
        p.x.finite(),
        0 <= p.x.signed() <= camera.full.0 * crate::near::one(),
        p.y.finite(),
        0 <= p.y.signed() <= camera.full.1 * crate::near::one(),
        is_length(camera.shown_size().x),
        is_length(camera.shown_size().y),
        is_near_screen(camera.picture().left),
        is_near_screen(camera.picture().top),
    ensures
        ({
            let q = camera.to_picture(camera.to_screen(p));
            let one = crate::near::one();
            let size = camera.shown_size();
            &&& q.x.finite()
            &&& -(camera.full.0 * one * one) <= 2 * ((q.x.signed() - p.x.signed())
                * size.x.signed()) <= camera.full.0 * one * one
            &&& q.y.finite()
            &&& -(camera.full.1 * one * one) <= 2 * ((q.y.signed() - p.y.signed())
                * size.y.signed()) <= camera.full.1 * one * one
        }),
{
    let size = camera.shown_size();
    let at = camera.picture();
    lemma_there_and_back(p.x, at.left, size.x, camera.full.0);
    lemma_there_and_back(p.y, at.top, size.y, camera.full.1);
}

/// A canvas with room for a picture.
pub open spec fn has_room(camera: Camera) -> bool {
    let one = crate::near::one();
    let r = camera.canvas;
    &&& r.left.finite() && 0 <= r.left.signed() <= 0x1_0000 * one
    &&& r.right.finite() && 0 <= r.right.signed() <= 0x1_0000 * one
    &&& r.top.finite() && 0 <= r.top.signed() <= 0x1_0000 * one
    &&& r.bottom.finite() && 0 <= r.bottom.signed() <= 0x1_0000 * one
    &&& r.left.signed() + one <= r.right.signed()
    &&& r.top.signed() + one <= r.bottom.signed()
    &&& 0 < camera.full.0 <= 0x1_0000
    &&& 0 < camera.full.1 <= 0x1_0000
}

proof fn lemma_scale_of(from: Single, to: Single, n: u32)
    requires
        from.finite() && 0 <= from.signed() <= 0x1_0000 * crate::near::one(),
        to.finite() && 0 <= to.signed() <= 0x1_0000 * crate::near::one(),
        from.signed() + crate::near::one() <= to.signed(),
        0 < n <= 0x1_0000,
    ensures
        ({
            let s = to.minus(from).over(crate::canvas::side(n));
            let len = to.signed() - from.signed();
            &&& s.finite()
            &&& -len <= 100 * (s.signed() * n - len) <= len
        }),
{
    let c = crate::near::one();
    let e = crate::near::slip();
    crate::near::lemma_sizes();
    lemma_side(n);
    let full = crate::canvas::side(n);
    crate::near::lemma_difference(to, from, 0x1_0000);
    let d = to.minus(from);
    let dv = d.signed();
    let len = to.signed() - from.signed();
    assert(dv > 0 && !d.negative()) by {
        if d.negative() {
            assert(d.signed() <= 0);
        }
    }
    crate::near::lemma_quotient_part(d, full);
    let s = d.over(full).signed();
    let f = s * n - dv;
    let tiny: int = 0x8000_0000_0000;
    assert(-(dv + tiny * n) <= f * 0x100_0000 <= dv + tiny * n) by (nonlinear_arith)
        requires
            f == s * n - dv,
            -(dv * c + tiny * (n * c)) <= (s * (n * c) - dv * c) * 0x100_0000 <= dv * c + tiny * (n
                * c),
            c > 0,
    ;
    assert(tiny * n <= tiny * 0x1_0000);
    assert(c >= 0x80_0000 * (tiny * 0x1_0000));
}

/// Without zoom the whole picture fits the canvas, and it fills one of its sides.
pub proof fn pictures_fit_the_canvas(camera: Camera)
    requires
        has_room(camera),
    ensures
        ({
            let s = camera.base_scale();
            let w = camera.canvas.right.signed() - camera.canvas.left.signed();
            let h = camera.canvas.bottom.signed() - camera.canvas.top.signed();
            let (x, y) = (s.signed() * camera.full.0, s.signed() * camera.full.1);
            &&& s.finite()
            &&& 100 * x <= 101 * w
            &&& 100 * y <= 101 * h
            &&& 99 * w <= 100 * x || 99 * h <= 100 * y
        }),
{
    let r = camera.canvas;
    lemma_scale_of(r.left, r.right, camera.full.0);
    lemma_scale_of(r.top, r.bottom, camera.full.1);
    let a = r.right.minus(r.left).over(crate::canvas::side(camera.full.0));
    let b = r.bottom.minus(r.top).over(crate::canvas::side(camera.full.1));
    crate::near::lemma_smaller_larger(a, b);
    let s = camera.base_scale().signed();
    let (m, n) = (camera.full.0 as int, camera.full.1 as int);
    assert(s * m <= a.signed() * m && s * n <= b.signed() * n) by (nonlinear_arith)
        requires
            s <= a.signed(),
            s <= b.signed(),
            m > 0,
            n > 0,
    ;
}

/// The pixel under a pointer is the one that covers it, and the last one beyond the picture.
pub proof fn pixels_cover_the_pointer(at: Single, side: u32)
    requires
        at.finite(),
        0 <= at.signed(),
        0 < side,
    ensures
        ({
            let p = crate::canvas::pixel_under(at, side);
            let one = crate::near::one();
            &&& p < side
            &&& p * one <= at.signed()
            &&& p < side - 1 ==> at.signed() < (p + 1) * one
        }),
{
    let c = crate::near::one();
    crate::near::lemma_sizes();
    crate::near::lemma_cut(at, 0xffff_ffff);
    let n = at.to_int(0xffff_ffff);
    let p = crate::canvas::pixel_under(at, side);
    assert(p * c <= n * c) by (nonlinear_arith)
        requires
            p <= n,
            c > 0,
    ;
}

} // verus!
