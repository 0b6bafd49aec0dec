//! What the crop that is found says of the frame: its format, and how sure it is.

use vstd::prelude::*;
use crate::aspect::{Bounds, FilmFormat};
use crate::single::Single;

verus! {

/// The shapes of still film, as width to height, and the formats that have them.
pub open spec fn shape(i: int) -> (int, int, FilmFormat) {
    if i == 0 {
        (3, 2, FilmFormat::Still35)
    } else if i == 1 {
        (2, 3, FilmFormat::Still35)
    } else if i == 2 {
        (1, 1, FilmFormat::Square)
    } else if i == 3 {
        (6, 7, FilmFormat::SixBySeven)
    } else if i == 4 {
        (7, 6, FilmFormat::SixBySeven)
    } else if i == 5 {
        (4, 3, FilmFormat::FourByThree)
    } else if i == 6 {
        (3, 4, FilmFormat::FourByThree)
    } else if i == 7 {
        (5, 4, FilmFormat::FourByFive)
    } else {
        (4, 5, FilmFormat::FourByFive)
    }
}

/// How far a frame of `w` by `h` is from shape `i`, as a multiple of [`whole_of`].
pub open spec fn off_shape(w: int, h: int, i: int) -> int {
    crate::single::size(w * shape(i).1 - shape(i).0 * h)
}

/// What the distance from a shape is a part of.
pub open spec fn whole_of(h: int, i: int) -> int {
    shape(i).0 * h
}

/// The target of shape `i` is its width over its height.
proof fn lemma_target(i: int)
    requires
        0 <= i < 9,
    ensures
        ({
            let t = crate::aspect::candidate(i).0;
            let (c, e) = (crate::near::one(), crate::near::slip());
            let (n, d, f) = shape(i);
            &&& t.finite()
            &&& crate::aspect::candidate(i).1 == f
            &&& -(2 * e * d) <= t.signed() * d - n * c <= 2 * e * d
            &&& c <= 2 * t.signed() <= 4 * c
            &&& 1 <= n <= 7 && 1 <= d <= 7 && 2 * d <= 3 * n
        }),
{
    crate::near::lemma_sizes();
    let c = crate::near::one();
    let e = crate::near::slip();
    let (n, d, f) = shape(i);
    if i == 2 {
        crate::near::lemma_whole(1);
    } else {
        crate::near::lemma_ratio(n as u32, d as u32, 2);
    }
    let t = crate::aspect::candidate(i).0.signed();
    assert(c <= 2 * t <= 4 * c) by (nonlinear_arith)
        requires
            -(2 * e * d) <= t * d - n * c <= 2 * e * d,
            2 * d <= 3 * n,
            2 * n <= 3 * d,
            1 <= d,
            c == e * 0x80_0000,
            e > 0,
    ;
}

proof fn lemma_ratio_of(w: u64, h: u64)
    requires
        0 < w < 0x100_0000,
        0 < h < 0x100_0000,
        w <= 4 * h,
    ensures
        ({
            let r = Single::whole(w).over(Single::whole(h));
            let (c, e) = (crate::near::one(), crate::near::slip());
            &&& r.finite()
            &&& -(4 * e * h) <= r.signed() * h - w * c <= 4 * e * h
            &&& 0 <= r.signed() <= 5 * c
        }),
{
    let c = crate::near::one();
    let e = crate::near::slip();
    crate::near::lemma_sizes();
    crate::near::lemma_whole(w);
    crate::near::lemma_whole(h);
    assert(0 < w * c <= 4 * (h * c) && h * c > 0 && w * c >= c) by (nonlinear_arith)
        requires
            0 < w <= 4 * h,
            h > 0,
            c > 0,
    ;
    crate::near::lemma_quotient(Single::whole(w), Single::whole(h), 4);
    let r = Single::whole(w).over(Single::whole(h)).signed();
    assert(-(4 * e * h) <= r * h - w * c <= 4 * e * h) by (nonlinear_arith)
        requires
            -(4 * e * (h * c)) <= r * (h * c) - w * c * c <= 4 * e * (h * c),
            c > 0,
    ;
    assert(r <= 5 * c) by (nonlinear_arith)
        requires
            r * h - w * c <= 4 * e * h,
            w <= 4 * h,
            h > 0,
            c == e * 0x80_0000,
            e > 0,
    ;
    lemma_quotient_not_below(Single::whole(w), Single::whole(h));
}

proof fn lemma_quotient_not_below(a: Single, b: Single)
    requires
        a.finite(),
        b.finite(),
        0 <= a.signed(),
        0 < b.signed(),
        a.over(b).finite(),
        !a.negative(),
    ensures
        0 <= a.over(b).signed(),
{
    reveal(Single::over_spec);
    crate::single::lemma_round_is_a_number(
        false,
        a.units() * vstd::arithmetic::power2::pow2(149),
        b.units(),
    );
}

/// The relative distance of a frame from a shape, measured.
proof fn lemma_error(w: u64, h: u64, i: int)
    requires
        0 < w < 0x100_0000,
        0 < h < 0x100_0000,
        w <= 4 * h,
        0 <= i < 9,
    ensures
        ({
            let q = crate::aspect::aspect_error(
                Single::whole(w).over(Single::whole(h)),
                crate::aspect::candidate(i).0,
            );
            let (c, e) = (crate::near::one(), crate::near::slip());
            &&& q.finite()
            &&& -(100 * e * whole_of(h as int, i)) <= q.signed() * whole_of(h as int, i)
                - off_shape(w as int, h as int, i) * c <= 100 * e * whole_of(h as int, i)
        }),
{
    let c = crate::near::one();
    let e = crate::near::slip();
    crate::near::lemma_sizes();
    lemma_target(i);
    lemma_ratio_of(w, h);
    let r = Single::whole(w).over(Single::whole(h));
    let t = crate::aspect::candidate(i).0;
    let (n, d, f) = shape(i);
    let (rv, tv) = (r.signed(), t.signed());
    crate::near::lemma_difference(r, t, 5);
    let x = r.minus(t);
    crate::near::lemma_size(x);
    let a = x.abs();
    let av = a.signed();
    assert(av <= 12 * tv);
    crate::near::lemma_quotient(a, t, 12);
    let q = a.over(t);
    let qv = q.signed();
    // Up to slips: q·t = a·one, a = |r - t|, r·h = w·one, t·d = n·one.
    let p = n * h;
    let dh = d * h;
    assert(dh > 0 && p > 0 && 2 * dh <= 3 * p) by (nonlinear_arith)
        requires
            dh == d * h,
            p == n * h,
            d >= 1,
            n >= 1,
            h > 0,
            2 * d <= 3 * n,
    ;
    let off = off_shape(w as int, h as int, i);
    // The true difference over a common denominator.
    let g = (rv - tv) * dh - (w * d - n * h) * c;
    assert(-(6 * e * dh) <= g <= 6 * e * dh) by {
        let u = rv * h - w * c;
        let v = tv * d - n * c;
        assert(u * d == rv * dh - w * d * c) by (nonlinear_arith)
            requires
                dh == d * h,
                u == rv * h - w * c,
        ;
        assert(v * h == tv * dh - n * h * c) by (nonlinear_arith)
            requires
                dh == d * h,
                v == tv * d - n * c,
        ;
        assert((rv - tv) * dh == rv * dh - tv * dh) by (nonlinear_arith);
        assert((w * d - n * h) * c == w * d * c - n * h * c) by (nonlinear_arith);
        assert(-(4 * e * dh) <= u * d <= 4 * e * dh) by (nonlinear_arith)
            requires
                -(4 * e * h) <= u <= 4 * e * h,
                dh == d * h,
                d >= 1,
        ;
        assert(-(2 * e * dh) <= v * h <= 2 * e * dh) by (nonlinear_arith)
            requires
                -(2 * e * d) <= v <= 2 * e * d,
                dh == d * h,
                h > 0,
        ;
        assert(4 * e * dh + 2 * e * dh == 6 * e * dh) by (nonlinear_arith);
    }
    let z = x.signed() - (rv - tv);
    assert(-(5 * e * dh) <= z * dh <= 5 * e * dh) by (nonlinear_arith)
        requires
            -(5 * e) <= z <= 5 * e,
            dh > 0,
    ;
    let xd = x.signed() * dh;
    assert(xd == (rv - tv) * dh + z * dh) by (nonlinear_arith)
        requires
            xd == x.signed() * dh,
            z == x.signed() - (rv - tv),
    ;
    let m = w * d - n * h;
    assert(6 * e * dh + 5 * e * dh == 11 * e * dh) by (nonlinear_arith);
    assert(-(11 * e * dh) <= xd - m * c <= 11 * e * dh);
    assert(av * dh == crate::single::size(xd)) by (nonlinear_arith)
        requires
            av == crate::single::size(x.signed()),
            xd == x.signed() * dh,
            dh > 0,
    ;
    assert(off * c == crate::single::size(m * c)) by (nonlinear_arith)
        requires
            off == crate::single::size(m),
            c > 0,
    ;
    assert(-(11 * e * dh) <= av * dh - off * c <= 11 * e * dh);
    // The quotient.
    assert(-(12 * e * tv) <= qv * tv - av * c <= 12 * e * tv);
    assert(qv <= 13 * c && qv >= -c) by (nonlinear_arith)
        requires
            -(12 * e * tv) <= qv * tv - av * c <= 12 * e * tv,
            0 <= av <= 12 * tv,
            tv > 0,
            c == e * 0x80_0000,
            e > 0,
    ;
    let k = qv * p - off * c;
    let s1 = qv * tv - av * c;
    let s2 = av * dh - off * c;
    let s3 = tv * d - n * c;
    assert(k * c == s1 * dh + s2 * c - qv * h * s3) by {
        assert(s1 * dh == qv * tv * dh - av * c * dh) by (nonlinear_arith)
            requires
                s1 == qv * tv - av * c,
        ;
        assert(s2 * c == av * c * dh - off * c * c) by (nonlinear_arith)
            requires
                s2 == av * dh - off * c,
        ;
        let y = h * s3;
        assert(y == tv * dh - p * c) by (nonlinear_arith)
            requires
                y == h * s3,
                s3 == tv * d - n * c,
                dh == d * h,
                p == n * h,
        ;
        assert(qv * h * s3 == qv * y) by (nonlinear_arith)
            requires
                y == h * s3,
        ;
        assert(qv * y == qv * tv * dh - qv * p * c) by (nonlinear_arith)
            requires
                y == tv * dh - p * c,
        ;
        assert(k * c == qv * p * c - off * c * c) by (nonlinear_arith)
            requires
                k == qv * p - off * c,
        ;
    }
    let ed = e * dh;
    assert(-(24 * (ed * c)) <= s1 * dh <= 24 * (ed * c)) by (nonlinear_arith)
        requires
            -(12 * e * tv) <= s1 <= 12 * e * tv,
            0 < 2 * tv <= 4 * c,
            ed == e * dh,
            e > 0,
            dh > 0,
    ;
    assert(-(11 * (ed * c)) <= s2 * c <= 11 * (ed * c)) by (nonlinear_arith)
        requires
            -(11 * e * dh) <= s2 <= 11 * e * dh,
            ed == e * dh,
            c > 0,
    ;
    assert(-(26 * (ed * c)) <= qv * h * s3 <= 26 * (ed * c)) by {
        let y = h * s3;
        assert(-(2 * ed) <= y <= 2 * ed) by (nonlinear_arith)
            requires
                y == h * s3,
                -(2 * e * d) <= s3 <= 2 * e * d,
                ed == e * dh,
                dh == d * h,
                h > 0,
        ;
        crate::near::lemma_bounded(qv, 13 * c, y, 2 * ed);
        assert(qv * h * s3 == qv * y && 13 * c * (2 * ed) == 26 * (ed * c)) by (nonlinear_arith)
            requires
                y == h * s3,
        ;
    }
    assert(61 * (ed * c) == (61 * ed) * c) by (nonlinear_arith);
    crate::near::lemma_divided(k, 61 * ed, c);
    assert(61 * ed <= 100 * e * p) by (nonlinear_arith)
        requires
            ed == e * dh,
            2 * dh <= 3 * p,
            e > 0,
            p > 0,
    ;
}

/// The distance from shape `i`, as it is measured.
pub open spec fn measured_off(w: u64, h: u64, i: int) -> Single {
    crate::aspect::aspect_error(
        Single::whole(w).over(Single::whole(h)),
        crate::aspect::candidate(i).0,
    )
}

/// `i` is the first of `n` shapes with the least measured distance.
pub open spec fn is_closest(w: u64, h: u64, i: int, n: int) -> bool {
    &&& 0 <= i < n
    &&& measured_off(w, h, i).signed() < Single::ratio(45, 1000).signed()
    &&& forall|j: int|
        0 <= j < n ==> measured_off(w, h, i).signed() <= (#[trigger] measured_off(
            w,
            h,
            j,
        )).signed()
}

proof fn lemma_closest(w: u64, h: u64, n: int)
    requires
        0 < w < 0x100_0000,
        0 < h < 0x100_0000,
        w <= 4 * h,
        0 <= n <= 9,
    ensures
        match crate::aspect::closest(Single::whole(w).over(Single::whole(h)), n) {
            Some((err, f)) => exists|i: int| #[trigger]
                is_closest(w, h, i, n) && err == measured_off(w, h, i) && f == shape(i).2,
            None => forall|j: int|
                0 <= j < n ==> (#[trigger] measured_off(w, h, j)).signed() >= Single::ratio(
                    45,
                    1000,
                ).signed(),
        },
    decreases n,
{
    if n > 0 {
        lemma_closest(w, h, n - 1);
        let ratio = Single::whole(w).over(Single::whole(h));
        let best = crate::aspect::closest(ratio, n - 1);
        lemma_error(w, h, n - 1);
        lemma_target(n - 1);
        crate::near::lemma_sizes();
        crate::near::lemma_ratio(45, 1000, 1);
        let err = measured_off(w, h, n - 1);
        crate::single::order_is_by_value(err, Single::ratio(45, 1000));
        if let Some((e0, f0)) = best {
            let i = choose|i: int| #[trigger]
                is_closest(w, h, i, n - 1) && e0 == measured_off(w, h, i) && f0 == shape(i).2;
            lemma_error(w, h, i);
            crate::single::order_is_by_value(err, e0);
            if err.less(Single::ratio(45, 1000)) && err.less(e0) {
                assert(is_closest(w, h, n - 1, n));
            } else {
                assert(is_closest(w, h, i, n));
            }
        } else if err.less(Single::ratio(45, 1000)) {
            assert(is_closest(w, h, n - 1, n));
        }
    }
}

/// Shape `i` is the nearest to a frame, up to a ten-thousandth, and near enough to be taken.
pub open spec fn is_nearest_shape(w: int, h: int, i: int) -> bool {
    &&& 0 <= i < 9
    &&& 1_000 * off_shape(w, h, i) <= 46 * whole_of(h, i)
    &&& forall|j: int|
        0 <= j < 9 ==> 10_000 * (off_shape(w, h, i) * whole_of(h, j)) <= 10_000 * (
        #[trigger] off_shape(w, h, j) * whole_of(h, i)) + whole_of(h, i) * whole_of(h, j)
}

proof fn lemma_compare(q1: int, o1: int, p1: int, q2: int, o2: int, p2: int)
    requires
        p1 > 0,
        p2 > 0,
        q1 <= q2,
        -(100 * crate::near::slip() * p1) <= q1 * p1 - o1 * crate::near::one() <= 100
            * crate::near::slip() * p1,
        -(100 * crate::near::slip() * p2) <= q2 * p2 - o2 * crate::near::one() <= 100
            * crate::near::slip() * p2,
    ensures
        10_000 * (o1 * p2) <= 10_000 * (o2 * p1) + p1 * p2,
{
    let c = crate::near::one();
    let e = crate::near::slip();
    crate::near::lemma_sizes();
    let pp = p1 * p2;
    assert(o1 * p2 * c <= q1 * pp + 100 * e * pp) by (nonlinear_arith)
        requires
            o1 * c <= q1 * p1 + 100 * e * p1,
            pp == p1 * p2,
            p2 > 0,
    ;
    assert(q2 * pp <= o2 * p1 * c + 100 * e * pp) by (nonlinear_arith)
        requires
            q2 * p2 <= o2 * c + 100 * e * p2,
            pp == p1 * p2,
            p1 > 0,
    ;
    assert(q1 * pp <= q2 * pp && pp > 0) by (nonlinear_arith)
        requires
            q1 <= q2,
            pp == p1 * p2,
            p1 > 0,
            p2 > 0,
    ;
    assert(100 * e * pp + 100 * e * pp == 200 * e * pp) by (nonlinear_arith);
    assert(10_000 * (o1 * p2) <= 10_000 * (o2 * p1) + pp) by (nonlinear_arith)
        requires
            o1 * p2 * c <= o2 * p1 * c + 200 * e * pp,
            c == e * 0x80_0000,
            e > 0,
            pp > 0,
    ;
}

/// The format of a crop is that of the shape nearest to it; there is none where no shape is
/// within four and a half percent.
pub proof fn formats_are_those_of_the_nearest_shape(b: Bounds)
    requires
        b.left < b.right,
        b.top < b.bottom,
        b.right - b.left < 0x100_0000,
        b.bottom - b.top < 0x100_0000,
        b.right - b.left <= 4 * (b.bottom - b.top),
    ensures
        ({
            let (w, h) = (b.right - b.left, b.bottom - b.top);
            match crate::aspect::snap_spec(b).1 {
                Some(f) => exists|i: int| #[trigger] is_nearest_shape(w, h, i) && shape(i).2 == f,
                None => forall|i: int|
                    0 <= i < 9 ==> 1_000 * #[trigger] off_shape(w, h, i) >= 44 * whole_of(h, i),
            }
        }),
{
    let (w, h) = ((b.right - b.left) as u64, (b.bottom - b.top) as u64);
    let (wi, hi) = (w as int, h as int);
    let ratio = Single::whole(w).over(Single::whole(h));
    let c = crate::near::one();
    let e = crate::near::slip();
    crate::near::lemma_sizes();
    crate::near::lemma_ratio(45, 1000, 1);
    let limit = Single::ratio(45, 1000).signed();
    lemma_closest(w, h, 9);
    match crate::aspect::closest(ratio, 9) {
        Some((err, f)) => {
            let i = choose|i: int| #[trigger]
                is_closest(w, h, i, 9) && err == measured_off(w, h, i) && f == shape(i).2;
            lemma_error(w, h, i);
            let (o, p) = (off_shape(wi, hi, i), whole_of(hi, i));
            let q = measured_off(w, h, i).signed();
            assert(p > 0) by (nonlinear_arith)
                requires
                    p == shape(i).0 * hi,
                    hi > 0,
                    shape(i).0 >= 1,
            ;
            assert(1_000 * o <= 46 * p) by (nonlinear_arith)
                requires
                    o * c <= q * p + 100 * e * p,
                    q < limit,
                    1_000 * limit <= 45 * c + 1_000 * e,
                    c == e * 0x80_0000,
                    e > 0,
                    p > 0,
            ;
            assert forall|j: int| 0 <= j < 9 implies 10_000 * (off_shape(wi, hi, i) * whole_of(
                hi,
                j,
            )) <= 10_000 * (#[trigger] off_shape(wi, hi, j) * whole_of(hi, i)) + whole_of(hi, i)
                * whole_of(hi, j) by {
                lemma_error(w, h, j);
                let pj = whole_of(hi, j);
                assert(pj > 0) by (nonlinear_arith)
                    requires
                        pj == shape(j).0 * hi,
                        hi > 0,
                        shape(j).0 >= 1,
                ;
                assert(measured_off(w, h, i).signed() <= measured_off(w, h, j).signed());
                lemma_compare(
                    q,
                    o,
                    p,
                    measured_off(w, h, j).signed(),
                    off_shape(wi, hi, j),
                    pj,
                );
            }
            assert(is_nearest_shape(wi, hi, i));
        },
        None => {
            assert forall|i: int| 0 <= i < 9 implies 1_000 * #[trigger] off_shape(wi, hi, i) >= 44
                * whole_of(hi, i) by {
                lemma_error(w, h, i);
                let (o, p) = (off_shape(wi, hi, i), whole_of(hi, i));
                let q = measured_off(w, h, i).signed();
                assert(q >= limit);
                assert(p > 0) by (nonlinear_arith)
                    requires
                        p == shape(i).0 * hi,
                        hi > 0,
                        shape(i).0 >= 1,
                ;
                assert(1_000 * o >= 44 * p) by (nonlinear_arith)
                    requires
                        o * c >= q * p - 100 * e * p,
                        q >= limit,
                        1_000 * limit >= 45 * c - 1_000 * e,
                        c == e * 0x80_0000,
                        e > 0,
                        p > 0,
                ;
            }
        },
    }
}

proof fn lemma_margin(lines: int, side: int)
    requires
        0 <= lines <= side,
        0 < side < 0x100_0000,
    ensures
        ({
            let v = crate::auto_crop::margin_spec(lines, side);
            &&& v.finite()
            &&& -(crate::near::slip() * side) <= v.signed() * side - lines * crate::near::one()
                <= crate::near::slip() * side
        }),
{
    let c = crate::near::one();
    let e = crate::near::slip();
    crate::near::lemma_sizes();
    crate::near::lemma_whole(lines as u64);
    crate::near::lemma_whole(side as u64);
    assert(0 <= lines * c <= 1 * (side * c) && side * c > 0) by (nonlinear_arith)
        requires
            0 <= lines <= side,
            side > 0,
            c > 0,
    ;
    crate::near::lemma_quotient(Single::whole(lines as u64), Single::whole(side as u64), 1);
    let v = crate::auto_crop::margin_spec(lines, side).signed();
    assert(-(e * side) <= v * side - lines * c <= e * side) by (nonlinear_arith)
        requires
            -(1 * e * (side * c)) <= v * (side * c) - lines * c * c <= 1 * e * (side * c),
            c > 0,
    ;
}

/// A margin is wider than a number of thousandths of its side, by one of them at least; or
/// narrower.
proof fn lemma_margin_against(lines: int, side: int, thousandths: u32)
    requires
        0 <= lines <= side,
        0 < side < 0x100_0000,
        0 < thousandths < 1000,
    ensures
        ({
            let v = crate::auto_crop::margin_spec(lines, side);
            let t = Single::ratio(thousandths, 1000);
            &&& v.finite()
            &&& t.finite()
            &&& 1000 * lines >= (thousandths + 1) * side ==> t.signed() < v.signed()
            &&& 1000 * lines <= (thousandths - 1) * side ==> v.signed() < t.signed()
        }),
{
    let c = crate::near::one();
    let e = crate::near::slip();
    crate::near::lemma_sizes();
    lemma_margin(lines, side);
    crate::near::lemma_ratio(thousandths, 1000, 1);
    let v = crate::auto_crop::margin_spec(lines, side).signed();
    let t = Single::ratio(thousandths, 1000).signed();
    let k = thousandths as int;
    if 1000 * lines >= (k + 1) * side {
        assert(t < v) by (nonlinear_arith)
            requires
                1000 * lines >= (k + 1) * side,
                v * side - lines * c >= -(e * side),
                t * 1000 - k * c <= 1 * e * 1000,
                c == e * 0x80_0000,
                e > 0,
                side > 0,
        ;
    }
    if 1000 * lines <= (k - 1) * side {
        assert(v < t) by (nonlinear_arith)
            requires
                1000 * lines <= (k - 1) * side,
                v * side - lines * c <= e * side,
                t * 1000 - k * c >= -(1 * e * 1000),
                c == e * 0x80_0000,
                e > 0,
                side > 0,
        ;
    }
}

/// Every margin of the bounds takes at least so many thousandths of its side.
pub open spec fn margins_at_least(b: Bounds, w: int, h: int, thousandths: int) -> bool {
    &&& 1000 * b.left >= thousandths * w
    &&& 1000 * (w - b.right) >= thousandths * w
    &&& 1000 * b.top >= thousandths * h
    &&& 1000 * (h - b.bottom) >= thousandths * h
}

/// Every margin of the bounds takes at most so many thousandths of its side.
pub open spec fn margins_at_most(b: Bounds, w: int, h: int, thousandths: int) -> bool {
    &&& 1000 * b.left <= thousandths * w
    &&& 1000 * (w - b.right) <= thousandths * w
    &&& 1000 * b.top <= thousandths * h
    &&& 1000 * (h - b.bottom) <= thousandths * h
}

/// Some margin of the bounds takes at most so many thousandths of its side.
pub open spec fn some_margin_at_most(b: Bounds, w: int, h: int, thousandths: int) -> bool {
    ||| 1000 * b.left <= thousandths * w
    ||| 1000 * (w - b.right) <= thousandths * w
    ||| 1000 * b.top <= thousandths * h
    ||| 1000 * (h - b.bottom) <= thousandths * h
}

/// Some margin of the bounds takes at least so many thousandths of its side.
pub open spec fn some_margin_at_least(b: Bounds, w: int, h: int, thousandths: int) -> bool {
    ||| 1000 * b.left >= thousandths * w
    ||| 1000 * (w - b.right) >= thousandths * w
    ||| 1000 * b.top >= thousandths * h
    ||| 1000 * (h - b.bottom) >= thousandths * h
}

proof fn lemma_sides(a: Single, b: Single, c: Single, d: Single, t: Single)
    requires
        a.finite(),
        b.finite(),
        c.finite(),
        d.finite(),
        t.finite(),
    ensures
        ({
            let least = a.smaller(b).smaller(c).smaller(d);
            let most = a.larger(b).larger(c).larger(d);
            let v = t.signed();
            &&& t.less(least) == (v < a.signed() && v < b.signed() && v < c.signed() && v
                < d.signed())
            &&& most.less(t) == (a.signed() < v && b.signed() < v && c.signed() < v && d.signed()
                < v)
        }),
{
    crate::near::lemma_smaller_larger(a, b);
    crate::near::lemma_smaller_larger(a.smaller(b), c);
    crate::near::lemma_smaller_larger(a.smaller(b).smaller(c), d);
    crate::near::lemma_smaller_larger(a.larger(b), c);
    crate::near::lemma_smaller_larger(a.larger(b).larger(c), d);
    crate::single::order_is_by_value(t, a.smaller(b).smaller(c).smaller(d));
    crate::single::order_is_by_value(a.larger(b).larger(c).larger(d), t);
}

/// A crop is sure where every margin takes more than two and a half percent of its side and less
/// than forty-five, in a surround of one kind. It is unsure where the surround is mixed and a
/// margin takes less than one and a half percent.
pub proof fn crops_are_sure_by_their_margins(
    b: Bounds,
    w: int,
    h: int,
    surround: crate::surround::SurroundClass,
)
    requires
        0 < w < 0x100_0000,
        0 < h < 0x100_0000,
        b.left <= w,
        b.right <= w,
        b.top <= h,
        b.bottom <= h,
    ensures
        ({
            let r = crate::auto_crop::confidence_spec(b, w, h, surround);
            let known = surround != crate::surround::SurroundClass::Mixed;
            let high = crate::auto_crop::CropConfidence::High;
            let medium = crate::auto_crop::CropConfidence::Medium;
            let low = crate::auto_crop::CropConfidence::Low;
            &&& margins_at_least(b, w, h, 26) && margins_at_most(b, w, h, 449) && known ==> r
                == high
            &&& margins_at_least(b, w, h, 26) && margins_at_most(b, w, h, 449) && !known ==> r
                == medium
            &&& some_margin_at_most(b, w, h, 24) && known ==> r == medium
            &&& some_margin_at_least(b, w, h, 451) && known ==> r == medium
            &&& margins_at_least(b, w, h, 16) && some_margin_at_most(b, w, h, 24) && !known ==> r
                == medium
            &&& some_margin_at_most(b, w, h, 14) && !known ==> r == low
        }),
{
    lemma_margin_against(b.left as int, w, 25);
    lemma_margin_against(w - b.right, w, 25);
    lemma_margin_against(b.top as int, h, 25);
    lemma_margin_against(h - b.bottom, h, 25);
    lemma_margin_against(b.left as int, w, 15);
    lemma_margin_against(w - b.right, w, 15);
    lemma_margin_against(b.top as int, h, 15);
    lemma_margin_against(h - b.bottom, h, 15);
    lemma_margin_against(b.left as int, w, 450);
    lemma_margin_against(w - b.right, w, 450);
    lemma_margin_against(b.top as int, h, 450);
    lemma_margin_against(h - b.bottom, h, 450);
    assert(Single::ratio(450, 1000) == Single::ratio(45, 100)) by {
        reveal(Single::ratio_spec);
        let p = vstd::arithmetic::power2::pow2(149);
        crate::single::lemma_scale(false, 45 * p, 100, 10);
        assert(45 * p * 10 == 450 * p);
    }
    let l = crate::auto_crop::margin_spec(b.left as int, w);
    let r = crate::auto_crop::margin_spec(w - b.right, w);
    let t = crate::auto_crop::margin_spec(b.top as int, h);
    let o = crate::auto_crop::margin_spec(h - b.bottom, h);
    lemma_sides(l, r, t, o, Single::ratio(25, 1000));
    lemma_sides(l, r, t, o, Single::ratio(15, 1000));
    lemma_sides(l, r, t, o, Single::ratio(45, 100));
}

/// The brightness of a pixel is the mean of its channels.
pub proof fn brightness_is_the_mean_of_the_channels(s: Seq<Single>, i: int)
    requires
        0 <= i < s.len() / 3,
        crate::film::plain(s),
    ensures
        ({
            let t = crate::film::transmittance(s)[i];
            let one = crate::near::one();
            let sum = s[3 * i].signed() + s[3 * i + 1].signed() + s[3 * i + 2].signed();
            &&& t.finite()
            &&& -one <= 100 * (3 * t.signed() - sum) <= one
        }),
{
    let c = crate::near::one();
    let e = crate::near::slip();
    crate::near::lemma_sizes();
    let (x, y, z) = (s[3 * i], s[3 * i + 1], s[3 * i + 2]);
    crate::near::lemma_sum(x, y, 2_000);
    crate::near::lemma_sum(x.plus(y), z, 3_001);
    crate::near::lemma_ratio(1, 3, 1);
    let a = x.plus(y).plus(z);
    let f = Single::ratio(1, 3);
    let (av, fv) = (a.signed(), f.signed());
    assert(0 <= 2 * fv <= c);
    crate::near::lemma_bounded(av, 3_002 * c, fv, c);
    assert(3_002 * c * c == 3_002 * (c * c)) by (nonlinear_arith);
    crate::near::lemma_product(a, f, 3_002);
    let t = a.times(f).signed();
    let k = t * c - av * fv;
    let m = 3 * fv - c;
    crate::near::lemma_bounded(av, 3_002 * c, m, 3 * e);
    let off = 3 * t - av;
    assert(off * c == 3 * k + av * m) by (nonlinear_arith)
        requires
            off == 3 * t - av,
            k == t * c - av * fv,
            m == 3 * fv - c,
    ;
    assert(3_002 * e * c == 3_002 * (e * c) && 3_002 * c * (3 * e) == 9_006 * (e * c) && 18_012 * e
        * c == 18_012 * (e * c)) by (nonlinear_arith);
    crate::near::lemma_divided(off, 18_012 * e, c);
}

/// The brightest channel of a pixel is one of the three, and none is brighter.
pub proof fn the_brightest_channel_is_one_of_three(s: Seq<Single>, i: int)
    requires
        0 <= i < s.len() / 3,
        crate::film::plain(s),
    ensures
        ({
            let t = crate::film::channel_max(s)[i];
            let (x, y, z) = (s[3 * i], s[3 * i + 1], s[3 * i + 2]);
            &&& t.finite()
            &&& t.signed() >= x.signed() && t.signed() >= y.signed() && t.signed() >= z.signed()
            &&& t.signed() == x.signed() || t.signed() == y.signed() || t.signed() == z.signed()
        }),
{
    let (x, y, z) = (s[3 * i], s[3 * i + 1], s[3 * i + 2]);
    crate::near::lemma_smaller_larger(x, y);
    crate::near::lemma_smaller_larger(x.larger(y), z);
}

proof fn lemma_format_aspect(ratio: Single, f: FilmFormat, n: int)
    requires
        0 <= n <= 9,
    ensures
        crate::aspect::format_aspect(ratio, f, n) matches Some(a) ==> exists|j: int|
            0 <= j < n && a == (#[trigger] crate::aspect::candidate(j)).0 && shape(j).2 == f,
    decreases n,
{
    if n > 0 {
        lemma_format_aspect(ratio, f, n - 1);
        lemma_target(n - 1);
    }
}

proof fn lemma_has_aspect(ratio: Single, f: FilmFormat, n: int, i: int)
    requires
        0 <= i < n <= 9,
        shape(i).2 == f,
    ensures
        crate::aspect::format_aspect(ratio, f, n) is Some,
    decreases n,
{
    lemma_target(n - 1);
    if i < n - 1 {
        lemma_has_aspect(ratio, f, n - 1, i);
    }
}

/// A side is cut by what exceeds a target, to the nearest pair of pixels.
proof fn lemma_cut_to(side: u64, target: Single, max: u64)
    requires
        0 < side < 0x8_0000,
        target.finite(),
        0 <= target.signed() <= side * crate::near::one(),
        max >= 0x8_0000,
    ensures
        ({
            let k = Single::whole(side).minus(target).times(Single::ratio(5, 10)).rounded().to_int(
                max,
            );
            let c = crate::near::one();
            -(6 * c) <= 5 * ((side - 2 * k) * c - target.signed()) <= 6 * c
        }),
{
    let c = crate::near::one();
    let e = crate::near::slip();
    crate::near::lemma_sizes();
    crate::near::lemma_whole(side);
    let tv = target.signed();
    assert(side * c < 0x8_0000 * c) by (nonlinear_arith)
        requires
            side < 0x8_0000,
            c > 0,
    ;
    crate::near::lemma_difference(Single::whole(side), target, 0x8_0000);
    let d = Single::whole(side).minus(target);
    let dv = d.signed();
    lemma_half_value();
    let h = Single::ratio(5, 10);
    assert(-(0x8_0001 * c * c) <= dv * h.signed() <= 0x8_0001 * c * c) by (nonlinear_arith)
        requires
            -(0x8_0001 * c) <= dv <= 0x8_0001 * c,
            2 * h.signed() == c,
            c > 0,
    ;
    crate::near::lemma_product(d, h, 0x8_0001);
    let x = d.times(h);
    let xv = x.signed();
    assert(-(0x10_0002 * e) <= 2 * xv - dv <= 0x10_0002 * e) by (nonlinear_arith)
        requires
            -(0x8_0001 * e * c) <= xv * c - dv * h.signed() <= 0x8_0001 * e * c,
            2 * h.signed() == c,
            c > 0,
    ;
    if xv >= 0 {
        let q = crate::near::lemma_rounded(x);
        let k = x.rounded().to_int(max);
        assert(q < 0x8_0000) by (nonlinear_arith)
            requires
                2 * (q * c) <= 2 * xv + c,
                xv <= 0x5_0000 * c,
                c > 0,
        ;
        assert(k == q);
        assert((side - 2 * k) * c == side * c - 2 * (q * c)) by (nonlinear_arith)
            requires
                k == q,
        ;
    } else {
        let k = x.rounded().to_int(max);
        reveal(Single::rounded_spec);
        reveal(Single::to_int_spec);
        assert(x.negative());
        let n = ((2 * x.units() + vstd::arithmetic::power2::pow2(149)) / (2
            * vstd::arithmetic::power2::pow2(149))) * vstd::arithmetic::power2::pow2(149);
        crate::single::lemma_round_is_a_number(true, n, 1);
        if n == 0 {
            crate::single::lemma_zero_rounds(true, 1);
        }
        assert(k == 0);
        assert((side - 2 * 0) * c == side * c);
    }
}

proof fn lemma_half_value()
    ensures
        Single::ratio(5, 10).finite(),
        2 * Single::ratio(5, 10).signed() == crate::near::one(),
{
    vstd::arithmetic::power2::lemma2_to64();
    let c = vstd::arithmetic::power2::pow2(149);
    let h = Single { bits: 0x3f00_0000 };
    assert(h.exp() == 125 && h.mant() == 0x80_0000 && !h.negative());
    vstd::arithmetic::power2::lemma_pow2_adds(23, 125);
    vstd::arithmetic::power2::lemma_pow2_unfold(149);
    assert(2 * h.units() == c);
    crate::single::lemma_ratio_bounds(5, 10, h, h);
    let t = Single::ratio(5, 10);
    assert(t.mag() == h.mag());
    crate::single::lemma_units_monotone(t, h);
}

/// A frame of `w` by `h` has shape `i`, but for two pixels of either side.
pub open spec fn has_shape(w: int, h: int, i: int) -> bool {
    let (n, d, f) = shape(i);
    -(2 * n + 2 * d) <= w * d - n * h <= 2 * n + 2 * d
}

/// A frame that was cut to a format has one of the shapes of that format.
pub proof fn cut_frames_have_the_shape_of_their_format(b: Bounds)
    requires
        b.left < b.right,
        b.top < b.bottom,
        b.right - b.left < 0x8_0000,
        b.bottom - b.top < 0x8_0000,
        b.right - b.left <= 4 * (b.bottom - b.top),
    ensures
        ({
            let (r, f) = crate::aspect::snap_spec(b);
            r != b ==> f is Some && exists|i: int|
                0 <= i < 9 && shape(i).2 == f->0 && #[trigger] has_shape(
                    r.right - r.left,
                    r.bottom - r.top,
                    i,
                )
        }),
{
    let c = crate::near::one();
    let e = crate::near::slip();
    crate::near::lemma_sizes();
    let (w, h) = ((b.right - b.left) as u64, (b.bottom - b.top) as u64);
    let ratio = Single::whole(w).over(Single::whole(h));
    let (r, hint) = crate::aspect::snap_spec(b);
    crate::aspect::snapping_moves_edges_in(b);
    lemma_closest(w, h, 9);
    if r != b {
        let (err, f) = crate::aspect::closest(ratio, 9)->0;
        let i = choose|i: int| #[trigger]
            is_closest(w, h, i, 9) && err == measured_off(w, h, i) && f == shape(i).2;
        lemma_has_aspect(ratio, f, 9, i);
        lemma_format_aspect(ratio, f, 9);
        let a = crate::aspect::format_aspect(ratio, f, 9)->0;
        let j = choose|j: int|
            0 <= j < 9 && a == (#[trigger] crate::aspect::candidate(j)).0 && shape(j).2 == f;
        lemma_target(j);
        let (n, d, g) = shape(j);
        let av = a.signed();
        crate::near::lemma_whole(w);
        crate::near::lemma_whole(h);
        assert(0 < w * c < 0x8_0000 * c && 0 < h * c < 0x8_0000 * c) by (nonlinear_arith)
            requires
                0 < w < 0x8_0000,
                0 < h < 0x8_0000,
                c > 0,
        ;
        assert(0 <= h * c * av <= 0x10_0000 * c * c) by (nonlinear_arith)
            requires
                0 < h < 0x8_0000,
                0 <= av <= 2 * c,
                c > 0,
        ;
        crate::near::lemma_product(Single::whole(h), a, 0x10_0000);
        crate::near::lemma_product_not_below(Single::whole(h), a);
        let tw = Single::whole(h).times(a);
        assert(w * c <= 0x10_0000 * av);
        crate::near::lemma_quotient(Single::whole(w), a, 0x10_0000);
        lemma_quotient_not_below(Single::whole(w), a);
        let th = Single::whole(w).over(a);
        crate::single::order_is_by_value(tw, Single::whole(w));
        crate::single::order_is_by_value(th, Single::whole(h));
        let (w2, h2) = (r.right - r.left, r.bottom - r.top);
        if tw.less(Single::whole(w)) {
            lemma_cut_to(w, tw, usize::MAX as u64);
            let k = Single::whole(w).minus(tw).times(Single::ratio(5, 10)).rounded().to_int(
                usize::MAX as u64,
            );
            crate::single::lemma_to_int_bound(
                Single::whole(w).minus(tw).times(Single::ratio(5, 10)).rounded(),
                usize::MAX as u64,
            );
            assert(r.left == b.left + k);
            assert(w2 == w - 2 * k);
            assert(h2 == h);
            let v = tw.signed();
            // v is h times the aspect, and w2 is v, both nearly.
            assert(-(0x10_0000 * e) * c <= v * c - h * c * av <= (0x10_0000 * e) * c)
                by (nonlinear_arith)
                requires
                    -(0x10_0000 * e * c) <= v * c - h * c * av <= 0x10_0000 * e * c,
            ;
            let x = v - h * av;
            assert(x * c == v * c - h * c * av) by (nonlinear_arith)
                requires
                    x == v - h * av,
            ;
            crate::near::lemma_divided(x, 0x10_0000 * e, c);
            lemma_shape(w2, h2, v, av, n, d, x);
            assert(has_shape(w2, h2, j));
        } else if th.less(Single::whole(h)) {
            lemma_cut_to(h, th, usize::MAX as u64);
            let k = Single::whole(h).minus(th).times(Single::ratio(5, 10)).rounded().to_int(
                usize::MAX as u64,
            );
            crate::single::lemma_to_int_bound(
                Single::whole(h).minus(th).times(Single::ratio(5, 10)).rounded(),
                usize::MAX as u64,
            );
            assert(r.top == b.top + k);
            assert(h2 == h - 2 * k);
            assert(w2 == w);
            let v = th.signed();
            let x = v * av - w * c * c;
            lemma_shape_down(w2, h2, v, av, n, d, x);
            assert(has_shape(w2, h2, j));
        }
    }
}

proof fn lemma_shape(w: int, h: int, v: int, a: int, n: int, d: int, x: int)
    requires
        1 <= n <= 7,
        1 <= d <= 7,
        0 < h < 0x8_0000,
        x == v - h * a,
        -(0x10_0000 * crate::near::slip()) <= x <= 0x10_0000 * crate::near::slip(),
        -(2 * crate::near::slip() * d) <= a * d - n * crate::near::one() <= 2 * crate::near::slip()
            * d,
        -(6 * crate::near::one()) <= 5 * (w * crate::near::one() - v) <= 6 * crate::near::one(),
    ensures
        -(2 * n + 2 * d) <= w * d - n * h <= 2 * n + 2 * d,
{
    let c = crate::near::one();
    let e = crate::near::slip();
    crate::near::lemma_sizes();
    let s = a * d - n * c;
    let y = w * c - v;
    let off = w * d - n * h;
    assert(off * c == y * d + x * d + s * h) by {
        assert(y * d == w * d * c - v * d) by (nonlinear_arith)
            requires
                y == w * c - v,
        ;
        assert(x * d == v * d - h * a * d) by (nonlinear_arith)
            requires
                x == v - h * a,
        ;
        assert(s * h == h * a * d - n * h * c) by (nonlinear_arith)
            requires
                s == a * d - n * c,
        ;
        assert(off * c == w * d * c - n * h * c) by (nonlinear_arith)
            requires
                off == w * d - n * h,
        ;
    }
    assert(-(6 * c * d) <= 5 * (y * d) <= 6 * c * d) by (nonlinear_arith)
        requires
            -(6 * c) <= 5 * y <= 6 * c,
            d >= 1,
    ;
    assert(-(c * d) <= 8 * (x * d) <= c * d) by (nonlinear_arith)
        requires
            -(0x10_0000 * e) <= x <= 0x10_0000 * e,
            c == e * 0x80_0000,
            d >= 1,
    ;
    assert(-(c * d) <= 8 * (s * h) <= c * d) by (nonlinear_arith)
        requires
            -(2 * e * d) <= s <= 2 * e * d,
            0 < h < 0x8_0000,
            c == e * 0x80_0000,
            e > 0,
            d >= 1,
    ;
    assert(6 * c * d == 6 * (c * d) && (2 * d) * c == 2 * (c * d)) by (nonlinear_arith);
    assert(-(2 * (c * d)) <= off * c <= 2 * (c * d)) by {
        assert(c * d >= 0) by (nonlinear_arith)
            requires
                c >= 0,
                d >= 0,
        ;
    }
    crate::near::lemma_divided(off, 2 * d, c);
}

proof fn lemma_shape_down(w: int, h: int, v: int, a: int, n: int, d: int, x: int)
    requires
        1 <= n <= 7,
        1 <= d <= 7,
        0 < w < 0x8_0000,
        crate::near::one() <= 2 * a <= 4 * crate::near::one(),
        x == v * a - w * crate::near::one() * crate::near::one(),
        -(0x10_0000 * crate::near::slip() * a) <= x <= 0x10_0000 * crate::near::slip() * a,
        -(2 * crate::near::slip() * d) <= a * d - n * crate::near::one() <= 2 * crate::near::slip()
            * d,
        -(6 * crate::near::one()) <= 5 * (h * crate::near::one() - v) <= 6 * crate::near::one(),
        0 <= v <= 0x8_0000 * crate::near::one(),
    ensures
        -(2 * n + 2 * d) <= w * d - n * h <= 2 * n + 2 * d,
{
    let c = crate::near::one();
    let e = crate::near::slip();
    crate::near::lemma_sizes();
    let s = a * d - n * c;
    let y = h * c - v;
    let off = n * h - w * d;
    // off·c·c = n·c·(y + v) - w·d·c·c, and v·a = w·c·c + x.
    let cc = c * c;
    let nc = n * c;
    assert(off * cc == nc * y + (nc * v - w * d * cc)) by {
        assert(nc * y == nc * (h * c) - nc * v) by (nonlinear_arith)
            requires
                y == h * c - v,
        ;
        assert(nc * (h * c) == n * h * cc) by (nonlinear_arith)
            requires
                nc == n * c,
                cc == c * c,
        ;
        assert(off * cc == n * h * cc - w * d * cc) by (nonlinear_arith)
            requires
                off == n * h - w * d,
        ;
    }
    assert(nc * v - w * d * cc == x * d - s * v) by {
        assert(x * d == v * a * d - w * d * cc) by (nonlinear_arith)
            requires
                x == v * a - w * c * c,
                cc == c * c,
        ;
        assert(s * v == v * a * d - nc * v) by (nonlinear_arith)
            requires
                s == a * d - nc,
        ;
    }
    assert(-(6 * cc * n) <= 5 * (nc * y) <= 6 * cc * n) by (nonlinear_arith)
        requires
            -(6 * c) <= 5 * y <= 6 * c,
            nc == n * c,
            cc == c * c,
            n >= 1,
            c > 0,
    ;
    assert(-(cc * d) <= 4 * (x * d) <= cc * d) by (nonlinear_arith)
        requires
            -(0x10_0000 * e * a) <= x <= 0x10_0000 * e * a,
            0 <= a <= 2 * c,
            c == e * 0x80_0000,
            cc == c * c,
            d >= 1,
            e > 0,
    ;
    assert(-(cc * d) <= 8 * (s * v) <= cc * d) by (nonlinear_arith)
        requires
            -(2 * e * d) <= s <= 2 * e * d,
            0 <= v <= 0x8_0000 * c,
            c == e * 0x80_0000,
            cc == c * c,
            d >= 1,
            e > 0,
    ;
    assert(6 * cc * n == 6 * (cc * n) && (2 * n + 2 * d) * cc == 2 * (cc * n) + 2 * (cc * d) && cc
        * n >= 0 && cc * d >= 0 && cc > 0) by (nonlinear_arith)
        requires
            cc == c * c,
            c > 0,
            n >= 1,
            d >= 1,
    ;
    crate::near::lemma_divided(off, 2 * n + 2 * d, cc);
}

} // verus!
