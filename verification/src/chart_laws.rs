//! What is measured of a colour chart.

use vstd::prelude::*;
use crate::calibration::PatchBox;
use crate::canvas::Point;
use crate::color::Triple;
use crate::film::FilmImage;
use crate::single::Single;

verus! {

/// The place of a patch along a side of `n` pixels, in units: from the middle of the first pixel
/// to the middle of the last.
pub open spec fn place_on(at: Single, n: int) -> int {
    let one = crate::near::one();
    (n - 1) * (if at.signed() < 0 {
        0
    } else if at.signed() > one {
        one
    } else {
        at.signed()
    })
}

/// Pixels from `from` to `to` reach `half` pixels from a place to either side, to the next whole
/// pixel, as far as the side of `n` pixels goes.
pub open spec fn reaches(from: int, to: int, at: Single, half: Single, n: int) -> bool {
    let one = crate::near::one();
    let low = place_on(at, n) - half.signed();
    let high = place_on(at, n) + half.signed();
    &&& 0 <= from
    &&& 32 * (from * one) <= 32 * (if low > 0 {
        low
    } else {
        0
    }) + one
    &&& 32 * low < 32 * ((from + 1) * one) + one
    &&& 0 <= to <= n - 1
    &&& 32 * ((to - 1) * one) < 32 * high + one
    &&& to < n - 1 ==> 32 * high <= 32 * (to * one) + one
}

proof fn lemma_reach(at: Single, half: Single, n: usize)
    requires
        at.finite(),
        half.finite(),
        0 <= half.signed() <= 0x1_0000 * crate::near::one(),
        0 < n <= 0x1_0000,
    ensures
        reaches(
            crate::calibration::box_from(at, half, n) as int,
            crate::calibration::box_to(at, half, n) as int,
            at,
            half,
            n as int,
        ),
{
    let c = crate::near::one();
    let e = crate::near::slip();
    crate::near::lemma_sizes();
    crate::near::lemma_whole(0);
    crate::near::lemma_whole(1);
    let last = (n - 1) as u64;
    crate::near::lemma_whole(n as u64);
    crate::near::lemma_whole(last);
    crate::near::lemma_held(at, Single::whole(0), Single::whole(1));
    let p = at.clamp(Single::whole(0), Single::whole(1));
    let pv = p.signed();
    assert(n * c - 1 * c == last * c) by (nonlinear_arith)
        requires
            last == n - 1,
    ;
    crate::near::lemma_exact_difference(Single::whole(n as u64), Single::whole(1), Single::whole(last));
    let w = Single::whole(n as u64).minus(Single::whole(1));
    let wv = w.signed();
    let m = place_on(at, n as int);
    assert(0 <= m <= last * c && m == pv * last) by (nonlinear_arith)
        requires
            0 <= pv <= c,
            m == last * pv,
            last >= 0,
    ;
    assert(last * c <= 0x1_0000 * c) by (nonlinear_arith)
        requires
            last <= 0x1_0000,
            c > 0,
    ;
    assert(pv * wv == m * c && 0 <= m * c <= 0x1_0000 * c * c) by (nonlinear_arith)
        requires
            wv == last * c,
            m == pv * last,
            0 <= m <= 0x1_0000 * c,
            c > 0,
    ;
    crate::near::lemma_product(p, w, 0x1_0000);
    crate::near::lemma_product_not_below(p, w);
    let x = p.times(w);
    let xv = x.signed();
    let off = xv - m;
    assert(off * c == xv * c - pv * wv) by (nonlinear_arith)
        requires
            off == xv - m,
            pv * wv == m * c,
    ;
    crate::near::lemma_divided(off, 0x1_0000 * e, c);
    let hv = half.signed();
    crate::near::lemma_difference(x, half, 0x3_0000);
    crate::near::lemma_sum(x, half, 0x3_0000);
    crate::near::lemma_sum_not_below(x, half);
    let low = x.minus(half);
    let high = x.plus(half);
    let a = crate::near::lemma_floored(low);
    let b = crate::near::lemma_ceiled(high);
    let from = crate::calibration::box_from(at, half, n);
    assert(from == a) by {
        assert(low.floored().to_int(usize::MAX as u64) == a);
    }
    assert((a + 1) * c == a * c + c && (b - 1) * c == b * c - c) by (nonlinear_arith);
    let up = high.ceiled().larger(Single::whole(0));
    crate::near::lemma_smaller_larger(high.ceiled(), Single::whole(0));
    let to = up.to_int(usize::MAX as u64);
    assert(to == b) by {
        if b > 0 {
            assert(b * c > 0) by (nonlinear_arith)
                requires
                    b > 0,
                    c > 0,
            ;
            crate::near::lemma_unique(up, high.ceiled());
        } else {
            assert(0 * c == 0);
            crate::near::lemma_cut(up, usize::MAX as u64);
            assert(to == 0) by (nonlinear_arith)
                requires
                    to * c <= 0,
                    c > 0,
            ;
        }
    }
    let end = crate::calibration::box_to(at, half, n);
    assert(end == if b < last {
        b
    } else {
        last as nat
    });
    if end != b {
        assert((last - 1) * c <= (b - 1) * c) by (nonlinear_arith)
            requires
                last <= b,
                c > 0,
        ;
    }
}

/// The pixels of a patch lie around its place: along the width by its first number, along the
/// height by its second.
pub proof fn patches_lie_around_their_place(at: Point, half: Single, w: usize, h: usize)
    requires
        at.x.finite(),
        at.y.finite(),
        half.finite(),
        0 <= half.signed() <= 0x1_0000 * crate::near::one(),
        0 < w <= 0x1_0000,
        0 < h <= 0x1_0000,
    ensures
        ({
            let b = crate::calibration::patch_box_spec(at, half, w, h);
            &&& reaches(b.x_min as int, b.x_max as int, at.x, half, w as int)
            &&& reaches(b.y_min as int, b.y_max as int, at.y, half, h as int)
        }),
{
    lemma_reach(at.x, half, w);
    lemma_reach(at.y, half, h);
}

/// The middle one of some values is one of them; no more than half of them are smaller, and more
/// than half are no larger.
pub proof fn medians_stand_in_the_middle(values: Seq<Single>)
    requires
        values.len() > 0,
    ensures
        ({
            let m = crate::calibration::median(values);
            &&& values.contains(m)
            &&& 2 * crate::stats::below(values, m.key()) <= values.len()
            &&& values.len() < 2 * crate::stats::below(values, m.key() + 1) + 1
        }),
{
    crate::stats::samples_are_ranked(values, values.len() as int / 2);
}

proof fn lemma_row_values(image: FilmImage, y: int, x0: int, x: int, c: int)
    requires
        x0 <= x,
    ensures
        crate::calibration::row_values(image, y, x0, x, c).len() == x - x0,
        forall|i: int|
            0 <= i < x - x0 ==> #[trigger] crate::calibration::row_values(image, y, x0, x, c)[i]
                == image.samples@[(y * image.width + (x0 + i)) * image.channels + c],
    decreases x - x0,
{
    if x > x0 {
        lemma_row_values(image, y, x0, x - 1, c);
    }
}

/// The values of a patch in a channel are the samples of that channel at its pixels, row by row.
pub proof fn patches_hold_their_pixels(
    image: FilmImage,
    b: PatchBox,
    c: int,
    x: int,
    y: int,
)
    requires
        b.x_min <= x <= b.x_max,
        b.y_min <= y <= b.y_max,
    ensures
        ({
            let w = b.x_max + 1 - b.x_min;
            let h = b.y_max + 1 - b.y_min;
            let v = crate::calibration::patch_values(image, b, c);
            &&& v.len() == w * h
            &&& v[(y - b.y_min) * w + (x - b.x_min)] == image.samples@[(y * image.width + x)
                * image.channels + c]
        }),
{
    lemma_block_values(
        image,
        b.x_min as int,
        b.x_max + 1,
        b.y_min as int,
        b.y_max + 1,
        c,
        x,
        y,
    );
}

proof fn lemma_block_values(
    image: FilmImage,
    x0: int,
    x1: int,
    y0: int,
    y1: int,
    c: int,
    x: int,
    y: int,
)
    requires
        x0 <= x < x1,
        y0 <= y1,
    ensures
        crate::calibration::block_values(image, x0, x1, y0, y1, c).len() == (x1 - x0) * (y1 - y0),
        y0 <= y < y1 ==> crate::calibration::block_values(image, x0, x1, y0, y1, c)[(y - y0) * (x1
            - x0) + (x - x0)] == image.samples@[(y * image.width + x) * image.channels + c],
    decreases y1 - y0,
{
    let w = x1 - x0;
    if y1 > y0 {
        lemma_block_values(image, x0, x1, y0, y1 - 1, c, x, y);
        lemma_row_values(image, y1 - 1, x0, x1, c);
        let head = crate::calibration::block_values(image, x0, x1, y0, y1 - 1, c);
        let row = crate::calibration::row_values(image, y1 - 1, x0, x1, c);
        let k = (y - y0) * w + (x - x0);
        assert(w * (y1 - y0) == w * (y1 - 1 - y0) + w && (y1 - 1 - y0) * w == w * (y1 - 1 - y0))
            by (nonlinear_arith);
        if y0 <= y < y1 - 1 {
            assert(0 <= k < w * (y1 - 1 - y0)) by (nonlinear_arith)
                requires
                    k == (y - y0) * w + (x - x0),
                    0 <= x - x0 < w,
                    0 <= y - y0,
                    y - y0 <= y1 - 1 - y0 - 1,
            ;
            assert((head + row)[k] == head[k]);
        } else if y == y1 - 1 {
            assert((head + row)[k] == row[x - x0]);
        }
    } else {
        assert((x1 - x0) * (y1 - y0) == 0) by (nonlinear_arith)
            requires
                y1 == y0,
        ;
    }
}

/// A difference, squared, in squared units.
pub open spec fn squared(a: Single, b: Single) -> int {
    (a.signed() - b.signed()) * (a.signed() - b.signed())
}

/// The squared differences of the first `n` triples in all three channels, added up.
pub open spec fn squares(pred: Seq<Triple>, want: Seq<Triple>, n: nat) -> int
    decreases n,
{
    if n == 0 {
        0
    } else {
        let (p, w) = (pred[n - 1], want[n - 1]);
        squares(pred, want, (n - 1) as nat) + squared(p.a, w.a) + squared(p.b, w.b) + squared(
            p.c,
            w.c,
        )
    }
}

/// Densities, each of them.
pub open spec fn are_densities(t: Triple) -> bool {
    crate::metrics::is_density(t.a) && crate::metrics::is_density(t.b) && crate::metrics::is_density(
        t.c,
    )
}

proof fn lemma_squared(a: Single, b: Single)
    requires
        crate::metrics::is_density(a),
        crate::metrics::is_density(b),
    ensures
        ({
            let d = a.minus(b);
            let x = d.times(d);
            let (c, e) = (crate::near::one(), crate::near::slip());
            &&& x.finite()
            &&& 0 <= squared(a, b) <= 256 * c * c
            &&& 0 <= x.signed() <= 300 * c
            &&& -(1_000 * e * c) <= x.signed() * c - squared(a, b) <= 1_000 * e * c
        }),
{
    let c = crate::near::one();
    let e = crate::near::slip();
    crate::near::lemma_sizes();
    crate::near::lemma_difference(a, b, 16);
    let d = a.minus(b);
    let dv = d.signed();
    let t = a.signed() - b.signed();
    crate::near::lemma_bounded(dv, 17 * c, dv, 17 * c);
    assert(17 * c * (17 * c) == 289 * c * c) by (nonlinear_arith);
    crate::near::lemma_product(d, d, 289);
    let x = d.times(d);
    let xv = x.signed();
    let s = t * t;
    assert(0 <= s <= 256 * c * c) by (nonlinear_arith)
        requires
            s == t * t,
            -(16 * c) <= t <= 16 * c,
            c > 0,
    ;
    let f = dv - t;
    crate::near::lemma_bounded(f, 16 * e, dv + t, 33 * c);
    assert(dv * dv - s == f * (dv + t)) by (nonlinear_arith)
        requires
            s == t * t,
            f == dv - t,
    ;
    assert(16 * e * (33 * c) == 528 * (e * c) && 289 * e * c == 289 * (e * c) && 1_000 * e * c
        == 1_000 * (e * c) && e * c > 0) by (nonlinear_arith)
        requires
            c > 0,
            e > 0,
    ;
    assert(xv <= 300 * c) by (nonlinear_arith)
        requires
            xv * c - s <= 1_000 * (e * c),
            s <= 256 * c * c,
            c == e * 0x80_0000,
            e > 0,
    ;
    lemma_square_not_below(d);
}

proof fn lemma_square_not_below(d: Single)
    requires
        d.finite(),
        d.times(d).finite(),
    ensures
        0 <= d.times(d).signed(),
{
    reveal(Single::times_spec);
    crate::near::lemma_sizes();
    crate::single::lemma_round_is_a_number(
        false,
        d.units() * d.units(),
        vstd::arithmetic::power2::pow2(149),
    );
}

proof fn lemma_error_sum(pred: Seq<Triple>, want: Seq<Triple>, n: nat)
    requires
        n <= 24,
        pred.len() == 24,
        want.len() == 24,
        forall|i: int| 0 <= i < 24 ==> are_densities(#[trigger] pred[i]),
        forall|i: int| 0 <= i < 24 ==> are_densities(#[trigger] want[i]),
    ensures
        ({
            let x = crate::calibration::error_sum(pred, want, n);
            let (c, e) = (crate::near::one(), crate::near::slip());
            &&& x.finite()
            &&& 0 <= x.signed() <= n * (1_000 * c)
            &&& 0 <= squares(pred, want, n) <= n * (768 * c * c)
            &&& -(n * (80_000 * e * c)) <= x.signed() * c - squares(pred, want, n) <= n * (80_000
                * e * c)
        }),
    decreases n,
{
    let c = crate::near::one();
    let e = crate::near::slip();
    crate::near::lemma_sizes();
    if n == 0 {
        crate::near::lemma_whole(0);
    } else {
        let m = (n - 1) as nat;
        lemma_error_sum(pred, want, m);
        let (p, w) = (pred[n - 1], want[n - 1]);
        assert(are_densities(pred[n - 1]) && are_densities(want[n - 1]));
        lemma_squared(p.a, w.a);
        lemma_squared(p.b, w.b);
        lemma_squared(p.c, w.c);
        let s = crate::calibration::error_sum(pred, want, m);
        let x = p.a.minus(w.a).times(p.a.minus(w.a));
        let y = p.b.minus(w.b).times(p.b.minus(w.b));
        let z = p.c.minus(w.c).times(p.c.minus(w.c));
        assert(m * (1_000 * c) <= 23_000 * c) by (nonlinear_arith)
            requires
                m <= 23,
                c > 0,
        ;
        crate::near::lemma_sum(s, x, 24_000);
        crate::near::lemma_sum_not_below(s, x);
        crate::near::lemma_sum(s.plus(x), y, 25_000);
        crate::near::lemma_sum_not_below(s.plus(x), y);
        crate::near::lemma_sum(s.plus(x).plus(y), z, 25_000);
        crate::near::lemma_sum_not_below(s.plus(x).plus(y), z);
        let r = s.plus(x).plus(y).plus(z).signed();
        let (sv, xv, yv, zv) = (s.signed(), x.signed(), y.signed(), z.signed());
        let k = r - sv - xv - yv - zv;
        crate::near::lemma_bounded(k, 74_000 * e, c, c);
        assert(k * c == r * c - sv * c - xv * c - yv * c - zv * c) by (nonlinear_arith)
            requires
                k == r - sv - xv - yv - zv,
        ;
        assert(n * (1_000 * c) == m * (1_000 * c) + 1_000 * c && n * (768 * c * c) == m * (768 * c
            * c) + 768 * c * c && n * (80_000 * e * c) == m * (80_000 * e * c) + 80_000 * e * c)
            by (nonlinear_arith)
            requires
                n == m + 1,
        ;
        assert(74_000 * e * c + 3 * (1_000 * e * c) <= 80_000 * e * c && 3 * (256 * c * c) == 768
            * c * c) by (nonlinear_arith)
            requires
                c > 0,
                e > 0,
        ;
    }
}

/// The error of a fit is the mean of all squared differences, three to a patch.
pub proof fn errors_are_mean_squares(pred: Seq<Triple>, want: Seq<Triple>)
    requires
        pred.len() == 24,
        want.len() == 24,
        forall|i: int| 0 <= i < 24 ==> are_densities(#[trigger] pred[i]),
        forall|i: int| 0 <= i < 24 ==> are_densities(#[trigger] want[i]),
    ensures
        ({
            let r = crate::calibration::error_sum(pred, want, 24).over(Single::whole(72));
            let one = crate::near::one();
            &&& r.finite()
            &&& -(one * one) <= 72 * r.signed() * one - squares(pred, want, 24) <= one * one
        }),
{
    let c = crate::near::one();
    let e = crate::near::slip();
    crate::near::lemma_sizes();
    lemma_error_sum(pred, want, 24);
    crate::near::lemma_whole(72);
    let s = crate::calibration::error_sum(pred, want, 24);
    crate::near::lemma_quotient(s, Single::whole(72), 400);
    let r = s.over(Single::whole(72)).signed();
    let sv = s.signed();
    let off = 72 * r - sv;
    assert(-(28_800 * e) <= off <= 28_800 * e) by (nonlinear_arith)
        requires
            off == 72 * r - sv,
            -(400 * e * (72 * c)) <= r * (72 * c) - sv * c <= 400 * e * (72 * c),
            c > 0,
    ;
    crate::near::lemma_bounded(off, 28_800 * e, c, c);
    assert(72 * r * c - sv * c == off * c) by (nonlinear_arith)
        requires
            off == 72 * r - sv,
    ;
    assert(28_800 * e * c + 24 * (80_000 * e * c) <= c * c) by (nonlinear_arith)
        requires
            c == e * 0x80_0000,
            e > 0,
    ;
}

/// Channel `c` of a patch of the chart.
pub open spec fn chart_byte(i: int, c: int) -> u8 {
    let p = crate::calibration::chart()[i];
    if c == 0 {
        p.0
    } else if c == 1 {
        p.1
    } else {
        p.2
    }
}

/// A closure of the machine that gives the same answer each time.
pub open spec fn always_the_same<L: Fn(Single) -> Single>(f: L) -> bool {
    forall|a: Single, x: Single, y: Single| #[trigger]
        f.ensures((a,), x) && #[trigger] f.ensures((a,), y) ==> x == y
}

proof fn lemma_one_density<L: Fn(Single) -> Single, P: Fn(Single, Single) -> Single>(
    log10: L,
    power: P,
    c: u8,
    d: Single,
    f: Single,
)
    requires
        always_the_same(log10),
        crate::print_laws::steady(power),
        crate::calibration::byte_density(log10, power, c, d),
        crate::calibration::byte_density(log10, power, c, f),
    ensures
        d == f,
{
    let v = crate::calibration::byte_part(c);
    let th = Single::ratio(1, 1_000_000);
    let x = choose|linear: Single| #[trigger]
        crate::color_space::decodes(power, v, linear) && crate::paper::density_of(
            log10,
            linear,
            th,
            d,
        );
    let y = choose|linear: Single| #[trigger]
        crate::color_space::decodes(power, v, linear) && crate::paper::density_of(
            log10,
            linear,
            th,
            f,
        );
    assert(x == y);
    let a = x.clamp(th, Single::whole(1));
    let p = choose|q: Single| #[trigger] log10.ensures((a,), q) && d == q.neg();
    let q = choose|q: Single| #[trigger] log10.ensures((a,), q) && f == q.neg();
    assert(p == q);
}

/// What a patch should measure in a channel goes by its byte in that channel alone: patches with
/// the same byte, in whatever channel, should measure the same there.
pub proof fn equal_bytes_have_equal_densities<
    L: Fn(Single) -> Single,
    P: Fn(Single, Single) -> Single,
>(log10: L, power: P, r: Seq<Triple>, i: int, c: int, j: int, d: int)
    requires
        always_the_same(log10),
        crate::print_laws::steady(power),
        crate::calibration::reference_by(log10, power, r),
        0 <= i < 24,
        0 <= c < 3,
        0 <= j < 24,
        0 <= d < 3,
        chart_byte(i, c) == chart_byte(j, d),
    ensures
        crate::blur_laws::part_of(r[i], c) == crate::blur_laws::part_of(r[j], d),
{
    let (x, y) = (crate::blur_laws::part_of(r[i], c), crate::blur_laws::part_of(r[j], d));
    assert(r[i] == r[i] && r[j] == r[j]);
    assert(crate::calibration::byte_density(log10, power, chart_byte(i, c), x));
    assert(crate::calibration::byte_density(log10, power, chart_byte(j, d), y));
    lemma_one_density(log10, power, chart_byte(i, c), x, y);
}

/// Bytes are parts of 255.
pub proof fn bytes_are_parts(c: u8)
    ensures
        crate::calibration::byte_part(c).finite(),
        -(255 * crate::near::slip()) <= 255 * crate::calibration::byte_part(c).signed() - c
            * crate::near::one() <= 255 * crate::near::slip(),
{
    let k = crate::near::one();
    let e = crate::near::slip();
    crate::near::lemma_sizes();
    crate::near::lemma_whole(c as u64);
    crate::near::lemma_whole(255);
    assert(0 <= c * k <= 1 * (255 * k)) by (nonlinear_arith)
        requires
            0 <= c <= 255,
            k > 0,
    ;
    crate::near::lemma_quotient(Single::whole(c as u64), Single::whole(255), 1);
    let v = crate::calibration::byte_part(c).signed();
    assert(-(255 * e) <= 255 * v - c * k <= 255 * e) by (nonlinear_arith)
        requires
            -(1 * e * (255 * k)) <= v * (255 * k) - c * k * k <= 1 * e * (255 * k),
            k > 0,
    ;
}

/// All pixels of an image have the same value in channel `c`.
pub open spec fn is_plain(image: FilmImage, c: int, v: Single) -> bool {
    forall|x: int, y: int|
        0 <= x < image.width && 0 <= y < image.height ==> #[trigger]
            crate::calibration::sample(image, x, y, c) == v
}

proof fn lemma_plain_row(image: FilmImage, y: int, x0: int, x: int, c: int, v: Single)
    requires
        is_plain(image, c, v),
        0 <= y < image.height,
        0 <= x0 <= x <= image.width,
    ensures
        forall|k: int|
            0 <= k < crate::calibration::row_values(image, y, x0, x, c).len() ==> #[trigger]
                crate::calibration::row_values(image, y, x0, x, c)[k] == v,
    decreases x - x0,
{
    if x > x0 {
        lemma_plain_row(image, y, x0, x - 1, c, v);
        assert(crate::calibration::sample(image, x - 1, y, c) == v);
        let head = crate::calibration::row_values(image, y, x0, x - 1, c);
        let all = crate::calibration::row_values(image, y, x0, x, c);
        assert forall|k: int| 0 <= k < all.len() implies #[trigger] all[k] == v by {
            if k < head.len() {
                assert(head[k] == v);
            }
        }
    }
}

proof fn lemma_plain_block(
    image: FilmImage,
    x0: int,
    x1: int,
    y0: int,
    y: int,
    c: int,
    v: Single,
)
    requires
        is_plain(image, c, v),
        0 <= y0 <= y <= image.height,
        0 <= x0 <= x1 <= image.width,
    ensures
        forall|k: int|
            0 <= k < crate::calibration::block_values(image, x0, x1, y0, y, c).len() ==> #[trigger]
                crate::calibration::block_values(image, x0, x1, y0, y, c)[k] == v,
    decreases y - y0,
{
    if y > y0 {
        lemma_plain_block(image, x0, x1, y0, y - 1, c, v);
        lemma_plain_row(image, y - 1, x0, x1, c, v);
        let head = crate::calibration::block_values(image, x0, x1, y0, y - 1, c);
        let row = crate::calibration::row_values(image, y - 1, x0, x1, c);
        let all = crate::calibration::block_values(image, x0, x1, y0, y, c);
        assert forall|k: int| 0 <= k < all.len() implies #[trigger] all[k] == v by {
            if k < head.len() {
                assert(head[k] == v);
            } else {
                assert(row[k - head.len()] == v);
            }
        }
    }
}

proof fn lemma_plain_median(image: FilmImage, b: PatchBox, c: int, v: Single)
    requires
        is_plain(image, c, v),
        b.x_min <= b.x_max < image.width,
        b.y_min <= b.y_max < image.height,
    ensures
        crate::calibration::median(crate::calibration::patch_values(image, b, c)) == v,
{
    let values = crate::calibration::patch_values(image, b, c);
    lemma_plain_block(
        image,
        b.x_min as int,
        b.x_max + 1,
        b.y_min as int,
        b.y_max + 1,
        c,
        v,
    );
    patches_hold_their_pixels(image, b, c, b.x_min as int, b.y_min as int);
    let w = b.x_max + 1 - b.x_min;
    let h = b.y_max + 1 - b.y_min;
    assert(w * h > 0) by (nonlinear_arith)
        requires
            w > 0,
            h > 0,
    ;
    medians_stand_in_the_middle(values);
    let m = crate::calibration::median(values);
    let k = choose|k: int| 0 <= k < values.len() && values[k] == m;
    assert(values[k] == v);
}

/// A plain image measures its own three values, red, green and blue, wherever a patch lies.
pub proof fn plain_images_measure_themselves(
    image: FilmImage,
    at: Point,
    half: Single,
    r: Single,
    g: Single,
    b: Single,
)
    requires
        is_plain(image, 0, r),
        is_plain(image, 1, g),
        is_plain(image, 2, b),
        ({
            let p = crate::calibration::patch_box_spec(at, half, image.width, image.height);
            p.x_min <= p.x_max < image.width && p.y_min <= p.y_max < image.height
        }),
    ensures
        crate::calibration::patch_median(image, at, half) == (Triple { a: r, b: g, c: b }),
{
    let p = crate::calibration::patch_box_spec(at, half, image.width, image.height);
    lemma_plain_median(image, p, 0, r);
    lemma_plain_median(image, p, 1, g);
    lemma_plain_median(image, p, 2, b);
}

} // verus!
