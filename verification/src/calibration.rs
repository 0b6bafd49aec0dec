//! Calibration on a colour chart: where its patches are, what they measure, and what they
//! should be.
//!
//! The chart has 24 patches in four rows of six. The matrix between measured and reference
//! densities is the least-squares one; its products and its inverse are the machine's.

use vstd::prelude::*;
use vstd::arithmetic::power2::*;
use crate::aces::Matrix;
use crate::canvas::Point;
use crate::color::Triple;
use crate::color_space::srgb_to_linear;
use crate::film::FilmImage;
use crate::options::{PipelineOptions, Rect};
use crate::paper::transmittance_to_density;
use crate::session::{extension_place, RAW_EXTENSIONS};
use crate::single::Single;
use crate::stats::sorted;
use crate::view::UvRect;

verus! {

/// The manufacturer's sRGB colours of the patches, row by row.
pub open spec fn chart() -> Seq<(u8, u8, u8)> {
    seq![
        (0x73, 0x52, 0x44),
        (0xc2, 0x96, 0x82),
        (0x62, 0x7a, 0x9d),
        (0x57, 0x6c, 0x43),
        (0x85, 0x80, 0xb1),
        (0x67, 0xbd, 0xaa),
        (0xd6, 0x7e, 0x2c),
        (0x50, 0x5b, 0xa6),
        (0xc1, 0x5a, 0x63),
        (0x5e, 0x3c, 0x6c),
        (0x9d, 0xbc, 0x40),
        (0xe0, 0xa3, 0x2e),
        (0x38, 0x3d, 0x96),
        (0x46, 0x94, 0x49),
        (0xaf, 0x36, 0x3c),
        (0xe7, 0xc7, 0x1f),
        (0xbb, 0x56, 0x95),
        (0x08, 0x85, 0xa1),
        (0xf3, 0xf3, 0xf3),
        (0xc8, 0xc8, 0xc8),
        (0xa0, 0xa0, 0xa0),
        (0x7a, 0x7a, 0x7a),
        (0x55, 0x55, 0x55),
        (0x34, 0x34, 0x34),
    ]
}

/// The manufacturer's sRGB colours of the 24 patches: natural colours, miscellaneous colours,
/// primaries and secondaries, greys.
pub fn colorchecker_classic_srgb_8bit() -> (r: Vec<(u8, u8, u8)>)
    ensures
        r@ == chart(),
        r@.len() == 24,
{
    let v: Vec<(u8, u8, u8)> = vec![
        (0x73, 0x52, 0x44),  // dark skin
        (0xc2, 0x96, 0x82),  // light skin
        (0x62, 0x7a, 0x9d),  // blue sky
        (0x57, 0x6c, 0x43),  // foliage
        (0x85, 0x80, 0xb1),  // blue flower
        (0x67, 0xbd, 0xaa),  // bluish green
        (0xd6, 0x7e, 0x2c),  // orange
        (0x50, 0x5b, 0xa6),  // purplish blue
        (0xc1, 0x5a, 0x63),  // moderate red
        (0x5e, 0x3c, 0x6c),  // purple
        (0x9d, 0xbc, 0x40),  // yellow green
        (0xe0, 0xa3, 0x2e),  // orange yellow
        (0x38, 0x3d, 0x96),  // blue
        (0x46, 0x94, 0x49),  // green
        (0xaf, 0x36, 0x3c),  // red
        (0xe7, 0xc7, 0x1f),  // yellow
        (0xbb, 0x56, 0x95),  // magenta
        (0x08, 0x85, 0xa1),  // cyan
        (0xf3, 0xf3, 0xf3),  // white
        (0xc8, 0xc8, 0xc8),  // neutral 8
        (0xa0, 0xa0, 0xa0),  // neutral 6.5
        (0x7a, 0x7a, 0x7a),  // neutral 5
        (0x55, 0x55, 0x55),  // neutral 3.5
        (0x34, 0x34, 0x34),  // black
    ];
    proof {
        assert(v@ =~= chart());
    }
    v
}

/// A byte as a part of one.
pub open spec fn byte_part(c: u8) -> Single {
    Single::whole(c as u64).over(Single::whole(255))
}

/// `d` is the density of an 8-bit sRGB value, by the machine's power and logarithm.
pub open spec fn byte_density<L: Fn(Single) -> Single, P: Fn(Single, Single) -> Single>(
    log10: L,
    power: P,
    c: u8,
    d: Single,
) -> bool {
    exists|linear: Single| #[trigger]
        crate::color_space::decodes(power, byte_part(c), linear) && crate::paper::density_of(
            log10,
            linear,
            Single::ratio(1, 1_000_000),
            d,
        )
}

fn density_of_byte<L: Fn(Single) -> Single, P: Fn(Single, Single) -> Single>(
    c: u8,
    log10: &L,
    power: &P,
) -> (r: Single)
    requires
        forall|a: Single| #[trigger] log10.requires((a,)),
        forall|a: Single, b: Single| #[trigger] power.requires((a, b)),
    ensures
        byte_density(*log10, *power, c, r),
{
    let v: Single = Single::whole(c as u64).over(Single::whole(255));
    let linear: Single = srgb_to_linear(v, power);
    assert(crate::color_space::decodes(*power, byte_part(c), linear));
    transmittance_to_density(linear, Single::ratio(1, 1_000_000), log10)
}

/// `r` are the densities that the patches of the chart should have.
pub open spec fn reference_by<L: Fn(Single) -> Single, P: Fn(Single, Single) -> Single>(
    log10: L,
    power: P,
    r: Seq<Triple>,
) -> bool {
    &&& r.len() == 24
    &&& forall|i: int|
        0 <= i < 24 ==> byte_density(log10, power, chart()[i].0, (#[trigger] r[i]).a)
            && byte_density(log10, power, chart()[i].1, r[i].b) && byte_density(
            log10,
            power,
            chart()[i].2,
            r[i].c,
        )
}

/// Densities that the patches should have: their sRGB colours, made linear, as densities.
pub fn reference_density_24<L: Fn(Single) -> Single, P: Fn(Single, Single) -> Single>(
    log10: &L,
    power: &P,
) -> (r: Vec<Triple>)
    requires
        forall|a: Single| #[trigger] log10.requires((a,)),
        forall|a: Single, b: Single| #[trigger] power.requires((a, b)),
    ensures
        reference_by(*log10, *power, r@),
{
    let patches: Vec<(u8, u8, u8)> = colorchecker_classic_srgb_8bit();
    let mut out: Vec<Triple> = Vec::new();
    let mut i: usize = 0;
    while i < 24
        invariant
            i <= 24,
            patches@ == chart(),
            patches@.len() == 24,
            out@.len() == i,
            forall|a: Single| #[trigger] log10.requires((a,)),
            forall|a: Single, b: Single| #[trigger] power.requires((a, b)),
            forall|k: int|
                0 <= k < i ==> byte_density(*log10, *power, chart()[k].0, (#[trigger] out@[k]).a)
                    && byte_density(*log10, *power, chart()[k].1, out@[k].b) && byte_density(
                    *log10,
                    *power,
                    chart()[k].2,
                    out@[k].c,
                ),
        decreases 24 - i,
    {
        let (r, g, b) = patches[i];
        out.push(
            Triple {
                a: density_of_byte(r, log10, power),
                b: density_of_byte(g, log10, power),
                c: density_of_byte(b, log10, power),
            },
        );
        i = i + 1;
    }
    out
}

/// `d` are the densities of three transmittances.
pub open spec fn densities<L: Fn(Single) -> Single>(log10: L, t: Triple, d: Triple) -> bool {
    &&& crate::paper::density_of(log10, t.a, Single::ratio(1, 1_000_000), d.a)
    &&& crate::paper::density_of(log10, t.b, Single::ratio(1, 1_000_000), d.b)
    &&& crate::paper::density_of(log10, t.c, Single::ratio(1, 1_000_000), d.c)
}

/// Densities of the transmittances that the patches measure.
pub fn linear_to_density_24<L: Fn(Single) -> Single>(patches: &Vec<Triple>, log10: &L) -> (r: Vec<
    Triple,
>)
    requires
        forall|a: Single| #[trigger] log10.requires((a,)),
    ensures
        r@.len() == patches@.len(),
        forall|i: int|
            0 <= i < r@.len() ==> densities(*log10, patches@[i], #[trigger] r@[i]),
{
    let least: Single = Single::ratio(1, 1_000_000);
    let mut out: Vec<Triple> = Vec::new();
    let mut i: usize = 0;
    while i < patches.len()
        invariant
            i <= patches.len(),
            least == Single::ratio(1, 1_000_000),
            out@.len() == i,
            forall|a: Single| #[trigger] log10.requires((a,)),
            forall|k: int|
                0 <= k < i ==> densities(*log10, patches@[k], #[trigger] out@[k]),
        decreases patches.len() - i,
    {
        let t: Triple = patches[i];
        out.push(
            Triple {
                a: transmittance_to_density(t.a, least, log10),
                b: transmittance_to_density(t.b, least, log10),
                c: transmittance_to_density(t.c, least, log10),
            },
        );
        i = i + 1;
    }
    out
}

/// The chart on the preview, by its corners, from zero to one each way.
#[derive(Debug, Clone, Copy, PartialEq, Eq, Structural)]
pub struct ChartCorners {
    pub top_left: Point,
    pub top_right: Point,
    pub bottom_left: Point,
    pub bottom_right: Point,
}

impl ChartCorners {
    /// The chart before it has been placed: the middle of the picture.
    pub fn centred() -> (r: ChartCorners)
        ensures
            r.top_left == (Point { x: Single::ratio(1, 5), y: Single::ratio(1, 5) }),
            r.top_right == (Point { x: Single::ratio(4, 5), y: Single::ratio(1, 5) }),
            r.bottom_left == (Point { x: Single::ratio(1, 5), y: Single::ratio(4, 5) }),
            r.bottom_right == (Point { x: Single::ratio(4, 5), y: Single::ratio(4, 5) }),
    {
        let near: Single = Single::ratio(1, 5);
        let far: Single = Single::ratio(4, 5);
        ChartCorners {
            top_left: Point { x: near, y: near },
            top_right: Point { x: far, y: near },
            bottom_left: Point { x: near, y: far },
            bottom_right: Point { x: far, y: far },
        }
    }
}

/// A point between two others.
pub open spec fn between(a: Point, b: Point, t: Single) -> Point {
    let rest = Single::whole(1).minus(t);
    Point { x: rest.times(a.x).plus(t.times(b.x)), y: rest.times(a.y).plus(t.times(b.y)) }
}

fn lerp(a: Point, b: Point, t: Single) -> (r: Point)
    ensures
        r == between(a, b, t),
{
    let rest: Single = Single::whole(1).minus(t);
    Point { x: rest.times(a.x).plus(t.times(b.x)), y: rest.times(a.y).plus(t.times(b.y)) }
}

/// Centre of the patch in a row and a column.
pub open spec fn patch_centre(corners: ChartCorners, row: int, col: int) -> Point {
    let v = Single::whole(row as u64).over(Single::whole(4).minus(Single::whole(1)));
    let u = Single::whole(col as u64).over(Single::whole(6).minus(Single::whole(1)));
    between(
        between(corners.top_left, corners.bottom_left, v),
        between(corners.top_right, corners.bottom_right, v),
        u,
    )
}

/// Centres of the 24 patches between the corners of the chart.
pub fn compute_patch_centers_normalized(corners: ChartCorners) -> (r: Vec<Point>)
    ensures
        r@.len() == 24,
        forall|row: int, col: int|
            0 <= row < 4 && 0 <= col < 6 ==> #[trigger] r@[row * 6 + col] == patch_centre(
                corners,
                row,
                col,
            ),
        numbered(corners) ==> {
            &&& same_place(r@[0], corners.top_left)
            &&& same_place(r@[5], corners.top_right)
            &&& same_place(r@[18], corners.bottom_left)
            &&& same_place(r@[23], corners.bottom_right)
        },
        near_the_picture(corners) ==> forall|k: int|
            0 <= k < 24 ==> {
                &&& is_weighted_mean(
                    (#[trigger] r@[k]).x,
                    corners.top_left.x,
                    corners.top_right.x,
                    corners.bottom_left.x,
                    corners.bottom_right.x,
                    k / 6,
                    k % 6,
                )
                &&& is_weighted_mean(
                    r@[k].y,
                    corners.top_left.y,
                    corners.top_right.y,
                    corners.bottom_left.y,
                    corners.bottom_right.y,
                    k / 6,
                    k % 6,
                )
            },
{
    let rows: Single = Single::whole(4).minus(Single::whole(1));
    let cols: Single = Single::whole(6).minus(Single::whole(1));
    let mut out: Vec<Point> = Vec::new();
    let mut i: usize = 0;
    while i < 24
        invariant
            i <= 24,
            out@.len() == i,
            rows == Single::whole(4).minus(Single::whole(1)),
            cols == Single::whole(6).minus(Single::whole(1)),
            forall|k: int| 0 <= k < i ==> #[trigger] out@[k] == patch_centre(corners, k / 6, k % 6),
        decreases 24 - i,
    {
        let v: Single = Single::whole((i / 6) as u64).over(rows);
        let u: Single = Single::whole((i % 6) as u64).over(cols);
        let left: Point = lerp(corners.top_left, corners.bottom_left, v);
        let right: Point = lerp(corners.top_right, corners.bottom_right, v);
        out.push(lerp(left, right, u));
        i = i + 1;
    }
    proof {
        assert forall|row: int, col: int| 0 <= row < 4 && 0 <= col < 6 implies #[trigger] out@[row
            * 6 + col] == patch_centre(corners, row, col) by {
            let k = row * 6 + col;
            assert(k / 6 == row && k % 6 == col);
        }
        if numbered(corners) {
            outer_patches_lie_on_the_corners(corners);
        }
        if near_the_picture(corners) {
            assert forall|k: int| 0 <= k < 24 implies {
                &&& is_weighted_mean(
                    (#[trigger] out@[k]).x,
                    corners.top_left.x,
                    corners.top_right.x,
                    corners.bottom_left.x,
                    corners.bottom_right.x,
                    k / 6,
                    k % 6,
                )
                &&& is_weighted_mean(
                    out@[k].y,
                    corners.top_left.y,
                    corners.top_right.y,
                    corners.bottom_left.y,
                    corners.bottom_right.y,
                    k / 6,
                    k % 6,
                )
            } by {
                patches_lie_between_the_corners(corners, k / 6, k % 6);
            }
        }
    }
    out
}

/// A point between two others lies where their weighted mean does, to rounding.
proof fn lemma_between(a: Single, b: Single, t: Single, p: int, q: int)
    requires
        a.finite(),
        b.finite(),
        t.finite(),
        -2 * crate::near::one() <= a.signed() <= 2 * crate::near::one(),
        -2 * crate::near::one() <= b.signed() <= 2 * crate::near::one(),
        0 <= p <= q <= 8,
        1 <= q,
        -(crate::near::slip() * q) <= t.signed() * q - p * crate::near::one()
            <= crate::near::slip() * q,
    ensures
        ({
            let m = Single::whole(1).minus(t).times(a).plus(t.times(b));
            &&& m.finite()
            &&& -(22 * crate::near::slip() * q) <= m.signed() * q - ((q - p) * a.signed() + p
                * b.signed()) <= 22 * crate::near::slip() * q
        }),
{
    crate::near::lemma_sizes();
    crate::near::lemma_whole(1);
    let c = crate::near::one();
    let e = crate::near::slip();
    let (av, bv, tv) = (a.signed(), b.signed(), t.signed());
    assert(-e <= tv <= c + e) by (nonlinear_arith)
        requires
            -(e * q) <= tv * q - p * c <= e * q,
            0 <= p <= q,
            q >= 1,
            c >= 0,
            e >= 0,
    ;
    let rest = Single::whole(1).minus(t);
    crate::near::lemma_difference(Single::whole(1), t, 2);
    let rv = rest.signed();
    assert(-(3 * c * c) <= rv * av <= 3 * c * c && -(3 * c * c) <= tv * bv <= 3 * c * c)
        by (nonlinear_arith)
        requires
            -3 * e <= rv <= c + 3 * e,
            -e <= tv <= c + e,
            -2 * c <= av <= 2 * c,
            -2 * c <= bv <= 2 * c,
            c == e * 0x80_0000,
            e > 0,
    {
        assert(-(2 * c) * (c + 3 * e) <= rv * av <= 2 * c * (c + 3 * e));
        assert(-(2 * c) * (c + 3 * e) <= tv * bv <= 2 * c * (c + 3 * e));
        assert(2 * c * (c + 3 * e) <= 3 * c * c);
    }
    let x = rest.times(a);
    let y = t.times(b);
    crate::near::lemma_product(rest, a, 3);
    crate::near::lemma_product(t, b, 3);
    let (xv, yv) = (x.signed(), y.signed());
    assert(-4 * c <= xv <= 4 * c && -4 * c <= yv <= 4 * c) by (nonlinear_arith)
        requires
            -(3 * e * c) <= xv * c - rv * av <= 3 * e * c,
            -(3 * e * c) <= yv * c - tv * bv <= 3 * e * c,
            -(3 * c * c) <= rv * av <= 3 * c * c,
            -(3 * c * c) <= tv * bv <= 3 * c * c,
            c == e * 0x80_0000,
            e > 0,
    ;
    crate::near::lemma_sum(x, y, 8);
    let m = x.plus(y);
    let mv = m.signed();
    crate::near::lemma_bounded(mv - (xv + yv), 8 * e, c, c);
    assert((mv - (xv + yv)) * c == mv * c - xv * c - yv * c) by (nonlinear_arith);
    crate::near::lemma_bounded(rv - (c - tv), 2 * e, av, 2 * c);
    assert((rv - (c - tv)) * av == rv * av - c * av + tv * av) by (nonlinear_arith);
    let g = bv - av;
    assert(tv * g == tv * bv - tv * av) by (nonlinear_arith)
        requires
            g == bv - av,
    ;
    let s = e * c;
    assert(8 * e * c == 8 * s && 3 * e * c == 3 * s && 2 * e * (2 * c) == 4 * s)
        by (nonlinear_arith)
        requires
            s == e * c,
    ;
    let near = mv * c - (c * av + tv * g);
    assert(-(18 * s) <= near <= 18 * s);
    crate::near::lemma_bounded(near, 18 * s, q, q);
    crate::near::lemma_bounded(tv * q - p * c, e * q, g, 4 * c);
    let off = mv * q - ((q - p) * av + p * bv);
    assert(off * c == near * q + (tv * q - p * c) * g) by {
        assert((q - p) * av + p * bv == q * av + p * g) by (nonlinear_arith)
            requires
                g == bv - av,
        ;
        assert((mv * q - (q * av + p * g)) * c == mv * c * q - c * av * q - p * c * g)
            by (nonlinear_arith);
        assert((mv * c - (c * av + tv * g)) * q == mv * c * q - c * av * q - tv * g * q)
            by (nonlinear_arith);
        assert((tv * q - p * c) * g == tv * g * q - p * c * g) by (nonlinear_arith);
    }
    assert(18 * s * q + e * q * (4 * c) == (22 * e * q) * c) by (nonlinear_arith)
        requires
            s == e * c,
    ;
    crate::near::lemma_divided(off, 22 * e * q, c);
}

/// A line counted among lines that are evenly apart, from the first at zero to the last at one.
proof fn lemma_even_part(n: u64, lines: u64)
    requires
        n < lines <= 8,
        lines >= 2,
    ensures
        ({
            let v = Single::whole(n).over(Single::whole(lines).minus(Single::whole(1)));
            &&& v.finite()
            &&& -(crate::near::slip() * (lines - 1)) <= v.signed() * (lines - 1) - n
                * crate::near::one() <= crate::near::slip() * (lines - 1)
            &&& n == 0 ==> v.signed() == 0
            &&& n == lines - 1 ==> v.signed() == crate::near::one()
        }),
{
    let c = crate::near::one();
    let e = crate::near::slip();
    let last = (lines - 1) as u64;
    crate::near::lemma_sizes();
    crate::near::lemma_whole(n);
    crate::near::lemma_whole(lines);
    crate::near::lemma_whole(1);
    crate::near::lemma_whole(last);
    let w = Single::whole(last);
    assert(lines * c - 1 * c == last * c) by (nonlinear_arith)
        requires
            last == lines - 1,
    ;
    crate::near::lemma_exact_difference(Single::whole(lines), Single::whole(1), w);
    let d = Single::whole(lines).minus(Single::whole(1));
    let a = Single::whole(n);
    assert(0 <= n * c <= 1 * (last * c) && last * c > 0) by (nonlinear_arith)
        requires
            0 <= n <= last,
            last >= 1,
            c > 0,
    ;
    crate::near::lemma_quotient(a, d, 1);
    let v = a.over(d).signed();
    assert(-(e * last) <= v * last - n * c <= e * last) by (nonlinear_arith)
        requires
            -(1 * e * (last * c)) <= v * (last * c) - n * c * c <= 1 * e * (last * c),
            c > 0,
    ;
    if n == 0 {
        reveal(Single::over_spec);
        crate::single::lemma_zero();
        crate::single::lemma_units_positive(d);
        crate::single::lemma_zero_rounds(false, d.units());
        assert(0 * pow2(149) == 0);
    }
    if n == last {
        reveal(Single::over_spec);
        crate::single::lemma_units_positive(d);
        assert(d.units() == a.units());
        assert(!d.negative());
        crate::single::lemma_over_itself(d);
        crate::single::lemma_units_positive(a);
        assert(a.over(d) == d.over(d));
    }
}

/// Both points lie in the same place.
pub open spec fn same_place(a: Point, b: Point) -> bool {
    crate::near::same_value(a.x, b.x) && crate::near::same_value(a.y, b.y)
}

/// The corners of the chart are numbers.
pub open spec fn numbered(corners: ChartCorners) -> bool {
    &&& corners.top_left.x.finite() && corners.top_left.y.finite()
    &&& corners.top_right.x.finite() && corners.top_right.y.finite()
    &&& corners.bottom_left.x.finite() && corners.bottom_left.y.finite()
    &&& corners.bottom_right.x.finite() && corners.bottom_right.y.finite()
}

proof fn lemma_ends(a: Single, b: Single, t: Single)
    requires
        a.finite(),
        b.finite(),
        t.finite(),
        t.signed() == 0 || t.signed() == crate::near::one(),
    ensures
        crate::near::same_value(
            Single::whole(1).minus(t).times(a).plus(t.times(b)),
            if t.signed() == 0 {
                a
            } else {
                b
            },
        ),
{
    crate::near::lemma_sizes();
    crate::near::lemma_whole(1);
    crate::near::lemma_whole(0);
    let rest = Single::whole(1).minus(t);
    if t.signed() == 0 {
        crate::near::lemma_exact_difference(Single::whole(1), t, Single::whole(1));
        crate::near::lemma_once(rest, a);
        crate::near::lemma_none(t, b);
        crate::near::lemma_exact_sum(rest.times(a), t.times(b), a);
    } else {
        crate::near::lemma_exact_difference(Single::whole(1), t, Single::whole(0));
        crate::near::lemma_none(rest, a);
        crate::near::lemma_once(t, b);
        crate::near::lemma_exact_sum(rest.times(a), t.times(b), b);
    }
}

proof fn lemma_corner(corners: ChartCorners, row: int, col: int)
    requires
        numbered(corners),
        row == 0 || row == 3,
        col == 0 || col == 5,
    ensures
        same_place(
            patch_centre(corners, row, col),
            if row == 0 && col == 0 {
                corners.top_left
            } else if row == 0 {
                corners.top_right
            } else if col == 0 {
                corners.bottom_left
            } else {
                corners.bottom_right
            },
        ),
{
    lemma_even_part(row as u64, 4);
    lemma_even_part(col as u64, 6);
    crate::near::lemma_sizes();
    let v = Single::whole(row as u64).over(Single::whole(4).minus(Single::whole(1)));
    let u = Single::whole(col as u64).over(Single::whole(6).minus(Single::whole(1)));
    let left = between(corners.top_left, corners.bottom_left, v);
    let right = between(corners.top_right, corners.bottom_right, v);
    lemma_ends(corners.top_left.x, corners.bottom_left.x, v);
    lemma_ends(corners.top_left.y, corners.bottom_left.y, v);
    lemma_ends(corners.top_right.x, corners.bottom_right.x, v);
    lemma_ends(corners.top_right.y, corners.bottom_right.y, v);
    lemma_ends(left.x, right.x, u);
    lemma_ends(left.y, right.y, u);
}

/// The outer patches of the chart are centred on its corners, each on its own.
pub proof fn outer_patches_lie_on_the_corners(corners: ChartCorners)
    requires
        numbered(corners),
    ensures
        same_place(patch_centre(corners, 0, 0), corners.top_left),
        same_place(patch_centre(corners, 0, 5), corners.top_right),
        same_place(patch_centre(corners, 3, 0), corners.bottom_left),
        same_place(patch_centre(corners, 3, 5), corners.bottom_right),
{
    lemma_corner(corners, 0, 0);
    lemma_corner(corners, 0, 5);
    lemma_corner(corners, 3, 0);
    lemma_corner(corners, 3, 5);
}

/// A coordinate that lies from minus one to one.
pub open spec fn is_near_the_picture(v: Single) -> bool {
    v.finite() && -crate::near::one() <= v.signed() <= crate::near::one()
}

/// All corners lie on the picture or no further from it than its size.
pub open spec fn near_the_picture(corners: ChartCorners) -> bool {
    &&& is_near_the_picture(corners.top_left.x) && is_near_the_picture(corners.top_left.y)
    &&& is_near_the_picture(corners.top_right.x) && is_near_the_picture(corners.top_right.y)
    &&& is_near_the_picture(corners.bottom_left.x) && is_near_the_picture(corners.bottom_left.y)
    &&& is_near_the_picture(corners.bottom_right.x) && is_near_the_picture(corners.bottom_right.y)
}

/// `v` lies within a hundred-thousandth of the mean of four coordinates, of which each weighs the
/// more the nearer the row and the column are to it.
pub open spec fn is_weighted_mean(
    v: Single,
    top_left: Single,
    top_right: Single,
    bottom_left: Single,
    bottom_right: Single,
    row: int,
    col: int,
) -> bool {
    let sum = (3 - row) * (5 - col) * top_left.signed() + (3 - row) * col * top_right.signed() + row
        * (5 - col) * bottom_left.signed() + row * col * bottom_right.signed();
    &&& v.finite()
    &&& -(15 * crate::near::one()) <= (15 * v.signed() - sum) * 100_000 <= 15 * crate::near::one()
}

proof fn lemma_weighted(
    top_left: Single,
    top_right: Single,
    bottom_left: Single,
    bottom_right: Single,
    row: int,
    col: int,
)
    requires
        is_near_the_picture(top_left),
        is_near_the_picture(top_right),
        is_near_the_picture(bottom_left),
        is_near_the_picture(bottom_right),
        0 <= row < 4,
        0 <= col < 6,
    ensures
        ({
            let one = Single::whole(1);
            let v = Single::whole(row as u64).over(Single::whole(4).minus(one));
            let u = Single::whole(col as u64).over(Single::whole(6).minus(one));
            let left = one.minus(v).times(top_left).plus(v.times(bottom_left));
            let right = one.minus(v).times(top_right).plus(v.times(bottom_right));
            is_weighted_mean(
                one.minus(u).times(left).plus(u.times(right)),
                top_left,
                top_right,
                bottom_left,
                bottom_right,
                row,
                col,
            )
        }),
{
    let one = Single::whole(1);
    let e = crate::near::slip();
    let c = crate::near::one();
    crate::near::lemma_sizes();
    lemma_even_part(row as u64, 4);
    lemma_even_part(col as u64, 6);
    let v = Single::whole(row as u64).over(Single::whole(4).minus(one));
    let u = Single::whole(col as u64).over(Single::whole(6).minus(one));
    let left = one.minus(v).times(top_left).plus(v.times(bottom_left));
    let right = one.minus(v).times(top_right).plus(v.times(bottom_right));
    let m = one.minus(u).times(left).plus(u.times(right));
    lemma_between(top_left, bottom_left, v, row, 3);
    lemma_between(top_right, bottom_right, v, row, 3);
    let (tl, tr, bl, br) = (
        top_left.signed(),
        top_right.signed(),
        bottom_left.signed(),
        bottom_right.signed(),
    );
    let (l, r) = (left.signed(), right.signed());
    let nl = (3 - row) * tl + row * bl;
    let nr = (3 - row) * tr + row * br;
    assert(-3 * c <= nl <= 3 * c && -3 * c <= nr <= 3 * c) by (nonlinear_arith)
        requires
            nl == (3 - row) * tl + row * bl,
            nr == (3 - row) * tr + row * br,
            0 <= row <= 3,
            -c <= tl <= c,
            -c <= tr <= c,
            -c <= bl <= c,
            -c <= br <= c,
    ;
    assert(-(66 * e) <= l * 3 - nl <= 66 * e);
    assert(-(66 * e) <= r * 3 - nr <= 66 * e);
    lemma_between(left, right, u, col, 5);
    let s = m.signed();
    let x = s * 5 - ((5 - col) * l + col * r);
    assert(-(110 * e) <= x <= 110 * e);
    crate::near::lemma_bounded(l * 3 - nl, 66 * e, 5 - col, 5 - col);
    crate::near::lemma_bounded(r * 3 - nr, 66 * e, col, col);
    assert(66 * e * (5 - col) + 66 * e * col == 330 * e) by (nonlinear_arith);
    let sum = (3 - row) * (5 - col) * tl + (3 - row) * col * tr + row * (5 - col) * bl + row * col
        * br;
    assert(15 * s - sum == 3 * x + (l * 3 - nl) * (5 - col) + (r * 3 - nr) * col) by {
        assert((l * 3 - nl) * (5 - col) == 3 * ((5 - col) * l) - nl * (5 - col))
            by (nonlinear_arith);
        assert((r * 3 - nr) * col == 3 * (col * r) - nr * col) by (nonlinear_arith);
        assert(nl * (5 - col) == (3 - row) * (5 - col) * tl + row * (5 - col) * bl)
            by (nonlinear_arith)
            requires
                nl == (3 - row) * tl + row * bl,
        ;
        assert(nr * col == (3 - row) * col * tr + row * col * br) by (nonlinear_arith)
            requires
                nr == (3 - row) * tr + row * br,
        ;
    }
}

/// Every patch is centred between all four corners, in proportion to its row and its column.
pub proof fn patches_lie_between_the_corners(corners: ChartCorners, row: int, col: int)
    requires
        near_the_picture(corners),
        0 <= row < 4,
        0 <= col < 6,
    ensures
        is_weighted_mean(
            patch_centre(corners, row, col).x,
            corners.top_left.x,
            corners.top_right.x,
            corners.bottom_left.x,
            corners.bottom_right.x,
            row,
            col,
        ),
        is_weighted_mean(
            patch_centre(corners, row, col).y,
            corners.top_left.y,
            corners.top_right.y,
            corners.bottom_left.y,
            corners.bottom_right.y,
            row,
            col,
        ),
{
    lemma_weighted(
        corners.top_left.x,
        corners.top_right.x,
        corners.bottom_left.x,
        corners.bottom_right.x,
        row,
        col,
    );
    lemma_weighted(
        corners.top_left.y,
        corners.top_right.y,
        corners.bottom_left.y,
        corners.bottom_right.y,
        row,
        col,
    );
}

/// Where a point of the picture, from zero to one each way, lies in an area of the screen.
pub open spec fn placed_in(p: Point, area: UvRect) -> Point {
    Point {
        x: area.left.plus(p.x.times(area.right.minus(area.left))),
        y: area.top.plus(p.y.times(area.bottom.minus(area.top))),
    }
}

fn place_in(p: Point, area: UvRect) -> (r: Point)
    ensures
        r == placed_in(p, area),
{
    Point {
        x: area.left.plus(p.x.times(area.right.minus(area.left))),
        y: area.top.plus(p.y.times(area.bottom.minus(area.top))),
    }
}

/// The chart as it lies in an area of the screen.
pub open spec fn corners_in(corners: ChartCorners, area: UvRect) -> ChartCorners {
    ChartCorners {
        top_left: placed_in(corners.top_left, area),
        top_right: placed_in(corners.top_right, area),
        bottom_left: placed_in(corners.bottom_left, area),
        bottom_right: placed_in(corners.bottom_right, area),
    }
}

/// The square around a point that reaches half a side each way.
pub open spec fn square_around(c: Point, side: Single) -> UvRect {
    let half = side.times(Single::ratio(1, 2));
    UvRect {
        left: c.x.minus(half),
        top: c.y.minus(half),
        right: c.x.plus(half),
        bottom: c.y.plus(half),
    }
}

/// The squares that are drawn around the patches, in an area of the screen. `half` is half their
/// side, as a part of its height.
pub fn chart_squares(corners: ChartCorners, area: UvRect, half: Single) -> (r: Vec<UvRect>)
    ensures
        r@.len() == 24,
        forall|row: int, col: int|
            0 <= row < 4 && 0 <= col < 6 ==> #[trigger] r@[row * 6 + col] == square_around(
                patch_centre(corners_in(corners, area), row, col),
                half.times(area.bottom.minus(area.top)).times(Single::whole(2)),
            ),
{
    let side: Single = half.times(area.bottom.minus(area.top)).times(Single::whole(2));
    let reach: Single = side.times(Single::ratio(1, 2));
    let centres: Vec<Point> = compute_patch_centers_normalized(
        ChartCorners {
            top_left: place_in(corners.top_left, area),
            top_right: place_in(corners.top_right, area),
            bottom_left: place_in(corners.bottom_left, area),
            bottom_right: place_in(corners.bottom_right, area),
        },
    );
    let mut out: Vec<UvRect> = Vec::new();
    let mut i: usize = 0;
    while i < 24
        invariant
            i <= 24,
            centres@.len() == 24,
            out@.len() == i,
            reach == side.times(Single::ratio(1, 2)),
            forall|k: int| 0 <= k < i ==> #[trigger] out@[k] == square_around(centres@[k], side),
        decreases 24 - i,
    {
        let c: Point = centres[i];
        out.push(
            UvRect {
                left: c.x.minus(reach),
                top: c.y.minus(reach),
                right: c.x.plus(reach),
                bottom: c.y.plus(reach),
            },
        );
        i = i + 1;
    }
    proof {
        assert forall|row: int, col: int| 0 <= row < 4 && 0 <= col < 6 implies #[trigger] out@[row
            * 6 + col] == square_around(
            patch_centre(corners_in(corners, area), row, col),
            side,
        ) by {
            assert(centres@[row * 6 + col] == patch_centre(corners_in(corners, area), row, col));
        }
    }
    out
}

/// Pixels around the centre of a patch, both ends counted.
#[derive(Debug, Clone, Copy, PartialEq, Eq)]
pub struct PatchBox {
    pub x_min: usize,
    pub y_min: usize,
    pub x_max: usize,
    pub y_max: usize,
}

/// First pixel of a patch on a side of `n` pixels.
pub open spec fn box_from(at: Single, half: Single, n: usize) -> usize {
    at.clamp(Single::whole(0), Single::whole(1)).times(
        Single::whole(n as u64).minus(Single::whole(1)),
    ).minus(half).floored().to_int(usize::MAX as u64) as usize
}

/// Last pixel of a patch on a side of `n` pixels.
pub open spec fn box_to(at: Single, half: Single, n: usize) -> usize {
    let last: usize = if n > 0 {
        (n - 1) as usize
    } else {
        0
    };
    let to = at.clamp(Single::whole(0), Single::whole(1)).times(
        Single::whole(n as u64).minus(Single::whole(1)),
    ).plus(half).ceiled().larger(Single::whole(0)).to_int(usize::MAX as u64) as usize;
    if to < last {
        to
    } else {
        last
    }
}

pub open spec fn patch_box_spec(at: Point, half: Single, w: usize, h: usize) -> PatchBox {
    PatchBox {
        x_min: box_from(at.x, half, w),
        y_min: box_from(at.y, half, h),
        x_max: box_to(at.x, half, w),
        y_max: box_to(at.y, half, h),
    }
}

fn from_pixel(at: Single, half: Single, n: usize) -> (r: usize)
    ensures
        r == box_from(at, half, n),
{
    let f: Single = at.clamp(Single::whole(0), Single::whole(1)).times(
        Single::whole(n as u64).minus(Single::whole(1)),
    ).minus(half).floored();
    proof {
        crate::single::lemma_to_int_bound(f, usize::MAX as u64);
    }
    f.to_int(usize::MAX as u64) as usize
}

fn to_pixel(at: Single, half: Single, n: usize) -> (r: usize)
    ensures
        r == box_to(at, half, n),
        n > 0 ==> r < n,
{
    let last: usize = if n > 0 {
        n - 1
    } else {
        0
    };
    let f: Single = at.clamp(Single::whole(0), Single::whole(1)).times(
        Single::whole(n as u64).minus(Single::whole(1)),
    ).plus(half).ceiled().larger(Single::whole(0));
    proof {
        crate::single::lemma_to_int_bound(f, usize::MAX as u64);
    }
    let to: usize = f.to_int(usize::MAX as u64) as usize;
    if to < last {
        to
    } else {
        last
    }
}

/// The pixels of a patch, on a picture of `w` by `h` pixels.
pub fn patch_box(at: Point, half: Single, w: usize, h: usize) -> (r: PatchBox)
    requires
        w > 0,
        h > 0,
    ensures
        r == patch_box_spec(at, half, w, h),
        r.x_max < w,
        r.y_max < h,
{
    PatchBox {
        x_min: from_pixel(at.x, half, w),
        y_min: from_pixel(at.y, half, h),
        x_max: to_pixel(at.x, half, w),
        y_max: to_pixel(at.y, half, h),
    }
}

/// A sample of an image.
pub open spec fn sample(image: FilmImage, x: int, y: int, c: int) -> Single {
    image.samples@[(y * image.width + x) * image.channels + c]
}

/// Samples of a row, from `x0` up to before `x`.
pub open spec fn row_values(image: FilmImage, y: int, x0: int, x: int, c: int) -> Seq<Single>
    decreases x - x0,
{
    if x <= x0 {
        Seq::empty()
    } else {
        row_values(image, y, x0, x - 1, c).push(sample(image, x - 1, y, c))
    }
}

/// Samples of the rows from `y0` up to before `y`.
pub open spec fn block_values(image: FilmImage, x0: int, x1: int, y0: int, y: int, c: int) -> Seq<
    Single,
>
    decreases y - y0,
{
    if y <= y0 {
        Seq::empty()
    } else {
        block_values(image, x0, x1, y0, y - 1, c) + row_values(image, y - 1, x0, x1, c)
    }
}

/// All samples of a patch in one channel.
pub open spec fn patch_values(image: FilmImage, b: PatchBox, c: int) -> Seq<Single> {
    block_values(
        image,
        b.x_min as int,
        b.x_max + 1,
        b.y_min as int,
        b.y_max + 1,
        c,
    )
}

/// The middle one of some values; zero where there is none.
pub open spec fn median(values: Seq<Single>) -> Single {
    if values.len() == 0 {
        Single::whole(0)
    } else {
        crate::stats::ascending(values)[values.len() as int / 2]
    }
}

fn gather(image: &FilmImage, b: PatchBox, c: usize) -> (r: Vec<Single>)
    requires
        image.wf(),
        c < image.channels,
        b.x_max < image.width,
        b.y_max < image.height,
    ensures
        r@ == patch_values(*image, b, c as int),
{
    let mut out: Vec<Single> = Vec::new();
    let mut y: usize = b.y_min;
    let ghost x1 = b.x_max + 1;
    while y <= b.y_max
        invariant
            image.wf(),
            c < image.channels,
            b.x_max < image.width,
            b.y_max < image.height,
            b.y_min <= y,
            y <= b.y_max + 1 || y == b.y_min,
            x1 == b.x_max + 1,
            out@ == block_values(*image, b.x_min as int, x1, b.y_min as int, y as int, c as int),
        decreases b.y_max + 1 - y,
    {
        let ghost before = out@;
        let mut x: usize = b.x_min;
        proof {
            assert(out@ =~= before + row_values(
                *image,
                y as int,
                b.x_min as int,
                x as int,
                c as int,
            ));
        }
        while x <= b.x_max
            invariant
                image.wf(),
                c < image.channels,
                b.x_max < image.width,
                b.y_max < image.height,
                y <= b.y_max,
                b.x_min <= x,
                x <= b.x_max + 1 || x == b.x_min,
                out@ == before + row_values(
                    *image,
                    y as int,
                    b.x_min as int,
                    x as int,
                    c as int,
                ),
            decreases b.x_max + 1 - x,
        {
            proof {
                crate::film::lemma_place(
                    image.width as int,
                    image.height as int,
                    image.channels as int,
                    c as int,
                    x as int,
                    y as int,
                );
                let all = image.width * image.height;
                assert(all <= all * image.channels) by (nonlinear_arith)
                    requires
                        image.channels >= 1,
                        all >= 0,
                ;
                assert(image.samples.len() == all * image.channels);
            }
            let at: usize = (y * image.width + x) * image.channels + c;
            out.push(image.samples[at]);
            x = x + 1;
            proof {
                assert(out@ =~= before + row_values(
                    *image,
                    y as int,
                    b.x_min as int,
                    x as int,
                    c as int,
                ));
            }
        }
        proof {
            lemma_row_end(*image, y as int, b.x_min as int, x as int, x1, c as int);
        }
        y = y + 1;
    }
    proof {
        lemma_block_end(
            *image,
            b.x_min as int,
            x1,
            b.y_min as int,
            y as int,
            b.y_max + 1,
            c as int,
        );
    }
    out
}

proof fn lemma_row_end(image: FilmImage, y: int, x0: int, x: int, x1: int, c: int)
    requires
        x >= x1,
        x == x1 || x == x0,
    ensures
        row_values(image, y, x0, x, c) == row_values(image, y, x0, x1, c),
{
}

proof fn lemma_block_end(image: FilmImage, x0: int, x1: int, y0: int, y: int, y1: int, c: int)
    requires
        y >= y1,
        y == y1 || y == y0,
    ensures
        block_values(image, x0, x1, y0, y, c) == block_values(image, x0, x1, y0, y1, c),
{
}

fn middle(values: &Vec<Single>) -> (r: Single)
    ensures
        r == median(values@),
{
    if values.len() == 0 {
        return Single::whole(0);
    }
    let s: Vec<Single> = sorted(values);
    s[values.len() / 2]
}

/// What one patch measures: the median of each channel.
pub open spec fn patch_median(image: FilmImage, at: Point, half: Single) -> Triple {
    let b = patch_box_spec(at, half, image.width, image.height);
    Triple {
        a: median(patch_values(image, b, 0)),
        b: median(patch_values(image, b, 1)),
        c: median(patch_values(image, b, 2)),
    }
}

/// What the patches measure: the median of each channel within `half` pixels of each centre.
pub fn sample_patch_medians(image: &FilmImage, centers: &Vec<Point>, half: Single) -> (r: Vec<
    Triple,
>)
    requires
        image.wf(),
        image.width > 0,
        image.height > 0,
        image.channels >= 3,
    ensures
        r@.len() == centers@.len(),
        forall|i: int|
            0 <= i < r@.len() ==> #[trigger] r@[i] == patch_median(*image, centers@[i], half),
{
    let mut out: Vec<Triple> = Vec::new();
    let mut i: usize = 0;
    while i < centers.len()
        invariant
            i <= centers.len(),
            image.wf(),
            image.width > 0,
            image.height > 0,
            image.channels >= 3,
            out@.len() == i,
            forall|k: int|
                0 <= k < i ==> #[trigger] out@[k] == patch_median(*image, centers@[k], half),
        decreases centers.len() - i,
    {
        let b: PatchBox = patch_box(centers[i], half, image.width, image.height);
        let reds: Vec<Single> = gather(image, b, 0);
        let greens: Vec<Single> = gather(image, b, 1);
        let blues: Vec<Single> = gather(image, b, 2);
        out.push(Triple { a: middle(&reds), b: middle(&greens), c: middle(&blues) });
        i = i + 1;
    }
    out
}

/// Sum of the squared errors of the first `n` patches, channel by channel.
pub open spec fn error_sum(pred: Seq<Triple>, want: Seq<Triple>, n: nat) -> Single
    decreases n,
{
    if n == 0 {
        Single::whole(0)
    } else {
        let p = pred[n - 1];
        let w = want[n - 1];
        let (a, b, c) = (p.a.minus(w.a), p.b.minus(w.b), p.c.minus(w.c));
        error_sum(pred, want, (n - 1) as nat).plus(a.times(a)).plus(b.times(b)).plus(c.times(c))
    }
}

/// Mean squared error of predicted densities.
pub fn mean_squared_error(pred: &Vec<Triple>, want: &Vec<Triple>) -> (r: Single)
    requires
        pred@.len() == 24,
        want@.len() == 24,
    ensures
        r == error_sum(pred@, want@, 24).over(Single::whole(72)),
{
    let mut sum: Single = Single::whole(0);
    let mut i: usize = 0;
    while i < 24
        invariant
            i <= 24,
            pred@.len() == 24,
            want@.len() == 24,
            sum == error_sum(pred@, want@, i as nat),
        decreases 24 - i,
    {
        let p: Triple = pred[i];
        let w: Triple = want[i];
        let a: Single = p.a.minus(w.a);
        let b: Single = p.b.minus(w.b);
        let c: Single = p.c.minus(w.c);
        sum = sum.plus(a.times(a)).plus(b.times(b)).plus(c.times(c));
        i = i + 1;
    }
    sum.over(Single::whole(72))
}

/// `r` is the least squares fit of `want` by `x`, by the machine's products and inverse: the
/// matrix `(xᵀx)⁻¹ · (xᵀ·want)`, and the mean squared error of `x` times it. There is none where
/// `xᵀx` has no inverse.
pub open spec fn fitted<
    G: Fn(&Vec<Triple>, &Vec<Triple>) -> Matrix,
    I: Fn(Matrix) -> Option<Matrix>,
    T: Fn(Matrix, Matrix) -> Matrix,
    A: Fn(&Vec<Triple>, Matrix) -> Vec<Triple>,
>(
    gram: G,
    invert: I,
    multiply: T,
    apply: A,
    x: Vec<Triple>,
    want: Vec<Triple>,
    r: Option<(Matrix, Single)>,
) -> bool {
    exists|xx: Matrix, inverse: Option<Matrix>|
        #![trigger gram.ensures((&x, &x), xx), invert.ensures((xx,), inverse)]
        {
            &&& gram.ensures((&x, &x), xx)
            &&& invert.ensures((xx,), inverse)
            &&& match inverse {
                None => r is None,
                Some(inv) => r matches Some((m, error)) && solved_by(gram, multiply, x, want, inv, m)
                    && erring_by(apply, x, want, m, error),
            }
        }
}

/// `m` is the inverse times `xᵀ·want`.
pub open spec fn solved_by<
    G: Fn(&Vec<Triple>, &Vec<Triple>) -> Matrix,
    T: Fn(Matrix, Matrix) -> Matrix,
>(gram: G, multiply: T, x: Vec<Triple>, want: Vec<Triple>, inverse: Matrix, m: Matrix) -> bool {
    exists|xy: Matrix| #[trigger]
        gram.ensures((&x, &want), xy) && multiply.ensures((inverse, xy), m)
}

/// `error` is the mean squared error of what `x` times `m` is.
pub open spec fn erring_by<A: Fn(&Vec<Triple>, Matrix) -> Vec<Triple>>(
    apply: A,
    x: Vec<Triple>,
    want: Vec<Triple>,
    m: Matrix,
    error: Single,
) -> bool {
    exists|pred: Vec<Triple>| #[trigger]
        apply.ensures((&x, m), pred) && error == error_sum(pred@, want@, 24).over(Single::whole(72))
}

/// Fits the matrix that takes the measured densities to the reference, and gives it with its
/// mean squared error; nothing where the measured densities leave it open.
///
/// The products are the machine's: `gram` that of one table of densities, transposed, with
/// another; `multiply` that of two matrices; `apply` that of a table with a matrix, row by row.
pub fn solve_density_matrix_ols<
    G: Fn(&Vec<Triple>, &Vec<Triple>) -> Matrix,
    I: Fn(Matrix) -> Option<Matrix>,
    T: Fn(Matrix, Matrix) -> Matrix,
    A: Fn(&Vec<Triple>, Matrix) -> Vec<Triple>,
>(
    measured: &Vec<Triple>,
    reference: &Vec<Triple>,
    gram: &G,
    invert: &I,
    multiply: &T,
    apply: &A,
) -> (r: Option<(Matrix, Single)>)
    requires
        measured@.len() == 24,
        reference@.len() == 24,
        forall|a: &Vec<Triple>, b: &Vec<Triple>| #[trigger] gram.requires((a, b)),
        forall|a: Matrix| #[trigger] invert.requires((a,)),
        forall|a: Matrix, b: Matrix| #[trigger] multiply.requires((a, b)),
        forall|a: &Vec<Triple>, m: Matrix| #[trigger] apply.requires((a, m)),
        forall|a: &Vec<Triple>, m: Matrix, p: Vec<Triple>| #[trigger]
            apply.ensures((a, m), p) ==> p@.len() == a@.len(),
    ensures
        fitted(*gram, *invert, *multiply, *apply, *measured, *reference, r),
{
    let xx: Matrix = gram(measured, measured);
    let xy: Matrix = gram(measured, reference);
    let inverse: Option<Matrix> = invert(xx);
    assert(gram.ensures((measured, measured), xx) && invert.ensures((xx,), inverse));
    match inverse {
        None => None,
        Some(inv) => {
            let m: Matrix = multiply(inv, xy);
            let pred: Vec<Triple> = apply(measured, m);
            assert(apply.ensures((measured, m), pred));
            let error: Single = mean_squared_error(&pred, reference);
            proof {
                assert(solved_by(*gram, *multiply, *measured, *reference, inv, m));
                assert(erring_by(*apply, *measured, *reference, m, error));
            }
            Some((m, error))
        },
    }
}

/// A channel of densities, counted in units of `2^-149`.
pub open spec fn channel(v: Triple, c: int) -> int {
    if c == 0 {
        v.a.signed()
    } else if c == 1 {
        v.b.signed()
    } else {
        v.c.signed()
    }
}

/// By how much densities times a matrix miss a channel of what is wanted, without rounding.
pub open spec fn miss(x: Triple, want: Triple, m: Matrix, c: int) -> int {
    channel(x, 0) * m@[0]@[c].signed() + channel(x, 1) * m@[1]@[c].signed() + channel(x, 2)
        * m@[2]@[c].signed() - channel(want, c) * vstd::arithmetic::power2::pow2(149)
}

/// Sum of the squared misses of the first `n` patches in a channel.
pub open spec fn missed(x: Seq<Triple>, want: Seq<Triple>, m: Matrix, c: int, n: nat) -> int
    decreases n,
{
    if n == 0 {
        0
    } else {
        missed(x, want, m, c, (n - 1) as nat) + miss(x[n - 1], want[n - 1], m, c) * miss(
            x[n - 1],
            want[n - 1],
            m,
            c,
        )
    }
}

/// Channel `k` of the first `n` patches against their misses in channel `c`: an entry of
/// `xᵀ·(x·m - want)`.
pub open spec fn leaning(x: Seq<Triple>, want: Seq<Triple>, m: Matrix, k: int, c: int, n: nat) -> int
    decreases n,
{
    if n == 0 {
        0
    } else {
        leaning(x, want, m, k, c, (n - 1) as nat) + channel(x[n - 1], k) * miss(
            x[n - 1],
            want[n - 1],
            m,
            c,
        )
    }
}

/// A matrix solves the equations `xᵀ·x·m = xᵀ·want` of a fit, without rounding.
pub open spec fn solves(x: Seq<Triple>, want: Seq<Triple>, m: Matrix) -> bool {
    forall|k: int, c: int|
        0 <= k < 3 && 0 <= c < 3 ==> #[trigger] leaning(x, want, m, k, c, x.len()) == 0
}

proof fn lemma_factor(a: int, p: int, q: int)
    ensures
        a * p - a * q == a * (p - q),
{
    vstd::arithmetic::mul::lemma_mul_is_distributive_sub(a, p, q);
}

proof fn lemma_step(u: int, x: int, a: int, e: int)
    ensures
        u * (x + a * e) == u * x + e * (a * u),
{
    vstd::arithmetic::mul::lemma_mul_is_distributive_add(u, x, a * e);
    assert(u * (a * e) == e * (a * u)) by (nonlinear_arith);
}

/// Another matrix misses by at least as much, but for what the first one leans.
proof fn lemma_missed(x: Seq<Triple>, want: Seq<Triple>, m: Matrix, other: Matrix, c: int, n: nat)
    ensures
        missed(x, want, other, c, n) >= missed(x, want, m, c, n) + 2 * ((other@[0]@[c].signed()
            - m@[0]@[c].signed()) * leaning(x, want, m, 0, c, n) + (other@[1]@[c].signed()
            - m@[1]@[c].signed()) * leaning(x, want, m, 1, c, n) + (other@[2]@[c].signed()
            - m@[2]@[c].signed()) * leaning(x, want, m, 2, c, n)),
    decreases n,
{
    if n > 0 {
        lemma_missed(x, want, m, other, c, (n - 1) as nat);
        let p = (n - 1) as nat;
        let (a, b, d) = (channel(x[n - 1], 0), channel(x[n - 1], 1), channel(x[n - 1], 2));
        let e = miss(x[n - 1], want[n - 1], m, c);
        let f = miss(x[n - 1], want[n - 1], other, c);
        let u = other@[0]@[c].signed() - m@[0]@[c].signed();
        let v = other@[1]@[c].signed() - m@[1]@[c].signed();
        let w = other@[2]@[c].signed() - m@[2]@[c].signed();
        lemma_factor(a, other@[0]@[c].signed(), m@[0]@[c].signed());
        lemma_factor(b, other@[1]@[c].signed(), m@[1]@[c].signed());
        lemma_factor(d, other@[2]@[c].signed(), m@[2]@[c].signed());
        assert(f == e + (a * u + b * v + d * w));
        let s = a * u + b * v + d * w;
        assert(f * f >= e * e + 2 * (e * s)) by (nonlinear_arith)
            requires
                f == e + s,
        ;
        lemma_step(u, leaning(x, want, m, 0, c, p), a, e);
        lemma_step(v, leaning(x, want, m, 1, c, p), b, e);
        lemma_step(w, leaning(x, want, m, 2, c, p), d, e);
        assert(e * s == e * (a * u) + e * (b * v) + e * (d * w)) by (nonlinear_arith)
            requires
                s == a * u + b * v + d * w,
        ;
    }
}

/// What a fit is for: a matrix that solves its equations misses the reference by the least sum
/// of squares, in every channel, of all matrices. This is said without rounding; the machine
/// solves the equations as well as its arithmetic does.
pub proof fn solutions_miss_by_the_least(
    x: Seq<Triple>,
    want: Seq<Triple>,
    m: Matrix,
    other: Matrix,
    c: int,
)
    requires
        x.len() == want.len(),
        solves(x, want, m),
        0 <= c < 3,
    ensures
        missed(x, want, m, c, x.len()) <= missed(x, want, other, c, x.len()),
{
    lemma_missed(x, want, m, other, c, x.len());
    assert(leaning(x, want, m, 0, c, x.len()) == 0);
    assert(leaning(x, want, m, 1, c, x.len()) == 0);
    assert(leaning(x, want, m, 2, c, x.len()) == 0);
}

/// What is kept of a calibration: the density matrix, and what was told of the setup.
#[derive(Debug, Clone)]
pub struct CalibrationProfile {
    /// Name of the film, as "Kodak Gold 200".
    pub name: String,
    /// Notes about the light and the setup.
    pub light_source: String,
    /// The density matrix.
    pub matrix: Matrix,
    /// Medians of the film base that were used.
    pub dmin_medians: Option<(Single, Single, Single)>,
}

/// `r` are the densities that the patches of a chart between these corners have on an image.
pub open spec fn measured_by<L: Fn(Single) -> Single>(
    log10: L,
    image: FilmImage,
    corners: ChartCorners,
    r: Seq<Triple>,
) -> bool {
    &&& r.len() == 24
    &&& forall|row: int, col: int|
        #![trigger patch_centre(corners, row, col)]
        0 <= row < 4 && 0 <= col < 6 ==> densities(
            log10,
            patch_median(image, patch_centre(corners, row, col), Single::whole(5)),
            r[row * 6 + col],
        )
}

/// Makes a profile from an image of the chart: the patches are read 5 pixels around their
/// centres, and the matrix is fitted to the densities that they should have. With the profile
/// comes the mean squared error of the fit; there is no profile where the fit is open.
///
/// A profile without a name is called "profile".
pub fn calibrate<
    L: Fn(Single) -> Single,
    P: Fn(Single, Single) -> Single,
    G: Fn(&Vec<Triple>, &Vec<Triple>) -> Matrix,
    I: Fn(Matrix) -> Option<Matrix>,
    T: Fn(Matrix, Matrix) -> Matrix,
    A: Fn(&Vec<Triple>, Matrix) -> Vec<Triple>,
>(
    image: &FilmImage,
    corners: ChartCorners,
    base: Option<(Single, Single, Single)>,
    name: &str,
    light_source: &str,
    log10: &L,
    power: &P,
    gram: &G,
    invert: &I,
    multiply: &T,
    apply: &A,
) -> (r: Option<(CalibrationProfile, Single)>)
    requires
        image.wf(),
        image.width > 0,
        image.height > 0,
        image.channels >= 3,
        forall|a: Single| #[trigger] log10.requires((a,)),
        forall|a: Single, b: Single| #[trigger] power.requires((a, b)),
        forall|a: &Vec<Triple>, b: &Vec<Triple>| #[trigger] gram.requires((a, b)),
        forall|a: Matrix| #[trigger] invert.requires((a,)),
        forall|a: Matrix, b: Matrix| #[trigger] multiply.requires((a, b)),
        forall|a: &Vec<Triple>, m: Matrix| #[trigger] apply.requires((a, m)),
        forall|a: &Vec<Triple>, m: Matrix, p: Vec<Triple>| #[trigger]
            apply.ensures((a, m), p) ==> p@.len() == a@.len(),
    ensures
        exists|measured: Vec<Triple>, reference: Vec<Triple>, fit: Option<(Matrix, Single)>|
            {
                &&& measured_by(*log10, *image, corners, measured@)
                &&& reference_by(*log10, *power, reference@)
                &&& #[trigger] fitted(
                    *gram,
                    *invert,
                    *multiply,
                    *apply,
                    measured,
                    reference,
                    fit,
                )
                &&& match fit {
                    None => r is None,
                    Some((m, error)) => r matches Some((profile, mse)) && {
                        &&& profile.name@ == if name@.len() == 0 {
                            "profile"@
                        } else {
                            name@
                        }
                        &&& profile.light_source@ == light_source@
                        &&& profile.matrix == m
                        &&& profile.dmin_medians == base
                        &&& mse == error
                    },
                }
            },
{
    let centers: Vec<Point> = compute_patch_centers_normalized(corners);
    let patches: Vec<Triple> = sample_patch_medians(image, &centers, Single::whole(5));
    let measured: Vec<Triple> = linear_to_density_24(&patches, log10);
    let reference: Vec<Triple> = reference_density_24(log10, power);
    proof {
        assert forall|row: int, col: int|
            #![trigger patch_centre(corners, row, col)]
            0 <= row < 4 && 0 <= col < 6 implies densities(
            *log10,
            patch_median(*image, patch_centre(corners, row, col), Single::whole(5)),
            measured@[row * 6 + col],
        ) by {
            assert(centers@[row * 6 + col] == patch_centre(corners, row, col));
            assert(patches@[row * 6 + col] == patch_median(
                *image,
                centers@[row * 6 + col],
                Single::whole(5),
            ));
            assert(densities(*log10, patches@[row * 6 + col], measured@[row * 6 + col]));
        }
    }
    let fit: Option<(Matrix, Single)> = solve_density_matrix_ols(
        &measured,
        &reference,
        gram,
        invert,
        multiply,
        apply,
    );
    match fit {
        None => None,
        Some((matrix, mse)) => {
            let called: String = if name.is_empty() {
                "profile".to_owned()
            } else {
                name.to_owned()
            };
            Some(
                (
                    CalibrationProfile {
                        name: called,
                        light_source: light_source.to_owned(),
                        matrix,
                        dmin_medians: base,
                    },
                    mse,
                ),
            )
        },
    }
}

/// How a picture of the chart is read.
#[derive(Debug, Clone, Copy, PartialEq, Eq, Structural)]
pub enum ChartSource {
    /// Sensor data, which is demosaiced.
    Raw,
    /// A picture.
    Picture,
    /// Not readable: "Unsupported extension for calibration".
    Unsupported,
}

/// How a picture of the chart with this extension is read.
pub fn chart_source(extension: Option<&str>) -> (r: ChartSource)
    ensures
        match r {
            ChartSource::Unsupported => extension matches Some(e) ==> !crate::session::importable(
                Some(e@),
            ),
            _ => extension matches Some(e) && exists|k: int|
                {
                    &&& 0 <= k < crate::session::known_extensions().len()
                    &&& crate::session::same_but_case(
                        e@,
                        #[trigger] crate::session::known_extensions()[k],
                    )
                    &&& (r == ChartSource::Raw) == (k < RAW_EXTENSIONS)
                    &&& forall|j: int|
                        0 <= j < k ==> !crate::session::same_but_case(
                            e@,
                            #[trigger] crate::session::known_extensions()[j],
                        )
                },
        },
{
    match extension {
        None => ChartSource::Unsupported,
        Some(e) => match extension_place(e) {
            None => ChartSource::Unsupported,
            Some(k) => {
                assert(crate::session::same_but_case(
                    e@,
                    crate::session::known_extensions()[k as int],
                ));
                if k < RAW_EXTENSIONS {
                    ChartSource::Raw
                } else {
                    ChartSource::Picture
                }
            },
        },
    }
}

/// How the film base is taken out of a picture of the chart.
#[derive(Debug, Clone, Copy)]
pub enum BaseRemoval {
    /// By these densest values.
    Fixed((Single, Single, Single)),
    /// By what a rectangle measures, of neutral pixels alone or of all.
    Measured(Rect, bool),
    /// Not at all.
    Left,
}

/// How the film base is taken out: by the values that are set, else by the rectangle that is
/// set, else not.
pub fn chart_base(opts: &PipelineOptions) -> (r: BaseRemoval)
    ensures
        r == match (opts.dmin_fixed, opts.dmin_rect) {
            (Some(rgb), _) => BaseRemoval::Fixed(rgb),
            (None, Some(rect)) => BaseRemoval::Measured(rect, opts.dmin_neutral_only),
            (None, None) => BaseRemoval::Left,
        },
{
    match opts.dmin_fixed {
        Some(rgb) => BaseRemoval::Fixed(rgb),
        None => match opts.dmin_rect {
            Some(rect) => BaseRemoval::Measured(rect, opts.dmin_neutral_only),
            None => BaseRemoval::Left,
        },
    }
}

/// How a profile is kept.
#[derive(Debug, Clone, Copy, PartialEq, Eq, Structural)]
pub enum ProfileFile {
    /// The profile alone.
    Json,
    /// An archive with the profile and its cube.
    Archive,
    /// Not a profile.
    Other,
}

/// What a file of the profile folder is, by its extension.
pub fn profile_file(extension: Option<&str>) -> (r: ProfileFile)
    ensures
        r == match extension {
            Some(e) => if e@ == "json"@ {
                ProfileFile::Json
            } else if e@ == "c41"@ {
                ProfileFile::Archive
            } else {
                ProfileFile::Other
            },
            None => ProfileFile::Other,
        },
{
    match extension {
        Some(e) => {
            let owned: String = e.to_owned();
            if owned == "json".to_owned() {
                ProfileFile::Json
            } else if owned == "c41".to_owned() {
                ProfileFile::Archive
            } else {
                ProfileFile::Other
            }
        },
        None => ProfileFile::Other,
    }
}

/// A number of a corner that was dragged on screen: kept between the edges of the picture, and
/// brought back to zero to one.
pub open spec fn drag_spec(at: Single, delta: Single, from: Single, to: Single) -> Single {
    let screen = from.plus(at.times(to.minus(from))).plus(delta).clamp(from, to);
    screen.minus(from).over(to.minus(from)).clamp(Single::whole(0), Single::whole(1))
}

/// Drags a corner along one side.
pub fn drag_chart_corner(at: Single, delta: Single, from: Single, to: Single) -> (r: Single)
    requires
        from.at_most(to),
    ensures
        r == drag_spec(at, delta, from, to),
{
    let screen: Single = from.plus(at.times(to.minus(from))).plus(delta).clamp(from, to);
    screen.minus(from).over(to.minus(from)).clamp(Single::whole(0), Single::whole(1))
}

/// A corner of the chart that was dragged by `delta` on screen, where the picture fills `image`.
pub open spec fn dragged(corner: Point, delta: (Single, Single), image: UvRect) -> Point {
    Point {
        x: drag_spec(corner.x, delta.0, image.left, image.right),
        y: drag_spec(corner.y, delta.1, image.top, image.bottom),
    }
}

/// Drags a corner of the chart.
pub fn drag_chart_handle(corner: Point, delta: (Single, Single), image: UvRect) -> (r: Point)
    requires
        image.left.at_most(image.right),
        image.top.at_most(image.bottom),
    ensures
        r == dragged(corner, delta, image),
{
    Point {
        x: drag_chart_corner(corner.x, delta.0, image.left, image.right),
        y: drag_chart_corner(corner.y, delta.1, image.top, image.bottom),
    }
}

/// A corner never leaves the picture, however far it is dragged: its numbers lie from zero to
/// one, or are none where the picture has no size on screen.
pub proof fn dragged_corners_stay_on_the_picture(
    corner: Point,
    delta: (Single, Single),
    image: UvRect,
)
    ensures
        ({
            let r = dragged(corner, delta, image);
            &&& r.x.not_a_number() || Single::whole(0).at_most(r.x) && r.x.at_most(Single::whole(1))
            &&& r.y.not_a_number() || Single::whole(0).at_most(r.y) && r.y.at_most(Single::whole(1))
        }),
{
    reveal(Single::less_spec);
    reveal(Single::at_most_spec);
    crate::single::lemma_whole_exact(0);
    crate::single::lemma_whole_exact(1);
    crate::single::order_is_by_value(Single::whole(0), Single::whole(1));
}

} // verus!
