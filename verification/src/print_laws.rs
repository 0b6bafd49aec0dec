//! What a print is, whatever its tables hold.
//!
//! Without a cube, each channel of the print is looked up at the product of its own row of the
//! calibration matrix with the densities of red, green and blue, in this order.

use vstd::prelude::*;
use crate::curve::{CurvePipeline, Rgb};
use crate::single::Single;

verus! {

/// `x` lies within a hundred-thousandth of `b` of the sum of three products, none of which is
/// larger than `b`.
pub open spec fn is_mix(x: Single, weights: Seq<Single>, d: Seq<Single>, b: int) -> bool {
    let c = crate::near::one();
    let sum = weights[0].signed() * d[0].signed() + weights[1].signed() * d[1].signed()
        + weights[2].signed() * d[2].signed();
    &&& x.finite()
    &&& -(b * c * c) <= (x.signed() * c - sum) * 100_000 <= b * c * c
}

/// Three numbers with three weights whose products are no larger than `b`.
pub open spec fn bounded_mix(weights: Seq<Single>, d: Seq<Single>, b: int) -> bool {
    let c = crate::near::one();
    &&& 1 <= b <= 0x10_0000
    &&& forall|k: int|
        0 <= k < 3 ==> {
            &&& (#[trigger] weights[k]).finite()
            &&& d[k].finite()
            &&& -(b * c * c) <= weights[k].signed() * d[k].signed() <= b * c * c
        }
}

/// Sums of three rounded products lie near the true one.
pub proof fn lemma_mix(weights: Seq<Single>, d: Seq<Single>, b: int)
    requires
        bounded_mix(weights, d, b),
    ensures
        is_mix(
            weights[0].times(d[0]).plus(weights[1].times(d[1])).plus(weights[2].times(d[2])),
            weights,
            d,
            b,
        ),
{
    let c = crate::near::one();
    let e = crate::near::slip();
    crate::near::lemma_sizes();
    let (p0, p1, p2) = (
        weights[0].signed() * d[0].signed(),
        weights[1].signed() * d[1].signed(),
        weights[2].signed() * d[2].signed(),
    );
    assert(weights[0].finite() && weights[1].finite() && weights[2].finite());
    crate::near::lemma_product(weights[0], d[0], b);
    crate::near::lemma_product(weights[1], d[1], b);
    crate::near::lemma_product(weights[2], d[2], b);
    let x0 = weights[0].times(d[0]);
    let x1 = weights[1].times(d[1]);
    let x2 = weights[2].times(d[2]);
    let (v0, v1, v2) = (x0.signed(), x1.signed(), x2.signed());
    lemma_product_size(v0, p0, b);
    lemma_product_size(v1, p1, b);
    lemma_product_size(v2, p2, b);
    let bc = b * c;
    let be = b * e;
    assert((2 * b + 2) * c == 2 * bc + 2 * c && (4 * b + 4) * c == 4 * bc + 4 * c && (b + 1) * c
        == bc + c && (2 * b + 2) * e == 2 * be + 2 * e && (4 * b + 4) * e == 4 * be + 4 * e
        && be >= e && bc >= c && be <= 0x10_0000 * e) by (nonlinear_arith)
        requires
            bc == b * c,
            be == b * e,
            1 <= b <= 0x10_0000,
            c > 0,
            e > 0,
    ;
    assert(-(2 * b + 2) * c == -((2 * b + 2) * c) && -(4 * b + 4) * c == -((4 * b + 4) * c) && -(2
        * b + 2) * e == -((2 * b + 2) * e) && -(4 * b + 4) * e == -((4 * b + 4) * e))
        by (nonlinear_arith);
    crate::near::lemma_sum(x0, x1, 2 * b + 2);
    let s = x0.plus(x1);
    crate::near::lemma_sum(s, x2, 4 * b + 4);
    let r = s.plus(x2).signed();
    let off = r - (v0 + v1 + v2);
    assert(-(12 * be) <= off <= 12 * be);
    crate::near::lemma_bounded(off, 12 * be, c, c);
    assert(off * c == r * c - v0 * c - v1 * c - v2 * c) by (nonlinear_arith)
        requires
            off == r - (v0 + v1 + v2),
    ;
    assert(12 * be * c + 3 * (b * e * c) == 15 * (be * c)) by (nonlinear_arith)
        requires
            be == b * e,
    ;
    assert(b * e * c == be * c && 15 * (be * c) * 100_000 <= b * c * c) by (nonlinear_arith)
        requires
            be == b * e,
            c == e * 0x80_0000,
            b >= 1,
            e > 0,
    ;
}

proof fn lemma_product_size(v: int, p: int, b: int)
    requires
        1 <= b <= 0x10_0000,
        -(b * crate::near::one() * crate::near::one()) <= p <= b * crate::near::one()
            * crate::near::one(),
        -(b * crate::near::slip() * crate::near::one()) <= v * crate::near::one() - p <= b
            * crate::near::slip() * crate::near::one(),
    ensures
        -((b + 1) * crate::near::one()) <= v <= (b + 1) * crate::near::one(),
{
    crate::near::lemma_sizes();
    let c = crate::near::one();
    let e = crate::near::slip();
    assert(b * e * c <= c * c) by (nonlinear_arith)
        requires
            b <= 0x10_0000,
            c == e * 0x80_0000,
            e > 0,
    ;
    assert((b + 1) * c * c == b * c * c + c * c) by (nonlinear_arith);
    crate::near::lemma_divided(v, (b + 1) * c, c);
}

/// The samples of pixel `i` of a print by way of densities and of what the matrix makes of them.
pub open spec fn mixed_by_way<L: Fn(Single) -> Single>(
    pipeline: CurvePipeline,
    log10: L,
    samples: Seq<Single>,
    r: Seq<u16>,
    white_point: Single,
    i: int,
    d: Seq<Single>,
    fixed: Seq<Single>,
) -> bool {
    &&& d.len() == 3
    &&& fixed.len() == 3
    &&& forall|k: int|
        0 <= k < 3 ==> crate::curve::density_is(
            pipeline,
            log10,
            samples[3 * i + k],
            #[trigger] d[k],
        )
    &&& forall|c: int|
        0 <= c < 3 ==> {
            &&& r[3 * i + c] == crate::curve::print_value(
                pipeline,
                #[trigger] fixed[c],
                white_point,
            )
            &&& forall|b: int| #[trigger]
                bounded_mix(pipeline.matrix.m@[c]@, d, b) ==> is_mix(
                    fixed[c],
                    pipeline.matrix.m@[c]@,
                    d,
                    b,
                )
        }
}

/// Channel `c` of a pixel that is printed without a cube is looked up at the product of row `c`
/// of the matrix with the densities of the pixel's red, green and blue.
pub proof fn rows_mix_red_green_and_blue<
    L: Fn(Single) -> Single,
    F: Fn(Single, Single, Single) -> Rgb,
>(
    pipeline: CurvePipeline,
    log10: L,
    samples: Seq<Single>,
    r: Seq<u16>,
    white_point: Single,
    i: int,
)
    requires
        crate::curve::printed(
            pipeline,
            log10,
            None::<&F>,
            crate::curve::three(samples, i),
            crate::curve::three(r, i),
            white_point,
        ),
    ensures
        exists|d: Seq<Single>, fixed: Seq<Single>| #[trigger]
            mixed_by_way(pipeline, log10, samples, r, white_point, i, d, fixed),
{
    let t = crate::curve::three(samples, i);
    let out = crate::curve::three(r, i);
    let (d, fixed) = choose|d: Rgb, fixed: Rgb| #[trigger]
        crate::curve::printed_by_way(
            pipeline,
            log10,
            None::<&F>,
            t,
            out,
            white_point,
            d,
            fixed,
        );
    let ds = seq![d.0, d.1, d.2];
    let fs = seq![fixed.0, fixed.1, fixed.2];
    assert forall|c: int| 0 <= c < 3 implies {
        &&& r[3 * i + c] == crate::curve::print_value(pipeline, #[trigger] fs[c], white_point)
        &&& forall|b: int| #[trigger]
            bounded_mix(pipeline.matrix.m@[c]@, ds, b) ==> is_mix(
                fs[c],
                pipeline.matrix.m@[c]@,
                ds,
                b,
            )
    } by {
        assert forall|b: int| #[trigger] bounded_mix(
            pipeline.matrix.m@[c]@,
            ds,
            b,
        ) implies is_mix(fs[c], pipeline.matrix.m@[c]@, ds, b) by {
            lemma_mix(pipeline.matrix.m@[c]@, ds, b);
        }
    }
    assert(mixed_by_way(pipeline, log10, samples, r, white_point, i, ds, fs));
}

proof fn lemma_entry_of_nothing(x: Single)
    requires
        x.finite(),
        x.signed() == 0,
    ensures
        crate::curve::entry(x) == 0,
{
    reveal(Single::rounded_spec);
    reveal(Single::to_int_spec);
    crate::near::lemma_sizes();
    crate::near::lemma_whole(crate::curve::LUT_LAST);
    let y = x.times(Single::whole(crate::curve::LUT_LAST));
    crate::near::lemma_none(x, Single::whole(crate::curve::LUT_LAST));
    let c = vstd::arithmetic::power2::pow2(149);
    assert(y.units() == 0);
    assert((2 * y.units() + c) / (2 * c) == 0) by {
        vstd::arithmetic::div_mod::lemma_basic_div(c as int, 2 * c as int);
    }
    assert(0 * c == 0);
    crate::single::lemma_zero_rounds(y.negative(), 1);
    let z = y.rounded();
    assert(z.mag() == 0);
    crate::single::lemma_units_positive(z);
    vstd::arithmetic::div_mod::lemma_basic_div(0, c as int);
}

/// A density is looked up by its value.
proof fn lemma_looked_up_by_value(d: Single, e: Single, d_max: Single)
    requires
        crate::near::same_value(d, e),
    ensures
        crate::curve::density_entry(d, d_max) == crate::curve::density_entry(e, d_max),
{
    if d.signed() != 0 {
        crate::near::lemma_unique(d, e);
    } else {
        lemma_entry_of_no_density(d, d_max);
        lemma_entry_of_no_density(e, d_max);
    }
}

proof fn lemma_entry_of_no_density(d: Single, d_max: Single)
    requires
        d.finite(),
        d.signed() == 0,
    ensures
        crate::curve::density_entry(d, d_max) == 0,
{
    reveal(Single::less_spec);
    reveal(Single::over_spec);
    crate::single::lemma_zero();
    crate::single::lemma_units_positive(d);
    let zero = Single::whole(0);
    if zero.less(d_max) {
        assert(d.clamp(zero, d_max) == d);
        let q = d.over(d_max);
        if d_max.infinite() {
            let none = crate::single::pack(d.negative() != d_max.negative(), 0);
            assert(none.mag() == 0);
            crate::single::lemma_units_positive(none);
        } else {
            crate::single::lemma_units_positive(d_max);
            crate::single::lemma_zero_rounds(d.negative() != d_max.negative(), d_max.units());
            assert(0 * vstd::arithmetic::power2::pow2(149) == 0);
            assert(q.mag() == 0);
            crate::single::lemma_units_positive(q);
        }
        lemma_entry_of_nothing(q);
    } else {
        lemma_entry_of_nothing(zero);
    }
}

/// Row `c` of the matrix takes channel `k` as it is, and nothing of the others.
pub open spec fn takes_only(pipeline: CurvePipeline, c: int, k: int) -> bool {
    forall|j: int|
        0 <= j < 3 ==> (#[trigger] pipeline.matrix.m@[c]@[j]).finite()
            && pipeline.matrix.m@[c]@[j].signed() == if j == k {
            crate::near::one()
        } else {
            0
        }
}

proof fn lemma_taken(m: Seq<Single>, d: Seq<Single>, k: int)
    requires
        m.len() == 3,
        d.len() == 3,
        0 <= k < 3,
        d[0].finite() && d[1].finite() && d[2].finite(),
        m[0].finite() && m[1].finite() && m[2].finite(),
        m[0].signed() == if k == 0 { crate::near::one() } else { 0 },
        m[1].signed() == if k == 1 { crate::near::one() } else { 0 },
        m[2].signed() == if k == 2 { crate::near::one() } else { 0 },
    ensures
        crate::near::same_value(
            m[0].times(d[0]).plus(m[1].times(d[1])).plus(m[2].times(d[2])),
            d[k],
        ),
{
    let (x, y, z) = (m[0].times(d[0]), m[1].times(d[1]), m[2].times(d[2]));
    if k == 0 {
        crate::near::lemma_once(m[0], d[0]);
    } else {
        crate::near::lemma_none(m[0], d[0]);
    }
    if k == 1 {
        crate::near::lemma_once(m[1], d[1]);
    } else {
        crate::near::lemma_none(m[1], d[1]);
    }
    if k == 2 {
        crate::near::lemma_once(m[2], d[2]);
    } else {
        crate::near::lemma_none(m[2], d[2]);
    }
    crate::near::lemma_exact_sum(x, y, if k == 1 { y } else { x });
    crate::near::lemma_exact_sum(x.plus(y), z, d[k]);
}

/// Where row `c` of the matrix takes channel `k` alone, channel `c` of the print is that of
/// channel `k` of the image, whatever the other channels hold: for each of the nine pairs.
pub proof fn rows_take_their_channel<
    L: Fn(Single) -> Single,
    F: Fn(Single, Single, Single) -> Rgb,
>(
    pipeline: CurvePipeline,
    log10: L,
    samples: Seq<Single>,
    r: Seq<u16>,
    white_point: Single,
    i: int,
    c: int,
    k: int,
)
    requires
        0 <= c < 3,
        0 <= k < 3,
        takes_only(pipeline, c, k),
        forall|j: int, d: Single|
            0 <= j < 3 && #[trigger] crate::curve::density_is(
                pipeline,
                log10,
                samples[3 * i + j],
                d,
            ) ==> d.finite(),
        crate::curve::printed(
            pipeline,
            log10,
            None::<&F>,
            crate::curve::three(samples, i),
            crate::curve::three(r, i),
            white_point,
        ),
    ensures
        exists|d: Single| #[trigger]
            crate::curve::density_is(pipeline, log10, samples[3 * i + k], d) && r[3 * i + c]
                == crate::curve::print_value(pipeline, d, white_point),
{
    let t = crate::curve::three(samples, i);
    let out = crate::curve::three(r, i);
    let (d, fixed) = choose|d: Rgb, fixed: Rgb| #[trigger]
        crate::curve::printed_by_way(pipeline, log10, None::<&F>, t, out, white_point, d, fixed);
    let ds = seq![d.0, d.1, d.2];
    assert(crate::curve::density_is(pipeline, log10, samples[3 * i + 0], ds[0]));
    assert(crate::curve::density_is(pipeline, log10, samples[3 * i + 1], ds[1]));
    assert(crate::curve::density_is(pipeline, log10, samples[3 * i + 2], ds[2]));
    let m = pipeline.matrix.m@[c]@;
    assert(m[0].finite() && m[1].finite() && m[2].finite());
    lemma_taken(m, ds, k);
    let x = m[0].times(ds[0]).plus(m[1].times(ds[1])).plus(m[2].times(ds[2]));
    lemma_looked_up_by_value(x, ds[k], pipeline.d_max);
    assert(crate::curve::density_is(pipeline, log10, samples[3 * i + k], ds[k]));
    assert(r[3 * i + c] == crate::curve::print_value(pipeline, x, white_point));
}

/// A number from zero to one, times 65535, rounded: at most 0.51 off.
proof fn lemma_step(x: Single) -> (q: nat)
    requires
        x.finite(),
        0 <= x.signed() <= crate::near::one(),
    ensures
        q <= 65_535,
        -51 * crate::near::one() <= 100 * (q * crate::near::one() - 65_535 * x.signed()) <= 51
            * crate::near::one(),
        x.times(Single::whole(65_535)).rounded().finite(),
        x.times(Single::whole(65_535)).rounded().signed() == q * crate::near::one(),
        forall|max: u64| #[trigger]
            x.times(Single::whole(65_535)).rounded().to_int(max) == if q <= max {
                q as u64
            } else {
                max
            },
{
    let c = crate::near::one();
    let e = crate::near::slip();
    crate::near::lemma_sizes();
    crate::near::lemma_whole(65_535);
    let w = Single::whole(65_535);
    let v = x.signed();
    assert(v * (65_535 * c) == (65_535 * v) * c && 0 <= v * (65_535 * c) <= 65_535 * c * c)
        by (nonlinear_arith)
        requires
            0 <= v <= c,
    ;
    crate::near::lemma_product(x, w, 65_535);
    let a = x.times(w);
    assert(65_535 * e * c == (65_535 * e) * c) by (nonlinear_arith);
    assert(a.signed() * c - (65_535 * v) * c == (a.signed() - 65_535 * v) * c) by (nonlinear_arith);
    crate::near::lemma_divided(a.signed() - 65_535 * v, 65_535 * e, c);
    reveal(Single::times_spec);
    if x.negative() {
        assert(x.units() == 0);
        assert(0 * w.units() == 0);
        crate::single::lemma_zero_rounds(true, vstd::arithmetic::power2::pow2(149));
        crate::single::lemma_units_positive(a);
    } else {
        crate::single::lemma_round_is_a_number(
            false,
            x.units() * w.units(),
            vstd::arithmetic::power2::pow2(149),
        );
    }
    // No number from zero to one reaches beyond the last step.
    crate::single::lemma_round_self(w);
    assert(x.units() * w.units() <= w.units() * vstd::arithmetic::power2::pow2(149))
        by (nonlinear_arith)
        requires
            x.units() <= c,
            c == vstd::arithmetic::power2::pow2(149),
            w.units() >= 0,
    ;
    crate::single::lemma_round_at_most(
        x.units() * w.units(),
        vstd::arithmetic::power2::pow2(149),
        w,
    );
    crate::single::lemma_units_monotone(
        crate::single::round_units(
            false,
            x.units() * w.units(),
            vstd::arithmetic::power2::pow2(149),
        ),
        w,
    );
    let q = crate::near::lemma_rounded(a);
    assert(q <= 65_535) by (nonlinear_arith)
        requires
            2 * (q * c - a.signed()) <= c,
            a.signed() <= 65_535 * c,
            c > 0,
    ;
    q
}

/// A step of a table is the one nearest to a number from zero to one.
pub open spec fn is_nearest_step(i: int, x: Single) -> bool {
    0 <= i <= 65_535 && -51 * crate::near::one() <= 100 * (i * crate::near::one() - 65_535
        * x.signed()) <= 51 * crate::near::one()
}

/// Numbers from zero to one are looked up, and written on 16 bits, at the nearest step.
pub proof fn steps_are_the_nearest(x: Single)
    requires
        x.finite(),
        0 <= x.signed() <= crate::near::one(),
    ensures
        is_nearest_step(crate::curve::entry(x), x),
        is_nearest_step(crate::curve::film_entry(x), x),
        is_nearest_step(crate::curve::quantized(x) as int, x),
        is_nearest_step(crate::paper::code(x) as int, x),
{
    let q = lemma_step(x);
    crate::near::lemma_sizes();
    crate::near::lemma_whole(65_535);
    let last = Single::whole(65_535);
    let r = x.times(last).rounded();
    crate::near::lemma_smaller_larger(r, last);
    let c = crate::near::one();
    assert(q * c <= 65_535 * c) by (nonlinear_arith)
        requires
            q <= 65_535,
            c > 0,
    ;
    let s = r.smaller(last);
    crate::near::lemma_cut(s, 65_535);
    let f = s.to_int(65_535) as int;
    assert(f == q) by (nonlinear_arith)
        requires
            f * c <= q * c,
            f < 65_535 ==> q * c < (f + 1) * c,
            f <= 65_535,
            q <= 65_535,
            c > 0,
    ;
}

/// A 16-bit value as a number from zero to one lies where it should.
proof fn lemma_unit(v: int)
    requires
        0 <= v <= 65_535,
    ensures
        ({
            let u = Single::whole(v as u64).over(Single::whole(65_535));
            &&& u.finite()
            &&& 0 <= u.signed() <= crate::near::one()
            &&& -65_535 * crate::near::slip() <= u.signed() * 65_535 - v * crate::near::one()
                <= 65_535 * crate::near::slip()
        }),
{
    let c = crate::near::one();
    let e = crate::near::slip();
    crate::near::lemma_sizes();
    crate::near::lemma_whole(v as u64);
    crate::near::lemma_whole(65_535);
    crate::near::lemma_whole(1);
    let a = Single::whole(v as u64);
    let d = Single::whole(65_535);
    assert(0 <= v * c <= 1 * (65_535 * c)) by (nonlinear_arith)
        requires
            0 <= v <= 65_535,
            c > 0,
    ;
    crate::near::lemma_quotient(a, d, 1);
    let u = a.over(d).signed();
    assert(1 * e * (65_535 * c) == (65_535 * e) * c && u * (65_535 * c) - v * c * c == (u * 65_535
        - v * c) * c) by (nonlinear_arith);
    crate::near::lemma_divided(u * 65_535 - v * c, 65_535 * e, c);
    reveal(Single::over_spec);
    crate::single::lemma_units_positive(d);
    let p = vstd::arithmetic::power2::pow2(149);
    crate::single::lemma_round_is_a_number(false, a.units() * p, d.units());
    assert(a.units() * p <= Single::whole(1).units() * d.units()) by (nonlinear_arith)
        requires
            a.units() == v * p,
            d.units() == 65_535 * p,
            Single::whole(1).units() == 1 * p,
            v <= 65_535,
    ;
    crate::single::lemma_round_at_most(a.units() * p, d.units(), Single::whole(1));
    crate::single::lemma_units_monotone(a.over(d), Single::whole(1));
}

/// A 16-bit value that is made a number and written again is itself; so is the place of an entry
/// of a table.
pub proof fn values_are_kept(v: u16)
    ensures
        crate::curve::quantized(crate::curve::unit(v)) == v,
        crate::paper::code(crate::curve::unit(v)) == v,
        crate::curve::entry(crate::paper::place(v as int)) == v,
        crate::curve::film_entry(crate::paper::place(v as int)) == v,
{
    lemma_unit(v as int);
    let u = crate::curve::unit(v);
    crate::near::lemma_sizes();
    steps_are_the_nearest(u);
    lemma_same_step(crate::curve::quantized(u) as int, v as int, u);
    lemma_same_step(crate::paper::code(u) as int, v as int, u);
    lemma_same_step(crate::curve::entry(u), v as int, u);
    lemma_same_step(crate::curve::film_entry(u), v as int, u);
}

proof fn lemma_same_step(i: int, v: int, u: Single)
    requires
        is_nearest_step(i, u),
        -65_535 * crate::near::slip() <= u.signed() * 65_535 - v * crate::near::one() <= 65_535
            * crate::near::slip(),
    ensures
        i == v,
{
    let c = crate::near::one();
    let e = crate::near::slip();
    crate::near::lemma_sizes();
    let off = i * c - v * c;
    assert(-c < off < c);
    assert(off == (i - v) * c) by (nonlinear_arith)
        requires
            off == i * c - v * c,
    ;
    assert(i == v) by (nonlinear_arith)
        requires
            -c < (i - v) * c < c,
            c > 0,
    ;
}

/// A density is looked up where it lies between zero and the largest one, in proportion: below at
/// the first entry, above at the last.
pub open spec fn is_looked_up_at(i: int, d: Single, d_max: Single) -> bool {
    &&& 0 <= i <= 65_535
    &&& d.signed() <= 0 ==> i == 0
    &&& d.signed() >= d_max.signed() ==> i == 65_535
    &&& 0 <= d.signed() <= d_max.signed() ==> -52 * d_max.signed() <= 100 * (i * d_max.signed()
        - 65_535 * d.signed()) <= 52 * d_max.signed()
}

proof fn lemma_share(d: Single, d_max: Single)
    requires
        d.finite(),
        d_max.finite(),
        d_max.signed() > 0,
    ensures
        ({
            let x = d.clamp(Single::whole(0), d_max).over(d_max);
            &&& x.finite()
            &&& 0 <= x.signed() <= crate::near::one()
            &&& d.signed() <= 0 ==> x.signed() == 0
            &&& d.signed() >= d_max.signed() ==> x.signed() == crate::near::one()
            &&& 0 <= d.signed() <= d_max.signed() ==> -(crate::near::slip() * d_max.signed())
                <= x.signed() * d_max.signed() - d.signed() * crate::near::one()
                <= crate::near::slip() * d_max.signed()
        }),
{
    let c = crate::near::one();
    let p = vstd::arithmetic::power2::pow2(149);
    crate::near::lemma_sizes();
    crate::near::lemma_whole(0);
    crate::near::lemma_whole(1);
    let y = d.clamp(Single::whole(0), d_max);
    crate::near::lemma_held(d, Single::whole(0), d_max);
    crate::near::lemma_quotient(y, d_max, 1);
    let x = y.over(d_max);
    crate::single::lemma_units_positive(d_max);
    crate::single::lemma_units_positive(y);
    reveal(Single::over_spec);
    if y.signed() == 0 {
        assert(0 * p == 0);
        crate::single::lemma_zero_rounds(y.negative() != d_max.negative(), d_max.units());
        crate::single::lemma_units_positive(x);
    } else {
        crate::single::lemma_round_is_a_number(false, y.units() * p, d_max.units());
        assert(y.units() * p <= Single::whole(1).units() * d_max.units()) by (nonlinear_arith)
            requires
                y.units() <= d_max.units(),
                Single::whole(1).units() == p,
        ;
        crate::single::lemma_round_at_most(y.units() * p, d_max.units(), Single::whole(1));
        crate::single::lemma_units_monotone(x, Single::whole(1));
    }
    if d.signed() >= d_max.signed() {
        crate::near::lemma_unique(y, d_max);
        crate::single::lemma_over_itself(d_max);
    }
    assert(1 * crate::near::slip() * d_max.signed() == crate::near::slip() * d_max.signed());
}

/// Both kinds of print look their densities up in proportion.
pub proof fn densities_are_looked_up_in_proportion(d: Single, d_max: Single)
    requires
        d.finite(),
        d_max.finite(),
        d_max.signed() > 0,
    ensures
        is_looked_up_at(crate::curve::density_entry(d, d_max), d, d_max),
        is_looked_up_at(
            crate::curve::film_entry(d.clamp(Single::whole(0), d_max).over(d_max)),
            d,
            d_max,
        ),
{
    crate::near::lemma_sizes();
    crate::near::lemma_whole(0);
    crate::single::order_is_by_value(Single::whole(0), d_max);
    lemma_share(d, d_max);
    let x = d.clamp(Single::whole(0), d_max).over(d_max);
    steps_are_the_nearest(x);
    lemma_step_in_proportion(crate::curve::entry(x), x, d, d_max);
    lemma_step_in_proportion(crate::curve::film_entry(x), x, d, d_max);
}

proof fn lemma_step_in_proportion(i: int, x: Single, d: Single, d_max: Single)
    requires
        is_nearest_step(i, x),
        0 <= x.signed() <= crate::near::one(),
        d_max.signed() > 0,
        d.signed() <= 0 ==> x.signed() == 0,
        d.signed() >= d_max.signed() ==> x.signed() == crate::near::one(),
        0 <= d.signed() <= d_max.signed() ==> -(crate::near::slip() * d_max.signed()) <= x.signed()
            * d_max.signed() - d.signed() * crate::near::one() <= crate::near::slip()
            * d_max.signed(),
    ensures
        is_looked_up_at(i, d, d_max),
{
    let c = crate::near::one();
    let e = crate::near::slip();
    let m = d_max.signed();
    let (xv, dv) = (x.signed(), d.signed());
    crate::near::lemma_sizes();
    if dv <= 0 {
        assert(i == 0) by (nonlinear_arith)
            requires
                100 * (i * c - 65_535 * 0) <= 51 * c,
                i >= 0,
                c > 0,
        ;
    }
    if dv >= m {
        assert(i == 65_535) by (nonlinear_arith)
            requires
                -51 * c <= 100 * (i * c - 65_535 * c),
                i <= 65_535,
                c > 0,
        ;
    }
    if 0 <= dv <= m {
        let a = 100 * (i * c - 65_535 * xv);
        crate::near::lemma_bounded(a, 51 * c, m, m);
        let b = xv * m - dv * c;
        let near = 100 * (i * m - 65_535 * dv);
        assert(near * c == a * m + 6_553_500 * b) by (nonlinear_arith)
            requires
                a == 100 * (i * c - 65_535 * xv),
                b == xv * m - dv * c,
                near == 100 * (i * m - 65_535 * dv),
        ;
        assert(6_553_500 * (e * m) <= c * m && 51 * c * m + c * m == (52 * m) * c)
            by (nonlinear_arith)
            requires
                c == e * 0x80_0000,
                e > 0,
                m > 0,
        ;
        crate::near::lemma_divided(near, 52 * m, c);
    }
}

/// Without bleed, vibrance and white point, a channel of a film print is what its own table holds
/// for its own density, whatever the other channels are.
pub proof fn plain_film_prints_read_their_own_table(
    luts: (Seq<u16>, Seq<u16>, Seq<u16>),
    d: Seq<Single>,
    c: int,
    p: crate::curve::FilmPrintParams,
    d_max: Single,
)
    requires
        0 <= c < 3,
        d.len() == 3,
        d[c].finite(),
        d_max.finite(),
        d_max.signed() > 0,
        p.color_bleed == Single::whole(0),
        p.vibrance == Single::whole(0),
        p.white_point == Single::whole(1),
    ensures
        exists|i: int| #[trigger]
            is_looked_up_at(i, d[c], d_max) && crate::curve::film_printed(
                luts,
                d[0],
                d[1],
                d[2],
                c,
                p,
                d_max,
            ) == (if c == 0 {
                luts.0
            } else if c == 1 {
                luts.1
            } else {
                luts.2
            })[i],
{
    crate::curve::no_bleed_keeps_densities(d[0], d[1], d[2]);
    crate::curve::no_bleed_keeps_densities(d[1], d[0], d[2]);
    crate::curve::no_bleed_keeps_densities(d[2], d[0], d[1]);
    lemma_plain_white();
    densities_are_looked_up_in_proportion(d[c], d_max);
    let i = crate::curve::film_entry(d[c].clamp(Single::whole(0), d_max).over(d_max));
    let lut = if c == 0 {
        luts.0
    } else if c == 1 {
        luts.1
    } else {
        luts.2
    };
    let (r, g, b) = crate::curve::film_values(luts, d[0], d[1], d[2], p, d_max);
    let v = if c == 0 {
        r
    } else if c == 1 {
        g
    } else {
        b
    };
    crate::curve::no_vibrance_keeps_colours(v, r, g, b);
    assert(v == crate::curve::unit(lut[i]));
    lemma_unit(lut[i] as int);
    crate::near::lemma_whole(0);
    crate::near::lemma_whole(1);
    crate::single::order_is_by_value(v, Single::whole(0));
    crate::single::order_is_by_value(Single::whole(1), v);
    assert(crate::curve::part(v) == v);
    values_are_kept(lut[i]);
    assert(is_looked_up_at(i, d[c], d_max));
}

proof fn lemma_plain_white()
    ensures
        !crate::curve::whitens(Single::whole(1)),
{
    let one = Single::whole(1);
    crate::near::lemma_sizes();
    crate::near::lemma_whole(1);
    crate::near::lemma_whole(10);
    crate::near::lemma_whole(0);
    let c = vstd::arithmetic::power2::pow2(149);
    let tiny = Single::ratio(1, 1_000_000);
    assert(0 <= 1 * c <= one.units() * 1_000_000);
    crate::single::lemma_ratio_bounds(1, 1_000_000, Single::whole(0), one);
    crate::single::lemma_units_monotone(tiny, one);
    crate::near::lemma_held(one, tiny, Single::whole(10));
    let w = crate::curve::white(one);
    assert(w == one) by {
        crate::single::order_is_by_value(one, tiny);
        crate::single::order_is_by_value(Single::whole(10), one);
    }
    crate::single::lemma_zero_is_neutral(one);
    crate::near::lemma_size(Single::whole(0));
    let eps = crate::curve::epsilon();
    assert(eps.finite() && !eps.negative());
    crate::single::order_is_by_value(eps, Single::whole(0).abs());
}

/// A value over the white point, at most white: to 0.8 of a step.
pub open spec fn is_whitened(w: int, v: int, white_point: Single) -> bool {
    let p = white_point.signed();
    let c = crate::near::one();
    &&& 0 <= w <= 65_535
    &&& v * c >= 65_536 * p ==> w == 65_535
    &&& v * c <= 65_535 * p ==> -80 * p <= 100 * (w * p - v * c) <= 80 * p
}

/// The white point is brought to white: what was as bright is white, and what is darker keeps its
/// share, for white points from a tenth to ten.
pub proof fn white_points_become_white(v: u16, white_point: Single)
    requires
        white_point.finite(),
        crate::near::one() <= 10 * white_point.signed(),
        white_point.signed() <= 10 * crate::near::one(),
    ensures
        is_whitened(crate::curve::whitened(v, white_point) as int, v as int, white_point),
{
    let c = crate::near::one();
    let e = crate::near::slip();
    let p = white_point.signed();
    crate::near::lemma_sizes();
    lemma_white_in_range(white_point);
    if crate::curve::whitens(white_point) {
        crate::near::lemma_whole(1);
        crate::near::lemma_whole(0);
        let one = Single::whole(1);
        let g = one.over(white_point);
        crate::near::lemma_quotient(one, white_point, 10);
        lemma_unit(v as int);
        let u = crate::curve::unit(v);
        let (gv, uv) = (g.signed(), u.signed());
        assert(-11 * c <= gv <= 11 * c) by (nonlinear_arith)
            requires
                -(10 * e * p) <= gv * p - c * c <= 10 * e * p,
                c <= 10 * p,
                p > 0,
                c == e * 0x80_0000,
                e > 0,
        ;
        crate::near::lemma_bounded(uv, c, gv, 11 * c);
        assert(c * (11 * c) == 11 * c * c) by (nonlinear_arith);
        crate::near::lemma_product(u, g, 11);
        let m = u.times(g);
        let mv = m.signed();
        // Both slips, times the white point.
        let a = mv * c - uv * gv;
        let b = gv * p - c * c;
        crate::near::lemma_bounded(a, 11 * e * c, p, p);
        crate::near::lemma_bounded(b, 10 * e * p, uv, c);
        let x = mv * p - uv * c;
        assert(x * c == a * p + b * uv) by (nonlinear_arith)
            requires
                a == mv * c - uv * gv,
                b == gv * p - c * c,
                x == mv * p - uv * c,
        ;
        assert(11 * e * c * p + 10 * e * p * c == (21 * e * p) * c) by (nonlinear_arith);
        crate::near::lemma_divided(x, 21 * e * p, c);
        // Against the value itself.
        let y = 65_535 * (mv * p) - v * c * c;
        let z = uv * 65_535 - v * c;
        crate::near::lemma_bounded(z, 65_535 * e, c, c);
        assert(y == 65_535 * x + z * c) by (nonlinear_arith)
            requires
                x == mv * p - uv * c,
                z == uv * 65_535 - v * c,
                y == 65_535 * (mv * p) - v * c * c,
        ;
        assert(65_535 * e * c <= 655_350 * (e * p) && 21 * e * p == 21 * (e * p))
            by (nonlinear_arith)
            requires
                c <= 10 * p,
                e > 0,
        ;
        let ep = e * p;
        assert(-2_031_585 * ep <= y <= 2_031_585 * ep);
        let q = crate::curve::part(m);
        crate::near::lemma_held(m, Single::whole(0), one);
        steps_are_the_nearest(q);
        let w = crate::curve::quantized(q) as int;
        lemma_whitened(w, v as int, white_point, mv, q.signed(), y);
    } else {
        let one = Single::whole(1);
        crate::near::lemma_whole(1);
        crate::near::lemma_difference(white_point, one, 9);
        crate::near::lemma_size(white_point.minus(one));
        let eps = crate::curve::epsilon();
        assert(eps.exp() == 103 && eps.mant() == 0x80_0000 && !eps.negative());
        vstd::arithmetic::power2::lemma2_to64();
        vstd::arithmetic::power2::lemma_pow2_adds(23, 103);
        assert(eps.signed() == e);
        crate::single::order_is_by_value(eps, white_point.minus(one).abs());
        assert(-10 * e <= p - c <= 10 * e);
        lemma_left(v as int, white_point);
    }
}

proof fn lemma_left(v: int, white_point: Single)
    requires
        0 <= v <= 65_535,
        -10 * crate::near::slip() <= white_point.signed() - crate::near::one() <= 10
            * crate::near::slip(),
    ensures
        is_whitened(v, v, white_point),
{
    let c = crate::near::one();
    let e = crate::near::slip();
    let p = white_point.signed();
    crate::near::lemma_sizes();
    crate::near::lemma_bounded(p - c, 10 * e, v, v);
    assert((p - c) * v == v * p - v * c) by (nonlinear_arith);
    assert(10 * e * v <= 655_350 * e) by (nonlinear_arith)
        requires
            0 <= v <= 65_535,
            e > 0,
    ;
    assert(v * c <= 65_535 * c) by (nonlinear_arith)
        requires
            v <= 65_535,
            c > 0,
    ;
}

proof fn lemma_whitened(w: int, v: int, white_point: Single, mv: int, qv: int, y: int)
    requires
        0 <= w <= 65_535,
        -51 * crate::near::one() <= 100 * (w * crate::near::one() - 65_535 * qv) <= 51
            * crate::near::one(),
        qv == if mv < 0 {
            0
        } else if mv > crate::near::one() {
            crate::near::one()
        } else {
            mv
        },
        crate::near::one() <= 10 * white_point.signed(),
        0 <= v,
        y == 65_535 * (mv * white_point.signed()) - v * crate::near::one() * crate::near::one(),
        -2_031_585 * (crate::near::slip() * white_point.signed()) <= y <= 2_031_585 * (
        crate::near::slip() * white_point.signed()),
    ensures
        is_whitened(w, v, white_point),
{
    let c = crate::near::one();
    let e = crate::near::slip();
    let p = white_point.signed();
    let ep = e * p;
    crate::near::lemma_sizes();
    assert(c * p == 0x80_0000 * ep) by (nonlinear_arith)
        requires
            c == e * 0x80_0000,
            ep == e * p,
    ;
    assert(ep > 0) by (nonlinear_arith)
        requires
            ep == e * p,
            e > 0,
            p > 0,
    ;
    let vcc = v * c * c;
    assert(vcc == (v * c) * c) by (nonlinear_arith)
        requires
            vcc == v * c * c,
    ;
    if v * c >= 65_536 * p {
        assert(vcc >= 65_536 * (c * p)) by (nonlinear_arith)
            requires
                vcc == (v * c) * c,
                v * c >= 65_536 * p,
                c > 0,
        ;
        assert(65_535 * (mv * p) >= 65_535 * (c * p));
        assert(mv >= c) by (nonlinear_arith)
            requires
                mv * p >= c * p,
                p > 0,
        ;
        assert(w == 65_535) by (nonlinear_arith)
            requires
                -51 * c <= 100 * (w * c - 65_535 * c),
                w <= 65_535,
                c > 0,
        ;
    }
    if v * c <= 65_535 * p {
        // The share never lies beyond white, but for a slip.
        assert(0 <= vcc <= 65_535 * (c * p)) by (nonlinear_arith)
            requires
                vcc == (v * c) * c,
                0 <= v * c <= 65_535 * p,
                c > 0,
        ;
        let mp = mv * p;
        let qp = qv * p;
        if mv < 0 {
            assert(mp <= 0 && qp == 0) by (nonlinear_arith)
                requires
                    mp == mv * p,
                    qp == qv * p,
                    mv < 0,
                    qv == 0,
                    p > 0,
            ;
        } else if mv > c {
            assert(mp >= c * p && qp == c * p) by (nonlinear_arith)
                requires
                    mp == mv * p,
                    qp == qv * p,
                    mv > c,
                    qv == c,
                    p > 0,
            ;
        }
        assert(-2_031_585 * ep <= 65_535 * qp - vcc <= 2_031_585 * ep);
        let a = 100 * (w * c - 65_535 * qv);
        crate::near::lemma_bounded(a, 51 * c, p, p);
        let near = 100 * (w * p - v * c);
        assert(near * c == a * p + 6_553_500 * qp - 100 * vcc) by (nonlinear_arith)
            requires
                a == 100 * (w * c - 65_535 * qv),
                near == 100 * (w * p - v * c),
                qp == qv * p,
                vcc == (v * c) * c,
        ;
        assert(51 * c * p == 51 * (c * p) && (80 * p) * c == 80 * (c * p)) by (nonlinear_arith);
        assert(-(80 * p * c) <= near * c <= 80 * p * c) by {
            assert(80 * p * c == 80 * (c * p)) by (nonlinear_arith);
        }
        crate::near::lemma_divided(near, 80 * p, c);
    }
    assert(v * c >= 0) by (nonlinear_arith)
        requires
            v >= 0,
            c > 0,
    ;
}

proof fn lemma_white_in_range(white_point: Single)
    requires
        white_point.finite(),
        crate::near::one() <= 10 * white_point.signed(),
        white_point.signed() <= 10 * crate::near::one(),
    ensures
        crate::curve::white(white_point) == white_point,
{
    crate::near::lemma_sizes();
    crate::near::lemma_whole(0);
    crate::near::lemma_whole(1);
    crate::near::lemma_whole(10);
    let c = vstd::arithmetic::power2::pow2(149);
    let tiny = Single::ratio(1, 1_000_000);
    vstd::arithmetic::power2::lemma2_to64();
    let tenth = Single { bits: 0x3d80_0000 };
    assert(tenth.exp() == 122 && tenth.mant() == 0x80_0000 && !tenth.negative());
    vstd::arithmetic::power2::lemma_pow2_adds(23, 122);
    vstd::arithmetic::power2::lemma_pow2_adds(4, 145);
    assert(16 * tenth.units() == c);
    assert(0 <= 1 * c <= tenth.units() * 1_000_000);
    crate::single::lemma_ratio_bounds(1, 1_000_000, Single::whole(0), tenth);
    crate::single::lemma_units_monotone(tiny, tenth);
    crate::single::order_is_by_value(white_point, tiny);
    crate::single::order_is_by_value(Single::whole(10), white_point);
}

/// A closure of the machine that gives the same answer each time.
pub open spec fn steady<P: Fn(Single, Single) -> Single>(power: P) -> bool {
    forall|a: Single, b: Single, x: Single, y: Single| #[trigger]
        power.ensures((a, b), x) && #[trigger] power.ensures((a, b), y) ==> x == y
}

/// A number above zero that is neither huge nor tiny.
pub open spec fn is_exposure(v: Single) -> bool {
    v.finite() && crate::near::slip() <= v.signed() <= 0x10_0000 * crate::near::one()
}

/// Paper turns middle grey where its exposure is the pivot, whatever its contrast.
pub proof fn paper_is_middle_grey_at_its_pivot<P: Fn(Single, Single) -> Single>(
    power: P,
    log_exposure: Single,
    gamma: Single,
    pivot: Single,
    y: Single,
)
    requires
        steady(power),
        power.ensures((Single::whole(10), log_exposure), pivot),
        forall|q: Single| #[trigger] power.ensures((pivot, gamma), q) ==> is_exposure(q),
        crate::paper::printed(power, log_exposure, gamma, pivot, y),
    ensures
        y.finite(),
        2 * y.signed() == crate::near::one(),
{
    let (exposure, eg, pg) = choose|exposure: Single, eg: Single, pg: Single| #[trigger]
        crate::paper::printed_by_way(power, log_exposure, gamma, pivot, y, exposure, eg, pg);
    assert(exposure == pivot);
    assert(eg == pg);
    assert(power.ensures((pivot, gamma), pg));
    lemma_half(pg);
}

proof fn lemma_half(a: Single)
    requires
        is_exposure(a),
    ensures
        crate::paper::response(a, a).finite(),
        2 * crate::paper::response(a, a).signed() == crate::near::one(),
{
    reveal(Single::over_spec);
    crate::near::lemma_sizes();
    crate::near::lemma_whole(0);
    crate::near::lemma_whole(1);
    let p = vstd::arithmetic::power2::pow2(149);
    // Twice the number is held exactly: one more in the exponent.
    let b = Single { bits: (a.bits + 0x80_0000) as u32 };
    crate::single::lemma_units_positive(a);
    lemma_normal(a);
    assert(a.mag() < 0x7f00_0000) by {
        if a.mag() >= 0x7f00_0000 {
            let big = Single { bits: 0x7f00_0000 };
            assert(big.exp() == 253 && big.mant() == 0x80_0000);
            crate::single::lemma_units_monotone(big, a);
            vstd::arithmetic::power2::lemma2_to64();
            vstd::arithmetic::power2::lemma_pow2_adds(23, 253);
            vstd::arithmetic::power2::lemma_pow2_adds(149, 20);
            vstd::arithmetic::power2::lemma_pow2_strictly_increases(169, 276);
        }
    }
    assert(b.exp() == a.exp() + 1 && b.mant() == a.mant());
    vstd::arithmetic::power2::lemma_pow2_unfold(b.exp());
    assert(b.units() == 2 * a.units()) by (nonlinear_arith)
        requires
            b.units() == b.mant() * vstd::arithmetic::power2::pow2(b.exp()),
            a.units() == a.mant() * vstd::arithmetic::power2::pow2(a.exp()),
            b.mant() == a.mant(),
            vstd::arithmetic::power2::pow2(b.exp()) == 2 * vstd::arithmetic::power2::pow2(a.exp()),
    ;
    crate::near::lemma_exact_sum(a, a, b);
    let s = a.plus(a);
    crate::near::lemma_unique(s, b);
    let h = Single { bits: 0x3f00_0000 };
    assert(h.exp() == 125 && h.mant() == 0x80_0000 && !h.negative());
    vstd::arithmetic::power2::lemma2_to64();
    vstd::arithmetic::power2::lemma_pow2_adds(23, 125);
    vstd::arithmetic::power2::lemma_pow2_unfold(149);
    assert(2 * h.units() == p);
    crate::single::lemma_round_self(h);
    crate::single::lemma_units_positive(b);
    crate::single::lemma_scale(false, h.units(), 1, b.units());
    assert(a.units() * p == h.units() * b.units() && 1 * b.units() == b.units())
        by (nonlinear_arith)
        requires
            b.units() == 2 * a.units(),
            p == 2 * h.units(),
    ;
    assert(a.over(s) == h);
    crate::near::lemma_held(h, Single::whole(0), Single::whole(1));
}

/// A number of at least a slip has a full significand.
proof fn lemma_normal(a: Single)
    requires
        a.finite(),
        a.signed() >= crate::near::slip(),
    ensures
        a.mag() >= 0x80_0000,
        !a.negative(),
{
    crate::near::lemma_sizes();
    if a.mag() < 0x80_0000 {
        let low = Single { bits: 0x80_0000 };
        assert(low.exp() == 0 && low.mant() == 0x80_0000);
        vstd::arithmetic::power2::lemma2_to64();
        crate::single::lemma_units_monotone(a, low);
        assert(low.units() == 0x80_0000);
    }
}

/// The brightness of the print is the share of its exposure in both exposures.
pub proof fn brightness_is_a_share(eg: Single, pg: Single)
    requires
        eg.finite(),
        pg.finite(),
        0 <= eg.signed(),
        0 <= pg.signed(),
        crate::near::one() <= eg.signed() + pg.signed() <= 0x10_0000 * crate::near::one(),
    ensures
        ({
            let y = crate::paper::response(eg, pg);
            let all = eg.signed() + pg.signed();
            &&& y.finite()
            &&& 0 <= y.signed() <= crate::near::one()
            &&& -(all * crate::near::one()) <= (y.signed() * all - eg.signed()
                * crate::near::one()) * 100_000 <= all * crate::near::one()
        }),
{
    let c = crate::near::one();
    let e = crate::near::slip();
    crate::near::lemma_sizes();
    crate::near::lemma_whole(0);
    crate::near::lemma_whole(1);
    let (a, b) = (eg.signed(), pg.signed());
    let all = a + b;
    let k = all / c + 1;
    vstd::arithmetic::div_mod::lemma_fundamental_div_mod(all, c);
    vstd::arithmetic::div_mod::lemma_mod_bound(all, c);
    let d = all / c;
    assert(1 <= d <= 0x10_0000 && c * d <= all < c * d + c) by (nonlinear_arith)
        requires
            all == c * d + all % c,
            0 <= all % c < c,
            c <= all <= 0x10_0000 * c,
            c > 0,
    ;
    assert(k * c == c * d + c) by (nonlinear_arith)
        requires
            k == d + 1,
    ;
    assert(-k * c == -(k * c) && -k * e == -(k * e)) by (nonlinear_arith);
    crate::near::lemma_sum(eg, pg, k);
    let s = eg.plus(pg);
    let sv = s.signed();
    // k slips are two parts in 2^23 of the sum at most.
    assert(k * e * 0x80_0000 == k * c) by (nonlinear_arith)
        requires
            c == e * 0x80_0000,
    ;
    assert(k * e * 0x40_0000 <= all);
    assert(sv > 0 && a <= 2 * sv);
    crate::near::lemma_quotient(eg, s, 2);
    let q = eg.over(s);
    let qv = q.signed();
    crate::near::lemma_held(q, Single::whole(0), Single::whole(1));
    let y = crate::paper::response(eg, pg).signed();
    // The quotient against the true sum.
    let x = qv * sv - a * c;
    assert(2 * e * sv <= 3 * (e * all)) by (nonlinear_arith)
        requires
            2 * sv <= 3 * all,
            e > 0,
    ;
    assert(-(3 * c) <= qv <= 3 * c) by (nonlinear_arith)
        requires
            -(2 * e * sv) <= qv * sv - a * c <= 2 * e * sv,
            0 <= a <= 2 * sv,
            sv > 0,
            c == e * 0x80_0000,
            e > 0,
    ;
    crate::near::lemma_bounded(sv - all, k * e, qv, 3 * c);
    let off = qv * all - a * c;
    assert(off == x - (sv - all) * qv) by (nonlinear_arith)
        requires
            off == qv * all - a * c,
            x == qv * sv - a * c,
    ;
    assert(k * e * (3 * c) * 0x40_0000 <= 3 * (all * c)) by (nonlinear_arith)
        requires
            k * e * 0x40_0000 <= all,
            c > 0,
    ;
    let ac = all * c;
    assert(e * all * 0x80_0000 == ac) by (nonlinear_arith)
        requires
            ac == all * c,
            c == e * 0x80_0000,
    ;
    assert(-ac <= off * 200_000 <= ac);
    // Holding it between zero and one moves it towards the true share.
    assert(0 <= a * c <= ac) by (nonlinear_arith)
        requires
            0 <= a <= all,
            ac == all * c,
            c > 0,
    ;
    if qv > c {
        assert(y * all == ac && qv * all >= ac) by (nonlinear_arith)
            requires
                y == c,
                qv > c,
                ac == all * c,
                all > 0,
        ;
    } else if qv < 0 {
        assert(y * all == 0 && qv * all <= 0) by (nonlinear_arith)
            requires
                y == 0,
                qv < 0,
                all > 0,
        ;
    }
}

/// An entry of a paper table is made for the density that is looked up there.
pub proof fn tables_are_read_where_they_were_written(i: int, d_max: Single)
    requires
        0 <= i <= 65_535,
        d_max.finite(),
        crate::near::one() <= d_max.signed() <= 64 * crate::near::one(),
    ensures
        crate::curve::density_entry(crate::paper::place(i).times(d_max), d_max) == i,
        crate::curve::film_entry(
            crate::paper::place(i).times(d_max).clamp(Single::whole(0), d_max).over(d_max),
        ) == i,
{
    let c = crate::near::one();
    let e = crate::near::slip();
    let m = d_max.signed();
    crate::near::lemma_sizes();
    lemma_unit(i);
    let u = crate::paper::place(i);
    let uv = u.signed();
    let k = m / c + 1;
    vstd::arithmetic::div_mod::lemma_fundamental_div_mod(m, c);
    vstd::arithmetic::div_mod::lemma_mod_bound(m, c);
    let q = m / c;
    assert(1 <= q <= 64 && c * q <= m < c * q + c) by (nonlinear_arith)
        requires
            m == c * q + m % c,
            0 <= m % c < c,
            c <= m <= 64 * c,
            c > 0,
    ;
    assert(k * c == c * q + c && k * c <= 2 * m) by (nonlinear_arith)
        requires
            k == q + 1,
            c * q <= m,
            c <= m,
    ;
    assert(0 <= uv * m <= k * c * c) by (nonlinear_arith)
        requires
            0 <= uv <= c,
            0 <= m <= k * c,
            c > 0,
    ;
    crate::near::lemma_product(u, d_max, k);
    let x = u.times(d_max);
    let xv = x.signed();
    let a = xv * c - uv * m;
    let b = uv * 65_535 - i * c;
    crate::near::lemma_bounded(b, 65_535 * e, m, m);
    let off = 65_535 * xv - i * m;
    assert(off * c == 65_535 * a + b * m) by (nonlinear_arith)
        requires
            a == xv * c - uv * m,
            b == uv * 65_535 - i * c,
            off == 65_535 * xv - i * m,
    ;
    assert(k * e * c <= 2 * (e * m)) by (nonlinear_arith)
        requires
            k * c <= 2 * m,
            e > 0,
    ;
    assert(65_535 * (2 * (e * m)) + 65_535 * e * m == 196_605 * (e * m)) by (nonlinear_arith);
    assert(196_605 * (e * m) * 40 <= c * m) by (nonlinear_arith)
        requires
            c == e * 0x80_0000,
            e > 0,
            m > 0,
    ;
    assert((40 * off) * c == 40 * (off * c) && m * c == c * m) by (nonlinear_arith);
    crate::near::lemma_divided(40 * off, m, c);
    densities_are_looked_up_in_proportion(x, d_max);
    lemma_found_again(crate::curve::density_entry(x, d_max), i, x, d_max);
    lemma_found_again(
        crate::curve::film_entry(x.clamp(Single::whole(0), d_max).over(d_max)),
        i,
        x,
        d_max,
    );
}

proof fn lemma_found_again(j: int, i: int, x: Single, d_max: Single)
    requires
        0 <= i <= 65_535,
        d_max.signed() > 0,
        is_looked_up_at(j, x, d_max),
        -d_max.signed() <= 40 * (65_535 * x.signed() - i * d_max.signed()) <= d_max.signed(),
    ensures
        j == i,
{
    let m = d_max.signed();
    let xv = x.signed();
    if xv <= 0 {
        assert(i == 0) by (nonlinear_arith)
            requires
                -m <= 40 * (65_535 * xv - i * m),
                xv <= 0,
                i >= 0,
                m > 0,
        ;
    } else if xv >= m {
        assert(i == 65_535) by (nonlinear_arith)
            requires
                40 * (65_535 * xv - i * m) <= m,
                xv >= m,
                i <= 65_535,
                m > 0,
        ;
    } else {
        assert(-m < j * m - i * m < m);
        assert((j - i) * m == j * m - i * m) by (nonlinear_arith);
        assert(j == i) by (nonlinear_arith)
            requires
                -m < (j - i) * m < m,
                m > 0,
        ;
    }
}

/// A channel of a film print has its own offset and its own contrast on top of the common ones.
pub proof fn film_channels_have_their_own_curve(p: crate::curve::FilmPrintParams, c: int)
    requires
        0 <= c < 3,
        crate::metrics::is_density(p.base.offset),
        crate::metrics::is_density(p.offset_rgb@[c]),
        crate::metrics::is_density(p.base.gamma),
        crate::metrics::is_density(p.gamma_rgb@[c]),
    ensures
        ({
            let k = p.channel_curve(c);
            let one = crate::near::one();
            let sum = p.base.offset.signed() + p.offset_rgb@[c].signed();
            let product = p.base.gamma.signed() * p.gamma_rgb@[c].signed();
            &&& k.pivot == p.base.pivot
            &&& k.offset.finite()
            &&& -one <= (k.offset.signed() - sum) * 100_000 <= one
            &&& k.gamma.finite()
            &&& 10 * product >= one * one + one * one ==> -(one * one) <= (k.gamma.signed() * one
                - product) * 100_000 <= one * one
            &&& product <= 0 ==> k.gamma == Single::ratio(1, 10)
        }),
{
    let one = crate::near::one();
    let e = crate::near::slip();
    crate::near::lemma_sizes();
    crate::near::lemma_sum(p.base.offset, p.offset_rgb@[c], 16);
    let (a, b) = (p.base.gamma, p.gamma_rgb@[c]);
    crate::near::lemma_bounded(a.signed(), 8 * one, b.signed(), 8 * one);
    assert(8 * one * (8 * one) == 64 * one * one) by (nonlinear_arith);
    crate::near::lemma_product(a, b, 64);
    let x = a.times(b);
    let tenth = Single::ratio(1, 10);
    lemma_tenth();
    crate::near::lemma_smaller_larger(x, tenth);
    let product = a.signed() * b.signed();
    let xv = x.signed();
    assert(64 * e * one * 100_000 <= one * one) by (nonlinear_arith)
        requires
            one == e * 0x80_0000,
            e > 0,
    ;
    if 10 * product >= one * one + one * one {
        assert(xv > tenth.signed()) by (nonlinear_arith)
            requires
                xv * one - product >= -(64 * e * one),
                10 * product >= one * one + one * one,
                64 * e * one * 100_000 <= one * one,
                8 * tenth.signed() <= one,
                one > 0,
        ;
    }
    if product <= 0 {
        assert(xv < tenth.signed()) by (nonlinear_arith)
            requires
                xv * one - product <= 64 * e * one,
                product <= 0,
                64 * e * one * 100_000 <= one * one,
                16 * tenth.signed() >= one,
                one > 0,
        ;
        reveal(Single::larger_spec);
        reveal(Single::at_most_spec);
        crate::single::order_is_by_value(x, tenth);
        crate::single::order_is_by_value(tenth, x);
    }
}

proof fn lemma_tenth()
    ensures
        Single::ratio(1, 10).finite(),
        !Single::ratio(1, 10).negative(),
        8 * Single::ratio(1, 10).signed() <= crate::near::one(),
        crate::near::one() <= 16 * Single::ratio(1, 10).signed(),
{
    vstd::arithmetic::power2::lemma2_to64();
    let c = vstd::arithmetic::power2::pow2(149);
    let lo = Single { bits: 0x3d80_0000 };
    let hi = Single { bits: 0x3e00_0000 };
    assert(lo.exp() == 122 && lo.mant() == 0x80_0000 && !lo.negative());
    assert(hi.exp() == 123 && hi.mant() == 0x80_0000 && !hi.negative());
    vstd::arithmetic::power2::lemma_pow2_adds(23, 122);
    vstd::arithmetic::power2::lemma_pow2_adds(23, 123);
    vstd::arithmetic::power2::lemma_pow2_adds(4, 145);
    vstd::arithmetic::power2::lemma_pow2_adds(3, 146);
    assert(16 * lo.units() == c && 8 * hi.units() == c);
    assert(lo.units() * 10 <= 1 * c <= hi.units() * 10);
    crate::single::lemma_ratio_bounds(1, 10, lo, hi);
    let t = Single::ratio(1, 10);
    crate::single::lemma_units_monotone(lo, t);
    crate::single::lemma_units_monotone(t, hi);
}

/// Bleed moves density from channel to channel: what the three hold together stays, and three
/// equal densities stay equal.
pub proof fn bleed_keeps_the_sum(r: Single, g: Single, b: Single, bleed: Single)
    requires
        crate::metrics::is_density(r),
        crate::metrics::is_density(g),
        crate::metrics::is_density(b),
        bleed.finite(),
        0 <= bleed.signed() <= crate::near::one(),
    ensures
        ({
            let x = crate::curve::bled(r, g, b, bleed);
            let y = crate::curve::bled(g, r, b, bleed);
            let z = crate::curve::bled(b, r, g, bleed);
            let one = crate::near::one();
            let sum = r.signed() + g.signed() + b.signed();
            &&& x.finite() && y.finite() && z.finite()
            &&& -one <= (x.signed() + y.signed() + z.signed() - sum) * 10_000 <= one
            &&& r == g && g == b ==> x == y && y == z
            &&& bleed.signed() == 0 ==> x == r && y == g && z == b
            &&& 2 * bleed.signed() == one ==> -one <= (4 * x.signed() - 2 * r.signed()
                - g.signed() - b.signed()) * 1_000 <= one
        }),
{
    crate::near::lemma_sizes();
    crate::near::lemma_whole(0);
    crate::single::order_is_by_value(bleed, Single::whole(0));
    if bleed.signed() > 0 {
        lemma_bled(r, g, b, bleed);
        lemma_bled(g, r, b, bleed);
        lemma_bled(b, r, g, bleed);
        let one = crate::near::one();
        let e = crate::near::slip();
        let s = bleed.signed();
        let (rv, gv, bv) = (r.signed(), g.signed(), b.signed());
        let x = crate::curve::bled(r, g, b, bleed).signed();
        let y = crate::curve::bled(g, r, b, bleed).signed();
        let z = crate::curve::bled(b, r, g, bleed).signed();
        let off = 2 * (x + y + z - (rv + gv + bv));
        assert(off * one == (2 * x * one - (2 * (one - s) * rv + s * gv + s * bv)) + (2 * y * one
            - (2 * (one - s) * gv + s * rv + s * bv)) + (2 * z * one - (2 * (one - s) * bv + s * rv
            + s * gv))) by (nonlinear_arith)
            requires
                off == 2 * (x + y + z - (rv + gv + bv)),
        ;
        assert(200 * e * one * 3 == (600 * e) * one) by (nonlinear_arith);
        crate::near::lemma_divided(off, 600 * e, one);
        if 2 * s == one {
            let n = 4 * x - 2 * rv - gv - bv;
            assert(n * one == 2 * (2 * x * one - (2 * (one - s) * rv + s * gv + s * bv)))
                by (nonlinear_arith)
                requires
                    n == 4 * x - 2 * rv - gv - bv,
                    2 * s == one,
            ;
            assert(2 * (200 * e * one) == (400 * e) * one) by (nonlinear_arith);
            crate::near::lemma_divided(n, 400 * e, one);
        }
    }
}

proof fn lemma_bled(own: Single, a: Single, b: Single, bleed: Single)
    requires
        crate::metrics::is_density(own),
        crate::metrics::is_density(a),
        crate::metrics::is_density(b),
        bleed.finite(),
        0 < bleed.signed() <= crate::near::one(),
    ensures
        ({
            let x = crate::curve::bled(own, a, b, bleed);
            let one = crate::near::one();
            let s = bleed.signed();
            &&& x.finite()
            &&& -(200 * crate::near::slip() * one) <= 2 * x.signed() * one - (2 * (one - s)
                * own.signed() + s * a.signed() + s * b.signed()) <= 200 * crate::near::slip() * one
        }),
{
    let c = crate::near::one();
    let e = crate::near::slip();
    crate::near::lemma_sizes();
    crate::near::lemma_whole(0);
    crate::near::lemma_whole(1);
    crate::single::order_is_by_value(bleed, Single::whole(0));
    let s = bleed.signed();
    let one = Single::whole(1);
    crate::near::lemma_difference(one, bleed, 1);
    let keep = one.minus(bleed);
    let h = Single::ratio(1, 2);
    lemma_one_half();
    assert(0 <= s * h.signed() <= 1 * c * c) by (nonlinear_arith)
        requires
            0 <= s <= c,
            2 * h.signed() == c,
    ;
    crate::near::lemma_product(bleed, h, 1);
    let half = bleed.times(h);
    let (kv, hv) = (keep.signed(), half.signed());
    assert(-(2 * e) <= 2 * hv - s <= 2 * e) by (nonlinear_arith)
        requires
            -(1 * e * c) <= hv * c - s * h.signed() <= 1 * e * c,
            2 * h.signed() == c,
            c > 0,
    ;
    crate::near::lemma_bounded(own.signed(), 8 * c, kv, 2 * c);
    crate::near::lemma_bounded(a.signed(), 8 * c, hv, c);
    crate::near::lemma_bounded(b.signed(), 8 * c, hv, c);
    assert(8 * c * (2 * c) == 16 * c * c && 8 * c * c == 8 * c * c) by (nonlinear_arith);
    crate::near::lemma_product(own, keep, 16);
    crate::near::lemma_product(a, half, 8);
    crate::near::lemma_product(b, half, 8);
    let (x, y, z) = (own.times(keep), a.times(half), b.times(half));
    let (xv, yv, zv) = (x.signed(), y.signed(), z.signed());
    let (ov, av, bv) = (own.signed(), a.signed(), b.signed());
    // Sizes of the three terms.
    assert(-9 * c <= xv <= 9 * c && -5 * c <= yv <= 5 * c && -5 * c <= zv <= 5 * c) by {
        lemma_term(xv, ov, kv, 16, 9);
        lemma_term(yv, av, hv, 8, 5);
        lemma_term(zv, bv, hv, 8, 5);
    }
    crate::near::lemma_sum(x, y, 14);
    crate::near::lemma_sum(x.plus(y), z, 20);
    let r = x.plus(y).plus(z).signed();
    // Each slip, twice, times one.
    let d0 = r - xv - yv - zv;
    crate::near::lemma_bounded(d0, 34 * e, c, c);
    let d1 = xv * c - ov * kv;
    let d2 = yv * c - av * hv;
    let d3 = zv * c - bv * hv;
    let d4 = kv - (c - s);
    let d5 = 2 * hv - s;
    crate::near::lemma_bounded(d4, e, ov, 8 * c);
    crate::near::lemma_bounded(d5, 2 * e, av, 8 * c);
    crate::near::lemma_bounded(d5, 2 * e, bv, 8 * c);
    let off = 2 * r * c - (2 * (c - s) * ov + s * av + s * bv);
    assert(off == 2 * (d0 * c) + 2 * d1 + 2 * d2 + 2 * d3 + 2 * (d4 * ov) + d5 * av + d5 * bv) by {
        assert(d0 * c == r * c - xv * c - yv * c - zv * c) by (nonlinear_arith)
            requires
                d0 == r - xv - yv - zv,
        ;
        assert(d4 * ov == ov * kv - (c - s) * ov) by (nonlinear_arith)
            requires
                d4 == kv - (c - s),
        ;
        assert(d5 * av == 2 * (av * hv) - s * av) by (nonlinear_arith)
            requires
                d5 == 2 * hv - s,
        ;
        assert(d5 * bv == 2 * (bv * hv) - s * bv) by (nonlinear_arith)
            requires
                d5 == 2 * hv - s,
        ;
        assert(2 * r * c == 2 * (r * c) && 2 * (c - s) * ov == 2 * ((c - s) * ov))
            by (nonlinear_arith);
    }
    assert(34 * e * c == 34 * (e * c) && 16 * e * c == 16 * (e * c) && 8 * e * c == 8 * (e * c) && e
        * (8 * c) == 8 * (e * c) && 2 * e * (8 * c) == 16 * (e * c) && 200 * e * c == 200 * (e * c))
        by (nonlinear_arith);
}

proof fn lemma_term(x: int, a: int, b: int, k: int, most: int)
    requires
        k == 16 && most == 9 || k == 8 && most == 5,
        -(8 * crate::near::one()) <= a <= 8 * crate::near::one(),
        -crate::near::slip() <= b <= crate::near::one() + crate::near::slip(),
        k == 8 ==> 2 * b <= crate::near::one() + 2 * crate::near::slip(),
        -(k * crate::near::slip() * crate::near::one()) <= x * crate::near::one() - a * b <= k
            * crate::near::slip() * crate::near::one(),
    ensures
        -most * crate::near::one() <= x <= most * crate::near::one(),
{
    let c = crate::near::one();
    let e = crate::near::slip();
    crate::near::lemma_sizes();
    if k == 16 {
        crate::near::lemma_bounded(a, 8 * c, b, c + e);
        assert(8 * c * (c + e) + 16 * e * c <= 9 * c * c) by (nonlinear_arith)
            requires
                c == e * 0x80_0000,
                e > 0,
        ;
        crate::near::lemma_divided(x, 9 * c, c);
    } else {
        crate::near::lemma_bounded(a, 8 * c, 2 * b, c + 2 * e);
        assert(a * (2 * b) == 2 * (a * b)) by (nonlinear_arith);
        assert(8 * c * (c + 2 * e) + 2 * (8 * e * c) <= 10 * c * c) by (nonlinear_arith)
            requires
                c == e * 0x80_0000,
                e > 0,
        ;
        assert(5 * c * c * 2 == 10 * c * c) by (nonlinear_arith);
        crate::near::lemma_divided(x, 5 * c, c);
    }
}

proof fn lemma_one_half()
    ensures
        Single::ratio(1, 2).finite(),
        2 * Single::ratio(1, 2).signed() == crate::near::one(),
{
    vstd::arithmetic::power2::lemma2_to64();
    let c = vstd::arithmetic::power2::pow2(149);
    let h = Single { bits: 0x3f00_0000 };
    assert(h.exp() == 125 && h.mant() == 0x80_0000 && !h.negative());
    vstd::arithmetic::power2::lemma_pow2_adds(23, 125);
    vstd::arithmetic::power2::lemma_pow2_unfold(149);
    assert(2 * h.units() == c);
    crate::single::lemma_ratio_bounds(1, 2, h, h);
    let t = Single::ratio(1, 2);
    assert(t.mag() == h.mag());
    crate::single::lemma_units_monotone(t, h);
}

/// The shoulder begins at ninety-three hundredths: darker parts are left as they are. Above it,
/// what is left up to white goes by the power, and white stays white.
pub proof fn shoulders_end_at_white<P: Fn(Single, Single) -> Single>(power: P, y: Single, r: Single)
    requires
        y.finite(),
        0 <= y.signed() <= crate::near::one(),
        crate::paper::shouldered(power, y, r),
        forall|a: Single, q: Single| #[trigger]
            power.ensures((a, Single::ratio(3, 2)), q) ==> q.finite() && 0 <= q.signed()
                <= crate::near::one() && (a.finite() && a.signed() == 0 ==> q.signed() == 0),
    ensures
        ({
            let one = crate::near::one();
            &&& 100 * y.signed() <= 92 * one ==> r == y
            &&& 100 * y.signed() >= 94 * one ==> exists|q: Single|
                power.ensures(
                    (
                        #[trigger] Single::whole(1).minus(crate::paper::into_shoulder(y)),
                        Single::ratio(3, 2),
                    ),
                    q,
                ) && r.finite() && -one <= 5_000 * (100 * r.signed() - (93 * one + 7 * (one
                    - #[trigger] q.signed()))) <= one
            &&& crate::paper::into_shoulder(y).finite()
            &&& -one <= 1_000 * (7 * crate::paper::into_shoulder(y).signed() - (100 * y.signed() - 93
                * one)) <= one
            &&& y.signed() == one ==> r.finite() && -one <= 100_000 * (r.signed() - one) <= one
        }),
{
    let c = crate::near::one();
    let e = crate::near::slip();
    crate::near::lemma_sizes();
    crate::near::lemma_whole(1);
    crate::near::lemma_ratio(93, 100, 1);
    let s = crate::paper::shoulder_start();
    let sv = s.signed();
    crate::single::order_is_by_value(s, y);
    crate::near::lemma_difference(Single::whole(1), s, 1);
    let rest = Single::whole(1).minus(s);
    let rv = rest.signed();
    assert(-(200 * e) <= 100 * rv - 7 * c <= 200 * e);
    crate::near::lemma_difference(y, s, 1);
    let d = y.minus(s);
    let dv = d.signed();
    crate::near::lemma_quotient(d, rest, 16);
    let x = crate::paper::into_shoulder(y);
    let xv = x.signed();
    assert(-(16 * c) <= xv <= 16 * c) by (nonlinear_arith)
        requires
            -(16 * e * rv) <= xv * rv - dv * c <= 16 * e * rv,
            -(c + e) <= dv <= c + e,
            100 * rv >= 7 * c - 200 * e,
            c == e * 0x80_0000,
            e > 0,
    ;
    assert(-(4_000 * e) <= 7 * xv - 100 * dv <= 4_000 * e) by {
        let k = xv * rv - dv * c;
        let m = 100 * rv - 7 * c;
        crate::near::lemma_bounded(xv, 16 * c, m, 200 * e);
        let off = 7 * xv - 100 * dv;
        assert(off * c == 100 * k - xv * m) by (nonlinear_arith)
            requires
                off == 7 * xv - 100 * dv,
                k == xv * rv - dv * c,
                m == 100 * rv - 7 * c,
        ;
        assert(16 * e * rv <= 2 * (e * c)) by (nonlinear_arith)
            requires
                100 * rv <= 7 * c + 200 * e,
                c == e * 0x80_0000,
                e > 0,
        ;
        assert(16 * c * (200 * e) == 3_200 * (e * c) && 4_000 * e * c == 4_000 * (e * c) && e * c
            > 0) by (nonlinear_arith)
            requires
                e > 0,
                c > 0,
        ;
        crate::near::lemma_divided(off, 4_000 * e, c);
    }
    if s.less(y) {
        let a = Single::whole(1).minus(x);
        let q = choose|q: Single|
            #[trigger] power.ensures((a, Single::ratio(3, 2)), q) && r == s.plus(
                Single::whole(1).minus(q).times(rest),
            );
        let qv = q.signed();
        crate::near::lemma_difference(Single::whole(1), q, 1);
        let o = Single::whole(1).minus(q);
        let ov = o.signed();
        crate::near::lemma_bounded(ov, 2 * c, rv, c);
        assert(2 * c * c == 2 * (c * c)) by (nonlinear_arith);
        crate::near::lemma_product(o, rest, 2);
        let p = o.times(rest);
        let pv = p.signed();
        let k = pv * c - ov * rv;
        let m = 100 * rv - 7 * c;
        crate::near::lemma_bounded(ov, 2 * c, m, 200 * e);
        let off = 100 * pv - 7 * ov;
        assert(off * c == 100 * k + ov * m) by (nonlinear_arith)
            requires
                off == 100 * pv - 7 * ov,
                k == pv * c - ov * rv,
                m == 100 * rv - 7 * c,
        ;
        assert(2 * e * c == 2 * (e * c) && 2 * c * (200 * e) == 400 * (e * c) && 600 * e * c == 600 * (
        e * c) && e * c > 0) by (nonlinear_arith)
            requires
                e > 0,
                c > 0,
        ;
        crate::near::lemma_divided(off, 600 * e, c);
        crate::near::lemma_sum(s, p, 2);
        assert(-c <= 5_000 * (100 * r.signed() - (93 * c + 7 * (c - qv))) <= c);
        if y.signed() == c {
            // All of the way: y - s is what is left.
            crate::near::lemma_unique(y, Single::whole(1));
            assert(d == rest);
            assert(rest.mag() > 0) by {
                if rest.mag() == 0 {
                    crate::single::lemma_units_positive(rest);
                }
            }
            crate::single::lemma_over_itself(rest);
            assert(x == Single::whole(1));
            crate::near::lemma_whole(0);
            crate::near::lemma_exact_difference(Single::whole(1), x, Single::whole(0));
            assert(qv == 0);
            crate::near::lemma_exact_difference(Single::whole(1), q, Single::whole(1));
            crate::near::lemma_once(o, rest);
        }
    }
}

/// A logarithm that grows with its argument, and is none for one.
pub open spec fn grows<L: Fn(Single) -> Single>(log10: L) -> bool {
    &&& forall|a: Single, b: Single, x: Single, y: Single| #[trigger]
        log10.ensures((a,), x) && #[trigger] log10.ensures((b,), y) && a.finite() && b.finite()
            && a.signed() <= b.signed() ==> x.finite() && y.finite() && x.signed() <= y.signed()
    &&& forall|x: Single| #[trigger]
        log10.ensures((Single::whole(1),), x) ==> x.finite() && x.signed() == 0
}

/// The more light film lets through, the less dense it is; film that lets all of it through has
/// no density, and none has less than that.
pub proof fn clear_film_is_not_dense<L: Fn(Single) -> Single>(
    log10: L,
    threshold: Single,
    t: Single,
    u: Single,
    d: Single,
    f: Single,
)
    requires
        grows(log10),
        t.finite(),
        u.finite(),
        threshold.finite(),
        0 <= threshold.signed() <= crate::near::one(),
        crate::paper::density_of(log10, t, threshold, d),
        crate::paper::density_of(log10, u, threshold, f),
        t.signed() <= u.signed(),
    ensures
        d.finite(),
        f.finite(),
        f.signed() <= d.signed(),
        u.signed() >= crate::near::one() ==> f.signed() == 0,
{
    crate::near::lemma_sizes();
    crate::near::lemma_whole(1);
    let one = Single::whole(1);
    crate::near::lemma_held(t, threshold, one);
    crate::near::lemma_held(u, threshold, one);
    let a = t.clamp(threshold, one);
    let b = u.clamp(threshold, one);
    let x = choose|q: Single| #[trigger] log10.ensures((a,), q) && d == q.neg();
    let y = choose|q: Single| #[trigger] log10.ensures((b,), q) && f == q.neg();
    assert(x.finite() && y.finite() && x.signed() <= y.signed());
    crate::single::lemma_opposite(x);
    crate::single::lemma_opposite(y);
    if u.signed() >= crate::near::one() {
        crate::near::lemma_unique(b, one);
    }
}

/// Densities below zero print as none, and an offset prints as so much more density.
pub proof fn offsets_print_as_density<P: Fn(Single, Single) -> Single>(
    power: P,
    d: Single,
    params: crate::curve::PrintCurveParams,
    y: Single,
)
    requires
        d.finite(),
    ensures
        d.signed() < 0 ==> (crate::paper::print_of(power, d, params, y) <==> crate::paper::print_of(
            power,
            Single::whole(0),
            params,
            y,
        )),
        d.signed() > 0 && d.plus(params.offset).finite() && d.plus(params.offset).signed() > 0 ==> (
        crate::paper::print_of(power, d, params, y) <==> crate::paper::print_of(
            power,
            d.plus(params.offset),
            (crate::curve::PrintCurveParams { offset: Single::whole(0), ..params }),
            y,
        )),
{
    crate::near::lemma_sizes();
    crate::near::lemma_whole(0);
    let zero = Single::whole(0);
    reveal(Single::larger_spec);
    reveal(Single::at_most_spec);
    crate::single::order_is_by_value(d, zero);
    crate::single::order_is_by_value(zero, d);
    let s = d.plus(params.offset);
    if s.finite() && s.signed() > 0 {
        crate::single::order_is_by_value(s, zero);
        crate::single::order_is_by_value(zero, s);
        crate::single::lemma_zero_is_neutral(s);
    }
}

/// The more a part of the paper is exposed, the brighter it prints, up to a slip.
pub proof fn more_exposure_prints_brighter(eg: Single, fg: Single, pg: Single)
    requires
        eg.finite(),
        fg.finite(),
        pg.finite(),
        0 <= eg.signed() <= fg.signed(),
        0 <= pg.signed(),
        crate::near::one() <= eg.signed() + pg.signed(),
        fg.signed() + pg.signed() <= 0x10_0000 * crate::near::one(),
    ensures
        50_000 * crate::paper::response(eg, pg).signed() <= 50_000 * crate::paper::response(
            fg,
            pg,
        ).signed() + crate::near::one(),
{
    let c = crate::near::one();
    crate::near::lemma_sizes();
    brightness_is_a_share(eg, pg);
    brightness_is_a_share(fg, pg);
    let (x, z, p) = (eg.signed(), fg.signed(), pg.signed());
    let y = crate::paper::response(eg, pg).signed();
    let w = crate::paper::response(fg, pg).signed();
    let (a, b) = (x + p, z + p);
    let (ya, wb) = (y * a - x * c, w * b - z * c);
    let k: int = 100_000;
    // Both shares over a common denominator.
    assert(k * (ya * b) <= a * b * c) by (nonlinear_arith)
        requires
            ya * k <= a * c,
            b > 0,
    ;
    assert(-(a * b * c) <= k * (wb * a)) by (nonlinear_arith)
        requires
            -(b * c) <= wb * k,
            a > 0,
    ;
    assert(ya * b == y * a * b - x * b * c) by (nonlinear_arith)
        requires
            ya == y * a - x * c,
    ;
    assert(wb * a == w * a * b - z * a * c) by (nonlinear_arith)
        requires
            wb == w * b - z * c,
    ;
    assert(x * b <= z * a) by (nonlinear_arith)
        requires
            a == x + p,
            b == z + p,
            0 <= x <= z,
            p >= 0,
    ;
    assert(x * b * c <= z * a * c) by (nonlinear_arith)
        requires
            x * b <= z * a,
            c > 0,
    ;
    let ab = a * b;
    assert(ab > 0 && a * b * c == ab * c && y * a * b == y * ab && w * a * b == w * ab)
        by (nonlinear_arith)
        requires
            ab == a * b,
            a > 0,
            b > 0,
    ;
    assert(k * (y * ab) - k * (w * ab) <= 2 * (ab * c));
    assert(50_000 * y <= 50_000 * w + c) by (nonlinear_arith)
        requires
            100_000 * (y * ab) - 100_000 * (w * ab) <= 2 * (ab * c),
            ab > 0,
    ;
}

/// A brightness is held on 16 bits by the nearest step.
pub proof fn codes_are_the_nearest_steps(y: Single)
    requires
        y.finite(),
        0 <= y.signed() <= crate::near::one(),
    ensures
        -(51 * crate::near::one()) <= 100 * (crate::paper::code(y) * crate::near::one() - 65_535
            * y.signed()) <= 51 * crate::near::one(),
{
    let c = crate::near::one();
    let e = crate::near::slip();
    crate::near::lemma_sizes();
    crate::near::lemma_whole(65_535);
    let w = Single::whole(65_535);
    let yv = y.signed();
    assert(0 <= yv * (65_535 * c) <= 65_535 * c * c) by (nonlinear_arith)
        requires
            0 <= yv <= c,
            c > 0,
    ;
    crate::near::lemma_product(y, w, 65_535);
    crate::near::lemma_product_not_below(y, w);
    let x = y.times(w);
    let xv = x.signed();
    assert(-(65_535 * e) <= xv - 65_535 * yv <= 65_535 * e) by (nonlinear_arith)
        requires
            -(65_535 * e * c) <= xv * c - yv * (65_535 * c) <= 65_535 * e * c,
            c > 0,
    ;
    let q = crate::near::lemma_rounded(x);
    assert(q <= 65_535) by (nonlinear_arith)
        requires
            2 * (q * c - xv) <= c,
            xv <= 65_535 * c + 65_535 * e,
            c == e * 0x80_0000,
            e > 0,
    ;
}

} // verus!
