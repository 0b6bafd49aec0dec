//! What the sliders show of settings that were written with them.

use vstd::prelude::*;
use vstd::arithmetic::power2::*;
use crate::options::PipelineOptions;
use crate::settings::ExposureParams;
use crate::single::Single;

verus! {

/// A fraction of tenths lies between a quarter and the whole of it.
proof fn lemma_tenths(n: u32)
    requires
        2 <= n <= 5,
    ensures
        Single::ratio(n, 10).finite(),
        !Single::ratio(n, 10).negative(),
        pow2(149) <= 8 * Single::ratio(n, 10).units(),
        Single::ratio(n, 10).units() <= pow2(149),
        n >= 3 ==> pow2(149) <= 4 * Single::ratio(n, 10).units(),
{
    reveal(Single::ratio_spec);
    lemma2_to64();
    lemma2_to64_rest();
    lemma_pow2_adds(64, 85);
    lemma_pow2_adds(121, 149);
    lemma_pow2_strictly_increases(64, 121);
    lemma_pow2_pos(85);
    let c = pow2(149);
    assert(c >= 0x1_0000_0000_0000_0000);
    assert(n * c <= 10 * pow2(270)) by (nonlinear_arith)
        requires
            n <= 5,
            pow2(270) == pow2(121) * c,
            pow2(121) >= 1,
    ;
    crate::single::lemma_round_near((n * c) as nat, 10);
    assert(n * c >= 2 * c && n * c <= 5 * c && (n >= 3 ==> n * c >= 3 * c)) by (nonlinear_arith)
        requires
            2 <= n <= 5,
            c > 0,
    ;
}

/// What is kept within tenths of one lies within them.
proof fn lemma_within(v: Single, n: u32)
    requires
        !v.not_a_number(),
        2 <= n <= 5,
    ensures
        crate::settings::within(v, Single::ratio(n, 10)).finite(),
        crate::single::size(crate::settings::within(v, Single::ratio(n, 10)).signed()) <= pow2(149),
{
    let limit = Single::ratio(n, 10);
    lemma_tenths(n);
    crate::single::lemma_opposite(limit);
    crate::single::lemma_clamped(v, limit.neg(), limit);
}

proof fn lemma_large()
    ensures
        pow2(149) >= 0x1_0000_0000_0000_0000,
        4 * pow2(149) <= pow2(270),
        32 * pow2(144) == pow2(149),
{
    lemma2_to64();
    lemma2_to64_rest();
    lemma_pow2_adds(5, 144);
    lemma_pow2_strictly_increases(64, 149);
    lemma_pow2_adds(2, 149);
    lemma_pow2_strictly_increases(151, 270);
}

/// A density that was written reads back, to a millionth.
proof fn lemma_density(d: Single)
    requires
        d.finite(),
        0 <= d.signed() <= 2 * pow2(149),
    ensures
        crate::single::is_near(Single::whole(1).plus(d.minus(Single::whole(1))), d),
{
    lemma_large();
    let one = Single::whole(1);
    crate::single::lemma_whole_exact(1);
    crate::single::lemma_minus_near(d, one);
    crate::single::lemma_plus_near(one, d.minus(one));
}

/// So does a hardness.
proof fn lemma_hardness(h: Single)
    requires
        h.finite(),
        crate::single::size(h.signed()) <= pow2(149),
    ensures
        crate::single::is_near(Single::whole(1).plus(h).minus(Single::whole(1)), h),
{
    lemma_large();
    let one = Single::whole(1);
    crate::single::lemma_whole_exact(1);
    crate::single::lemma_plus_near(one, h);
    crate::single::lemma_minus_near(one.plus(h), one);
}

/// So does a grade.
proof fn lemma_grade(g: Single)
    requires
        g.finite(),
        !g.negative(),
        pow2(149) <= 8 * g.units(),
        g.units() <= 3 * pow2(149),
    ensures
        ({
            let gamma = Single::ratio(25, 10).times(g);
            &&& Single::whole(0).less(gamma)
            &&& crate::single::is_near(gamma.over(Single::ratio(25, 10)), g)
        }),
{
    lemma_large();
    let q = Single::ratio(25, 10);
    let one = Single::whole(1);
    let three = Single::whole(3);
    crate::single::lemma_whole_exact(1);
    crate::single::lemma_whole_exact(3);
    crate::single::lemma_ratio_bounds(25, 10, one, three);
    crate::single::lemma_units_monotone(one, q);
    crate::single::lemma_units_monotone(q, three);
    crate::single::lemma_scaled_back(g, q);
    crate::single::lemma_zero();
    crate::single::order_is_by_value(Single::whole(0), q.times(g));
}

/// The exposure that settings amount to is what was last written to them, with each part kept
/// in its range: shadows and highlights as they were, the rest to a millionth.
pub proof fn exposure_reads_back(opts: PipelineOptions, exp: ExposureParams)
    requires
        !exp.density.not_a_number(),
        !exp.grade.not_a_number(),
        !exp.hardness.not_a_number(),
    ensures
        ({
            let r = crate::settings::exposure_of(crate::settings::exposed(opts, exp));
            &&& crate::single::is_near(
                r.density,
                exp.density.clamp(Single::whole(0), Single::whole(2)),
            )
            &&& crate::single::is_near(
                r.grade,
                exp.grade.clamp(Single::ratio(2, 10), Single::whole(3)),
            )
            &&& r.shadows == crate::settings::within(exp.shadows, Single::ratio(3, 10))
            &&& r.highlights == crate::settings::within(exp.highlights, Single::ratio(5, 10))
            &&& crate::single::is_near(r.hardness, crate::settings::within(exp.hardness, Single::ratio(5, 10)))
        }),
{
    let two = Single::whole(2);
    let three = Single::whole(3);
    let least = Single::ratio(2, 10);
    crate::single::lemma_zero();
    crate::single::lemma_whole_exact(2);
    crate::single::lemma_whole_exact(3);
    crate::single::lemma_clamped(exp.density, Single::whole(0), two);
    lemma_density(exp.density.clamp(Single::whole(0), two));
    lemma_tenths(2);
    crate::single::lemma_clamped(exp.grade, least, three);
    let grade = exp.grade.clamp(least, three);
    lemma_large();
    lemma_grade(grade);
    lemma_within(exp.hardness, 5);
    lemma_hardness(crate::settings::within(exp.hardness, Single::ratio(5, 10)));
}

/// A part of the print balance that was written reads back, kept between minus one and one, to
/// a millionth.
pub proof fn balance_reads_back(v: Single)
    requires
        !v.not_a_number(),
    ensures
        crate::single::is_near(
            crate::settings::balance_offset(v).neg().over(Single::ratio(3, 10)),
            crate::settings::within(v, Single::whole(1)),
        ),
{
    lemma_large();
    lemma_tenths(3);
    let one = Single::whole(1);
    let q = Single::ratio(3, 10);
    crate::single::lemma_whole_exact(1);
    crate::single::lemma_opposite(one);
    crate::single::lemma_clamped(v, one.neg(), one);
    let kept = crate::settings::within(v, one);
    crate::single::lemma_opposite(kept);
    crate::single::lemma_scaled_back(kept.neg(), q);
    crate::single::lemma_scaled_back(kept, q);
    let p = kept.neg().times(q);
    crate::single::lemma_opposite(p);
    assert(p.neg() == kept.times(q)) by {
        reveal(Single::neg_spec);
        reveal(Single::times_spec);
    }
}

} // verus!
