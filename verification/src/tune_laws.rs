//! What the search for a grade keeps to.

use vstd::prelude::*;
use crate::auto::{AutoKnobs, AutoPhase};
use crate::single::Single;

verus! {

/// Each phase of the search turns one knob, and leaves the others as they are.
pub proof fn phases_turn_one_knob(k: AutoKnobs, x: Single)
    ensures
        ({
            let t = k.tried(AutoPhase::Gamma, x);
            &&& t.film_gamma == x
            &&& t.curve_offset == k.curve_offset && t.curve_gamma == k.curve_gamma && t.toe_strength
                == k.toe_strength && t.lut_in_mid == k.lut_in_mid && t.saturation == k.saturation
        }),
        ({
            let t = k.tried(AutoPhase::Density, x);
            &&& t == k.tried(AutoPhase::DensityAgain, x)
            &&& t.curve_offset == x
            &&& t.film_gamma == k.film_gamma && t.curve_gamma == k.curve_gamma && t.toe_strength
                == k.toe_strength && t.lut_in_mid == k.lut_in_mid && t.saturation == k.saturation
        }),
        ({
            let t = k.tried(AutoPhase::Grade, x);
            &&& t.film_gamma == k.film_gamma && t.curve_offset == k.curve_offset && t.toe_strength
                == k.toe_strength && t.lut_in_mid == k.lut_in_mid && t.saturation == k.saturation
        }),
        ({
            let t = k.tried(AutoPhase::Exposure, x);
            &&& t == k.tried(AutoPhase::Shadows, x)
            &&& t.toe_strength == x
            &&& t.film_gamma == k.film_gamma && t.curve_offset == k.curve_offset && t.curve_gamma
                == k.curve_gamma && t.lut_in_mid == k.lut_in_mid && t.saturation == k.saturation
        }),
        ({
            let t = k.tried(AutoPhase::Midtones, x);
            &&& t.lut_in_mid == x
            &&& t.film_gamma == k.film_gamma && t.curve_offset == k.curve_offset && t.curve_gamma
                == k.curve_gamma && t.toe_strength == k.toe_strength && t.saturation == k.saturation
        }),
{
}

/// `v` lies within a hundred-thousandth of `lo` to `hi`, in thousandths.
pub open spec fn lies_within(v: Single, lo: int, hi: int) -> bool {
    let one = crate::near::one();
    v.finite() && lo * one - one <= 1_000 * v.signed() <= hi * one + one
}

/// Whatever the search found best, each knob is settled within its range.
pub proof fn settled_knobs_lie_in_their_range(k: AutoKnobs, best: Single)
    requires
        best.finite(),
    ensures
        lies_within(k.settled(AutoPhase::Gamma, best).film_gamma, 550, 750),
        lies_within(k.settled(AutoPhase::Density, best).curve_offset, -120, 120),
        lies_within(k.settled(AutoPhase::DensityAgain, best).curve_offset, -120, 120),
        lies_within(k.settled(AutoPhase::Grade, best).curve_gamma, 2_000, 3_125),
        lies_within(k.settled(AutoPhase::Exposure, best).toe_strength, -500, 500),
        lies_within(k.settled(AutoPhase::Shadows, best).toe_strength, -500, 500),
        lies_within(k.settled(AutoPhase::Midtones, best).lut_in_mid, 1_000, 1_350),
{
    crate::near::lemma_sizes();
    crate::near::lemma_whole(1);
    crate::near::lemma_whole(2);
    crate::near::lemma_ratio(55, 100, 1);
    crate::near::lemma_ratio(75, 100, 1);
    crate::near::lemma_ratio(12, 100, 1);
    crate::near::lemma_ratio(80, 100, 1);
    crate::near::lemma_ratio(125, 100, 2);
    crate::near::lemma_ratio(50, 100, 1);
    crate::near::lemma_ratio(135, 100, 2);
    crate::near::lemma_ratio(25, 10, 3);
    crate::near::lemma_ratio(3125, 1000, 4);
    crate::single::lemma_opposite(Single::ratio(12, 100));
    crate::single::lemma_opposite(Single::ratio(50, 100));
    crate::near::lemma_held(best, Single::ratio(55, 100), Single::ratio(75, 100));
    crate::near::lemma_held(best, Single::ratio(12, 100).neg(), Single::ratio(12, 100));
    crate::near::lemma_held(best, Single::ratio(50, 100).neg(), Single::ratio(50, 100));
    crate::near::lemma_held(best, Single::whole(1), Single::ratio(135, 100));
    crate::near::lemma_held(best, Single::ratio(80, 100), Single::ratio(125, 100));
    let x = best.clamp(Single::ratio(80, 100), Single::ratio(125, 100));
    let f = Single::ratio(25, 10);
    let c = crate::near::one();
    assert(0 <= f.signed() * x.signed() <= 6 * c * c) by (nonlinear_arith)
        requires
            0 <= f.signed() <= 3 * c,
            0 <= x.signed() <= 2 * c,
    ;
    crate::near::lemma_product(f, x, 6);
    crate::near::lemma_held(f.times(x), Single::whole(2), Single::ratio(3125, 1000));
}

/// The paper grade is tried as a multiple of the grade that the search starts from.
pub proof fn grades_are_multiples(k: AutoKnobs, x: Single)
    requires
        x.finite(),
        0 <= x.signed() <= 2 * crate::near::one(),
    ensures
        ({
            let g = k.tried(AutoPhase::Grade, x).curve_gamma;
            &&& g.finite()
            &&& -crate::near::one() <= 1_000 * (10 * g.signed() - 25 * x.signed())
                <= crate::near::one()
        }),
{
    let c = crate::near::one();
    let e = crate::near::slip();
    crate::near::lemma_sizes();
    crate::near::lemma_ratio(25, 10, 3);
    let f = Single::ratio(25, 10);
    let (fv, xv) = (f.signed(), x.signed());
    assert(0 <= fv * xv <= 6 * c * c) by (nonlinear_arith)
        requires
            0 <= fv <= 3 * c,
            0 <= xv <= 2 * c,
    ;
    crate::near::lemma_product(f, x, 6);
    let g = f.times(x).signed();
    let p = g * c - fv * xv;
    let q = fv * 10 - 25 * c;
    crate::near::lemma_bounded(q, 30 * e, xv, 2 * c);
    let off = 10 * g - 25 * xv;
    assert(off * c == 10 * p + q * xv) by (nonlinear_arith)
        requires
            p == g * c - fv * xv,
            q == fv * 10 - 25 * c,
            off == 10 * g - 25 * xv,
    ;
    assert(6 * e * c == 6 * (e * c) && 30 * e * (2 * c) == 60 * (e * c) && 200 * e * c == 200 * (e
        * c) && e * c > 0) by (nonlinear_arith)
        requires
            e > 0,
            c > 0,
    ;
    crate::near::lemma_divided(off, 200 * e, c);
}

/// A phase is over where the next one begins: what is shown of the progress never goes back.
pub proof fn progress_goes_on(phase: AutoPhase)
    requires
        phase.searches(),
    ensures
        ({
            let (base, span) = crate::auto::AutoTuner::share(phase);
            let next = crate::auto::AutoTuner::share(phase.next()).0;
            let one = crate::near::one();
            &&& base.finite() && span.finite() && next.finite()
            &&& 0 < span.signed()
            &&& 1_000 * (base.signed() + span.signed()) <= 1_000 * next.signed() + one
        }),
{
    crate::near::lemma_sizes();
    crate::near::lemma_ratio(8, 100, 1);
    crate::near::lemma_ratio(14, 100, 1);
    crate::near::lemma_ratio(22, 100, 1);
    crate::near::lemma_ratio(12, 100, 1);
    crate::near::lemma_ratio(34, 100, 1);
    crate::near::lemma_ratio(46, 100, 1);
    crate::near::lemma_ratio(10, 100, 1);
    crate::near::lemma_ratio(56, 100, 1);
    crate::near::lemma_ratio(66, 100, 1);
    crate::near::lemma_ratio(76, 100, 1);
    crate::near::lemma_ratio(88, 100, 1);
}

/// A setting that is not huge.
pub open spec fn is_setting(v: Single) -> bool {
    v.finite() && -(8 * crate::near::one()) <= v.signed() <= 8 * crate::near::one()
}

/// `v` lies `i` of `n` parts of the way from `a` to `b`, to a ten-thousandth.
pub open spec fn lies_on_the_way(v: Single, a: int, b: int, i: int, n: int) -> bool {
    let one = crate::near::one();
    v.finite() && -(n * one) <= 10_000 * (v.signed() * n - (a * n + (b - a) * i)) <= n * one
}

proof fn lemma_on_the_way(a: Single, b: Single, i: u64, n: u64)
    requires
        a.finite() && -(20 * crate::near::one()) <= a.signed() <= 20 * crate::near::one(),
        b.finite() && -(20 * crate::near::one()) <= b.signed() <= 20 * crate::near::one(),
        i <= n,
        0 < n < 0x1_0000,
    ensures
        lies_on_the_way(
            crate::search::between(a, b, Single::whole(i).over(Single::whole(n))),
            a.signed(),
            b.signed(),
            i as int,
            n as int,
        ),
{
    let c = crate::near::one();
    let e = crate::near::slip();
    crate::near::lemma_sizes();
    crate::near::lemma_whole(i);
    crate::near::lemma_whole(n);
    assert(0 <= i * c <= 1 * (n * c) && n * c > 0) by (nonlinear_arith)
        requires
            0 <= i <= n,
            n > 0,
            c > 0,
    ;
    crate::near::lemma_quotient(Single::whole(i), Single::whole(n), 1);
    let t = Single::whole(i).over(Single::whole(n));
    let tv = t.signed();
    let f1 = tv * n - i * c;
    assert(-(e * n) <= f1 <= e * n) by (nonlinear_arith)
        requires
            f1 == tv * n - i * c,
            -(1 * e * (n * c)) <= tv * (n * c) - i * c * c <= 1 * e * (n * c),
            c > 0,
    ;
    assert(-(2 * c) <= tv <= 2 * c) by (nonlinear_arith)
        requires
            -(e * n) <= tv * n - i * c <= e * n,
            0 <= i <= n,
            n > 0,
            c == e * 0x80_0000,
            e > 0,
    ;
    crate::near::lemma_difference(b, a, 40);
    let d = b.minus(a);
    let dv = d.signed();
    crate::near::lemma_bounded(dv, 41 * c, tv, 2 * c);
    assert(41 * c * (2 * c) == 82 * c * c) by (nonlinear_arith);
    crate::near::lemma_product(d, t, 82);
    let p = d.times(t);
    let pv = p.signed();
    let f2 = pv * c - dv * tv;
    assert(-(83 * c) <= pv <= 83 * c) by (nonlinear_arith)
        requires
            f2 == pv * c - dv * tv,
            -(82 * e * c) <= f2 <= 82 * e * c,
            -(82 * c * c) <= dv * tv <= 82 * c * c,
            c == e * 0x80_0000,
            e > 0,
    ;
    crate::near::lemma_sum(a, p, 103);
    let r = a.plus(p).signed();
    let (av, bv) = (a.signed(), b.signed());
    let f3 = r - av - pv;
    let f4 = dv - (bv - av);
    let off = r * n - (av * n + (bv - av) * i);
    // off·one = f3·n·one + f2·n + dv·f1 + f4·i·one.
    assert(off * c == f3 * n * c + f2 * n + dv * f1 + f4 * i * c) by {
        assert(f3 * n * c == r * n * c - av * n * c - pv * n * c) by (nonlinear_arith)
            requires
                f3 == r - av - pv,
        ;
        assert(f2 * n == pv * n * c - dv * tv * n) by (nonlinear_arith)
            requires
                f2 == pv * c - dv * tv,
        ;
        assert(dv * f1 == dv * tv * n - dv * i * c) by (nonlinear_arith)
            requires
                f1 == tv * n - i * c,
        ;
        assert(f4 * i * c == dv * i * c - (bv - av) * i * c) by (nonlinear_arith)
            requires
                f4 == dv - (bv - av),
        ;
        assert(off * c == r * n * c - av * n * c - (bv - av) * i * c) by (nonlinear_arith)
            requires
                off == r * n - (av * n + (bv - av) * i),
        ;
    }
    let nec = n * e * c;
    assert(-(103 * nec) <= f3 * n * c <= 103 * nec) by (nonlinear_arith)
        requires
            -(103 * e) <= f3 <= 103 * e,
            nec == n * e * c,
            n > 0,
            c > 0,
    ;
    assert(-(82 * nec) <= f2 * n <= 82 * nec) by (nonlinear_arith)
        requires
            -(82 * e * c) <= f2 <= 82 * e * c,
            nec == n * e * c,
            n > 0,
    ;
    crate::near::lemma_bounded(dv, 41 * c, f1, e * n);
    assert(41 * c * (e * n) == 41 * nec) by (nonlinear_arith)
        requires
            nec == n * e * c,
    ;
    assert(-(40 * nec) <= f4 * i * c <= 40 * nec) by (nonlinear_arith)
        requires
            -(40 * e) <= f4 <= 40 * e,
            nec == n * e * c,
            0 <= i <= n,
            c > 0,
            e > 0,
    ;
    assert(-(n * c) <= 10_000 * off <= n * c) by (nonlinear_arith)
        requires
            -(300 * nec) <= off * c <= 300 * nec,
            nec == n * e * c,
            c == e * 0x80_0000,
            e > 0,
            n > 0,
    ;
}

/// The first row of probes lies evenly from one end of the range to the other. The second lies
/// evenly around the best of the first, as far to either side as the probes of the first row are
/// apart, and not beyond the range.
pub proof fn probes_lie_evenly(s: crate::search::Search)
    requires
        is_setting(s.lo),
        is_setting(s.hi),
        is_setting(s.middle),
        s.lo.signed() <= s.hi.signed(),
        2 <= s.coarse < 0x1_0000,
        2 <= s.refine < 0x1_0000,
        s.done < s.coarse + s.refine,
    ensures
        s.done < s.coarse ==> lies_on_the_way(
            s.probe(),
            s.lo.signed(),
            s.hi.signed(),
            s.done as int,
            s.coarse - 1,
        ),
        s.done >= s.coarse ==> ({
            let r = s.reach();
            let one = crate::near::one();
            let (low, high) = (
                s.middle.minus(r).larger(s.lo),
                s.middle.plus(r).smaller(s.hi),
            );
            &&& r.finite()
            &&& -(s.coarse * one) <= 10_000 * (r.signed() * s.coarse - (s.hi.signed()
                - s.lo.signed())) <= s.coarse * one
            &&& low.finite() && s.lo.signed() <= low.signed()
            &&& high.finite() && high.signed() <= s.hi.signed()
            &&& -one <= 10_000 * (s.middle.signed() - r.signed() - low.signed()) || low.signed()
                == s.lo.signed()
            &&& 10_000 * (s.middle.signed() - r.signed() - low.signed()) <= one
            &&& 10_000 * (s.middle.signed() + r.signed() - high.signed()) <= one || high.signed()
                == s.hi.signed()
            &&& -one <= 10_000 * (s.middle.signed() + r.signed() - high.signed())
            &&& lies_on_the_way(
                s.probe(),
                low.signed(),
                high.signed(),
                s.done - s.coarse,
                s.refine - 1,
            )
        }),
{
    let c = crate::near::one();
    let e = crate::near::slip();
    crate::near::lemma_sizes();
    if s.done < s.coarse {
        lemma_on_the_way(s.lo, s.hi, s.done as u64, (s.coarse - 1) as u64);
    } else {
        let k = s.coarse as int;
        crate::near::lemma_whole(1);
        crate::near::lemma_whole(s.coarse as u64);
        let w = Single::whole(s.coarse as u64);
        crate::near::lemma_smaller_larger(w, Single::whole(1));
        assert(k * c >= 2 * c) by (nonlinear_arith)
            requires
                k >= 2,
                c > 0,
        ;
        crate::near::lemma_unique(w.larger(Single::whole(1)), w);
        crate::near::lemma_difference(s.hi, s.lo, 16);
        let d = s.hi.minus(s.lo);
        let dv = d.signed();
        crate::near::lemma_quotient(d, w, 9);
        let r = s.reach();
        let rv = r.signed();
        let f = rv * k - dv;
        assert(-(9 * e * k) <= f <= 9 * e * k) by (nonlinear_arith)
            requires
                f == rv * k - dv,
                -(9 * e * (k * c)) <= rv * (k * c) - dv * c <= 9 * e * (k * c),
                c > 0,
        ;
        assert(9 * e * k + 16 * e <= 25 * (e * k) && 250_000 * (e * k) <= k * c) by (nonlinear_arith)
            requires
                k >= 2,
                c == e * 0x80_0000,
                e > 0,
        ;
        assert(-(10 * c) <= rv <= 10 * c) by (nonlinear_arith)
            requires
                f == rv * k - dv,
                -(9 * e * k) <= f <= 9 * e * k,
                -(17 * c) <= dv <= 17 * c,
                k >= 2,
                c == e * 0x80_0000,
                e > 0,
        ;
        crate::near::lemma_difference(s.middle, r, 18);
        crate::near::lemma_sum(s.middle, r, 18);
        crate::near::lemma_smaller_larger(s.middle.minus(r), s.lo);
        crate::near::lemma_smaller_larger(s.middle.plus(r), s.hi);
        let low = s.middle.minus(r).larger(s.lo);
        let high = s.middle.plus(r).smaller(s.hi);
        lemma_on_the_way(low, high, (s.done - s.coarse) as u64, (s.refine - 1) as u64);
    }
}

} // verus!
