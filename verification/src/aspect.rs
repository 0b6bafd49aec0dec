//! Fitting found bounds to the still formats.

use vstd::prelude::*;
use vstd::arithmetic::mul::*;
use vstd::arithmetic::power2::*;
use crate::options::Rect;
use crate::single::Single;

verus! {

/// Bounds of a frame: columns `left..right` of rows `top..bottom`.
#[derive(Debug, Clone, Copy, PartialEq, Eq, Structural)]
pub struct Bounds {
    pub left: usize,
    pub right: usize,
    pub top: usize,
    pub bottom: usize,
}

impl Bounds {
    /// There is nothing between the edges.
    pub open spec fn is_empty_spec(self) -> bool {
        self.right <= self.left || self.bottom <= self.top
    }

    #[verifier::when_used_as_spec(is_empty_spec)]
    pub fn is_empty(self) -> (r: bool)
        ensures
            r == self.is_empty_spec(),
    {
        self.right <= self.left || self.bottom <= self.top
    }

    /// The edges lie in a frame of this size, in order.
    pub open spec fn within(self, w: int, h: int) -> bool {
        self.left <= self.right <= w && self.top <= self.bottom <= h
    }
}

/// Still format guessed from the aspect of the crop.
#[derive(Debug, Clone, Copy, PartialEq, Eq, Structural)]
pub enum FilmFormat {
    Still35,
    Square,
    SixBySeven,
    FourByThree,
    FourByFive,
}

/// The aspects that are known, in the order in which they are tried.
pub open spec fn candidate(i: int) -> (Single, FilmFormat) {
    if i == 0 {
        (Single::ratio(3, 2), FilmFormat::Still35)
    } else if i == 1 {
        (Single::ratio(2, 3), FilmFormat::Still35)
    } else if i == 2 {
        (Single::whole(1), FilmFormat::Square)
    } else if i == 3 {
        (Single::ratio(6, 7), FilmFormat::SixBySeven)
    } else if i == 4 {
        (Single::ratio(7, 6), FilmFormat::SixBySeven)
    } else if i == 5 {
        (Single::ratio(4, 3), FilmFormat::FourByThree)
    } else if i == 6 {
        (Single::ratio(3, 4), FilmFormat::FourByThree)
    } else if i == 7 {
        (Single::ratio(5, 4), FilmFormat::FourByFive)
    } else {
        (Single::ratio(4, 5), FilmFormat::FourByFive)
    }
}

fn candidate_at(i: usize) -> (r: (Single, FilmFormat))
    ensures
        r == candidate(i as int),
{
    if i == 0 {
        (Single::ratio(3, 2), FilmFormat::Still35)
    } else if i == 1 {
        (Single::ratio(2, 3), FilmFormat::Still35)
    } else if i == 2 {
        (Single::whole(1), FilmFormat::Square)
    } else if i == 3 {
        (Single::ratio(6, 7), FilmFormat::SixBySeven)
    } else if i == 4 {
        (Single::ratio(7, 6), FilmFormat::SixBySeven)
    } else if i == 5 {
        (Single::ratio(4, 3), FilmFormat::FourByThree)
    } else if i == 6 {
        (Single::ratio(3, 4), FilmFormat::FourByThree)
    } else if i == 7 {
        (Single::ratio(5, 4), FilmFormat::FourByFive)
    } else {
        (Single::ratio(4, 5), FilmFormat::FourByFive)
    }
}

/// Relative distance of an aspect from a known one.
pub open spec fn aspect_error_spec(ratio: Single, target: Single) -> Single {
    ratio.minus(target).abs().over(target)
}

#[verifier::when_used_as_spec(aspect_error_spec)]
pub fn aspect_error(ratio: Single, target: Single) -> (r: Single)
    ensures
        r == aspect_error_spec(ratio, target),
{
    ratio.minus(target).abs().over(target)
}

/// The closest of the first `n` known aspects, among those within 4.5 percent; the earlier one
/// of two that are as close.
pub open spec fn closest(ratio: Single, n: int) -> Option<(Single, FilmFormat)>
    decreases n,
{
    if n <= 0 {
        None
    } else {
        let best = closest(ratio, n - 1);
        let err = aspect_error(ratio, candidate(n - 1).0);
        if err.less(Single::ratio(45, 1000)) && (best matches Some(b) ==> err.less(b.0)) {
            Some((err, candidate(n - 1).1))
        } else {
            best
        }
    }
}

/// The closest of the aspects of one format, by plain distance.
pub open spec fn format_aspect(ratio: Single, fmt: FilmFormat, n: int) -> Option<Single>
    decreases n,
{
    if n <= 0 {
        None
    } else {
        let best = format_aspect(ratio, fmt, n - 1);
        let (a, f) = candidate(n - 1);
        if f == fmt && (best matches Some(b) ==> ratio.minus(a).abs().less(ratio.minus(b).abs())) {
            Some(a)
        } else {
            best
        }
    }
}

pub open spec fn at_least_one(n: int) -> u64 {
    if n < 1 {
        1
    } else {
        n as u64
    }
}

pub open spec fn sat_sum(a: int, b: int) -> usize {
    if a + b <= usize::MAX {
        (a + b) as usize
    } else {
        usize::MAX
    }
}

/// Both edges moved inwards by half of what exceeds the target, with a line left between them.
pub open spec fn shrunk(from: usize, to: usize, len: Single, target: Single) -> (usize, usize) {
    let shrink = len.minus(target).times(Single::ratio(5, 10)).rounded().to_int(
        usize::MAX as u64,
    ) as usize;
    let a = sat_sum(from as int, shrink as int);
    let b = (if to > shrink { to - shrink } else { 0 }) as usize;
    (a, if b < sat_sum(a as int, 1) { sat_sum(a as int, 1) } else { b })
}

/// The bounds cut to the closest still format. Only the side that overshoots is shrunk; within
/// 1.2 percent nothing is.
pub open spec fn snap_spec(b: Bounds) -> (Bounds, Option<FilmFormat>) {
    let ratio = Single::whole(at_least_one(b.right - b.left)).over(
        Single::whole(at_least_one(b.bottom - b.top)),
    );
    match closest(ratio, 9) {
        None => (b, None),
        Some((err, fmt)) => if err.less(Single::ratio(12, 1000)) {
            (b, Some(fmt))
        } else {
            let target = match format_aspect(ratio, fmt, 9) {
                Some(a) => a,
                None => ratio,
            };
            let cur_w = Single::whole((b.right - b.left) as u64);
            let cur_h = Single::whole((b.bottom - b.top) as u64);
            let target_w = cur_h.times(target);
            let target_h = cur_w.over(target);
            if target_w.less(cur_w) {
                let (l, r) = shrunk(b.left, b.right, cur_w, target_w);
                (Bounds { left: l, right: r, ..b }, Some(fmt))
            } else if target_h.less(cur_h) {
                let (t, o) = shrunk(b.top, b.bottom, cur_h, target_h);
                (Bounds { top: t, bottom: o, ..b }, Some(fmt))
            } else {
                (b, Some(fmt))
            }
        },
    }
}

fn saturating_sum(a: usize, b: usize) -> (r: usize)
    ensures
        r == sat_sum(a as int, b as int),
{
    if a <= usize::MAX - b {
        a + b
    } else {
        usize::MAX
    }
}

fn shrink_edges(from: usize, to: usize, len: Single, target: Single) -> (r: (usize, usize))
    ensures
        r == shrunk(from, to, len, target),
{
    let shrink: usize = len.minus(target).times(Single::ratio(5, 10)).rounded().to_int(
        usize::MAX as u64,
    ) as usize;
    let a: usize = saturating_sum(from, shrink);
    let b: usize = if to > shrink {
        to - shrink
    } else {
        0
    };
    let least: usize = saturating_sum(a, 1);
    (a, if b < least {
        least
    } else {
        b
    })
}

/// Cuts the bounds to the closest still format.
pub fn snap_aspect(b: Bounds) -> (r: (Bounds, Option<FilmFormat>))
    requires
        b.left <= b.right,
        b.top <= b.bottom,
    ensures
        r == snap_spec(b),
{
    let rw: usize = b.right - b.left;
    let rh: usize = b.bottom - b.top;
    let ratio = Single::whole(if rw < 1 { 1 } else { rw as u64 }).over(
        Single::whole(if rh < 1 { 1 } else { rh as u64 }),
    );
    let mut best: Option<(Single, FilmFormat)> = None;
    let mut i: usize = 0;
    let close = Single::ratio(45, 1000);
    while i < 9
        invariant
            i <= 9,
            close == Single::ratio(45, 1000),
            best == closest(ratio, i as int),
        decreases 9 - i,
    {
        let (target, fmt) = candidate_at(i);
        let err = aspect_error(ratio, target);
        let better = match best {
            Some((e, _)) => err.less(e),
            None => true,
        };
        if err.less(close) && better {
            best = Some((err, fmt));
        }
        i = i + 1;
    }
    let (err, fmt) = match best {
        Some(found) => found,
        None => {
            return (b, None);
        },
    };
    if err.less(Single::ratio(12, 1000)) {
        return (b, Some(fmt));
    }
    let mut aspect: Option<Single> = None;
    let mut j: usize = 0;
    while j < 9
        invariant
            j <= 9,
            aspect == format_aspect(ratio, fmt, j as int),
        decreases 9 - j,
    {
        let (a, f) = candidate_at(j);
        let better = match aspect {
            Some(c) => ratio.minus(a).abs().less(ratio.minus(c).abs()),
            None => true,
        };
        if f == fmt && better {
            aspect = Some(a);
        }
        j = j + 1;
    }
    let target = match aspect {
        Some(a) => a,
        None => ratio,
    };
    let cur_w = Single::whole(rw as u64);
    let cur_h = Single::whole(rh as u64);
    let target_w = cur_h.times(target);
    let target_h = cur_w.over(target);
    if target_w.less(cur_w) {
        let (left, right) = shrink_edges(b.left, b.right, cur_w, target_w);
        (Bounds { left, right, top: b.top, bottom: b.bottom }, Some(fmt))
    } else if target_h.less(cur_h) {
        let (top, bottom) = shrink_edges(b.top, b.bottom, cur_h, target_h);
        (Bounds { left: b.left, right: b.right, top, bottom }, Some(fmt))
    } else {
        (b, Some(fmt))
    }
}

pub open spec fn min2(a: int, b: int) -> int {
    if a <= b {
        a
    } else {
        b
    }
}

pub open spec fn max2(a: int, b: int) -> int {
    if a >= b {
        a
    } else {
        b
    }
}

/// How far the edges are drawn in: 0.6 percent of the shorter side, at most a third of the
/// narrowest margin and 6 lines.
pub open spec fn inset_by(b: Bounds, w: int, h: int) -> int {
    let side = min2(b.right - b.left, b.bottom - b.top);
    let margin = min2(min2(min2(b.left as int, w - b.right), b.top as int), h - b.bottom);
    let want = Single::whole(side as u64).times(Single::ratio(6, 1000)).rounded().to_int(
        usize::MAX as u64,
    );
    min2(min2(want as int, margin / 3), 6)
}

/// The bounds drawn in a little, where they lie in the frame.
pub open spec fn inset_spec(b: Bounds, w: int, h: int) -> Bounds {
    if b.is_empty() || b.right > w || b.bottom > h {
        b
    } else {
        let d = inset_by(b, w, h);
        if d == 0 {
            b
        } else {
            Bounds {
                left: (b.left + d) as usize,
                right: max2(b.right - d, b.left + d + 1) as usize,
                top: (b.top + d) as usize,
                bottom: max2(b.bottom - d, b.top + d + 1) as usize,
            }
        }
    }
}

fn min_of(a: usize, b: usize) -> (r: usize)
    ensures
        r == min2(a as int, b as int),
{
    if a <= b {
        a
    } else {
        b
    }
}

/// Draws the bounds in.
pub fn inset_bounds(b: Bounds, w: usize, h: usize) -> (r: Bounds)
    ensures
        r == inset_spec(b, w as int, h as int),
{
    if b.is_empty() || b.right > w || b.bottom > h {
        return b;
    }
    let side: usize = min_of(b.right - b.left, b.bottom - b.top);
    let margin: usize = min_of(min_of(min_of(b.left, w - b.right), b.top), h - b.bottom);
    let want: u64 = Single::whole(side as u64).times(Single::ratio(6, 1000)).rounded().to_int(
        usize::MAX as u64,
    );
    proof {
        crate::single::lemma_to_int_bound(
            Single::whole(side as u64).times(Single::ratio(6, 1000)).rounded(),
            usize::MAX as u64,
        );
    }
    let d: usize = min_of(min_of(want as usize, margin / 3), 6);
    if d == 0 {
        return b;
    }
    let left: usize = b.left + d;
    let top: usize = b.top + d;
    let right: usize = if b.right - d < left + 1 {
        left + 1
    } else {
        b.right - d
    };
    let bottom: usize = if b.bottom - d < top + 1 {
        top + 1
    } else {
        b.bottom - d
    };
    Bounds { left, right, top, bottom }
}

/// Units of the numbers between which known aspects and their errors are placed.
proof fn lemma_marks()
    ensures
        pow2(149) == 32 * pow2(144),
        pow2(144) >= 0x1_0000_0000_0000_0000,
        pow2(149) * 0x1_0000_0000_0000_0000 < pow2(270),
        (Single { bits: 0x3f20_0000 }).units() == 20 * pow2(144),
        (Single { bits: 0x3fc0_0000 }).units() == 48 * pow2(144),
        (Single { bits: 0x3e00_0000 }).units() == 4 * pow2(144),
        (Single { bits: 0x3d80_0000 }).units() == 2 * pow2(144),
        (Single { bits: 0x3f00_0000 }).units() == 16 * pow2(144),
{
    lemma2_to64();
    lemma2_to64_rest();
    lemma_pow2_adds(5, 144);
    lemma_pow2_strictly_increases(64, 144);
    lemma_pow2_adds(64, 149);
    lemma_pow2_strictly_increases(213, 270);
    lemma_pow2_pos(144);
    let a = Single { bits: 0x3f20_0000 };
    assert(a.exp() == 125 && a.mant() == 0xa0_0000);
    lemma_pow2_adds(19, 125);
    let b = Single { bits: 0x3fc0_0000 };
    assert(b.exp() == 126 && b.mant() == 0xc0_0000);
    lemma_pow2_adds(18, 126);
    let c = Single { bits: 0x3e00_0000 };
    assert(c.exp() == 123 && c.mant() == 0x80_0000);
    lemma_pow2_adds(21, 123);
    let d = Single { bits: 0x3d80_0000 };
    assert(d.exp() == 122 && d.mant() == 0x80_0000);
    lemma_pow2_adds(22, 122);
    let e = Single { bits: 0x3f00_0000 };
    assert(e.exp() == 125 && e.mant() == 0x80_0000);
    let p = pow2(125);
    let q = pow2(122);
    let r = pow2(123);
    let s = pow2(126);
    assert(0xa0_0000 * p == 20 * (0x8_0000 * p)) by (nonlinear_arith);
    assert(0xc0_0000 * s == 48 * (0x4_0000 * s)) by (nonlinear_arith);
    assert(0x80_0000 * r == 4 * (0x20_0000 * r)) by (nonlinear_arith);
    assert(0x80_0000 * q == 2 * (0x40_0000 * q)) by (nonlinear_arith);
    assert(0x80_0000 * p == 16 * (0x8_0000 * p)) by (nonlinear_arith);
}

/// A known aspect lies between five eighths and three halves.
pub open spec fn usual(a: Single) -> bool {
    &&& a.finite()
    &&& !a.negative()
    &&& 20 * pow2(144) <= a.units() <= 48 * pow2(144)
}

proof fn lemma_fraction_is_usual(n: u32, d: u32)
    requires
        d > 0,
        5 * d <= 8 * n,
        2 * n <= 3 * d,
    ensures
        usual(Single::ratio(n, d)),
{
    lemma_marks();
    let lo = Single { bits: 0x3f20_0000 };
    let hi = Single { bits: 0x3fc0_0000 };
    let p = pow2(144);
    assert((20 * p) * d <= n * (32 * p) && n * (32 * p) <= (48 * p) * d) by (nonlinear_arith)
        requires
            5 * d <= 8 * n,
            2 * n <= 3 * d,
            p >= 0,
    ;
    crate::single::lemma_ratio_bounds(n, d, lo, hi);
    crate::single::lemma_units_monotone(lo, Single::ratio(n, d));
    crate::single::lemma_units_monotone(Single::ratio(n, d), hi);
}

proof fn lemma_candidates(i: int)
    ensures
        usual(candidate(i).0),
{
    lemma_fraction_is_usual(3, 2);
    lemma_fraction_is_usual(2, 3);
    lemma_fraction_is_usual(6, 7);
    lemma_fraction_is_usual(7, 6);
    lemma_fraction_is_usual(4, 3);
    lemma_fraction_is_usual(3, 4);
    lemma_fraction_is_usual(5, 4);
    lemma_fraction_is_usual(4, 5);
    crate::single::lemma_whole_exact(1);
    lemma_marks();
}

pub open spec fn gap(a: nat, b: nat) -> nat {
    (if a < b {
        b - a
    } else {
        a - b
    }) as nat
}

/// The distance of two numbers is their gap, rounded.
proof fn lemma_gap(r: Single, a: Single)
    requires
        r.finite(),
        !r.negative(),
        a.finite(),
        !a.negative(),
    ensures
        r.minus(a).abs() == crate::single::round_units(false, gap(r.units(), a.units()), 1),
        r.minus(a).abs().finite(),
        !r.minus(a).abs().negative(),
{
    reveal(Single::plus_spec);
    reveal(Single::neg_spec);
    reveal(Single::abs_spec);
    let m = a.neg();
    assert(m.mag() == a.mag() && m.negative() && m.signed() == -(a.units() as int));
    let n = gap(r.units(), a.units());
    crate::single::lemma_zero_rounds(false, 1);
    crate::single::lemma_zero_rounds(true, 1);
    if r.units() < a.units() {
        crate::single::lemma_round_at_most(n, 1, a);
    } else {
        crate::single::lemma_round_at_most(n, 1, r);
    }
    crate::single::lemma_round_is_a_number(true, n, 1);
}

/// An aspect within 4.5 percent of a known one lies within three parts in 32 of it.
proof fn lemma_close(r: Single, a: Single)
    requires
        r.finite(),
        !r.negative(),
        usual(a),
        aspect_error(r, a).less(Single::ratio(45, 1000)),
    ensures
        r.minus(a).abs().units() < 3 * pow2(144),
{
    lemma_marks();
    lemma_gap(r, a);
    reveal(Single::over_spec);
    reveal(Single::less_spec);
    let x = r.minus(a).abs();
    let q = Single { bits: 0x3d80_0000 };
    let p = pow2(144);
    crate::single::lemma_units_positive(a);
    assert((2 * p) * 1000 >= 45 * (32 * p)) by (nonlinear_arith)
        requires
            p >= 0,
    ;
    crate::single::lemma_zero();
    crate::single::lemma_ratio_bounds(45, 1000, Single::whole(0), q);
    if x.units() * 16 >= a.units() {
        assert(q.units() * a.units() <= x.units() * pow2(149) * 1) by (nonlinear_arith)
            requires
                q.units() == 2 * p,
                pow2(149) == 32 * p,
                x.units() * 16 >= a.units(),
                p >= 0,
        ;
        crate::single::lemma_round_self(q);
        crate::single::lemma_round_monotone(q.units(), 1, x.units() * pow2(149), a.units());
        crate::single::lemma_round_is_a_number(false, x.units() * pow2(149), a.units());
    }
}

/// What rounds to less than three parts in 32 is less than an eighth.
proof fn lemma_near_gap(n: nat)
    requires
        crate::single::round_units(false, n, 1).finite(),
        crate::single::round_units(false, n, 1).units() < 3 * pow2(144),
    ensures
        n < 4 * pow2(144),
{
    lemma_marks();
    let e = Single { bits: 0x3e00_0000 };
    if n >= 4 * pow2(144) {
        crate::single::lemma_round_self(e);
        crate::single::lemma_round_monotone(e.units(), 1, n, 1);
        crate::single::lemma_units_monotone(e, crate::single::round_units(false, n, 1));
    }
}

/// The closest format is that of a known aspect within 4.5 percent.
proof fn lemma_closest(ratio: Single, n: int) -> (i: int)
    requires
        n <= 9,
        closest(ratio, n) is Some,
    ensures
        0 <= i < n,
        (closest(ratio, n)->0).1 == candidate(i).1,
        aspect_error(ratio, candidate(i).0).less(Single::ratio(45, 1000)),
    decreases n,
{
    let best = closest(ratio, n - 1);
    let err = aspect_error(ratio, candidate(n - 1).0);
    if err.less(Single::ratio(45, 1000)) && (best matches Some(b) ==> err.less(b.0)) {
        n - 1
    } else {
        lemma_closest(ratio, n - 1)
    }
}

/// No aspect of a format lies closer than the one that is chosen.
proof fn lemma_chosen(ratio: Single, fmt: FilmFormat, n: int, i: int)
    requires
        ratio.finite(),
        !ratio.negative(),
        0 <= i < n <= 9,
        candidate(i).1 == fmt,
    ensures
        format_aspect(ratio, fmt, n) matches Some(a) && usual(a) && ratio.minus(a).abs().mag()
            <= ratio.minus(candidate(i).0).abs().mag(),
    decreases n,
{
    reveal(Single::less_spec);
    let (a, f) = candidate(n - 1);
    lemma_candidates(n - 1);
    lemma_gap(ratio, a);
    let best = format_aspect(ratio, fmt, n - 1);
    if i < n - 1 {
        lemma_chosen(ratio, fmt, n - 1, i);
        lemma_gap(ratio, best->0);
    } else if best is Some {
        lemma_some_usual(ratio, fmt, n - 1);
        lemma_gap(ratio, best->0);
    }
}

proof fn lemma_some_usual(ratio: Single, fmt: FilmFormat, n: int)
    requires
        n <= 9,
    ensures
        format_aspect(ratio, fmt, n) matches Some(a) ==> usual(a),
    decreases n,
{
    if n > 0 {
        lemma_some_usual(ratio, fmt, n - 1);
        lemma_candidates(n - 1);
    }
}

/// The aspect that bounds are cut to lies within an eighth of their own.
proof fn lemma_target(ratio: Single)
    requires
        ratio.finite(),
        !ratio.negative(),
        closest(ratio, 9) is Some,
    ensures
        format_aspect(ratio, (closest(ratio, 9)->0).1, 9) matches Some(a) && usual(a) && gap(
            ratio.units(),
            a.units(),
        ) < 4 * pow2(144),
{
    let i = lemma_closest(ratio, 9);
    let fmt = (closest(ratio, 9)->0).1;
    let near = candidate(i).0;
    lemma_candidates(i);
    lemma_close(ratio, near);
    lemma_chosen(ratio, fmt, 9, i);
    let a = format_aspect(ratio, fmt, 9)->0;
    lemma_gap(ratio, near);
    lemma_gap(ratio, a);
    crate::single::lemma_units_monotone(ratio.minus(a).abs(), ratio.minus(near).abs());
    lemma_near_gap(gap(ratio.units(), a.units()));
}

/// A count is at least one, and rounded by little.
proof fn lemma_count(w: u64)
    requires
        w >= 1,
    ensures
        Single::whole(w).finite(),
        !Single::whole(w).negative(),
        pow2(149) <= Single::whole(w).units(),
        Single::whole(w).units() * 0x100_0000 <= (w * pow2(149)) * 0x100_0001 + 0x8000_0000_0000,
        Single::whole(w).units() <= 2 * pow2(149) * 0x1_0000_0000_0000_0000,
{
    reveal(Single::whole_spec);
    lemma_marks();
    let c = pow2(149);
    let one = Single::whole(1);
    assert(1 * (1 * c) <= (w * c) * 1 && w * c <= 0x1_0000_0000_0000_0000 * c) by (nonlinear_arith)
        requires
            1 <= w <= 0x1_0000_0000_0000_0000,
            c >= 0,
    ;
    crate::single::lemma_round_near((w * c) as nat, 1);
    crate::single::lemma_whole_exact(1);
    crate::single::lemma_round_monotone(1 * c, 1, (w * c) as nat, 1);
    crate::single::lemma_units_monotone(one, Single::whole(w));
}

/// Where at least three quarters of a side are to stay, less than a seventh of it and a half
/// is cut from either end.
proof fn lemma_little_is_cut(w: u64, target: Single, max: u64)
    requires
        w >= 1,
        target.finite(),
        !target.negative(),
        4 * target.units() >= 3 * Single::whole(w).units(),
        target.less(Single::whole(w)),
    ensures
        14 * Single::whole(w).minus(target).times(Single::ratio(5, 10)).rounded().to_int(max) <= 2
            * w + 7,
{
    lemma_marks();
    lemma_count(w);
    let c = pow2(149);
    let len = Single::whole(w);
    crate::single::order_is_by_value(target, len);
    let t = (len.units() - target.units()) as nat;
    // What exceeds the target.
    reveal(Single::plus_spec);
    reveal(Single::neg_spec);
    let m = len.minus(target);
    assert(target.neg().mag() == target.mag());
    assert(m == crate::single::round_units(false, t, 1));
    crate::single::lemma_round_near(t, 1);
    // Half of it.
    reveal(Single::times_spec);
    reveal(Single::ratio_spec);
    let half = Single::ratio(5, 10);
    let e = Single { bits: 0x3f00_0000 };
    crate::single::lemma_round_self(e);
    crate::single::lemma_scale(false, e.units(), 1, 10);
    assert(5 * c == e.units() * 10 && 1 * 10 == 10);
    assert(half == e);
    let k = 0x100_0000nat;
    let mu = m.units();
    let n = m.times(half);
    assert(2 * (mu * e.units()) == mu * c) by (nonlinear_arith)
        requires
            2 * e.units() == c,
    ;
    assert(mu * e.units() <= c * pow2(270)) by (nonlinear_arith)
        requires
            2 * (mu * e.units()) == mu * c,
            mu <= 2 * pow2(270),
            c >= 0,
    ;
    crate::single::lemma_round_near(mu * e.units(), c);
    let nu = n.units();
    assert(2 * nu * k <= mu * (k + 1) + 2 * 0x8000_0000_0000) by {
        assert(c * (2 * nu * k) <= c * (mu * (k + 1) + 2 * 0x8000_0000_0000)) by (nonlinear_arith)
            requires
                nu * c * k <= (mu * e.units()) * (k + 1) + 0x8000_0000_0000 * c,
                2 * (mu * e.units()) == mu * c,
        ;
        lemma_mul_inequality_converse(
            (2 * nu * k) as int,
            (mu * (k + 1) + 2 * 0x8000_0000_0000) as int,
            c as int,
        );
    }
    // Rounded to lines.
    reveal(Single::rounded_spec);
    reveal(Single::to_int_spec);
    let z = (2 * nu + c) / (2 * c);
    vstd::arithmetic::div_mod::lemma_fundamental_div_mod((2 * nu + c) as int, (2 * c) as int);
    vstd::arithmetic::div_mod::lemma_mod_bound((2 * nu + c) as int, (2 * c) as int);
    let zc = z * c;
    assert(2 * zc <= 2 * nu + c) by (nonlinear_arith)
        requires
            zc == z * c,
            2 * nu + c == (2 * c) * z + (2 * nu + c) % (2 * c),
            (2 * nu + c) % (2 * c) >= 0,
    ;
    crate::single::lemma_round_near(zc, 1);
    let r = n.rounded();
    let lines = r.to_int(max);
    let q = r.units() / c;
    vstd::arithmetic::div_mod::lemma_fundamental_div_mod(r.units() as int, c as int);
    vstd::arithmetic::div_mod::lemma_mod_bound(r.units() as int, c as int);
    assert(lines * c <= r.units()) by (nonlinear_arith)
        requires
            lines <= q,
            r.units() == c * q + r.units() % c,
            r.units() % c >= 0,
            c >= 0,
    ;
    let y = w * c;
    assert(y >= c) by (nonlinear_arith)
        requires
            y == w * c,
            w >= 1,
            c >= 0,
    ;
    let lc = lines * c;
    assert(14 * lc <= 2 * y + 7 * c);
    assert(c * (14 * lines) <= c * (2 * w + 7)) by (nonlinear_arith)
        requires
            14 * lc <= 2 * y + 7 * c,
            lc == lines * c,
            y == w * c,
    ;
    lemma_mul_inequality_converse(14 * lines, 2 * w + 7, c as int);
}

/// Where the aspect lies within an eighth of the target, the target times the other side is at
/// least three quarters of a side.
proof fn lemma_product_stays(w: nat, h: nat, r: nat, a: nat, t: nat, c: nat)
    requires
        w >= c,
        h >= c,
        c >= 0x20_0000_0000_0000_0000,
        (w * c) * 0xff_ffff <= r * h * 0x100_0000 + 0x8000_0000_0000 * h,
        8 * r < 8 * a + c,
        5 * c <= 8 * a,
        (h * a) * 0xff_ffff <= t * c * 0x100_0000 + 0x8000_0000_0000 * c,
    ensures
        4 * t >= 3 * w,
{
    let ha = h * a;
    let wc = w * c;
    assert(5 * (r * h) <= 6 * ha) by (nonlinear_arith)
        requires
            5 * r <= 6 * a,
            ha == h * a,
    ;
    assert(0x8000_0000_0000 * h * 5 <= ha) by (nonlinear_arith)
        requires
            5 * 0x8000_0000_0000 <= a,
            ha == h * a,
    ;
    assert(5 * wc * 0xff_ffff <= ha * 0x600_0001);
    let tc = t * c;
    assert(5 * wc * 0xff_ffff * 0xff_ffff <= (tc * 0x100_0000 + 0x8000_0000_0000 * c) * 0x600_0001);
    if 4 * t < 3 * w {
        assert(4 * tc <= 3 * wc) by (nonlinear_arith)
            requires
                4 * t < 3 * w,
                tc == t * c,
                wc == w * c,
        ;
        assert(wc >= c * 0x20_0000_0000_0000_0000) by (nonlinear_arith)
            requires
                wc == w * c,
                w >= c,
                c >= 0x20_0000_0000_0000_0000,
        ;
        assert(c > 0);
        assert(false);
    }
}

/// And so is the other side over the target.
proof fn lemma_quotient_stays(w: nat, h: nat, r: nat, a: nat, t: nat, c: nat)
    requires
        w >= c,
        h >= c,
        c >= 0x20_0000_0000_0000_0000,
        r * h * 0x100_0000 <= (w * c) * 0x100_0001 + 0x8000_0000_0000 * h,
        8 * a < 8 * r + c,
        5 * c <= 8 * a,
        (w * c) * 0xff_ffff <= t * a * 0x100_0000 + 0x8000_0000_0000 * a,
    ensures
        4 * t >= 3 * h,
{
    let ha = h * a;
    let wc = w * c;
    assert(5 * (r * h) >= 4 * ha) by (nonlinear_arith)
        requires
            5 * r >= 4 * a,
            ha == h * a,
    ;
    assert(0x8000_0000_0000 * h * 5 <= ha) by (nonlinear_arith)
        requires
            5 * 0x8000_0000_0000 <= a,
            ha == h * a,
    ;
    assert(ha * 0x3ff_ffff <= 5 * wc * 0x100_0001);
    let ta = t * a;
    assert(ha * 0x3ff_ffff * 0xff_ffff <= 0x500_0005 * (ta * 0x100_0000 + 0x8000_0000_0000 * a));
    if 4 * t < 3 * h {
        assert(4 * ta <= 3 * ha) by (nonlinear_arith)
            requires
                4 * t < 3 * h,
                ta == t * a,
                ha == h * a,
        ;
        assert(ha >= a * 0x20_0000_0000_0000_0000) by (nonlinear_arith)
            requires
                ha == h * a,
                h >= 0x20_0000_0000_0000_0000,
        ;
        assert(a > 0);
        assert(false);
    }
}

/// Of bounds that are cut, at least three quarters of the cut side are to stay.
proof fn lemma_most_stays(w: u64, h: u64)
    requires
        w >= 1,
        h >= 1,
        closest(Single::whole(w).over(Single::whole(h)), 9) is Some,
    ensures
        ({
            let ratio = Single::whole(w).over(Single::whole(h));
            let fmt = (closest(ratio, 9)->0).1;
            let a = format_aspect(ratio, fmt, 9)->0;
            let cut_w = Single::whole(h).times(a);
            let cut_h = Single::whole(w).over(a);
            &&& format_aspect(ratio, fmt, 9) is Some
            &&& cut_w.finite() && !cut_w.negative()
            &&& cut_h.finite() && !cut_h.negative()
            &&& 4 * cut_w.units() >= 3 * Single::whole(w).units()
            &&& 4 * cut_h.units() >= 3 * Single::whole(h).units()
        }),
{
    lemma_marks();
    lemma_count(w);
    lemma_count(h);
    let c = pow2(149);
    let big = pow2(270);
    let wu = Single::whole(w).units();
    let hu = Single::whole(h).units();
    let ratio = Single::whole(w).over(Single::whole(h));
    reveal(Single::over_spec);
    reveal(Single::times_spec);
    crate::single::lemma_units_positive(Single::whole(h));
    lemma_pow2_adds(121, 149);
    lemma_pow2_strictly_increases(66, 121);
    lemma2_to64_rest();
    lemma_pow2_adds(2, 64);
    lemma2_to64();
    assert(2 * wu <= big && 2 * hu <= big) by (nonlinear_arith)
        requires
            wu <= 2 * c * 0x1_0000_0000_0000_0000,
            hu <= 2 * c * 0x1_0000_0000_0000_0000,
            big == pow2(121) * c,
            pow2(121) >= 4 * 0x1_0000_0000_0000_0000,
            c >= 0,
    ;
    assert(wu * c <= hu * big) by (nonlinear_arith)
        requires
            wu <= big,
            c <= hu,
    ;
    crate::single::lemma_round_near(wu * c, hu);
    lemma_target(ratio);
    let fmt = (closest(ratio, 9)->0).1;
    let a = format_aspect(ratio, fmt, 9)->0;
    let au = a.units();
    crate::single::lemma_units_positive(a);
    assert(hu * au <= c * big && wu * c <= au * big) by (nonlinear_arith)
        requires
            2 * hu <= big,
            2 * wu <= big,
            au <= 2 * c,
            c <= 2 * au,
    ;
    crate::single::lemma_round_near(hu * au, c);
    crate::single::lemma_round_near(wu * c, au);
    lemma_product_stays(
        wu,
        hu,
        ratio.units(),
        au,
        Single::whole(h).times(a).units(),
        c,
    );
    lemma_quotient_stays(
        wu,
        hu,
        ratio.units(),
        au,
        Single::whole(w).over(a).units(),
        c,
    );
}

/// Cutting to a format moves no edge out: each stays or moves in, with something left between
/// them. At most one pair of edges moves, both of its edges by as much.
pub proof fn snapping_moves_edges_in(b: Bounds)
    requires
        !b.is_empty(),
    ensures
        ({
            let r = snap_spec(b).0;
            &&& !r.is_empty()
            &&& b.left <= r.left
            &&& b.top <= r.top
            &&& r.right <= b.right
            &&& r.bottom <= b.bottom
            &&& r.left - b.left == b.right - r.right
            &&& r.top - b.top == b.bottom - r.bottom
            &&& r.left == b.left || r.top == b.top
        }),
{
    let w = (b.right - b.left) as u64;
    let h = (b.bottom - b.top) as u64;
    let ratio = Single::whole(w).over(Single::whole(h));
    if closest(ratio, 9) is Some {
        lemma_most_stays(w, h);
        let a = format_aspect(ratio, (closest(ratio, 9)->0).1, 9)->0;
        let cut_w = Single::whole(h).times(a);
        let cut_h = Single::whole(w).over(a);
        if cut_w.less(Single::whole(w)) {
            lemma_little_is_cut(w, cut_w, usize::MAX as u64);
        } else if cut_h.less(Single::whole(h)) {
            lemma_little_is_cut(h, cut_h, usize::MAX as u64);
        }
    }
}

/// A short side is not drawn in.
proof fn lemma_short_sides_stay(side: u64, max: u64)
    requires
        1 <= side <= 12,
    ensures
        Single::whole(side).times(Single::ratio(6, 1000)).rounded().to_int(max) == 0,
{
    lemma_marks();
    crate::single::lemma_whole_exact(side);
    let p = pow2(144);
    let c = pow2(149);
    crate::single::lemma_zero();
    reveal(Single::ratio_spec);
    reveal(Single::times_spec);
    reveal(Single::rounded_spec);
    reveal(Single::to_int_spec);
    crate::single::lemma_round_near(6 * c, 1000);
    let r = Single::ratio(6, 1000).units();
    let n = Single::whole(side).units() * r;
    assert(n <= c * (4 * p)) by (nonlinear_arith)
        requires
            n == (side * c) * r,
            3 * r <= p,
            1 <= side <= 12,
    ;
    let e = Single { bits: 0x3e00_0000 };
    assert(n <= e.units() * c) by (nonlinear_arith)
        requires
            n <= c * (4 * p),
            e.units() == 4 * p,
    ;
    crate::single::lemma_round_at_most(n, c, e);
    let m = Single::whole(side).times(Single::ratio(6, 1000));
    crate::single::lemma_units_monotone(m, e);
    let x = 2 * m.units() + c;
    vstd::arithmetic::div_mod::lemma_basic_div(x as int, (2 * c) as int);
    crate::single::lemma_zero_rounds(false, 1);
    vstd::arithmetic::div_mod::lemma_basic_div(0, c as int);
}

/// Drawing in moves all four edges in by as much, at most 6 lines, and leaves something between
/// them.
pub proof fn inset_moves_edges_in(b: Bounds, w: int, h: int)
    requires
        !b.is_empty(),
        b.within(w, h),
        w <= usize::MAX,
        h <= usize::MAX,
    ensures
        ({
            let r = inset_spec(b, w, h);
            let d = r.left - b.left;
            &&& !r.is_empty()
            &&& 0 <= d <= 6
            &&& r.top == b.top + d
            &&& r.right == b.right - d
            &&& r.bottom == b.bottom - d
        }),
{
    let side = min2(b.right - b.left, b.bottom - b.top);
    if side <= 12 {
        lemma_short_sides_stay(side as u64, usize::MAX as u64);
    }
}

/// A rectangle moved into the frame and cut to it; none where less than 8 pixels are left on a
/// side.
pub open spec fn clamp_rect_spec(rect: Rect, w: u32, h: u32) -> Option<Rect> {
    if w == 0 || h == 0 {
        None
    } else {
        let x = min2(rect.x as int, w - 1);
        let y = min2(rect.y as int, h - 1);
        let width = min2(rect.width as int, w - x);
        let height = min2(rect.height as int, h - y);
        if width < 8 || height < 8 {
            None
        } else {
            Some(Rect { x: x as u32, y: y as u32, width: width as u32, height: height as u32 })
        }
    }
}

pub fn clamp_rect(rect: Rect, w: u32, h: u32) -> (r: Option<Rect>)
    ensures
        r == clamp_rect_spec(rect, w, h),
{
    if w == 0 || h == 0 {
        return None;
    }
    let x: u32 = if rect.x <= w - 1 {
        rect.x
    } else {
        w - 1
    };
    let y: u32 = if rect.y <= h - 1 {
        rect.y
    } else {
        h - 1
    };
    let width: u32 = if rect.width <= w - x {
        rect.width
    } else {
        w - x
    };
    let height: u32 = if rect.height <= h - y {
        rect.height
    } else {
        h - y
    };
    if width < 8 || height < 8 {
        return None;
    }
    Some(Rect { x, y, width, height })
}

/// A clamped rectangle lies in the frame, with at least 8 pixels on each side.
pub proof fn clamped_lies_in_frame(rect: Rect, w: u32, h: u32)
    ensures
        clamp_rect_spec(rect, w, h) matches Some(r) ==> r.x + r.width <= w && r.y + r.height <= h
            && r.width >= 8 && r.height >= 8,
{
}

/// Smallest relative distance from the usual still aspects, no more than 1.
pub open spec fn usual_error(ratio: Single) -> Single {
    Single::whole(1).smaller(aspect_error(ratio, Single::ratio(1333, 1000))).smaller(
        aspect_error(ratio, Single::ratio(15, 10)),
    ).smaller(aspect_error(ratio, Single::ratio(75, 100))).smaller(
        aspect_error(ratio, Single::ratio(667, 1000)),
    )
}

pub fn error_of_usual(ratio: Single) -> (r: Single)
    ensures
        r == usual_error(ratio),
{
    Single::whole(1).smaller(aspect_error(ratio, Single::ratio(1333, 1000))).smaller(
        aspect_error(ratio, Single::ratio(15, 10)),
    ).smaller(aspect_error(ratio, Single::ratio(75, 100))).smaller(
        aspect_error(ratio, Single::ratio(667, 1000)),
    )
}

/// Bounds that look like a whole still frame: large enough, and of a usual aspect.
pub open spec fn complete_spec(w: int, h: int, b: Bounds) -> bool {
    let rw = Single::whole((b.right - b.left) as u64);
    let rh = Single::whole((b.bottom - b.top) as u64);
    let area = rw.times(rh).over(Single::whole((max2(w, 1) * max2(h, 1)) as u64));
    let ratio = rw.over(rh.larger(Single::whole(1)));
    &&& !b.is_empty()
    &&& Single::ratio(40, 100).at_most(area)
    &&& Single::ratio(52, 100).at_most(rw.over(Single::whole(w as u64)))
    &&& Single::ratio(45, 100).at_most(rh.over(Single::whole(h as u64)))
    &&& usual_error(ratio).less(Single::ratio(10, 100))
}

pub fn seed_looks_complete(w: usize, h: usize, b: Bounds) -> (r: bool)
    requires
        max2(w as int, 1) * max2(h as int, 1) <= usize::MAX,
    ensures
        r == complete_spec(w as int, h as int, b),
{
    if b.is_empty() {
        return false;
    }
    let rw = Single::whole((b.right - b.left) as u64);
    let rh = Single::whole((b.bottom - b.top) as u64);
    let mw: usize = if w >= 1 {
        w
    } else {
        1
    };
    let mh: usize = if h >= 1 {
        h
    } else {
        1
    };
    let area = rw.times(rh).over(Single::whole((mw * mh) as u64));
    let ratio = rw.over(rh.larger(Single::whole(1)));
    Single::ratio(40, 100).at_most(area) && Single::ratio(52, 100).at_most(
        rw.over(Single::whole(w as u64)),
    ) && Single::ratio(45, 100).at_most(rh.over(Single::whole(h as u64))) && error_of_usual(
        ratio,
    ).less(Single::ratio(10, 100))
}

} // verus!
