//! What the search for a frame goes by: bands, brightness, edges.

use vstd::prelude::*;
use crate::single::Single;
use crate::surround::{Polarity, SurroundClass};

verus! {

/// The outer band is as thick on the left as on the right, and as thick at the top as at the
/// bottom.
pub proof fn bands_are_even(w: int, h: int, bw: int, bh: int, x: int, y: int)
    requires
        0 <= x < w,
        0 <= y < h,
    ensures
        crate::surround::on_edge(w, h, bw, bh, x, y) == crate::surround::on_edge(
            w,
            h,
            bw,
            bh,
            w - 1 - x,
            y,
        ),
        crate::surround::on_edge(w, h, bw, bh, x, y) == crate::surround::on_edge(
            w,
            h,
            bw,
            bh,
            x,
            h - 1 - y,
        ),
        crate::surround::on_edge(w, h, bw, bh, x, y) == crate::surround::on_edge(
            h,
            w,
            bh,
            bw,
            y,
            x,
        ),
        bw <= x < w - bw && bh <= y < h - bh ==> !crate::surround::on_edge(w, h, bw, bh, x, y),
        x < bw ==> crate::surround::on_edge(w, h, bw, bh, x, y),
{
}

/// The middle is half as wide and half as high as the plane, and lies as far from one edge as
/// from the other, but for what does not divide by four.
pub proof fn the_middle_is_the_middle_half(w: int, h: int, x: int, y: int)
    requires
        0 <= x < w,
        0 <= y < h,
    ensures
        w % 4 == 0 && h % 4 == 0 ==> crate::surround::in_middle(w, h, x, y)
            == crate::surround::in_middle(w, h, w - 1 - x, h - 1 - y),
        crate::surround::in_middle(w, h, x, y) == crate::surround::in_middle(h, w, y, x),
        crate::surround::in_middle(w, h, x, y) ==> w < 4 * x + 4 && 4 * x < 3 * w && h < 4 * y + 4
            && 4 * y < 3 * h,
        w <= 4 * x && 4 * x + 3 < 3 * w && h <= 4 * y && 4 * y + 3 < 3 * h
            ==> crate::surround::in_middle(w, h, x, y),
{
}

/// How many sides have a class.
pub open spec fn sides_of(sides: Seq<SurroundClass>, c: SurroundClass) -> nat
    decreases sides.len(),
{
    if sides.len() == 0 {
        0
    } else {
        sides_of(sides.drop_last(), c) + if sides.last() == c {
            1nat
        } else {
            0nat
        }
    }
}

/// The class of a surround is one that at least two sides have, and no class has more; it is
/// mixed where no class has two.
pub proof fn surrounds_are_what_most_sides_are(sides: Seq<SurroundClass>)
    requires
        sides.len() == 4,
    ensures
        ({
            let r = crate::surround::vote_spec(sides);
            let held = SurroundClass::DarkHolder;
            let lit = SurroundClass::BrightLight;
            let film = SurroundClass::FilmRebate;
            let n = sides_of(sides, r);
            &&& r != SurroundClass::Mixed ==> n >= 2 && n >= sides_of(sides, held) && n >= sides_of(
                sides,
                lit,
            ) && n >= sides_of(sides, film)
            &&& r == SurroundClass::Mixed ==> sides_of(sides, held) < 2 && sides_of(sides, lit) < 2
                && sides_of(sides, film) < 2
        }),
{
    lemma_votes(sides, SurroundClass::DarkHolder);
    lemma_votes(sides, SurroundClass::BrightLight);
    lemma_votes(sides, SurroundClass::FilmRebate);
}

proof fn lemma_votes(sides: Seq<SurroundClass>, c: SurroundClass)
    requires
        sides.len() == 4,
    ensures
        sides_of(sides, c) == crate::surround::votes(sides, c),
{
    reveal_with_fuel(sides_of, 5);
}

/// A brightness of a plane.
pub open spec fn is_level(v: Single) -> bool {
    v.finite() && 0 <= v.signed() <= 4 * crate::near::one()
}

proof fn lemma_hundredths(v: Single, hundredths: u32)
    requires
        is_level(v),
        100 <= hundredths < 200,
    ensures
        ({
            let r = v.times(Single::ratio(hundredths, 100));
            &&& r.finite()
            &&& -(3_000 * crate::near::slip()) <= 100 * r.signed() - hundredths * v.signed()
                <= 3_000 * crate::near::slip()
        }),
{
    let c = crate::near::one();
    let e = crate::near::slip();
    crate::near::lemma_sizes();
    crate::near::lemma_ratio(hundredths, 100, 2);
    let f = Single::ratio(hundredths, 100);
    let (fv, x) = (f.signed(), v.signed());
    let n = hundredths as int;
    assert(n * c <= 200 * c) by (nonlinear_arith)
        requires
            n < 200,
            c > 0,
    ;
    assert(fv <= 3 * c);
    assert(0 <= x * fv <= 12 * c * c) by (nonlinear_arith)
        requires
            0 <= fv <= 3 * c,
            0 <= x <= 4 * c,
    ;
    crate::near::lemma_product(v, f, 12);
    let r = v.times(f).signed();
    let p = r * c - x * fv;
    let q = fv * 100 - n * c;
    crate::near::lemma_bounded(q, 200 * e, x, 4 * c);
    let off = 100 * r - n * x;
    assert(off * c == 100 * p + q * x) by {
        assert(q * x == 100 * (x * fv) - n * x * c) by (nonlinear_arith)
            requires
                q == fv * 100 - n * c,
        ;
        assert(off * c == 100 * (r * c) - n * x * c) by (nonlinear_arith)
            requires
                off == 100 * r - n * x,
        ;
    }
    assert(12 * e * c == 12 * (e * c) && 200 * e * (4 * c) == 800 * (e * c) && 3_000 * e * c == 3_000
        * (e * c) && e * c > 0) by (nonlinear_arith)
        requires
            e > 0,
            c > 0,
    ;
    crate::near::lemma_divided(off, 3_000 * e, c);
}

/// The brighter of film and surround is told by their means: the film where the middle is
/// clearly brighter than the outer band, the surround where it is clearly darker; neither
/// where they are alike.
pub proof fn polarity_tells_the_brighter(p: crate::film::PlaneView)
    requires
        is_level(crate::surround::outer_inner_spec(p).0),
        is_level(crate::surround::outer_inner_spec(p).1),
    ensures
        ({
            let (o, i) = crate::surround::outer_inner_spec(p);
            let (outer, inner) = (o.signed(), i.signed());
            let one = crate::near::one();
            let r = crate::surround::polarity_spec(p);
            &&& r == Polarity::FilmBrighter ==> inner > outer
            &&& r == Polarity::SurroundBrighter ==> outer > inner
            &&& 100 * inner >= 119 * outer && 100 * (inner - outer) >= 9 * one ==> r
                == Polarity::FilmBrighter
            &&& 100 * outer >= 113 * inner && 100 * (outer - inner) >= 9 * one ==> r
                == Polarity::SurroundBrighter
            &&& 100 * (inner - outer) <= 7 * one && 100 * (outer - inner) <= 7 * one ==> r
                == Polarity::Unclear
            &&& 100 * inner <= 117 * outer && 100 * outer <= 111 * inner && (100 * (inner - outer)
                >= 9 * one || 100 * (outer - inner) >= 9 * one) ==> r == Polarity::Unclear
        }),
{
    let e = crate::near::slip();
    let c = crate::near::one();
    crate::near::lemma_sizes();
    let (o, i) = crate::surround::outer_inner_spec(p);
    lemma_hundredths(o, 118);
    lemma_hundredths(i, 112);
    crate::near::lemma_ratio(8, 100, 1);
    let t = Single::ratio(8, 100);
    crate::near::lemma_difference(i, o, 4);
    crate::near::lemma_difference(o, i, 4);
    crate::single::order_is_by_value(o.times(Single::ratio(118, 100)), i);
    crate::single::order_is_by_value(i.times(Single::ratio(112, 100)), o);
    crate::single::order_is_by_value(t, i.minus(o));
    crate::single::order_is_by_value(t, o.minus(i));
}

/// A row or column counts as picture where at least eighteen percent of it is marked.
pub proof fn full_lines_are_marked_enough(px: Seq<bool>, w: int, h: int, row: bool, i: int)
    requires
        0 < w < 0x100_0000,
        0 < h < 0x100_0000,
        0 <= i < if row {
            h
        } else {
            w
        },
    ensures
        ({
            let len = if row {
                w
            } else {
                h
            };
            let n = line_marks(px, w, h, row, i);
            let r = crate::frame::full_lines(px, w, h, row)[i];
            &&& 1_000 * n >= 181 * len ==> r
            &&& 1_000 * n <= 179 * len ==> !r
        }),
{
    let c = crate::near::one();
    let e = crate::near::slip();
    crate::near::lemma_sizes();
    let len = if row {
        w
    } else {
        h
    };
    lemma_marked(px, w, row, i, len);
    let n = crate::frame::marked(px, w, i, row, len);
    crate::near::lemma_whole(n as u64);
    crate::near::lemma_whole(len as u64);
    assert(0 <= n * c <= 1 * (len * c) && len * c > 0) by (nonlinear_arith)
        requires
            0 <= n <= len,
            len > 0,
            c > 0,
    ;
    crate::near::lemma_quotient(Single::whole(n as u64), Single::whole(len as u64), 1);
    let q = Single::whole(n as u64).over(Single::whole(len as u64));
    let qv = q.signed();
    let t = Single::ratio(18, 100);
    crate::near::lemma_ratio(18, 100, 1);
    let tv = t.signed();
    crate::single::order_is_by_value(t, q);
    crate::single::order_is_by_value(q, t);
    if 1_000 * n >= 181 * len {
        assert(qv > tv) by (nonlinear_arith)
            requires
                qv * (len * c) - n * c * c >= -(1 * e * (len * c)),
                1_000 * n >= 181 * len,
                100 * tv <= 18 * c + 100 * e,
                c == e * 0x80_0000,
                e > 0,
                len > 0,
        ;
    }
    if 1_000 * n <= 179 * len {
        assert(qv < tv) by (nonlinear_arith)
            requires
                qv * (len * c) - n * c * c <= 1 * e * (len * c),
                1_000 * n <= 179 * len,
                100 * tv >= 18 * c - 100 * e,
                c == e * 0x80_0000,
                e > 0,
                len > 0,
        ;
    }
}

/// The pixels of a row lie side by side, those of a column a width apart.
pub open spec fn line_pixels(px: Seq<bool>, w: int, row: bool, i: int, n: int) -> Seq<bool> {
    if row {
        Seq::new(n as nat, |x: int| px[i * w + x])
    } else {
        Seq::new(n as nat, |y: int| px[y * w + i])
    }
}

/// The marked pixels of a row or column.
pub open spec fn line_marks(px: Seq<bool>, w: int, h: int, row: bool, i: int) -> int {
    line_pixels(
        px,
        w,
        row,
        i,
        if row {
            w
        } else {
            h
        },
    ).filter(|b: bool| b).len() as int
}

proof fn lemma_marked(px: Seq<bool>, w: int, row: bool, i: int, n: int)
    requires
        0 <= n,
    ensures
        crate::frame::marked(px, w, i, row, n) == line_pixels(px, w, row, i, n).filter(
            |b: bool| b,
        ).len(),
        0 <= crate::frame::marked(px, w, i, row, n) <= n,
    decreases n,
{
    reveal(Seq::filter);
    let line = line_pixels(px, w, row, i, n);
    if n > 0 {
        lemma_marked(px, w, row, i, n - 1);
        assert(line.drop_last() =~= line_pixels(px, w, row, i, n - 1));
        assert(line.last() == px[if row {
            i * w + (n - 1)
        } else {
            (n - 1) * w + i
        }]);
    }
}

/// A pair of lines that may be the edges of a frame.
pub open spec fn may_be_edges(l: int, r: int, lo: int, hi: int, below: int, n: int) -> bool {
    0 <= l < below && l + lo <= r < l + hi && r < n
}

/// Strength of a pair of lines, by value.
pub open spec fn strength(d: Seq<Single>, rtf: bool, l: int, r: int) -> int {
    crate::gates::pair_score(d, l, r, rtf).signed()
}

/// Slopes that are no larger than a thousand.
pub open spec fn are_slopes(d: Seq<Single>) -> bool {
    forall|i: int|
        0 <= i < d.len() ==> (#[trigger] d[i]).finite() && -(1_000 * crate::near::one())
            <= d[i].signed() <= 1_000 * crate::near::one()
}

proof fn lemma_pair_score(d: Seq<Single>, l: int, r: int, rtf: bool)
    requires
        are_slopes(d),
        0 <= l < d.len(),
        0 <= r < d.len(),
    ensures
        crate::gates::pair_score(d, l, r, rtf).finite(),
        ({
            let rise = |v: int|
                if v > 0 {
                    v
                } else {
                    0
                };
            let a = d[l].signed();
            let b = d[if r >= 4 {
                r - 4
            } else {
                0
            }].signed();
            let true_score = if rtf {
                rise(a) + rise(-b)
            } else {
                rise(-a) + rise(b)
            };
            -(2_000 * crate::near::slip()) <= strength(d, rtf, l, r) - true_score <= 2_000
                * crate::near::slip()
        }),
{
    let k = if r >= 4 {
        r - 4
    } else {
        0
    };
    assert(d[l].finite() && d[k].finite());
    crate::near::lemma_sizes();
    crate::near::lemma_whole(0);
    let (a, b) = (d[l], d[k]);
    let z = Single::whole(0);
    crate::single::lemma_opposite(a);
    crate::single::lemma_opposite(b);
    crate::near::lemma_smaller_larger(a, z);
    crate::near::lemma_smaller_larger(b, z);
    crate::near::lemma_smaller_larger(a.neg(), z);
    crate::near::lemma_smaller_larger(b.neg(), z);
    crate::near::lemma_sum(a.larger(z), b.neg().larger(z), 2_000);
    crate::near::lemma_sum(a.neg().larger(z), b.larger(z), 2_000);
}

/// A pair of edges is strong by how much the profile rises at the first and falls at the second,
/// or by the reverse of both.
pub proof fn edges_are_strong_by_rise_and_fall(d: Seq<Single>, l: int, r: int)
    requires
        are_slopes(d),
        0 <= l < d.len(),
        4 <= r < d.len(),
        d[l].signed() >= 0,
        d[r - 4].signed() <= 0,
    ensures
        ({
            let s = d[l].signed() - d[r - 4].signed();
            let e = crate::near::slip();
            &&& -(2_000 * e) <= strength(d, true, l, r) - s <= 2_000 * e
            &&& -(2_000 * e) <= strength(d, false, l, r) <= 2_000 * e
        }),
{
    lemma_pair_score(d, l, r, true);
    lemma_pair_score(d, l, r, false);
}

/// The best pair so far: none of those that were tried is stronger, and it is itself one of
/// them, unless none is stronger than the least strength.
pub open spec fn is_best(
    best: crate::gates::BestPair,
    d: Seq<Single>,
    rtf: bool,
    tried: spec_fn(int, int) -> bool,
) -> bool {
    &&& best.score.finite()
    &&& forall|l: int, r: int| #[trigger]
        tried(l, r) ==> strength(d, rtf, l, r) <= best.score.signed()
    &&& match best.pair {
        Some((l, r)) => tried(l, r) && best.score == crate::gates::pair_score(d, l, r, rtf)
            && Single::ratio(12, 100).signed() < best.score.signed(),
        None => best.score == Single::ratio(12, 100),
    }
}

proof fn lemma_best_right(
    d: Seq<Single>,
    rtf: bool,
    best: crate::gates::BestPair,
    l: int,
    r0: int,
    r: int,
    tried: spec_fn(int, int) -> bool,
)
    requires
        are_slopes(d),
        0 <= l < d.len(),
        0 <= r0,
        r <= d.len(),
        is_best(best, d, rtf, tried),
    ensures
        is_best(
            crate::gates::best_right(d, rtf, best, l, r0, r),
            d,
            rtf,
            |a: int, b: int| tried(a, b) || a == l && r0 <= b < r,
        ),
    decreases r - r0,
{
    let now = |a: int, b: int| tried(a, b) || a == l && r0 <= b < r;
    if r > r0 {
        lemma_best_right(d, rtf, best, l, r0, r - 1, tried);
        let was = |a: int, b: int| tried(a, b) || a == l && r0 <= b < r - 1;
        let old_best = crate::gates::best_right(d, rtf, best, l, r0, r - 1);
        lemma_pair_score(d, l, r - 1, rtf);
        let s = crate::gates::pair_score(d, l, r - 1, rtf);
        crate::single::order_is_by_value(old_best.score, s);
        let new_best = crate::gates::best_right(d, rtf, best, l, r0, r);
        assert forall|a: int, b: int| #[trigger] now(a, b) implies strength(d, rtf, a, b)
            <= new_best.score.signed() by {
            if !(a == l && b == r - 1) {
                assert(was(a, b));
            }
        }
        if let Some((a, b)) = new_best.pair {
            assert(now(a, b)) by {
                if !(a == l && b == r - 1) {
                    assert(was(a, b));
                }
            }
        }
    } else {
        assert forall|a: int, b: int| #[trigger] now(a, b) implies strength(d, rtf, a, b)
            <= best.score.signed() by {
            assert(tried(a, b));
        }
        if let Some((a, b)) = best.pair {
            assert(now(a, b));
        }
    }
}

/// The edges that are chosen are the strongest of all pairs that are far enough apart and not
/// too far; there are none where no pair is stronger than twelve hundredths.
pub proof fn chosen_edges_are_the_strongest(
    d: Seq<Single>,
    rtf: bool,
    lo: int,
    hi: int,
    below: int,
)
    requires
        are_slopes(d),
        0 <= below <= d.len(),
        0 <= lo,
    ensures
        is_best(
            crate::gates::best_left(d, rtf, lo, hi, below),
            d,
            rtf,
            |l: int, r: int| may_be_edges(l, r, lo, hi, below, d.len() as int),
        ),
    decreases below,
{
    let n = d.len() as int;
    let now = |l: int, r: int| may_be_edges(l, r, lo, hi, below, n);
    let best = crate::gates::best_left(d, rtf, lo, hi, below);
    if below > 0 {
        chosen_edges_are_the_strongest(d, rtf, lo, hi, below - 1);
        let was = |l: int, r: int| may_be_edges(l, r, lo, hi, below - 1, n);
        let r0 = crate::aspect::min2(below - 1 + lo, n);
        let r1 = crate::aspect::min2(below - 1 + hi, n);
        lemma_best_right(
            d,
            rtf,
            crate::gates::best_left(d, rtf, lo, hi, below - 1),
            below - 1,
            r0,
            r1,
            was,
        );
        let also = |a: int, b: int| was(a, b) || a == below - 1 && r0 <= b < r1;
        assert forall|l: int, r: int| #[trigger] now(l, r) implies strength(d, rtf, l, r)
            <= best.score.signed() by {
            assert(also(l, r));
        }
        if let Some((l, r)) = best.pair {
            assert(also(l, r));
            assert(now(l, r));
        }
    } else {
        crate::near::lemma_sizes();
        crate::near::lemma_ratio(12, 100, 1);
    }
}

/// The mean of a strip is what its pixels add up to, over their number: of the pixels that lie
/// on the plane.
pub proof fn strips_are_measured_by_their_mean(
    p: crate::film::PlaneView,
    x0: int,
    x1: int,
    y0: int,
    y1: int,
)
    requires
        p.wf(),
        crate::film::plain(p.values),
        0 <= x0 < x1 <= p.width,
        0 <= y0 < y1 <= p.height,
        (x1 - x0) * (y1 - y0) <= 0x1_0000,
    ensures
        ({
            let n = (x1 - x0) * (y1 - y0);
            let total = crate::film::block_total(p.values, p.width, 1, 0, x0, x1, y0, y1);
            let m = crate::film::strip_mean_spec(p, x0, x1, y0, y1);
            &&& m.finite()
            &&& -(total * (n + 1) + n * crate::near::one()) <= (m.signed() * n - total) * 0x40_0000
                <= total * (n + 1) + n * crate::near::one()
            &&& crate::film::strip_mean_spec(p, x0, p.width + (x1 - x0), y0, y1)
                == crate::film::strip_mean_spec(p, x0, p.width, y0, y1)
            &&& crate::film::strip_mean_spec(p, x0, x1, y0, p.height + (y1 - y0))
                == crate::film::strip_mean_spec(p, x0, x1, y0, p.height)
        }),
{
    let n = (x1 - x0) * (y1 - y0);
    assert(n >= 1) by (nonlinear_arith)
        requires
            n == (x1 - x0) * (y1 - y0),
            x1 - x0 >= 1,
            y1 - y0 >= 1,
    ;
    assert(p.width * p.height * 1 == p.width * p.height);
    crate::film::lemma_block_near(p.values, p.width, p.height, 1, 0, x0, x1, y0, y1);
    crate::film::lemma_mean_near(
        crate::film::block_sum_spec(
            p.values,
            p.width,
            1,
            0,
            crate::film::Term::Value,
            x0,
            x1,
            y0,
            y1,
        ),
        crate::film::block_total(p.values, p.width, 1, 0, x0, x1, y0, y1),
        n,
    );
}

/// A run of lines, and how it stands to the others.
pub open spec fn is_longest(f: Seq<bool>, r: (int, int)) -> bool {
    forall|k: int|
        0 <= k < crate::runs::runs_spec(f).len() ==> (#[trigger] crate::runs::runs_spec(f)[k]).1
            - crate::runs::runs_spec(f)[k].0 <= r.1 - r.0
}

proof fn lemma_longest(r: Seq<(int, int)>, n: int)
    requires
        1 <= n <= r.len(),
    ensures
        0 <= crate::runs::longest_index(r, n) < n,
        forall|k: int|
            0 <= k < n ==> (#[trigger] r[k]).1 - r[k].0 <= r[crate::runs::longest_index(r, n)].1
                - r[crate::runs::longest_index(r, n)].0,
    decreases n,
{
    if n > 1 {
        lemma_longest(r, n - 1);
    }
}

proof fn lemma_run_at(r: Seq<(int, int)>, line: int, n: int)
    requires
        0 <= n <= r.len(),
    ensures
        match crate::runs::run_at(r, line, n) {
            Some(k) => 0 <= k < n && r[k].0 <= line < r[k].1,
            None => forall|k: int| 0 <= k < n ==> !((#[trigger] r[k]).0 <= line < r[k].1),
        },
    decreases n,
{
    if n > 0 {
        lemma_run_at(r, line, n - 1);
    }
}

/// The run that a frame is taken to span is a run of marked lines. It is the longest one, unless
/// the one across the centre covers twenty-eight percent of the axis: then it is that one.
pub proof fn frames_span_the_central_run_or_the_longest(f: Seq<bool>, center: int)
    requires
        0 < f.len() < 0x10_0000,
        crate::runs::runs_spec(f).len() > 0,
    ensures
        crate::runs::longest_run_spec(f, center) is Some,
        ({
            let r = crate::runs::longest_run_spec(f, center)->0;
            let n = f.len() as int;
            &&& crate::runs::maximal_run(f, r.0, r.1)
            &&& is_longest(f, r) || r.0 <= center < r.1
            &&& r.0 <= center < r.1 && 100 * (r.1 - r.0) <= 27 * n ==> is_longest(f, r)
            &&& forall|k: int|
                0 <= k < crate::runs::runs_spec(f).len() ==> {
                    let s = #[trigger] crate::runs::runs_spec(f)[k];
                    s.0 <= center < s.1 && 100 * (s.1 - s.0) >= 29 * n ==> r.0 <= center < r.1
                }
        }),
{
    let c = crate::near::one();
    let e = crate::near::slip();
    crate::near::lemma_sizes();
    let n = f.len() as int;
    let r = crate::runs::runs_spec(f);
    crate::runs::runs_cover_the_marked_lines(f);
    lemma_longest(r, r.len() as int);
    lemma_run_at(r, center, r.len() as int);
    crate::near::lemma_whole(n as u64);
    crate::near::lemma_ratio(28, 100, 1);
    let t = Single::ratio(28, 100);
    let tv = t.signed();
    assert(0 <= n * c * tv <= n * c * c) by (nonlinear_arith)
        requires
            0 <= tv <= c,
            n > 0,
            c > 0,
    ;
    crate::near::lemma_product(Single::whole(n as u64), t, n);
    let need = Single::whole(n as u64).times(t);
    let nv = need.signed();
    assert(-(n * e) <= nv - n * tv <= n * e) by (nonlinear_arith)
        requires
            -(n * e * c) <= nv * c - n * c * tv <= n * e * c,
            c > 0,
    ;
    assert(-(100 * (n * e)) <= 100 * (n * tv) - 28 * (n * c) <= 100 * (n * e)) by (nonlinear_arith)
        requires
            -(100 * e) <= tv * 100 - 28 * c <= 100 * e,
            n > 0,
    ;
    assert(n * e * 0x80_0000 == n * c && n * e > 0) by (nonlinear_arith)
        requires
            c == e * 0x80_0000,
            n > 0,
            e > 0,
    ;
    assert forall|k: int| 0 <= k < r.len() implies {
        let len = (#[trigger] r[k]).1 - r[k].0;
        let w = Single::whole(len as u64);
        &&& 100 * len >= 29 * n ==> need.at_most(w)
        &&& 100 * len <= 27 * n ==> !need.at_most(w)
    } by {
        let len = r[k].1 - r[k].0;
        assert(crate::runs::maximal_run(f, r[k].0, r[k].1));
        crate::near::lemma_whole(len as u64);
        let w = Single::whole(len as u64);
        crate::single::order_is_by_value(need, w);
        if 100 * len >= 29 * n {
            assert(100 * (len * c) >= 29 * (n * c)) by (nonlinear_arith)
                requires
                    100 * len >= 29 * n,
                    c > 0,
            ;
        }
        if 100 * len <= 27 * n {
            assert(100 * (len * c) <= 27 * (n * c)) by (nonlinear_arith)
                requires
                    100 * len <= 27 * n,
                    c > 0,
            ;
        }
    }
    if let Some(k) = crate::runs::run_at(r, center, r.len() as int) {
        let len = r[k].1 - r[k].0;
        assert(100 * len >= 29 * n ==> need.at_most(Single::whole(len as u64)));
        lemma_one_holds_it(f, center, k);
    }
}

/// No line lies in two runs.
proof fn lemma_one_holds_it(f: Seq<bool>, line: int, k: int)
    requires
        0 <= k < crate::runs::runs_spec(f).len(),
        crate::runs::runs_spec(f)[k].0 <= line < crate::runs::runs_spec(f)[k].1,
    ensures
        forall|j: int|
            0 <= j < crate::runs::runs_spec(f).len() && (#[trigger] crate::runs::runs_spec(f)[j]).0
                <= line < crate::runs::runs_spec(f)[j].1 ==> crate::runs::runs_spec(f)[j]
                == crate::runs::runs_spec(f)[k],
{
    crate::runs::runs_cover_the_marked_lines(f);
    let r = crate::runs::runs_spec(f);
    assert forall|j: int| 0 <= j < r.len() && (#[trigger] r[j]).0 <= line < r[j].1 implies r[j]
        == r[k] by {
        assert(crate::runs::maximal_run(f, r[j].0, r[j].1));
        assert(crate::runs::maximal_run(f, r[k].0, r[k].1));
        let (a, b) = (r[j], r[k]);
        if a.0 < b.0 {
            assert(f[b.0 - 1]);
        }
        if b.0 < a.0 {
            assert(f[a.0 - 1]);
        }
        if a.1 < b.1 {
            assert(f[a.1]);
        }
        if b.1 < a.1 {
            assert(f[b.1]);
        }
    }
}

/// A frame grows over lines as long as they may belong to it, and over no other; it never gives
/// up a line.
pub proof fn frames_grow_line_by_line(
    g: crate::frame::Grower,
    p: crate::film::PlaneView,
    s: int,
    e: int,
    left: int,
)
    requires
        0 <= s <= e,
        0 <= left,
        e <= if g.rows {
            p.height
        } else {
            p.width
        },
    ensures
        ({
            let a = g.front(p, s, left);
            let b = g.back(p, e, left);
            let n = if g.rows {
                p.height
            } else {
                p.width
            };
            &&& 0 <= a <= s <= a + left
            &&& e <= b <= n
            &&& b <= e + left
            &&& forall|i: int| a <= i < s ==> #[trigger] g.keeps(p, i)
            &&& forall|i: int| e <= i < b ==> #[trigger] g.keeps(p, i)
            &&& a == 0 || a == s - left || !g.keeps(p, a - 1)
            &&& b == n || b == e + left || !g.keeps(p, b)
        }),
    decreases left,
{
    let n = if g.rows {
        p.height
    } else {
        p.width
    };
    if left > 0 {
        if s > 0 && g.keeps(p, s - 1) {
            frames_grow_line_by_line(g, p, s - 1, e, left - 1);
        }
        if e < n && g.keeps(p, e) {
            frames_grow_line_by_line(g, p, s, e + 1, left - 1);
        }
    }
}

/// What is peeled off the ends of a bright run lies above the level; the first line that does
/// not stays, and two lines are left at least.
pub proof fn rebate_is_peeled_off(v: Seq<Single>, level: Single, s: int, end: int, left: int)
    requires
        0 <= s,
        s + 2 <= end <= v.len(),
        0 <= left,
    ensures
        ({
            let a = crate::frame::peel_front(v, level, s, end, left);
            let b = crate::frame::peel_back(v, level, s, end, left);
            &&& s <= a <= s + left
            &&& a + 2 <= end
            &&& forall|i: int| s <= i < a ==> level.less(#[trigger] v[i])
            &&& a == s + left || a + 2 == end || !level.less(v[a])
            &&& end - left <= b <= end
            &&& s + 2 <= b
            &&& forall|i: int| b <= i < end ==> level.less(#[trigger] v[i])
            &&& b == end - left || b == s + 2 || !level.less(v[b - 1])
        }),
    decreases left,
{
    if left > 0 {
        if s + 2 < end && level.less(v[s]) {
            rebate_is_peeled_off(v, level, s + 1, end, left - 1);
        }
        if end > s + 2 && level.less(v[end - 1]) {
            rebate_is_peeled_off(v, level, s, end - 1, left - 1);
        }
    }
}

/// A score that is not huge.
pub open spec fn is_score(v: Single) -> bool {
    v.finite() && -(4 * crate::near::one()) <= v.signed() <= 4 * crate::near::one()
}

/// The frame that is picked is one of those that were found. One that grew from a seed and looks
/// complete is kept; another is taken only for a better score.
pub proof fn picked_frames_were_found(
    p: crate::film::PlaneView,
    grown: crate::aspect::Bounds,
    px: Option<crate::aspect::Bounds>,
    gate: Option<crate::aspect::Bounds>,
)
    requires
        is_score(crate::gates::frame_score(p, grown)),
        px matches Some(b) ==> is_score(crate::gates::frame_score(p, b)),
        gate matches Some(b) ==> is_score(crate::gates::frame_score(p, b)),
    ensures
        ({
            let r = crate::gates::picked(p, grown, px, gate);
            let score = |b: crate::aspect::Bounds| crate::gates::frame_score(p, b).signed();
            &&& r == grown || px == Some(r) || gate == Some(r)
            &&& crate::aspect::complete_spec(p.width, p.height, grown) ==> r == grown
            &&& r != grown ==> score(r) > score(grown)
        }),
{
    let c = crate::near::one();
    let e = crate::near::slip();
    crate::near::lemma_sizes();
    crate::near::lemma_ratio(20, 100, 1);
    let step = Single::ratio(20, 100);
    let s = crate::gates::frame_score(p, grown);
    crate::near::lemma_sum(s, step, 5);
    if let Some(b) = px {
        let t = crate::gates::frame_score(p, b);
        crate::single::order_is_by_value(s.plus(step), t);
        crate::near::lemma_sum(t, step, 5);
        if let Some(g) = gate {
            let u = crate::gates::frame_score(p, g);
            crate::single::order_is_by_value(t.plus(step), u);
        }
    }
    if let Some(g) = gate {
        let u = crate::gates::frame_score(p, g);
        crate::single::order_is_by_value(s.plus(step), u);
    }
}

/// How far a neighbour of a pixel differs from it; nothing beyond the edge of the plane.
pub open spec fn step_to(p: crate::film::PlaneView, x: int, y: int, dx: int, dy: int) -> int {
    if 0 <= x + dx < p.width && 0 <= y + dy < p.height {
        crate::single::size(p.at(x + dx, y + dy).signed() - p.at(x, y).signed())
    } else {
        0
    }
}

/// One where a pixel has a neighbour there.
pub open spec fn stands_at(p: crate::film::PlaneView, x: int, y: int, dx: int, dy: int) -> int {
    if 0 <= x + dx < p.width && 0 <= y + dy < p.height {
        1
    } else {
        0
    }
}

/// Steps to the first `k` of the places around a pixel, row by row.
pub open spec fn steps_around(p: crate::film::PlaneView, x: int, y: int, k: int) -> int
    decreases k,
{
    if k <= 0 {
        0
    } else {
        steps_around(p, x, y, k - 1) + step_to(p, x, y, (k - 1) % 3 - 1, (k - 1) / 3 - 1)
    }
}

/// Neighbours among the first `k` of the places around a pixel; a pixel is none of its own.
pub open spec fn count_around(p: crate::film::PlaneView, x: int, y: int, k: int) -> int
    decreases k,
{
    if k <= 0 {
        0
    } else if k == 5 {
        count_around(p, x, y, 4)
    } else {
        count_around(p, x, y, k - 1) + stands_at(p, x, y, (k - 1) % 3 - 1, (k - 1) / 3 - 1)
    }
}

proof fn lemma_texture_sum(p: crate::film::PlaneView, x: int, y: int, k: int)
    requires
        p.wf(),
        crate::film::plain(p.values),
        0 <= x < p.width,
        0 <= y < p.height,
        0 <= k <= 9,
    ensures
        ({
            let s = crate::film::texture_sum(p, x, y, k);
            let e = crate::near::slip();
            &&& s.finite()
            &&& 0 <= steps_around(p, x, y, k) <= k * (1_000 * crate::near::one())
            &&& -(k * (11_000 * e)) <= s.signed() - steps_around(p, x, y, k) <= k * (11_000 * e)
            &&& count_around(p, x, y, k) == crate::film::neighbours(p.width, p.height, x, y, k)
            &&& 0 <= count_around(p, x, y, k) <= k
        }),
    decreases k,
{
    let c = crate::near::one();
    let e = crate::near::slip();
    crate::near::lemma_sizes();
    crate::near::lemma_whole(0);
    if k > 0 {
        lemma_texture_sum(p, x, y, k - 1);
        let (dx, dy) = ((k - 1) % 3 - 1, (k - 1) / 3 - 1);
        let s = crate::film::texture_sum(p, x, y, k - 1);
        assert((k - 1) * (1_000 * c) == k * (1_000 * c) - 1_000 * c && (k - 1) * (11_000 * e) == k * (
        11_000 * e) - 11_000 * e) by (nonlinear_arith);
        lemma_on_plane(p, x, y);
        let b = p.at(x, y);
        if k == 5 {
            assert(dx == 0 && dy == 0);
        } else if crate::film::neighbour(p.width, p.height, x, y, k - 1) {
            lemma_on_plane(p, x + dx, y + dy);
            let a = p.at(x + dx, y + dy);
            crate::near::lemma_difference(a, b, 1_000);
            let d = a.minus(b);
            crate::near::lemma_size(d);
            assert(k * (1_000 * c) <= 9_000 * c && k * (11_000 * e) <= 99_000 * e)
                by (nonlinear_arith)
                requires
                    k <= 9,
                    c > 0,
                    e > 0,
            ;
            crate::near::lemma_sum(s, d.abs(), 9_100);
        }
    }
}

proof fn lemma_on_plane(p: crate::film::PlaneView, x: int, y: int)
    requires
        p.wf(),
        crate::film::plain(p.values),
        0 <= x < p.width,
        0 <= y < p.height,
    ensures
        p.at(x, y).finite(),
        0 <= p.at(x, y).signed() <= 1_000 * crate::near::one(),
{
    let i = y * p.width + x;
    assert(0 <= i < p.width * p.height) by (nonlinear_arith)
        requires
            i == y * p.width + x,
            0 <= x < p.width,
            0 <= y < p.height,
    ;
    assert(p.values[i].finite());
}

/// The texture of a pixel is the mean of its steps to all its neighbours, eight in the middle of
/// a plane and fewer at its edges.
pub proof fn texture_is_the_mean_step(p: crate::film::PlaneView, x: int, y: int)
    requires
        p.wf(),
        crate::film::plain(p.values),
        0 <= x < p.width,
        0 <= y < p.height,
    ensures
        ({
            let t = crate::film::texture_at(p, x, y);
            let n = stands_at(p, x, y, -1, -1) + stands_at(p, x, y, 0, -1) + stands_at(
                p,
                x,
                y,
                1,
                -1,
            ) + stands_at(p, x, y, -1, 0) + stands_at(p, x, y, 1, 0) + stands_at(p, x, y, -1, 1)
                + stands_at(p, x, y, 0, 1) + stands_at(p, x, y, 1, 1);
            let steps = step_to(p, x, y, -1, -1) + step_to(p, x, y, 0, -1) + step_to(p, x, y, 1, -1)
                + step_to(p, x, y, -1, 0) + step_to(p, x, y, 1, 0) + step_to(p, x, y, -1, 1)
                + step_to(p, x, y, 0, 1) + step_to(p, x, y, 1, 1);
            &&& t.finite()
            &&& n > 0 ==> -crate::near::one() <= 40 * (t.signed() * n - steps) <= crate::near::one()
            &&& n == 0 ==> t.signed() == 0
        }),
{
    let c = crate::near::one();
    let e = crate::near::slip();
    crate::near::lemma_sizes();
    crate::near::lemma_whole(0);
    lemma_texture_sum(p, x, y, 9);
    reveal_with_fuel(steps_around, 10);
    reveal_with_fuel(count_around, 10);
    let n = count_around(p, x, y, 9);
    assert(step_to(p, x, y, 0, 0) == 0);
    if n > 0 {
        crate::near::lemma_whole(n as u64);
        let s = crate::film::texture_sum(p, x, y, 9);
        let sv = s.signed();
        let d = Single::whole(n as u64);
        assert(c <= n * c <= 9 * c) by (nonlinear_arith)
            requires
                1 <= n <= 9,
                c > 0,
        ;
        crate::near::lemma_quotient(s, d, 9_001);
        let t = crate::film::texture_at(p, x, y).signed();
        assert(-(81_009 * e) <= t * n - sv <= 81_009 * e) by (nonlinear_arith)
            requires
                -(9_001 * e * (n * c)) <= t * (n * c) - sv * c <= 9_001 * e * (n * c),
                1 <= n <= 9,
                c > 0,
                e > 0,
        ;
    }
}

} // verus!
