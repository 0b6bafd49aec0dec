//! Frame edges by their steps in brightness, and the choice between candidate frames.

use vstd::prelude::*;
use crate::aspect::Bounds;
use crate::film::{Plane, PlaneView};
use crate::single::Single;
use crate::surround::Polarity;

verus! {

/// A profile averaged over two neighbours on each side.
pub open spec fn smoothed(v: Seq<Single>) -> Seq<Single> {
    Seq::new(
        v.len(),
        |i: int|
            {
                let a = crate::aspect::max2(i - 2, 0);
                let b = crate::aspect::min2(i + 3, v.len() as int);
                crate::surround::total_spec(v.subrange(a, b)).over(Single::whole((b - a) as u64))
            },
    )
}

pub fn smooth_profile(v: &Vec<Single>) -> (r: Vec<Single>)
    ensures
        r@ == smoothed(v@),
{
    let n: usize = v.len();
    let mut out: Vec<Single> = Vec::with_capacity(n);
    let mut i: usize = 0;
    while i < n
        invariant
            n == v.len(),
            i <= n,
            out@ == smoothed(v@).take(i as int),
        decreases n - i,
    {
        let a: usize = if i >= 2 {
            i - 2
        } else {
            0
        };
        let b: usize = if n - i >= 3 {
            i + 3
        } else {
            n
        };
        let mut part: Vec<Single> = Vec::new();
        let mut k: usize = a;
        while k < b
            invariant
                a <= k <= b <= v.len(),
                part@ == v@.subrange(a as int, k as int),
            decreases b - k,
        {
            part.push(v[k]);
            assert(part@ =~= v@.subrange(a as int, k + 1));
            k = k + 1;
        }
        out.push(crate::surround::total(&part).over(Single::whole((b - a) as u64)));
        assert(out@ =~= smoothed(v@).take(i + 1));
        i = i + 1;
    }
    assert(out@ =~= smoothed(v@));
    out
}

/// Rise of the smoothed profile over four lines; zero at the end of it.
pub open spec fn slopes(v: Seq<Single>) -> Seq<Single> {
    let sm = smoothed(v);
    Seq::new(
        v.len(),
        |i: int|
            if i + 4 < v.len() {
                sm[i + 4].minus(sm[i])
            } else {
                Single::whole(0)
            },
    )
}

/// Strength of the pair of edges at lines `l` and `r`: a rise then a fall, or the reverse.
pub open spec fn pair_score(d: Seq<Single>, l: int, r: int, rise_then_fall: bool) -> Single {
    let z = Single::whole(0);
    let a = d[l];
    let b = d[if r >= 4 { r - 4 } else { 0 }];
    if rise_then_fall {
        a.larger(z).plus(b.neg().larger(z))
    } else {
        a.neg().larger(z).plus(b.larger(z))
    }
}

/// The strongest pair so far and its strength; weaker ones than 0.12 do not count.
pub struct BestPair {
    pub pair: Option<(int, int)>,
    pub score: Single,
}

pub open spec fn first_pair() -> BestPair {
    BestPair { pair: None, score: Single::ratio(12, 100) }
}

/// The better of the best pair so far and the pair (`l`, `r`).
pub open spec fn better_pair(d: Seq<Single>, rtf: bool, best: BestPair, l: int, r: int) -> BestPair {
    let s = pair_score(d, l, r, rtf);
    if best.score.less(s) {
        BestPair { pair: Some((l, r)), score: s }
    } else {
        best
    }
}

/// The best pair after right edges `r0..r` of left edge `l`.
pub open spec fn best_right(
    d: Seq<Single>,
    rtf: bool,
    best: BestPair,
    l: int,
    r0: int,
    r: int,
) -> BestPair
    decreases r - r0,
{
    if r <= r0 {
        best
    } else {
        better_pair(d, rtf, best_right(d, rtf, best, l, r0, r - 1), l, r - 1)
    }
}

/// The best pair after left edges below `l`; a right edge lies `lo` to `hi` lines further on.
pub open spec fn best_left(d: Seq<Single>, rtf: bool, lo: int, hi: int, l: int) -> BestPair
    decreases l,
{
    if l <= 0 {
        first_pair()
    } else {
        let n = d.len() as int;
        best_right(
            d,
            rtf,
            best_left(d, rtf, lo, hi, l - 1),
            l - 1,
            crate::aspect::min2(l - 1 + lo, n),
            crate::aspect::min2(l - 1 + hi, n),
        )
    }
}

/// A share of `n` lines, rounded.
pub open spec fn span_lines(n: int, hundredths: u32) -> int {
    Single::whole(n as u64).times(Single::ratio(hundredths, 100)).rounded().to_int(
        usize::MAX as u64,
    ) as int
}

/// Strongest opposite edges whose distance looks like a still frame.
pub open spec fn gate_pair_spec(
    v: Seq<Single>,
    min_span: u32,
    max_span: u32,
    rtf: bool,
) -> Option<(int, int)> {
    let n = v.len() as int;
    if n < 24 {
        None
    } else {
        let lo = crate::aspect::max2(span_lines(n, min_span), 8);
        let hi = crate::aspect::min2(span_lines(n, max_span), n - 1);
        best_left(slopes(v), rtf, lo, hi, n / 2).pair
    }
}

fn slopes_of(v: &Vec<Single>) -> (r: Vec<Single>)
    requires
        v.len() >= 24,
    ensures
        r@ == slopes(v@),
{
    let sm = smooth_profile(v);
    let n: usize = v.len();
    let mut out: Vec<Single> = Vec::with_capacity(n);
    let mut i: usize = 0;
    while i < n
        invariant
            n == v.len(),
            n >= 24,
            sm@ == smoothed(v@),
            i <= n,
            out@ == slopes(v@).take(i as int),
        decreases n - i,
    {
        if i < n - 4 {
            out.push(sm[i + 4].minus(sm[i]));
        } else {
            out.push(Single::whole(0));
        }
        assert(out@ =~= slopes(v@).take(i + 1));
        i = i + 1;
    }
    assert(out@ =~= slopes(v@));
    out
}

fn score_pair(d: &Vec<Single>, l: usize, r: usize, rtf: bool) -> (s: Single)
    requires
        l < d.len(),
        r < d.len(),
    ensures
        s == pair_score(d@, l as int, r as int, rtf),
{
    let z = Single::whole(0);
    let a = d[l];
    let b = d[if r >= 4 { r - 4 } else { 0 }];
    if rtf {
        a.larger(z).plus(b.neg().larger(z))
    } else {
        a.neg().larger(z).plus(b.larger(z))
    }
}

/// Sum, no more than `cap`.
fn capped_sum(a: usize, b: usize, cap: usize) -> (r: usize)
    ensures
        r == crate::aspect::min2(a + b, cap as int),
{
    if a <= cap && b <= cap - a {
        a + b
    } else {
        cap
    }
}

fn lines_of_span(n: usize, hundredths: u32) -> (r: usize)
    requires
        hundredths < 100,
    ensures
        r == span_lines(n as int, hundredths),
{
    let v = Single::whole(n as u64).times(Single::ratio(hundredths, 100)).rounded();
    proof {
        crate::single::lemma_to_int_bound(v, usize::MAX as u64);
    }
    v.to_int(usize::MAX as u64) as usize
}

/// Whether the machine's best pair is the best pair.
spec fn holds_best(best: Option<(usize, usize)>, score: Single, b: BestPair) -> bool {
    &&& score == b.score
    &&& match best {
        Some(p) => b.pair == Some((p.0 as int, p.1 as int)),
        None => b.pair is None,
    }
}

pub fn best_gate_pair(v: &Vec<Single>, min_span: u32, max_span: u32, rtf: bool) -> (r: Option<
    (usize, usize),
>)
    requires
        min_span < 100,
        max_span < 100,
    ensures
        match r {
            Some(p) => gate_pair_spec(v@, min_span, max_span, rtf) == Some(
                (p.0 as int, p.1 as int),
            ) && p.0 < p.1 < v.len(),
            None => gate_pair_spec(v@, min_span, max_span, rtf) is None,
        },
{
    let n: usize = v.len();
    if n < 24 {
        return None;
    }
    let d = slopes_of(v);
    let share_lo: usize = lines_of_span(n, min_span);
    let share_hi: usize = lines_of_span(n, max_span);
    let lo: usize = if share_lo >= 8 {
        share_lo
    } else {
        8
    };
    let hi: usize = if share_hi <= n - 1 {
        share_hi
    } else {
        n - 1
    };
    let mut best: Option<(usize, usize)> = None;
    let mut score = Single::ratio(12, 100);
    let mut l: usize = 0;
    while l < n / 2
        invariant
            n == v.len(),
            d@ == slopes(v@),
            d.len() == n,
            lo >= 8,
            l <= n / 2,
            holds_best(best, score, best_left(d@, rtf, lo as int, hi as int, l as int)),
            best matches Some(p) ==> p.0 < p.1 < n,
        decreases n / 2 - l,
    {
        let r0: usize = capped_sum(l, lo, n);
        let r1: usize = capped_sum(l, hi, n);
        let ghost start = best_left(d@, rtf, lo as int, hi as int, l as int);
        let mut r: usize = r0;
        while r < r1
            invariant
                n == v.len(),
                d@ == slopes(v@),
                d.len() == n,
                lo >= 8,
                l < n / 2,
                r0 == crate::aspect::min2(l + lo, n as int),
                r0 <= r,
                r0 <= r1 ==> r <= r1,
                r1 <= n,
                r0 > r1 ==> r == r0,
                holds_best(
                    best,
                    score,
                    best_right(d@, rtf, start, l as int, r0 as int, r as int),
                ),
                best matches Some(p) ==> p.0 < p.1 < n,
            decreases r1 - r,
        {
            let s = score_pair(&d, l, r, rtf);
            if score.less(s) {
                score = s;
                best = Some((l, r));
            }
            r = r + 1;
        }
        l = l + 1;
    }
    best
}

/// Frame bounds by the strongest edges of both axes.
pub open spec fn gate_bounds_spec(p: PlaneView, polarity: Polarity) -> Option<Bounds> {
    let rtf = polarity != Polarity::SurroundBrighter;
    let half = Single::ratio(50, 100);
    match (
        gate_pair_spec(crate::frame::profile_spec(p, false, half), 52, 86, rtf),
        gate_pair_spec(crate::frame::profile_spec(p, true, half), 45, 92, rtf),
    ) {
        (Some(cols), Some(rows)) => Some(crate::frame::spans(cols, rows)),
        _ => None,
    }
}

pub fn bounds_from_gate_edges(p: &Plane, polarity: Polarity) -> (r: Option<Bounds>)
    requires
        p.wf(),
    ensures
        r == gate_bounds_spec(p@, polarity),
        r matches Some(b) ==> !b.is_empty() && b.within(p.width as int, p.height as int),
{
    let half = Single::ratio(50, 100);
    let rtf = polarity != Polarity::SurroundBrighter;
    let cols = crate::frame::axis_percentile(p, false, half);
    let rows = crate::frame::axis_percentile(p, true, half);
    let (left, right) = match best_gate_pair(&cols, 52, 86, rtf) {
        Some(found) => found,
        None => {
            return None;
        },
    };
    let (top, bottom) = match best_gate_pair(&rows, 45, 92, rtf) {
        Some(found) => found,
        None => {
            return None;
        },
    };
    Some(Bounds { left, right, top, bottom })
}

/// Means inside and outside an edge differ clearly.
pub open spec fn strong(p: PlaneView, inside: (int, int, int, int), outside: (int, int, int, int)) -> bool {
    Single::ratio(6, 100).less(
        crate::film::strip_mean_spec(p, inside.0, inside.1, inside.2, inside.3).minus(
            crate::film::strip_mean_spec(p, outside.0, outside.1, outside.2, outside.3),
        ).abs(),
    )
}

/// Number of sides of the bounds at which the plane steps, over six pixels on either side.
pub open spec fn side_gates(p: PlaneView, b: Bounds) -> int {
    let w = p.width as int;
    let h = p.height as int;
    let l = b.left as int;
    let r = b.right as int;
    let t = b.top as int;
    let o = b.bottom as int;
    (if l >= 6 && strong(
        p,
        (l, crate::aspect::min2(l + 6, r), t, o),
        (l - 6, l, t, o),
    ) {
        1int
    } else {
        0
    }) + (if r + 6 <= w && strong(
        p,
        (crate::aspect::max2(crate::aspect::max2(r - 6, 0), l), r, t, o),
        (r, r + 6, t, o),
    ) {
        1int
    } else {
        0
    }) + (if t >= 6 && strong(
        p,
        (l, r, t, crate::aspect::min2(t + 6, o)),
        (l, r, t - 6, t),
    ) {
        1int
    } else {
        0
    }) + (if o + 6 <= h && strong(
        p,
        (l, r, crate::aspect::max2(crate::aspect::max2(o - 6, 0), t), o),
        (l, r, o, o + 6),
    ) {
        1int
    } else {
        0
    })
}

fn steps(
    p: &Plane,
    i: (usize, usize, usize, usize),
    o: (usize, usize, usize, usize),
) -> (r: bool)
    requires
        p.wf(),
    ensures
        r == strong(
            p@,
            (i.0 as int, i.1 as int, i.2 as int, i.3 as int),
            (o.0 as int, o.1 as int, o.2 as int, o.3 as int),
        ),
{
    Single::ratio(6, 100).less(
        crate::film::strip_mean(p, i.0, i.1, i.2, i.3).minus(
            crate::film::strip_mean(p, o.0, o.1, o.2, o.3),
        ).abs(),
    )
}

fn later(a: usize, b: usize) -> (r: usize)
    ensures
        r == crate::aspect::max2(a as int, b as int),
{
    if a >= b {
        a
    } else {
        b
    }
}

pub fn count_side_gates(p: &Plane, b: Bounds) -> (r: u64)
    requires
        p.wf(),
        b.within(p.width as int, p.height as int),
    ensures
        r == side_gates(p@, b),
        r <= 4,
{
    let w: usize = p.width;
    let h: usize = p.height;
    let (l, r, t, o) = (b.left, b.right, b.top, b.bottom);
    let mut n: u64 = 0;
    if l >= 6 && steps(p, (l, capped_sum(l, 6, r), t, o), (l - 6, l, t, o)) {
        n = n + 1;
    }
    if w - r >= 6 && steps(
        p,
        (later(r.saturating_sub(6), l), r, t, o),
        (r, r + 6, t, o),
    ) {
        n = n + 1;
    }
    if t >= 6 && steps(p, (l, r, t, capped_sum(t, 6, o)), (l, r, t - 6, t)) {
        n = n + 1;
    }
    if h - o >= 6 && steps(
        p,
        (l, r, later(o.saturating_sub(6), t), o),
        (l, r, o, o + 6),
    ) {
        n = n + 1;
    }
    n
}

/// Share of the frame that the bounds cover.
pub open spec fn area_share(p: PlaneView, b: Bounds) -> Single {
    Single::whole(((b.right - b.left) * (b.bottom - b.top)) as u64).over(
        Single::whole((p.width * p.height) as u64),
    )
}

/// How much bounds look like a frame: steps at its sides, a usual aspect and its size.
pub open spec fn frame_score(p: PlaneView, b: Bounds) -> Single {
    let area = area_share(p, b);
    let rw = Single::whole(crate::aspect::at_least_one(b.right - b.left));
    let rh = Single::whole(crate::aspect::at_least_one(b.bottom - b.top));
    if area.less(Single::ratio(22, 100)) || Single::ratio(92, 100).less(area) {
        Single::whole(1).neg()
    } else {
        Single::ratio(35, 100).times(Single::whole(side_gates(p, b) as u64)).plus(
            Single::whole(1).minus(crate::aspect::usual_error(rw.over(rh))).larger(
                Single::whole(0),
            ),
        ).plus(area.smaller(Single::ratio(72, 100)))
    }
}

fn share_of_area(p: &Plane, b: Bounds) -> (r: Single)
    requires
        p.wf(),
        b.within(p.width as int, p.height as int),
    ensures
        r == area_share(p@, b),
{
    proof {
        crate::film::lemma_area(
            b.right - b.left,
            b.bottom - b.top,
            p.width as int,
            p.height as int,
        );
        assert(p.values.len() == p.width * p.height);
    }
    Single::whole(((b.right - b.left) * (b.bottom - b.top)) as u64).over(
        Single::whole((p.width * p.height) as u64),
    )
}

fn score_frame(p: &Plane, b: Bounds) -> (r: Single)
    requires
        p.wf(),
        b.within(p.width as int, p.height as int),
    ensures
        r == frame_score(p@, b),
{
    let area = share_of_area(p, b);
    if area.less(Single::ratio(22, 100)) || Single::ratio(92, 100).less(area) {
        return Single::whole(1).neg();
    }
    let rw: usize = b.right - b.left;
    let rh: usize = b.bottom - b.top;
    let ratio = Single::whole(if rw < 1 { 1 } else { rw as u64 }).over(
        Single::whole(if rh < 1 { 1 } else { rh as u64 }),
    );
    let gates = Single::whole(count_side_gates(p, b));
    Single::ratio(35, 100).times(gates).plus(
        Single::whole(1).minus(crate::aspect::error_of_usual(ratio)).larger(Single::whole(0)),
    ).plus(area.smaller(Single::ratio(72, 100)))
}

/// The frame among the candidates. A grown seed that looks complete is taken; another candidate
/// must score 0.2 more, and gate edges count only where the seed covers less than 30 percent.
pub open spec fn picked(p: PlaneView, grown: Bounds, px: Option<Bounds>, gate: Option<Bounds>) -> Bounds {
    let w = p.width as int;
    let h = p.height as int;
    let step = Single::ratio(20, 100);
    if crate::aspect::complete_spec(w, h, grown) {
        grown
    } else {
        let by_px = px matches Some(b) && frame_score(p, grown).plus(step).less(frame_score(p, b));
        let best = if by_px {
            px->0
        } else {
            grown
        };
        let best_score = frame_score(p, best);
        if area_share(p, grown).less(Single::ratio(30, 100)) && (gate matches Some(g)
            && crate::aspect::complete_spec(w, h, g) && best_score.plus(step).less(
            frame_score(p, g),
        )) {
            gate->0
        } else {
            best
        }
    }
}

pub fn pick_bounds(
    p: &Plane,
    grown: Bounds,
    px: Option<Bounds>,
    gate: Option<Bounds>,
) -> (r: Bounds)
    requires
        crate::surround::sizable(p@),
        grown.within(p.width as int, p.height as int),
        px matches Some(b) ==> b.within(p.width as int, p.height as int),
        gate matches Some(b) ==> b.within(p.width as int, p.height as int),
    ensures
        r == picked(p@, grown, px, gate),
        r.within(p.width as int, p.height as int),
{
    let w: usize = p.width;
    let h: usize = p.height;
    assert(p.values.len() == w * h);
    if crate::aspect::seed_looks_complete(w, h, grown) {
        return grown;
    }
    let step = Single::ratio(20, 100);
    let mut best = grown;
    let mut best_score = score_frame(p, grown);
    if let Some(b) = px {
        let s = score_frame(p, b);
        if best_score.plus(step).less(s) {
            best_score = s;
            best = b;
        }
    }
    if share_of_area(p, grown).less(Single::ratio(30, 100)) {
        if let Some(g) = gate {
            let s = score_frame(p, g);
            if crate::aspect::seed_looks_complete(w, h, g) && best_score.plus(step).less(s) {
                best = g;
            }
        }
    }
    best
}

} // verus!
