//! What surrounds the picture on a scan: holder, lightbox, rebate.

use vstd::prelude::*;
use vstd::arithmetic::div_mod::*;
use crate::film::{Plane, PlaneView};
use crate::options::Rect;
use crate::single::Single;

verus! {

/// What the outer perimeter looks like (majority vote of the four sides).
#[derive(Debug, Clone, Copy, PartialEq, Eq, Structural)]
pub enum SurroundClass {
    DarkHolder,
    BrightLight,
    FilmRebate,
    Mixed,
}

/// Which is brighter, the film or what lies around it.
#[derive(Debug, Clone, Copy, PartialEq, Eq, Structural)]
pub enum Polarity {
    /// Dark holder or mask; the film rectangle is brighter.
    FilmBrighter,
    /// Open lightbox; the surround is brighter than the film.
    SurroundBrighter,
    Unclear,
}

/// A part of the frame.
#[derive(Debug, Clone, Copy, PartialEq, Eq, Structural)]
pub enum Zone {
    All,
    /// A band along the edges, `bw` columns and `bh` rows thick.
    Edge { bw: usize, bh: usize },
    /// The middle half of the columns and of the rows.
    Middle,
    /// The middle, less what lies in the band along the edges.
    MiddleOffEdge { bw: usize, bh: usize },
}

pub open spec fn on_edge(w: int, h: int, bw: int, bh: int, x: int, y: int) -> bool {
    x < bw || x >= w - bw || y < bh || y >= h - bh
}

pub open spec fn in_middle(w: int, h: int, x: int, y: int) -> bool {
    x >= w / 4 && x < 3 * w / 4 && y >= h / 4 && y < 3 * h / 4
}

impl Zone {
    pub open spec fn holds(self, w: int, h: int, x: int, y: int) -> bool {
        match self {
            Zone::All => true,
            Zone::Edge { bw, bh } => on_edge(w, h, bw as int, bh as int, x, y),
            Zone::Middle => in_middle(w, h, x, y),
            Zone::MiddleOffEdge { bw, bh } => !on_edge(w, h, bw as int, bh as int, x, y)
                && in_middle(w, h, x, y),
        }
    }

    /// The band is no thicker than the frame.
    pub open spec fn fits(self, w: int, h: int) -> bool {
        match self {
            Zone::Edge { bw, bh } => bw <= w && bh <= h,
            Zone::MiddleOffEdge { bw, bh } => bw <= w && bh <= h,
            _ => true,
        }
    }

    fn contains(self, w: usize, h: usize, x: usize, y: usize) -> (r: bool)
        requires
            self.fits(w as int, h as int),
            3 * w <= usize::MAX,
            3 * h <= usize::MAX,
        ensures
            r == self.holds(w as int, h as int, x as int, y as int),
    {
        match self {
            Zone::All => true,
            Zone::Edge { bw, bh } => x < bw || x >= w - bw || y < bh || y >= h - bh,
            Zone::Middle => x >= w / 4 && x < 3 * w / 4 && y >= h / 4 && y < 3 * h / 4,
            Zone::MiddleOffEdge { bw, bh } => !(x < bw || x >= w - bw || y < bh || y >= h - bh) && x
                >= w / 4 && x < 3 * w / 4 && y >= h / 4 && y < 3 * h / 4,
        }
    }
}

/// Which values of a zone are taken.
#[derive(Debug, Clone, Copy, PartialEq, Eq, Structural)]
pub enum Pick {
    Any,
    AtLeast(Single),
    /// Strictly between two levels.
    Between(Single, Single),
}

impl Pick {
    pub open spec fn takes_spec(self, v: Single) -> bool {
        match self {
            Pick::Any => true,
            Pick::AtLeast(c) => c.at_most(v),
            Pick::Between(a, b) => a.less(v) && v.less(b),
        }
    }

    #[verifier::when_used_as_spec(takes_spec)]
    pub fn takes(self, v: Single) -> (r: bool)
        ensures
            r == self.takes_spec(v),
    {
        match self {
            Pick::Any => true,
            Pick::AtLeast(c) => c.at_most(v),
            Pick::Between(a, b) => a.less(v) && v.less(b),
        }
    }
}

/// The values of the first `n` pixels that lie in a zone and are picked, in order.
pub open spec fn collected(p: PlaneView, zone: Zone, pick: Pick, n: int) -> Seq<Single>
    decreases n,
{
    if n <= 0 {
        Seq::empty()
    } else {
        let i = n - 1;
        let w = p.width as int;
        let rest = collected(p, zone, pick, i);
        if zone.holds(w, p.height as int, i % w, i / w) && pick.takes(p.values[i]) {
            rest.push(p.values[i])
        } else {
            rest
        }
    }
}

/// All values of a zone that are picked.
pub open spec fn all_in(p: PlaneView, zone: Zone, pick: Pick) -> Seq<Single> {
    collected(p, zone, pick, p.values.len() as int)
}

pub fn collect(p: &Plane, zone: Zone, pick: Pick) -> (r: Vec<Single>)
    requires
        p.wf(),
        zone.fits(p.width as int, p.height as int),
        3 * p.width <= usize::MAX,
        3 * p.height <= usize::MAX,
    ensures
        r@ == all_in(p@, zone, pick),
        r.len() <= p.values.len(),
{
    let n: usize = p.values.len();
    let mut out: Vec<Single> = Vec::new();
    let mut i: usize = 0;
    while i < n
        invariant
            p.wf(),
            zone.fits(p.width as int, p.height as int),
            3 * p.width <= usize::MAX,
            3 * p.height <= usize::MAX,
            n == p.values.len(),
            i <= n,
            out.len() <= i,
            out@ == collected(p@, zone, pick, i as int),
        decreases n - i,
    {
        proof {
            if p.width == 0 {
                assert(0 * p.height == 0);
            }
        }
        let v = p.values[i];
        if zone.contains(p.width, p.height, i % p.width, i / p.width) && pick.takes(v) {
            out.push(v);
        }
        i = i + 1;
    }
    out
}

/// Values added up in order.
pub open spec fn total_spec(v: Seq<Single>) -> Single
    decreases v.len(),
{
    if v.len() == 0 {
        Single::whole(0)
    } else {
        total_spec(v.drop_last()).plus(v.last())
    }
}

pub fn total(v: &Vec<Single>) -> (r: Single)
    ensures
        r == total_spec(v@),
{
    let mut acc = Single::whole(0);
    let mut i: usize = 0;
    assert(v@.take(0) =~= Seq::<Single>::empty());
    while i < v.len()
        invariant
            i <= v.len(),
            acc == total_spec(v@.take(i as int)),
        decreases v.len() - i,
    {
        acc = acc.plus(v[i]);
        assert(v@.take(i + 1).drop_last() =~= v@.take(i as int));
        i = i + 1;
    }
    assert(v@.take(v.len() as int) =~= v@);
    acc
}

/// Mean of some values, or zero where there are none.
pub open spec fn mean_spec(v: Seq<Single>) -> Single {
    if v.len() == 0 {
        Single::whole(0)
    } else {
        total_spec(v).over(crate::film::counted_spec(v.len() as int))
    }
}

pub fn mean(v: &Vec<Single>) -> (r: Single)
    ensures
        r == mean_spec(v@),
{
    if v.len() == 0 {
        Single::whole(0)
    } else {
        total(v).over(crate::film::counted(v.len()))
    }
}

/// Some hundredths of a side, kept between 2 and a part of it.
pub open spec fn band_spec(side: int, hundredths: u32, part: int) -> int {
    let v = Single::whole(side as u64).times(Single::ratio(hundredths, 100)).to_int(u64::MAX);
    if v < 2 {
        2
    } else if v > side / part {
        side / part
    } else {
        v as int
    }
}

fn band(side: usize, hundredths: u32, part: usize) -> (r: usize)
    requires
        part > 0,
        side / part >= 2,
        hundredths < 100,
    ensures
        r == band_spec(side as int, hundredths, part as int),
        2 <= r <= side,
{
    proof {
        lemma_div_nonincreasing(side as int, part as int);
    }
    let v: u64 = Single::whole(side as u64).times(Single::ratio(hundredths, 100)).to_int(u64::MAX);
    if v < 2 {
        2
    } else if v > (side / part) as u64 {
        side / part
    } else {
        v as usize
    }
}

/// Mean of the outer band and mean of the middle.
pub open spec fn outer_inner_spec(p: PlaneView) -> (Single, Single) {
    let bw = band_spec(p.width as int, 6, 8) as usize;
    let bh = band_spec(p.height as int, 6, 8) as usize;
    (
        mean_spec(all_in(p, Zone::Edge { bw, bh }, Pick::Any)),
        mean_spec(all_in(p, Zone::MiddleOffEdge { bw, bh }, Pick::Any)),
    )
}

/// A plane that is large enough to be told apart into edge and middle.
pub open spec fn sizable(p: PlaneView) -> bool {
    &&& p.wf()
    &&& p.width >= 16
    &&& p.height >= 16
}

proof fn lemma_sizable(p: Plane)
    requires
        sizable(p@),
    ensures
        3 * p.width <= usize::MAX,
        3 * p.height <= usize::MAX,
{
    assert(p.width * p.height >= 16 * p.width && p.width * p.height >= 16 * p.height)
        by (nonlinear_arith)
        requires
            p.width >= 16,
            p.height >= 16,
    ;
    assert(p.values.len() == p.width * p.height);
}

pub fn outer_inner_means(p: &Plane) -> (r: (Single, Single))
    requires
        sizable(p@),
    ensures
        r == outer_inner_spec(p@),
{
    proof {
        lemma_sizable(*p);
    }
    let bw: usize = band(p.width, 6, 8);
    let bh: usize = band(p.height, 6, 8);
    (
        mean(&collect(p, Zone::Edge { bw, bh }, Pick::Any)),
        mean(&collect(p, Zone::MiddleOffEdge { bw, bh }, Pick::Any)),
    )
}

pub open spec fn polarity_spec(p: PlaneView) -> Polarity {
    let (outer, inner) = outer_inner_spec(p);
    if outer.times(Single::ratio(118, 100)).less(inner) && Single::ratio(8, 100).less(
        inner.minus(outer),
    ) {
        Polarity::FilmBrighter
    } else if inner.times(Single::ratio(112, 100)).less(outer) && Single::ratio(8, 100).less(
        outer.minus(inner),
    ) {
        Polarity::SurroundBrighter
    } else {
        Polarity::Unclear
    }
}

pub fn detect_polarity(p: &Plane) -> (r: Polarity)
    requires
        sizable(p@),
    ensures
        r == polarity_spec(p@),
{
    let (outer, inner) = outer_inner_means(p);
    let gap = Single::ratio(8, 100);
    if outer.times(Single::ratio(118, 100)).less(inner) && gap.less(inner.minus(outer)) {
        Polarity::FilmBrighter
    } else if inner.times(Single::ratio(112, 100)).less(outer) && gap.less(outer.minus(inner)) {
        Polarity::SurroundBrighter
    } else {
        Polarity::Unclear
    }
}

/// A hundredth part of a count, cut to a whole number.
pub open spec fn share_spec(n: int, hundredths: u32) -> u64 {
    Single::whole(n as u64).times(Single::ratio(hundredths, 100)).to_int(u64::MAX)
}

fn share(n: usize, hundredths: u32) -> (r: u64)
    requires
        hundredths < 100,
    ensures
        r == share_spec(n as int, hundredths),
{
    Single::whole(n as u64).times(Single::ratio(hundredths, 100)).to_int(u64::MAX)
}

/// `part` of `all` as a fraction; zero of none.
pub open spec fn fraction_spec(part: int, all: int) -> Single {
    if all == 0 {
        Single::whole(0)
    } else {
        Single::whole(part as u64).over(Single::whole(all as u64))
    }
}

fn fraction(part: usize, all: usize) -> (r: Single)
    ensures
        r == fraction_spec(part as int, all as int),
{
    if all == 0 {
        Single::whole(0)
    } else {
        Single::whole(part as u64).over(Single::whole(all as u64))
    }
}

/// Level of the open lightbox: a clump of bright values on the border of the frame, while the
/// middle holds film that is clearly darker.
pub open spec fn bright_mode_spec(p: PlaneView) -> Option<Single> {
    let p98 = crate::stats::percentile_spec(p.values, Single::ratio(98, 100));
    let cut = p98.times(Single::ratio(88, 100));
    let bw = band_spec(p.width as int, 10, 5) as usize;
    let bh = band_spec(p.height as int, 10, 5) as usize;
    let edge = Zone::Edge { bw, bh };
    let bright = Pick::AtLeast(cut);
    let outer_vals = all_in(p, edge, bright);
    let film = all_in(p, Zone::Middle, Pick::Between(Single::ratio(12, 100), cut));
    let body = crate::stats::percentile_spec(film, Single::ratio(72, 100));
    let inner_n = all_in(p, Zone::Middle, Pick::Any).len() as int;
    let frac_outer = fraction_spec(
        outer_vals.len() as int,
        all_in(p, edge, Pick::Any).len() as int,
    );
    let frac_inner = fraction_spec(all_in(p, Zone::Middle, bright).len() as int, inner_n);
    if p98.less(Single::ratio(40, 100)) {
        None
    } else if all_in(p, Zone::All, bright).len() < share_spec(p.values.len() as int, 8) {
        None
    } else if frac_outer.less(Single::ratio(40, 100)) || Single::ratio(35, 100).less(frac_inner) {
        None
    } else if film.len() < share_spec(inner_n, 15) {
        None
    } else if p98.less(body.times(Single::ratio(115, 100))) && p98.minus(body).less(
        Single::ratio(12, 100),
    ) {
        None
    } else if outer_vals.len() == 0 {
        None
    } else {
        Some(
            crate::stats::percentile_spec(outer_vals, Single::ratio(50, 100)).larger(
                p98.times(Single::ratio(90, 100)),
            ),
        )
    }
}

/// High-end clump on the outer frame: open lightbox, not film base.
pub fn find_bright_mode(p: &Plane) -> (r: Option<Single>)
    requires
        sizable(p@),
    ensures
        r == bright_mode_spec(p@),
{
    proof {
        lemma_sizable(*p);
    }
    let p98 = crate::stats::percentile(&p.values, Single::ratio(98, 100));
    if p98.less(Single::ratio(40, 100)) {
        return None;
    }
    let cut = p98.times(Single::ratio(88, 100));
    let bw: usize = band(p.width, 10, 5);
    let bh: usize = band(p.height, 10, 5);
    let edge = Zone::Edge { bw, bh };
    let bright = Pick::AtLeast(cut);
    let bright_n: usize = collect(p, Zone::All, bright).len();
    if (bright_n as u64) < share(p.values.len(), 8) {
        return None;
    }
    let outer_vals = collect(p, edge, bright);
    let outer_n: usize = collect(p, edge, Pick::Any).len();
    let inner_n: usize = collect(p, Zone::Middle, Pick::Any).len();
    let inner_bright: usize = collect(p, Zone::Middle, bright).len();
    let frac_outer = fraction(outer_vals.len(), outer_n);
    let frac_inner = fraction(inner_bright, inner_n);
    if frac_outer.less(Single::ratio(40, 100)) || Single::ratio(35, 100).less(frac_inner) {
        return None;
    }
    let film = collect(p, Zone::Middle, Pick::Between(Single::ratio(12, 100), cut));
    if (film.len() as u64) < share(inner_n, 15) {
        return None;
    }
    let body = crate::stats::percentile(&film, Single::ratio(72, 100));
    if p98.less(body.times(Single::ratio(115, 100))) && p98.minus(body).less(
        Single::ratio(12, 100),
    ) {
        return None;
    }
    if outer_vals.len() == 0 {
        return None;
    }
    Some(
        crate::stats::percentile(&outer_vals, Single::ratio(50, 100)).larger(
            p98.times(Single::ratio(90, 100)),
        ),
    )
}


/// Values of columns `x0..x1` and rows `y0..y1`, in row order.
pub open spec fn block_values_spec(p: PlaneView, x0: int, x1: int, y0: int, y1: int) -> Seq<Single> {
    Seq::new(
        ((x1 - x0) * (y1 - y0)) as nat,
        |k: int| p.at(x0 + k % (x1 - x0), y0 + k / (x1 - x0)),
    )
}

fn block_values(p: &Plane, x0: usize, x1: usize, y0: usize, y1: usize) -> (r: Vec<Single>)
    requires
        p.wf(),
        x0 < x1 <= p.width,
        y0 < y1 <= p.height,
    ensures
        r@ == block_values_spec(p@, x0 as int, x1 as int, y0 as int, y1 as int),
{
    let bw: usize = x1 - x0;
    proof {
        crate::film::lemma_area(x1 - x0, y1 - y0, p.width as int, p.height as int);
        assert(p.values.len() == p.width * p.height);
    }
    let n: usize = bw * (y1 - y0);
    let mut out: Vec<Single> = Vec::with_capacity(n);
    let mut k: usize = 0;
    while k < n
        invariant
            p.wf(),
            x0 < x1 <= p.width,
            y0 < y1 <= p.height,
            bw == x1 - x0,
            n == bw * (y1 - y0),
            k <= n,
            out@ == block_values_spec(p@, x0 as int, x1 as int, y0 as int, y1 as int).take(k as int),
        decreases n - k,
    {
        proof {
            lemma_mod_bound(k as int, bw as int);
            lemma_multiply_divide_lt(k as int, bw as int, y1 - y0);
            lemma_div_pos_is_pos(k as int, bw as int);
            crate::film::lemma_place(
                p.width as int,
                p.height as int,
                1,
                0,
                x0 + k % bw,
                y0 + k as int / bw as int,
            );
            assert(p.values.len() == p.width * p.height);
        }
        out.push(p.values[(y0 + k / bw) * p.width + (x0 + k % bw)]);
        assert(out@ =~= block_values_spec(
            p@,
            x0 as int,
            x1 as int,
            y0 as int,
            y1 as int,
        ).take(k + 1));
        k = k + 1;
    }
    assert(out@ =~= block_values_spec(p@, x0 as int, x1 as int, y0 as int, y1 as int));
    out
}

/// First line of a sample of `len` lines from `from`, moved into a frame of `side` lines.
pub open spec fn sample_from(from: u32, side: int) -> int {
    if from <= side - 1 {
        from as int
    } else {
        side - 1
    }
}

/// One past its last line; the sample keeps at least one line.
pub open spec fn sample_to(from: u32, len: u32, side: int) -> int {
    let end = if from + len <= side {
        from + len
    } else {
        side
    };
    if end < sample_from(from, side) + 1 {
        sample_from(from, side) + 1
    } else {
        end
    }
}

fn sample_span(from: u32, len: u32, side: usize) -> (r: (usize, usize))
    requires
        side > 0,
    ensures
        r.0 == sample_from(from, side as int),
        r.1 == sample_to(from, len, side as int),
        r.0 < r.1 <= side,
{
    let a: usize = if from as u64 <= (side - 1) as u64 {
        from as usize
    } else {
        side - 1
    };
    let end: usize = if from as u64 + len as u64 <= side as u64 {
        (from as u64 + len as u64) as usize
    } else {
        side
    };
    let b: usize = if end < a + 1 {
        a + 1
    } else {
        end
    };
    (a, b)
}

/// Values of the first `n` pixels that are film and lie below a level in the other plane.
pub open spec fn film_below(t: Seq<Single>, top: Seq<Single>, cut: Single, n: int) -> Seq<Single>
    decreases n,
{
    if n <= 0 {
        Seq::empty()
    } else {
        let rest = film_below(t, top, cut, n - 1);
        if Single::ratio(12, 100).less(t[n - 1]) && top[n - 1].less(cut) {
            rest.push(t[n - 1])
        } else {
            rest
        }
    }
}

fn collect_film_below(t: &Plane, top: &Plane, cut: Single) -> (r: Vec<Single>)
    requires
        t.values.len() == top.values.len(),
    ensures
        r@ == film_below(t.values@, top.values@, cut, t.values@.len() as int),
{
    let floor = Single::ratio(12, 100);
    let mut out: Vec<Single> = Vec::new();
    let mut i: usize = 0;
    while i < t.values.len()
        invariant
            i <= t.values.len(),
            t.values.len() == top.values.len(),
            floor == Single::ratio(12, 100),
            out@ == film_below(t.values@, top.values@, cut, i as int),
        decreases t.values.len() - i,
    {
        if floor.less(t.values[i]) && top.values[i].less(cut) {
            out.push(t.values[i]);
        }
        i = i + 1;
    }
    out
}

/// Transmittance of the film base: from a sample of it where one is given, else from the upper
/// part of what is film, lightbox left out.
pub open spec fn base_spec(
    t: PlaneView,
    top: PlaneView,
    sample: Option<Rect>,
    light: Option<Single>,
) -> Single {
    let p72 = Single::ratio(72, 100);
    let lo = Single::ratio(25, 100);
    let hi = Single::ratio(15, 10);
    let film = all_in(t, Zone::All, Pick::Between(Single::ratio(12, 100), Single::ratio(135, 100)));
    let plain = if film.len() == 0 {
        Single::whole(1)
    } else {
        crate::stats::percentile_spec(film, p72).clamp(lo, hi)
    };
    match sample {
        Some(r) => crate::stats::percentile_spec(
            block_values_spec(
                t,
                sample_from(r.x, t.width as int),
                sample_to(r.x, r.width, t.width as int),
                sample_from(r.y, t.height as int),
                sample_to(r.y, r.height, t.height as int),
            ),
            Single::ratio(5, 10),
        ).clamp(Single::ratio(2, 10), Single::ratio(16, 10)),
        None => match light {
            Some(l) => {
                let vals = film_below(
                    t.values,
                    top.values,
                    l.times(Single::ratio(85, 100)),
                    t.values.len() as int,
                );
                if vals.len() >= t.values.len() / 10 {
                    crate::stats::percentile_spec(vals, p72).clamp(lo, hi)
                } else {
                    plain
                }
            },
            None => plain,
        },
    }
}

pub fn estimate_base(
    t: &Plane,
    top: &Plane,
    sample: Option<Rect>,
    light: Option<Single>,
) -> (r: Single)
    requires
        sizable(t@),
        t.values.len() == top.values.len(),
    ensures
        r == base_spec(t@, top@, sample, light),
{
    proof {
        lemma_sizable(*t);
    }
    if let Some(r) = sample {
        let (x0, x1) = sample_span(r.x, r.width, t.width);
        let (y0, y1) = sample_span(r.y, r.height, t.height);
        let vals = block_values(t, x0, x1, y0, y1);
        return crate::stats::percentile(&vals, Single::ratio(5, 10)).clamp(
            Single::ratio(2, 10),
            Single::ratio(16, 10),
        );
    }
    let p72 = Single::ratio(72, 100);
    let lo = Single::ratio(25, 100);
    let hi = Single::ratio(15, 10);
    if let Some(l) = light {
        let vals = collect_film_below(t, top, l.times(Single::ratio(85, 100)));
        if vals.len() >= t.values.len() / 10 {
            return crate::stats::percentile(&vals, p72).clamp(lo, hi);
        }
    }
    let film = collect(
        t,
        Zone::All,
        Pick::Between(Single::ratio(12, 100), Single::ratio(135, 100)),
    );
    if film.len() == 0 {
        return Single::whole(1);
    }
    crate::stats::percentile(&film, p72).clamp(lo, hi)
}

/// Class of one strip of the perimeter, from its mean and spread.
pub open spec fn strip_class_spec(
    p: PlaneView,
    x0: int,
    x1: int,
    y0: int,
    y1: int,
    base: Single,
    light: Option<Single>,
) -> SurroundClass {
    let w = p.width as int;
    let n = crate::film::counted_spec((x1 - x0) * (y1 - y0));
    let sum = crate::film::block_sum_spec(
        p.values,
        w,
        1,
        0,
        crate::film::Term::Value,
        x0,
        x1,
        y0,
        y1,
    );
    let squares = crate::film::block_sum_spec(
        p.values,
        w,
        1,
        0,
        crate::film::Term::Square,
        x0,
        x1,
        y0,
        y1,
    );
    let mean = sum.over(n);
    let std = squares.over(n).minus(mean.times(mean)).larger(Single::whole(0)).square_root();
    class_of_spec(mean, std, base, light)
}

/// Class of a strip with this mean and standard deviation.
pub open spec fn class_of_spec(
    mean: Single,
    std: Single,
    base: Single,
    light: Option<Single>,
) -> SurroundClass {
    let holder_cap = Single::ratio(22, 100).times(base).larger(Single::ratio(12, 100));
    let light_floor = Single::ratio(116, 100).times(base).larger(Single::ratio(110, 100));
    let in_bright = light matches Some(l) && l.times(Single::ratio(88, 100)).at_most(mean);
    if mean.less(holder_cap) && std.less(Single::ratio(12, 100)) {
        SurroundClass::DarkHolder
    } else if (light_floor.less(mean) || in_bright) && std.less(Single::ratio(35, 100)) {
        SurroundClass::BrightLight
    } else if mean.minus(base).abs().less(
        Single::ratio(22, 100).times(base.larger(Single::ratio(4, 10))),
    ) && std.less(Single::ratio(14, 100)) {
        SurroundClass::FilmRebate
    } else {
        SurroundClass::Mixed
    }
}

fn class_of(mean: Single, std: Single, base: Single, light: Option<Single>) -> (r: SurroundClass)
    ensures
        r == class_of_spec(mean, std, base, light),
{
    let holder_cap = Single::ratio(22, 100).times(base).larger(Single::ratio(12, 100));
    let light_floor = Single::ratio(116, 100).times(base).larger(Single::ratio(110, 100));
    let in_bright = match light {
        Some(l) => l.times(Single::ratio(88, 100)).at_most(mean),
        None => false,
    };
    if mean.less(holder_cap) && std.less(Single::ratio(12, 100)) {
        SurroundClass::DarkHolder
    } else if (light_floor.less(mean) || in_bright) && std.less(Single::ratio(35, 100)) {
        SurroundClass::BrightLight
    } else if mean.minus(base).abs().less(
        Single::ratio(22, 100).times(base.larger(Single::ratio(4, 10))),
    ) && std.less(Single::ratio(14, 100)) {
        SurroundClass::FilmRebate
    } else {
        SurroundClass::Mixed
    }
}

fn strip_class(
    p: &Plane,
    x0: usize,
    x1: usize,
    y0: usize,
    y1: usize,
    base: Single,
    light: Option<Single>,
) -> (r: SurroundClass)
    requires
        p.wf(),
        x0 < x1 <= p.width,
        y0 < y1 <= p.height,
    ensures
        r == strip_class_spec(p@, x0 as int, x1 as int, y0 as int, y1 as int, base, light),
{
    let b = crate::film::Block { x0, x1, y0, y1 };
    proof {
        crate::film::lemma_area(x1 - x0, y1 - y0, p.width as int, p.height as int);
        assert(p.values.len() == p.width * p.height);
        assert(p.width * p.height * 1 == p.width * p.height);
    }
    let n = crate::film::counted((x1 - x0) * (y1 - y0));
    let sum = crate::film::block_sum(
        &p.values,
        p.width,
        p.height,
        1,
        0,
        crate::film::Term::Value,
        &b,
    );
    let squares = crate::film::block_sum(
        &p.values,
        p.width,
        p.height,
        1,
        0,
        crate::film::Term::Square,
        &b,
    );
    let mean = sum.over(n);
    let std = squares.over(n).minus(mean.times(mean)).larger(Single::whole(0)).square_root();
    class_of(mean, std, base, light)
}

/// Sides of this class among the four.
pub open spec fn votes(sides: Seq<SurroundClass>, c: SurroundClass) -> int {
    (if sides[0] == c { 1int } else { 0 }) + (if sides[1] == c { 1int } else { 0 }) + (if sides[2]
        == c { 1int } else { 0 }) + (if sides[3] == c { 1int } else { 0 })
}

/// The class that at least two sides have and no other class has more often; a tie goes to the
/// holder first and to the lightbox next.
pub open spec fn vote_spec(sides: Seq<SurroundClass>) -> SurroundClass {
    let holder = votes(sides, SurroundClass::DarkHolder);
    let light = votes(sides, SurroundClass::BrightLight);
    let rebate = votes(sides, SurroundClass::FilmRebate);
    if holder >= 2 && holder >= light && holder >= rebate {
        SurroundClass::DarkHolder
    } else if light >= 2 && light >= holder && light >= rebate {
        SurroundClass::BrightLight
    } else if rebate >= 2 && rebate >= holder && rebate >= light {
        SurroundClass::FilmRebate
    } else {
        SurroundClass::Mixed
    }
}

pub fn vote_surround(sides: &[SurroundClass; 4]) -> (r: SurroundClass)
    ensures
        r == vote_spec(sides@),
{
    let mut holder: u32 = 0;
    let mut light: u32 = 0;
    let mut rebate: u32 = 0;
    let mut i: usize = 0;
    while i < 4
        invariant
            i <= 4,
            holder <= i,
            light <= i,
            rebate <= i,
            holder == votes_before(sides@, SurroundClass::DarkHolder, i as int),
            light == votes_before(sides@, SurroundClass::BrightLight, i as int),
            rebate == votes_before(sides@, SurroundClass::FilmRebate, i as int),
        decreases 4 - i,
    {
        match sides[i] {
            SurroundClass::DarkHolder => {
                holder = holder + 1;
            },
            SurroundClass::BrightLight => {
                light = light + 1;
            },
            SurroundClass::FilmRebate => {
                rebate = rebate + 1;
            },
            SurroundClass::Mixed => {},
        }
        i = i + 1;
    }
    proof {
        lemma_votes(sides@, SurroundClass::DarkHolder);
        lemma_votes(sides@, SurroundClass::BrightLight);
        lemma_votes(sides@, SurroundClass::FilmRebate);
    }
    if holder >= 2 && holder >= light && holder >= rebate {
        SurroundClass::DarkHolder
    } else if light >= 2 && light >= holder && light >= rebate {
        SurroundClass::BrightLight
    } else if rebate >= 2 && rebate >= holder && rebate >= light {
        SurroundClass::FilmRebate
    } else {
        SurroundClass::Mixed
    }
}

spec fn votes_before(sides: Seq<SurroundClass>, c: SurroundClass, n: int) -> int
    decreases n,
{
    if n <= 0 {
        0
    } else {
        votes_before(sides, c, n - 1) + if sides[n - 1] == c {
            1int
        } else {
            0
        }
    }
}

proof fn lemma_votes(sides: Seq<SurroundClass>, c: SurroundClass)
    ensures
        votes_before(sides, c, 4) == votes(sides, c),
{
    reveal_with_fuel(votes_before, 5);
}

/// Majority of the four strips along the edges.
pub open spec fn surround_spec(p: PlaneView, base: Single, light: Option<Single>) -> SurroundClass {
    let w = p.width as int;
    let h = p.height as int;
    let bw = band_spec(w, 4, 8);
    let bh = band_spec(h, 4, 8);
    vote_spec(
        seq![
            strip_class_spec(p, 0, w, 0, bh, base, light),
            strip_class_spec(p, 0, w, h - bh, h, base, light),
            strip_class_spec(p, 0, bw, bh, h - bh, base, light),
            strip_class_spec(p, w - bw, w, bh, h - bh, base, light),
        ],
    )
}

pub fn classify_surround(p: &Plane, base: Single, light: Option<Single>) -> (r: SurroundClass)
    requires
        sizable(p@),
    ensures
        r == surround_spec(p@, base, light),
{
    let w: usize = p.width;
    let h: usize = p.height;
    let bw: usize = band(w, 4, 8);
    let bh: usize = band(h, 4, 8);
    assert(bw <= w / 8 && bh <= h / 8);
    let sides = [
        strip_class(p, 0, w, 0, bh, base, light),
        strip_class(p, 0, w, h - bh, h, base, light),
        strip_class(p, 0, bw, bh, h - bh, base, light),
        strip_class(p, w - bw, w, bh, h - bh, base, light),
    ];
    assert(sides@ =~= seq![
        strip_class_spec(p@, 0, w as int, 0, bh as int, base, light),
        strip_class_spec(p@, 0, w as int, h - bh, h as int, base, light),
        strip_class_spec(p@, 0, bw as int, bh as int, h - bh, base, light),
        strip_class_spec(p@, w - bw, w as int, bh as int, h - bh, base, light),
    ]);
    vote_surround(&sides)
}

/// Grain level that tells picture from base, between what the edges and the middle show.
pub open spec fn tex_thresh_spec(tex: PlaneView) -> Single {
    let bw = band_spec(tex.width as int, 8, 5) as usize;
    let bh = band_spec(tex.height as int, 8, 5) as usize;
    let outer = all_in(tex, Zone::Edge { bw, bh }, Pick::Any);
    let inner = all_in(tex, Zone::MiddleOffEdge { bw, bh }, Pick::Any);
    let o = if outer.len() == 0 {
        Single::ratio(1, 100)
    } else {
        crate::stats::percentile_spec(outer, Single::ratio(5, 10))
    };
    let i = if inner.len() == 0 {
        Single::ratio(4, 100)
    } else {
        crate::stats::percentile_spec(inner, Single::ratio(5, 10))
    };
    o.times(Single::ratio(65, 100)).plus(i.times(Single::ratio(35, 100))).clamp(
        Single::ratio(5, 1000),
        Single::ratio(85, 1000),
    )
}

pub fn adaptive_tex_thresh(tex: &Plane) -> (r: Single)
    requires
        sizable(tex@),
    ensures
        r == tex_thresh_spec(tex@),
{
    proof {
        lemma_sizable(*tex);
    }
    let bw: usize = band(tex.width, 8, 5);
    let bh: usize = band(tex.height, 8, 5);
    let outer = collect(tex, Zone::Edge { bw, bh }, Pick::Any);
    let inner = collect(tex, Zone::MiddleOffEdge { bw, bh }, Pick::Any);
    let o = if outer.len() == 0 {
        Single::ratio(1, 100)
    } else {
        crate::stats::percentile(&outer, Single::ratio(5, 10))
    };
    let i = if inner.len() == 0 {
        Single::ratio(4, 100)
    } else {
        crate::stats::percentile(&inner, Single::ratio(5, 10))
    };
    o.times(Single::ratio(65, 100)).plus(i.times(Single::ratio(35, 100))).clamp(
        Single::ratio(5, 1000),
        Single::ratio(85, 1000),
    )
}

/// Levels that tell picture pixels from the rest.
#[derive(Debug, Clone, Copy, PartialEq, Eq, Structural)]
pub struct PixelLevels {
    pub holder_cap: Single,
    pub light_floor: Single,
    pub rebate_floor: Single,
    pub dye_cap: Single,
    pub tex_thresh: Single,
    pub light: Option<Single>,
    pub outer: Single,
}

/// Levels that follow from the film base.
pub open spec fn levels_spec(
    base: Single,
    tex_thresh: Single,
    light: Option<Single>,
    outer: Single,
) -> PixelLevels {
    PixelLevels {
        holder_cap: Single::ratio(7, 100).times(base).clamp(
            Single::ratio(5, 100),
            Single::ratio(10, 100),
        ),
        light_floor: Single::ratio(118, 100).times(base).larger(Single::ratio(112, 100)),
        rebate_floor: Single::ratio(86, 100).times(base),
        dye_cap: Single::ratio(62, 100).times(base),
        tex_thresh,
        light,
        outer,
    }
}

pub fn pixel_levels(
    base: Single,
    tex_thresh: Single,
    light: Option<Single>,
    outer: Single,
) -> (r: PixelLevels)
    ensures
        r == levels_spec(base, tex_thresh, light, outer),
{
    PixelLevels {
        holder_cap: Single::ratio(7, 100).times(base).clamp(
            Single::ratio(5, 100),
            Single::ratio(10, 100),
        ),
        light_floor: Single::ratio(118, 100).times(base).larger(Single::ratio(112, 100)),
        rebate_floor: Single::ratio(86, 100).times(base),
        dye_cap: Single::ratio(62, 100).times(base),
        tex_thresh,
        light,
        outer,
    }
}

/// Whether a pixel belongs to the picture. The holder and the lightbox never do, nor flat values
/// close to the outer band; grain does, and so does flat dye.
pub open spec fn picture_pixel(t: Single, top: Single, tex: Single, l: PixelLevels) -> bool {
    let in_bright = l.light matches Some(v) && v.times(Single::ratio(88, 100)).at_most(top);
    let grainy = l.tex_thresh.at_most(tex);
    if t.less(l.holder_cap) || l.light_floor.less(top) || in_bright {
        false
    } else if t.minus(l.outer).abs().less(Single::ratio(8, 100)) && tex.less(l.tex_thresh) {
        false
    } else {
        grainy || (t.less(l.dye_cap) && l.holder_cap.at_most(t)) || (t.less(l.rebate_floor)
            && l.tex_thresh.times(Single::ratio(45, 100)).at_most(tex))
    }
}

/// Open light is never taken for picture, however much grain there is in it; neither is the
/// holder.
pub proof fn light_and_holder_are_no_picture(t: Single, top: Single, tex: Single, l: PixelLevels)
    requires
        ({
            ||| l.light_floor.less(top)
            ||| l.light matches Some(v) && v.times(Single::ratio(88, 100)).at_most(top)
            ||| t.less(l.holder_cap)
        }),
    ensures
        !picture_pixel(t, top, tex, l),
{
}

pub fn classify_image_pixel(t: Single, top: Single, tex: Single, l: &PixelLevels) -> (r: bool)
    ensures
        r == picture_pixel(t, top, tex, *l),
{
    if t.less(l.holder_cap) {
        return false;
    }
    let in_bright = match l.light {
        Some(v) => v.times(Single::ratio(88, 100)).at_most(top),
        None => false,
    };
    if l.light_floor.less(top) || in_bright {
        return false;
    }
    if t.minus(l.outer).abs().less(Single::ratio(8, 100)) && tex.less(l.tex_thresh) {
        return false;
    }
    if l.tex_thresh.at_most(tex) {
        return true;
    }
    (t.less(l.dye_cap) && l.holder_cap.at_most(t)) || (t.less(l.rebate_floor)
        && l.tex_thresh.times(Single::ratio(45, 100)).at_most(tex))
}

} // verus!
