//! Finding the edges of the picture on a plane of transmittance.

use vstd::prelude::*;
use vstd::arithmetic::div_mod::*;
use crate::aspect::Bounds;
use crate::film::{Block, Plane, PlaneView, Term};
use crate::single::Single;
use crate::surround::Polarity;

verus! {

/// Marked pixels among the first `n` of a row or column.
pub open spec fn marked(px: Seq<bool>, w: int, line: int, row: bool, n: int) -> int
    decreases n,
{
    if n <= 0 {
        0
    } else {
        let i = if row {
            line * w + (n - 1)
        } else {
            (n - 1) * w + line
        };
        marked(px, w, line, row, n - 1) + if px[i] {
            1int
        } else {
            0
        }
    }
}

/// Rows or columns of which at least 18 percent are marked.
pub open spec fn full_lines(px: Seq<bool>, w: int, h: int, row: bool) -> Seq<bool> {
    let len = if row {
        w
    } else {
        h
    };
    Seq::new(
        (if row { h } else { w }) as nat,
        |i: int|
            Single::ratio(18, 100).at_most(
                Single::whole(marked(px, w, i, row, len) as u64).over(Single::whole(len as u64)),
            ),
    )
}

fn lines_with_picture(px: &Vec<bool>, w: usize, h: usize, row: bool) -> (r: Vec<bool>)
    requires
        px.len() == w * h,
    ensures
        r@ == full_lines(px@, w as int, h as int, row),
{
    let n: usize = if row {
        h
    } else {
        w
    };
    let len: usize = if row {
        w
    } else {
        h
    };
    let least = Single::ratio(18, 100);
    let mut out: Vec<bool> = Vec::with_capacity(n);
    let mut i: usize = 0;
    while i < n
        invariant
            px.len() == w * h,
            n == if row { h } else { w },
            len == if row { w } else { h },
            least == Single::ratio(18, 100),
            i <= n,
            out@ == full_lines(px@, w as int, h as int, row).take(i as int),
        decreases n - i,
    {
        let mut count: u64 = 0;
        let mut k: usize = 0;
        while k < len
            invariant
                px.len() == w * h,
                n == if row { h } else { w },
                len == if row { w } else { h },
                i < n,
                k <= len,
                count <= k,
                count == marked(px@, w as int, i as int, row, k as int),
            decreases len - k,
        {
            let (x, y) = if row {
                (k, i)
            } else {
                (i, k)
            };
            proof {
                crate::film::lemma_place(w as int, h as int, 1, 0, x as int, y as int);
                assert(px.len() == w * h);
            }
            if px[y * w + x] {
                count = count + 1;
            }
            k = k + 1;
        }
        out.push(least.at_most(Single::whole(count).over(Single::whole(len as u64))));
        assert(out@ =~= full_lines(px@, w as int, h as int, row).take(i + 1));
        i = i + 1;
    }
    assert(out@ =~= full_lines(px@, w as int, h as int, row));
    out
}

/// Bounds made of a span of columns and one of rows.
pub open spec fn spans(cols: (int, int), rows: (int, int)) -> Bounds {
    Bounds {
        left: cols.0 as usize,
        right: cols.1 as usize,
        top: rows.0 as usize,
        bottom: rows.1 as usize,
    }
}

/// Bounds of the area in which enough pixels are picture.
pub open spec fn frac_bounds_spec(px: Seq<bool>, w: int, h: int) -> Bounds {
    spans(
        crate::runs::longest_run_spec(full_lines(px, w, h, false), w / 2)->0,
        crate::runs::longest_run_spec(full_lines(px, w, h, true), h / 2)->0,
    )
}

pub fn bounds_from_image_frac(px: &Vec<bool>, w: usize, h: usize) -> (r: Bounds)
    requires
        px.len() == w * h,
        w > 0,
        h > 0,
    ensures
        r == frac_bounds_spec(px@, w as int, h as int),
        !r.is_empty(),
        r.within(w as int, h as int),
{
    let rows = lines_with_picture(px, w, h, true);
    let cols = lines_with_picture(px, w, h, false);
    let (top, bottom) = crate::runs::longest_run(&rows, h / 2).unwrap();
    let (left, right) = crate::runs::longest_run(&cols, w / 2).unwrap();
    Bounds { left, right, top, bottom }
}

/// A percentile of every row or of every column.
pub open spec fn profile_spec(p: PlaneView, rows: bool, pct: Single) -> Seq<Single> {
    Seq::new(
        (if rows { p.height } else { p.width }) as nat,
        |i: int|
            crate::stats::percentile_spec(crate::sprockets::line_of(p, i, rows), pct),
    )
}

pub fn axis_percentile(p: &Plane, rows: bool, pct: Single) -> (r: Vec<Single>)
    requires
        p.wf(),
    ensures
        r@ == profile_spec(p@, rows, pct),
{
    let n: usize = if rows {
        p.height
    } else {
        p.width
    };
    let mut out: Vec<Single> = Vec::with_capacity(n);
    let mut i: usize = 0;
    while i < n
        invariant
            p.wf(),
            n == if rows { p.height } else { p.width },
            i <= n,
            out@ == profile_spec(p@, rows, pct).take(i as int),
        decreases n - i,
    {
        let line = crate::sprockets::read_line(p, i, rows);
        out.push(crate::stats::percentile(&line, pct));
        assert(out@ =~= profile_spec(p@, rows, pct).take(i + 1));
        i = i + 1;
    }
    assert(out@ =~= profile_spec(p@, rows, pct));
    out
}

/// First line kept when at most `left` lines above a level are peeled off the front.
pub open spec fn peel_front(v: Seq<Single>, level: Single, s: int, end: int, left: int) -> int
    decreases left,
{
    if left > 0 && s + 2 < end && level.less(v[s]) {
        peel_front(v, level, s + 1, end, left - 1)
    } else {
        s
    }
}

/// One past the last line kept when lines above a level are peeled off the back.
pub open spec fn peel_back(v: Seq<Single>, level: Single, s: int, end: int, left: int) -> int
    decreases left,
{
    if left > 0 && end > s + 2 && level.less(v[end - 1]) {
        peel_back(v, level, s, end - 1, left - 1)
    } else {
        end
    }
}

/// A bright run without the thin brighter rebate at its ends. Rebate lies 6 percent above the
/// median of the run.
pub open spec fn trim_spec(v: Seq<Single>, s: int, e: int) -> (int, int) {
    if e <= s + 4 {
        (s, e)
    } else {
        let level = crate::stats::percentile_spec(v.subrange(s, e), Single::ratio(50, 100)).times(
            Single::ratio(106, 100),
        );
        let walk = crate::aspect::min2(
            crate::aspect::max2((e - s) / 6, 3),
            v.len() as int / 8,
        );
        let a = peel_front(v, level, s, e, walk);
        (a, peel_back(v, level, a, e, walk))
    }
}

pub fn trim_edge_rebate(v: &Vec<Single>, s: usize, e: usize) -> (r: (usize, usize))
    requires
        s < e <= v.len(),
    ensures
        (r.0 as int, r.1 as int) == trim_spec(v@, s as int, e as int),
        s <= r.0 < r.1 <= e,
{
    if e - s <= 4 {
        return (s, e);
    }
    let mut part: Vec<Single> = Vec::with_capacity(e - s);
    let mut i: usize = s;
    while i < e
        invariant
            s <= i <= e <= v.len(),
            part@ == v@.subrange(s as int, i as int),
        decreases e - i,
    {
        part.push(v[i]);
        assert(part@ =~= v@.subrange(s as int, i + 1));
        i = i + 1;
    }
    let level = crate::stats::percentile(&part, Single::ratio(50, 100)).times(
        Single::ratio(106, 100),
    );
    let sixth: usize = if (e - s) / 6 >= 3 {
        (e - s) / 6
    } else {
        3
    };
    let walk: usize = if sixth <= v.len() / 8 {
        sixth
    } else {
        v.len() / 8
    };
    let mut a: usize = s;
    let mut left: usize = walk;
    while left > 0 && e - a > 2 && level.less(v[a])
        invariant
            s <= a,
            a + 2 <= e <= v.len(),
            peel_front(v@, level, a as int, e as int, left as int) == peel_front(
                v@,
                level,
                s as int,
                e as int,
                walk as int,
            ),
        decreases left,
    {
        a = a + 1;
        left = left - 1;
    }
    let mut b: usize = e;
    left = walk;
    while left > 0 && b - a > 2 && level.less(v[b - 1])
        invariant
            a + 2 <= b <= e <= v.len(),
            peel_back(v@, level, a as int, b as int, left as int) == peel_back(
                v@,
                level,
                a as int,
                e as int,
                walk as int,
            ),
        decreases left,
    {
        b = b - 1;
        left = left - 1;
    }
    (a, b)
}

/// Lines of a profile above a level.
pub open spec fn above(v: Seq<Single>, level: Single) -> Seq<bool> {
    v.map_values(|x: Single| level.less(x))
}

fn flags_above(v: &Vec<Single>, level: Single) -> (r: Vec<bool>)
    ensures
        r@ == above(v@, level),
{
    let mut out: Vec<bool> = Vec::with_capacity(v.len());
    let mut i: usize = 0;
    while i < v.len()
        invariant
            i <= v.len(),
            out.len() == i,
            forall|j: int| 0 <= j < i ==> #[trigger] out@[j] == level.less(v@[j]),
        decreases v.len() - i,
    {
        out.push(level.less(v[i]));
        i = i + 1;
    }
    assert(out@ =~= above(v@, level));
    out
}

/// Level between the outer and the inner mean that the bright film exceeds.
pub open spec fn seed_level(p: PlaneView) -> Single {
    let (outer, inner) = crate::surround::outer_inner_spec(p);
    outer.times(Single::ratio(35, 100)).plus(inner.times(Single::ratio(65, 100)))
}

/// Bright span of one axis, without rebate.
pub open spec fn seed_span(p: PlaneView, rows: bool) -> (int, int) {
    let v = profile_spec(p, rows, Single::ratio(60, 100));
    let run = crate::runs::longest_run_spec(above(v, seed_level(p)), v.len() as int / 2)->0;
    trim_spec(v, run.0, run.1)
}

fn seed_axis(p: &Plane, rows: bool, level: Single) -> (r: (usize, usize))
    requires
        p.wf(),
        p.width > 0,
        p.height > 0,
        level == seed_level(p@),
    ensures
        (r.0 as int, r.1 as int) == seed_span(p@, rows),
        r.0 < r.1,
        r.1 <= if rows { p.height } else { p.width },
{
    let v = axis_percentile(p, rows, Single::ratio(60, 100));
    let f = flags_above(&v, level);
    let (s, e) = crate::runs::longest_run(&f, v.len() / 2).unwrap();
    trim_edge_rebate(&v, s, e)
}

/// Bright area inside the film; dark parts of the scene are recovered by growing it.
pub fn bounds_from_bright_seed(p: &Plane) -> (r: Bounds)
    requires
        crate::surround::sizable(p@),
    ensures
        r == spans(seed_span(p@, false), seed_span(p@, true)),
        !r.is_empty(),
        r.within(p.width as int, p.height as int),
{
    let (outer, inner) = crate::surround::outer_inner_means(p);
    let level = outer.times(Single::ratio(35, 100)).plus(inner.times(Single::ratio(65, 100)));
    let (top, bottom) = seed_axis(p, true, level);
    let (left, right) = seed_axis(p, false, level);
    Bounds { left, right, top, bottom }
}


/// Mean of places `s..e` of a row or column.
pub open spec fn seg_mean_spec(p: PlaneView, rows: bool, line: int, s: int, e: int) -> Single {
    if rows {
        crate::film::strip_mean_spec(p, s, e, line, line + 1)
    } else {
        crate::film::strip_mean_spec(p, line, line + 1, s, e)
    }
}

fn seg_mean(p: &Plane, rows: bool, line: usize, s: usize, e: usize) -> (r: Single)
    requires
        p.wf(),
        line < usize::MAX,
    ensures
        r == seg_mean_spec(p@, rows, line as int, s as int, e as int),
{
    if rows {
        crate::film::strip_mean(p, s, e, line, line + 1)
    } else {
        crate::film::strip_mean(p, line, line + 1, s, e)
    }
}

/// Mean distance from their mean of places `s..e` of a row or column.
pub open spec fn seg_grain_spec(p: PlaneView, rows: bool, line: int, s: int, e: int) -> Single {
    let m = seg_mean_spec(p, rows, line, s, e);
    let end = crate::aspect::min2(e, if rows { p.width as int } else { p.height as int });
    let w = p.width as int;
    if s >= end {
        Single::whole(0)
    } else if rows {
        crate::film::block_sum_spec(
            p.values,
            w,
            1,
            0,
            Term::Deviation(m),
            s,
            end,
            line,
            line + 1,
        ).over(crate::film::counted_spec(end - s))
    } else {
        crate::film::block_sum_spec(
            p.values,
            w,
            1,
            0,
            Term::Deviation(m),
            line,
            line + 1,
            s,
            end,
        ).over(crate::film::counted_spec(end - s))
    }
}

fn seg_grain(p: &Plane, rows: bool, line: usize, s: usize, e: usize) -> (r: Single)
    requires
        p.wf(),
        line < if rows { p.height } else { p.width },
    ensures
        r == seg_grain_spec(p@, rows, line as int, s as int, e as int),
{
    let m = seg_mean(p, rows, line, s, e);
    let n: usize = if rows {
        p.width
    } else {
        p.height
    };
    let end: usize = if e <= n {
        e
    } else {
        n
    };
    if s >= end {
        return Single::whole(0);
    }
    assert(p.width * p.height * 1 == p.width * p.height);
    let b = if rows {
        Block { x0: s, x1: end, y0: line, y1: line + 1 }
    } else {
        Block { x0: line, x1: line + 1, y0: s, y1: end }
    };
    crate::film::block_sum(&p.values, p.width, p.height, 1, 0, Term::Deviation(m), &b).over(
        crate::film::counted(end - s),
    )
}

/// Whether a line steps at the edge of places `a..b`: inside and outside differ by more than
/// 0.06 over six pixels.
pub open spec fn gate_spec(p: PlaneView, rows: bool, line: int, a: int, b: int) -> bool {
    let n = if rows {
        p.width as int
    } else {
        p.height as int
    };
    let inside = seg_mean_spec(p, rows, line, a, crate::aspect::min2(a + 6, b));
    let outside = if a >= 6 {
        seg_mean_spec(p, rows, line, a - 6, a)
    } else {
        seg_mean_spec(p, rows, line, b, b + 6)
    };
    &&& line < if rows { p.height } else { p.width }
    &&& b > a + 4
    &&& (a >= 6 || b + 6 <= n)
    &&& Single::ratio(6, 100).less(inside.minus(outside).abs())
}

pub fn has_gate(p: &Plane, rows: bool, line: usize, a: usize, b: usize) -> (r: bool)
    requires
        p.wf(),
        a <= usize::MAX - 6,
        b <= usize::MAX - 6,
    ensures
        r == gate_spec(p@, rows, line as int, a as int, b as int),
{
    let lines: usize = if rows {
        p.height
    } else {
        p.width
    };
    let n: usize = if rows {
        p.width
    } else {
        p.height
    };
    if line >= lines || b <= a + 4 {
        return false;
    }
    let end: usize = if a + 6 <= b {
        a + 6
    } else {
        b
    };
    let inside = seg_mean(p, rows, line, a, end);
    let outside = if a >= 6 {
        seg_mean(p, rows, line, a - 6, a)
    } else if b + 6 <= n {
        seg_mean(p, rows, line, b, b + 6)
    } else {
        return false;
    };
    Single::ratio(6, 100).less(inside.minus(outside).abs())
}

/// What lets a frame grow over a line.
#[derive(Debug, Clone, Copy, PartialEq, Eq, Structural)]
pub enum Growth {
    /// Darker picture content: neither holder nor lightbox, unlike the outer band, no brighter
    /// than the body of the frame, and no flat stretch near the base or far below the body.
    Dark { light_floor: Single, body: Single, outer: Single },
    /// Anything but the holder and flat rebate that steps at the same edge as the frame does.
    Gate,
}

/// Lines of an axis over which a frame grows, seen between `other0` and `other1` of the other.
#[derive(Debug, Clone, Copy, PartialEq, Eq, Structural)]
pub struct Grower {
    pub rows: bool,
    pub other0: usize,
    pub other1: usize,
    pub tex_thresh: Single,
    pub growth: Growth,
}

impl Grower {
    pub open spec fn keeps(self, p: PlaneView, i: int) -> bool {
        let m = seg_mean_spec(p, self.rows, i, self.other0 as int, self.other1 as int);
        let tx = seg_grain_spec(p, self.rows, i, self.other0 as int, self.other1 as int);
        let flat_rebate = tx.less(self.tex_thresh.times(Single::ratio(7, 10))) && Single::ratio(
            86,
            100,
        ).less(m);
        &&& i < if self.rows { p.height } else { p.width }
        &&& !m.less(Single::ratio(8, 100))
        &&& match self.growth {
            Growth::Dark { light_floor, body, outer } => {
                &&& !light_floor.less(m)
                &&& !m.minus(outer).abs().less(Single::ratio(8, 100))
                &&& !body.times(Single::ratio(106, 100)).less(m)
                &&& !flat_rebate
                &&& !(m.less(body.times(Single::ratio(55, 100))) && tx.less(
                    self.tex_thresh.times(Single::ratio(85, 100)),
                ))
            },
            Growth::Gate => {
                &&& !flat_rebate
                &&& gate_spec(p, self.rows, i, self.other0 as int, self.other1 as int)
            },
        }
    }

    /// The span of the other axis lies in the plane.
    pub open spec fn fits(self, p: PlaneView) -> bool {
        &&& self.other0 <= self.other1
        &&& self.other1 <= if self.rows { p.width } else { p.height }
    }

    fn admits(self, p: &Plane, i: usize) -> (r: bool)
        requires
            crate::surround::sizable(p@),
            self.fits(p@),
        ensures
            r == self.keeps(p@, i as int),
    {
        let n: usize = if self.rows {
            p.height
        } else {
            p.width
        };
        if i >= n {
            return false;
        }
        proof {
            lemma_side_room(*p);
        }
        let m = seg_mean(p, self.rows, i, self.other0, self.other1);
        if m.less(Single::ratio(8, 100)) {
            return false;
        }
        let tx = seg_grain(p, self.rows, i, self.other0, self.other1);
        let flat_rebate = tx.less(self.tex_thresh.times(Single::ratio(7, 10))) && Single::ratio(
            86,
            100,
        ).less(m);
        match self.growth {
            Growth::Dark { light_floor, body, outer } => {
                if light_floor.less(m) || m.minus(outer).abs().less(Single::ratio(8, 100))
                    || body.times(Single::ratio(106, 100)).less(m) || flat_rebate {
                    return false;
                }
                !(m.less(body.times(Single::ratio(55, 100))) && tx.less(
                    self.tex_thresh.times(Single::ratio(85, 100)),
                ))
            },
            Growth::Gate => {
                if flat_rebate {
                    return false;
                }
                has_gate(p, self.rows, i, self.other0, self.other1)
            },
        }
    }

    /// First line after growing from `s` towards the front, over at most `left` lines.
    pub open spec fn front(self, p: PlaneView, s: int, left: int) -> int
        decreases left,
    {
        if left > 0 && s > 0 && self.keeps(p, s - 1) {
            self.front(p, s - 1, left - 1)
        } else {
            s
        }
    }

    /// One past the last line after growing from `e` towards the back.
    pub open spec fn back(self, p: PlaneView, e: int, left: int) -> int
        decreases left,
    {
        if left > 0 && e < (if self.rows { p.height } else { p.width }) && self.keeps(p, e) {
            self.back(p, e + 1, left - 1)
        } else {
            e
        }
    }

    fn grow(self, p: &Plane, s: usize, e: usize, walk: usize) -> (r: (usize, usize))
        requires
            crate::surround::sizable(p@),
            self.fits(p@),
            s < e,
            e <= if self.rows { p.height } else { p.width },
        ensures
            r.0 == self.front(p@, s as int, walk as int),
            r.1 == self.back(p@, e as int, walk as int),
            r.0 <= s,
            e <= r.1,
            r.1 <= if self.rows { p.height } else { p.width },
    {
        let n: usize = if self.rows {
            p.height
        } else {
            p.width
        };
        let mut a: usize = s;
        let mut left: usize = walk;
        while left > 0 && a > 0 && self.admits(p, a - 1)
            invariant
                crate::surround::sizable(p@),
                self.fits(p@),
                a <= s,
                self.front(p@, a as int, left as int) == self.front(p@, s as int, walk as int),
            decreases left,
        {
            a = a - 1;
            left = left - 1;
        }
        let mut b: usize = e;
        left = walk;
        while left > 0 && b < n && self.admits(p, b)
            invariant
                crate::surround::sizable(p@),
                self.fits(p@),
                n == if self.rows { p.height } else { p.width },
                e <= b <= n,
                self.back(p@, b as int, left as int) == self.back(p@, e as int, walk as int),
            decreases left,
        {
            b = b + 1;
            left = left - 1;
        }
        (a, b)
    }
}

proof fn lemma_side_room(p: Plane)
    requires
        crate::surround::sizable(p@),
    ensures
        p.width <= usize::MAX - 6,
        p.height <= usize::MAX - 6,
{
    assert(p.width * p.height >= 16 * p.width && p.width * p.height >= 16 * p.height)
        by (nonlinear_arith)
        requires
            p.width >= 16,
            p.height >= 16,
    ;
    assert(p.values.len() == p.width * p.height);
}

/// Means of lines `s..e` between `other0` and `other1`.
pub open spec fn body_means(p: PlaneView, rows: bool, s: int, e: int, o0: int, o1: int) -> Seq<Single> {
    Seq::new((e - s) as nat, |k: int| seg_mean_spec(p, rows, s + k, o0, o1))
}

/// Median of the lines of a frame.
pub open spec fn body_level(p: PlaneView, rows: bool, s: int, e: int, o0: int, o1: int) -> Single {
    crate::stats::percentile_spec(body_means(p, rows, s, e, o0, o1), Single::ratio(50, 100))
}

/// A frame grown along one axis into darker picture content.
pub open spec fn dark_growth_spec(
    p: PlaneView,
    rows: bool,
    s: int,
    e: int,
    o0: int,
    o1: int,
    tex_thresh: Single,
    light_floor: Single,
) -> (int, int) {
    let g = Grower {
        rows,
        other0: o0 as usize,
        other1: o1 as usize,
        tex_thresh,
        growth: Growth::Dark {
            light_floor,
            body: body_level(p, rows, s, e, o0, o1),
            outer: crate::surround::outer_inner_spec(p).0,
        },
    };
    let n = if rows {
        p.height as int
    } else {
        p.width as int
    };
    let walk = crate::aspect::max2(n / 3, 12);
    (g.front(p, s, walk), g.back(p, e, walk))
}

/// Grows a bright-film seed into darker image content. Stops at holder, lightbox and a flat
/// surround of middling level.
pub fn expand_into_dark_film(
    p: &Plane,
    rows: bool,
    s: usize,
    e: usize,
    o0: usize,
    o1: usize,
    tex_thresh: Single,
    light_floor: Single,
) -> (r: (usize, usize))
    requires
        crate::surround::sizable(p@),
        s < e,
        e <= if rows { p.height } else { p.width },
        o0 <= o1,
        o1 <= if rows { p.width } else { p.height },
    ensures
        (r.0 as int, r.1 as int) == dark_growth_spec(
            p@,
            rows,
            s as int,
            e as int,
            o0 as int,
            o1 as int,
            tex_thresh,
            light_floor,
        ),
        r.0 <= s,
        e <= r.1,
        r.1 <= if rows { p.height } else { p.width },
{
    let mut means: Vec<Single> = Vec::with_capacity(e - s);
    let mut i: usize = s;
    while i < e
        invariant
            p.wf(),
            s <= i <= e,
            means.len() == i - s,
            forall|k: int|
                0 <= k < means.len() ==> #[trigger] means@[k] == seg_mean_spec(
                    p@,
                    rows,
                    s + k,
                    o0 as int,
                    o1 as int,
                ),
        decreases e - i,
    {
        means.push(seg_mean(p, rows, i, o0, o1));
        i = i + 1;
    }
    assert(means@ =~= body_means(p@, rows, s as int, e as int, o0 as int, o1 as int));
    let body = crate::stats::percentile(&means, Single::ratio(50, 100));
    let (outer, _) = crate::surround::outer_inner_means(p);
    let n: usize = if rows {
        p.height
    } else {
        p.width
    };
    let walk: usize = if n / 3 >= 12 {
        n / 3
    } else {
        12
    };
    let g = Grower {
        rows,
        other0: o0,
        other1: o1,
        tex_thresh,
        growth: Growth::Dark { light_floor, body, outer },
    };
    g.grow(p, s, e, walk)
}

/// A frame grown along one axis over content that shares its gate.
pub open spec fn gate_growth_spec(
    p: PlaneView,
    rows: bool,
    s: int,
    e: int,
    o0: int,
    o1: int,
    tex_thresh: Single,
) -> (int, int) {
    let g = Grower {
        rows,
        other0: o0 as usize,
        other1: o1 as usize,
        tex_thresh,
        growth: Growth::Gate,
    };
    let n = if rows {
        p.height as int
    } else {
        p.width as int
    };
    let walk = crate::aspect::max2(n / 4, 8);
    (g.front(p, s, walk), g.back(p, e, walk))
}

/// Grows a bright-film run into low content, such as sky, that still shares the same gate. Stops
/// at holder or rebate.
pub fn expand_axis(
    p: &Plane,
    rows: bool,
    s: usize,
    e: usize,
    o0: usize,
    o1: usize,
    tex_thresh: Single,
) -> (r: (usize, usize))
    requires
        crate::surround::sizable(p@),
        s < e,
        e <= if rows { p.height } else { p.width },
        o0 <= o1,
        o1 <= if rows { p.width } else { p.height },
    ensures
        (r.0 as int, r.1 as int) == gate_growth_spec(
            p@,
            rows,
            s as int,
            e as int,
            o0 as int,
            o1 as int,
            tex_thresh,
        ),
        r.0 <= s,
        e <= r.1,
        r.1 <= if rows { p.height } else { p.width },
{
    let n: usize = if rows {
        p.height
    } else {
        p.width
    };
    let walk: usize = if n / 4 >= 8 {
        n / 4
    } else {
        8
    };
    let g = Grower { rows, other0: o0, other1: o1, tex_thresh, growth: Growth::Gate };
    g.grow(p, s, e, walk)
}

/// More than `thousandths` of a side lie before `from` or after `to`.
pub open spec fn wide_margin_spec(from: int, to: int, side: int, thousandths: u32) -> bool {
    Single::ratio(thousandths, 1000).less(
        Single::whole(from as u64).over(Single::whole(side as u64)),
    ) || Single::ratio(thousandths, 1000).less(
        Single::whole((side - to) as u64).over(Single::whole(side as u64)),
    )
}

fn wide_margin(from: usize, to: usize, side: usize, thousandths: u32) -> (r: bool)
    requires
        to <= side,
        thousandths < 1000,
    ensures
        r == wide_margin_spec(from as int, to as int, side as int, thousandths),
{
    let limit = Single::ratio(thousandths, 1000);
    let all = Single::whole(side as u64);
    limit.less(Single::whole(from as u64).over(all)) || limit.less(
        Single::whole((side - to) as u64).over(all),
    )
}

/// The seed grown to the frame: its width first where a side margin is wide or the seed looks
/// incomplete, then its height over content cut off by the same edges, and into dark film
/// where the margins above or below stay wide.
pub open spec fn grown_spec(
    p: PlaneView,
    seed: Bounds,
    tex_thresh: Single,
    light_floor: Single,
) -> Bounds {
    let w = p.width as int;
    let h = p.height as int;
    let cols = if wide_margin_spec(seed.left as int, seed.right as int, w, 175)
        || !crate::aspect::complete_spec(w, h, seed) {
        dark_growth_spec(
            p,
            false,
            seed.left as int,
            seed.right as int,
            seed.top as int,
            seed.bottom as int,
            tex_thresh,
            light_floor,
        )
    } else {
        (seed.left as int, seed.right as int)
    };
    let rows = gate_growth_spec(
        p,
        true,
        seed.top as int,
        seed.bottom as int,
        cols.0,
        cols.1,
        tex_thresh,
    );
    if wide_margin_spec(rows.0, rows.1, h, 140) {
        spans(
            cols,
            dark_growth_spec(p, true, rows.0, rows.1, cols.0, cols.1, tex_thresh, light_floor),
        )
    } else {
        spans(cols, rows)
    }
}

pub fn grow_bright_seed(
    p: &Plane,
    seed: Bounds,
    tex_thresh: Single,
    light_floor: Single,
) -> (r: Bounds)
    requires
        crate::surround::sizable(p@),
        !seed.is_empty(),
        seed.within(p.width as int, p.height as int),
    ensures
        r == grown_spec(p@, seed, tex_thresh, light_floor),
        !r.is_empty(),
        r.within(p.width as int, p.height as int),
{
    let w: usize = p.width;
    let h: usize = p.height;
    let mut left: usize = seed.left;
    let mut right: usize = seed.right;
    assert(p.values.len() == w * h);
    let side_wide = wide_margin(left, right, w, 175);
    if side_wide || !crate::aspect::seed_looks_complete(w, h, seed) {
        let (l, r) = expand_into_dark_film(
            p,
            false,
            left,
            right,
            seed.top,
            seed.bottom,
            tex_thresh,
            light_floor,
        );
        left = l;
        right = r;
    }
    let (t0, b0) = expand_axis(p, true, seed.top, seed.bottom, left, right, tex_thresh);
    let mut top: usize = t0;
    let mut bottom: usize = b0;
    if wide_margin(top, bottom, h, 140) {
        let (t1, b1) = expand_into_dark_film(
            p,
            true,
            top,
            bottom,
            left,
            right,
            tex_thresh,
            light_floor,
        );
        top = t1;
        bottom = b1;
    }
    Bounds { left, right, top, bottom }
}

} // verus!
