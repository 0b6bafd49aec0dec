//! Sprocket bands of 35mm film.

use vstd::prelude::*;
use vstd::arithmetic::div_mod::*;
use crate::film::{Plane, PlaneView};
use crate::single::Single;

verus! {

/// Values of a row or of a column.
pub open spec fn line_of(p: PlaneView, index: int, row: bool) -> Seq<Single> {
    if row {
        Seq::new(p.width as nat, |i: int| p.at(i, index))
    } else {
        Seq::new(p.height as nat, |i: int| p.at(index, i))
    }
}

/// Which values of a line lie below a level.
pub open spec fn below(line: Seq<Single>, cap: Single) -> Seq<bool> {
    line.map_values(|v: Single| v.less(cap))
}

/// Lengths of the runs.
pub open spec fn run_widths(r: Seq<(int, int)>) -> Seq<int> {
    r.map_values(|p: (int, int)| p.1 - p.0)
}

/// Distances between neighbouring runs.
pub open spec fn run_gaps(r: Seq<(int, int)>) -> Seq<int> {
    Seq::new(
        (if r.len() > 0 { r.len() - 1 } else { 0 }) as nat,
        |i: int| r[i + 1].0 - r[i].1,
    )
}

pub open spec fn int_sum(v: Seq<int>) -> int
    decreases v.len(),
{
    if v.len() == 0 {
        0
    } else {
        int_sum(v.drop_last()) + v.last()
    }
}

/// Mean of some lengths.
pub open spec fn mean_length(v: Seq<int>) -> Single {
    Single::whole(int_sum(v) as u64).over(Single::whole(v.len() as u64))
}

/// Squared distances from the mean, added up in order.
pub open spec fn square_sum(v: Seq<int>, mean: Single) -> Single
    decreases v.len(),
{
    if v.len() == 0 {
        Single::whole(0)
    } else {
        let d = Single::whole(v.last() as u64).minus(mean);
        square_sum(v.drop_last(), mean).plus(d.times(d))
    }
}

/// Standard deviation of some lengths, relative to their mean.
pub open spec fn variation(v: Seq<int>, mean: Single) -> Single {
    if mean.at_most(Single::whole(0)) {
        Single::whole(1)
    } else {
        square_sum(v, mean).over(Single::whole(v.len() as u64)).square_root().over(mean)
    }
}

/// Level below which a value counts as a hole.
pub open spec fn hole_cap(base: Single) -> Single {
    Single::ratio(20, 100).times(base).larger(Single::ratio(12, 100))
}

/// A row or column of holes: three dark runs or more, narrower than the gaps between them, both
/// of even lengths.
pub open spec fn sprocket_line_spec(line: Seq<Single>, base: Single) -> bool {
    let r = crate::runs::runs_spec(below(line, hole_cap(base)));
    let widths = run_widths(r);
    let gaps = run_gaps(r);
    let mw = mean_length(widths);
    let mg = mean_length(gaps);
    &&& line.len() >= 32
    &&& r.len() >= 3
    &&& !mw.less(Single::ratio(15, 10))
    &&& !mg.less(Single::whole(4))
    &&& !mg.less(mw)
    &&& variation(widths, mw).less(Single::ratio(55, 100))
    &&& variation(gaps, mg).less(Single::ratio(45, 100))
}

/// Lengths in machine numbers.
pub open spec fn ints(v: Seq<u64>) -> Seq<int> {
    v.map_values(|x: u64| x as int)
}

fn length_mean(v: &Vec<u64>) -> (r: Single)
    requires
        int_sum(ints(v@)) <= u64::MAX,
    ensures
        r == mean_length(ints(v@)),
{
    let mut sum: u64 = 0;
    let mut i: usize = 0;
    assert(ints(v@).take(0) =~= Seq::<int>::empty());
    while i < v.len()
        invariant
            i <= v.len(),
            int_sum(ints(v@)) <= u64::MAX,
            sum == int_sum(ints(v@).take(i as int)),
        decreases v.len() - i,
    {
        proof {
            lemma_sum_grows(ints(v@), i + 1);
            assert(ints(v@).take(i + 1).drop_last() =~= ints(v@).take(i as int));
        }
        sum = sum + v[i];
        i = i + 1;
    }
    assert(ints(v@).take(v.len() as int) =~= ints(v@));
    Single::whole(sum).over(Single::whole(v.len() as u64))
}

proof fn lemma_sum_grows(v: Seq<int>, n: int)
    requires
        0 <= n <= v.len(),
        forall|i: int| 0 <= i < v.len() ==> #[trigger] v[i] >= 0,
    ensures
        0 <= int_sum(v.take(n)) <= int_sum(v),
    decreases v.len(),
{
    if v.len() == 0 {
        assert(v.take(n) =~= v);
    } else if n == v.len() {
        assert(v.take(n) =~= v);
        let d = v.drop_last();
        lemma_sum_grows(d, d.len() as int);
        assert(d.take(d.len() as int) =~= d);
    } else {
        let d = v.drop_last();
        lemma_sum_grows(d, n);
        assert(d.take(n) =~= v.take(n));
    }
}

fn length_variation(v: &Vec<u64>, mean: Single) -> (r: Single)
    ensures
        r == variation(ints(v@), mean),
{
    if mean.at_most(Single::whole(0)) {
        return Single::whole(1);
    }
    let mut sum = Single::whole(0);
    let mut i: usize = 0;
    assert(ints(v@).take(0) =~= Seq::<int>::empty());
    while i < v.len()
        invariant
            i <= v.len(),
            sum == square_sum(ints(v@).take(i as int), mean),
        decreases v.len() - i,
    {
        proof {
            assert(ints(v@).take(i + 1).drop_last() =~= ints(v@).take(i as int));
            assert(ints(v@).take(i + 1).last() == v@[i as int]);
        }
        let d = Single::whole(v[i]).minus(mean);
        sum = sum.plus(d.times(d));
        i = i + 1;
    }
    assert(ints(v@).take(v.len() as int) =~= ints(v@));
    sum.over(Single::whole(v.len() as u64)).square_root().over(mean)
}

/// Disjoint runs within `n` lines have lengths and gaps that add up to no more than `n`.
proof fn lemma_run_sums(f: Seq<bool>, n: int)
    requires
        0 <= n <= f.len(),
    ensures
        ({
            let r = crate::runs::closed_runs(f, n);
            &&& int_sum(run_widths(r)) <= n
            &&& int_sum(run_gaps(r)) <= n
            &&& forall|k: int|
                0 <= k < r.len() - 1 ==> 0 <= (#[trigger] r[k]).1 && r[k].1 <= r[k + 1].0
            &&& crate::runs::open_start(f, n) matches Some(s) ==> 0 <= s < n && int_sum(
                run_widths(r),
            ) + (n - s) <= n && (r.len() > 0 ==> r.last().1 <= s && int_sum(run_gaps(r)) + (s
                - r.last().1) <= n)
            &&& r.len() > 0 ==> 0 <= r.last().1 < n && int_sum(run_gaps(r)) <= r.last().1
                && int_sum(run_widths(r)) <= r.last().1
        }),
    decreases n,
{
    if n > 0 {
        lemma_run_sums(f, n - 1);
        let before = crate::runs::closed_runs(f, n - 1);
        let after = crate::runs::closed_runs(f, n);
        if after.len() > before.len() {
            assert(run_widths(after).drop_last() =~= run_widths(before));
            if before.len() > 0 {
                assert(run_gaps(after).drop_last() =~= run_gaps(before));
            } else {
                assert(run_gaps(after) =~= Seq::<int>::empty());
            }
        }
    } else {
        assert(run_widths(crate::runs::closed_runs(f, n)) =~= Seq::<int>::empty());
        assert(run_gaps(crate::runs::closed_runs(f, n)) =~= Seq::<int>::empty());
    }
}


/// The last run, open or closed, keeps the sums within the line.
proof fn lemma_all_sums(f: Seq<bool>)
    ensures
        ({
            let r = crate::runs::runs_spec(f);
            &&& 0 <= int_sum(run_widths(r)) <= f.len()
            &&& 0 <= int_sum(run_gaps(r)) <= f.len()
            &&& forall|k: int| 0 <= k < r.len() - 1 ==> (#[trigger] r[k]).1 <= r[k + 1].0
        }),
{
    let n = f.len() as int;
    lemma_run_sums(f, n);
    crate::runs::runs_cover_the_marked_lines(f);
    let closed = crate::runs::closed_runs(f, n);
    let r = crate::runs::runs_spec(f);
    if r.len() > closed.len() {
        assert(run_widths(r).drop_last() =~= run_widths(closed));
        if closed.len() > 0 {
            assert(run_gaps(r).drop_last() =~= run_gaps(closed));
        } else {
            assert(run_gaps(r) =~= Seq::<int>::empty());
        }
    }
    let w = run_widths(r);
    assert forall|k: int| 0 <= k < w.len() implies #[trigger] w[k] >= 0 by {
        assert(crate::runs::maximal_run(f, r[k].0, r[k].1));
    }
    lemma_sum_grows(w, w.len() as int);
    assert(w.take(w.len() as int) =~= w);
    let g = run_gaps(r);
    assert forall|k: int| 0 <= k < g.len() implies #[trigger] g[k] >= 0 by {
        assert(r[k].1 <= r[k + 1].0);
    }
    lemma_sum_grows(g, g.len() as int);
    assert(g.take(g.len() as int) =~= g);
}

pub fn read_line(p: &Plane, index: usize, row: bool) -> (r: Vec<Single>)
    requires
        p.wf(),
        row ==> index < p.height,
        !row ==> index < p.width,
    ensures
        r@ == line_of(p@, index as int, row),
{
    let n: usize = if row {
        p.width
    } else {
        p.height
    };
    let mut out: Vec<Single> = Vec::with_capacity(n);
    let mut i: usize = 0;
    while i < n
        invariant
            p.wf(),
            row ==> index < p.height && n == p.width,
            !row ==> index < p.width && n == p.height,
            i <= n,
            out@ == line_of(p@, index as int, row).take(i as int),
        decreases n - i,
    {
        let (x, y) = if row {
            (i, index)
        } else {
            (index, i)
        };
        proof {
            crate::film::lemma_place(p.width as int, p.height as int, 1, 0, x as int, y as int);
            assert(p.values.len() == p.width * p.height);
        }
        out.push(p.values[y * p.width + x]);
        assert(out@ =~= line_of(p@, index as int, row).take(i + 1));
        i = i + 1;
    }
    assert(out@ =~= line_of(p@, index as int, row));
    out
}

/// Lengths of the runs and of the gaps between them.
fn measure_runs(rs: &Vec<(usize, usize)>, Ghost(all): Ghost<Seq<(int, int)>>) -> (r: (
    Vec<u64>,
    Vec<u64>,
))
    requires
        rs.len() == all.len(),
        forall|j: int| 0 <= j < rs.len() ==> (#[trigger] rs@[j]).0 < rs@[j].1,
        forall|j: int| 0 <= j < rs.len() ==> crate::runs::as_run(#[trigger] rs@[j]) == all[j],
        forall|j: int| 0 <= j < all.len() - 1 ==> (#[trigger] all[j]).1 <= all[j + 1].0,
    ensures
        ints(r.0@) == run_widths(all),
        ints(r.1@) == run_gaps(all),
{
    let mut widths: Vec<u64> = Vec::with_capacity(rs.len());
    let mut gaps: Vec<u64> = Vec::with_capacity(rs.len());
    let mut k: usize = 0;
    while k < rs.len()
        invariant
            k <= rs.len(),
            rs.len() == all.len(),
            forall|j: int| 0 <= j < rs.len() ==> (#[trigger] rs@[j]).0 < rs@[j].1,
            forall|j: int| 0 <= j < rs.len() ==> crate::runs::as_run(#[trigger] rs@[j]) == all[j],
            forall|j: int| 0 <= j < all.len() - 1 ==> (#[trigger] all[j]).1 <= all[j + 1].0,
            widths.len() == k,
            gaps.len() == if k > 0 { k - 1 } else { 0 },
            forall|j: int| 0 <= j < k ==> #[trigger] widths@[j] == all[j].1 - all[j].0,
            forall|j: int| 0 <= j < gaps.len() ==> #[trigger] gaps@[j] == all[j + 1].0 - all[j].1,
        decreases rs.len() - k,
    {
        assert(crate::runs::as_run(rs@[k as int]) == all[k as int]);
        widths.push((rs[k].1 - rs[k].0) as u64);
        if k > 0 {
            assert(crate::runs::as_run(rs@[k - 1]) == all[k - 1]);
            assert(all[k - 1].1 <= all[k - 1 + 1].0);
            gaps.push((rs[k].0 - rs[k - 1].1) as u64);
        }
        k = k + 1;
    }
    assert(ints(widths@) =~= run_widths(all));
    assert(ints(gaps@) =~= run_gaps(all));
    (widths, gaps)
}

/// Which values of a line are dark.
fn dark_flags(line: &Vec<Single>, cap: Single) -> (r: Vec<bool>)
    ensures
        r@ == below(line@, cap),
{
    let mut dark: Vec<bool> = Vec::with_capacity(line.len());
    let mut i: usize = 0;
    while i < line.len()
        invariant
            i <= line.len(),
            dark.len() == i,
            forall|j: int| 0 <= j < i ==> #[trigger] dark@[j] == line@[j].less(cap),
        decreases line.len() - i,
    {
        dark.push(line[i].less(cap));
        i = i + 1;
    }
    assert(dark@ =~= below(line@, cap));
    dark
}

/// Whether a row or column runs through sprocket holes.
pub fn is_sprocket_line(p: &Plane, index: usize, row: bool, base: Single) -> (r: bool)
    requires
        p.wf(),
        row ==> index < p.height,
        !row ==> index < p.width,
    ensures
        r == sprocket_line_spec(line_of(p@, index as int, row), base),
{
    let line = read_line(p, index, row);
    if line.len() < 32 {
        return false;
    }
    let dark = dark_flags(
        &line,
        Single::ratio(20, 100).times(base).larger(Single::ratio(12, 100)),
    );
    let rs = crate::runs::runs(&dark);
    if rs.len() < 3 {
        return false;
    }
    proof {
        lemma_all_sums(dark@);
    }
    let (widths, gaps) = measure_runs(&rs, Ghost(crate::runs::runs_spec(dark@)));
    let mw = length_mean(&widths);
    let mg = length_mean(&gaps);
    if mw.less(Single::ratio(15, 10)) || mg.less(Single::whole(4)) || mg.less(mw) {
        return false;
    }
    length_variation(&widths, mw).less(Single::ratio(55, 100)) && length_variation(&gaps, mg).less(
        Single::ratio(45, 100),
    )
}

/// Thickness of the bands in which holes are looked for.
pub open spec fn hole_band(side: int) -> int {
    if side / 5 < 8 {
        8
    } else {
        side / 5
    }
}

/// A line of the outer bands that runs through holes.
pub open spec fn hole_line(p: PlaneView, i: int, row: bool, base: Single) -> bool {
    let side = if row {
        p.height as int
    } else {
        p.width as int
    };
    let band = hole_band(side);
    (i < band || i >= side - band) && sprocket_line_spec(line_of(p, i, row), base)
}

/// Picture pixels without those on hole lines.
pub open spec fn without_holes(p: PlaneView, px: Seq<bool>, base: Single) -> Seq<bool> {
    let w = p.width as int;
    Seq::new(
        px.len(),
        |i: int| px[i] && !hole_line(p, i / w, true, base) && !hole_line(p, i % w, false, base),
    )
}

fn hole_lines(p: &Plane, row: bool, base: Single) -> (r: Vec<bool>)
    requires
        p.wf(),
        p.width >= 8,
        p.height >= 8,
    ensures
        r.len() == if row { p.height } else { p.width },
        forall|i: int| 0 <= i < r.len() ==> #[trigger] r@[i] == hole_line(p@, i, row, base),
{
    let side: usize = if row {
        p.height
    } else {
        p.width
    };
    let band: usize = if side / 5 < 8 {
        8
    } else {
        side / 5
    };
    let mut out: Vec<bool> = Vec::with_capacity(side);
    let mut i: usize = 0;
    while i < side
        invariant
            p.wf(),
            side == if row { p.height } else { p.width },
            band == hole_band(side as int),
            band <= side,
            i <= side,
            out.len() == i,
            forall|j: int| 0 <= j < i ==> #[trigger] out@[j] == hole_line(p@, j, row, base),
        decreases side - i,
    {
        if i >= band && i < side - band {
            out.push(false);
        } else {
            out.push(is_sprocket_line(p, i, row, base));
        }
        i = i + 1;
    }
    out
}

/// Marks sprocket bands as no picture, so that holes cannot pull the crop out.
pub fn mark_sprocket_rows_as_border(p: &Plane, px: &mut Vec<bool>, base: Single)
    requires
        p.wf(),
        p.width >= 8,
        p.height >= 8,
        old(px).len() == p.values.len(),
    ensures
        final(px)@ == without_holes(p@, old(px)@, base),
{
    let rows = hole_lines(p, true, base);
    let cols = hole_lines(p, false, base);
    let ghost start = px@;
    let n: usize = px.len();
    let mut i: usize = 0;
    while i < n
        invariant
            p.wf(),
            p.width >= 8,
            n == p.values.len(),
            start.len() == n,
            px.len() == n,
            i <= n,
            rows.len() == p.height,
            cols.len() == p.width,
            forall|j: int| 0 <= j < rows.len() ==> #[trigger] rows@[j] == hole_line(p@, j, true, base),
            forall|j: int| 0 <= j < cols.len() ==> #[trigger] cols@[j] == hole_line(p@, j, false, base),
            forall|j: int| 0 <= j < n ==> #[trigger] px@[j] == if j < i {
                without_holes(p@, start, base)[j]
            } else {
                start[j]
            },
        decreases n - i,
    {
        proof {
            assert(p.width * p.height == p.height * p.width) by (nonlinear_arith);
            lemma_multiply_divide_lt(i as int, p.width as int, p.height as int);
            lemma_mod_bound(i as int, p.width as int);
        }
        if rows[i / p.width] || cols[i % p.width] {
            px[i] = false;
        }
        i = i + 1;
    }
    assert(px@ =~= without_holes(p@, start, base));
}

} // verus!
