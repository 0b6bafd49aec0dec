//! How well crops that were found agree with crops that were drawn by hand.

use vstd::prelude::*;
use crate::auto_crop::AutoCropResult;
use crate::options::Rect;
use crate::single::Single;
use crate::stats::sorted;

verus! {

/// Edges of a rectangle as parts of the picture's sides.
#[derive(Debug, Clone, Copy, PartialEq, Eq, Structural)]
pub struct Parts {
    pub left: Single,
    pub top: Single,
    pub right: Single,
    pub bottom: Single,
}

/// A place as a part of a side, which counts as one pixel at least.
pub open spec fn part_of(at: int, side: u32) -> Single {
    Single::whole(at as u64).over(
        Single::whole(
            if side > 1 {
                side as u64
            } else {
                1
            },
        ),
    )
}

/// Edges of a rectangle as parts of a picture of this size.
pub open spec fn parts_of(r: Rect, size: (u32, u32)) -> Parts {
    Parts {
        left: part_of(r.x as int, size.0),
        top: part_of(r.y as int, size.1),
        right: part_of(r.x + r.width, size.0),
        bottom: part_of(r.y + r.height, size.1),
    }
}

fn part(at: u64, side: u32) -> (r: Single)
    ensures
        r == part_of(at as int, side),
{
    let n: u64 = if side > 1 {
        side as u64
    } else {
        1
    };
    Single::whole(at).over(Single::whole(n))
}

/// Edges of a rectangle as parts of a picture of this size.
pub fn norm(r: Rect, size: (u32, u32)) -> (p: Parts)
    requires
        r.x + r.width <= u32::MAX,
        r.y + r.height <= u32::MAX,
    ensures
        p == parts_of(r, size),
{
    Parts {
        left: part(r.x as u64, size.0),
        top: part(r.y as u64, size.1),
        right: part(r.x as u64 + r.width as u64, size.0),
        bottom: part(r.y as u64 + r.height as u64, size.1),
    }
}

/// Area between edges, none where they cross.
pub open spec fn area_of(left: Single, top: Single, right: Single, bottom: Single) -> Single {
    right.minus(left).larger(Single::whole(0)).times(bottom.minus(top).larger(Single::whole(0)))
}

fn area(left: Single, top: Single, right: Single, bottom: Single) -> (r: Single)
    ensures
        r == area_of(left, top, right, bottom),
{
    right.minus(left).larger(Single::whole(0)).times(bottom.minus(top).larger(Single::whole(0)))
}

/// What two rectangles have in common.
pub open spec fn common(a: Parts, b: Parts) -> Single {
    area_of(
        a.left.larger(b.left),
        a.top.larger(b.top),
        a.right.smaller(b.right),
        a.bottom.smaller(b.bottom),
    )
}

/// What two rectangles cover together.
pub open spec fn covered(a: Parts, b: Parts) -> Single {
    area_of(a.left, a.top, a.right, a.bottom).plus(
        area_of(b.left, b.top, b.right, b.bottom),
    ).minus(common(a, b))
}

pub open spec fn overlap(a: Parts, b: Parts) -> Single {
    if covered(a, b).at_most(Single::ratio(1, 1_000_000)) {
        Single::whole(0)
    } else {
        common(a, b).over(covered(a, b))
    }
}

/// What two rectangles have in common, as a part of what they cover together; none where they
/// cover nothing.
pub fn iou_norm(a: Parts, b: Parts) -> (r: Single)
    ensures
        r == overlap(a, b),
{
    let shared: Single = area(
        a.left.larger(b.left),
        a.top.larger(b.top),
        a.right.smaller(b.right),
        a.bottom.smaller(b.bottom),
    );
    let all: Single = area(a.left, a.top, a.right, a.bottom).plus(
        area(b.left, b.top, b.right, b.bottom),
    ).minus(shared);
    if all.at_most(Single::ratio(1, 1_000_000)) {
        Single::whole(0)
    } else {
        shared.over(all)
    }
}

/// How far a crop is from the one drawn by hand.
#[derive(Debug, Clone, Copy, PartialEq, Eq, Structural)]
pub struct CropScore {
    pub iou: Single,
    /// How far each edge is off.
    pub dl: Single,
    pub dt: Single,
    pub dr: Single,
    pub db: Single,
    /// The farthest of them.
    pub max_e: Single,
}

pub open spec fn score_spec(drawn: Parts, found: Parts) -> CropScore {
    let dl = found.left.minus(drawn.left);
    let dt = found.top.minus(drawn.top);
    let dr = found.right.minus(drawn.right);
    let db = found.bottom.minus(drawn.bottom);
    CropScore {
        iou: overlap(drawn, found),
        dl,
        dt,
        dr,
        db,
        max_e: dl.abs().larger(dt.abs()).larger(dr.abs()).larger(db.abs()),
    }
}

/// How far a crop is from the one drawn by hand; where none was found, as far as can be.
pub fn score_row(drawn: Rect, drawn_size: (u32, u32), found: Option<&AutoCropResult>) -> (r:
    CropScore)
    requires
        drawn.x + drawn.width <= u32::MAX,
        drawn.y + drawn.height <= u32::MAX,
        found matches Some(f) ==> f.rect.x + f.rect.width <= u32::MAX && f.rect.y + f.rect.height
            <= u32::MAX,
    ensures
        r == match found {
            Some(f) => score_spec(
                parts_of(drawn, drawn_size),
                parts_of(f.rect, f.reference_size),
            ),
            None => CropScore {
                iou: Single::whole(0),
                dl: Single::whole(0),
                dt: Single::whole(0),
                dr: Single::whole(0),
                db: Single::whole(0),
                max_e: Single::whole(1),
            },
        },
{
    match found {
        Some(f) => {
            let g: Parts = norm(drawn, drawn_size);
            let p: Parts = norm(f.rect, f.reference_size);
            let dl: Single = p.left.minus(g.left);
            let dt: Single = p.top.minus(g.top);
            let dr: Single = p.right.minus(g.right);
            let db: Single = p.bottom.minus(g.bottom);
            CropScore {
                iou: iou_norm(g, p),
                dl,
                dt,
                dr,
                db,
                max_e: dl.abs().larger(dt.abs()).larger(dr.abs()).larger(db.abs()),
            }
        },
        None => CropScore {
            iou: Single::whole(0),
            dl: Single::whole(0),
            dt: Single::whole(0),
            dr: Single::whole(0),
            db: Single::whole(0),
            max_e: Single::whole(1),
        },
    }
}

/// Whether a crop can be used as it is.
pub fn usable(score: &CropScore) -> (r: bool)
    ensures
        r == (Single::ratio(85, 100).at_most(score.iou) || score.max_e.at_most(
            Single::ratio(5, 100),
        )),
{
    Single::ratio(85, 100).at_most(score.iou) || score.max_e.at_most(Single::ratio(5, 100))
}

/// The value at part `p` of the way through the values in ascending order, the nearest one;
/// zero where there are none.
pub open spec fn nearest_rank(values: Seq<Single>, p: Single) -> Single {
    let n = values.len();
    if n == 0 {
        Single::whole(0)
    } else {
        let i = Single::whole((n - 1) as u64).times(p).rounded().to_int(u64::MAX);
        crate::stats::ascending(values)[if i < n - 1 {
            i as int
        } else {
            n - 1
        }]
    }
}

/// The value at part `p` of the way through the values.
pub fn percentile(values: &Vec<Single>, p: Single) -> (r: Single)
    ensures
        r == nearest_rank(values@, p),
{
    if values.len() == 0 {
        return Single::whole(0);
    }
    let s: Vec<Single> = sorted(values);
    let last: usize = s.len() - 1;
    let i: u64 = Single::whole(last as u64).times(p).rounded().to_int(u64::MAX);
    if i < last as u64 {
        s[i as usize]
    } else {
        s[last]
    }
}

/// The overlaps of all crops.
pub open spec fn overlaps_of(scores: Seq<CropScore>) -> Seq<Single> {
    scores.map_values(|s: CropScore| s.iou)
}

/// Sum of values, from the first on.
pub open spec fn sum_of(values: Seq<Single>) -> Single
    decreases values.len(),
{
    if values.len() == 0 {
        Single::whole(0)
    } else {
        sum_of(values.drop_last()).plus(values.last())
    }
}

/// How many crops pass a test.
pub open spec fn count_of(scores: Seq<CropScore>, test: spec_fn(CropScore) -> bool) -> nat {
    scores.filter(test).len()
}

/// Whether two crops have at least this many hundredths in common.
pub open spec fn overlaps_by(hundredths: u32) -> spec_fn(CropScore) -> bool {
    |s: CropScore| Single::ratio(hundredths, 100).at_most(s.iou)
}

/// Whether no edge is off by more than this many hundredths.
pub open spec fn within_edge(hundredths: u32) -> spec_fn(CropScore) -> bool {
    |s: CropScore| s.max_e.at_most(Single::ratio(hundredths, 100))
}

pub open spec fn is_usable() -> spec_fn(CropScore) -> bool {
    |s: CropScore|
        Single::ratio(85, 100).at_most(s.iou) || s.max_e.at_most(Single::ratio(5, 100))
}

/// How well a whole roll was cropped.
#[derive(Debug, Clone, Copy, PartialEq, Eq, Structural)]
pub struct RollScore {
    pub mean_iou: Single,
    pub median_iou: Single,
    /// Crops that have at least 80, 85 and 90 hundredths in common with the drawn ones.
    pub by_80: usize,
    pub by_85: usize,
    pub by_90: usize,
    /// Crops no edge of which is off by more than 4 hundredths.
    pub edge_4: usize,
    pub usable: usize,
}

/// The score of a roll: its mean is taken from the worst crop to the best.
pub open spec fn roll_score_spec(scores: Seq<CropScore>) -> RollScore {
    let n = if scores.len() > 0 {
        scores.len()
    } else {
        1
    };
    RollScore {
        mean_iou: sum_of(crate::stats::ascending(overlaps_of(scores))).over(Single::whole(n as u64)),
        median_iou: nearest_rank(overlaps_of(scores), Single::ratio(1, 2)),
        by_80: count_of(scores, overlaps_by(80)) as usize,
        by_85: count_of(scores, overlaps_by(85)) as usize,
        by_90: count_of(scores, overlaps_by(90)) as usize,
        edge_4: count_of(scores, within_edge(4)) as usize,
        usable: count_of(scores, is_usable()) as usize,
    }
}

proof fn lemma_count_push(scores: Seq<CropScore>, n: int, test: spec_fn(CropScore) -> bool)
    requires
        0 <= n < scores.len(),
    ensures
        count_of(scores.take(n + 1), test) == count_of(scores.take(n), test) + if test(scores[n]) {
            1nat
        } else {
            0nat
        },
        count_of(scores.take(n), test) <= n,
{
    assert(scores.take(n + 1).drop_last() =~= scores.take(n));
    reveal(Seq::filter);
    scores.take(n).lemma_filter_len(test);
}

/// How well a whole roll was cropped.
pub fn roll_score(scores: &Vec<CropScore>) -> (r: RollScore)
    ensures
        r == roll_score_spec(scores@),
{
    let mut ious: Vec<Single> = Vec::new();
    let (mut a, mut b, mut c, mut d, mut e): (usize, usize, usize, usize, usize) = (0, 0, 0, 0, 0);
    let n: usize = scores.len();
    let mut i: usize = 0;
    proof {
        reveal(Seq::filter);
    }
    while i < n
        invariant
            n == scores.len(),
            i <= n,
            ious@ == overlaps_of(scores@.take(i as int)),
            a == count_of(scores@.take(i as int), overlaps_by(80)),
            b == count_of(scores@.take(i as int), overlaps_by(85)),
            c == count_of(scores@.take(i as int), overlaps_by(90)),
            d == count_of(scores@.take(i as int), within_edge(4)),
            e == count_of(scores@.take(i as int), is_usable()),
        decreases n - i,
    {
        let s: CropScore = scores[i];
        proof {
            lemma_count_push(scores@, i as int, overlaps_by(80));
            lemma_count_push(scores@, i as int, overlaps_by(85));
            lemma_count_push(scores@, i as int, overlaps_by(90));
            lemma_count_push(scores@, i as int, within_edge(4));
            lemma_count_push(scores@, i as int, is_usable());
        }
        if Single::ratio(80, 100).at_most(s.iou) {
            a = a + 1;
        }
        if Single::ratio(85, 100).at_most(s.iou) {
            b = b + 1;
        }
        if Single::ratio(90, 100).at_most(s.iou) {
            c = c + 1;
        }
        if s.max_e.at_most(Single::ratio(4, 100)) {
            d = d + 1;
        }
        if usable(&s) {
            e = e + 1;
        }
        ious.push(s.iou);
        i = i + 1;
        assert(ious@ =~= overlaps_of(scores@.take(i as int)));
    }
    assert(scores@.take(n as int) =~= scores@);
    let up: Vec<Single> = sorted(&ious);
    let mut sum: Single = Single::whole(0);
    let mut k: usize = 0;
    while k < up.len()
        invariant
            k <= up.len(),
            sum == sum_of(up@.take(k as int)),
        decreases up.len() - k,
    {
        assert(up@.take(k + 1).drop_last() =~= up@.take(k as int));
        sum = sum.plus(up[k]);
        k = k + 1;
    }
    assert(up@.take(k as int) =~= up@);
    let count: u64 = if n > 0 {
        n as u64
    } else {
        1
    };
    RollScore {
        mean_iou: sum.over(Single::whole(count)),
        median_iou: percentile(&ious, Single::ratio(1, 2)),
        by_80: a,
        by_85: b,
        by_90: c,
        edge_4: d,
        usable: e,
    }
}

/// Edges on the picture or beyond it, none below zero.
pub open spec fn on_picture(p: Parts) -> bool {
    &&& p.left.finite() && !p.left.negative()
    &&& p.top.finite() && !p.top.negative()
    &&& p.right.finite() && !p.right.negative()
    &&& p.bottom.finite() && !p.bottom.negative()
}

proof fn lemma_either_way(a: Single, b: Single)
    requires
        a.finite(),
        !a.negative(),
        b.finite(),
        !b.negative(),
    ensures
        a.larger(b) == b.larger(a),
        a.smaller(b) == b.smaller(a),
{
    reveal(Single::larger_spec);
    reveal(Single::smaller_spec);
    if a.key() == b.key() {
        assert(a.bits == b.bits);
    }
}

/// A crop is judged alike whichever of the two was drawn by hand.
pub proof fn overlap_is_mutual(a: Parts, b: Parts)
    requires
        on_picture(a),
        on_picture(b),
    ensures
        overlap(a, b) == overlap(b, a),
{
    lemma_either_way(a.left, b.left);
    lemma_either_way(a.top, b.top);
    lemma_either_way(a.right, b.right);
    lemma_either_way(a.bottom, b.bottom);
    assert(common(a, b) == common(b, a));
    let x = area_of(a.left, a.top, a.right, a.bottom);
    let y = area_of(b.left, b.top, b.right, b.bottom);
    assert(x.plus(y) == y.plus(x)) by {
        reveal(Single::plus_spec);
    }
}

} // verus!
