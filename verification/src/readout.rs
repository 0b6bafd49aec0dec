//! What is written and drawn around the picture: its sizes, its zoom, and its histogram.

use vstd::prelude::*;
use crate::canvas::Point;
use crate::geometry::scale_rect_to_size;
use crate::options::PipelineOptions;
use crate::preview::PreviewLod;
use crate::single::Single;
use crate::text::append_decimal;
use crate::view::UvRect;

verus! {

pub open spec fn one_at_least(n: u32) -> u32 {
    if n == 0 {
        1
    } else {
        n
    }
}

/// Size of the crop in pixels of the source, where the picture is cropped.
pub open spec fn crop_size(options: PipelineOptions, w: u32, h: u32) -> Option<(u32, u32)> {
    match options.crop_rect {
        Some(rect) => if options.apply_crop {
            let r = crate::geometry::scaled_rect(rect, options.crop_rect_reference_size, w, h);
            Some((one_at_least(r.width), one_at_least(r.height)))
        } else {
            None
        },
        None => None,
    }
}

/// Size of what is exported of a source of `w` by `h` pixels, where it is cropped.
pub fn crop_dims(options: &PipelineOptions, w: u32, h: u32) -> (r: Option<(u32, u32)>)
    ensures
        r == crop_size(*options, w, h),
{
    if !options.apply_crop {
        return None;
    }
    match options.crop_rect {
        Some(rect) => {
            let s = scale_rect_to_size(rect, options.crop_rect_reference_size, w, h);
            Some(
                (
                    if s.width == 0 {
                        1
                    } else {
                        s.width
                    },
                    if s.height == 0 {
                        1
                    } else {
                        s.height
                    },
                ),
            )
        },
        None => None,
    }
}

/// Whether the line below the picture says that it is being refined.
pub fn is_refining(
    lod: PreviewLod,
    full_res: bool,
    zoom: Single,
    in_flight: bool,
    screen: (u32, u32),
) -> (r: bool)
    ensures
        r == (lod == PreviewLod::Draft && !full_res && zoom.at_most(Single::whole(1)) && (in_flight
            || screen.0 > crate::view::PREVIEW_DRAFT_MAX || screen.1
            > crate::view::PREVIEW_DRAFT_MAX)),
{
    lod == PreviewLod::Draft && !full_res && zoom.at_most(Single::whole(1)) && (in_flight
        || screen.0 > crate::view::PREVIEW_DRAFT_MAX || screen.1 > crate::view::PREVIEW_DRAFT_MAX)
}

/// Tiles of a view, for the line below the picture.
#[derive(Debug, Clone, Copy, PartialEq, Eq)]
pub struct TileCount {
    pub count: usize,
    /// Whether one more is on its way.
    pub in_flight: bool,
}

/// How many tiles the line below the picture mentions, if any: not while settings or the view
/// change, nor where there are none.
pub fn tiles_to_mention(
    soft: bool,
    dirty: bool,
    view_moves: bool,
    count: usize,
    in_flight: bool,
) -> (r: Option<TileCount>)
    ensures
        r == if soft && !dirty && !view_moves && (in_flight || count > 0) {
            Some(TileCount { count, in_flight })
        } else {
            None
        },
{
    if soft && !dirty && !view_moves && (in_flight || count > 0) {
        Some(TileCount { count, in_flight })
    } else {
        None
    }
}

/// A size in words.
pub open spec fn size_words(size: (u32, u32)) -> Seq<char> {
    crate::text::decimal(size.0 as nat) + " × "@ + crate::text::decimal(size.1 as nat)
}

/// The line below the picture.
pub open spec fn info_words(
    source: (u32, u32),
    crop: Option<(u32, u32)>,
    zoom: Seq<char>,
    refining: bool,
    tiles: Option<TileCount>,
) -> Seq<char> {
    let sizes = match crop {
        Some(c) => size_words(source) + "  ->  "@ + size_words(c),
        None => size_words(source),
    };
    let plain = sizes + "  ·  "@ + zoom + "%"@;
    let refined = if refining {
        plain + "  ·  Refining…"@
    } else {
        plain
    };
    match tiles {
        Some(t) => refined + "  ·  1:1 tiles ("@ + crate::text::decimal(t.count as nat) + if t.in_flight {
            ")…"@
        } else {
            ")"@
        },
        None => refined,
    }
}

/// The line below the picture: the size of the source, that of the crop, the zoom in per cent
/// as it is given, and what is under way.
pub fn info_text(
    source: (u32, u32),
    crop: Option<(u32, u32)>,
    zoom: &str,
    refining: bool,
    tiles: Option<TileCount>,
) -> (r: String)
    ensures
        r@ == info_words(source, crop, zoom@, refining, tiles),
{
    let mut out: String = String::new();
    append_decimal(&mut out, source.0 as u64);
    out.append(" × ");
    append_decimal(&mut out, source.1 as u64);
    proof {
        assert(out@ =~= size_words(source));
    }
    if let Some(c) = crop {
        out.append("  ->  ");
        let ghost before = out@;
        append_decimal(&mut out, c.0 as u64);
        out.append(" × ");
        append_decimal(&mut out, c.1 as u64);
        proof {
            assert(out@ =~= before + size_words(c));
        }
    }
    out.append("  ·  ");
    out.append(zoom);
    out.append("%");
    if refining {
        out.append("  ·  Refining…");
    }
    if let Some(t) = tiles {
        out.append("  ·  1:1 tiles (");
        append_decimal(&mut out, t.count as u64);
        if t.in_flight {
            out.append(")…");
        } else {
            out.append(")");
        }
    }
    out
}

/// A point of a histogram's curve.
#[derive(Debug, Clone, Copy, PartialEq, Eq, Structural)]
pub struct CurvePoint {
    pub at: Point,
    /// Whether the count is higher than the histogram.
    pub clipped: bool,
}

/// The point for one bin of a histogram that is drawn in `area`.
pub open spec fn curve_point(count: u32, bin: int, scale: Single, area: UvRect) -> CurvePoint {
    let w = area.right.minus(area.left).larger(Single::whole(1));
    let raw = Single::whole(count as u64).over(scale);
    CurvePoint {
        at: Point {
            x: area.left.plus(
                Single::whole(bin as u64).over(Single::whole(255)).times(w),
            ),
            y: area.bottom.minus(
                area.bottom.minus(area.top).times(raw.smaller(Single::whole(1))),
            ).clamp(area.top, area.bottom),
        },
        clipped: Single::whole(1).less(raw),
    }
}

/// The curve of one channel: a point for each bin, as high as its count, cut at the top.
pub fn histogram_curve(counts: &[u32; 256], scale: Single, area: UvRect) -> (r: Vec<CurvePoint>)
    ensures
        r@.len() == 256,
        forall|i: int|
            0 <= i < 256 ==> #[trigger] r@[i] == curve_point(counts@[i], i, scale, area),
{
    let mut out: Vec<CurvePoint> = Vec::new();
    let w: Single = area.right.minus(area.left).larger(Single::whole(1));
    let h: Single = area.bottom.minus(area.top);
    let mut i: usize = 0;
    while i < 256
        invariant
            i <= 256,
            out@.len() == i,
            w == area.right.minus(area.left).larger(Single::whole(1)),
            h == area.bottom.minus(area.top),
            forall|k: int|
                0 <= k < i ==> #[trigger] out@[k] == curve_point(counts@[k], k, scale, area),
        decreases 256 - i,
    {
        let raw: Single = Single::whole(counts[i] as u64).over(scale);
        out.push(
            CurvePoint {
                at: Point {
                    x: area.left.plus(
                        Single::whole(i as u64).over(Single::whole(255)).times(w),
                    ),
                    y: area.bottom.minus(h.times(raw.smaller(Single::whole(1)))).clamp(
                        area.top,
                        area.bottom,
                    ),
                },
                clipped: Single::whole(1).less(raw),
            },
        );
        i = i + 1;
    }
    out
}

} // verus!
