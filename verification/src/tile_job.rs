//! Cutting one tile out of the sensor and placing it on the preview.

use vstd::prelude::*;
use crate::options::{PipelineOptions, Rect};
use crate::single::Single;
use crate::tile_cache::TileFetch;
use crate::tiles::{PREVIEW_TILE_HALO, PREVIEW_TILE_SIZE};
use crate::view::{tile_space, UvRect};

verus! {

/// What is cut for one tile, in pixels of the turned sensor, and where it is shown.
#[derive(Debug, Clone, Copy, PartialEq, Eq, Structural)]
pub struct TilePlan {
    pub area: Rect,
    /// Pixels read around the area.
    pub halo: u32,
    /// The tile in parts of the tile grid.
    pub uv: UvRect,
    /// The tile in parts of the turned sensor.
    pub sensor_uv: UvRect,
}

/// First pixel and length of tile `i` along one axis: a grid of `grid` pixels that starts at
/// `origin`, on a sensor of `total`. None where the tile lies outside.
pub open spec fn tile_span(origin: u32, grid: u32, total: u32, i: int) -> Option<(int, int)> {
    let start = origin + i * PREVIEW_TILE_SIZE;
    let end = if origin + grid < total {
        origin + grid
    } else {
        total as int
    };
    if i < 0 || start >= end {
        None
    } else if end - start < PREVIEW_TILE_SIZE {
        Some((start, end - start))
    } else {
        Some((start, PREVIEW_TILE_SIZE as int))
    }
}

fn span_of_tile(origin: u32, grid: u32, total: u32, i: i32) -> (r: Option<(u32, u32)>)
    ensures
        match r {
            None => tile_span(origin, grid, total, i as int) is None,
            Some((start, len)) => tile_span(origin, grid, total, i as int) == Some(
                (start as int, len as int),
            ) && start + len <= total,
        },
{
    if i < 0 {
        return None;
    }
    assert(0 <= i * PREVIEW_TILE_SIZE <= 0x100_0000_0000) by (nonlinear_arith)
        requires
            0 <= i <= 0x7fff_ffff,
            PREVIEW_TILE_SIZE == 512,
    ;
    let start: u64 = origin as u64 + i as u64 * PREVIEW_TILE_SIZE as u64;
    let edge: u64 = origin as u64 + grid as u64;
    let end: u64 = if edge < total as u64 {
        edge
    } else {
        total as u64
    };
    if start >= end {
        return None;
    }
    let left: u64 = end - start;
    let len: u64 = if left < PREVIEW_TILE_SIZE as u64 {
        left
    } else {
        PREVIEW_TILE_SIZE as u64
    };
    Some((start as u32, len as u32))
}

/// Pixels read around a tile with these settings.
pub open spec fn halo_for(options: PipelineOptions) -> int {
    let reach = options.bujack_radius.ceil_int(0, 0xffff_ffff) + 8;
    if options.bujack_enabled && reach > PREVIEW_TILE_HALO {
        reach
    } else {
        PREVIEW_TILE_HALO as int
    }
}

/// How many pixels are read around a tile: enough for the widest filter.
pub fn tile_halo(options: &PipelineOptions) -> (r: u32)
    requires
        halo_for(*options) <= u32::MAX,
    ensures
        r == halo_for(*options),
        r >= PREVIEW_TILE_HALO,
{
    if options.bujack_enabled {
        let reach: i64 = options.bujack_radius.ceil_int(0, 0xffff_ffff);
        proof {
            reveal(Single::ceil_int_spec);
        }
        if reach + 8 > PREVIEW_TILE_HALO as i64 {
            return (reach + 8) as u32;
        }
    }
    PREVIEW_TILE_HALO
}

/// First edge of a tile with one pixel of overlap.
pub open spec fn low_edge(start: int) -> Single {
    Single::whole(start as u64).minus(Single::whole(1)).larger(Single::whole(0))
}

/// Last edge of a tile with one pixel of overlap.
pub open spec fn high_edge(end: int, total: u32) -> Single {
    Single::whole(end as u64).plus(Single::whole(1)).smaller(Single::whole(total as u64))
}

/// A place on the sensor in parts of the tile grid.
pub open spec fn in_grid(p: Single, origin: u32, grid: u32) -> Single {
    crate::tiles::part(
        p.minus(Single::whole(origin as u64)).over(crate::view::side(grid)),
    )
}

fn to_grid(p: Single, origin: u32, grid: u32) -> (r: Single)
    ensures
        r == in_grid(p, origin, grid),
{
    p.minus(Single::whole(origin as u64)).over(
        Single::whole(grid as u64).larger(Single::whole(1)),
    ).clamp(Single::whole(0), Single::whole(1))
}

/// The plan for a tile that covers these pixels.
pub open spec fn planned(
    options: PipelineOptions,
    space: Rect,
    ow: u32,
    oh: u32,
    across: (int, int),
    down: (int, int),
) -> TilePlan {
    let l = low_edge(across.0);
    let t = low_edge(down.0);
    let r = high_edge(across.0 + across.1, ow);
    let b = high_edge(down.0 + down.1, oh);
    TilePlan {
        area: Rect {
            x: across.0 as u32,
            y: down.0 as u32,
            width: across.1 as u32,
            height: down.1 as u32,
        },
        halo: halo_for(options) as u32,
        uv: UvRect {
            left: in_grid(l, space.x, space.width),
            top: in_grid(t, space.y, space.height),
            right: in_grid(r, space.x, space.width),
            bottom: in_grid(b, space.y, space.height),
        },
        sensor_uv: UvRect {
            left: l.over(Single::whole(ow as u64)),
            top: t.over(Single::whole(oh as u64)),
            right: r.over(Single::whole(ow as u64)),
            bottom: b.over(Single::whole(oh as u64)),
        },
    }
}

/// Plans tile `(ix, iy)` of a turned sensor of `ow` by `oh` pixels; none where there is no
/// such tile. What is shown is the tile itself and one pixel of overlap, not its halo, in
/// which filters leave fringes.
pub fn plan_tile(options: &PipelineOptions, ow: u32, oh: u32, ix: i32, iy: i32) -> (r: Option<
    TilePlan,
>)
    requires
        halo_for(*options) <= u32::MAX,
    ensures
        ({
            let space = crate::view::grid_space(*options, ow, oh);
            match (
                tile_span(space.x, space.width, ow, ix as int),
                tile_span(space.y, space.height, oh, iy as int),
            ) {
                (Some(across), Some(down)) => ow > 0 && oh > 0 && r == Some(
                    planned(*options, space, ow, oh, across, down),
                ),
                _ => r is None,
            }
        }),
{
    if ow == 0 || oh == 0 {
        return None;
    }
    let space: Rect = tile_space(options, ow, oh);
    let (x, tw) = match span_of_tile(space.x, space.width, ow, ix) {
        Some(s) => s,
        None => {
            return None;
        },
    };
    let (y, th) = match span_of_tile(space.y, space.height, oh, iy) {
        Some(s) => s,
        None => {
            return None;
        },
    };
    let halo: u32 = tile_halo(options);
    let zero: Single = Single::whole(0);
    let one: Single = Single::whole(1);
    let owf: Single = Single::whole(ow as u64);
    let ohf: Single = Single::whole(oh as u64);
    let l: Single = Single::whole(x as u64).minus(one).larger(zero);
    let t: Single = Single::whole(y as u64).minus(one).larger(zero);
    let r: Single = Single::whole((x + tw) as u64).plus(one).smaller(owf);
    let b: Single = Single::whole((y + th) as u64).plus(one).smaller(ohf);
    Some(
        TilePlan {
            area: Rect { x, y, width: tw, height: th },
            halo,
            uv: UvRect {
                left: to_grid(l, space.x, space.width),
                top: to_grid(t, space.y, space.height),
                right: to_grid(r, space.x, space.width),
                bottom: to_grid(b, space.y, space.height),
            },
            sensor_uv: UvRect {
                left: l.over(owf),
                top: t.over(ohf),
                right: r.over(owf),
                bottom: b.over(ohf),
            },
        },
    )
}

/// A place on the sensor in parts of what was cut from `from` to `to`.
pub open spec fn in_cut(p: Single, from: Single, to: Single) -> Single {
    crate::tiles::part(
        p.minus(from).over(to.minus(from).larger(Single::ratio(1, 1_000_000))),
    )
}

fn to_cut(p: Single, from: Single, to: Single) -> (r: Single)
    ensures
        r == in_cut(p, from, to),
{
    p.minus(from).over(to.minus(from).larger(Single::ratio(1, 1_000_000))).clamp(
        Single::whole(0),
        Single::whole(1),
    )
}

/// Where the tile lies in the picture that was made of the cut, which has its halo around it.
/// `cut` is the cut in parts of the turned sensor.
pub fn tile_texture_uv(plan: &TilePlan, cut: &UvRect) -> (r: UvRect)
    ensures
        r == (UvRect {
            left: in_cut(plan.sensor_uv.left, cut.left, cut.right),
            top: in_cut(plan.sensor_uv.top, cut.top, cut.bottom),
            right: in_cut(plan.sensor_uv.right, cut.left, cut.right),
            bottom: in_cut(plan.sensor_uv.bottom, cut.top, cut.bottom),
        }),
{
    UvRect {
        left: to_cut(plan.sensor_uv.left, cut.left, cut.right),
        top: to_cut(plan.sensor_uv.top, cut.top, cut.bottom),
        right: to_cut(plan.sensor_uv.right, cut.left, cut.right),
        bottom: to_cut(plan.sensor_uv.bottom, cut.top, cut.bottom),
    }
}

/// Settings that a tile is made with: those of the preview, and where the strokes of dust are
/// healed, the part of the sensor that was cut.
pub fn tile_options(baked: PipelineOptions, heals: bool, strokes: usize, cut: &UvRect) -> (r:
    PipelineOptions)
    ensures
        r == (PipelineOptions {
            verbose_debug: false,
            dust_uv: if heals && strokes > 0 {
                Some((cut.left, cut.top, cut.right, cut.bottom))
            } else {
                baked.dust_uv
            },
            ..baked
        }),
{
    let dust_uv: Option<(Single, Single, Single, Single)> = if heals && strokes > 0 {
        Some((cut.left, cut.top, cut.right, cut.bottom))
    } else {
        baked.dust_uv
    };
    PipelineOptions { verbose_debug: false, dust_uv, ..baked }
}

/// A tile is being made.
pub fn begin_tile<T>(fetch: &mut TileFetch<T>, ix: i32, iy: i32)
    ensures
        final(fetch).inflight == Some((ix, iy)),
        final(fetch).cache == old(fetch).cache,
        final(fetch).failed == old(fetch).failed,
        final(fetch).generation == old(fetch).generation,
{
    fetch.inflight = Some((ix, iy));
}

/// A tile could not be cut out of the sensor, and is not asked for again in this generation.
pub fn tile_not_cut<T>(fetch: &mut TileFetch<T>, ix: i32, iy: i32)
    ensures
        final(fetch).failed@ == old(fetch).failed@.push((old(fetch).generation, ix, iy)),
        final(fetch).cache == old(fetch).cache,
        final(fetch).inflight == old(fetch).inflight,
        final(fetch).generation == old(fetch).generation,
{
    fetch.failed.push((fetch.generation, ix, iy));
}

/// Along each axis every pixel of the grid that is on the sensor lies in exactly one tile.
pub proof fn every_pixel_has_one_tile(origin: u32, grid: u32, total: u32, p: int)
    requires
        origin <= p < total,
        p < origin + grid,
    ensures
        ({
            let i = (p - origin) / (PREVIEW_TILE_SIZE as int);
            &&& i >= 0
            &&& tile_span(origin, grid, total, i) matches Some((start, len)) && start <= p < start
                + len
            &&& forall|j: int|
                (#[trigger] tile_span(origin, grid, total, j) matches Some((start, len)) && start
                    <= p < start + len) ==> j == i
        }),
{
    let i = (p - origin) / (PREVIEW_TILE_SIZE as int);
    assert forall|j: int|
        (#[trigger] tile_span(origin, grid, total, j) matches Some((start, len)) && start <= p
            < start + len) implies j == i by {}
}

/// A planned tile lies on the sensor, in the grid, and is no larger than a tile.
pub proof fn planned_tile_lies_in_grid(origin: u32, grid: u32, total: u32, i: int)
    ensures
        tile_span(origin, grid, total, i) matches Some((start, len)) ==> origin <= start && 0 < len
            <= PREVIEW_TILE_SIZE && start + len <= total && start + len <= origin + grid,
{
}

} // verus!
