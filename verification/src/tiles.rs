//! Full-resolution tiles of the preview: which ones are on screen, which are kept, and which
//! is fetched next.

use vstd::prelude::*;
use crate::options::{PipelineOptions, Rect};
use crate::orient::oriented_size;
use crate::single::Single;
use crate::view::{preview_display_wh, proxy_is_soft, tile_space, UvRect};

verus! {

/// Side of a tile, in sensor pixels.
pub const PREVIEW_TILE_SIZE: u32 = 512;

/// Tiles that are kept though nothing on screen needs them.
pub const PREVIEW_TILE_LRU: usize = 16;

/// The most tiles that are kept for one view.
pub const PREVIEW_TILE_MAX: usize = 192;

/// Pixels read around a tile, so that filters do not show at its edge.
pub const PREVIEW_TILE_HALO: u32 = 32;

/// No picture has more tiles than this in a row or column.
pub const TILE_SPAN: i32 = 0x80_0000;

/// The tiles on screen: columns `ix0..=ix1` of rows `iy0..=iy1`.
#[derive(Debug, Clone, Copy, PartialEq, Eq, Structural)]
pub struct VisibleTileGrid {
    pub ix0: i32,
    pub iy0: i32,
    pub ix1: i32,
    pub iy1: i32,
    pub opt_hash: u64,
    /// The proxy is softer than the tiles.
    pub proxy_soft: bool,
    /// All tiles on screen can be kept.
    pub tiles_fit: bool,
    pub core_n: usize,
}

/// One millionth, within which two distances are the same.
pub open spec fn tiny() -> Single {
    Single::ratio(1, 1_000_000)
}

impl VisibleTileGrid {
    /// The edges are in order and within a picture.
    pub open spec fn wf(self) -> bool {
        &&& -TILE_SPAN <= self.ix0 <= self.ix1 < TILE_SPAN
        &&& -TILE_SPAN <= self.iy0 <= self.iy1 < TILE_SPAN
    }

    pub open spec fn contains_spec(self, ix: i32, iy: i32) -> bool {
        self.ix0 <= ix <= self.ix1 && self.iy0 <= iy <= self.iy1
    }

    /// The tile is on screen.
    #[verifier::when_used_as_spec(contains_spec)]
    pub fn contains(self, ix: i32, iy: i32) -> (r: bool)
        ensures
            r == self.contains_spec(ix, iy),
    {
        ix >= self.ix0 && ix <= self.ix1 && iy >= self.iy0 && iy <= self.iy1
    }

    /// Distance of a tile from the middle of the view, in tiles.
    pub open spec fn distance_spec(self, ix: i32, iy: i32) -> Single {
        let dx = 2 * ix - (self.ix0 + self.ix1);
        let dy = 2 * iy - (self.iy0 + self.iy1);
        Single::whole((dx * dx + dy * dy) as u64).square_root().times(Single::ratio(1, 2))
    }

    pub fn distance(self, ix: i32, iy: i32) -> (r: Single)
        requires
            self.wf(),
            self.contains(ix, iy),
        ensures
            r == self.distance_spec(ix, iy),
    {
        let dx: i64 = 2 * ix as i64 - (self.ix0 as i64 + self.ix1 as i64);
        let dy: i64 = 2 * iy as i64 - (self.iy0 as i64 + self.iy1 as i64);
        proof {
            lemma_square(dx as int);
            lemma_square(dy as int);
        }
        Single::whole((dx * dx + dy * dy) as u64).square_root().times(Single::ratio(1, 2))
    }

    /// Tile `(x, y)` is taken before tile `(ix, iy)`: it is nearer to the middle, or as near
    /// and above or to the left.
    pub open spec fn nearer_spec(self, x: i32, y: i32, ix: i32, iy: i32) -> bool {
        let d = self.distance_spec(ix, iy);
        let dd = self.distance_spec(x, y);
        dd.less(d.minus(tiny())) || (dd.minus(d).abs().at_most(tiny()) && (y < iy || (y == iy && x
            < ix)))
    }

    fn nearer(self, x: i32, y: i32, ix: i32, iy: i32) -> (r: bool)
        requires
            self.wf(),
            self.contains(ix, iy),
            self.contains(x, y),
        ensures
            r == self.nearer_spec(x, y, ix, iy),
    {
        let d: Single = self.distance(ix, iy);
        let dd: Single = self.distance(x, y);
        let small: Single = Single::ratio(1, 1_000_000);
        dd.less(d.minus(small)) || (dd.minus(d).abs().at_most(small) && (y < iy || (y == iy && x
            < ix)))
    }

    /// How many of the first `n` tiles of row `y` are taken before `(ix, iy)`.
    pub open spec fn ahead_in_row(self, ix: i32, iy: i32, y: i32, n: nat) -> nat
        decreases n,
    {
        if n == 0 {
            0
        } else {
            self.ahead_in_row(ix, iy, y, (n - 1) as nat) + if self.nearer_spec(
                (self.ix0 + n - 1) as i32,
                y,
                ix,
                iy,
            ) {
                1nat
            } else {
                0nat
            }
        }
    }

    /// How many tiles of the first `n` rows are taken before `(ix, iy)`.
    pub open spec fn ahead(self, ix: i32, iy: i32, n: nat) -> nat
        decreases n,
    {
        if n == 0 {
            0
        } else {
            self.ahead(ix, iy, (n - 1) as nat) + self.ahead_in_row(
                ix,
                iy,
                (self.iy0 + n - 1) as i32,
                (self.ix1 - self.ix0 + 1) as nat,
            )
        }
    }

    /// The tile lies on the rim of what is on screen.
    pub open spec fn on_rim(self, ix: i32, iy: i32) -> bool {
        iy == self.iy0 || iy == self.iy1 || ix == self.ix0 || ix == self.ix1
    }

    pub open spec fn is_priority_spec(self, ix: i32, iy: i32) -> bool {
        self.contains(ix, iy) && (self.tiles_fit || self.on_rim(ix, iy) || self.ahead(
            ix,
            iy,
            (self.iy1 - self.iy0 + 1) as nat,
        ) < PREVIEW_TILE_MAX)
    }

    /// The tile is fetched and kept: it is on screen, and either all tiles there can be kept,
    /// or it lies on the rim, or fewer than [`PREVIEW_TILE_MAX`] tiles are taken before it.
    #[verifier::when_used_as_spec(is_priority_spec)]
    pub fn is_priority(self, ix: i32, iy: i32) -> (r: bool)
        requires
            self.wf(),
        ensures
            r == self.is_priority_spec(ix, iy),
    {
        if !self.contains(ix, iy) {
            return false;
        }
        if self.tiles_fit {
            return true;
        }
        if iy == self.iy0 || iy == self.iy1 || ix == self.ix0 || ix == self.ix1 {
            return true;
        }
        let mut closer: usize = 0;
        let mut y: i32 = self.iy0;
        while y <= self.iy1
            invariant
                self.wf(),
                self.contains(ix, iy),
                !self.tiles_fit,
                !self.on_rim(ix, iy),
                self.iy0 <= y <= self.iy1 + 1,
                closer == self.ahead(ix, iy, (y - self.iy0) as nat),
                closer < PREVIEW_TILE_MAX,
            decreases self.iy1 + 1 - y,
        {
            let mut x: i32 = self.ix0;
            let ghost row = self.ahead(ix, iy, (y - self.iy0) as nat);
            while x <= self.ix1
                invariant
                    self.wf(),
                    self.contains(ix, iy),
                    !self.tiles_fit,
                    !self.on_rim(ix, iy),
                    self.iy0 <= y <= self.iy1,
                    self.ix0 <= x <= self.ix1 + 1,
                    row == self.ahead(ix, iy, (y - self.iy0) as nat),
                    closer == row + self.ahead_in_row(ix, iy, y, (x - self.ix0) as nat),
                    closer < PREVIEW_TILE_MAX,
                decreases self.ix1 + 1 - x,
            {
                let before: bool = self.nearer(x, y, ix, iy);
                assert((self.ix0 + (x - self.ix0 + 1) as nat - 1) as i32 == x);
                if before {
                    closer = closer + 1;
                    if closer >= PREVIEW_TILE_MAX {
                        proof {
                            self.lemma_row_grows(
                                ix,
                                iy,
                                y,
                                (x - self.ix0 + 1) as nat,
                                (self.ix1 - self.ix0 + 1) as nat,
                            );
                            assert((self.iy0 + (y - self.iy0 + 1) as nat - 1) as i32 == y);
                            self.lemma_ahead_grows(
                                ix,
                                iy,
                                (y - self.iy0 + 1) as nat,
                                (self.iy1 - self.iy0 + 1) as nat,
                            );
                        }
                        return false;
                    }
                }
                x = x + 1;
            }
            assert((self.iy0 + (y - self.iy0 + 1) as nat - 1) as i32 == y);
            y = y + 1;
        }
        true
    }

    proof fn lemma_row_grows(self, ix: i32, iy: i32, y: i32, m: nat, n: nat)
        requires
            m <= n,
        ensures
            self.ahead_in_row(ix, iy, y, m) <= self.ahead_in_row(ix, iy, y, n),
        decreases n,
    {
        if m < n {
            self.lemma_row_grows(ix, iy, y, m, (n - 1) as nat);
        }
    }

    proof fn lemma_ahead_grows(self, ix: i32, iy: i32, m: nat, n: nat)
        requires
            m <= n,
        ensures
            self.ahead(ix, iy, m) <= self.ahead(ix, iy, n),
        decreases n,
    {
        if m < n {
            self.lemma_ahead_grows(ix, iy, m, (n - 1) as nat);
        }
    }
}

proof fn lemma_square(d: int)
    requires
        -0x200_0000 <= d <= 0x200_0000,
    ensures
        0 <= d * d <= 0x4_0000_0000_0000,
{
    assert(0 <= d * d <= 0x4_0000_0000_0000) by (nonlinear_arith)
        requires
            -0x200_0000 <= d <= 0x200_0000,
    ;
}

/// The rim of a view is kept, however many tiles it has.
pub proof fn rim_is_always_kept(grid: VisibleTileGrid, ix: i32, iy: i32)
    requires
        grid.contains(ix, iy),
        grid.on_rim(ix, iy),
    ensures
        grid.is_priority(ix, iy),
{
}

/// A view that fits is kept whole, and nothing beside it.
pub proof fn fitting_view_is_kept_whole(grid: VisibleTileGrid, ix: i32, iy: i32)
    requires
        grid.tiles_fit,
    ensures
        grid.is_priority(ix, iy) == grid.contains(ix, iy),
{
}

/// Bounds of a 32-bit index.
pub const LEAST: i64 = -0x8000_0000;

pub const MOST: i64 = 0x7fff_ffff;

/// `v` brought between `lo` and `hi`.
pub open spec fn bounded(v: int, lo: int, hi: int) -> int {
    if v < lo {
        lo
    } else if v > hi {
        hi
    } else {
        v
    }
}

fn bound(v: i64, lo: i32, hi: i32) -> (r: i32)
    requires
        lo <= hi,
    ensures
        r == bounded(v as int, lo as int, hi as int),
        lo <= r <= hi,
{
    if v < lo as i64 {
        lo
    } else if v > hi as i64 {
        hi
    } else {
        v as i32
    }
}

/// The tiles of one axis that meet the pixels from `a` to `b`, given the last tile.
pub open spec fn axis_range(a: Single, b: Single, tile: Single, last: int) -> (int, int) {
    let first = bounded(
        a.smaller(b).over(tile).floor_int(LEAST, MOST) as int,
        0,
        last,
    );
    (
        first,
        bounded(
            a.larger(b).over(tile).ceil_int(LEAST, MOST) - 1,
            first,
            last,
        ),
    )
}

fn range_of_axis(a: Single, b: Single, tile: Single, last: i32) -> (r: (i32, i32))
    requires
        last >= 0,
    ensures
        (r.0 as int, r.1 as int) == axis_range(a, b, tile, last as int),
        0 <= r.0 <= r.1 <= last,
{
    let lo: i64 = a.smaller(b).over(tile).floor_int(LEAST, MOST);
    let hi: i64 = a.larger(b).over(tile).ceil_int(LEAST, MOST);
    proof {
        reveal(Single::ceil_int_spec);
    }
    let first: i32 = bound(lo, 0, last);
    (first, bound(hi - 1, first, last))
}

/// A range of tiles: first column and row, last column and row.
pub type TileRange = (i32, i32, i32, i32);

/// Tiles that meet the sensor pixels from `(px0, py0)` to `(px1, py1)`. The far edges are
/// exclusive; a tile of which only a sliver shows still counts.
pub fn tile_range_intersecting(
    px0: Single,
    py0: Single,
    px1: Single,
    py1: Single,
    tile: Single,
    tiles_x: i32,
    tiles_y: i32,
) -> (r: TileRange)
    ensures
        if tile.at_most(Single::whole(0)) || tiles_x < 1 || tiles_y < 1 {
            r == (0i32, 0i32, 0i32, 0i32)
        } else {
            &&& (r.0 as int, r.2 as int) == axis_range(px0, px1, tile, tiles_x - 1)
            &&& (r.1 as int, r.3 as int) == axis_range(py0, py1, tile, tiles_y - 1)
            &&& 0 <= r.0 <= r.2 < tiles_x
            &&& 0 <= r.1 <= r.3 < tiles_y
        },
{
    if tile.at_most(Single::whole(0)) || tiles_x < 1 || tiles_y < 1 {
        return (0, 0, 0, 0);
    }
    let (ix0, ix1) = range_of_axis(px0, px1, tile, tiles_x - 1);
    let (iy0, iy1) = range_of_axis(py0, py1, tile, tiles_y - 1);
    (ix0, iy0, ix1, iy1)
}

/// The part of the picture so near its first edge that the first tile is on screen.
pub open spec fn near_edge() -> Single {
    Single::ratio(5, 100)
}

/// The part of the picture so near its last edge that the last tile is on screen.
pub open spec fn far_edge() -> Single {
    Single::ratio(95, 100)
}

/// One axis of a tile range, stretched to the edges of the picture that are on screen.
pub open spec fn stretched(uv_a: Single, uv_b: Single, last: int, first: int, end: int) -> (
    int,
    int,
) {
    let lo = bounded(
        if uv_a.at_most(near_edge()) {
            0
        } else {
            first
        },
        0,
        last,
    );
    (
        lo,
        bounded(
            if far_edge().at_most(uv_b) {
                last
            } else {
                end
            },
            lo,
            last,
        ),
    )
}

fn stretch(uv_a: Single, uv_b: Single, last: i32, first: i32, end: i32) -> (r: (i32, i32))
    requires
        last >= 0,
    ensures
        (r.0 as int, r.1 as int) == stretched(uv_a, uv_b, last as int, first as int, end as int),
        0 <= r.0 <= r.1 <= last,
{
    let lo: i32 = bound(
        if uv_a.at_most(Single::ratio(5, 100)) {
            0
        } else {
            first as i64
        },
        0,
        last,
    );
    let hi: i32 = bound(
        if Single::ratio(95, 100).at_most(uv_b) {
            last as i64
        } else {
            end as i64
        },
        lo,
        last,
    );
    (lo, hi)
}

/// Adds the first or last tiles where the edge of the picture is on screen: parts of the
/// preview times the sensor size can fall just short of them.
pub fn include_image_edge_tiles(uv: UvRect, tiles_x: i32, tiles_y: i32, range: TileRange) -> (r:
    TileRange)
    requires
        tiles_x >= 1,
        tiles_y >= 1,
    ensures
        (r.0 as int, r.2 as int) == stretched(
            uv.left,
            uv.right,
            tiles_x - 1,
            range.0 as int,
            range.2 as int,
        ),
        (r.1 as int, r.3 as int) == stretched(
            uv.top,
            uv.bottom,
            tiles_y - 1,
            range.1 as int,
            range.3 as int,
        ),
        0 <= r.0 <= r.2 < tiles_x,
        0 <= r.1 <= r.3 < tiles_y,
{
    let (ix0, ix1) = stretch(uv.left, uv.right, tiles_x - 1, range.0, range.2);
    let (iy0, iy1) = stretch(uv.top, uv.bottom, tiles_y - 1, range.1, range.3);
    (ix0, iy0, ix1, iy1)
}

/// An edge of the picture that is on screen brings its row or column of tiles with it.
pub proof fn edges_on_screen_have_their_tiles(
    uv_a: Single,
    uv_b: Single,
    last: int,
    first: int,
    end: int,
)
    requires
        last >= 0,
    ensures
        uv_a.at_most(near_edge()) ==> stretched(uv_a, uv_b, last, first, end).0 == 0,
        far_edge().at_most(uv_b) ==> stretched(uv_a, uv_b, last, first, end).1 == last,
{
}

/// What is known of a preview on screen.
#[derive(Debug, Clone, Copy, PartialEq)]
pub struct TileView {
    /// Size of the preview texture.
    pub texture: Option<(u32, u32)>,
    /// Turn that the texture already has.
    pub texture_rotation: i32,
    /// Size of the canvas, in points.
    pub canvas: Option<(Single, Single)>,
    /// Size of the sensor, before the turn.
    pub sensor: Option<(u32, u32)>,
    /// Size of the source, after the turn, while no sensor data is loaded.
    pub raw_source_size: Option<(u32, u32)>,
    pub zoom: Single,
    pub pan_x: Single,
    pub pan_y: Single,
    pub options_hash: u64,
}

/// Size of the turned sensor.
pub open spec fn frame_size(view: TileView, options: PipelineOptions) -> Option<(u32, u32)> {
    match view.sensor {
        Some((w, h)) => Some(crate::orient::turned_size(w, h, options.rotation_degrees as int)),
        None => view.raw_source_size,
    }
}

/// Zero to one.
pub open spec fn part(a: Single) -> Single {
    a.clamp(Single::whole(0), Single::whole(1))
}

/// The part of one side of the picture that is on the canvas, a little widened; none where
/// nothing of it is.
pub open spec fn axis_uv(canvas: Single, img: Single, pan: Single) -> Option<(Single, Single)> {
    let start = canvas.times(Single::ratio(1, 2)).minus(part(pan).times(img));
    let from = start.larger(Single::whole(0));
    let to = start.plus(img).smaller(canvas);
    let pad = Single::whole(2).over(img);
    if to.at_most(from) {
        None
    } else {
        Some(
            (
                part(part(from.minus(start).over(img)).minus(pad)),
                part(part(to.minus(start).over(img)).plus(pad)),
            ),
        )
    }
}

fn to_part(a: Single) -> (r: Single)
    ensures
        r == part(a),
{
    a.clamp(Single::whole(0), Single::whole(1))
}

fn uv_of_axis(canvas: Single, img: Single, pan: Single) -> (r: Option<(Single, Single)>)
    ensures
        r == axis_uv(canvas, img, pan),
{
    let start: Single = canvas.times(Single::ratio(1, 2)).minus(to_part(pan).times(img));
    let from: Single = start.larger(Single::whole(0));
    let to: Single = start.plus(img).smaller(canvas);
    if to.at_most(from) {
        return None;
    }
    let pad: Single = Single::whole(2).over(img);
    Some(
        (
            to_part(to_part(from.minus(start).over(img)).minus(pad)),
            to_part(to_part(to.minus(start).over(img)).plus(pad)),
        ),
    )
}

/// Scale at which a layout just fits the canvas.
pub open spec fn base_scale(canvas: (Single, Single), layout: (u32, u32)) -> Single {
    canvas.0.over(crate::view::side(layout.0)).smaller(canvas.1.over(crate::view::side(layout.1)))
}

/// A side of the picture on screen, in points.
pub open spec fn image_side(n: u32, base: Single, zoom: Single) -> Single {
    crate::view::side(n).times(base).times(zoom.larger(Single::whole(1))).larger(Single::whole(1))
}

/// Tiles along `n` pixels.
pub open spec fn tile_count(n: u32) -> int {
    (n + PREVIEW_TILE_SIZE - 1) / (PREVIEW_TILE_SIZE as int)
}

/// The tiles of one axis that are on screen.
pub open spec fn axis_tiles(uv: (Single, Single), n: u32) -> (int, int) {
    let size = Single::whole(n as u64);
    let last = tile_count(n) - 1;
    let range = axis_range(
        uv.0.times(size),
        uv.1.times(size),
        Single::whole(PREVIEW_TILE_SIZE as u64),
        last,
    );
    stretched(uv.0, uv.1, last, range.0, range.1)
}

/// The product, or the largest count.
pub open spec fn cell_count(nx: int, ny: int) -> usize {
    if nx * ny > usize::MAX {
        usize::MAX
    } else {
        (nx * ny) as usize
    }
}

/// The tiles on screen where the picture of this frame is shown on this canvas.
pub open spec fn tiles_on_screen(
    view: TileView,
    options: PipelineOptions,
    texture: (u32, u32),
    canvas: (Single, Single),
    frame: (u32, u32),
) -> Option<VisibleTileGrid> {
    let layout = crate::view::layout_size(
        options,
        view.texture_rotation as int,
        texture.0,
        texture.1,
    );
    let base = base_scale(canvas, layout);
    let space = crate::view::grid_space(options, frame.0, frame.1);
    match (
        axis_uv(canvas.0, image_side(layout.0, base, view.zoom), view.pan_x),
        axis_uv(canvas.1, image_side(layout.1, base, view.zoom), view.pan_y),
    ) {
        (Some(u), Some(v)) => {
            let x = axis_tiles(u, space.width);
            let y = axis_tiles(v, space.height);
            let n = cell_count(x.1 - x.0 + 1, y.1 - y.0 + 1);
            Some(
                VisibleTileGrid {
                    ix0: x.0 as i32,
                    iy0: y.0 as i32,
                    ix1: x.1 as i32,
                    iy1: y.1 as i32,
                    opt_hash: view.options_hash,
                    proxy_soft: true,
                    tiles_fit: n <= PREVIEW_TILE_MAX,
                    core_n: n,
                },
            )
        },
        _ => None,
    }
}

/// The tiles on screen, if a picture is there.
pub open spec fn grid_of(view: TileView, options: PipelineOptions) -> Option<VisibleTileGrid> {
    match (view.texture, view.canvas, frame_size(view, options)) {
        (Some(texture), Some(canvas), Some(frame)) => {
            if frame.0 == 0 || frame.1 == 0 || canvas.0.at_most(Single::whole(0))
                || canvas.1.at_most(Single::whole(0)) {
                None
            } else {
                tiles_on_screen(view, options, texture, canvas, frame)
            }
        },
        _ => None,
    }
}

fn count_tiles(n: u32) -> (r: i32)
    ensures
        r == tile_count(n),
        n > 0 ==> r >= 1,
        r <= TILE_SPAN,
{
    ((n as u64 + PREVIEW_TILE_SIZE as u64 - 1) / PREVIEW_TILE_SIZE as u64) as i32
}

/// The tiles that the preview shows, on the same frame from which tiles are cut; none where
/// no picture, canvas or sensor is known, or nothing of the picture is on the canvas.
pub fn visible_tile_grid(view: &TileView, options: &PipelineOptions) -> (r: Option<
    VisibleTileGrid,
>)
    requires
        i32::MIN <= options.rotation_degrees - view.texture_rotation <= i32::MAX,
    ensures
        r == grid_of(*view, *options),
        r is Some ==> r->0.wf() && r->0.ix0 >= 0 && r->0.iy0 >= 0,
{
    let texture: (u32, u32) = match view.texture {
        Some(t) => t,
        None => {
            return None;
        },
    };
    let canvas: (Single, Single) = match view.canvas {
        Some(c) => c,
        None => {
            return None;
        },
    };
    let frame: (u32, u32) = match view.sensor {
        Some((w, h)) => oriented_size(w, h, options.rotation_degrees),
        None => match view.raw_source_size {
            Some(s) => s,
            None => {
                return None;
            },
        },
    };
    let zero: Single = Single::whole(0);
    if frame.0 == 0 || frame.1 == 0 || canvas.0.at_most(zero) || canvas.1.at_most(zero) {
        return None;
    }
    let one: Single = Single::whole(1);
    let layout: (u32, u32) = preview_display_wh(
        options,
        view.texture_rotation,
        texture.0,
        texture.1,
    );
    let full_w: Single = Single::whole(layout.0 as u64).larger(one);
    let full_h: Single = Single::whole(layout.1 as u64).larger(one);
    let zoom: Single = view.zoom.larger(one);
    let base: Single = canvas.0.over(full_w).smaller(canvas.1.over(full_h));
    let img_w: Single = full_w.times(base).times(zoom).larger(one);
    let img_h: Single = full_h.times(base).times(zoom).larger(one);
    let space: Rect = tile_space(options, frame.0, frame.1);
    let (u, v) = match (
        uv_of_axis(canvas.0, img_w, view.pan_x),
        uv_of_axis(canvas.1, img_h, view.pan_y),
    ) {
        (Some(u), Some(v)) => (u, v),
        _ => {
            return None;
        },
    };
    proof {
        crate::view::lemma_space_holds_a_pixel(*options, frame.0, frame.1);
        lemma_tile_has_a_size();
    }
    let tiles_x: i32 = count_tiles(space.width);
    let tiles_y: i32 = count_tiles(space.height);
    let size_x: Single = Single::whole(space.width as u64);
    let size_y: Single = Single::whole(space.height as u64);
    let raw: TileRange = tile_range_intersecting(
        u.0.times(size_x),
        v.0.times(size_y),
        u.1.times(size_x),
        v.1.times(size_y),
        Single::whole(PREVIEW_TILE_SIZE as u64),
        tiles_x,
        tiles_y,
    );
    let (ix0, iy0, ix1, iy1) = include_image_edge_tiles(
        UvRect { left: u.0, top: v.0, right: u.1, bottom: v.1 },
        tiles_x,
        tiles_y,
        raw,
    );
    let nx: usize = (ix1 - ix0 + 1) as usize;
    let ny: usize = (iy1 - iy0 + 1) as usize;
    let core_n: usize = match nx.checked_mul(ny) {
        Some(n) => n,
        None => usize::MAX,
    };
    Some(
        VisibleTileGrid {
            ix0,
            iy0,
            ix1,
            iy1,
            opt_hash: view.options_hash,
            proxy_soft: proxy_is_soft(base.times(zoom)),
            tiles_fit: core_n <= PREVIEW_TILE_MAX,
            core_n,
        },
    )
}

/// The side of a tile is above zero as a number too.
proof fn lemma_tile_has_a_size()
    ensures
        !Single::whole(PREVIEW_TILE_SIZE as u64).at_most(Single::whole(0)),
{
    vstd::arithmetic::power2::lemma_pow2_pos(149);
    crate::single::lemma_whole_exact(0);
    crate::single::lemma_whole_exact(512);
    crate::single::order_is_by_value(Single::whole(512), Single::whole(0));
}

/// How many tiles may stay for this view.
pub open spec fn keep_limit(grid: Option<VisibleTileGrid>) -> usize {
    match grid {
        None => PREVIEW_TILE_LRU,
        Some(g) => if g.core_n < PREVIEW_TILE_LRU {
            PREVIEW_TILE_LRU
        } else if g.core_n > PREVIEW_TILE_MAX {
            PREVIEW_TILE_MAX
        } else {
            g.core_n
        },
    }
}

/// How many tiles may stay in the cache.
pub fn tile_cache_limit(grid: &Option<VisibleTileGrid>) -> (r: usize)
    ensures
        r == keep_limit(*grid),
        PREVIEW_TILE_LRU <= r <= PREVIEW_TILE_MAX,
{
    match grid {
        None => PREVIEW_TILE_LRU,
        Some(g) => if g.core_n < PREVIEW_TILE_LRU {
            PREVIEW_TILE_LRU
        } else if g.core_n > PREVIEW_TILE_MAX {
            PREVIEW_TILE_MAX
        } else {
            g.core_n
        },
    }
}

} // verus!
