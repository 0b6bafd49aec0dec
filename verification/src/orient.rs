//! Orientation of the preview: where a point of the shown picture lies in the texture.
//!
//! A picture is turned first, then flipped across, then flipped down. While a new
//! orientation has been asked for and the texture still holds the one before, each point
//! on screen is carried back to the unturned picture and from there to the texture.

use vstd::prelude::*;
use crate::single::Single;
use crate::view::UvRect;

verus! {

/// A turn in degrees clockwise and two flips, applied in that order.
#[derive(Debug, Clone, Copy, PartialEq, Eq, Structural)]
pub struct ViewOrient {
    pub rot: i32,
    pub flip_h: bool,
    pub flip_v: bool,
}

/// The turn as an angle from 0 to 359 degrees.
pub open spec fn angle(rot: int) -> int {
    rot % 360
}

/// The turn exchanges width and height.
pub open spec fn lies_on_side(rot: int) -> bool {
    angle(rot) == 90 || angle(rot) == 270
}

/// Brings a turn into range.
pub fn reduced(rot: i32) -> (r: i32)
    ensures
        r == angle(rot as int),
{
    match rot.checked_rem_euclid(360) {
        Some(v) => v,
        None => 0,
    }
}

impl ViewOrient {
    /// The angle is in range.
    pub open spec fn wf(self) -> bool {
        0 <= self.rot < 360
    }

    /// An orientation, its angle brought into range.
    pub fn from_parts(rot: i32, flip_h: bool, flip_v: bool) -> (r: ViewOrient)
        ensures
            r.rot == angle(rot as int),
            r.flip_h == flip_h,
            r.flip_v == flip_v,
            r.wf(),
    {
        ViewOrient { rot: reduced(rot), flip_h, flip_v }
    }

    /// Both orientations are the same.
    pub fn matches(self, other: ViewOrient) -> (r: bool)
        ensures
            r == (self == other),
    {
        self.rot == other.rot && self.flip_h == other.flip_h && self.flip_v == other.flip_v
    }
}

/// The turn that leads from the texture to the shown picture.
pub fn view_rotation(desired: i32, baked: i32) -> (r: i32)
    requires
        i32::MIN <= desired - baked <= i32::MAX,
    ensures
        r == angle(desired - baked),
{
    reduced(desired - baked)
}

/// Size of a sensor after its turn.
pub fn oriented_size(w: u32, h: u32, rot: i32) -> (r: (u32, u32))
    ensures
        r == turned_size(w, h, rot as int),
{
    let a: i32 = reduced(rot);
    if a == 90 || a == 270 {
        (h, w)
    } else {
        (w, h)
    }
}

/// Width and height after a turn.
pub open spec fn turned_size(w: u32, h: u32, rot: int) -> (u32, u32) {
    if lies_on_side(rot) {
        (h, w)
    } else {
        (w, h)
    }
}

/// Where the pixel at `(dx, dy)` of a turned picture, `dw` by `dh`, came from.
pub open spec fn unturned(dx: int, dy: int, dw: int, dh: int, rot: int) -> (int, int) {
    if angle(rot) == 90 {
        (dy, dw - 1 - dx)
    } else if angle(rot) == 180 {
        (dw - 1 - dx, dh - 1 - dy)
    } else if angle(rot) == 270 {
        (dh - 1 - dy, dx)
    } else {
        (dx, dy)
    }
}

/// Where the pixel at `(sx, sy)` of a picture, `sw` by `sh`, goes when it is turned.
pub open spec fn turned(sx: int, sy: int, sw: int, sh: int, rot: int) -> (int, int) {
    if angle(rot) == 90 {
        (sh - 1 - sy, sx)
    } else if angle(rot) == 180 {
        (sw - 1 - sx, sh - 1 - sy)
    } else if angle(rot) == 270 {
        (sy, sw - 1 - sx)
    } else {
        (sx, sy)
    }
}

/// The pixel lies in a picture of this size.
pub open spec fn on_picture(x: int, y: int, w: int, h: int) -> bool {
    0 <= x < w && 0 <= y < h
}

/// `v` counted from the other end of `n` pixels is still a 32-bit number.
pub open spec fn fits(v: int, n: int) -> bool {
    i32::MIN < n && i32::MIN <= n - 1 - v <= i32::MAX
}

/// Pixel of the unturned picture behind a pixel of the turned one.
pub fn unrotate_px(dx: i32, dy: i32, dw: i32, dh: i32, rot: i32) -> (r: (i32, i32))
    requires
        fits(dx as int, dw as int),
        fits(dy as int, dh as int),
    ensures
        (r.0 as int, r.1 as int) == unturned(dx as int, dy as int, dw as int, dh as int, rot as int),
{
    let a: i32 = reduced(rot);
    if a == 90 {
        (dy, dw - 1 - dx)
    } else if a == 180 {
        (dw - 1 - dx, dh - 1 - dy)
    } else if a == 270 {
        (dh - 1 - dy, dx)
    } else {
        (dx, dy)
    }
}

/// Pixel of the turned picture at which a pixel of the unturned one is shown.
pub fn rotate_px(sx: i32, sy: i32, sw: i32, sh: i32, rot: i32) -> (r: (i32, i32))
    requires
        fits(sx as int, sw as int),
        fits(sy as int, sh as int),
    ensures
        (r.0 as int, r.1 as int) == turned(sx as int, sy as int, sw as int, sh as int, rot as int),
{
    let a: i32 = reduced(rot);
    if a == 90 {
        (sh - 1 - sy, sx)
    } else if a == 180 {
        (sw - 1 - sx, sh - 1 - sy)
    } else if a == 270 {
        (sy, sw - 1 - sx)
    } else {
        (sx, sy)
    }
}

/// Size of the picture on screen while the texture still has another orientation.
pub open spec fn shown_size(tex_w: u32, tex_h: u32, desired: ViewOrient, baked: ViewOrient) -> (
    u32,
    u32,
) {
    turned_size(tex_w, tex_h, desired.rot - baked.rot)
}

/// The nearest value in `0..n`; zero where that is empty.
pub open spec fn held(v: int, n: int) -> int {
    if v < 0 || n <= 0 {
        0
    } else if v >= n {
        n - 1
    } else {
        v
    }
}

/// `v`, mirrored in `0..n` if asked.
pub open spec fn mirrored(flip: bool, v: int, n: int) -> int {
    if flip {
        n - 1 - v
    } else {
        v
    }
}

/// The texture pixel shown at `(dx, dy)`.
pub open spec fn texture_pixel(
    dx: u32,
    dy: u32,
    tex_w: u32,
    tex_h: u32,
    desired: ViewOrient,
    baked: ViewOrient,
) -> (int, int) {
    let (dw, dh) = shown_size(tex_w, tex_h, desired, baked);
    let x = mirrored(desired.flip_h, held(dx as int, dw as int), dw as int);
    let y = mirrored(desired.flip_v, held(dy as int, dh as int), dh as int);
    let (sx, sy) = unturned(x, y, dw as int, dh as int, desired.rot as int);
    let (sw, sh) = turned_size(dw, dh, desired.rot as int);
    let (bx, by) = turned(sx, sy, sw as int, sh as int, baked.rot as int);
    (
        held(mirrored(baked.flip_h, bx, tex_w as int), tex_w as int),
        held(mirrored(baked.flip_v, by, tex_h as int), tex_h as int),
    )
}

fn hold(v: i32, n: u32) -> (r: u32)
    requires
        n <= i32::MAX,
    ensures
        r == held(v as int, n as int),
{
    if v < 0 || n == 0 {
        0
    } else if v as u32 >= n {
        n - 1
    } else {
        v as u32
    }
}

/// The texture pixel under a pixel of the shown picture.
#[verifier::rlimit(60)]
pub fn display_to_tex_px(
    dx: u32,
    dy: u32,
    tex_w: u32,
    tex_h: u32,
    desired: ViewOrient,
    baked: ViewOrient,
) -> (r: (u32, u32))
    requires
        desired.wf(),
        baked.wf(),
        tex_w <= i32::MAX,
        tex_h <= i32::MAX,
    ensures
        (r.0 as int, r.1 as int) == texture_pixel(dx, dy, tex_w, tex_h, desired, baked),
        tex_w > 0 ==> r.0 < tex_w,
        tex_h > 0 ==> r.1 < tex_h,
{
    let (disp_w, disp_h) = oriented_size(tex_w, tex_h, desired.rot - baked.rot);
    let dw: i32 = disp_w as i32;
    let dh: i32 = disp_h as i32;
    let mut x: i32 = (if dx < disp_w {
        dx
    } else {
        disp_w.saturating_sub(1)
    }) as i32;
    let mut y: i32 = (if dy < disp_h {
        dy
    } else {
        disp_h.saturating_sub(1)
    }) as i32;
    if desired.flip_v {
        y = dh - 1 - y;
    }
    if desired.flip_h {
        x = dw - 1 - x;
    }
    assert(-1 <= x <= dw && -1 <= y <= dh);
    let (sx, sy) = unrotate_px(x, y, dw, dh, desired.rot);
    let (sw, sh) = if desired.rot == 90 || desired.rot == 270 {
        (dh, dw)
    } else {
        (dw, dh)
    };
    assert(-1 <= sx <= sw && -1 <= sy <= sh);
    let (bx, by) = rotate_px(sx, sy, sw, sh, baked.rot);
    assert(-1 <= bx && -1 <= by);
    let mut tx: i32 = bx;
    let mut ty: i32 = by;
    if baked.flip_h {
        tx = tex_w as i32 - 1 - tx;
    }
    if baked.flip_v {
        ty = tex_h as i32 - 1 - ty;
    }
    (hold(tx, tex_w), hold(ty, tex_h))
}

/// A point of a picture, from 0 at the left and top edge to 1 at the right and bottom one.
#[derive(Debug, Clone, Copy, PartialEq, Eq, Structural)]
pub struct Uv {
    pub u: Single,
    pub v: Single,
}

/// One minus `a`.
pub open spec fn across(a: Single) -> Single {
    Single::whole(1).minus(a)
}

/// Where a point of a turned picture came from.
pub open spec fn unturned_uv(p: Uv, rot: int) -> Uv {
    if angle(rot) == 90 {
        Uv { u: p.v, v: across(p.u) }
    } else if angle(rot) == 180 {
        Uv { u: across(p.u), v: across(p.v) }
    } else if angle(rot) == 270 {
        Uv { u: across(p.v), v: p.u }
    } else {
        p
    }
}

/// Where a point of a picture goes when it is turned.
pub open spec fn turned_uv(p: Uv, rot: int) -> Uv {
    unturned_uv(p, 360 - angle(rot))
}

fn cross(a: Single) -> (r: Single)
    ensures
        r == across(a),
{
    Single::whole(1).minus(a)
}

/// Point of the unturned picture behind a point of the turned one.
pub fn unrotate_uv(p: Uv, rot: i32) -> (r: Uv)
    ensures
        r == unturned_uv(p, rot as int),
{
    let a: i32 = reduced(rot);
    if a == 90 {
        Uv { u: p.v, v: cross(p.u) }
    } else if a == 180 {
        Uv { u: cross(p.u), v: cross(p.v) }
    } else if a == 270 {
        Uv { u: cross(p.v), v: p.u }
    } else {
        p
    }
}

/// Point of the turned picture at which a point of the unturned one is shown.
pub fn rotate_uv(p: Uv, rot: i32) -> (r: Uv)
    ensures
        r == turned_uv(p, rot as int),
{
    let a: i32 = reduced(rot);
    unrotate_uv(p, 360 - a)
}

/// The point, flipped as asked.
pub open spec fn flipped_uv(p: Uv, flip_h: bool, flip_v: bool) -> Uv {
    Uv {
        u: if flip_h {
            across(p.u)
        } else {
            p.u
        },
        v: if flip_v {
            across(p.v)
        } else {
            p.v
        },
    }
}

/// The point of the texture shown at `p`.
pub open spec fn texture_point(p: Uv, desired: ViewOrient, baked: ViewOrient) -> Uv {
    let source = unturned_uv(flipped_uv(p, desired.flip_h, desired.flip_v), desired.rot as int);
    flipped_uv(turned_uv(source, baked.rot as int), baked.flip_h, baked.flip_v)
}

fn flip_uv(p: Uv, flip_h: bool, flip_v: bool) -> (r: Uv)
    ensures
        r == flipped_uv(p, flip_h, flip_v),
{
    Uv {
        u: if flip_h {
            cross(p.u)
        } else {
            p.u
        },
        v: if flip_v {
            cross(p.v)
        } else {
            p.v
        },
    }
}

/// The point of the texture under a point of the shown picture.
pub fn map_display_uv_to_tex(p: Uv, desired: ViewOrient, baked: ViewOrient) -> (r: Uv)
    ensures
        r == texture_point(p, desired, baked),
{
    let source: Uv = unrotate_uv(flip_uv(p, desired.flip_h, desired.flip_v), desired.rot);
    flip_uv(rotate_uv(source, baked.rot), baked.flip_h, baked.flip_v)
}

/// The corners of the texture under the corners of a part of the shown picture: left top, right
/// top, right bottom, left bottom. Where the texture lies as the picture is shown, they are the
/// part's own.
pub open spec fn texture_corners(part: UvRect, desired: ViewOrient, baked: ViewOrient) -> Seq<Uv> {
    let own = seq![
        Uv { u: part.left, v: part.top },
        Uv { u: part.right, v: part.top },
        Uv { u: part.right, v: part.bottom },
        Uv { u: part.left, v: part.bottom },
    ];
    if desired == baked {
        own
    } else {
        own.map_values(|p: Uv| texture_point(p, desired, baked))
    }
}

/// The corners of the texture under the corners of a part of the shown picture.
pub fn map_display_part_to_tex(part: UvRect, desired: ViewOrient, baked: ViewOrient) -> (r: [Uv; 4])
    ensures
        r@ == texture_corners(part, desired, baked),
{
    let a: Uv = Uv { u: part.left, v: part.top };
    let b: Uv = Uv { u: part.right, v: part.top };
    let c: Uv = Uv { u: part.right, v: part.bottom };
    let d: Uv = Uv { u: part.left, v: part.bottom };
    let r: [Uv; 4] = if desired.matches(baked) {
        [a, b, c, d]
    } else {
        [
            map_display_uv_to_tex(a, desired, baked),
            map_display_uv_to_tex(b, desired, baked),
            map_display_uv_to_tex(c, desired, baked),
            map_display_uv_to_tex(d, desired, baked),
        ]
    };
    assert(r@ =~= texture_corners(part, desired, baked));
    r
}

/// Turning a pixel and turning it back leads to the pixel, either way round; a pixel of the
/// picture stays on it.
pub proof fn turns_of_pixels_undo_each_other(x: int, y: int, w: int, h: int, rot: int)
    requires
        on_picture(x, y, w, h),
    ensures
        ({
            let (tw, th) = if lies_on_side(rot) {
                (h, w)
            } else {
                (w, h)
            };
            let there = turned(x, y, w, h, rot);
            let back = unturned(x, y, w, h, rot);
            &&& on_picture(there.0, there.1, tw, th)
            &&& unturned(there.0, there.1, tw, th, rot) == (x, y)
            &&& on_picture(back.0, back.1, tw, th)
            &&& turned(back.0, back.1, tw, th, rot) == (x, y)
        }),
{
}

/// While the texture has the orientation that is asked for, each pixel of the shown picture
/// is the texture's own pixel.
pub proof fn settled_view_shows_the_texture(
    dx: u32,
    dy: u32,
    tex_w: u32,
    tex_h: u32,
    orient: ViewOrient,
)
    requires
        orient.wf(),
        dx < tex_w,
        dy < tex_h,
    ensures
        texture_pixel(dx, dy, tex_w, tex_h, orient, orient) == (dx as int, dy as int),
{
}

/// Whatever the two orientations, different pixels of the shown picture are different pixels
/// of the texture: nothing is shown twice, and so nothing is left out.
pub proof fn every_texture_pixel_is_shown_once(
    ax: u32,
    ay: u32,
    bx: u32,
    by: u32,
    tex_w: u32,
    tex_h: u32,
    desired: ViewOrient,
    baked: ViewOrient,
)
    requires
        desired.wf(),
        baked.wf(),
        desired.rot % 90 == 0,
        baked.rot % 90 == 0,
        on_picture(
            ax as int,
            ay as int,
            shown_size(tex_w, tex_h, desired, baked).0 as int,
            shown_size(tex_w, tex_h, desired, baked).1 as int,
        ),
        on_picture(
            bx as int,
            by as int,
            shown_size(tex_w, tex_h, desired, baked).0 as int,
            shown_size(tex_w, tex_h, desired, baked).1 as int,
        ),
        texture_pixel(ax, ay, tex_w, tex_h, desired, baked) == texture_pixel(
            bx,
            by,
            tex_w,
            tex_h,
            desired,
            baked,
        ),
    ensures
        ax == bx && ay == by,
{
}

} // verus!
