//! Size and place of the preview on screen.

use vstd::prelude::*;
use crate::geometry::scale_rect_to_size;
use crate::options::{PipelineOptions, Rect};
use crate::orient::{oriented_size, view_rotation};
use crate::single::Single;

verus! {

/// Working size of a preview at most.
pub const PREVIEW_MAX_WIDTH: u32 = 1920;

pub const PREVIEW_MAX_HEIGHT: u32 = 1200;

/// Shortest side of a preview.
pub const PREVIEW_MIN_SIDE: u32 = 640;

/// Longest side of a draft.
pub const PREVIEW_DRAFT_MAX: u32 = 1920;

/// A rectangle on screen or in a texture, by its edges.
#[derive(Debug, Clone, Copy, PartialEq, Eq, Structural)]
pub struct UvRect {
    pub left: Single,
    pub top: Single,
    pub right: Single,
    pub bottom: Single,
}

/// The crop in pixels of a picture of this size.
pub open spec fn crop_px(options: PipelineOptions, w: u32, h: u32) -> Option<Rect> {
    if !options.apply_crop || w == 0 || h == 0 {
        None
    } else {
        match options.crop_rect {
            None => None,
            Some(rect) => Some(
                crate::geometry::scaled_rect(rect, options.crop_rect_reference_size, w, h),
            ),
        }
    }
}

/// Active crop in pixels of the current size, or none while the crop is off.
pub fn scaled_crop_px(options: &PipelineOptions, current_w: u32, current_h: u32) -> (r: Option<
    Rect,
>)
    ensures
        r == crop_px(*options, current_w, current_h),
        r is Some ==> r->0.width >= 1 && r->0.height >= 1,
{
    if !options.apply_crop || current_w == 0 || current_h == 0 {
        return None;
    }
    match options.crop_rect {
        None => None,
        Some(rect) => {
            proof {
                crate::geometry::scaled_rect_holds_a_pixel(
                    rect,
                    options.crop_rect_reference_size,
                    current_w,
                    current_h,
                );
            }
            Some(
                scale_rect_to_size(rect, options.crop_rect_reference_size, current_w, current_h),
            )
        },
    }
}

/// Where the tile grid lies on the turned sensor.
pub open spec fn grid_space(options: PipelineOptions, ow: u32, oh: u32) -> Rect {
    match crop_px(options, ow, oh) {
        Some(rect) => rect,
        None => Rect { x: 0, y: 0, width: ow, height: oh },
    }
}

/// Origin and size of the tile grid in pixels of the turned sensor: the crop while it is on,
/// so that the first row is the frame and not the rebate above it.
pub fn tile_space(options: &PipelineOptions, ow: u32, oh: u32) -> (r: Rect)
    ensures
        r == grid_space(*options, ow, oh),
{
    match scaled_crop_px(options, ow, oh) {
        Some(rect) => rect,
        None => Rect { x: 0, y: 0, width: ow, height: oh },
    }
}

/// The tile grid of a sensor with an area holds a pixel.
pub proof fn lemma_space_holds_a_pixel(options: PipelineOptions, ow: u32, oh: u32)
    requires
        ow > 0,
        oh > 0,
    ensures
        grid_space(options, ow, oh).width >= 1,
        grid_space(options, ow, oh).height >= 1,
{
    if let Some(rect) = options.crop_rect {
        crate::geometry::scaled_rect_holds_a_pixel(
            rect,
            options.crop_rect_reference_size,
            ow,
            oh,
        );
    }
}

/// Size at which a texture is laid out.
pub open spec fn layout_size(options: PipelineOptions, baked: int, tex_w: u32, tex_h: u32) -> (
    u32,
    u32,
) {
    let full = crate::orient::turned_size(tex_w, tex_h, options.rotation_degrees - baked);
    match crop_px(options, full.0, full.1) {
        Some(rect) => (rect.width, rect.height),
        None => full,
    }
}

/// Layout size of the preview: that of the crop while it is on, else that of the buffer.
/// `baked` is the turn that the texture already has.
pub fn preview_display_wh(options: &PipelineOptions, baked: i32, tex_w: u32, tex_h: u32) -> (r: (
    u32,
    u32,
))
    requires
        i32::MIN <= options.rotation_degrees - baked <= i32::MAX,
    ensures
        r == layout_size(*options, baked as int, tex_w, tex_h),
{
    let (fw, fh) = oriented_size(tex_w, tex_h, view_rotation(options.rotation_degrees, baked));
    match scaled_crop_px(options, fw, fh) {
        Some(rect) => (rect.width, rect.height),
        None => (fw, fh),
    }
}

/// A count, but at least one.
pub open spec fn side(n: u32) -> Single {
    Single::whole(n as u64).larger(Single::whole(1))
}

/// The crop in parts of the preview texture, or none while the crop is off.
pub fn preview_crop_uv(options: &PipelineOptions, tex_w: u32, tex_h: u32) -> (r: Option<UvRect>)
    ensures
        match crop_px(*options, tex_w, tex_h) {
            None => r is None,
            Some(c) => r == Some(
                (UvRect {
                    left: Single::whole(c.x as u64).over(side(tex_w)),
                    top: Single::whole(c.y as u64).over(side(tex_h)),
                    right: Single::whole((c.x + c.width) as u64).over(side(tex_w)),
                    bottom: Single::whole((c.y + c.height) as u64).over(side(tex_h)),
                }),
            ),
        },
{
    match scaled_crop_px(options, tex_w, tex_h) {
        None => None,
        Some(c) => {
            let tw: Single = Single::whole(tex_w as u64).larger(Single::whole(1));
            let th: Single = Single::whole(tex_h as u64).larger(Single::whole(1));
            Some(
                UvRect {
                    left: Single::whole(c.x as u64).over(tw),
                    top: Single::whole(c.y as u64).over(th),
                    right: Single::whole(c.x as u64 + c.width as u64).over(tw),
                    bottom: Single::whole(c.y as u64 + c.height as u64).over(th),
                },
            )
        },
    }
}

/// Screen points per pixel of the preview buffer.
pub fn preview_pixel_scale(base_scale: Single, zoom: Single) -> (r: Single)
    ensures
        r == base_scale.times(zoom),
{
    base_scale.times(zoom)
}

/// Whether tiles are sharper than the proxy: at every scale, since the proxy is shrunk before
/// its colours are interpolated.
pub fn proxy_is_soft(pixel_scale: Single) -> (r: bool)
    ensures
        r,
{
    true
}

/// Whether pixels are shown as squares: only where the proxy is magnified.
pub fn want_nearest_filter(pixel_scale: Single) -> (r: bool)
    ensures
        r == Single::whole(1).less(pixel_scale),
{
    Single::whole(1).less(pixel_scale)
}

/// One side of the working size.
pub open spec fn working_side(points: Single, ppp: Single, max: u32) -> Single {
    points.times(ppp).rounded().clamp(
        Single::whole(PREVIEW_MIN_SIDE as u64),
        Single::whole(max as u64),
    )
}

/// Working size of a preview: the canvas in device pixels, between the shortest side and the
/// largest size; without bounds at full resolution.
pub fn preview_working_limits(
    canvas: Option<(Single, Single)>,
    ppp: Single,
    full_res: bool,
) -> (r: (u32, u32))
    ensures
        r == if full_res {
            (u32::MAX, u32::MAX)
        } else {
            working_size(canvas, ppp)
        },
        !full_res ==> r.0 <= PREVIEW_MAX_WIDTH && r.1 <= PREVIEW_MAX_HEIGHT,
{
    if full_res {
        return (u32::MAX, u32::MAX);
    }
    let min_side: Single = Single::whole(PREVIEW_MIN_SIDE as u64);
    let max_w: Single = Single::whole(PREVIEW_MAX_WIDTH as u64);
    let max_h: Single = Single::whole(PREVIEW_MAX_HEIGHT as u64);
    proof {
        crate::single::lemma_whole_exact(PREVIEW_MIN_SIDE as u64);
        crate::single::lemma_whole_exact(PREVIEW_MAX_WIDTH as u64);
        crate::single::lemma_whole_exact(PREVIEW_MAX_HEIGHT as u64);
        lemma_ordered(PREVIEW_MIN_SIDE as u64, PREVIEW_MAX_WIDTH as u64);
        lemma_ordered(PREVIEW_MIN_SIDE as u64, PREVIEW_MAX_HEIGHT as u64);
    }
    let (base_w, base_h) = match canvas {
        Some((w, h)) => {
            proof {
                crate::single::lemma_clamped_int(
                    w.times(ppp).rounded(),
                    min_side,
                    PREVIEW_MAX_WIDTH as u64,
                    0xffff_ffff,
                );
                crate::single::lemma_clamped_int(
                    h.times(ppp).rounded(),
                    min_side,
                    PREVIEW_MAX_HEIGHT as u64,
                    0xffff_ffff,
                );
            }
            (
                w.times(ppp).rounded().clamp(min_side, max_w),
                h.times(ppp).rounded().clamp(min_side, max_h),
            )
        },
        None => {
            proof {
                lemma_ordered(PREVIEW_MAX_WIDTH as u64, PREVIEW_MAX_WIDTH as u64);
                lemma_ordered(PREVIEW_MAX_HEIGHT as u64, PREVIEW_MAX_HEIGHT as u64);
                crate::single::lemma_clamped_int(max_w, max_w, PREVIEW_MAX_WIDTH as u64, 0xffff_ffff);
                crate::single::lemma_clamped_int(max_h, max_h, PREVIEW_MAX_HEIGHT as u64, 0xffff_ffff);
                crate::single::lemma_clamped_low(
                    max_w,
                    PREVIEW_MAX_WIDTH as u64,
                    PREVIEW_MAX_WIDTH as u64,
                    0xffff_ffff,
                );
                crate::single::lemma_clamped_low(
                    max_h,
                    PREVIEW_MAX_HEIGHT as u64,
                    PREVIEW_MAX_HEIGHT as u64,
                    0xffff_ffff,
                );
            }
            (max_w, max_h)
        },
    };
    (base_w.to_int(0xffff_ffff) as u32, base_h.to_int(0xffff_ffff) as u32)
}

/// The working size of a preview.
pub open spec fn working_size(canvas: Option<(Single, Single)>, ppp: Single) -> (u32, u32) {
    match canvas {
        Some((w, h)) => (
            working_side(w, ppp, PREVIEW_MAX_WIDTH).to_int(0xffff_ffff) as u32,
            working_side(h, ppp, PREVIEW_MAX_HEIGHT).to_int(0xffff_ffff) as u32,
        ),
        None => (PREVIEW_MAX_WIDTH, PREVIEW_MAX_HEIGHT),
    }
}

/// A preview below full resolution is never shorter than the shortest side, nor larger than
/// the largest size, on any canvas whose size is a number.
pub proof fn working_sizes_keep_their_bounds(canvas: Option<(Single, Single)>, ppp: Single)
    requires
        canvas matches Some((w, h)) ==> !w.times(ppp).not_a_number() && !h.times(
            ppp,
        ).not_a_number(),
    ensures
        ({
            let (w, h) = working_size(canvas, ppp);
            &&& PREVIEW_MIN_SIDE <= w <= PREVIEW_MAX_WIDTH
            &&& PREVIEW_MIN_SIDE <= h <= PREVIEW_MAX_HEIGHT
        }),
{
    if let Some((w, h)) = canvas {
        lemma_side_bounds(w, ppp, PREVIEW_MAX_WIDTH);
        lemma_side_bounds(h, ppp, PREVIEW_MAX_HEIGHT);
    }
}

proof fn lemma_side_bounds(points: Single, ppp: Single, max: u32)
    requires
        !points.times(ppp).not_a_number(),
        PREVIEW_MIN_SIDE <= max <= PREVIEW_MAX_WIDTH,
    ensures
        PREVIEW_MIN_SIDE <= working_side(points, ppp, max).to_int(0xffff_ffff) <= max,
{
    let at = points.times(ppp);
    assert(!at.rounded().not_a_number()) by {
        reveal(Single::rounded_spec);
        crate::single::lemma_round_is_a_number(
            at.negative(),
            ((2 * at.units() + vstd::arithmetic::power2::pow2(149)) / (2
                * vstd::arithmetic::power2::pow2(149))) * vstd::arithmetic::power2::pow2(149),
            1,
        );
    }
    let lo = Single::whole(PREVIEW_MIN_SIDE as u64);
    crate::single::lemma_whole_exact(PREVIEW_MIN_SIDE as u64);
    crate::single::lemma_whole_exact(max as u64);
    lemma_ordered(PREVIEW_MIN_SIDE as u64, max as u64);
    crate::single::lemma_clamped_int(at.rounded(), lo, max as u64, 0xffff_ffff);
    crate::single::lemma_clamped_low(
        at.rounded(),
        PREVIEW_MIN_SIDE as u64,
        max as u64,
        0xffff_ffff,
    );
}

/// Small counts compare as numbers as they do as integers.
pub proof fn lemma_ordered(a: u64, b: u64)
    requires
        a <= b < 0x100_0000,
    ensures
        Single::whole(a).at_most(Single::whole(b)),
        !Single::whole(b).less(Single::whole(a)),
{
    let p = vstd::arithmetic::power2::pow2(149);
    crate::single::lemma_whole_exact(a);
    crate::single::lemma_whole_exact(b);
    crate::single::order_is_by_value(Single::whole(a), Single::whole(b));
    crate::single::order_is_by_value(Single::whole(b), Single::whole(a));
    assert(a * p <= b * p) by (nonlinear_arith)
        requires
            a <= b,
            p >= 0,
    ;
}

/// Largest size of a draft.
pub fn preview_draft_limits() -> (r: (u32, u32))
    ensures
        r == (PREVIEW_DRAFT_MAX, PREVIEW_DRAFT_MAX),
{
    (PREVIEW_DRAFT_MAX, PREVIEW_DRAFT_MAX)
}

/// Near enough to an edge of the picture to lie on it.
pub open spec fn edge() -> Single {
    Single::ratio(1, 100_000)
}

/// Where a tile is drawn: a little larger than it is, but not beyond an edge of the picture
/// that it touches.
pub open spec fn drawn(picture: UvRect, uv: UvRect, img_w: Single, img_h: Single) -> UvRect {
    let two = Single::whole(2);
    let far = Single::whole(1).minus(edge());
    UvRect {
        left: if uv.left.at_most(edge()) {
            picture.left
        } else {
            picture.left.plus(uv.left.times(img_w)).minus(two)
        },
        top: if uv.top.at_most(edge()) {
            picture.top
        } else {
            picture.top.plus(uv.top.times(img_h)).minus(two)
        },
        right: if far.at_most(uv.right) {
            picture.right
        } else {
            picture.left.plus(uv.right.times(img_w)).plus(two)
        },
        bottom: if far.at_most(uv.bottom) {
            picture.bottom
        } else {
            picture.top.plus(uv.bottom.times(img_h)).plus(two)
        },
    }
}

/// Places a tile on the picture, so that no sliver of the proxy shows beside it.
pub fn tile_draw_rect(vir_rect: UvRect, uv: UvRect, img_w: Single, img_h: Single) -> (r: UvRect)
    ensures
        r == drawn(vir_rect, uv, img_w, img_h),
{
    let two: Single = Single::whole(2);
    let near: Single = Single::ratio(1, 100_000);
    let far: Single = Single::whole(1).minus(near);
    let mut r: UvRect = UvRect {
        left: vir_rect.left.plus(uv.left.times(img_w)).minus(two),
        top: vir_rect.top.plus(uv.top.times(img_h)).minus(two),
        right: vir_rect.left.plus(uv.right.times(img_w)).plus(two),
        bottom: vir_rect.top.plus(uv.bottom.times(img_h)).plus(two),
    };
    if uv.left.at_most(near) {
        r.left = vir_rect.left;
    }
    if uv.top.at_most(near) {
        r.top = vir_rect.top;
    }
    if far.at_most(uv.right) {
        r.right = vir_rect.right;
    }
    if far.at_most(uv.bottom) {
        r.bottom = vir_rect.bottom;
    }
    r
}

/// How the texels of a texture are read between their centres.
#[derive(Debug, Clone, Copy, PartialEq, Eq, Structural)]
pub enum TextureFilter {
    Nearest,
    Linear,
}

/// How a texture is drawn. Beyond its edges the last texels go on.
#[derive(Debug, Clone, Copy, PartialEq, Eq)]
pub struct TextureOptions {
    pub magnification: TextureFilter,
    pub minification: TextureFilter,
    pub mipmap_mode: Option<TextureFilter>,
}

/// A preview that is drawn smaller: by mipmaps, so that grain is averaged as a smaller export
/// would be, in place of single peaks of it being picked.
pub fn preview_minify_texture_options() -> (r: TextureOptions)
    ensures
        r == (TextureOptions {
            magnification: TextureFilter::Linear,
            minification: TextureFilter::Linear,
            mipmap_mode: Some(TextureFilter::Linear),
        }),
{
    TextureOptions {
        magnification: TextureFilter::Linear,
        minification: TextureFilter::Linear,
        mipmap_mode: Some(TextureFilter::Linear),
    }
}

/// A tile: its own pixels when it is drawn larger, mipmaps when it is drawn smaller.
pub fn tile_texture_options() -> (r: TextureOptions)
    ensures
        r == (TextureOptions {
            magnification: TextureFilter::Nearest,
            minification: TextureFilter::Linear,
            mipmap_mode: Some(TextureFilter::Linear),
        }),
{
    TextureOptions {
        magnification: TextureFilter::Nearest,
        minification: TextureFilter::Linear,
        mipmap_mode: Some(TextureFilter::Linear),
    }
}

/// A preview: its own pixels where it is drawn larger, else as one that is drawn smaller.
pub fn preview_texture_options(nearest: bool) -> (r: TextureOptions)
    ensures
        r == (TextureOptions {
            magnification: if nearest {
                TextureFilter::Nearest
            } else {
                TextureFilter::Linear
            },
            minification: if nearest {
                TextureFilter::Nearest
            } else {
                TextureFilter::Linear
            },
            mipmap_mode: if nearest {
                None
            } else {
                Some(TextureFilter::Linear)
            },
        }),
{
    if nearest {
        TextureOptions {
            magnification: TextureFilter::Nearest,
            minification: TextureFilter::Nearest,
            mipmap_mode: None,
        }
    } else {
        preview_minify_texture_options()
    }
}

} // verus!
