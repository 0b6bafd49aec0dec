//! Rectangles and pixels under turns, mirrors and changes of size.

use vstd::prelude::*;
use crate::options::Rect;
use crate::single::Single;

verus! {

/// The rectangle lies in an image of this size.
pub open spec fn inside(rect: Rect, w: u32, h: u32) -> bool {
    rect.x + rect.width <= w && rect.y + rect.height <= h
}

/// `a - b`, but not below zero.
pub open spec fn short_of(a: int, b: int) -> u32 {
    if a > b {
        (a - b) as u32
    } else {
        0
    }
}

/// The mirror image of `rect`, left for right.
pub open spec fn flipped_across(rect: Rect, img_w: u32) -> Rect {
    Rect { x: short_of(img_w as int, rect.x + rect.width), ..rect }
}

/// The mirror image of `rect`, top for bottom.
pub open spec fn flipped_down(rect: Rect, img_h: u32) -> Rect {
    Rect { y: short_of(img_h as int, rect.y + rect.height), ..rect }
}

/// Flips a rectangle left for right within an image.
pub fn flip_rect_horizontal(rect: Rect, img_w: u32, img_h: u32) -> (r: Rect)
    ensures
        r == flipped_across(rect, img_w),
{
    Rect {
        x: img_w.saturating_sub(rect.x).saturating_sub(rect.width),
        y: rect.y,
        width: rect.width,
        height: rect.height,
    }
}

/// Flips a rectangle top for bottom within an image.
pub fn flip_rect_vertical(rect: Rect, img_w: u32, img_h: u32) -> (r: Rect)
    ensures
        r == flipped_down(rect, img_h),
{
    Rect {
        x: rect.x,
        y: img_h.saturating_sub(rect.y).saturating_sub(rect.height),
        width: rect.width,
        height: rect.height,
    }
}

/// `v`, but not above `hi`.
pub open spec fn capped(v: int, hi: int) -> int {
    if v > hi {
        hi
    } else {
        v
    }
}

/// The rectangle with these edges, at least one pixel wide and high.
pub open spec fn spanned(left: int, top: int, right: int, bottom: int) -> Rect {
    Rect {
        x: left as u32,
        y: top as u32,
        width: (if right - left > 1 {
            right - left
        } else {
            1
        }) as u32,
        height: (if bottom - top > 1 {
            bottom - top
        } else {
            1
        }) as u32,
    }
}

/// What `rect` covers of the image, after a quarter turn of the image.
pub open spec fn turned_rect(rect: Rect, img_w: u32, img_h: u32, clockwise: bool) -> Rect {
    let left = capped(rect.x as int, img_w as int);
    let top = capped(rect.y as int, img_h as int);
    let right = capped(rect.x + rect.width, img_w as int);
    let bottom = capped(rect.y + rect.height, img_h as int);
    if clockwise {
        spanned(img_h - bottom, left, img_h - top, right)
    } else {
        spanned(top, img_w - right, bottom, img_w - left)
    }
}

/// Turns a rectangle by a quarter with its image of `img_w` by `img_h` pixels.
pub fn rotate_dmin_rect_90(rect: Rect, img_w: u32, img_h: u32, clockwise: bool) -> (r: Rect)
    ensures
        r == turned_rect(rect, img_w, img_h, clockwise),
{
    let w: i64 = img_w as i64;
    let h: i64 = img_h as i64;
    let left: i64 = at_most(rect.x as i64, w);
    let top: i64 = at_most(rect.y as i64, h);
    let right: i64 = at_most(rect.x as i64 + rect.width as i64, w);
    let bottom: i64 = at_most(rect.y as i64 + rect.height as i64, h);
    if clockwise {
        span(h - bottom, left, h - top, right)
    } else {
        span(top, w - right, bottom, w - left)
    }
}

fn at_most(v: i64, hi: i64) -> (r: i64)
    ensures
        r == capped(v as int, hi as int),
{
    if v > hi {
        hi
    } else {
        v
    }
}

fn span(left: i64, top: i64, right: i64, bottom: i64) -> (r: Rect)
    requires
        0 <= left <= u32::MAX,
        0 <= top <= u32::MAX,
        0 <= right <= u32::MAX,
        0 <= bottom <= u32::MAX,
    ensures
        r == spanned(left as int, top as int, right as int, bottom as int),
{
    let width: i64 = right - left;
    let height: i64 = bottom - top;
    Rect {
        x: left as u32,
        y: top as u32,
        width: if width > 1 {
            width as u32
        } else {
            1
        },
        height: if height > 1 {
            height as u32
        } else {
            1
        },
    }
}

/// `v` of `reference`, as a part of `current`, to the nearest whole number.
pub open spec fn rescaled(v: u32, reference: u32, current: u32) -> Single {
    Single::whole(v as u64).times(Single::whole(current as u64)).over(
        Single::whole(reference as u64),
    ).rounded()
}

/// `rect` with at least one pixel each way.
pub open spec fn not_empty(rect: Rect) -> Rect {
    Rect {
        width: if rect.width > 1 {
            rect.width
        } else {
            1
        },
        height: if rect.height > 1 {
            rect.height
        } else {
            1
        },
        ..rect
    }
}

/// The size in which `rect` is measured differs from the current one, and has an area.
pub open spec fn needs_scaling(reference: Option<(u32, u32)>, w: u32, h: u32) -> bool {
    match reference {
        None => false,
        Some((rw, rh)) => (rw != w || rh != h) && rw > 0 && rh > 0,
    }
}

/// `rect`, measured in an image of the reference size, in one of the current size.
pub open spec fn scaled_rect(rect: Rect, reference: Option<(u32, u32)>, w: u32, h: u32) -> Rect {
    if needs_scaling(reference, w, h) {
        let rw = reference->Some_0.0;
        let rh = reference->Some_0.1;
        Rect {
            x: rescaled(rect.x, rw, w).to_int(0xffff_ffff) as u32,
            y: rescaled(rect.y, rh, h).to_int(0xffff_ffff) as u32,
            width: rescaled(rect.width, rw, w).larger(Single::whole(1)).to_int(0xffff_ffff) as u32,
            height: rescaled(rect.height, rh, h).larger(Single::whole(1)).to_int(
                0xffff_ffff,
            ) as u32,
        }
    } else {
        not_empty(rect)
    }
}

fn rescale(v: u32, reference: u32, current: u32) -> (r: Single)
    ensures
        r == rescaled(v, reference, current),
{
    Single::whole(v as u64).times(Single::whole(current as u64)).over(
        Single::whole(reference as u64),
    ).rounded()
}

/// Carries a rectangle over from the size in which it was drawn to the current one.
pub fn scale_rect_to_size(
    rect: Rect,
    reference_size: Option<(u32, u32)>,
    current_w: u32,
    current_h: u32,
) -> (r: Rect)
    ensures
        r == scaled_rect(rect, reference_size, current_w, current_h),
{
    if let Some((ref_w, ref_h)) = reference_size {
        if (ref_w != current_w || ref_h != current_h) && ref_w > 0 && ref_h > 0 {
            let one: Single = Single::whole(1);
            return Rect {
                x: rescale(rect.x, ref_w, current_w).to_int(0xffff_ffff) as u32,
                y: rescale(rect.y, ref_h, current_h).to_int(0xffff_ffff) as u32,
                width: rescale(rect.width, ref_w, current_w).larger(one).to_int(
                    0xffff_ffff,
                ) as u32,
                height: rescale(rect.height, ref_h, current_h).larger(one).to_int(
                    0xffff_ffff,
                ) as u32,
            };
        }
    }
    Rect {
        x: rect.x,
        y: rect.y,
        width: if rect.width > 1 {
            rect.width
        } else {
            1
        },
        height: if rect.height > 1 {
            rect.height
        } else {
            1
        },
    }
}

/// A rectangle inside its image is there again after two flips the same way.
pub proof fn flips_undo_themselves(rect: Rect, w: u32, h: u32)
    requires
        inside(rect, w, h),
    ensures
        flipped_across(flipped_across(rect, w), w) == rect,
        flipped_down(flipped_down(rect, h), h) == rect,
        inside(flipped_across(rect, w), w, h),
        inside(flipped_down(rect, h), w, h),
{
}

/// Flips across and down may be made in either order.
pub proof fn flips_commute(rect: Rect, w: u32, h: u32)
    ensures
        flipped_across(flipped_down(rect, h), w) == flipped_down(flipped_across(rect, w), h),
{
}

/// A quarter turn one way undoes a quarter turn the other way, for a rectangle that lies in
/// its image and holds a pixel. The turned rectangle lies in the turned image.
pub proof fn turns_undo_each_other(rect: Rect, w: u32, h: u32, clockwise: bool)
    requires
        inside(rect, w, h),
        rect.width >= 1,
        rect.height >= 1,
    ensures
        inside(turned_rect(rect, w, h, clockwise), h, w),
        turned_rect(turned_rect(rect, w, h, clockwise), h, w, !clockwise) == rect,
{
}

/// Four quarter turns bring a rectangle back.
pub proof fn four_turns_restore(rect: Rect, w: u32, h: u32, clockwise: bool)
    requires
        inside(rect, w, h),
        rect.width >= 1,
        rect.height >= 1,
    ensures
        ({
            let one = turned_rect(rect, w, h, clockwise);
            let two = turned_rect(one, h, w, clockwise);
            let three = turned_rect(two, w, h, clockwise);
            turned_rect(three, h, w, clockwise) == rect
        }),
{
}

/// A turn carries the mirror image across to the mirror image down.
pub proof fn turn_swaps_flips(rect: Rect, w: u32, h: u32, clockwise: bool)
    requires
        inside(rect, w, h),
        rect.width >= 1,
        rect.height >= 1,
    ensures
        turned_rect(flipped_across(rect, w), w, h, clockwise) == flipped_down(
            turned_rect(rect, w, h, clockwise),
            w,
        ),
{
}

/// A rectangle with an area keeps its place while the size stays what it was.
pub proof fn same_size_keeps_the_rect(rect: Rect, w: u32, h: u32)
    requires
        rect.width >= 1,
        rect.height >= 1,
    ensures
        scaled_rect(rect, Some((w, h)), w, h) == rect,
{
}

/// Whatever the sizes, a scaled rectangle holds at least one pixel.
pub proof fn scaled_rect_holds_a_pixel(rect: Rect, reference: Option<(u32, u32)>, w: u32, h: u32)
    ensures
        scaled_rect(rect, reference, w, h).width >= 1,
        scaled_rect(rect, reference, w, h).height >= 1,
{
    if needs_scaling(reference, w, h) {
        crate::single::lemma_at_least_one(
            rescaled(rect.width, reference->Some_0.0, w),
            0xffff_ffff,
        );
        crate::single::lemma_at_least_one(
            rescaled(rect.height, reference->Some_0.1, h),
            0xffff_ffff,
        );
    }
}

} // verus!
