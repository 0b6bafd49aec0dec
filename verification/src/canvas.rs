//! The canvas: where the picture lies on it, how it is zoomed and moved, and what a pointer on
//! it means.

use vstd::prelude::*;
use vstd::arithmetic::power2::*;
use crate::options::Rect;
use crate::single::Single;
use crate::view::{preview_pixel_scale, UvRect};

verus! {

/// A point on screen or in a picture.
#[derive(Debug, Clone, Copy, PartialEq, Eq, Structural)]
pub struct Point {
    pub x: Single,
    pub y: Single,
}

/// What decides where a picture lies on the canvas.
#[derive(Debug, Clone, Copy, PartialEq, Eq)]
pub struct Camera {
    /// The canvas on screen.
    pub canvas: UvRect,
    /// Size of the picture as it is shown.
    pub full: (u32, u32),
    pub zoom: Single,
    /// The part of the picture, from zero to one each way, that lies at the canvas's centre.
    pub pan: Point,
}

/// A side as a number, of one pixel at least.
pub open spec fn side(n: u32) -> Single {
    Single::whole(n as u64).larger(Single::whole(1))
}

fn side_of(n: u32) -> (r: Single)
    ensures
        r == side(n),
{
    Single::whole(n as u64).larger(Single::whole(1))
}

impl Camera {
    pub open spec fn centre_spec(self) -> Point {
        Point {
            x: self.canvas.left.plus(self.canvas.right).over(Single::whole(2)),
            y: self.canvas.top.plus(self.canvas.bottom).over(Single::whole(2)),
        }
    }

    /// A picture that has just been added: whole, in the middle.
    pub fn fresh(canvas: UvRect, full: (u32, u32)) -> (r: Camera)
        ensures
            r == (Camera {
                canvas,
                full,
                zoom: Single::whole(1),
                pan: Point { x: Single::ratio(1, 2), y: Single::ratio(1, 2) },
            }),
    {
        Camera {
            canvas,
            full,
            zoom: Single::whole(1),
            pan: Point { x: Single::ratio(1, 2), y: Single::ratio(1, 2) },
        }
    }

    /// Middle of the canvas.
    #[verifier::when_used_as_spec(centre_spec)]
    pub fn centre(self) -> (r: Point)
        ensures
            r == self.centre_spec(),
    {
        Point {
            x: self.canvas.left.plus(self.canvas.right).over(Single::whole(2)),
            y: self.canvas.top.plus(self.canvas.bottom).over(Single::whole(2)),
        }
    }

    pub open spec fn base_scale_spec(self) -> Single {
        self.canvas.right.minus(self.canvas.left).over(side(self.full.0)).smaller(
            self.canvas.bottom.minus(self.canvas.top).over(side(self.full.1)),
        )
    }

    /// Scale at which the whole picture fits the canvas.
    #[verifier::when_used_as_spec(base_scale_spec)]
    pub fn base_scale(self) -> (r: Single)
        ensures
            r == self.base_scale_spec(),
    {
        self.canvas.right.minus(self.canvas.left).over(side_of(self.full.0)).smaller(
            self.canvas.bottom.minus(self.canvas.top).over(side_of(self.full.1)),
        )
    }

    pub open spec fn pixel_scale_spec(self) -> Single {
        self.base_scale().times(self.zoom.larger(Single::whole(1)))
    }

    /// Screen points to a pixel.
    #[verifier::when_used_as_spec(pixel_scale_spec)]
    pub fn pixel_scale(self) -> (r: Single)
        ensures
            r == self.pixel_scale_spec(),
    {
        preview_pixel_scale(self.base_scale(), self.zoom.larger(Single::whole(1)))
    }

    pub open spec fn shown_size_spec(self) -> Point {
        Point {
            x: side(self.full.0).times(self.pixel_scale()),
            y: side(self.full.1).times(self.pixel_scale()),
        }
    }

    /// Size of the picture on screen.
    #[verifier::when_used_as_spec(shown_size_spec)]
    pub fn shown_size(self) -> (r: Point)
        ensures
            r == self.shown_size_spec(),
    {
        let scale: Single = self.pixel_scale();
        Point { x: side_of(self.full.0).times(scale), y: side_of(self.full.1).times(scale) }
    }

    pub open spec fn picture_spec(self) -> UvRect {
        let size = self.shown_size();
        let left = self.centre().x.minus(
            self.pan.x.clamp(Single::whole(0), Single::whole(1)).times(size.x),
        );
        let top = self.centre().y.minus(
            self.pan.y.clamp(Single::whole(0), Single::whole(1)).times(size.y),
        );
        UvRect { left, top, right: left.plus(size.x), bottom: top.plus(size.y) }
    }

    /// Where the whole picture lies, on the canvas or beyond it.
    #[verifier::when_used_as_spec(picture_spec)]
    pub fn picture(self) -> (r: UvRect)
        ensures
            r == self.picture_spec(),
    {
        let size: Point = self.shown_size();
        let centre: Point = self.centre();
        let left: Single = centre.x.minus(
            self.pan.x.clamp(Single::whole(0), Single::whole(1)).times(size.x),
        );
        let top: Single = centre.y.minus(
            self.pan.y.clamp(Single::whole(0), Single::whole(1)).times(size.y),
        );
        UvRect { left, top, right: left.plus(size.x), bottom: top.plus(size.y) }
    }

    pub open spec fn to_screen_spec(self, p: Point) -> Point {
        let size = self.shown_size();
        let at = self.picture();
        Point {
            x: at.left.plus(p.x.over(side(self.full.0)).times(size.x)),
            y: at.top.plus(p.y.over(side(self.full.1)).times(size.y)),
        }
    }

    /// A pixel of the picture on screen.
    #[verifier::when_used_as_spec(to_screen_spec)]
    pub fn to_screen(self, p: Point) -> (r: Point)
        ensures
            r == self.to_screen_spec(p),
    {
        let size: Point = self.shown_size();
        let at: UvRect = self.picture();
        Point {
            x: at.left.plus(p.x.over(side_of(self.full.0)).times(size.x)),
            y: at.top.plus(p.y.over(side_of(self.full.1)).times(size.y)),
        }
    }

    pub open spec fn to_picture_spec(self, p: Point) -> Point {
        let size = self.shown_size();
        let at = self.picture();
        Point {
            x: p.x.minus(at.left).over(size.x).times(side(self.full.0)),
            y: p.y.minus(at.top).over(size.y).times(side(self.full.1)),
        }
    }

    /// The pixel of the picture that a point on screen shows.
    #[verifier::when_used_as_spec(to_picture_spec)]
    pub fn to_picture(self, p: Point) -> (r: Point)
        ensures
            r == self.to_picture_spec(p),
    {
        let size: Point = self.shown_size();
        let at: UvRect = self.picture();
        Point {
            x: p.x.minus(at.left).over(size.x).times(side_of(self.full.0)),
            y: p.y.minus(at.top).over(size.y).times(side_of(self.full.1)),
        }
    }

    pub open spec fn visible_spec(self) -> UvRect {
        let at = self.picture();
        UvRect {
            left: at.left.larger(self.canvas.left),
            top: at.top.larger(self.canvas.top),
            right: at.right.smaller(self.canvas.right),
            bottom: at.bottom.smaller(self.canvas.bottom),
        }
    }

    /// What of the picture is on the canvas.
    #[verifier::when_used_as_spec(visible_spec)]
    pub fn visible(self) -> (r: UvRect)
        ensures
            r == self.visible_spec(),
    {
        let at: UvRect = self.picture();
        UvRect {
            left: at.left.larger(self.canvas.left),
            top: at.top.larger(self.canvas.top),
            right: at.right.smaller(self.canvas.right),
            bottom: at.bottom.smaller(self.canvas.bottom),
        }
    }

    /// The part of the picture that is on the canvas, from zero to one each way.
    pub fn visible_part(self) -> (r: UvRect)
        ensures
            ({
                let seen = self.visible();
                let at = self.picture();
                let size = self.shown_size();
                r == (UvRect {
                    left: seen.left.minus(at.left).over(size.x),
                    top: seen.top.minus(at.top).over(size.y),
                    right: seen.right.minus(at.left).over(size.x),
                    bottom: seen.bottom.minus(at.top).over(size.y),
                })
            }),
    {
        let seen: UvRect = self.visible();
        let at: UvRect = self.picture();
        let size: Point = self.shown_size();
        UvRect {
            left: seen.left.minus(at.left).over(size.x),
            top: seen.top.minus(at.top).over(size.y),
            right: seen.right.minus(at.left).over(size.x),
            bottom: seen.bottom.minus(at.top).over(size.y),
        }
    }

    pub open spec fn zoomed_spec(self, closer: bool) -> Single {
        let step = Single::ratio(11, 10);
        let factor = if closer {
            step
        } else {
            Single::whole(1).over(step)
        };
        self.zoom.larger(Single::whole(1)).times(factor).clamp(Single::whole(1), Single::whole(16))
    }

    pub open spec fn zoom_pan(self, closer: bool, pointer: Option<Point>) -> Point {
        match pointer {
            None => self.pan,
            Some(p) => {
                let zoom = self.zoomed_spec(closer);
                let w = side(self.full.0).times(self.base_scale()).times(zoom);
                let h = side(self.full.1).times(self.base_scale()).times(zoom);
                let at = self.to_picture(p);
                let u = at.x.over(side(self.full.0)).clamp(Single::whole(0), Single::whole(1));
                let v = at.y.over(side(self.full.1)).clamp(Single::whole(0), Single::whole(1));
                Point {
                    x: u.minus(p.x.minus(self.centre().x).over(w)).clamp(
                        Single::whole(0),
                        Single::whole(1),
                    ),
                    y: v.minus(p.y.minus(self.centre().y).over(h)).clamp(
                        Single::whole(0),
                        Single::whole(1),
                    ),
                }
            },
        }
    }

    /// Zooms by a tenth, from the whole picture up to sixteen times. What is under the pointer
    /// stays there.
    pub fn zoom_at(self, closer: bool, pointer: Option<Point>) -> (r: Camera)
        ensures
            r == (Camera {
                zoom: self.zoomed_spec(closer),
                pan: self.zoom_pan(closer, pointer),
                ..self
            }),
    {
        let step: Single = Single::ratio(11, 10);
        let factor: Single = if closer {
            step
        } else {
            Single::whole(1).over(step)
        };
        let zoom: Single = self.zoom.larger(Single::whole(1)).times(factor).clamp(
            Single::whole(1),
            Single::whole(16),
        );
        let pan: Point = match pointer {
            None => self.pan,
            Some(p) => {
                let base: Single = self.base_scale();
                let full_w: Single = side_of(self.full.0);
                let full_h: Single = side_of(self.full.1);
                let w: Single = full_w.times(base).times(zoom);
                let h: Single = full_h.times(base).times(zoom);
                let at: Point = self.to_picture(p);
                let u: Single = at.x.over(full_w).clamp(Single::whole(0), Single::whole(1));
                let v: Single = at.y.over(full_h).clamp(Single::whole(0), Single::whole(1));
                let centre: Point = self.centre();
                Point {
                    x: u.minus(p.x.minus(centre.x).over(w)).clamp(
                        Single::whole(0),
                        Single::whole(1),
                    ),
                    y: v.minus(p.y.minus(centre.y).over(h)).clamp(
                        Single::whole(0),
                        Single::whole(1),
                    ),
                }
            },
        };
        Camera { zoom, pan, ..self }
    }

    /// Moves the picture with the pointer; its centre stays on the picture.
    pub fn pan_by(self, dx: Single, dy: Single) -> (r: Camera)
        ensures
            r == (Camera {
                pan: Point {
                    x: self.pan.x.minus(dx.over(self.shown_size().x)).clamp(
                        Single::whole(0),
                        Single::whole(1),
                    ),
                    y: self.pan.y.minus(dy.over(self.shown_size().y)).clamp(
                        Single::whole(0),
                        Single::whole(1),
                    ),
                },
                ..self
            }),
    {
        let size: Point = self.shown_size();
        Camera {
            pan: Point {
                x: self.pan.x.minus(dx.over(size.x)).clamp(Single::whole(0), Single::whole(1)),
                y: self.pan.y.minus(dy.over(size.y)).clamp(Single::whole(0), Single::whole(1)),
            },
            ..self
        }
    }
}

/// However it is turned, the wheel leaves the zoom between one and sixteen.
pub proof fn zoom_stays_in_range(camera: Camera, closer: bool)
    ensures
        !camera.zoomed_spec(closer).not_a_number(),
        Single::whole(1).at_most(camera.zoomed_spec(closer)),
        camera.zoomed_spec(closer).at_most(Single::whole(16)),
{
    reveal(Single::larger_spec);
    reveal(Single::times_spec);
    reveal(Single::over_spec);
    reveal(Single::at_most_spec);
    reveal(Single::less_spec);
    let one = Single::whole_spec(1);
    crate::single::lemma_whole_exact(1);
    crate::single::lemma_whole_exact(16);
    let step = Single::ratio_spec(11, 10);
    let factor = if closer {
        step
    } else {
        one.over_spec(step)
    };
    let z = camera.zoom.larger_spec(one);
    assert(!z.not_a_number());
    assert(z.mag() > 0);
    let most = Single::whole_spec(16);
    crate::single::lemma_ratio_bounds(11, 10, one, most);
    crate::single::lemma_units_monotone(one, step);
    crate::single::lemma_units_monotone(step, most);
    let least = Single { bits: 1 };
    let u = pow2(149);
    lemma_pow2_pos(149);
    lemma_pow2_strictly_increases(4, 149);
    lemma2_to64();
    assert(least.units() == 1) by {
        assert(least.mant() == 1 && least.exp() == 0);
    }
    crate::single::lemma_round_self(least);
    assert(1 * step.units() <= (u * u) * 1) by (nonlinear_arith)
        requires
            step.units() <= 16 * u,
            16 <= u,
    ;
    crate::single::lemma_round_monotone(1, 1, u * u, step.units());
    assert(factor.mag() > 0);
}

/// A corner of a rectangle, as its handle on screen is named.
#[derive(Debug, Clone, Copy, PartialEq, Eq, Structural)]
pub enum Corner {
    TopLeft,
    TopRight,
    BottomLeft,
    BottomRight,
}

pub open spec fn dragged(rect: UvRect, corner: Corner, dx: Single, dy: Single) -> UvRect {
    match corner {
        Corner::TopLeft => UvRect { left: rect.left.plus(dx), top: rect.top.plus(dy), ..rect },
        Corner::TopRight => UvRect { right: rect.right.plus(dx), top: rect.top.plus(dy), ..rect },
        Corner::BottomLeft => UvRect {
            left: rect.left.plus(dx),
            bottom: rect.bottom.plus(dy),
            ..rect
        },
        Corner::BottomRight => UvRect {
            right: rect.right.plus(dx),
            bottom: rect.bottom.plus(dy),
            ..rect
        },
    }
}

/// A rectangle on screen with one corner moved.
pub fn drag_corner(rect: UvRect, corner: Corner, dx: Single, dy: Single) -> (r: UvRect)
    ensures
        r == dragged(rect, corner, dx, dy),
{
    match corner {
        Corner::TopLeft => UvRect { left: rect.left.plus(dx), top: rect.top.plus(dy), ..rect },
        Corner::TopRight => UvRect { right: rect.right.plus(dx), top: rect.top.plus(dy), ..rect },
        Corner::BottomLeft => UvRect {
            left: rect.left.plus(dx),
            bottom: rect.bottom.plus(dy),
            ..rect
        },
        Corner::BottomRight => UvRect {
            right: rect.right.plus(dx),
            bottom: rect.bottom.plus(dy),
            ..rect
        },
    }
}

/// The pixel that a rectangle drawn by hand begins with.
pub open spec fn drawn_from(at: Single, side: u32) -> u32 {
    at.rounded().clamp(
        Single::whole(0),
        Single::whole(side as u64).minus(Single::whole(1)),
    ).to_int(0xffff_ffff) as u32
}

/// The pixel that a rectangle drawn by hand ends before.
pub open spec fn drawn_to(at: Single, side: u32) -> u32 {
    at.rounded().clamp(Single::whole(0), Single::whole(side as u64)).to_int(0xffff_ffff) as u32
}

/// Number of pixels from `from` to `to` on a side: one at least, and no more than are left.
pub open spec fn drawn_length(from: u32, to: u32, side: u32) -> u32 {
    let length: u32 = if to > from {
        (to - from) as u32
    } else {
        1
    };
    let left: u32 = if side > from {
        (side - from) as u32
    } else {
        1
    };
    if length < left {
        length
    } else {
        left
    }
}

fn length_of(from: u32, to: u32, side: u32) -> (r: u32)
    ensures
        r == drawn_length(from, to, side),
{
    let length: u32 = if to > from {
        to - from
    } else {
        1
    };
    let left: u32 = if side > from {
        side - from
    } else {
        1
    };
    if length < left {
        length
    } else {
        left
    }
}

pub open spec fn drawn_rect_spec(from: Point, to: Point, w: u32, h: u32) -> Rect {
    let x = drawn_from(from.x, w);
    let y = drawn_from(from.y, h);
    Rect {
        x,
        y,
        width: drawn_length(x, drawn_to(to.x, w), w),
        height: drawn_length(y, drawn_to(to.y, h), h),
    }
}

/// The pixels of a `w` by `h` picture that a rectangle on it covers, drawn from one corner to
/// the opposite one.
pub fn drawn_rect(from: Point, to: Point, w: u32, h: u32) -> (r: Rect)
    requires
        w > 0,
        h > 0,
    ensures
        r == drawn_rect_spec(from, to, w, h),
{
    proof {
        lemma_drawn_fits(from.x, w);
        lemma_drawn_fits(from.y, h);
        crate::single::lemma_to_int_bound(
            to.x.rounded().clamp(Single::whole(0), Single::whole(w as u64)),
            0xffff_ffff,
        );
        crate::single::lemma_to_int_bound(
            to.y.rounded().clamp(Single::whole(0), Single::whole(h as u64)),
            0xffff_ffff,
        );
    }
    let x: u32 = from.x.rounded().clamp(
        Single::whole(0),
        Single::whole(w as u64).minus(Single::whole(1)),
    ).to_int(0xffff_ffff) as u32;
    let y: u32 = from.y.rounded().clamp(
        Single::whole(0),
        Single::whole(h as u64).minus(Single::whole(1)),
    ).to_int(0xffff_ffff) as u32;
    let x1: u32 = to.x.rounded().clamp(Single::whole(0), Single::whole(w as u64)).to_int(
        0xffff_ffff,
    ) as u32;
    let y1: u32 = to.y.rounded().clamp(Single::whole(0), Single::whole(h as u64)).to_int(
        0xffff_ffff,
    ) as u32;
    Rect { x, y, width: length_of(x, x1, w), height: length_of(y, y1, h) }
}

proof fn lemma_drawn_fits(at: Single, side: u32)
    ensures
        at.rounded().clamp(
            Single::whole(0),
            Single::whole(side as u64).minus(Single::whole(1)),
        ).to_int(0xffff_ffff) <= 0xffff_ffff,
{
    crate::single::lemma_to_int_bound(
        at.rounded().clamp(
            Single::whole(0),
            Single::whole(side as u64).minus(Single::whole(1)),
        ),
        0xffff_ffff,
    );
}

/// A rectangle that is drawn by hand lies on the picture and holds a pixel, on any picture of
/// fewer than 2^24 pixels a side.
pub proof fn drawn_rect_lies_on_the_picture(from: Point, to: Point, w: u32, h: u32)
    requires
        0 < w < crate::single::two24(),
        0 < h < crate::single::two24(),
    ensures
        ({
            let r = drawn_rect_spec(from, to, w, h);
            &&& r.width >= 1 && r.height >= 1
            &&& r.x + r.width <= w
            &&& r.y + r.height <= h
        }),
{
    lemma_drawn_below(from.x, w);
    lemma_drawn_below(from.y, h);
}

proof fn lemma_drawn_below(at: Single, side: u32)
    requires
        0 < side < crate::single::two24(),
    ensures
        drawn_from(at, side) < side,
{
    let one = Single::whole_spec(1);
    let all = Single::whole_spec(side as u64);
    let last = Single::whole_spec((side - 1) as u64);
    crate::single::lemma_whole_exact(1);
    crate::single::lemma_whole_exact(0);
    crate::single::lemma_whole_exact(side as u64);
    crate::single::lemma_whole_exact((side - 1) as u64);
    assert(all.minus_spec(one) == last) by {
        lemma_one_less(side);
    }
    assert(Single::whole_spec(0).at_most_spec(last)) by {
        reveal(Single::at_most_spec);
        crate::single::order_is_by_value(Single::whole_spec(0), last);
        lemma_pow2_pos(149);
        assert((side - 1) * pow2(149) >= 0) by (nonlinear_arith)
            requires
                side >= 1,
                pow2(149) > 0,
        ;
    }
    crate::single::lemma_clamped_int(
        at.rounded_spec(),
        Single::whole_spec(0),
        (side - 1) as u64,
        0xffff_ffff,
    );
}

proof fn lemma_one_less(side: u32)
    requires
        0 < side < crate::single::two24(),
    ensures
        Single::whole_spec(side as u64).minus_spec(Single::whole_spec(1)) == Single::whole_spec(
            (side - 1) as u64,
        ),
{
    reveal(Single::minus_spec);
    reveal(Single::plus_spec);
    reveal(Single::neg_spec);
    let one = Single::whole_spec(1);
    let all = Single::whole_spec(side as u64);
    let last = Single::whole_spec((side - 1) as u64);
    crate::single::lemma_whole_exact(1);
    crate::single::lemma_whole_exact(side as u64);
    crate::single::lemma_whole_exact((side - 1) as u64);
    crate::single::lemma_round_self(last);
    let p = pow2(149);
    assert(side * p - 1 * p == (side - 1) * p) by (nonlinear_arith);
    let nb = one.neg_spec();
    assert(nb.finite() && nb.mag() == one.mag() && nb.negative());
    assert(nb.units() == one.units());
    let t = all.signed() + nb.signed();
    assert(t == (side - 1) * p);
    lemma_pow2_pos(149);
    if side == 1 {
        assert(t == 0);
        crate::single::lemma_zero_rounds(false, 1);
    } else {
        assert(t > 0) by (nonlinear_arith)
            requires
                t == (side - 1) * p,
                side > 1,
                p > 0,
        ;
    }
}

/// The pixel of the picture under a pointer, on a picture of this size.
pub open spec fn pixel_under(at: Single, side: u32) -> u32 {
    let n = at.to_int(0xffff_ffff) as u32;
    let last: u32 = if side > 0 {
        (side - 1) as u32
    } else {
        0
    };
    if n < last {
        n
    } else {
        last
    }
}

/// The pixel under a pointer: the nearest one of the picture where the pointer is beside it.
pub fn pixel_at(at: Single, side: u32) -> (r: u32)
    ensures
        r == pixel_under(at, side),
        side > 0 ==> r < side,
{
    proof {
        crate::single::lemma_to_int_bound(at, 0xffff_ffff);
    }
    let n: u32 = at.to_int(0xffff_ffff) as u32;
    let last: u32 = if side > 0 {
        side - 1
    } else {
        0
    };
    if n < last {
        n
    } else {
        last
    }
}

/// Where the middle of a texture's pixel falls in a buffer with `buffer` pixels on that side.
pub open spec fn buffer_pixel_spec(texel: u32, texels: u32, buffer: usize) -> usize {
    let last: u64 = if buffer > 0 {
        (buffer - 1) as u64
    } else {
        0
    };
    Single::whole(texel as u64).plus(Single::ratio(1, 2)).over(
        Single::whole(if texels == 0 { 1 } else { texels as u64 }),
    ).times(Single::whole(buffer as u64)).floored().clamp(
        Single::whole(0),
        Single::whole(last),
    ).to_int(usize::MAX as u64) as usize
}

/// The place in a buffer that a texture's pixel was made from.
pub fn buffer_pixel(texel: u32, texels: u32, buffer: usize) -> (r: usize)
    ensures
        r == buffer_pixel_spec(texel, texels, buffer),
{
    let last: u64 = if buffer > 0 {
        (buffer - 1) as u64
    } else {
        0
    };
    let n: u64 = if texels == 0 {
        1
    } else {
        texels as u64
    };
    let at: Single = Single::whole(texel as u64).plus(Single::ratio(1, 2)).over(
        Single::whole(n),
    ).times(Single::whole(buffer as u64)).floored().clamp(Single::whole(0), Single::whole(last));
    proof {
        crate::single::lemma_to_int_bound(at, usize::MAX as u64);
    }
    at.to_int(usize::MAX as u64) as usize
}

/// A texture's pixel falls into the buffer, where that has fewer than 2^24 pixels on a side.
pub proof fn buffer_pixel_lies_in_the_buffer(texel: u32, texels: u32, buffer: usize)
    requires
        0 < buffer < crate::single::two24(),
    ensures
        buffer_pixel_spec(texel, texels, buffer) < buffer,
{
    let last = (buffer - 1) as u64;
    crate::single::lemma_whole_exact(0);
    crate::single::lemma_whole_exact(last);
    assert(Single::whole_spec(0).at_most_spec(Single::whole_spec(last))) by {
        reveal(Single::at_most_spec);
        crate::single::order_is_by_value(Single::whole_spec(0), Single::whole_spec(last));
        lemma_pow2_pos(149);
        assert(last * pow2(149) >= 0) by (nonlinear_arith)
            requires
                pow2(149) > 0,
        ;
    }
    crate::single::lemma_clamped_int(
        Single::whole_spec(texel as u64).plus_spec(Single::ratio_spec(1, 2)).over_spec(
            Single::whole_spec(if texels == 0 { 1 } else { texels as u64 }),
        ).times_spec(Single::whole_spec(buffer as u64)).floored_spec(),
        Single::whole_spec(0),
        last,
        usize::MAX as u64,
    );
}

/// Sizes of what lies below the picture, in points.
pub const CONTROL_ROW_HEIGHT: u64 = 28;

pub const BOTTOM_PADDING: u64 = 8;

pub const IMAGE_PREVIEW_BOTTOM_PADDING: u64 = 16;

pub const TOP_PADDING: u64 = 17;

pub const INFO_ROW_HEIGHT: u64 = 18;

pub const HISTOGRAM_MIN_HEIGHT: u64 = 40;

pub const HISTOGRAM_MAX_HEIGHT: u64 = 320;

pub const RIGHT_PANEL_MIN_WIDTH: u64 = 240;

pub const RIGHT_PANEL_MAX_WIDTH: u64 = 560;

/// Heights of the canvas and the histogram.
#[derive(Debug, Clone, Copy, PartialEq, Eq, Structural)]
pub struct CanvasHeights {
    /// The most that the histogram can have.
    pub histogram_max: Single,
    pub histogram: Single,
    pub canvas: Single,
}

pub open spec fn heights(available: Single, histogram: Single) -> CanvasHeights {
    let rows = Single::whole(IMAGE_PREVIEW_BOTTOM_PADDING).plus(
        Single::whole(INFO_ROW_HEIGHT),
    ).plus(Single::whole(CONTROL_ROW_HEIGHT)).plus(Single::whole(BOTTOM_PADDING));
    let other = rows.plus(Single::whole(BOTTOM_PADDING)).plus(Single::whole(TOP_PADDING));
    let histogram_max = available.minus(other).minus(Single::whole(60)).clamp(
        Single::whole(HISTOGRAM_MIN_HEIGHT),
        Single::whole(HISTOGRAM_MAX_HEIGHT),
    );
    let shown = histogram.clamp(Single::whole(HISTOGRAM_MIN_HEIGHT), histogram_max);
    CanvasHeights {
        histogram_max,
        histogram: shown,
        canvas: available.minus(
            rows.plus(shown).plus(Single::whole(BOTTOM_PADDING)),
        ).minus(Single::whole(TOP_PADDING)).larger(Single::whole(60)),
    }
}

/// Shares the height at hand between the canvas and the histogram: the histogram has what the
/// user gave it, as long as 60 points are left for the picture.
pub fn canvas_heights(available: Single, histogram: Single) -> (r: CanvasHeights)
    ensures
        r == heights(available, histogram),
{
    let rows: Single = Single::whole(IMAGE_PREVIEW_BOTTOM_PADDING).plus(
        Single::whole(INFO_ROW_HEIGHT),
    ).plus(Single::whole(CONTROL_ROW_HEIGHT)).plus(Single::whole(BOTTOM_PADDING));
    let other: Single = rows.plus(Single::whole(BOTTOM_PADDING)).plus(Single::whole(TOP_PADDING));
    let histogram_max: Single = available.minus(other).minus(Single::whole(60)).clamp(
        Single::whole(HISTOGRAM_MIN_HEIGHT),
        Single::whole(HISTOGRAM_MAX_HEIGHT),
    );
    let shown: Single = histogram.clamp(Single::whole(HISTOGRAM_MIN_HEIGHT), histogram_max);
    CanvasHeights {
        histogram_max,
        histogram: shown,
        canvas: available.minus(
            rows.plus(shown).plus(Single::whole(BOTTOM_PADDING)),
        ).minus(Single::whole(TOP_PADDING)).larger(Single::whole(60)),
    }
}

/// Height of the histogram after its edge was dragged by `dy`.
pub fn drag_histogram(height: Single, dy: Single, max: Single) -> (r: Single)
    ensures
        r == height.minus(dy).clamp(Single::whole(HISTOGRAM_MIN_HEIGHT), max),
{
    height.minus(dy).clamp(Single::whole(HISTOGRAM_MIN_HEIGHT), max)
}

/// Width of the settings panel: what the user gave it, within its limits and the window.
pub fn panel_width(wanted: Single, available: Single) -> (r: Single)
    ensures
        r == wanted.clamp(
            Single::whole(RIGHT_PANEL_MIN_WIDTH),
            available.smaller(Single::whole(RIGHT_PANEL_MAX_WIDTH)).larger(
                Single::whole(RIGHT_PANEL_MIN_WIDTH),
            ),
        ),
{
    wanted.clamp(
        Single::whole(RIGHT_PANEL_MIN_WIDTH),
        available.smaller(Single::whole(RIGHT_PANEL_MAX_WIDTH)).larger(
            Single::whole(RIGHT_PANEL_MIN_WIDTH),
        ),
    )
}

/// Whether the canvas changed its size by more than a point.
pub fn canvas_changed(before: Option<(Single, Single)>, w: Single, h: Single) -> (r: bool)
    ensures
        r == match before {
            Some((ow, oh)) => Single::whole(1).less(ow.minus(w).abs_spec()) || Single::whole(1).less(
                oh.minus(h).abs_spec(),
            ),
            None => false,
        },
{
    match before {
        Some((ow, oh)) => Single::whole(1).less(ow.minus(w).abs()) || Single::whole(1).less(
            oh.minus(h).abs(),
        ),
        None => false,
    }
}

/// The part of a texture that is drawn where only a part of the picture is on the canvas.
pub open spec fn part_of_uv(uv: UvRect, part: UvRect) -> UvRect {
    UvRect {
        left: uv.left.plus(part.left.times(uv.right.minus(uv.left))),
        top: uv.top.plus(part.top.times(uv.bottom.minus(uv.top))),
        right: uv.left.plus(part.right.times(uv.right.minus(uv.left))),
        bottom: uv.top.plus(part.bottom.times(uv.bottom.minus(uv.top))),
    }
}

/// The part of a texture for a part of what it shows.
pub fn uv_part(uv: UvRect, part: UvRect) -> (r: UvRect)
    ensures
        r == part_of_uv(uv, part),
{
    UvRect {
        left: uv.left.plus(part.left.times(uv.right.minus(uv.left))),
        top: uv.top.plus(part.top.times(uv.bottom.minus(uv.top))),
        right: uv.left.plus(part.right.times(uv.right.minus(uv.left))),
        bottom: uv.top.plus(part.bottom.times(uv.bottom.minus(uv.top))),
    }
}

/// What of a tile is on the canvas, and the part of the tile's texture that shows it; none
/// where the tile is beside the canvas.
pub fn tile_on_canvas(tile: UvRect, canvas: UvRect, tex_uv: UvRect) -> (r: Option<(UvRect, UvRect)>)
    ensures
        ({
            let seen = UvRect {
                left: tile.left.larger(canvas.left),
                top: tile.top.larger(canvas.top),
                right: tile.right.smaller(canvas.right),
                bottom: tile.bottom.smaller(canvas.bottom),
            };
            let w = tile.right.minus(tile.left).larger(Single::whole(1));
            let h = tile.bottom.minus(tile.top).larger(Single::whole(1));
            let part = UvRect {
                left: seen.left.minus(tile.left).over(w),
                top: seen.top.minus(tile.top).over(h),
                right: seen.right.minus(tile.left).over(w),
                bottom: seen.bottom.minus(tile.top).over(h),
            };
            r == if seen.right.minus(seen.left).at_most(Single::whole(0)) || seen.bottom.minus(
                seen.top,
            ).at_most(Single::whole(0)) {
                None
            } else {
                Some((seen, part_of_uv(tex_uv, part)))
            }
        }),
{
    let seen: UvRect = UvRect {
        left: tile.left.larger(canvas.left),
        top: tile.top.larger(canvas.top),
        right: tile.right.smaller(canvas.right),
        bottom: tile.bottom.smaller(canvas.bottom),
    };
    if seen.right.minus(seen.left).at_most(Single::whole(0)) || seen.bottom.minus(
        seen.top,
    ).at_most(Single::whole(0)) {
        return None;
    }
    let w: Single = tile.right.minus(tile.left).larger(Single::whole(1));
    let h: Single = tile.bottom.minus(tile.top).larger(Single::whole(1));
    let part: UvRect = UvRect {
        left: seen.left.minus(tile.left).over(w),
        top: seen.top.minus(tile.top).over(h),
        right: seen.right.minus(tile.left).over(w),
        bottom: seen.bottom.minus(tile.top).over(h),
    };
    Some((seen, uv_part(tex_uv, part)))
}

/// What the pointer does on the canvas.
#[derive(Debug, Clone, Copy, PartialEq, Eq)]
pub struct Gesture {
    pub dragged: bool,
    pub primary_down: bool,
    pub middle_down: bool,
    pub space_down: bool,
    pub rect_dragging: bool,
    pub dust_painting: bool,
    pub brush_resizing: bool,
    /// Whether the dust mask is being edited, and with a tool in hand.
    pub dust_edit: bool,
    pub tool_armed: bool,
}

impl Gesture {
    pub open spec fn pans_spec(self) -> bool {
        self.dragged && (self.middle_down || (self.space_down && self.primary_down) || (
        !self.rect_dragging && !self.dust_painting && !self.brush_resizing && (!self.dust_edit
            || self.space_down || !self.tool_armed)))
    }

    /// Whether the picture moves with the pointer: with the middle button, with the space bar,
    /// or where nothing else is dragged or painted.
    pub fn pans(self) -> (r: bool)
        ensures
            r == self.pans_spec(),
    {
        let middle: bool = self.middle_down && self.dragged;
        let space: bool = self.space_down && self.dragged && self.primary_down;
        let left: bool = self.dragged && !self.rect_dragging && !self.dust_painting
            && !self.brush_resizing && (!self.dust_edit || self.space_down || !self.tool_armed);
        middle || space || left
    }
}

/// Where the loupe is shown beside a pointer: at its right, or at its left where the canvas
/// ends.
pub fn loupe_x(pointer: Single, radius: Single, canvas_right: Single) -> (r: Single)
    ensures
        ({
            let right = pointer.plus(radius.plus(Single::whole(14)));
            r == if canvas_right.less(right.plus(radius)) {
                pointer.minus(radius).minus(Single::whole(14))
            } else {
                right
            }
        }),
{
    let right: Single = pointer.plus(radius.plus(Single::whole(14)));
    if canvas_right.less(right.plus(radius)) {
        pointer.minus(radius).minus(Single::whole(14))
    } else {
        right
    }
}

} // verus!
