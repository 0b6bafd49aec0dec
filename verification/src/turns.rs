//! Turning and flipping a picture while it is edited.
//!
//! A click changes only settings and sizes; the texture on screen is drawn turned until a new
//! one has been made.

use vstd::prelude::*;
use crate::geometry::{flip_rect_horizontal, flip_rect_vertical, rotate_dmin_rect_90};
use crate::options::Rect;

verus! {

/// A rectangle drawn on a picture, and the size in which it was drawn.
#[derive(Debug, Clone, Copy, PartialEq)]
pub struct DrawnRect {
    pub rect: Option<Rect>,
    pub reference_size: Option<(u32, u32)>,
}

/// What a turn or a flip changes of a picture.
#[derive(Debug, Clone, Copy, PartialEq)]
pub struct PictureFrame {
    pub dmin: DrawnRect,
    pub crop: DrawnRect,
    pub rotation_degrees: i32,
    pub flip_horizontal: bool,
    pub flip_vertical: bool,
    /// Size of the picture from which the preview is made.
    pub preview_input_size: Option<(u32, u32)>,
    /// Size of the source.
    pub raw_source_size: Option<(u32, u32)>,
    /// Size of the preview on screen.
    pub preview_screen_wh: (u32, u32),
}

/// The first that is there.
pub open spec fn either(a: Option<(u32, u32)>, b: Option<(u32, u32)>) -> Option<(u32, u32)> {
    match a {
        Some(x) => Some(x),
        None => b,
    }
}

/// Width and height exchanged.
pub open spec fn swapped(s: Option<(u32, u32)>) -> Option<(u32, u32)> {
    match s {
        Some((w, h)) => Some((h, w)),
        None => None,
    }
}

fn swap(s: Option<(u32, u32)>) -> (r: Option<(u32, u32)>)
    ensures
        r == swapped(s),
{
    match s {
        Some((w, h)) => Some((h, w)),
        None => None,
    }
}

impl DrawnRect {
    /// The rectangle after a quarter turn; it stays where the size that it was drawn in is not
    /// known.
    pub open spec fn turned(self, preview: Option<(u32, u32)>, clockwise: bool) -> DrawnRect {
        match (self.rect, either(self.reference_size, preview)) {
            (Some(rect), Some((w, h))) => DrawnRect {
                rect: Some(crate::geometry::turned_rect(rect, w, h, clockwise)),
                reference_size: Some((h, w)),
            },
            _ => self,
        }
    }

    fn turn(self, preview: Option<(u32, u32)>, clockwise: bool) -> (r: DrawnRect)
        ensures
            r == self.turned(preview, clockwise),
    {
        let size: Option<(u32, u32)> = match self.reference_size {
            Some(s) => Some(s),
            None => preview,
        };
        match (self.rect, size) {
            (Some(rect), Some((w, h))) => DrawnRect {
                rect: Some(rotate_dmin_rect_90(rect, w, h, clockwise)),
                reference_size: Some((h, w)),
            },
            _ => self,
        }
    }

    /// The rectangle after a flip.
    pub open spec fn flipped(self, preview: Option<(u32, u32)>, horizontal: bool) -> DrawnRect {
        match (self.rect, either(self.reference_size, preview)) {
            (Some(rect), Some((w, h))) => DrawnRect {
                rect: Some(
                    if horizontal {
                        crate::geometry::flipped_across(rect, w)
                    } else {
                        crate::geometry::flipped_down(rect, h)
                    },
                ),
                ..self
            },
            _ => self,
        }
    }

    fn flip(self, preview: Option<(u32, u32)>, horizontal: bool) -> (r: DrawnRect)
        ensures
            r == self.flipped(preview, horizontal),
    {
        let size: Option<(u32, u32)> = match self.reference_size {
            Some(s) => Some(s),
            None => preview,
        };
        match (self.rect, size) {
            (Some(rect), Some((w, h))) => DrawnRect {
                rect: Some(
                    if horizontal {
                        flip_rect_horizontal(rect, w, h)
                    } else {
                        flip_rect_vertical(rect, w, h)
                    },
                ),
                reference_size: self.reference_size,
            },
            _ => self,
        }
    }

    /// There is no rectangle, or one with an area in the size that it was drawn in.
    pub open spec fn settled(self) -> bool {
        match self.rect {
            None => true,
            Some(r) => match self.reference_size {
                None => false,
                Some((w, h)) => crate::geometry::inside(r, w, h) && r.width >= 1 && r.height >= 1,
            },
        }
    }
}

impl PictureFrame {
    /// The picture after a quarter turn.
    pub open spec fn turned(self, clockwise: bool) -> PictureFrame {
        PictureFrame {
            dmin: self.dmin.turned(self.preview_input_size, clockwise),
            crop: self.crop.turned(self.preview_input_size, clockwise),
            rotation_degrees: crate::orient::angle(
                self.rotation_degrees + if clockwise {
                    90int
                } else {
                    -90
                },
            ) as i32,
            preview_input_size: swapped(self.preview_input_size),
            raw_source_size: swapped(self.raw_source_size),
            preview_screen_wh: (self.preview_screen_wh.1, self.preview_screen_wh.0),
            ..self
        }
    }

    /// Turns the picture by a quarter: its rectangles and sizes turn with it.
    pub fn rotate_click(self, clockwise: bool) -> (r: PictureFrame)
        requires
            i32::MIN + 90 <= self.rotation_degrees <= i32::MAX - 90,
        ensures
            r == self.turned(clockwise),
    {
        let delta: i32 = if clockwise {
            90
        } else {
            -90
        };
        PictureFrame {
            dmin: self.dmin.turn(self.preview_input_size, clockwise),
            crop: self.crop.turn(self.preview_input_size, clockwise),
            rotation_degrees: crate::orient::reduced(self.rotation_degrees + delta),
            flip_horizontal: self.flip_horizontal,
            flip_vertical: self.flip_vertical,
            preview_input_size: swap(self.preview_input_size),
            raw_source_size: swap(self.raw_source_size),
            preview_screen_wh: (self.preview_screen_wh.1, self.preview_screen_wh.0),
        }
    }

    /// The picture after a flip.
    pub open spec fn flipped(self, horizontal: bool) -> PictureFrame {
        PictureFrame {
            dmin: self.dmin.flipped(self.preview_input_size, horizontal),
            crop: self.crop.flipped(self.preview_input_size, horizontal),
            flip_horizontal: self.flip_horizontal != horizontal,
            flip_vertical: self.flip_vertical == horizontal,
            ..self
        }
    }

    /// Flips the picture across, or down: its rectangles flip with it.
    pub fn flip_click(self, horizontal: bool) -> (r: PictureFrame)
        ensures
            r == self.flipped(horizontal),
    {
        PictureFrame {
            dmin: self.dmin.flip(self.preview_input_size, horizontal),
            crop: self.crop.flip(self.preview_input_size, horizontal),
            rotation_degrees: self.rotation_degrees,
            flip_horizontal: self.flip_horizontal != horizontal,
            flip_vertical: self.flip_vertical == horizontal,
            preview_input_size: self.preview_input_size,
            raw_source_size: self.raw_source_size,
            preview_screen_wh: self.preview_screen_wh,
        }
    }

    /// The rectangles are settled and the angle is in range.
    pub open spec fn settled(self) -> bool {
        self.dmin.settled() && self.crop.settled() && 0 <= self.rotation_degrees < 360
    }
}

/// A turn one way undoes a turn the other way, and a turned picture is as settled as before.
pub proof fn turning_back_restores(p: PictureFrame, clockwise: bool)
    requires
        p.settled(),
    ensures
        p.turned(clockwise).settled(),
        p.turned(clockwise).turned(!clockwise) == p,
{
    if let (Some(r), Some((w, h))) = (p.dmin.rect, p.dmin.reference_size) {
        crate::geometry::turns_undo_each_other(r, w, h, clockwise);
    }
    if let (Some(r), Some((w, h))) = (p.crop.rect, p.crop.reference_size) {
        crate::geometry::turns_undo_each_other(r, w, h, clockwise);
    }
}

/// A second flip the same way undoes the first.
pub proof fn flipping_again_restores(p: PictureFrame, horizontal: bool)
    requires
        p.settled(),
    ensures
        p.flipped(horizontal).settled(),
        p.flipped(horizontal).flipped(horizontal) == p,
{
    if let (Some(r), Some((w, h))) = (p.dmin.rect, p.dmin.reference_size) {
        crate::geometry::flips_undo_themselves(r, w, h);
    }
    if let (Some(r), Some((w, h))) = (p.crop.rect, p.crop.reference_size) {
        crate::geometry::flips_undo_themselves(r, w, h);
    }
}

} // verus!
