//! What the window decides from frame to frame: closing, keys, pointer and finished work.

use vstd::prelude::*;
use crate::canvas::Point;
use crate::dust::{DustControls, DustView, ProcessTab, UiMode};
use crate::options::{DminMode, DustTool, OutputLutEncoding, OutputStage, PipelineOptions, WbMode};
use crate::single::Single;
use crate::tile_cache::TileFetch;
use crate::view::UvRect;

verus! {

/// What becomes of the wish to close the window.
#[derive(Debug, Clone, Copy, PartialEq, Eq, Structural)]
pub enum CloseStep {
    /// Nothing stands against it, or nobody wishes it.
    Let,
    /// It stays open; the user is already saving.
    Hold,
    /// It stays open, and the user is asked whether to save.
    HoldAndAsk,
}

/// Whether the window closes: not while there is unsaved work that the user has not given up.
pub fn close_window(requested: bool, confirmed: bool, dirty: bool, saving: bool) -> (r: CloseStep)
    ensures
        r == if requested && !confirmed && dirty {
            if saving {
                CloseStep::Hold
            } else {
                CloseStep::HoldAndAsk
            }
        } else {
            CloseStep::Let
        },
{
    if requested && !confirmed && dirty {
        if saving {
            CloseStep::Hold
        } else {
            CloseStep::HoldAndAsk
        }
    } else {
        CloseStep::Let
    }
}

/// The mode after the debug keys: into debug, and back to processing.
pub fn toggle_debug(mode: UiMode) -> (r: UiMode)
    ensures
        r == if mode == UiMode::Debug {
            UiMode::Process
        } else {
            UiMode::Debug
        },
{
    if mode == UiMode::Debug {
        UiMode::Process
    } else {
        UiMode::Debug
    }
}

/// Heading of the settings.
pub fn mode_heading(mode: UiMode) -> (r: &'static str)
    ensures
        r@ == match mode {
            UiMode::Process => "Image Settings"@,
            UiMode::Calibrate => "Color calibration"@,
            UiMode::LuminanceCalibrate => "Capture flat field"@,
            UiMode::Debug => "Debug"@,
        },
{
    match mode {
        UiMode::Process => "Image Settings",
        UiMode::Calibrate => "Color calibration",
        UiMode::LuminanceCalibrate => "Capture flat field",
        UiMode::Debug => "Debug",
    }
}

/// Whether the controls of a tab are shown: in the process mode those of the open tab, in the
/// calibration of colour those of the input and of the development.
pub fn tab_shown(mode: UiMode, open: ProcessTab, tab: ProcessTab) -> (r: bool)
    ensures
        r == ((mode == UiMode::Calibrate && (tab == ProcessTab::Input || tab
            == ProcessTab::Develop)) || (mode == UiMode::Process && open == tab)),
{
    (mode == UiMode::Calibrate && (tab == ProcessTab::Input || tab == ProcessTab::Develop)) || (mode
        == UiMode::Process && open == tab)
}

/// What came from the worker that makes previews.
#[derive(Debug, Clone, Copy, PartialEq, Eq, Structural)]
pub enum PreviewEvent {
    Nothing,
    /// The worker is gone.
    Lost,
    /// A preview of this generation for this picture.
    Made { generation: u64, index: usize },
    Failed,
}

/// What is done with it.
#[derive(Debug, Clone, Copy, PartialEq, Eq, Structural)]
pub struct PreviewStep {
    /// There is no job any more.
    pub over: bool,
    /// The preview is taken.
    pub take: Option<usize>,
    /// An automatic grade that waited for the preview is at its end.
    pub ends_auto: bool,
}

pub open spec fn preview_step(
    event: PreviewEvent,
    now: u64,
    images: usize,
    waiting: Option<usize>,
) -> PreviewStep {
    match event {
        PreviewEvent::Nothing => PreviewStep { over: false, take: None, ends_auto: false },
        PreviewEvent::Lost => PreviewStep { over: true, take: None, ends_auto: false },
        PreviewEvent::Made { generation, index } => if generation == now && index < images {
            PreviewStep { over: true, take: Some(index), ends_auto: waiting == Some(index) }
        } else {
            PreviewStep { over: true, take: None, ends_auto: false }
        },
        PreviewEvent::Failed => PreviewStep { over: true, take: None, ends_auto: waiting is Some },
    }
}

/// What is done with what came from the worker. `now` is the generation that is wanted, and
/// `waiting` the picture whose preview an automatic grade waits for.
pub fn poll_preview(event: PreviewEvent, now: u64, images: usize, waiting: Option<usize>) -> (r:
    PreviewStep)
    ensures
        r == preview_step(event, now, images, waiting),
{
    match event {
        PreviewEvent::Nothing => PreviewStep { over: false, take: None, ends_auto: false },
        PreviewEvent::Lost => PreviewStep { over: true, take: None, ends_auto: false },
        PreviewEvent::Made { generation, index } => {
            if generation == now && index < images {
                let ends: bool = match waiting {
                    Some(w) => w == index,
                    None => false,
                };
                PreviewStep { over: true, take: Some(index), ends_auto: ends }
            } else {
                PreviewStep { over: true, take: None, ends_auto: false }
            }
        },
        PreviewEvent::Failed => PreviewStep {
            over: true,
            take: None,
            ends_auto: waiting.is_some(),
        },
    }
}

/// Only the preview that is wanted is taken, and only for a picture that is there.
pub proof fn stale_previews_are_dropped(
    event: PreviewEvent,
    now: u64,
    images: usize,
    waiting: Option<usize>,
)
    ensures
        preview_step(event, now, images, waiting).take matches Some(i) ==> i < images && event
            == (PreviewEvent::Made { generation: now, index: i }),
{
}

/// Forgets the tile on its way and those that failed, and begins a new generation: whatever
/// still comes back is stale.
pub fn restart_tiles<T>(fetch: &mut TileFetch<T>)
    ensures
        final(fetch).cache == old(fetch).cache,
        final(fetch).inflight is None,
        final(fetch).failed@.len() == 0,
        final(fetch).generation == if old(fetch).generation == u64::MAX {
            0
        } else {
            (old(fetch).generation + 1) as u64
        },
{
    fetch.inflight = None;
    fetch.failed.clear();
    fetch.generation = if fetch.generation == u64::MAX {
        0
    } else {
        fetch.generation + 1
    };
}

/// What is drawn of a picture.
#[derive(Debug, Clone, Copy, PartialEq, Eq, Structural)]
pub struct Drawn {
    pub tiles: bool,
    pub proxy: bool,
}

/// What is drawn: tiles where the view is fine enough for them and nothing has changed since
/// they were made; the preview below them unless they cover the view. What is on screen is
/// always drawn, one way or the other.
pub fn drawn_layers(
    soft: bool,
    dirty: bool,
    geometry_pending: bool,
    on_screen: bool,
    tiles_ready: bool,
) -> (r: Drawn)
    ensures
        r.tiles == (soft && !dirty && !geometry_pending),
        r.proxy == (on_screen && !(r.tiles && tiles_ready)),
        on_screen ==> r.proxy || (r.tiles && tiles_ready),
{
    let tiles: bool = soft && !dirty && !geometry_pending;
    Drawn { tiles, proxy: on_screen && !(tiles && tiles_ready) }
}

/// Size at which a picture is laid out before its first preview: three by two, as wide as the
/// canvas.
pub fn first_size(known: Option<(u32, u32)>, canvas_w: Single) -> (r: (u32, u32))
    ensures
        r == match known {
            Some(size) => size,
            None => (
                canvas_w.to_int(0xffff_ffff) as u32,
                canvas_w.times(Single::whole(2)).over(Single::whole(3)).to_int(0xffff_ffff) as u32,
            ),
        },
{
    match known {
        Some(size) => size,
        None => {
            let h: Single = canvas_w.times(Single::whole(2)).over(Single::whole(3));
            proof {
                crate::single::lemma_to_int_bound(canvas_w, 0xffff_ffff);
                crate::single::lemma_to_int_bound(h, 0xffff_ffff);
            }
            (canvas_w.to_int(0xffff_ffff) as u32, h.to_int(0xffff_ffff) as u32)
        },
    }
}

/// Whether the spinner turns: there is nothing to show yet, something is on its way, and no
/// window tells of it.
pub fn spinner_shown(shown: bool, loader: bool, in_flight: bool, auto_waiting: bool) -> (r: bool)
    ensures
        r == (!shown && (loader || in_flight) && !auto_waiting),
{
    !shown && (loader || in_flight) && !auto_waiting
}

/// A button under the picture.
#[derive(Debug, Clone, Copy, PartialEq, Eq, Structural)]
pub enum Turn {
    Right,
    Left,
    FlipVertical,
    FlipHorizontal,
}

/// The button that was pressed: it counts when the pointer goes down, so that a second click is
/// not lost while a preview starts.
pub fn pressed_turn(pressed: bool, right: bool, left: bool, vertical: bool, horizontal: bool) -> (r:
    Option<Turn>)
    ensures
        r == if !pressed {
            None
        } else if right {
            Some(Turn::Right)
        } else if left {
            Some(Turn::Left)
        } else if vertical {
            Some(Turn::FlipVertical)
        } else if horizontal {
            Some(Turn::FlipHorizontal)
        } else {
            None
        },
{
    if !pressed {
        None
    } else if right {
        Some(Turn::Right)
    } else if left {
        Some(Turn::Left)
    } else if vertical {
        Some(Turn::FlipVertical)
    } else if horizontal {
        Some(Turn::FlipHorizontal)
    } else {
        None
    }
}

/// Keys of the dust tab.
#[derive(Debug, Clone, Copy, PartialEq, Eq, Structural)]
pub enum DustKey {
    Disable,
    Process,
    Edit,
    Escape,
    Pen,
    Eraser,
    Smaller,
    Larger,
}

/// What a key of the dust tab leads to.
#[derive(Debug, Clone, Copy, PartialEq, Eq)]
pub struct DustKeyStep {
    pub controls: DustControls,
    /// A stroke under way is over.
    pub ends_stroke: bool,
    /// A brush that was being resized keeps its size.
    pub ends_resize: bool,
}

/// The controls after a key, and what ends by it. A tool is not changed under a stroke.
pub open spec fn dust_key(controls: DustControls, key: DustKey, painting: bool) -> DustKeyStep {
    match key {
        DustKey::Disable => DustKeyStep {
            controls: DustControls { view: DustView::Disable, ..controls },
            ends_stroke: true,
            ends_resize: true,
        },
        DustKey::Process => DustKeyStep {
            controls: DustControls { view: DustView::Process, ..controls },
            ends_stroke: true,
            ends_resize: true,
        },
        DustKey::Edit => DustKeyStep {
            controls: DustControls { view: DustView::Edit, ..controls },
            ends_stroke: true,
            ends_resize: true,
        },
        DustKey::Escape => DustKeyStep {
            controls: DustControls { tool: None, ..controls },
            ends_stroke: true,
            ends_resize: false,
        },
        DustKey::Pen => DustKeyStep {
            controls: if painting {
                controls
            } else {
                DustControls { tool: Some(DustTool::Pen), ..controls }
            },
            ends_stroke: false,
            ends_resize: false,
        },
        DustKey::Eraser => DustKeyStep {
            controls: if painting {
                controls
            } else {
                DustControls { tool: Some(DustTool::Eraser), ..controls }
            },
            ends_stroke: false,
            ends_resize: false,
        },
        DustKey::Smaller => DustKeyStep {
            controls: controls.smaller_brush(),
            ends_stroke: false,
            ends_resize: false,
        },
        DustKey::Larger => DustKeyStep {
            controls: controls.larger_brush(),
            ends_stroke: false,
            ends_resize: false,
        },
    }
}

/// Presses a key of the dust tab.
pub fn press_dust_key(controls: DustControls, key: DustKey, painting: bool) -> (r: DustKeyStep)
    ensures
        r == dust_key(controls, key, painting),
{
    match key {
        DustKey::Disable => DustKeyStep {
            controls: DustControls { view: DustView::Disable, ..controls },
            ends_stroke: true,
            ends_resize: true,
        },
        DustKey::Process => DustKeyStep {
            controls: DustControls { view: DustView::Process, ..controls },
            ends_stroke: true,
            ends_resize: true,
        },
        DustKey::Edit => DustKeyStep {
            controls: DustControls { view: DustView::Edit, ..controls },
            ends_stroke: true,
            ends_resize: true,
        },
        DustKey::Escape => DustKeyStep {
            controls: DustControls { tool: None, ..controls },
            ends_stroke: true,
            ends_resize: false,
        },
        DustKey::Pen => DustKeyStep {
            controls: if painting {
                controls
            } else {
                DustControls { tool: Some(DustTool::Pen), ..controls }
            },
            ends_stroke: false,
            ends_resize: false,
        },
        DustKey::Eraser => DustKeyStep {
            controls: if painting {
                controls
            } else {
                DustControls { tool: Some(DustTool::Eraser), ..controls }
            },
            ends_stroke: false,
            ends_resize: false,
        },
        DustKey::Smaller => DustKeyStep {
            controls: controls.smaller_brush(),
            ends_stroke: false,
            ends_resize: false,
        },
        DustKey::Larger => DustKeyStep {
            controls: controls.larger_brush(),
            ends_stroke: false,
            ends_resize: false,
        },
    }
}

/// What the pointer does on the canvas of the dust tab.
#[derive(Debug, Clone, Copy, PartialEq, Eq, Structural)]
pub enum BrushAction {
    /// The brush grows or shrinks as the pointer is dragged.
    Resize,
    /// The brush paints.
    Paint,
    /// A brush that was being resized keeps its size.
    EndResize,
    /// Nothing; a stroke is over.
    Rest,
}

/// What the pointer does: with the control key held it resizes the brush, else it paints. The
/// button must be down on the canvas, without the keys that move the view.
pub fn brush_action(armed: bool, button_down: bool, control: bool, resizing: bool) -> (r: BrushAction)
    ensures
        r == if armed && button_down && control {
            BrushAction::Resize
        } else if resizing && !button_down {
            BrushAction::EndResize
        } else if armed && button_down && !resizing {
            BrushAction::Paint
        } else {
            BrushAction::Rest
        },
{
    if armed && button_down && control {
        BrushAction::Resize
    } else if resizing && !button_down {
        BrushAction::EndResize
    } else if armed && button_down && !resizing {
        BrushAction::Paint
    } else {
        BrushAction::Rest
    }
}

/// Whether a point lies in a rectangle, edges and all.
pub open spec fn holds(r: UvRect, p: Point) -> bool {
    r.left.at_most(p.x) && p.x.at_most(r.right) && r.top.at_most(p.y) && p.y.at_most(r.bottom)
}

/// Whether the pointer is on the part of the picture that is on screen.
pub fn on_picture(picture: UvRect, canvas: UvRect, p: Point) -> (r: bool)
    ensures
        r == (holds(picture, p) && holds(canvas, p)),
{
    picture.left.at_most(p.x) && p.x.at_most(picture.right) && picture.top.at_most(p.y)
        && p.y.at_most(picture.bottom) && canvas.left.at_most(p.x) && p.x.at_most(canvas.right)
        && canvas.top.at_most(p.y) && p.y.at_most(canvas.bottom)
}

/// Whether the rectangle of the film base can be drawn by hand.
pub fn base_rect_shown(mode: UiMode, opts: &PipelineOptions, flat_field: bool, size: Option<(u32, u32)>) -> (r:
    bool)
    ensures
        r == (mode == UiMode::Process && opts.dmin_mode == DminMode::SampleRegion && !flat_field
            && opts.dmin_rect is Some && (size matches Some((w, h)) && w > 0 && h > 0)),
{
    let sized: bool = match size {
        Some((w, h)) => w > 0 && h > 0,
        None => false,
    };
    mode == UiMode::Process && opts.dmin_mode == DminMode::SampleRegion && !flat_field
        && opts.dmin_rect.is_some() && sized
}

/// What the white-balance picker does when its mode is chosen.
#[derive(Debug, Clone, Copy, PartialEq, Eq, Structural)]
pub enum PickerStep {
    /// The mode is what it was.
    Leave,
    /// The gains are put back, and the next click on the picture picks.
    Arm,
    /// No click picks, and the flags follow the mode.
    Disarm,
}

/// What the picker does when a white balance is chosen.
pub fn choose_white_balance(now: WbMode, chosen: WbMode) -> (r: PickerStep)
    ensures
        r == if now == chosen {
            PickerStep::Leave
        } else if chosen == WbMode::Picker {
            PickerStep::Arm
        } else {
            PickerStep::Disarm
        },
{
    if now == chosen {
        PickerStep::Leave
    } else if chosen == WbMode::Picker {
        PickerStep::Arm
    } else {
        PickerStep::Disarm
    }
}

/// Whether a click on the picture picks.
pub fn picker_ready(armed: bool, mode: WbMode) -> (r: bool)
    ensures
        r == (armed && mode == WbMode::Picker),
{
    armed && mode == WbMode::Picker
}

/// A way to find the film base, in words.
pub fn base_mode_label(mode: DminMode) -> (r: &'static str)
    ensures
        r@ == match mode {
            DminMode::Off => "Off"@,
            DminMode::Fixed => "Fixed values"@,
            DminMode::SampleRegion => "Sample region"@,
            DminMode::AutoPercentile => "Auto (percentile)"@,
        },
{
    match mode {
        DminMode::Off => "Off",
        DminMode::Fixed => "Fixed values",
        DminMode::SampleRegion => "Sample region",
        DminMode::AutoPercentile => "Auto (percentile)",
    }
}

/// An output, in words.
pub fn output_stage_label(stage: OutputStage) -> (r: &'static str)
    ensures
        r@ == match stage {
            OutputStage::Ra4 => "RA-4 print emulation"@,
            OutputStage::FilmPrint => "Film Print"@,
            OutputStage::Lut2383 => "3D LUT (display-space)"@,
            OutputStage::Bare => "No curve"@,
        },
{
    match stage {
        OutputStage::Ra4 => "RA-4 print emulation",
        OutputStage::FilmPrint => "Film Print",
        OutputStage::Lut2383 => "3D LUT (display-space)",
        OutputStage::Bare => "No curve",
    }
}

/// What a cube takes in, in words.
pub fn lut_encoding_label(encoding: OutputLutEncoding) -> (r: &'static str)
    ensures
        r@ == match encoding {
            OutputLutEncoding::CineonLog => "Cineon log (D ÷ 2.046)"@,
            OutputLutEncoding::Rec709 => "Rec.709 (sRGB gamma)"@,
            OutputLutEncoding::LinearDensity => "Linear (D ÷ 2.5)"@,
        },
{
    match encoding {
        OutputLutEncoding::CineonLog => "Cineon log (D ÷ 2.046)",
        OutputLutEncoding::Rec709 => "Rec.709 (sRGB gamma)",
        OutputLutEncoding::LinearDensity => "Linear (D ÷ 2.5)",
    }
}

/// Scale at which a thumbnail stands on its card: it fits, and is never enlarged.
pub fn card_scale(w: Single, h: Single) -> (r: Single)
    ensures
        r == Single::whole(44).over(w).smaller(Single::whole(44).over(h)).smaller(Single::whole(1)),
{
    Single::whole(44).over(w).smaller(Single::whole(44).over(h)).smaller(Single::whole(1))
}

} // verus!
