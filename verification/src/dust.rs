//! Dust that the user paints over: strokes, their mask, and when a preview or an export heals
//! them.

use vstd::prelude::*;
use crate::options::{DminMode, DustHealParams, DustInfill, DustStroke, DustTool, PipelineOptions,
    ZoneRange};
use crate::single::Single;

verus! {

/// What the window is for.
#[derive(Debug, Clone, Copy, PartialEq, Eq, Structural)]
pub enum UiMode {
    Process,
    Calibrate,
    LuminanceCalibrate,
    Debug,
}

/// Tabs of the process mode.
#[derive(Debug, Clone, Copy, PartialEq, Eq, Structural)]
pub enum ProcessTab {
    Input,
    Develop,
    Dust,
    Export,
}

/// What the dust tab shows.
#[derive(Debug, Clone, Copy, PartialEq, Eq, Structural)]
pub enum DustView {
    /// The picture with its dust.
    Disable,
    /// The picture under the mask.
    Edit,
    /// The healed picture.
    Process,
}

/// Largest radius of the brush.
pub const DUST_BRUSH_RADIUS_MAX: u64 = 150;

/// Controls of the dust tab.
#[derive(Debug, Clone, Copy, PartialEq, Eq)]
pub struct DustControls {
    pub view: DustView,
    pub tool: Option<DustTool>,
    pub brush_radius: Single,
    pub detect: Single,
    pub feather: Single,
    pub grain: Single,
    pub infill: DustInfill,
    pub tile: u8,
    pub match_loosen: Single,
}

impl DustControls {
    pub open spec fn fresh_spec() -> DustControls {
        DustControls {
            view: DustView::Edit,
            tool: Some(DustTool::Pen),
            brush_radius: Single::whole(8),
            detect: Single::whole(1),
            feather: Single::whole(6),
            grain: Single::whole(1),
            infill: DustInfill::PatchMatch,
            tile: 3,
            match_loosen: Single::whole(2),
        }
    }

    /// The controls of a picture that has just been added.
    pub fn fresh() -> (r: DustControls)
        ensures
            r == DustControls::fresh_spec(),
    {
        DustControls {
            view: DustView::Edit,
            tool: Some(DustTool::Pen),
            brush_radius: Single::whole(8),
            detect: Single::whole(1),
            feather: Single::whole(6),
            grain: Single::whole(1),
            infill: DustInfill::PatchMatch,
            tile: 3,
            match_loosen: Single::whole(2),
        }
    }

    pub open spec fn heal_spec(self) -> DustHealParams {
        DustHealParams {
            detect: self.detect,
            feather: self.feather,
            grain: self.grain,
            grain_sigma: Single::whole(2),
            infill: self.infill,
            tile: self.tile,
            match_loosen: self.match_loosen,
        }
    }

    /// How dust is healed with these controls. The grain always has the same size.
    #[verifier::when_used_as_spec(heal_spec)]
    pub fn heal(self) -> (r: DustHealParams)
        ensures
            r == self.heal_spec(),
    {
        DustHealParams {
            detect: self.detect,
            feather: self.feather,
            grain: self.grain,
            grain_sigma: Single::whole(2),
            infill: self.infill,
            tile: self.tile,
            match_loosen: self.match_loosen,
        }
    }

    /// The controls with the values of a project: how it heals, and its brush.
    pub fn with_project(self, heal: DustHealParams, brush_radius: Single) -> (r: DustControls)
        ensures
            r == (DustControls {
                brush_radius,
                detect: heal.detect,
                feather: heal.feather,
                grain: heal.grain,
                infill: heal.infill,
                tile: heal.tile,
                match_loosen: heal.match_loosen,
                ..self
            }),
    {
        DustControls {
            brush_radius,
            detect: heal.detect,
            feather: heal.feather,
            grain: heal.grain,
            infill: heal.infill,
            tile: heal.tile,
            match_loosen: heal.match_loosen,
            ..self
        }
    }

    pub open spec fn smaller_brush_spec(self) -> DustControls {
        DustControls {
            brush_radius: self.brush_radius.minus(Single::whole(1)).larger(Single::whole(1)),
            ..self
        }
    }

    /// A brush one pixel smaller, of one pixel at least.
    #[verifier::when_used_as_spec(smaller_brush_spec)]
    pub fn smaller_brush(self) -> (r: DustControls)
        ensures
            r == self.smaller_brush_spec(),
    {
        DustControls {
            brush_radius: self.brush_radius.minus(Single::whole(1)).larger(Single::whole(1)),
            ..self
        }
    }

    pub open spec fn larger_brush_spec(self) -> DustControls {
        DustControls {
            brush_radius: self.brush_radius.plus(Single::whole(1)).smaller(
                Single::whole(DUST_BRUSH_RADIUS_MAX),
            ),
            ..self
        }
    }

    /// A brush one pixel larger, up to the largest.
    #[verifier::when_used_as_spec(larger_brush_spec)]
    pub fn larger_brush(self) -> (r: DustControls)
        ensures
            r == self.larger_brush_spec(),
    {
        DustControls {
            brush_radius: self.brush_radius.plus(Single::whole(1)).smaller(
                Single::whole(DUST_BRUSH_RADIUS_MAX),
            ),
            ..self
        }
    }

    /// The brush while it is resized by dragging: `start` is its radius at the press, `drag`
    /// how far the pointer went to the right and up since.
    pub fn dragged_brush(self, start: Single, drag: Single) -> (r: DustControls)
        ensures
            r == (DustControls {
                brush_radius: start.plus(drag.times(Single::ratio(15, 100))).clamp(
                    Single::whole(1),
                    Single::whole(DUST_BRUSH_RADIUS_MAX),
                ),
                ..self
            }),
    {
        DustControls {
            brush_radius: start.plus(drag.times(Single::ratio(15, 100))).clamp(
                Single::whole(1),
                Single::whole(DUST_BRUSH_RADIUS_MAX),
            ),
            ..self
        }
    }

    /// The tile size set by a slider: a whole number from two to five.
    pub fn with_tile(self, slider: Single) -> (r: DustControls)
        ensures
            r == (DustControls {
                tile: slider.rounded().clamp(Single::whole(2), Single::whole(5)).to_int(255) as u8,
                ..self
            }),
    {
        let t: u64 = slider.rounded().clamp(Single::whole(2), Single::whole(5)).to_int(255);
        DustControls { tile: t as u8, ..self }
    }
}

/// How far a drag of the brush size has come with one more move of the pointer.
pub fn drag_further(drag: Single, dx: Single, dy: Single) -> (r: Single)
    ensures
        r == drag.plus(dx).minus(dy),
{
    drag.plus(dx).minus(dy)
}

/// The dust of a picture: its strokes in pixels of a reference size, and their mask.
pub struct DustState {
    pub strokes: Vec<DustStroke>,
    pub reference_size: Option<(u32, u32)>,
    pub mask: Vec<u8>,
    pub mask_size: (u32, u32),
    /// Whether the mask has changed since it was last drawn.
    pub overlay_dirty: bool,
}

/// A mask that has to be drawn from the strokes.
#[derive(Debug, Clone, Copy, PartialEq, Eq)]
pub struct RasterRequest {
    pub width: u32,
    pub height: u32,
    /// The size whose pixels the strokes are in.
    pub reference: (u32, u32),
}

pub open spec fn applies(mode: UiMode, tab: ProcessTab, view: DustView, strokes: nat) -> bool {
    strokes > 0 && (mode == UiMode::Process ==> tab == ProcessTab::Export || (tab
        == ProcessTab::Dust && view == DustView::Process))
}

/// Whether a preview is healed: never without strokes; in the process mode only on the export
/// tab, and on the dust tab where it shows the healed picture.
pub fn dust_should_apply(mode: UiMode, tab: ProcessTab, view: DustView, strokes: usize) -> (r:
    bool)
    ensures
        r == applies(mode, tab, view, strokes as nat),
{
    if strokes == 0 {
        return false;
    }
    if mode == UiMode::Process {
        return match tab {
            ProcessTab::Input | ProcessTab::Develop => false,
            ProcessTab::Dust => view == DustView::Process,
            ProcessTab::Export => true,
        };
    }
    true
}

/// Size of the picture that the brush is measured in: that of the source where it is known.
pub fn dust_source_wh(raw: Option<(u32, u32)>, preview_w: u32, preview_h: u32) -> (r: (
    Single,
    Single,
))
    ensures
        r == match raw {
            Some((w, h)) => (Single::whole(w as u64), Single::whole(h as u64)),
            None => (
                Single::whole(if preview_w == 0 { 1 } else { preview_w as u64 }),
                Single::whole(if preview_h == 0 { 1 } else { preview_h as u64 }),
            ),
        },
{
    match raw {
        Some((w, h)) => (Single::whole(w as u64), Single::whole(h as u64)),
        None => (
            Single::whole(
                if preview_w == 0 {
                    1
                } else {
                    preview_w as u64
                },
            ),
            Single::whole(
                if preview_h == 0 {
                    1
                } else {
                    preview_h as u64
                },
            ),
        ),
    }
}

/// Whether two lists hold the same strokes.
pub open spec fn same_strokes(a: Seq<DustStroke>, b: Seq<DustStroke>) -> bool {
    &&& a.len() == b.len()
    &&& forall|i: int|
        0 <= i < a.len() ==> (#[trigger] a[i]).tool == b[i].tool && a[i].radius == b[i].radius
            && a[i].points@ == b[i].points@
}

/// A copy of some strokes.
pub fn copy_strokes(strokes: &Vec<DustStroke>) -> (r: Vec<DustStroke>)
    ensures
        same_strokes(r@, strokes@),
{
    let mut out: Vec<DustStroke> = Vec::new();
    let mut i: usize = 0;
    while i < strokes.len()
        invariant
            i <= strokes.len(),
            same_strokes(out@, strokes@.take(i as int)),
        decreases strokes.len() - i,
    {
        let s: &DustStroke = &strokes[i];
        let mut points: Vec<(Single, Single)> = Vec::new();
        let mut k: usize = 0;
        while k < s.points.len()
            invariant
                k <= s.points.len(),
                points@ == s.points@.take(k as int),
            decreases s.points.len() - k,
        {
            points.push(s.points[k]);
            k = k + 1;
            assert(points@ =~= s.points@.take(k as int));
        }
        assert(s.points@.take(s.points.len() as int) =~= s.points@);
        let ghost before = out@;
        out.push(DustStroke { tool: s.tool, radius: s.radius, points });
        i = i + 1;
        proof {
            assert forall|j: int| 0 <= j < out@.len() implies (#[trigger] out@[j]).tool
                == strokes@.take(i as int)[j].tool && out@[j].radius == strokes@.take(
                i as int,
            )[j].radius && out@[j].points@ == strokes@.take(i as int)[j].points@ by {
                if j < before.len() {
                    assert(out@[j] == before[j]);
                    assert(strokes@.take(i as int)[j] == strokes@.take(i - 1)[j]);
                }
            }
        }
    }
    assert(strokes@.take(strokes.len() as int) =~= strokes@);
    out
}

/// The size, where both its sides hold a pixel.
pub open spec fn not_empty(size: Option<(u32, u32)>) -> Option<(u32, u32)> {
    match size {
        Some((w, h)) => if w > 0 && h > 0 {
            size
        } else {
            None
        },
        None => None,
    }
}

fn kept_size(size: Option<(u32, u32)>) -> (r: Option<(u32, u32)>)
    ensures
        r == not_empty(size),
{
    match size {
        Some((w, h)) => if w > 0 && h > 0 {
            Some((w, h))
        } else {
            None
        },
        None => None,
    }
}

pub open spec fn first_size(a: Option<(u32, u32)>, b: Option<(u32, u32)>) -> Option<(u32, u32)> {
    if a is Some {
        a
    } else {
        b
    }
}

/// Settings with the dust of a picture attached, or with none: `r` is healed with `heal`, its
/// strokes are those of `strokes`, in pixels of `size`.
pub open spec fn healed(
    r: PipelineOptions,
    opts: PipelineOptions,
    strokes: Seq<DustStroke>,
    size: Option<(u32, u32)>,
    heal: DustHealParams,
    hash: u64,
) -> bool {
    &&& same_strokes(r.dust_strokes@, strokes)
    &&& r == (PipelineOptions {
        dust_heal: heal,
        dust_mask_hash: hash,
        dust_strokes: r.dust_strokes,
        dust_reference_size: size,
        dust_mask: None,
        dust_uv: None,
        ..opts
    })
}

/// Attaches the dust of a picture to the settings of its export.
///
/// Without strokes nothing is healed. `hash` is the hash of the strokes and of how they are
/// healed, `oriented` the size of the picture as it is turned.
pub fn attach_export_dust(
    opts: PipelineOptions,
    dust: &DustState,
    controls: DustControls,
    oriented: Option<(u32, u32)>,
    hash: u64,
) -> (r: PipelineOptions)
    ensures
        dust.strokes@.len() == 0 ==> healed(
            r,
            opts,
            Seq::<DustStroke>::empty(),
            None,
            opts.dust_heal,
            0,
        ),
        dust.strokes@.len() > 0 ==> healed(
            r,
            opts,
            dust.strokes@,
            not_empty(first_size(dust.reference_size, oriented)),
            controls.heal(),
            hash,
        ),
{
    if dust.strokes.len() == 0 {
        return PipelineOptions {
            dust_mask_hash: 0,
            dust_mask: None,
            dust_strokes: Vec::new(),
            dust_reference_size: None,
            dust_uv: None,
            ..opts
        };
    }
    let size = kept_size(
        match dust.reference_size {
            Some(s) => Some(s),
            None => oriented,
        },
    );
    PipelineOptions {
        dust_heal: controls.heal(),
        dust_mask_hash: hash,
        dust_strokes: copy_strokes(&dust.strokes),
        dust_reference_size: size,
        dust_mask: None,
        dust_uv: None,
        ..opts
    }
}

/// What a look at the whole scene has found.
#[derive(Debug, Clone, Copy, PartialEq, Eq)]
pub struct SceneStats {
    pub dmin: Option<(Single, Single, Single)>,
    pub auto_wb: Option<(Single, Single, Single)>,
    pub zone: Option<ZoneRange>,
}

/// Settings with what was found in the scene written in, so that a part of the picture is
/// developed as the whole is.
pub open spec fn pinned(opts: PipelineOptions, stats: SceneStats) -> PipelineOptions {
    let wb = if opts.auto_wb {
        stats.auto_wb
    } else {
        None
    };
    PipelineOptions {
        dmin_mode: if stats.dmin is Some {
            DminMode::Fixed
        } else {
            opts.dmin_mode
        },
        dmin_fixed: if stats.dmin is Some {
            stats.dmin
        } else {
            opts.dmin_fixed
        },
        auto_wb: opts.auto_wb && wb is None,
        apply_white_balance: opts.apply_white_balance || wb is Some,
        wb_r: match wb {
            Some((r, _, _)) => opts.wb_r.times(r),
            None => opts.wb_r,
        },
        wb_g: match wb {
            Some((_, g, _)) => opts.wb_g.times(g),
            None => opts.wb_g,
        },
        wb_b: match wb {
            Some((_, _, b)) => opts.wb_b.times(b),
            None => opts.wb_b,
        },
        pinned_zone: stats.zone,
        ..opts
    }
}

/// Writes what was found in the scene into the settings.
pub fn pin_scene(opts: PipelineOptions, stats: SceneStats) -> (r: PipelineOptions)
    ensures
        r == pinned(opts, stats),
{
    let wb = if opts.auto_wb {
        stats.auto_wb
    } else {
        None
    };
    let (wb_r, wb_g, wb_b) = match wb {
        Some((r, g, b)) => (opts.wb_r.times(r), opts.wb_g.times(g), opts.wb_b.times(b)),
        None => (opts.wb_r, opts.wb_g, opts.wb_b),
    };
    let (dmin_mode, dmin_fixed) = match stats.dmin {
        Some(d) => (DminMode::Fixed, Some(d)),
        None => (opts.dmin_mode, opts.dmin_fixed),
    };
    let auto_wb: bool = opts.auto_wb && wb.is_none();
    let apply_white_balance: bool = opts.apply_white_balance || wb.is_some();
    PipelineOptions {
        dmin_mode,
        dmin_fixed,
        auto_wb,
        apply_white_balance,
        wb_r,
        wb_g,
        wb_b,
        pinned_zone: stats.zone,
        ..opts
    }
}

/// Settings of a preview before its dust: the flat field of the session, and what was found in
/// the scene, unless the preview has the full resolution.
pub open spec fn preview_base(
    opts: PipelineOptions,
    flat_field: Option<String>,
    stats: Option<SceneStats>,
    full_res: bool,
) -> PipelineOptions {
    let flat = PipelineOptions { flat_field_path: flat_field, ..opts };
    match stats {
        Some(s) => if full_res {
            flat
        } else {
            pinned(flat, s)
        },
        None => flat,
    }
}

fn base_of_preview(
    opts: PipelineOptions,
    flat_field: Option<String>,
    stats: Option<SceneStats>,
    full_res: bool,
) -> (r: PipelineOptions)
    ensures
        r == preview_base(opts, flat_field, stats, full_res),
{
    let flat: PipelineOptions = PipelineOptions { flat_field_path: flat_field, ..opts };
    match stats {
        Some(s) => if full_res {
            flat
        } else {
            pin_scene(flat, s)
        },
        None => flat,
    }
}

fn heal_with(
    opts: PipelineOptions,
    strokes: Vec<DustStroke>,
    size: Option<(u32, u32)>,
    heal: DustHealParams,
    hash: u64,
) -> (r: PipelineOptions)
    ensures
        healed(r, opts, strokes@, size, heal, hash),
{
    PipelineOptions {
        dust_heal: heal,
        dust_mask_hash: hash,
        dust_strokes: strokes,
        dust_reference_size: size,
        dust_mask: None,
        dust_uv: None,
        ..opts
    }
}

proof fn lemma_healed_same(
    r: PipelineOptions,
    opts: PipelineOptions,
    copy: Seq<DustStroke>,
    strokes: Seq<DustStroke>,
    size: Option<(u32, u32)>,
    heal: DustHealParams,
    hash: u64,
)
    requires
        healed(r, opts, copy, size, heal, hash),
        same_strokes(copy, strokes),
    ensures
        healed(r, opts, strokes, size, heal, hash),
{
    assert forall|i: int| 0 <= i < r.dust_strokes@.len() implies (#[trigger] r.dust_strokes@[i]).tool
        == strokes[i].tool && r.dust_strokes@[i].radius == strokes[i].radius
        && r.dust_strokes@[i].points@ == strokes[i].points@ by {
        assert(copy[i].tool == strokes[i].tool);
    }
}

/// Settings that a preview is made with: those of [`preview_base`], and the dust where it is
/// healed.
///
/// `applies` says whether it is, `hash` is the hash of the strokes and of how they are healed.
pub fn bake_preview_options(
    opts: PipelineOptions,
    flat_field: Option<String>,
    stats: Option<SceneStats>,
    full_res: bool,
    dust: &DustState,
    controls: DustControls,
    applies: bool,
    hash: u64,
) -> (r: PipelineOptions)
    ensures
        applies ==> healed(
            r,
            preview_base(opts, flat_field, stats, full_res),
            dust.strokes@,
            not_empty(first_size(dust.reference_size, Some(dust.mask_size))),
            controls.heal(),
            hash,
        ),
        !applies ==> healed(
            r,
            preview_base(opts, flat_field, stats, full_res),
            Seq::<DustStroke>::empty(),
            None,
            controls.heal(),
            0,
        ),
{
    let base: PipelineOptions = base_of_preview(opts, flat_field, stats, full_res);
    bake_dust(base, dust, controls, applies, hash)
}

fn bake_dust(
    base: PipelineOptions,
    dust: &DustState,
    controls: DustControls,
    applies: bool,
    hash: u64,
) -> (r: PipelineOptions)
    ensures
        applies ==> healed(
            r,
            base,
            dust.strokes@,
            not_empty(first_size(dust.reference_size, Some(dust.mask_size))),
            controls.heal(),
            hash,
        ),
        !applies ==> healed(r, base, Seq::<DustStroke>::empty(), None, controls.heal(), 0),
{
    if !applies {
        return heal_with(base, Vec::new(), None, controls.heal(), 0);
    }
    let size = kept_size(
        match dust.reference_size {
            Some(s) => Some(s),
            None => Some(dust.mask_size),
        },
    );
    let strokes: Vec<DustStroke> = copy_strokes(&dust.strokes);
    let ghost copy = strokes@;
    let r: PipelineOptions = heal_with(base, strokes, size, controls.heal(), hash);
    proof {
        lemma_healed_same(r, base, copy, dust.strokes@, size, controls.heal(), hash);
    }
    r
}

/// How far apart two points are.
pub open spec fn apart(a: (Single, Single), b: (Single, Single)) -> Single {
    let dx = a.0.minus(b.0);
    let dy = a.1.minus(b.1);
    dx.times(dx).plus(dy.times(dy)).square_root()
}

/// Whether the brush moved far enough from the last point of a stroke to leave another: more
/// than a quarter of a pixel.
pub open spec fn moved_spec(last: (Single, Single), point: (Single, Single)) -> bool {
    Single::ratio(1, 4).less(apart(last, point))
}

/// Whether the brush moved far enough.
#[verifier::when_used_as_spec(moved_spec)]
pub fn moved_enough(last: (Single, Single), point: (Single, Single)) -> (r: bool)
    ensures
        r == moved_spec(last, point),
{
    let dx: Single = last.0.minus(point.0);
    let dy: Single = last.1.minus(point.1);
    Single::ratio(1, 4).less(dx.times(dx).plus(dy.times(dy)).square_root())
}

impl DustState {
    /// A picture without dust.
    pub fn clean() -> (r: DustState)
        ensures
            r.strokes@.len() == 0,
            r.reference_size is None,
            r.mask@.len() == 0,
            r.mask_size == (0u32, 0u32),
            r.overlay_dirty,
    {
        DustState {
            strokes: Vec::new(),
            reference_size: None,
            mask: Vec::new(),
            mask_size: (0, 0),
            overlay_dirty: true,
        }
    }

    /// The mask that the strokes need after an edit was taken back or a project was read: of
    /// the reference size, or of the preview where there is none.
    pub open spec fn rebuild_spec(self, preview: Option<(u32, u32)>) -> Option<RasterRequest> {
        match not_empty(first_size(self.reference_size, preview)) {
            Some((w, h)) => Some(
                RasterRequest {
                    width: w,
                    height: h,
                    reference: match self.reference_size {
                        Some(r) => r,
                        None => (w, h),
                    },
                },
            ),
            None => None,
        }
    }

    /// The mask that has to be drawn anew; where there is no size for one, the mask is cleared.
    pub fn rebuild_dust_raster(&mut self, preview: Option<(u32, u32)>) -> (r: Option<
        RasterRequest,
    >)
        ensures
            r == old(self).rebuild_spec(preview),
            final(self).strokes == old(self).strokes,
            final(self).reference_size == old(self).reference_size,
            final(self).overlay_dirty,
            r is None ==> final(self).mask@.len() == 0 && final(self).mask_size == (0u32, 0u32),
            r is Some ==> final(self).mask == old(self).mask && final(self).mask_size == old(
                self,
            ).mask_size,
    {
        self.overlay_dirty = true;
        let size = kept_size(
            match self.reference_size {
                Some(s) => Some(s),
                None => preview,
            },
        );
        match size {
            None => {
                self.mask.clear();
                self.mask_size = (0, 0);
                None
            },
            Some((w, h)) => Some(
                RasterRequest {
                    width: w,
                    height: h,
                    reference: match self.reference_size {
                        Some(s) => s,
                        None => (w, h),
                    },
                },
            ),
        }
    }

    /// Takes a mask that was drawn.
    pub fn take_mask(&mut self, request: RasterRequest, data: Vec<u8>)
        ensures
            final(self).strokes == old(self).strokes,
            final(self).reference_size == old(self).reference_size,
            final(self).mask == data,
            final(self).mask_size == (request.width, request.height),
            final(self).overlay_dirty,
    {
        self.mask = data;
        self.mask_size = (request.width, request.height);
        self.overlay_dirty = true;
    }

    /// The size that strokes are counted in when the picture is shown `w` by `h`: the source,
    /// as long as nothing is painted; what it was; else the preview.
    pub open spec fn working_reference(self, raw: Option<(u32, u32)>, w: u32, h: u32) -> (
        u32,
        u32,
    ) {
        match (if self.strokes@.len() == 0 { not_empty(raw) } else { None }) {
            Some(s) => s,
            None => match self.reference_size {
                Some(s) => s,
                None => (w, h),
            },
        }
    }

    /// Prepares painting on a picture that is shown `w` by `h`, and tells which mask has to be
    /// drawn first, where the one at hand does not fit.
    pub fn ensure_dust_working_mask(&mut self, raw: Option<(u32, u32)>, w: u32, h: u32) -> (r:
        Option<RasterRequest>)
        requires
            w * h <= usize::MAX,
        ensures
            final(self).strokes == old(self).strokes,
            final(self).mask == old(self).mask,
            final(self).mask_size == old(self).mask_size,
            final(self).overlay_dirty == old(self).overlay_dirty,
            w == 0 || h == 0 ==> r is None && final(self).reference_size == old(
                self,
            ).reference_size,
            w > 0 && h > 0 ==> {
                let reference = old(self).working_reference(raw, w, h);
                &&& final(self).reference_size == Some(reference)
                &&& r == if old(self).mask_size == (w, h) && old(self).mask@.len() == w * h {
                    None
                } else {
                    Some(RasterRequest { width: w, height: h, reference })
                }
            },
    {
        if w == 0 || h == 0 {
            return None;
        }
        if self.strokes.len() == 0 {
            if let Some((sw, sh)) = kept_size(raw) {
                self.reference_size = Some((sw, sh));
            }
        }
        let reference: (u32, u32) = match self.reference_size {
            Some(s) => s,
            None => (w, h),
        };
        self.reference_size = Some(reference);
        proof {
            assert(w as usize * h as usize == w * h);
        }
        if self.mask_size.0 == w && self.mask_size.1 == h && self.mask.len() == w as usize
            * h as usize {
            return None;
        }
        Some(RasterRequest { width: w, height: h, reference })
    }

    /// Wipes all strokes and the mask.
    pub fn clear(&mut self)
        ensures
            final(self).strokes@.len() == 0,
            final(self).mask@.len() == old(self).mask@.len(),
            forall|i: int| 0 <= i < final(self).mask@.len() ==> #[trigger] final(self).mask@[i] == 0,
            final(self).reference_size == old(self).reference_size,
            final(self).mask_size == old(self).mask_size,
            final(self).overlay_dirty,
    {
        self.strokes.clear();
        self.overlay_dirty = true;
        let n: usize = self.mask.len();
        let mut i: usize = 0;
        while i < n
            invariant
                i <= n,
                self.mask@.len() == n,
                n == old(self).mask@.len(),
                self.strokes@.len() == 0,
                self.reference_size == old(self).reference_size,
                self.mask_size == old(self).mask_size,
                self.overlay_dirty,
                forall|k: int| 0 <= k < i ==> #[trigger] self.mask@[k] == 0,
            decreases n - i,
        {
            self.mask.set(i, 0);
            i = i + 1;
        }
    }

    /// The brush is at `point`, in pixels of the reference size. A press begins a stroke;
    /// further on, the stroke under way takes the point where the brush moved far enough
    /// from its last one.
    pub fn paint(
        &mut self,
        painting: bool,
        tool: DustTool,
        radius: Single,
        point: (Single, Single),
    )
        ensures
            final(self).reference_size == old(self).reference_size,
            final(self).mask == old(self).mask,
            final(self).mask_size == old(self).mask_size,
            final(self).overlay_dirty,
            !painting ==> {
                let n = old(self).strokes@.len() as int;
                &&& final(self).strokes@.len() == n + 1
                &&& final(self).strokes@.take(n) == old(self).strokes@
                &&& final(self).strokes@[n].tool == tool
                &&& final(self).strokes@[n].radius == radius
                &&& final(self).strokes@[n].points@ == seq![point]
            },
            painting && old(self).strokes@.len() == 0 ==> final(self).strokes@ == old(
                self,
            ).strokes@,
            painting && old(self).strokes@.len() > 0 ==> {
                let last = old(self).strokes@.last();
                let now = final(self).strokes@.last();
                &&& final(self).strokes@.len() == old(self).strokes@.len()
                &&& final(self).strokes@.drop_last() == old(self).strokes@.drop_last()
                &&& now.tool == last.tool
                &&& now.radius == last.radius
                &&& now.points@ == if last.points@.len() == 0 || moved_enough(
                    last.points@.last(),
                    point,
                ) {
                    last.points@.push(point)
                } else {
                    last.points@
                }
            },
    {
        self.overlay_dirty = true;
        let ghost before = self.strokes@;
        if !painting {
            let mut points: Vec<(Single, Single)> = Vec::new();
            points.push(point);
            proof {
                assert(points@ =~= seq![point]);
            }
            self.strokes.push(DustStroke { tool, radius, points });
            proof {
                assert(self.strokes@.take(before.len() as int) =~= before);
            }
        } else if let Some(last) = self.strokes.pop() {
            let mut stroke: DustStroke = last;
            let n: usize = stroke.points.len();
            if n == 0 || moved_enough(stroke.points[n - 1], point) {
                stroke.points.push(point);
            }
            self.strokes.push(stroke);
            proof {
                assert(self.strokes@.drop_last() =~= before.drop_last());
            }
        }
    }
}

/// Without strokes, neither a preview nor an export is healed.
pub proof fn unpainted_pictures_are_left_alone(
    mode: UiMode,
    tab: ProcessTab,
    view: DustView,
)
    ensures
        !applies(mode, tab, view, 0),
{
}

/// Where the brush is on the picture, and what its strokes are counted in.
#[derive(Debug, Clone, Copy, PartialEq, Eq)]
pub struct BrushFrame {
    /// The size whose pixels the strokes are in.
    pub reference: (u32, u32),
    /// The size of the picture as it is shown, at least one pixel each way.
    pub shown: (Single, Single),
    /// The size of the source.
    pub source: (Single, Single),
}

impl BrushFrame {
    pub open spec fn scale_spec(self) -> (Single, Single) {
        (
            Single::whole(self.reference.0 as u64).over(self.shown.0),
            Single::whole(self.reference.1 as u64).over(self.shown.1),
        )
    }

    /// Pixels of the reference size to one shown pixel.
    #[verifier::when_used_as_spec(scale_spec)]
    pub fn scale(self) -> (r: (Single, Single))
        ensures
            r == self.scale_spec(),
    {
        (
            Single::whole(self.reference.0 as u64).over(self.shown.0),
            Single::whole(self.reference.1 as u64).over(self.shown.1),
        )
    }

    /// A point of the shown picture, as a stroke keeps it.
    pub fn to_stroke(self, x: Single, y: Single) -> (r: (Single, Single))
        ensures
            r == (x.times(self.scale().0), y.times(self.scale().1)),
    {
        let (sx, sy) = self.scale();
        (x.times(sx), y.times(sy))
    }

    /// A point of a stroke, on the shown picture.
    pub fn to_shown(self, x: Single, y: Single) -> (r: (Single, Single))
        ensures
            r == (x.over(self.scale().0), y.over(self.scale().1)),
    {
        let (sx, sy) = self.scale();
        (x.over(sx), y.over(sy))
    }

    /// The radius of the brush, as a stroke keeps it: the mean of both directions.
    pub fn stroke_radius(self, brush: Single) -> (r: Single)
        ensures
            r == brush.times(
                Single::whole(self.reference.0 as u64).over(self.source.0).plus(
                    Single::whole(self.reference.1 as u64).over(self.source.1),
                ),
            ).times(Single::ratio(1, 2)),
    {
        brush.times(
            Single::whole(self.reference.0 as u64).over(self.source.0).plus(
                Single::whole(self.reference.1 as u64).over(self.source.1),
            ),
        ).times(Single::ratio(1, 2))
    }
}

/// The radius of the brush where the source is `width` wide: in pixels of the mask, or of the
/// screen.
pub fn brush_on(brush: Single, width: Single, source_w: Single) -> (r: Single)
    ensures
        r == brush.times(width.over(source_w.larger(Single::whole(1)))),
{
    brush.times(width.over(source_w.larger(Single::whole(1))))
}

/// The radius of the circle that stands for the brush on screen: that of the brush there, and
/// at least 2.
pub fn brush_circle(brush: Single, width: Single, source_w: Single) -> (r: Single)
    ensures
        r == brush.times(width.over(source_w.larger(Single::whole(1)))).larger(Single::whole(2)),
{
    brush_on(brush, width, source_w).larger(Single::whole(2))
}

/// Number of stamps along a line: two to a pixel, and one at least.
pub open spec fn stamp_count(dx: Single, dy: Single) -> u64 {
    dx.times(dx).plus(dy.times(dy)).square_root().times(Single::whole(2)).ceiled().larger(
        Single::whole(1),
    ).to_int(0x7fff_ffff)
}

/// The `s`th stamp on the way from a point over `(dx, dy)`.
pub open spec fn stamp_at(
    from: (Single, Single),
    dx: Single,
    dy: Single,
    s: u64,
    steps: u64,
) -> (Single, Single) {
    let t = Single::whole(s).over(Single::whole(steps));
    (from.0.plus(dx.times(t)), from.1.plus(dy.times(t)))
}

/// Where the brush leaves its stamps: at the point it is at, or along the line from the last
/// one, without that one.
pub fn stamp_centres(last: Option<(Single, Single)>, x: Single, y: Single) -> (r: Vec<
    (Single, Single),
>)
    ensures
        match last {
            None => r@ == seq![(x, y)],
            Some(from) => {
                let dx = x.minus(from.0);
                let dy = y.minus(from.1);
                &&& r@.len() == stamp_count(dx, dy)
                &&& forall|i: int|
                    0 <= i < r@.len() ==> #[trigger] r@[i] == stamp_at(
                        from,
                        dx,
                        dy,
                        (i + 1) as u64,
                        stamp_count(dx, dy),
                    )
            },
        },
{
    let mut out: Vec<(Single, Single)> = Vec::new();
    match last {
        None => {
            out.push((x, y));
            proof {
                assert(out@ =~= seq![(x, y)]);
            }
        },
        Some(from) => {
            let dx: Single = x.minus(from.0);
            let dy: Single = y.minus(from.1);
            let steps: u64 = dx.times(dx).plus(dy.times(dy)).square_root().times(
                Single::whole(2),
            ).ceiled().larger(Single::whole(1)).to_int(0x7fff_ffff);
            proof {
                crate::single::lemma_to_int_bound(
                    dx.times(dx).plus(dy.times(dy)).square_root().times(
                        Single::whole(2),
                    ).ceiled().larger(Single::whole(1)),
                    0x7fff_ffff,
                );
            }
            let mut s: u64 = 0;
            while s < steps
                invariant
                    s <= steps <= 0x7fff_ffff,
                    out@.len() == s,
                    forall|i: int|
                        0 <= i < out@.len() ==> #[trigger] out@[i] == stamp_at(
                            from,
                            dx,
                            dy,
                            (i + 1) as u64,
                            steps,
                        ),
                decreases steps - s,
            {
                s = s + 1;
                let t: Single = Single::whole(s).over(Single::whole(steps));
                out.push((from.0.plus(dx.times(t)), from.1.plus(dy.times(t))));
            }
        },
    }
    out
}

/// How strongly the mask covers the picture, for each of its values.
pub open spec fn overlay_alpha(cover: u8) -> u8 {
    (cover * 120 / 255) as u8
}

/// The alpha values of the red sheet that shows the mask.
pub fn overlay_alphas(mask: &Vec<u8>) -> (r: Vec<u8>)
    ensures
        r@ == mask@.map_values(|c: u8| overlay_alpha(c)),
{
    let mut out: Vec<u8> = Vec::with_capacity(mask.len());
    let mut i: usize = 0;
    while i < mask.len()
        invariant
            i <= mask.len(),
            out@ == mask@.take(i as int).map_values(|c: u8| overlay_alpha(c)),
        decreases mask.len() - i,
    {
        let c: u8 = mask[i];
        out.push((c as u16 * 120 / 255) as u8);
        proof {
            assert(mask@.take(i + 1) =~= mask@.take(i as int).push(c));
            assert(out@ =~= mask@.take(i + 1).map_values(|c: u8| overlay_alpha(c)));
        }
        i = i + 1;
    }
    assert(mask@.take(mask.len() as int) =~= mask@);
    out
}

} // verus!
