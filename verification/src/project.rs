//! Edits that can be taken back, projects, and leaving one that has not been saved.

use vstd::prelude::*;
use crate::dust::{DustControls, DustState, RasterRequest};
use crate::options::{DustHealParams, DustStroke, PipelineOptions};
use crate::settings::{apply_runtime_gui_defaults, normalize_persistable_options, ExportFormat,
    ProjectExportFormat};
use crate::single::Single;

verus! {

/// Settings as an edit left them, in a session that is as `now` is: what belongs to the session
/// stays, all else is as in `edit`.
pub open spec fn restored(now: PipelineOptions, edit: PipelineOptions) -> PipelineOptions {
    PipelineOptions {
        use_gpu: now.use_gpu,
        debug_pipeline_step: now.debug_pipeline_step,
        debug_preview_simple_debayer: now.debug_preview_simple_debayer,
        verbose_debug: now.verbose_debug,
        pinned_zone: now.pinned_zone,
        flat_field_path: now.flat_field_path,
        ..edit
    }
}

/// Puts the settings of an edit back; what belongs to the session is kept.
pub fn restore_options(now: PipelineOptions, edit: PipelineOptions) -> (r: PipelineOptions)
    ensures
        r == restored(now, edit),
{
    PipelineOptions {
        use_gpu: now.use_gpu,
        debug_pipeline_step: now.debug_pipeline_step,
        debug_preview_simple_debayer: now.debug_preview_simple_debayer,
        verbose_debug: now.verbose_debug,
        pinned_zone: now.pinned_zone,
        flat_field_path: now.flat_field_path,
        ..edit
    }
}

/// An edit that was put back is what would be kept as an edit again: nothing is lost by taking
/// a step back, and the session does not show in it.
pub proof fn restoring_an_edit_gives_it_back(now: PipelineOptions, then: PipelineOptions)
    ensures
        ({
            let edit = crate::settings::session_defaults(then, false);
            crate::settings::session_defaults(restored(now, edit), false) == edit
        }),
{
}

/// Settings, format and dust of a picture, as an edit keeps them.
pub struct EditSnapshot {
    pub options: PipelineOptions,
    pub export_format: ExportFormat,
    pub dust_strokes: Vec<DustStroke>,
    pub dust_reference_size: Option<(u32, u32)>,
}

/// What an edit keeps of a picture.
pub fn edit_snapshot(options: PipelineOptions, export_format: ExportFormat, dust: &DustState) -> (r:
    EditSnapshot)
    ensures
        r.options == crate::settings::session_defaults(options, false),
        r.export_format == export_format,
        crate::dust::same_strokes(r.dust_strokes@, dust.strokes@),
        r.dust_reference_size == dust.reference_size,
{
    EditSnapshot {
        options: apply_runtime_gui_defaults(options, false),
        export_format,
        dust_strokes: crate::dust::copy_strokes(&dust.strokes),
        dust_reference_size: dust.reference_size,
    }
}

/// Puts the dust of an edit back, and tells which mask it needs.
pub fn restore_dust(dust: &mut DustState, edit: &EditSnapshot, preview: Option<(u32, u32)>) -> (r:
    Option<RasterRequest>)
    ensures
        crate::dust::same_strokes(final(dust).strokes@, edit.dust_strokes@),
        final(dust).reference_size == edit.dust_reference_size,
        r == final(dust).rebuild_spec(preview),
        final(dust).overlay_dirty,
        r is None ==> final(dust).mask@.len() == 0 && final(dust).mask_size == (0u32, 0u32),
{
    dust.strokes = crate::dust::copy_strokes(&edit.dust_strokes);
    dust.reference_size = edit.dust_reference_size;
    dust.rebuild_dust_raster(preview)
}

/// The picture to select after edits were taken back: the first of them that is still open.
pub open spec fn first_open(ids: Seq<u64>, edits: Seq<u64>) -> Option<int>
    decreases edits.len(),
{
    if edits.len() == 0 {
        None
    } else if ids.contains(edits[0]) {
        Some(ids.index_of_first(edits[0]).unwrap())
    } else {
        first_open(ids, edits.skip(1))
    }
}

fn place_of(ids: &Vec<u64>, id: u64) -> (r: Option<usize>)
    ensures
        match r {
            Some(i) => ids@.contains(id) && i == ids@.index_of_first(id).unwrap() && i
                < ids@.len() && ids@[i as int] == id,
            None => !ids@.contains(id),
        },
{
    let mut i: usize = 0;
    while i < ids.len()
        invariant
            i <= ids.len(),
            forall|k: int| 0 <= k < i ==> #[trigger] ids@[k] != id,
        decreases ids.len() - i,
    {
        if ids[i] == id {
            proof {
                assert(ids@[i as int] == id);
                assert(ids@.contains(id));
                ids@.index_of_first_ensures(id);
                let f = ids@.index_of_first(id).unwrap();
                if f < i {
                    assert(ids@[f] != id);
                }
                if f > i {
                    assert(false);
                }
            }
            return Some(i);
        }
        i = i + 1;
    }
    None
}

/// The picture to select after edits were taken back, by its place among the open ones.
pub fn restored_selection(ids: &Vec<u64>, edits: &Vec<u64>) -> (r: Option<usize>)
    ensures
        match r {
            Some(i) => first_open(ids@, edits@) == Some(i as int) && i < ids@.len(),
            None => first_open(ids@, edits@) is None,
        },
{
    let mut k: usize = 0;
    proof {
        assert(edits@.skip(0) =~= edits@);
    }
    while k < edits.len()
        invariant
            k <= edits.len(),
            first_open(ids@, edits@) == first_open(ids@, edits@.skip(k as int)),
        decreases edits.len() - k,
    {
        proof {
            assert(edits@.skip(k as int)[0] == edits@[k as int]);
            assert(edits@.skip(k as int).skip(1) =~= edits@.skip(k + 1));
        }
        if let Some(i) = place_of(ids, edits[k]) {
            return Some(i);
        }
        k = k + 1;
    }
    None
}

/// What is committed to the history of edits.
#[derive(Debug, Clone, Copy, PartialEq, Eq)]
pub enum Commit {
    /// Nothing, while a batch changes the pictures.
    Wait,
    /// All pictures.
    All,
    /// All but the one with this id, which is being changed.
    AllBut(u64),
}

/// Which pictures are committed to the history: not the selected one while the user drags or
/// paints.
pub fn commit_edit_history(batch: bool, interacting: bool, selected: Option<usize>, ids: &Vec<
    u64,
>) -> (r: Commit)
    ensures
        r == if batch {
            Commit::Wait
        } else {
            match selected {
                Some(i) => if interacting && i < ids@.len() {
                    Commit::AllBut(ids@[i as int])
                } else {
                    Commit::All
                },
                None => Commit::All,
            }
        },
{
    if batch {
        return Commit::Wait;
    }
    if interacting {
        if let Some(i) = selected {
            if i < ids.len() {
                return Commit::AllBut(ids[i]);
            }
        }
    }
    Commit::All
}

/// Dust as a project keeps it.
pub struct ProjectDust {
    pub reference_size: (u32, u32),
    pub strokes: Vec<DustStroke>,
    pub heal: DustHealParams,
    pub brush_radius: Single,
}

/// The dust of a picture, for its project. Strokes without a reference size are in pixels of
/// the mask.
pub fn project_dust(dust: &DustState, controls: DustControls) -> (r: ProjectDust)
    ensures
        r.reference_size == match dust.reference_size {
            Some(s) => s,
            None => dust.mask_size,
        },
        crate::dust::same_strokes(r.strokes@, dust.strokes@),
        r.heal == controls.heal(),
        r.brush_radius == controls.brush_radius,
{
    ProjectDust {
        reference_size: match dust.reference_size {
            Some(s) => s,
            None => dust.mask_size,
        },
        strokes: crate::dust::copy_strokes(&dust.strokes),
        heal: controls.heal(),
        brush_radius: controls.brush_radius,
    }
}

/// Takes the strokes of a project, and tells which mask they need. A project without strokes
/// leaves the picture as it is.
pub fn apply_project_dust(dust: &mut DustState, project: ProjectDust, preview: Option<(u32, u32)>)
    -> (r: Option<RasterRequest>)
    ensures
        project.strokes@.len() == 0 ==> *final(dust) == *old(dust) && r is None,
        project.strokes@.len() > 0 ==> {
            &&& final(dust).strokes == project.strokes
            &&& final(dust).reference_size == Some(project.reference_size)
            &&& r == final(dust).rebuild_spec(preview)
            &&& r is None ==> final(dust).mask@.len() == 0 && final(dust).mask_size == (0u32, 0u32)
            &&& final(dust).overlay_dirty
        },
{
    if project.strokes.len() == 0 {
        return None;
    }
    dust.strokes = project.strokes;
    dust.reference_size = Some(project.reference_size);
    dust.rebuild_dust_raster(preview)
}

/// A picture as a project keeps it.
pub struct ProjectImage {
    pub path: String,
    pub export_format: ProjectExportFormat,
    pub options: PipelineOptions,
    /// Its dust, where strokes were painted.
    pub dust: Option<ProjectDust>,
}

/// A picture, for its project: without what belongs to the session, and with its dust apart.
/// A picture without strokes keeps no dust.
pub fn persistable_image(
    path: String,
    options: PipelineOptions,
    export_format: ExportFormat,
    dust: &DustState,
    controls: DustControls,
) -> (r: ProjectImage)
    ensures
        r.path == path,
        r.export_format == export_format.to_project(),
        r.options.dust_strokes@.len() == 0,
        r.options == crate::settings::persistable(options, r.options.dust_strokes),
        r.dust is None <==> dust.strokes@.len() == 0,
        r.dust matches Some(kept) ==> {
            &&& kept.reference_size == match dust.reference_size {
                Some(s) => s,
                None => dust.mask_size,
            }
            &&& crate::dust::same_strokes(kept.strokes@, dust.strokes@)
            &&& kept.heal == controls.heal()
            &&& kept.brush_radius == controls.brush_radius
        },
{
    ProjectImage {
        path,
        export_format: export_format.to_project(),
        options: normalize_persistable_options(options),
        dust: if dust.strokes.len() == 0 {
            None
        } else {
            Some(project_dust(dust, controls))
        },
    }
}

/// The dust controls that a project keeps are those that it gives back.
pub proof fn project_keeps_the_dust_controls(controls: DustControls, fresh: DustControls)
    ensures
        ({
            let heal = controls.heal();
            let back = DustControls {
                brush_radius: controls.brush_radius,
                detect: heal.detect,
                feather: heal.feather,
                grain: heal.grain,
                infill: heal.infill,
                tile: heal.tile,
                match_loosen: heal.match_loosen,
                ..fresh
            };
            back.heal() == controls.heal() && back.brush_radius == controls.brush_radius
        }),
{
}

/// What the user wants to do that leaves the project.
pub enum LeaveAction {
    LoadDialog,
    LoadRecent(String),
    Quit,
}

/// What is done about a wish to leave.
pub enum Leave {
    /// It is done at once.
    Go(LeaveAction),
    /// The user is asked first whether to save.
    Ask(LeaveAction),
}

/// Leaving a project that is saved needs no question.
pub fn request_leave_current_project(dirty: bool, action: LeaveAction) -> (r: Leave)
    ensures
        r == if dirty {
            Leave::Ask(action)
        } else {
            Leave::Go(action)
        },
{
    if dirty {
        Leave::Ask(action)
    } else {
        Leave::Go(action)
    }
}

/// What the user answers to the question whether to save.
#[derive(Debug, Clone, Copy, PartialEq, Eq, Structural)]
pub enum LeaveAnswer {
    Yes,
    No,
    Cancel,
    /// No answer yet.
    Open,
}

/// What an answer leads to.
pub enum AfterAnswer {
    /// Write the project to where it is kept, and leave if that succeeds.
    SaveThenGo(LeaveAction),
    /// Ask for a place to keep the project, and leave if it is written there.
    SaveAsThenGo(LeaveAction),
    Go(LeaveAction),
    Stay,
    AskOn(LeaveAction),
}

/// What the answer to the question whether to save leads to; `placed` says whether the project
/// has a file.
pub fn answer_leave(answer: LeaveAnswer, placed: bool, action: LeaveAction) -> (r: AfterAnswer)
    ensures
        r == match answer {
            LeaveAnswer::Yes => if placed {
                AfterAnswer::SaveThenGo(action)
            } else {
                AfterAnswer::SaveAsThenGo(action)
            },
            LeaveAnswer::No => AfterAnswer::Go(action),
            LeaveAnswer::Cancel => AfterAnswer::Stay,
            LeaveAnswer::Open => AfterAnswer::AskOn(action),
        },
{
    match answer {
        LeaveAnswer::Yes => if placed {
            AfterAnswer::SaveThenGo(action)
        } else {
            AfterAnswer::SaveAsThenGo(action)
        },
        LeaveAnswer::No => AfterAnswer::Go(action),
        LeaveAnswer::Cancel => AfterAnswer::Stay,
        LeaveAnswer::Open => AfterAnswer::AskOn(action),
    }
}

/// What is left to do of a wish to leave once the project was written, or could not be.
pub fn after_save(saved: bool, action: LeaveAction) -> (r: Option<LeaveAction>)
    ensures
        r == if saved {
            Some(action)
        } else {
            None
        },
{
    if saved {
        Some(action)
    } else {
        None
    }
}

/// Whether saving needs a place to be chosen first.
pub fn save_needs_place(save_as: bool, placed: bool) -> (r: bool)
    ensures
        r == (save_as || !placed),
{
    save_as || !placed
}

} // verus!
