//! When a preview is made, from what, and what a finished one changes.
//!
//! A preview of the present settings is wanted at once but not at every move of a slider; a
//! coarse one is refined once nothing moves; and tiles at full size are fetched when the view
//! has come to rest.

use vstd::prelude::*;
use crate::jobs::StepCache;
use crate::view::preview_draft_limits;

verus! {

/// How fine a preview is.
#[derive(Debug, Clone, Copy, PartialEq, Eq, Structural)]
pub enum PreviewLod {
    Draft,
    Screen,
    FullRes,
}

/// How long settings rest before a preview is made, in milliseconds.
pub const PREVIEW_DEBOUNCE_MS: u64 = 180;

/// How long they rest while a slider is dragged.
pub const PREVIEW_LIVE_DEBOUNCE_MS: u64 = 50;

/// How long a view rests before it is filled with tiles.
pub const PREVIEW_VIEW_SETTLE_MS: u64 = 100;

/// How long clicks that turn or flip the picture are gathered.
pub const GEOMETRY_COALESCE_MS: u64 = 300;

/// How much larger a screen has to be than the preview that was asked for, to ask again.
pub const SCREEN_SLACK: u32 = 64;

/// What is known when a frame has been drawn.
#[derive(Debug, Clone, Copy, PartialEq, Eq)]
pub struct PreviewFacts {
    /// Whether the preview on screen is of the present settings.
    pub current: bool,
    pub lod: PreviewLod,
    pub full_res_active: bool,
    pub full_res_clicked: bool,
    /// Whether tiles are sharper than the preview here.
    pub proxy_soft: bool,
    /// Whether tiles can cover the whole view.
    pub tiles_fit: bool,
    /// Whether dust is healed by wave function collapse, which needs the whole picture.
    pub whole_picture_dust: bool,
    /// The size that the screen needs, and the one that was asked for last.
    pub screen: (u32, u32),
    pub requested: (u32, u32),
    pub pointer_down: bool,
    pub rect_dragging: bool,
    pub dust_painting: bool,
    pub view_dragging: bool,
    pub canvas_pointer: bool,
    /// Whether clicks that turn or flip are being gathered.
    pub geometry_pending: bool,
    /// Whether a preview can be made from buffers at hand.
    pub live_available: bool,
    /// Whether a preview is being made, and from buffers at hand.
    pub in_flight: bool,
    pub in_flight_live: bool,
    /// Whether a tile is being made.
    pub tile_in_flight: bool,
    /// Whether an automatic job waits for this preview.
    pub auto_waiting: bool,
    /// Whether these settings are those that are waited for, and for how long they have been.
    pub pending_same: bool,
    pub pending_ms: Option<u64>,
    /// Whether the settings that are waited for are of this picture at all.
    pub pending_here: bool,
    /// How long the view has rested.
    pub view_rest_ms: Option<u64>,
}

/// How a preview is made.
#[derive(Debug, Clone, Copy, PartialEq, Eq, Structural)]
pub enum PreviewRequest {
    /// From buffers at hand.
    Live,
    /// From the sensor.
    Make(PreviewLod),
}

/// What is to be done.
#[derive(Debug, Clone, Copy, PartialEq, Eq)]
pub struct PreviewPlan {
    /// The settings are new: drop the tiles, and wait from now on.
    pub restart_wait: bool,
    /// The preview that is being made is given up.
    pub drop_job: bool,
    pub request: Option<PreviewRequest>,
    /// Whether the full resolution stays on.
    pub full_res_active: bool,
    pub full_res_clicked: bool,
    /// No settings are waited for any more.
    pub forget_pending: bool,
    /// The wait is over.
    pub end_wait: bool,
    /// Clicks that turn or flip are gathered no more.
    pub end_coalesce: bool,
    /// Look again soon.
    pub look_again: bool,
}

impl PreviewFacts {
    /// Whether the user drags a slider: the pointer is down, and not on the picture.
    pub open spec fn slider(self) -> bool {
        self.pointer_down && !self.rect_dragging && !self.dust_painting && !self.view_dragging
            && !self.canvas_pointer
    }

    fn slider_dragging(&self) -> (r: bool)
        ensures
            r == self.slider(),
    {
        self.pointer_down && !self.rect_dragging && !self.dust_painting && !self.view_dragging
            && !self.canvas_pointer
    }

    /// How long the settings have to rest.
    pub open spec fn debounce(self) -> u64 {
        if self.geometry_pending {
            GEOMETRY_COALESCE_MS
        } else if self.slider() {
            PREVIEW_LIVE_DEBOUNCE_MS
        } else {
            PREVIEW_DEBOUNCE_MS
        }
    }

    /// Whether they have rested long enough. New settings begin their wait.
    pub open spec fn settled(self) -> bool {
        self.auto_waiting || (self.pending_same && (self.pending_ms matches Some(ms) && ms
            >= self.debounce()))
    }

    /// Whether a preview from buffers at hand may be made now.
    pub open spec fn can_live(self) -> bool {
        !self.geometry_pending && !self.rect_dragging && !self.dust_painting && self.live_available
    }

    /// Whether the preview is too coarse for the screen, and nothing else will sharpen it.
    pub open spec fn needs_screen(self) -> bool {
        &&& self.current
        &&& !self.full_res_active
        &&& !self.tiles_fit || self.whole_picture_dust
        &&& !self.slider()
        &&& self.lod == PreviewLod::Draft || (self.lod == PreviewLod::Screen && (self.requested.0
            + SCREEN_SLACK < self.screen.0 || self.requested.1 + SCREEN_SLACK < self.screen.1))
    }

    /// Nothing changes.
    pub open spec fn idle(self) -> PreviewPlan {
        PreviewPlan {
            restart_wait: false,
            drop_job: false,
            request: None,
            full_res_active: self.full_res_active,
            full_res_clicked: self.full_res_clicked,
            forget_pending: false,
            end_wait: false,
            end_coalesce: false,
            look_again: false,
        }
    }

    /// What is to be done where the settings have changed.
    pub open spec fn changed_plan(self) -> PreviewPlan {
        let drop_job = self.can_live() && self.in_flight && !self.in_flight_live;
        let free = !self.in_flight || drop_job;
        let full_res = self.full_res_active && self.full_res_clicked;
        let base = PreviewPlan { restart_wait: !self.pending_same, drop_job, ..self.idle() };
        if self.can_live() && free {
            PreviewPlan {
                request: Some(PreviewRequest::Live),
                full_res_active: full_res,
                full_res_clicked: false,
                end_wait: true,
                ..base
            }
        } else if free && !self.rect_dragging && !self.dust_painting && !self.geometry_pending
            && !self.pointer_down && self.settled() {
            PreviewPlan {
                request: Some(
                    PreviewRequest::Make(
                        if full_res {
                            PreviewLod::FullRes
                        } else {
                            PreviewLod::Screen
                        },
                    ),
                ),
                full_res_active: full_res,
                full_res_clicked: false,
                end_wait: true,
                end_coalesce: true,
                ..base
            }
        } else {
            PreviewPlan { look_again: true, ..base }
        }
    }

    /// What is to be done.
    pub open spec fn plan_spec(self) -> PreviewPlan {
        if !self.current {
            self.changed_plan()
        } else if self.needs_screen() && !self.in_flight {
            PreviewPlan {
                request: Some(PreviewRequest::Make(PreviewLod::Screen)),
                forget_pending: true,
                end_wait: true,
                ..self.idle()
            }
        } else if self.pending_here {
            PreviewPlan { forget_pending: true, end_wait: true, ..self.idle() }
        } else {
            self.idle()
        }
    }

    /// Decides on the preview once a frame has been drawn.
    pub fn plan(&self) -> (r: PreviewPlan)
        ensures
            r == self.plan_spec(),
    {
        let idle: PreviewPlan = PreviewPlan {
            restart_wait: false,
            drop_job: false,
            request: None,
            full_res_active: self.full_res_active,
            full_res_clicked: self.full_res_clicked,
            forget_pending: false,
            end_wait: false,
            end_coalesce: false,
            look_again: false,
        };
        let slider: bool = self.slider_dragging();
        if !self.current {
            let can_live: bool = !self.geometry_pending && !self.rect_dragging
                && !self.dust_painting && self.live_available;
            let debounce: u64 = if self.geometry_pending {
                GEOMETRY_COALESCE_MS
            } else if slider {
                PREVIEW_LIVE_DEBOUNCE_MS
            } else {
                PREVIEW_DEBOUNCE_MS
            };
            let rested: bool = match self.pending_ms {
                Some(ms) => ms >= debounce,
                None => false,
            };
            let settled: bool = self.auto_waiting || (self.pending_same && rested);
            let drop_job: bool = can_live && self.in_flight && !self.in_flight_live;
            let free: bool = !self.in_flight || drop_job;
            let full_res: bool = self.full_res_active && self.full_res_clicked;
            let base: PreviewPlan = PreviewPlan {
                restart_wait: !self.pending_same,
                drop_job,
                ..idle
            };
            if can_live && free {
                return PreviewPlan {
                    request: Some(PreviewRequest::Live),
                    full_res_active: full_res,
                    full_res_clicked: false,
                    end_wait: true,
                    ..base
                };
            }
            if free && !self.rect_dragging && !self.dust_painting && !self.geometry_pending
                && !self.pointer_down && settled {
                return PreviewPlan {
                    request: Some(
                        PreviewRequest::Make(
                            if full_res {
                                PreviewLod::FullRes
                            } else {
                                PreviewLod::Screen
                            },
                        ),
                    ),
                    full_res_active: full_res,
                    full_res_clicked: false,
                    end_wait: true,
                    end_coalesce: true,
                    ..base
                };
            }
            return PreviewPlan { look_again: true, ..base };
        }
        let coarse: bool = match self.lod {
            PreviewLod::Draft => true,
            PreviewLod::Screen => self.requested.0 as u64 + (SCREEN_SLACK as u64)
                < self.screen.0 as u64 || self.requested.1 as u64 + (SCREEN_SLACK as u64)
                < self.screen.1 as u64,
            PreviewLod::FullRes => false,
        };
        if !self.full_res_active && (!self.tiles_fit || self.whole_picture_dust) && !slider
            && coarse && !self.in_flight {
            return PreviewPlan {
                request: Some(PreviewRequest::Make(PreviewLod::Screen)),
                forget_pending: true,
                end_wait: true,
                ..idle
            };
        }
        if self.pending_here {
            return PreviewPlan { forget_pending: true, end_wait: true, ..idle };
        }
        idle
    }

    /// Whether the view moved so lately that it may move on.
    pub open spec fn settling(self) -> bool {
        self.view_rest_ms matches Some(ms) && ms < PREVIEW_VIEW_SETTLE_MS
    }

    /// Whether tiles may be fetched: the preview is of the present settings and stays, tiles
    /// are sharper than it, and nothing moves.
    pub open spec fn fetches_tiles(self) -> bool {
        &&& self.proxy_soft
        &&& self.current
        &&& !self.in_flight
        &&& self.plan_spec().request is None
        &&& !self.tile_in_flight
        &&& !self.full_res_active
        &&& !self.rect_dragging
        &&& !(self.view_dragging && self.pointer_down)
        &&& !self.settling()
        &&& !self.slider()
        &&& !(self.whole_picture_dust && self.lod == PreviewLod::Draft)
    }

    /// Whether a tile may be fetched now.
    pub fn may_fetch_tile(&self) -> (r: bool)
        ensures
            r == self.fetches_tiles(),
    {
        let plan: PreviewPlan = self.plan();
        let settling: bool = match self.view_rest_ms {
            Some(ms) => ms < PREVIEW_VIEW_SETTLE_MS,
            None => false,
        };
        self.proxy_soft && self.current && !self.in_flight && plan.request.is_none()
            && !self.tile_in_flight && !self.full_res_active && !self.rect_dragging && !(
        self.view_dragging && self.pointer_down) && !settling && !self.slider_dragging() && !(
        self.whole_picture_dust && self.lod == PreviewLod::Draft)
    }

    /// How soon the view is looked at again while it comes to rest, in milliseconds: never
    /// below a frame.
    pub fn settle_wait(&self) -> (r: Option<u64>)
        ensures
            r == if self.settling() {
                let left = (PREVIEW_VIEW_SETTLE_MS - self.view_rest_ms->0) as u64;
                Some(
                    if left < 16 {
                        16u64
                    } else {
                        left
                    },
                )
            } else {
                None
            },
    {
        match self.view_rest_ms {
            Some(ms) => if ms < PREVIEW_VIEW_SETTLE_MS {
                let left: u64 = PREVIEW_VIEW_SETTLE_MS - ms;
                Some(
                    if left < 16 {
                        16
                    } else {
                        left
                    },
                )
            } else {
                None
            },
            None => None,
        }
    }
}

/// While a slider is dragged, no preview is made from the sensor and no tile is fetched.
pub proof fn sliders_only_ask_for_live_previews(facts: PreviewFacts)
    requires
        facts.slider(),
    ensures
        !(facts.plan_spec().request matches Some(PreviewRequest::Make(_))),
        !facts.fetches_tiles(),
{
}

/// A preview is asked for only where none is being made, or where the one being made is given
/// up.
pub proof fn previews_do_not_pile_up(facts: PreviewFacts)
    requires
        facts.plan_spec().request is Some,
    ensures
        !facts.in_flight || facts.plan_spec().drop_job,
{
}

/// A preview of the present settings that is fine enough is left alone.
pub proof fn sharp_previews_rest(facts: PreviewFacts)
    requires
        facts.current,
        facts.lod == PreviewLod::FullRes || (facts.lod == PreviewLod::Screen && facts.requested.0
            >= facts.screen.0 && facts.requested.1 >= facts.screen.1),
    ensures
        facts.plan_spec().request is None,
        !facts.plan_spec().look_again,
{
}

/// The size that a preview is made for: without a limit at full resolution.
pub fn request_limits(lod: PreviewLod, working: (u32, u32)) -> (r: (u32, u32))
    ensures
        r == match lod {
            PreviewLod::Draft => (crate::view::PREVIEW_DRAFT_MAX, crate::view::PREVIEW_DRAFT_MAX),
            PreviewLod::Screen => working,
            PreviewLod::FullRes => (u32::MAX, u32::MAX),
        },
{
    match lod {
        PreviewLod::Draft => preview_draft_limits(),
        PreviewLod::Screen => working,
        PreviewLod::FullRes => (u32::MAX, u32::MAX),
    }
}

/// The buffers that a preview from the sensor starts from.
pub fn request_cache(lod: PreviewLod) -> (r: StepCache)
    ensures
        r == match lod {
            PreviewLod::Draft => StepCache::Draft,
            _ => StepCache::Screen,
        },
{
    match lod {
        PreviewLod::Draft => StepCache::Draft,
        PreviewLod::Screen | PreviewLod::FullRes => StepCache::Screen,
    }
}

/// The size that the buffers at hand are for: the last that was asked for, where one was.
pub fn live_cache_limits(requested: (u32, u32), working: (u32, u32)) -> (r: (u32, u32))
    ensures
        r == if requested != (0u32, 0u32) {
            requested
        } else {
            working
        },
{
    if requested.0 != 0 || requested.1 != 0 {
        requested
    } else {
        working
    }
}

/// Whether buffers at hand are far enough to make a preview from: density has been reached.
pub fn live_preview_available(start_step: Option<u8>) -> (r: bool)
    ensures
        r == (start_step matches Some(s) && s >= 4),
{
    match start_step {
        Some(s) => s >= 4,
        None => false,
    }
}

/// A preview that has come back.
#[derive(Debug, Clone, Copy, PartialEq, Eq)]
pub struct FinishedPreview {
    pub generation: u64,
    pub index: usize,
    pub lod: PreviewLod,
    pub size: (u32, u32),
    pub input_size: (u32, u32),
    /// Whether it was made from buffers at hand.
    pub live: bool,
}

/// Whether a preview or a tile that has come back is still wanted: nothing has made it stale,
/// and its picture is open.
pub fn still_wanted(generation: u64, index: usize, now: u64, images: usize) -> (r: bool)
    ensures
        r == (generation == now && index < images),
{
    generation == now && index < images
}

/// Sizes that a picture knows of its previews.
#[derive(Debug, Clone, Copy, PartialEq, Eq)]
pub struct PreviewSizes {
    pub lod: PreviewLod,
    pub screen_wh: (u32, u32),
    pub preview_input_size: Option<(u32, u32)>,
    pub raw_source_size: Option<(u32, u32)>,
}

impl PreviewSizes {
    /// Those of a picture that has just been added: nothing was made yet.
    pub fn fresh() -> (r: PreviewSizes)
        ensures
            r == (PreviewSizes {
                lod: PreviewLod::Draft,
                screen_wh: (0u32, 0u32),
                preview_input_size: None,
                raw_source_size: None,
            }),
    {
        PreviewSizes {
            lod: PreviewLod::Draft,
            screen_wh: (0, 0),
            preview_input_size: None,
            raw_source_size: None,
        }
    }
}

/// What a finished preview changes besides the picture that is shown.
#[derive(Debug, Clone, Copy, PartialEq, Eq)]
pub struct PreviewTaken {
    pub sizes: PreviewSizes,
    /// Which buffers are replaced by those of the preview, beside the finest ones.
    pub screen_cache: bool,
    pub draft_cache: bool,
    /// Whether all tiles are dropped; else those of the same settings are kept.
    pub drop_tiles: bool,
}

pub open spec fn taken(before: PreviewSizes, job: FinishedPreview) -> PreviewTaken {
    let fine = job.lod != PreviewLod::Draft;
    PreviewTaken {
        sizes: PreviewSizes {
            lod: job.lod,
            screen_wh: if fine {
                job.size
            } else {
                before.screen_wh
            },
            preview_input_size: Some(job.size),
            raw_source_size: if job.input_size.0 > 0 && job.input_size.1 > 0 {
                Some(job.input_size)
            } else {
                before.raw_source_size
            },
        },
        screen_cache: fine || before.screen_wh == (0u32, 0u32) || before.screen_wh == job.size,
        draft_cache: !fine,
        drop_tiles: job.live,
    }
}

/// Takes a finished preview. A draft stands for the screen preview too, as long as there is
/// none or it has the same size. A preview from buffers at hand makes all tiles stale; one from
/// the sensor keeps those of its settings.
pub fn take_preview(before: PreviewSizes, job: FinishedPreview) -> (r: PreviewTaken)
    ensures
        r == taken(before, job),
{
    let fine: bool = job.lod != PreviewLod::Draft;
    let no_screen: bool = before.screen_wh.0 == 0 && before.screen_wh.1 == 0;
    let same: bool = before.screen_wh.0 == job.size.0 && before.screen_wh.1 == job.size.1;
    PreviewTaken {
        sizes: PreviewSizes {
            lod: job.lod,
            screen_wh: if fine {
                job.size
            } else {
                before.screen_wh
            },
            preview_input_size: Some(job.size),
            raw_source_size: if job.input_size.0 > 0 && job.input_size.1 > 0 {
                Some(job.input_size)
            } else {
                before.raw_source_size
            },
        },
        screen_cache: fine || no_screen || same,
        draft_cache: !fine,
        drop_tiles: job.live,
    }
}

/// Whether a preview is being made for so long that the user is told.
pub fn shows_loader(in_flight: bool, elapsed_ms: Option<u64>) -> (r: bool)
    ensures
        r == (in_flight && match elapsed_ms {
            Some(ms) => ms >= 2500,
            None => true,
        }),
{
    in_flight && match elapsed_ms {
        Some(ms) => ms >= 2500,
        None => true,
    }
}

/// The first picture of the strip that has no thumbnail and none on the way.
pub fn thumbnail_to_request(made: &Vec<bool>, pending: &Vec<bool>) -> (r: Option<usize>)
    requires
        made@.len() == pending@.len(),
    ensures
        match r {
            Some(i) => i < made@.len() && !made@[i as int] && !pending@[i as int] && forall|k: int|
                0 <= k < i ==> #[trigger] made@[k] || pending@[k],
            None => forall|k: int| 0 <= k < made@.len() ==> #[trigger] made@[k] || pending@[k],
        },
{
    let mut i: usize = 0;
    while i < made.len()
        invariant
            i <= made.len(),
            made@.len() == pending@.len(),
            forall|k: int| 0 <= k < i ==> #[trigger] made@[k] || pending@[k],
        decreases made.len() - i,
    {
        if !made[i] && !pending[i] {
            return Some(i);
        }
        i = i + 1;
    }
    None
}

} // verus!
