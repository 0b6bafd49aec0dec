//! The preview that is being made, and the settings that wait for theirs.
//!
//! One preview is made at a time. What a worker sends back carries the generation in which it
//! was asked for; a turn, a new project or a wish for something faster begins a new generation,
//! and what still comes of the old one is dropped. Times are in milliseconds of one clock.

use vstd::prelude::*;
use crate::preview::{PreviewFacts, PreviewPlan, PreviewRequest, GEOMETRY_COALESCE_MS, PREVIEW_VIEW_SETTLE_MS};
use crate::tile_cache::TileFetch;
use crate::workbench::{poll_preview, restart_tiles, PreviewEvent, PreviewStep};

verus! {

#[derive(Debug, Clone, Copy, PartialEq, Eq)]
pub struct PreviewJob {
    pub generation: u64,
    /// Whether a worker makes a preview.
    pub in_flight: bool,
    /// Since when it does.
    pub since: Option<u64>,
    /// The settings of the last preview that was asked for.
    pub settings: Option<u64>,
    /// Whether it is made from buffers at hand.
    pub live: bool,
    /// The picture and the settings that are waited for.
    pub pending: Option<(usize, u64)>,
    /// Since when they are, while the wait lasts.
    pub pending_since: Option<u64>,
    /// Until when clicks that turn or flip the picture are gathered.
    pub gather_until: Option<u64>,
    pub full_res: bool,
    pub full_res_clicked: bool,
    pub view_dragging: bool,
    /// When the view moved last.
    pub view_moved: Option<u64>,
}

/// The generation after this one.
pub open spec fn next_generation(g: u64) -> u64 {
    if g == u64::MAX {
        0
    } else {
        (g + 1) as u64
    }
}

fn bump(g: u64) -> (r: u64)
    ensures
        r == next_generation(g),
{
    if g == u64::MAX {
        0
    } else {
        g + 1
    }
}

/// How long after `from` it is `now`.
pub open spec fn elapsed(from: u64, now: u64) -> u64 {
    if now < from {
        0
    } else {
        (now - from) as u64
    }
}

fn elapsed_ms(from: u64, now: u64) -> (r: u64)
    ensures
        r == elapsed(from, now),
{
    if now < from {
        0
    } else {
        now - from
    }
}

impl PreviewJob {
    /// Nothing is made, and nothing is waited for.
    pub fn fresh() -> (r: PreviewJob)
        ensures
            r == (PreviewJob {
                generation: 0,
                in_flight: false,
                since: None,
                settings: None,
                live: false,
                pending: None,
                pending_since: None,
                gather_until: None,
                full_res: false,
                full_res_clicked: false,
                view_dragging: false,
                view_moved: None,
            }),
    {
        PreviewJob {
            generation: 0,
            in_flight: false,
            since: None,
            settings: None,
            live: false,
            pending: None,
            pending_since: None,
            gather_until: None,
            full_res: false,
            full_res_clicked: false,
            view_dragging: false,
            view_moved: None,
        }
    }

    /// The job is given up, in a new generation.
    pub open spec fn given_up(self) -> PreviewJob {
        PreviewJob {
            generation: next_generation(self.generation),
            in_flight: false,
            since: None,
            live: false,
            ..self
        }
    }

    fn give_up(self) -> (r: PreviewJob)
        ensures
            r == self.given_up(),
    {
        PreviewJob {
            generation: bump(self.generation),
            in_flight: false,
            since: None,
            live: false,
            ..self
        }
    }

    /// No settings are waited for.
    pub open spec fn waiting_for_none(self) -> PreviewJob {
        PreviewJob { pending: None, pending_since: None, ..self }
    }

    pub open spec fn started(self, settings: u64, live: bool, now: u64) -> PreviewJob {
        PreviewJob {
            in_flight: true,
            since: Some(now),
            settings: Some(settings),
            live,
            ..self
        }
    }

    /// A worker begins with a preview of these settings, in the present generation.
    pub fn start(self, settings: u64, live: bool, now: u64) -> (r: PreviewJob)
        ensures
            r == self.started(settings, live, now),
    {
        PreviewJob { in_flight: true, since: Some(now), settings: Some(settings), live, ..self }
    }

    pub open spec fn turned(self, now: u64) -> PreviewJob {
        PreviewJob {
            gather_until: Some(
                if now > u64::MAX - GEOMETRY_COALESCE_MS {
                    u64::MAX
                } else {
                    (now + GEOMETRY_COALESCE_MS) as u64
                },
            ),
            ..self.given_up().waiting_for_none()
        }
    }

    /// The picture was turned or flipped: the job is given up, and further clicks are gathered
    /// for a while.
    pub fn begin_geometry_coalesce(self, now: u64) -> (r: PreviewJob)
        ensures
            r == self.turned(now),
    {
        let until: u64 = if now > u64::MAX - GEOMETRY_COALESCE_MS {
            u64::MAX
        } else {
            now + GEOMETRY_COALESCE_MS
        };
        PreviewJob {
            gather_until: Some(until),
            pending: None,
            pending_since: None,
            ..self.give_up()
        }
    }

    /// The result of an automatic grade is to be shown: whatever is being made is given up.
    pub fn begin_auto_preview_wait(self) -> (r: PreviewJob)
        ensures
            r == self.given_up().waiting_for_none(),
    {
        PreviewJob { pending: None, pending_since: None, ..self.give_up() }
    }

    /// Everything is let go, for a job that needs the memory.
    pub fn release(self) -> (r: PreviewJob)
        ensures
            r == (PreviewJob { settings: None, ..self.given_up().waiting_for_none() }),
    {
        PreviewJob { settings: None, pending: None, pending_since: None, ..self.give_up() }
    }

    /// Another project was loaded.
    pub fn load_project(self) -> (r: PreviewJob)
        ensures
            r == (PreviewJob { settings: None, full_res: false, ..self.given_up() }),
    {
        PreviewJob { settings: None, full_res: false, ..self.give_up() }
    }

    /// A batch is over: the previews of before it are stale.
    pub fn end_batch(self) -> (r: PreviewJob)
        ensures
            r == (PreviewJob { generation: next_generation(self.generation), ..self }),
    {
        PreviewJob { generation: bump(self.generation), ..self }
    }

    /// The button for the full resolution was pressed. Switching it on makes what comes of
    /// other previews stale.
    pub fn click_full_res(self) -> (r: PreviewJob)
        ensures
            r == if self.full_res {
                PreviewJob { full_res: false, ..self }
            } else {
                PreviewJob {
                    full_res: true,
                    full_res_clicked: true,
                    generation: next_generation(self.generation),
                    ..self
                }
            },
    {
        if self.full_res {
            PreviewJob { full_res: false, ..self }
        } else {
            PreviewJob {
                full_res: true,
                full_res_clicked: true,
                generation: bump(self.generation),
                ..self
            }
        }
    }

    /// The view was moved. What is being made stays wanted: only other tiles are in view.
    pub fn mark_preview_view_changed(self, now: u64) -> (r: PreviewJob)
        ensures
            r == (PreviewJob { view_dragging: true, view_moved: Some(now), ..self }),
    {
        PreviewJob { view_dragging: true, view_moved: Some(now), ..self }
    }

    /// Whether the view moved so lately that it may move on.
    pub fn preview_view_settling(self, now: u64) -> (r: bool)
        ensures
            r == (self.view_moved matches Some(t) && elapsed(t, now) < PREVIEW_VIEW_SETTLE_MS),
    {
        match self.view_moved {
            Some(t) => elapsed_ms(t, now) < PREVIEW_VIEW_SETTLE_MS,
            None => false,
        }
    }

    pub open spec fn polled(
        self,
        event: PreviewEvent,
        images: usize,
        waiting: Option<usize>,
    ) -> PreviewJob {
        if crate::workbench::preview_step(event, self.generation, images, waiting).over {
            PreviewJob { in_flight: false, since: None, live: false, ..self }
        } else {
            self
        }
    }

    /// What came from the worker, and what is done with it.
    pub fn poll(self, event: PreviewEvent, images: usize, waiting: Option<usize>) -> (r: (
        PreviewJob,
        PreviewStep,
    ))
        ensures
            r.0 == self.polled(event, images, waiting),
            r.1 == crate::workbench::preview_step(event, self.generation, images, waiting),
    {
        let step: PreviewStep = poll_preview(event, self.generation, images, waiting);
        let job: PreviewJob = if step.over {
            PreviewJob { in_flight: false, since: None, live: false, ..self }
        } else {
            self
        };
        (job, step)
    }

    /// What is known of a picture with these settings when a frame has been drawn: what the
    /// window sees, and what the job knows.
    pub open spec fn facts_spec(
        self,
        index: usize,
        settings: u64,
        seen: PreviewFacts,
        now: u64,
    ) -> PreviewFacts {
        PreviewFacts {
            full_res_active: self.full_res,
            full_res_clicked: self.full_res_clicked,
            view_dragging: self.view_dragging,
            geometry_pending: self.gather_until matches Some(t) && now < t,
            in_flight: self.in_flight,
            in_flight_live: self.live,
            pending_same: self.pending == Some((index, settings)),
            pending_ms: match self.pending_since {
                Some(t) => Some(elapsed(t, now)),
                None => None,
            },
            pending_here: self.pending matches Some((i, _)) && i == index,
            view_rest_ms: match self.view_moved {
                Some(t) => Some(elapsed(t, now)),
                None => None,
            },
            ..seen
        }
    }

    pub fn facts(self, index: usize, settings: u64, seen: PreviewFacts, now: u64) -> (r:
        PreviewFacts)
        ensures
            r == self.facts_spec(index, settings, seen, now),
    {
        let geometry_pending: bool = match self.gather_until {
            Some(t) => now < t,
            None => false,
        };
        let (pending_same, pending_here): (bool, bool) = match self.pending {
            Some((i, h)) => (i == index && h == settings, i == index),
            None => (false, false),
        };
        let pending_ms: Option<u64> = match self.pending_since {
            Some(t) => Some(elapsed_ms(t, now)),
            None => None,
        };
        let view_rest_ms: Option<u64> = match self.view_moved {
            Some(t) => Some(elapsed_ms(t, now)),
            None => None,
        };
        PreviewFacts {
            full_res_active: self.full_res,
            full_res_clicked: self.full_res_clicked,
            view_dragging: self.view_dragging,
            geometry_pending,
            in_flight: self.in_flight,
            in_flight_live: self.live,
            pending_same,
            pending_ms,
            pending_here,
            view_rest_ms,
            ..seen
        }
    }

    /// The wait, the full resolution and the gathering of clicks once a plan is followed. New
    /// settings are waited for from now on.
    pub open spec fn after_wait(
        self,
        plan: PreviewPlan,
        index: usize,
        settings: u64,
        now: u64,
    ) -> PreviewJob {
        PreviewJob {
            pending: if plan.forget_pending {
                None
            } else if plan.restart_wait {
                Some((index, settings))
            } else {
                self.pending
            },
            pending_since: if plan.end_wait {
                None
            } else if plan.restart_wait {
                Some(now)
            } else {
                self.pending_since
            },
            gather_until: if plan.end_coalesce {
                None
            } else {
                self.gather_until
            },
            full_res: plan.full_res_active,
            full_res_clicked: plan.full_res_clicked,
            ..self
        }
    }

    /// The job once a plan is followed: one that is too slow is given up, and the one that is
    /// asked for begins.
    pub open spec fn followed(
        self,
        plan: PreviewPlan,
        index: usize,
        settings: u64,
        now: u64,
    ) -> PreviewJob {
        let waited = self.after_wait(plan, index, settings, now);
        let free = if plan.drop_job {
            waited.given_up()
        } else {
            waited
        };
        match plan.request {
            None => free,
            Some(PreviewRequest::Live) => free.started(settings, true, now),
            Some(PreviewRequest::Make(_)) => free.started(settings, false, now),
        }
    }

    fn follow(self, plan: PreviewPlan, index: usize, settings: u64, now: u64) -> (r: PreviewJob)
        ensures
            r == self.followed(plan, index, settings, now),
    {
        let pending: Option<(usize, u64)> = if plan.forget_pending {
            None
        } else if plan.restart_wait {
            Some((index, settings))
        } else {
            self.pending
        };
        let pending_since: Option<u64> = if plan.end_wait {
            None
        } else if plan.restart_wait {
            Some(now)
        } else {
            self.pending_since
        };
        let gather_until: Option<u64> = if plan.end_coalesce {
            None
        } else {
            self.gather_until
        };
        let waited: PreviewJob = PreviewJob {
            pending,
            pending_since,
            gather_until,
            full_res: plan.full_res_active,
            full_res_clicked: plan.full_res_clicked,
            ..self
        };
        let free: PreviewJob = if plan.drop_job {
            waited.give_up()
        } else {
            waited
        };
        match plan.request {
            None => free,
            Some(PreviewRequest::Live) => free.start(settings, true, now),
            Some(PreviewRequest::Make(_)) => free.start(settings, false, now),
        }
    }

    /// The job after a frame of a picture with these settings.
    pub open spec fn after_frame(
        self,
        index: usize,
        settings: u64,
        seen: PreviewFacts,
        now: u64,
    ) -> PreviewJob {
        let plan = self.facts_spec(index, settings, seen, now).plan_spec();
        let next = self.followed(plan, index, settings, now);
        PreviewJob { view_dragging: next.view_dragging && seen.pointer_down, ..next }
    }

    /// Decides on the preview once a frame has been drawn, and does what the plan says of the
    /// job. The plan tells which preview is to be made, and whether the tiles are to be dropped.
    pub fn frame(self, index: usize, settings: u64, seen: PreviewFacts, now: u64) -> (r: (
        PreviewJob,
        PreviewPlan,
    ))
        ensures
            r.0 == self.after_frame(index, settings, seen, now),
            r.1 == self.facts_spec(index, settings, seen, now).plan_spec(),
    {
        let plan: PreviewPlan = self.facts(index, settings, seen, now).plan();
        let next: PreviewJob = self.follow(plan, index, settings, now);
        (PreviewJob { view_dragging: next.view_dragging && seen.pointer_down, ..next }, plan)
    }

    /// No picture is selected, so none is waited for.
    pub fn forget(self) -> (r: PreviewJob)
        ensures
            r == self.waiting_for_none(),
    {
        PreviewJob { pending: None, pending_since: None, ..self }
    }
}

/// Drops all tiles of a picture, and makes those on their way stale.
pub fn drop_tiles<T>(fetch: &mut TileFetch<T>)
    ensures
        final(fetch).cache@.len() == 0,
        final(fetch).inflight is None,
        final(fetch).failed@.len() == 0,
        final(fetch).generation == next_generation(old(fetch).generation),
{
    fetch.cache = Vec::new();
    restart_tiles(fetch);
}

/// Whether what is known of the scene is not of these settings. At full resolution it is not
/// asked for.
pub fn scene_stats_stale(full_res: bool, kept: Option<u64>, settings: u64) -> (r: bool)
    ensures
        r == (!full_res && kept != Some(settings)),
{
    if full_res {
        return false;
    }
    match kept {
        Some(k) => k != settings,
        None => true,
    }
}

/// What was asked for before the picture was turned is dropped when it comes.
pub proof fn turning_drops_what_was_asked_for(
    job: PreviewJob,
    now: u64,
    index: usize,
    images: usize,
    waiting: Option<usize>,
)
    ensures
        ({
            let made = PreviewEvent::Made { generation: job.generation, index };
            let turned = job.turned(now);
            crate::workbench::preview_step(made, turned.generation, images, waiting).take is None
        }),
{
}

/// A preview that is given up for a faster one is dropped when it comes.
pub proof fn slow_previews_are_dropped(
    job: PreviewJob,
    index: usize,
    settings: u64,
    seen: PreviewFacts,
    now: u64,
    images: usize,
    waiting: Option<usize>,
)
    requires
        job.facts_spec(index, settings, seen, now).plan_spec().drop_job,
    ensures
        ({
            let made = PreviewEvent::Made { generation: job.generation, index };
            let next = job.after_frame(index, settings, seen, now);
            &&& next.in_flight && next.live
            &&& crate::workbench::preview_step(
                made,
                next.generation,
                images,
                waiting,
            ).take is None
        }),
{
}

/// While a preview is made from buffers at hand, no other is asked for.
pub proof fn live_previews_are_asked_for_once(
    job: PreviewJob,
    index: usize,
    settings: u64,
    seen: PreviewFacts,
    now: u64,
    later: PreviewFacts,
    then: u64,
)
    requires
        job.facts_spec(index, settings, seen, now).plan_spec().request == Some(
            PreviewRequest::Live,
        ),
    ensures
        ({
            let next = job.after_frame(index, settings, seen, now);
            next.facts_spec(index, settings, later, then).plan_spec().request is None
        }),
{
}

/// A preview of new settings is made from the sensor only after they have rested, unless an
/// automatic grade waits for it: at once it is not.
pub proof fn new_settings_rest_first(
    job: PreviewJob,
    index: usize,
    settings: u64,
    seen: PreviewFacts,
    now: u64,
)
    requires
        !seen.current,
        !seen.auto_waiting,
        job.facts_spec(index, settings, seen, now).plan_spec().request matches Some(
            PreviewRequest::Make(_),
        ),
    ensures
        job.pending == Some((index, settings)),
        job.pending_since matches Some(t) && now >= t + crate::preview::PREVIEW_DEBOUNCE_MS,
{
}

} // verus!
