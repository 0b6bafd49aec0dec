use c41_darkroom::orient::{map_display_part_to_tex, map_display_uv_to_tex, Uv, ViewOrient};
use c41_darkroom::preview::{PreviewFacts, PreviewLod, PreviewRequest};
use c41_darkroom::preview_job::{drop_tiles, scene_stats_stale, PreviewJob};
use c41_darkroom::single::Single;
use c41_darkroom::tile_cache::TileFetch;
use c41_darkroom::view::UvRect;
use c41_darkroom::workbench::PreviewEvent;

fn s(v: f32) -> Single {
    Single { bits: v.to_bits() }
}

/// A picture whose preview is not of its settings, with nothing going on.
fn seen() -> PreviewFacts {
    PreviewFacts {
        current: false,
        lod: PreviewLod::Screen,
        full_res_active: false,
        full_res_clicked: false,
        proxy_soft: false,
        tiles_fit: true,
        whole_picture_dust: false,
        screen: (800, 600),
        requested: (800, 600),
        pointer_down: false,
        rect_dragging: false,
        dust_painting: false,
        view_dragging: false,
        canvas_pointer: false,
        geometry_pending: false,
        live_available: false,
        in_flight: false,
        in_flight_live: false,
        tile_in_flight: false,
        auto_waiting: false,
        pending_same: false,
        pending_ms: None,
        pending_here: false,
        view_rest_ms: None,
    }
}

#[test]
fn a_preview_is_made_once_its_settings_rest() {
    let job = PreviewJob::fresh();
    let (job, plan) = job.frame(0, 77, seen(), 1000);
    assert!(plan.restart_wait && plan.look_again && plan.request.is_none());
    assert_eq!((job.pending, job.pending_since), (Some((0, 77)), Some(1000)));
    let (job, plan) = job.frame(0, 77, seen(), 1100);
    assert!(!plan.restart_wait && plan.request.is_none());
    // Other settings begin their wait anew.
    let (job, plan) = job.frame(0, 78, seen(), 1150);
    assert!(plan.restart_wait);
    let (job, plan) = job.frame(0, 78, seen(), 1329);
    assert!(plan.request.is_none());
    let (job, plan) = job.frame(0, 78, seen(), 1330);
    assert_eq!(plan.request, Some(PreviewRequest::Make(PreviewLod::Screen)));
    assert!(job.in_flight && !job.live);
    assert_eq!((job.settings, job.since, job.pending_since), (Some(78), Some(1330), None));
    let (job, step) = job.poll(PreviewEvent::Made { generation: 0, index: 0 }, 1, None);
    assert_eq!(step.take, Some(0));
    assert!(!job.in_flight);
    let (job, plan) = job.frame(0, 78, PreviewFacts { current: true, ..seen() }, 1400);
    assert!(plan.request.is_none());
    assert_eq!(job.pending, None);
}

#[test]
fn a_slow_preview_makes_room_for_a_live_one() {
    let job = PreviewJob::fresh().start(5, false, 10);
    let live = PreviewFacts { live_available: true, pointer_down: true, ..seen() };
    let (job, plan) = job.frame(2, 6, live, 20);
    assert!(plan.drop_job);
    assert_eq!(plan.request, Some(PreviewRequest::Live));
    assert!(job.in_flight && job.live);
    assert_eq!((job.generation, job.settings), (1, Some(6)));
    let (_, step) = job.poll(PreviewEvent::Made { generation: 0, index: 2 }, 3, None);
    assert_eq!(step.take, None);
    let (job, plan) = job.frame(2, 6, live, 40);
    assert!(plan.request.is_none() && !plan.drop_job);
    let (job, step) = job.poll(PreviewEvent::Made { generation: 1, index: 2 }, 3, Some(2));
    assert_eq!(step.take, Some(2));
    assert!(step.ends_auto && !job.in_flight && !job.live);
    let (same, step) = job.poll(PreviewEvent::Nothing, 3, None);
    assert!(same == job && !step.over);
}

#[test]
fn turns_are_gathered() {
    let job = PreviewJob::fresh().start(5, false, 10).begin_geometry_coalesce(1000);
    assert!(!job.in_flight);
    assert_eq!((job.generation, job.gather_until), (1, Some(1300)));
    let (job, plan) = job.frame(0, 9, seen(), 1001);
    assert!(plan.restart_wait && plan.request.is_none());
    let (job, plan) = job.frame(0, 9, seen(), 1299);
    assert!(plan.request.is_none());
    let (job, plan) = job.frame(0, 9, seen(), 1300);
    assert!(plan.request.is_some());
    assert_eq!(job.gather_until, None);
    assert_eq!(job.begin_geometry_coalesce(u64::MAX).gather_until, Some(u64::MAX));
}

#[test]
fn work_is_let_go() {
    let mut busy = PreviewJob::fresh().start(5, true, 10);
    busy.pending = Some((1, 5));
    busy.pending_since = Some(3);
    busy.full_res = true;
    let r = busy.release();
    assert_eq!((r.generation, r.settings, r.pending, r.since), (1, None, None, None));
    assert!(r.full_res);
    let w = busy.begin_auto_preview_wait();
    assert_eq!((w.generation, w.settings, w.pending), (1, Some(5), None));
    let p = busy.load_project();
    assert_eq!((p.settings, p.pending, p.full_res), (None, Some((1, 5)), false));
    assert_eq!(busy.end_batch().generation, 1);
    assert!(busy.end_batch().in_flight);
    assert_eq!(busy.forget().pending_since, None);
    busy.generation = u64::MAX;
    assert_eq!(busy.end_batch().generation, 0);
}

#[test]
fn the_full_resolution_goes_on_and_off() {
    let on = PreviewJob::fresh().click_full_res();
    assert!(on.full_res && on.full_res_clicked);
    assert_eq!(on.generation, 1);
    let off = on.click_full_res();
    assert!(!off.full_res);
    assert_eq!(off.generation, 1);
    let (job, _) = on.frame(0, 4, seen(), 0);
    let (job, plan) = job.frame(0, 4, seen(), 180);
    assert_eq!(plan.request, Some(PreviewRequest::Make(PreviewLod::FullRes)));
    assert!(job.full_res && !job.full_res_clicked);
    // The next settings end it.
    let (job, _) = job.poll(PreviewEvent::Made { generation: 1, index: 0 }, 1, None);
    let (job, _) = job.frame(0, 5, seen(), 200);
    let (job, plan) = job.frame(0, 5, seen(), 380);
    assert_eq!(plan.request, Some(PreviewRequest::Make(PreviewLod::Screen)));
    assert!(!job.full_res);
}

#[test]
fn the_view_comes_to_rest() {
    let job = PreviewJob::fresh();
    assert!(!job.preview_view_settling(0));
    let job = job.mark_preview_view_changed(50);
    assert!(job.view_dragging);
    assert!(job.preview_view_settling(149));
    assert!(!job.preview_view_settling(150));
    assert!(job.preview_view_settling(20));
    assert_eq!(job.facts(0, 1, seen(), 90).settle_wait(), Some(60));
    assert_eq!(job.facts(0, 1, seen(), 145).settle_wait(), Some(16));
    assert_eq!(job.facts(0, 1, seen(), 150).settle_wait(), None);
    let down = PreviewFacts { current: true, pointer_down: true, ..seen() };
    assert!(job.frame(0, 1, down, 60).0.view_dragging);
    let up = PreviewFacts { current: true, ..seen() };
    assert!(!job.frame(0, 1, up, 60).0.view_dragging);
}

#[test]
fn tiles_and_scenes_go_with_the_settings() {
    let mut fetch: TileFetch<u8> =
        TileFetch { cache: Vec::new(), inflight: Some((1, 1)), failed: vec![(0, 2, 2)], generation: 4 };
    drop_tiles(&mut fetch);
    assert!(fetch.cache.is_empty() && fetch.failed.is_empty() && fetch.inflight.is_none());
    assert_eq!(fetch.generation, 5);
    assert!(scene_stats_stale(false, None, 3));
    assert!(scene_stats_stale(false, Some(2), 3));
    assert!(!scene_stats_stale(false, Some(3), 3));
    assert!(!scene_stats_stale(true, None, 3));
}

#[test]
fn corners_of_a_turned_picture() {
    let part = UvRect { left: s(0.25), top: s(0.0), right: s(0.75), bottom: s(0.5) };
    let plain = ViewOrient::from_parts(0, false, false);
    let side = ViewOrient::from_parts(90, false, false);
    let own = map_display_part_to_tex(part, side, side);
    assert!(own[0] == Uv { u: s(0.25), v: s(0.0) } && own[2] == Uv { u: s(0.75), v: s(0.5) });
    let turned = map_display_part_to_tex(part, side, plain);
    assert!(turned[0] == map_display_uv_to_tex(own[0], side, plain));
    assert!(turned[1] == map_display_uv_to_tex(own[1], side, plain));
    assert!(turned[3] == map_display_uv_to_tex(own[3], side, plain));
    assert!(turned[0] != own[0]);
}
