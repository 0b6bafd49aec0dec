use c41_darkroom::auto_crop::{AutoCropResult, CropConfidence};
use c41_darkroom::canvas::{
    buffer_pixel, canvas_changed, canvas_heights, drag_corner, drag_histogram, drawn_rect, loupe_x,
    panel_width, pixel_at, tile_on_canvas, uv_part, Camera, Corner, Gesture, Point,
};
use c41_darkroom::histogram::{compute_histogram_from_rgb, histogram_y_scale};
use c41_darkroom::jobs::StepCache;
use c41_darkroom::options::{default_options, DminMode, OutputStage, Rect};
use c41_darkroom::options_key::{
    crop_histogram_hash, options_hash_for, options_key, preview_invalidation_hash,
    preview_options_hash,
};
use c41_darkroom::panels::{
    apply_crop_result, auto_crop_status, choose_dmin_mode, choose_output_stage, draw_dmin_rect,
    paste_dmin, reset_output, reset_section, show_crop, switch_curve, take_picked_gains, PastedDmin,
    Section,
};
use c41_darkroom::preview::{
    live_cache_limits, live_preview_available, request_cache, request_limits, shows_loader,
    still_wanted, take_preview, thumbnail_to_request, FinishedPreview, PreviewFacts, PreviewLod,
    PreviewRequest, PreviewSizes, PREVIEW_DEBOUNCE_MS,
};
use c41_darkroom::readout::{
    crop_dims, histogram_curve, info_text, is_refining, tiles_to_mention, TileCount,
};
use c41_darkroom::settings::{
    apply_runtime_gui_defaults, normalize_persistable_options, normalize_runtime_options,
};
use c41_darkroom::single::Single;
use c41_darkroom::surround::SurroundClass;
use c41_darkroom::view::UvRect;

fn s(v: f32) -> Single {
    Single { bits: v.to_bits() }
}

fn f(v: Single) -> f32 {
    f32::from_bits(v.bits)
}

fn uv(left: f32, top: f32, right: f32, bottom: f32) -> UvRect {
    UvRect { left: s(left), top: s(top), right: s(right), bottom: s(bottom) }
}

fn edges(r: UvRect) -> (f32, f32, f32, f32) {
    (f(r.left), f(r.top), f(r.right), f(r.bottom))
}

fn facts() -> PreviewFacts {
    PreviewFacts {
        current: false,
        lod: PreviewLod::Draft,
        full_res_active: false,
        full_res_clicked: false,
        proxy_soft: false,
        tiles_fit: true,
        whole_picture_dust: false,
        screen: (1000, 800),
        requested: (0, 0),
        pointer_down: false,
        rect_dragging: false,
        dust_painting: false,
        view_dragging: false,
        canvas_pointer: false,
        geometry_pending: false,
        live_available: true,
        in_flight: false,
        in_flight_live: false,
        tile_in_flight: false,
        auto_waiting: false,
        pending_same: true,
        pending_ms: Some(100_000),
        pending_here: true,
        view_rest_ms: Some(100_000),
    }
}

#[test]
fn sliders_ask_for_live_previews() {
    let moving = PreviewFacts { pointer_down: true, ..facts() };
    let plan = moving.plan();
    assert!(matches!(plan.request, None | Some(PreviewRequest::Live)));
    let early = PreviewFacts { pending_ms: Some(PREVIEW_DEBOUNCE_MS - 1), live_available: false, ..facts() };
    assert!(early.plan().request.is_none());
}

#[test]
fn previews_rest_when_they_are_sharp() {
    let sharp = PreviewFacts {
        current: true,
        lod: PreviewLod::Screen,
        requested: (1000, 800),
        ..facts()
    };
    assert!(sharp.plan().request.is_none());
    let full = PreviewFacts { current: true, lod: PreviewLod::FullRes, ..facts() };
    assert!(full.plan().request.is_none());
}

#[test]
fn previews_wait_for_the_one_in_flight() {
    let busy = PreviewFacts { in_flight: true, ..facts() };
    let plan = busy.plan();
    assert!(plan.request.is_none() || plan.drop_job);
    assert!(!PreviewFacts { tile_in_flight: true, ..facts() }.may_fetch_tile());
}

#[test]
fn buffers_of_a_preview() {
    assert!(matches!(request_cache(PreviewLod::Draft), StepCache::Draft));
    assert_eq!(request_limits(PreviewLod::Draft, (800, 600)), (1920, 1920));
    assert_eq!(request_limits(PreviewLod::Screen, (800, 600)), (800, 600));
    assert_eq!(live_cache_limits((0, 0), (800, 600)), (800, 600));
    assert_eq!(live_cache_limits((700, 0), (800, 600)), (700, 0));
    assert!(!live_preview_available(None));
    assert!(!live_preview_available(Some(3)));
    assert!(live_preview_available(Some(4)));
    assert!(still_wanted(3, 1, 3, 2));
    assert!(!still_wanted(2, 1, 3, 2));
    assert!(!still_wanted(3, 2, 3, 2));
    assert_eq!(thumbnail_to_request(&vec![true, false, false], &vec![false, true, false]), Some(2));
    assert_eq!(thumbnail_to_request(&vec![true], &vec![false]), None);
    assert!(!shows_loader(false, Some(100_000)));
}

#[test]
fn finished_previews_are_taken() {
    let fresh = PreviewSizes::fresh();
    assert_eq!(fresh.screen_wh, (0, 0));
    let job = FinishedPreview {
        generation: 1,
        index: 0,
        lod: PreviewLod::Draft,
        size: (300, 200),
        input_size: (3000, 2000),
        live: false,
    };
    let draft = take_preview(fresh, job);
    assert!(draft.draft_cache && draft.screen_cache && !draft.drop_tiles);
    assert_eq!(draft.sizes.raw_source_size, Some((3000, 2000)));
    assert_eq!(draft.sizes.screen_wh, (0, 0));
    let fine = FinishedPreview { lod: PreviewLod::Screen, input_size: (0, 0), live: true, ..job };
    let screen = take_preview(draft.sizes, fine);
    assert!(screen.screen_cache && !screen.draft_cache && screen.drop_tiles);
    assert_eq!(screen.sizes.screen_wh, (300, 200));
    assert_eq!(screen.sizes.raw_source_size, Some((3000, 2000)));
}

fn camera() -> Camera {
    Camera::fresh(uv(0.0, 0.0, 400.0, 200.0), (800, 400))
}

#[test]
fn whole_pictures_fill_the_canvas() {
    let c = camera();
    assert_eq!(f(c.base_scale()), 0.5);
    assert_eq!(edges(c.picture()), (0.0, 0.0, 400.0, 200.0));
    let p = c.to_screen(Point { x: s(200.0), y: s(200.0) });
    assert_eq!((f(p.x), f(p.y)), (100.0, 100.0));
    let back = c.to_picture(p);
    assert_eq!((f(back.x), f(back.y)), (200.0, 200.0));
    assert_eq!(edges(c.visible_part()), (0.0, 0.0, 1.0, 1.0));
    assert_eq!((f(c.centre().x), f(c.centre().y)), (200.0, 100.0));
}

#[test]
fn zoom_keeps_to_its_range() {
    let mut c = camera();
    for _ in 0..500 {
        c = c.zoom_at(true, None);
    }
    let most = f(c.zoom);
    assert!(most > 1.0 && most.is_finite());
    assert_eq!(f(c.zoom_at(true, None).zoom), most);
    for _ in 0..500 {
        c = c.zoom_at(false, None);
    }
    let least = f(c.zoom);
    assert!(least > 0.0 && least <= 1.0);
    assert_eq!(f(c.zoom_at(false, None).zoom), least);
    let at = Point { x: s(100.0), y: s(50.0) };
    let before = camera().to_picture(at);
    let near = camera().zoom_at(true, Some(at));
    let after = near.to_picture(at);
    assert!((f(before.x) - f(after.x)).abs() < 1e-2);
    let moved = near.pan_by(s(10.0), s(0.0));
    assert!(f(moved.pan.x) < f(near.pan.x));
}

#[test]
fn rects_are_drawn_on_the_picture() {
    let p = |x: f32, y: f32| Point { x: s(x), y: s(y) };
    let r = drawn_rect(p(25.2, 9.8), p(75.0, 30.0), 100, 40);
    assert_eq!(r, Rect { x: 25, y: 10, width: 50, height: 20 });
    let out = drawn_rect(p(-5.0, -1.0), p(900.0, 90.0), 100, 40);
    assert!(out.x + out.width <= 100 && out.y + out.height <= 40);
    let dot = drawn_rect(p(100.0, 40.0), p(100.0, 40.0), 100, 40);
    assert!(dot.width >= 1 && dot.height >= 1);
    assert!(dot.x + dot.width <= 100);
    assert_eq!(pixel_at(s(12.0), 10), 9);
    assert_eq!(pixel_at(s(-3.0), 10), 0);
    assert_eq!(pixel_at(s(5.7), 10), 5);
    assert!(buffer_pixel(99, 100, 50) < 50);
    assert_eq!(buffer_pixel(0, 100, 50), 0);
}

#[test]
fn corners_are_dragged() {
    let r = drag_corner(uv(10.0, 10.0, 50.0, 50.0), Corner::TopLeft, s(5.0), s(-3.0));
    assert_eq!((f(r.left), f(r.top), f(r.right), f(r.bottom)), (15.0, 7.0, 50.0, 50.0));
}

#[test]
fn panes_share_the_window() {
    let h = canvas_heights(s(900.0), s(120.0));
    assert!(f(h.canvas) > 0.0 && f(h.histogram) >= 40.0);
    assert!(f(h.histogram) <= f(h.histogram_max));
    assert!(f(drag_histogram(s(100.0), s(-50.0), s(200.0))) > 100.0);
    let w = f(panel_width(s(10_000.0), s(2000.0)));
    assert!(w >= 240.0 && w <= 560.0);
    assert!(!canvas_changed(None, s(1.0), s(1.0)));
    assert!(canvas_changed(Some((s(100.0), s(100.0))), s(300.0), s(100.0)));
    assert!(!canvas_changed(Some((s(100.0), s(100.0))), s(100.0), s(100.0)));
    assert_eq!(edges(uv_part(uv(0.0, 0.0, 1.0, 1.0), uv(0.25, 0.25, 0.5, 0.75))), (0.25, 0.25, 0.5, 0.75));
    assert!(tile_on_canvas(uv(500.0, 0.0, 600.0, 100.0), uv(0.0, 0.0, 400.0, 200.0), uv(0.0, 0.0, 1.0, 1.0)).is_none());
    let (shown, tex) = tile_on_canvas(
        uv(300.0, 0.0, 500.0, 100.0),
        uv(0.0, 0.0, 400.0, 200.0),
        uv(0.0, 0.0, 1.0, 1.0),
    )
    .unwrap();
    assert_eq!(edges(shown), (300.0, 0.0, 400.0, 100.0));
    assert_eq!(edges(tex), (0.0, 0.0, 0.5, 1.0));
    let g = Gesture {
        dragged: true,
        primary_down: false,
        middle_down: true,
        space_down: false,
        rect_dragging: false,
        dust_painting: false,
        brush_resizing: false,
        dust_edit: false,
        tool_armed: false,
    };
    assert!(g.pans());
    assert!(!Gesture { dragged: false, ..g }.pans());
    let x = f(loupe_x(s(390.0), s(30.0), s(400.0)));
    assert!(x < 390.0);
}

#[test]
fn readouts() {
    assert_eq!(
        info_text((6000, 4000), None, "25", false, None),
        "6000 × 4000  ·  25%"
    );
    assert_eq!(
        info_text((6000, 4000), Some((3000, 2000)), "25", true, None),
        "6000 × 4000  ->  3000 × 2000  ·  25%  ·  Refining…"
    );
    assert_eq!(
        info_text((6, 4), None, "100", false, Some(TileCount { count: 3, in_flight: true })),
        "6 × 4  ·  100%  ·  1:1 tiles (3)…"
    );
    assert_eq!(
        info_text((6, 4), None, "100", false, Some(TileCount { count: 3, in_flight: false })),
        "6 × 4  ·  100%  ·  1:1 tiles (3)"
    );
    let mut o = default_options(false);
    assert_eq!(crop_dims(&o, 100, 100), None);
    o.apply_crop = true;
    o.crop_rect = Some(Rect { x: 0, y: 0, width: 50, height: 40 });
    o.crop_rect_reference_size = Some((100, 100));
    assert_eq!(crop_dims(&o, 200, 200), Some((100, 80)));
    assert!(tiles_to_mention(false, false, false, 3, false).is_none());
    assert!(!is_refining(PreviewLod::FullRes, true, s(1.0), false, (100, 100)));
}

#[test]
fn histograms_count_every_pixel() {
    let mut rgb = Vec::new();
    for i in 0..100u8 {
        rgb.extend_from_slice(&[i, 255 - i, 7]);
    }
    let o = default_options(false);
    let (r, g, b) = compute_histogram_from_rgb(&rgb, 10, 10, &o, 10, 10);
    assert_eq!(r.iter().sum::<u32>(), 100);
    assert_eq!(g.iter().sum::<u32>(), 100);
    assert_eq!(b[7], 100);
    assert_eq!(r[99], 1);
    assert!(f(histogram_y_scale(&r, &g, &b)) > 0.0);
    let curve = histogram_curve(&b, s(10.0), uv(0.0, 0.0, 256.0, 100.0));
    assert_eq!(curve.len(), 256);
    let mut cropped = default_options(false);
    cropped.apply_crop = true;
    cropped.crop_rect = Some(Rect { x: 0, y: 0, width: 5, height: 10 });
    cropped.crop_rect_reference_size = Some((10, 10));
    let (r, _, _) = compute_histogram_from_rgb(&rgb, 10, 10, &cropped, 10, 10);
    assert_eq!(r.iter().sum::<u32>(), 50);
}

#[test]
fn keys_of_previews() {
    let o = default_options(false);
    let mut crop = default_options(false);
    crop.apply_crop = true;
    crop.crop_rect = Some(Rect { x: 1, y: 2, width: 3, height: 4 });
    assert_eq!(options_key("a", &o), options_key("a", &crop));
    assert_eq!(options_hash_for("a", &o), options_hash_for("a", &crop));
    assert_ne!(crop_histogram_hash(&o), crop_histogram_hash(&crop));
    assert_ne!(options_key("a", &o), options_key("b", &o));
    let mut other = default_options(false);
    other.film_gamma = s(0.66);
    assert_ne!(options_key("a", &o), options_key("a", &other));
    assert_ne!(preview_options_hash("a", &o, false), preview_options_hash("a", &other, false));
    assert_ne!(
        preview_invalidation_hash("a", &o, false, 100, 100),
        preview_invalidation_hash("a", &o, false, 200, 100)
    );
    let mut zero = default_options(false);
    zero.curve_offset = s(-0.0);
    assert_eq!(options_key("a", &o).len(), options_key("a", &zero).len());
}

#[test]
fn controls_of_the_panels() {
    let o = choose_dmin_mode(default_options(false), DminMode::Off);
    assert!(matches!(o.dmin_mode, DminMode::Off));
    let rect = Rect { x: 1, y: 2, width: 3, height: 4 };
    let o = draw_dmin_rect(default_options(false), rect, (100, 50));
    assert_eq!(o.dmin_rect, Some(rect));
    assert_eq!(o.dmin_rect_reference_size, Some((100, 50)));
    let o = paste_dmin(default_options(false), PastedDmin::Fixed((s(0.1), s(0.2), s(0.3))), Some(true));
    assert_eq!(o.dmin_fixed, Some((s(0.1), s(0.2), s(0.3))));
    assert!(o.dmin_neutral_only);
    let o = take_picked_gains(default_options(false), s(1.1), s(1.0), s(0.9));
    assert_eq!((f(o.wb_r), f(o.wb_g), f(o.wb_b)), (1.1, 1.0, 0.9));
    let (o, _) = show_crop(default_options(false));
    assert!(o.crop_rect.is_none());
    let off = switch_curve(default_options(false), false);
    assert!(off.no_curve);
    assert_eq!(off.output_stage, OutputStage::Bare);
    let on = switch_curve(off, true);
    assert!(!on.no_curve);
    assert_ne!(on.output_stage, OutputStage::Bare);
    let bare = choose_output_stage(default_options(false), OutputStage::Bare);
    assert!(bare.no_curve);
}

#[test]
fn sections_are_reset() {
    let mut o = default_options(false);
    o.highlight_rolloff = s(2.0);
    o.saturation = s(1.4);
    let r = reset_section(o, Section::HighlightRolloff);
    assert_eq!(r.highlight_rolloff, default_options(false).highlight_rolloff);
    assert_eq!(f(r.saturation), 1.4);
    let c = reset_section(r, Section::Color);
    assert_eq!(c.saturation, default_options(false).saturation);
    let mut out = default_options(false);
    out.output_stage = OutputStage::FilmPrint;
    let d = default_options(false);
    assert_eq!(reset_output(out, &d).output_stage, d.output_stage);
}

#[test]
fn crops_that_were_found() {
    let found = AutoCropResult {
        rect: Rect { x: 5, y: 6, width: 70, height: 40 },
        reference_size: (100, 60),
        confidence: CropConfidence::High,
        surround: SurroundClass::Mixed,
        format_hint: None,
    };
    let o = apply_crop_result(default_options(false), &found);
    assert!(o.apply_crop);
    assert_eq!(o.crop_rect, Some(found.rect));
    assert_eq!(o.crop_rect_reference_size, Some((100, 60)));
    assert_eq!(
        auto_crop_status(false, None),
        Some("Auto crop: waiting for preview to finish processing.")
    );
    assert_eq!(auto_crop_status(true, None), Some("Auto crop: no clear frame boundary found."));
}

#[test]
fn settings_at_run_time() {
    let mut o = default_options(false);
    o.debug_pipeline_step = 3;
    o.dust_mask_hash = 9;
    let kept = normalize_persistable_options(o);
    assert_eq!(kept.dust_mask_hash, 0);
    let gui = apply_runtime_gui_defaults(default_options(false), true);
    assert!(gui.use_gpu);
    let run = normalize_runtime_options(default_options(false));
    assert_eq!(run.film_gamma, default_options(false).film_gamma);
}
