use c41_darkroom::canvas::Point;
use c41_darkroom::dust::{DustControls, DustView, ProcessTab, UiMode};
use c41_darkroom::options::{
    default_options, DminMode, DustTool, OutputLutEncoding, OutputStage, Rect, WbMode,
};
use c41_darkroom::single::Single;
use c41_darkroom::tile_cache::{poll_tile, TileEvent, TileFetch};
use c41_darkroom::view::UvRect;
use c41_darkroom::workbench::{
    base_mode_label, base_rect_shown, brush_action, card_scale, choose_white_balance,
    close_window, drawn_layers, first_size, lut_encoding_label, mode_heading,
    on_picture, output_stage_label, picker_ready, poll_preview, press_dust_key, pressed_turn,
    restart_tiles, spinner_shown, tab_shown, toggle_debug, BrushAction, CloseStep,
    DustKey, PickerStep, PreviewEvent, Turn,
};

fn s(v: f32) -> Single {
    Single { bits: v.to_bits() }
}

fn f(v: Single) -> f32 {
    f32::from_bits(v.bits)
}

#[test]
fn unsaved_work_holds_the_window() {
    assert_eq!(close_window(true, false, true, false), CloseStep::HoldAndAsk);
    assert_eq!(close_window(true, false, true, true), CloseStep::Hold);
    assert_eq!(close_window(true, true, true, false), CloseStep::Let);
    assert_eq!(close_window(true, false, false, false), CloseStep::Let);
    assert_eq!(close_window(false, false, true, false), CloseStep::Let);
}

#[test]
fn modes_and_tabs() {
    assert_eq!(toggle_debug(UiMode::Calibrate), UiMode::Debug);
    assert_eq!(toggle_debug(UiMode::Debug), UiMode::Process);
    assert_eq!(mode_heading(UiMode::LuminanceCalibrate), "Capture flat field");
    assert!(tab_shown(UiMode::Process, ProcessTab::Input, ProcessTab::Input));
    assert!(!tab_shown(UiMode::Process, ProcessTab::Input, ProcessTab::Develop));
    assert!(tab_shown(UiMode::Calibrate, ProcessTab::Input, ProcessTab::Develop));
    assert!(tab_shown(UiMode::Calibrate, ProcessTab::Export, ProcessTab::Input));
    assert!(!tab_shown(UiMode::Calibrate, ProcessTab::Dust, ProcessTab::Dust));
    assert!(!tab_shown(UiMode::Calibrate, ProcessTab::Export, ProcessTab::Export));
    assert!(tab_shown(UiMode::Process, ProcessTab::Export, ProcessTab::Export));
}

#[test]
fn only_wanted_previews_are_taken() {
    let made = PreviewEvent::Made { generation: 4, index: 1 };
    let step = poll_preview(made, 4, 2, Some(1));
    assert_eq!((step.over, step.take, step.ends_auto), (true, Some(1), true));
    assert_eq!(poll_preview(made, 5, 2, None).take, None);
    assert_eq!(poll_preview(made, 4, 1, None).take, None);
    assert!(!poll_preview(made, 4, 2, Some(0)).ends_auto);
    assert!(!poll_preview(PreviewEvent::Nothing, 4, 2, Some(0)).over);
    assert!(poll_preview(PreviewEvent::Failed, 4, 2, Some(0)).ends_auto);
    assert!(!poll_preview(PreviewEvent::Lost, 4, 2, Some(0)).ends_auto);
}

#[test]
fn tiles_that_fail() {
    let mut fetch: TileFetch<()> =
        TileFetch { cache: Vec::new(), inflight: Some((2, 3)), failed: Vec::new(), generation: 7 };
    poll_tile(&mut fetch, TileEvent::Failed, &None);
    assert_eq!(fetch.failed, [(7, 2, 3)]);
    assert_eq!(fetch.inflight, None);
    poll_tile(&mut fetch, TileEvent::Failed, &None);
    assert_eq!(fetch.failed.len(), 1);
    restart_tiles(&mut fetch);
    assert!(fetch.failed.is_empty());
    assert_eq!(fetch.generation, 8);
    fetch.generation = u64::MAX;
    restart_tiles(&mut fetch);
    assert_eq!(fetch.generation, 0);
}

#[test]
fn layers_of_a_picture() {
    let d = drawn_layers(true, false, false, true, true);
    assert!(d.tiles && !d.proxy);
    let d = drawn_layers(true, false, false, true, false);
    assert!(d.tiles && d.proxy);
    let d = drawn_layers(true, true, false, true, true);
    assert!(!d.tiles && d.proxy);
    assert!(!drawn_layers(false, false, false, false, false).proxy);
    assert_eq!(first_size(None, s(900.0)), (900, 600));
    assert_eq!(first_size(Some((3, 4)), s(900.0)), (3, 4));
    assert!(spinner_shown(false, false, true, false));
    assert!(!spinner_shown(false, true, true, true));
    assert_eq!(f(card_scale(s(88.0), s(22.0))), 0.5);
    assert_eq!(f(card_scale(s(10.0), s(10.0))), 1.0);
}

#[test]
fn buttons_and_keys() {
    assert_eq!(pressed_turn(true, false, true, true, true), Some(Turn::Left));
    assert_eq!(pressed_turn(false, true, true, true, true), None);
    assert_eq!(pressed_turn(true, false, false, false, true), Some(Turn::FlipHorizontal));
    let c = DustControls::fresh();
    let after = press_dust_key(c, DustKey::Escape, true);
    assert_eq!(after.controls.tool, None);
    assert!(after.ends_stroke && !after.ends_resize);
    let after = press_dust_key(c, DustKey::Eraser, false);
    assert_eq!(after.controls.tool, Some(DustTool::Eraser));
    assert!(!after.ends_stroke);
    assert_eq!(press_dust_key(c, DustKey::Eraser, true).controls.tool, Some(DustTool::Pen));
    let after = press_dust_key(c, DustKey::Process, true);
    assert_eq!(after.controls.view, DustView::Process);
    assert!(after.ends_stroke && after.ends_resize);
    assert_eq!(f(press_dust_key(c, DustKey::Larger, false).controls.brush_radius), 9.0);
    assert_eq!(brush_action(true, true, true, false), BrushAction::Resize);
    assert_eq!(brush_action(true, true, false, false), BrushAction::Paint);
    assert_eq!(brush_action(true, true, false, true), BrushAction::Rest);
    assert_eq!(brush_action(true, false, false, true), BrushAction::EndResize);
    assert_eq!(brush_action(false, true, false, false), BrushAction::Rest);
}

#[test]
fn pointer_and_picker() {
    let r = |l: f32, t: f32, r: f32, b: f32| UvRect { left: s(l), top: s(t), right: s(r), bottom: s(b) };
    let p = |x: f32, y: f32| Point { x: s(x), y: s(y) };
    assert!(on_picture(r(0.0, 0.0, 10.0, 10.0), r(5.0, 0.0, 20.0, 10.0), p(10.0, 0.0)));
    assert!(!on_picture(r(0.0, 0.0, 10.0, 10.0), r(5.0, 0.0, 20.0, 10.0), p(4.0, 1.0)));
    assert_eq!(choose_white_balance(WbMode::Auto, WbMode::Picker), PickerStep::Arm);
    assert_eq!(choose_white_balance(WbMode::Picker, WbMode::Manual), PickerStep::Disarm);
    assert_eq!(choose_white_balance(WbMode::Auto, WbMode::Auto), PickerStep::Leave);
    assert!(picker_ready(true, WbMode::Picker) && !picker_ready(true, WbMode::Auto));
    let mut o = default_options(false);
    assert!(!base_rect_shown(UiMode::Process, &o, false, Some((10, 10))));
    o.dmin_mode = DminMode::SampleRegion;
    o.dmin_rect = Some(Rect { x: 0, y: 0, width: 1, height: 1 });
    assert!(base_rect_shown(UiMode::Process, &o, false, Some((10, 10))));
    assert!(!base_rect_shown(UiMode::Process, &o, true, Some((10, 10))));
    assert!(!base_rect_shown(UiMode::Process, &o, false, Some((0, 10))));
    assert_eq!(base_mode_label(DminMode::AutoPercentile), "Auto (percentile)");
    assert_eq!(output_stage_label(OutputStage::Bare), "No curve");
    assert_eq!(lut_encoding_label(OutputLutEncoding::Rec709), "Rec.709 (sRGB gamma)");
}
