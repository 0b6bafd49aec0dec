use c41_darkroom::dmin_text::{
    dmin_fixed_text, dmin_rect_text, dmin_values_to_clipboard_text, fixed_sample,
    parse_dmin_clipboard_text, pasted_dmin, DminValues,
};
use c41_darkroom::dust::{
    attach_export_dust, bake_preview_options, brush_circle, brush_on, drag_further, dust_should_apply,
    dust_source_wh, moved_enough, overlay_alphas, pin_scene, stamp_centres, BrushFrame, DustControls, DustState,
    DustView, ProcessTab, SceneStats, UiMode,
};
use c41_darkroom::numerals::{read_six_decimals, write_six_decimals};
use c41_darkroom::options::{
    default_options, DminMode, DustHealParams, DustMask, DustStroke, DustTool, Rect, ZoneRange,
};
use c41_darkroom::project::{
    after_save, answer_leave, apply_project_dust, commit_edit_history, edit_snapshot,
    persistable_image, project_dust, request_leave_current_project, restore_dust, restore_options,
    restored_selection, save_needs_place, AfterAnswer, Commit, Leave, LeaveAction, LeaveAnswer,
    ProjectDust, ProjectImage,
};
use c41_darkroom::session::{
    extension_place, file_count_text, forget_recent_project, is_importable_image, is_raw_file, loaded_text,
    position_of, recent_project_label, remember_recent_project, startup_window_size, strip_name,
    Roll, RECENT_PROJECTS_MAX,
};
use c41_darkroom::settings::{ExportFormat, ProjectExportFormat};
use c41_darkroom::single::Single;
use c41_darkroom::unsaved::project_is_dirty;
use c41_darkroom::text::{append_decimal, decimal_point, first_chars, parse_decimal_f64};

fn s(v: f32) -> Single {
    Single { bits: v.to_bits() }
}

fn f(v: Single) -> f32 {
    f32::from_bits(v.bits)
}

fn list(names: &[&str]) -> Vec<String> {
    names.iter().map(|n| n.to_string()).collect()
}

#[test]
fn files_that_can_be_opened() {
    for e in ["nef", "NEF", "Cr3", "tif", "TIFF", "jpg", "png", "dng"] {
        assert!(is_importable_image(Some(e)), "{e}");
    }
    for e in ["", "txt", "ne", "neff", "c41", "jpgx"] {
        assert!(!is_importable_image(Some(e)), "{e}");
    }
    assert!(!is_importable_image(None));
    assert_eq!(extension_place("ARW"), Some(0));
    assert_eq!(extension_place("tif"), Some(14));
}

#[test]
fn pictures_are_opened_once() {
    let mut roll = Roll::empty();
    assert_eq!(roll.add_image_paths(&list(&["a", "b", "a"])), 2);
    assert_eq!(roll.paths, ["a", "b"]);
    assert_eq!(roll.selected, Some(0));
    assert_eq!(roll.add_image_paths(&list(&["b", "c"])), 1);
    assert_eq!(roll.paths, ["a", "b", "c"]);
    assert_eq!(roll.selected, Some(0));
    roll.selected = Some(2);
    roll.remove(0);
    assert_eq!(roll.selected, Some(1));
    assert_eq!(roll.paths[1], "c");
    roll.remove(1);
    assert_eq!(roll.selected, None);
    assert_eq!(position_of(&roll.paths, &"b".to_string()), Some(0));
    assert_eq!(position_of(&roll.paths, &"x".to_string()), None);
    let project = Roll::of_project(list(&["x", "y"]));
    assert_eq!(project.selected, Some(0));
    assert_eq!(Roll::of_project(Vec::new()).selected, None);
}

#[test]
fn counts_in_words() {
    assert_eq!(file_count_text(0), "0 file(s)");
    assert_eq!(file_count_text(1234), "1234 file(s)");
    assert_eq!(loaded_text(3, 0), "Loaded 3 image(s)");
    assert_eq!(loaded_text(3, 2), "Loaded 3 of 5 images (2 missing)");
    assert_eq!(strip_name("short.nef"), "short.nef");
    assert_eq!(strip_name("a_very_long_name.nef"), "a_very_lon...");
    let mut out = String::from("n=");
    append_decimal(&mut out, u64::MAX);
    assert_eq!(out, "n=18446744073709551615");
    assert_eq!(first_chars("grün und blau", 4), ['g', 'r', 'ü', 'n']);
    let typed: String = decimal_point("  1,25 ").into_iter().collect();
    assert_eq!(typed, "1.25");
    let read = |c: &Vec<char>| c.iter().collect::<String>().parse::<f64>().ok();
    assert_eq!(parse_decimal_f64(" -0,125\t", &read), Some(-0.125));
    assert_eq!(parse_decimal_f64("3.5", &read), Some(3.5));
    assert_eq!(parse_decimal_f64("1,2,3", &read), None);
    assert_eq!(parse_decimal_f64("", &read), None);
}

#[test]
fn recent_projects() {
    let mut recent: Vec<String> = Vec::new();
    for p in ["a", "b", "c", "d", "e", "f"] {
        recent = remember_recent_project(&recent, &p.to_string());
    }
    assert_eq!(recent.len(), RECENT_PROJECTS_MAX);
    assert_eq!(recent, ["f", "e", "d", "c", "b"]);
    recent = remember_recent_project(&recent, &"d".to_string());
    assert_eq!(recent, ["d", "f", "e", "c", "b"]);
    let gone = forget_recent_project(&recent, &"e".to_string(), None);
    assert_eq!(gone, ["d", "f", "c", "b"]);
    let both = forget_recent_project(&recent, &"e".to_string(), Some(&"b".to_string()));
    assert!(!both.contains(&"e".to_string()) && !both.contains(&"b".to_string()));
    assert_eq!(recent_project_label(Some("x.c41p"), "/tmp/x.c41p"), "x.c41p");
    assert_eq!(recent_project_label(None, "/tmp/.."), "/tmp/..");
}

#[test]
fn window_fits_the_screen() {
    let (w, h) = startup_window_size(Some((s(800.0), s(600.0))));
    assert!(f(w) <= 800.0 && f(h) <= 600.0);
    let (w, h) = startup_window_size(None);
    assert!(f(w) > 0.0 && f(h) > 0.0);
}

#[test]
fn copied_rects_read_back() {
    let rect = Rect { x: 12, y: 0, width: 340, height: 4294967295 };
    for neutral in [true, false] {
        let text: String = dmin_rect_text(rect, neutral).into_iter().collect();
        let back = parse_dmin_clipboard_text(&text).unwrap();
        assert!(matches!(back.values, DminValues::Sample(r) if r == rect));
        assert_eq!(back.neutral_only, Some(neutral));
    }
    let mut o = default_options(false);
    o.dmin_fixed = None;
    o.dmin_rect = Some(Rect { x: 1, y: 2, width: 3, height: 4 });
    let six = |v: Single| format!("{:.6}", f(v));
    let text: String = dmin_values_to_clipboard_text(&o, &six).unwrap().into_iter().collect();
    assert_eq!(text, "dmin:rect:1,2,3,4;neutral_only=0");
    o.dmin_fixed = Some((s(0.25), s(0.5), s(1.0)));
    o.dmin_neutral_only = true;
    let text: String = dmin_values_to_clipboard_text(&o, &six).unwrap().into_iter().collect();
    assert_eq!(text, "dmin:fixed:0.250000,0.500000,1.000000;neutral_only=1");
    o.dmin_fixed = None;
    o.dmin_rect = None;
    assert!(dmin_values_to_clipboard_text(&o, &six).is_none());
}

fn number(c: &Vec<char>) -> Option<Single> {
    c.iter().collect::<String>().parse::<f32>().ok().map(s)
}

#[test]
fn copied_bases_read_back() {
    let six = |v: Single| format!("{:.6}", f(v));
    let mut o = default_options(false);
    o.dmin_rect = Some(Rect { x: 1, y: 2, width: 3, height: 4 });
    for base in [(0.0f32, 1.0f32, 0.5f32), (0.1234567, 1e-9, 0.9999999), (1.0 / 3.0, 0.0000015, 2.0 / 3.0)] {
        for neutral in [true, false] {
            o.dmin_fixed = Some((s(base.0), s(base.1), s(base.2)));
            o.dmin_neutral_only = neutral;
            let text: String = dmin_values_to_clipboard_text(&o, &six).unwrap().into_iter().collect();
            let (fixed, rect, flag) = pasted_dmin(&text, &number).unwrap();
            let (r, g, b) = fixed.unwrap();
            for (u, v) in [(f(r), base.0), (f(g), base.1), (f(b), base.2)] {
                assert!((u as f64 - v as f64).abs() <= 1e-6);
            }
            assert!(rect.is_none());
            assert_eq!(flag, Some(neutral));
        }
    }
    let rect = Rect { x: 5, y: 6, width: 7, height: 8 };
    assert_eq!(pasted_dmin("dmin:rect:5,6,7,8", &number), Some((None, Some(rect), None)));
    assert_eq!(pasted_dmin("0.25,0.5,1", &number), Some((Some((s(0.25), s(0.5), s(1.0))), None, None)));
    assert_eq!(pasted_dmin("dmin:fixed:0.25,0.5,1.5", &number), None);
    assert_eq!(pasted_dmin("dmin:fixed:0.25,x,0.5", &number), None);
    assert_eq!(pasted_dmin("nothing", &number), None);
}

#[test]
fn parts_are_written_with_six_decimals() {
    let mut bits = vec![0u32, 1, 0x8000_0000, 0x3f80_0000, 0x3f7f_ffff, 0x3f7f_fff7, 0x3f7f_fff8];
    // Odd multiples of 2^-7 end in a five at the seventh decimal, so they are ties.
    bits.extend((0..64u32).map(|k| ((2 * k + 1) as f32 / 128.0).to_bits()));
    let mut v = 0x2f00_1234u32;
    while v < 0x3f80_0000 {
        bits.push(v);
        v += 0x3_7a5f;
    }
    for b in bits {
        let x = Single { bits: b };
        let text: String = write_six_decimals(x).into_iter().collect();
        assert_eq!(text, format!("{:.6}", f(x)));
        let back = read_six_decimals(&text.chars().collect()).unwrap();
        assert_eq!(back, s(text.parse::<f32>().unwrap()));
        assert!((f(back) as f64 - f(x) as f64).abs() <= 1e-6);
    }
    for text in ["9.999999", "-0.000001", "-7.654321", "3.000000"] {
        let read = read_six_decimals(&text.chars().collect());
        assert_eq!(read, Some(s(text.parse::<f32>().unwrap())));
    }
    for text in ["", "-", "0.25", "10.000000", ".0000000", "0,000000", "+0.000000", "0.00000x"] {
        assert_eq!(read_six_decimals(&text.chars().collect()), None);
    }
    let mut o = default_options(false);
    o.dmin_fixed = Some((s(-0.0), s(1.5), s(0.0078125)));
    let six = |v: Single| format!("{:.6}", f(v));
    let text: String = dmin_values_to_clipboard_text(&o, &six).unwrap().into_iter().collect();
    assert_eq!(text, "dmin:fixed:-0.000000,1.500000,0.007812;neutral_only=0");
}

fn project_of(paths: &[&str]) -> Vec<ProjectImage> {
    paths
        .iter()
        .map(|p| ProjectImage {
            path: p.to_string(),
            export_format: ProjectExportFormat::Tiff16,
            options: default_options(false),
            dust: None,
        })
        .collect()
}

#[test]
fn a_project_is_dirty_where_it_differs_from_what_was_saved() {
    let clean = project_of(&["a.nef", "b.nef"]);
    let dirty = |change: &dyn Fn(&mut Vec<ProjectImage>)| {
        let mut now = project_of(&["a.nef", "b.nef"]);
        change(&mut now);
        let there = project_is_dirty(&now, &clean);
        assert_eq!(there, project_is_dirty(&clean, &now));
        there
    };
    assert!(!dirty(&|_| ()));
    assert!(!project_is_dirty(&Vec::new(), &Vec::new()));
    assert!(dirty(&|p| p.truncate(1)));
    assert!(dirty(&|p| p.reverse()));
    assert!(dirty(&|p| p[0].path.push('x')));
    assert!(dirty(&|p| p[1].export_format = ProjectExportFormat::Exr));
    assert!(dirty(&|p| p[1].options.dmin_mode = DminMode::Off));
    assert!(dirty(&|p| p[1].options.wb_g = s(1.5)));
    assert!(dirty(&|p| p[1].options.temp_k = Some(s(5000.0))));
    assert!(dirty(&|p| p[1].options.density_matrix[2][1] = s(0.25)));
    assert!(dirty(&|p| p[1].options.crop_rect = Some(Rect { x: 0, y: 0, width: 1, height: 1 })));
    assert!(dirty(&|p| p[1].options.crop_rect_reference_size = Some((1, 1))));
    assert!(dirty(&|p| p[1].options.dmin_fixed = None));
    assert!(dirty(&|p| p[1].options.lut3d_path = Some(String::from("look.cube"))));
    assert!(dirty(&|p| p[1].options.pinned_zone = Some(ZoneRange { d_p33: s(0.1), d_p66: s(0.2) })));
    assert!(dirty(&|p| p[1].options.dust_uv = Some((s(0.0), s(0.0), s(1.0), s(1.0)))));
    assert!(dirty(&|p| p[1].options.dust_mask = Some(DustMask { width: 1, height: 1, data: vec![1] })));
    assert!(dirty(&|p| p[1].options.dust_heal.tile = 9));
    assert!(dirty(&|p| p[1].options.preview_monitor_icc = Some(vec![1, 2])));
    assert!(dirty(&|p| p[1].options.proof_gamut_warning = !p[1].options.proof_gamut_warning));
    assert!(dirty(&|p| p[0].options.skin_magenta_shift = s(f32::NAN)));
}

#[test]
fn zeros_are_equal_and_what_is_no_number_equals_nothing() {
    let with = |v: f32| {
        let mut p = project_of(&["a.nef"]);
        p[0].options.curve_offset = s(v);
        p
    };
    assert!(!project_is_dirty(&with(0.0), &with(-0.0)));
    assert!(project_is_dirty(&with(f32::NAN), &with(f32::NAN)));
    assert!(!project_is_dirty(&with(f32::INFINITY), &with(f32::INFINITY)));
}

#[test]
fn painted_dust_makes_a_project_dirty() {
    let with = |points: &[(f32, f32)], size: (u32, u32), radius: f32| {
        let mut p = project_of(&["a.nef"]);
        p[0].dust = Some(ProjectDust {
            reference_size: size,
            strokes: vec![stroke(DustTool::Pen, points)],
            heal: DustHealParams::house(),
            brush_radius: s(radius),
        });
        p
    };
    let clean = with(&[(1.0, 2.0), (3.0, 4.0)], (10, 20), 5.0);
    assert!(!project_is_dirty(&with(&[(1.0, 2.0), (3.0, 4.0)], (10, 20), 5.0), &clean));
    assert!(project_is_dirty(&with(&[(1.0, 2.0), (3.0, 4.5)], (10, 20), 5.0), &clean));
    assert!(project_is_dirty(&with(&[(1.0, 2.0)], (10, 20), 5.0), &clean));
    assert!(project_is_dirty(&with(&[(1.0, 2.0), (3.0, 4.0)], (20, 10), 5.0), &clean));
    assert!(project_is_dirty(&with(&[(1.0, 2.0), (3.0, 4.0)], (10, 20), 5.5), &clean));
    assert!(project_is_dirty(&project_of(&["a.nef"]), &clean));
    let mut erased = with(&[(1.0, 2.0), (3.0, 4.0)], (10, 20), 5.0);
    erased[0].dust.as_mut().unwrap().strokes[0].tool = DustTool::Eraser;
    assert!(project_is_dirty(&erased, &clean));
}

#[test]
fn pasted_texts() {
    let fixed = parse_dmin_clipboard_text(" dmin:fixed: 0.1 ,0.2, 0.3 ; neutral_only= TRUE ").unwrap();
    assert_eq!(fixed.neutral_only, Some(true));
    match fixed.values {
        DminValues::Fixed(r, g, b) => {
            let number = |v: Vec<char>| v.into_iter().collect::<String>().parse::<f32>().unwrap();
            let got = fixed_sample(Some(s(number(r))), Some(s(number(g))), Some(s(number(b))));
            assert_eq!(got, Some((s(0.1), s(0.2), s(0.3))));
        }
        _ => panic!("a fixed sample"),
    }
    assert!(parse_dmin_clipboard_text("").is_none());
    assert!(parse_dmin_clipboard_text("  ").is_none());
    assert!(parse_dmin_clipboard_text("dmin:fixed:0.1,0.2").is_none());
    assert!(parse_dmin_clipboard_text("dmin:rect:1,2,0,4").is_none());
    assert!(parse_dmin_clipboard_text("dmin:rect:1,2,-3,4").is_none());
    assert!(parse_dmin_clipboard_text("dmin:rect:1,2,4294967296,4").is_none());
    assert!(fixed_sample(Some(s(0.5)), Some(s(1.5)), Some(s(0.0))).is_none());
    assert!(fixed_sample(Some(s(0.5)), None, Some(s(0.0))).is_none());
    assert!(fixed_sample(Some(s(f32::NAN)), Some(s(0.5)), Some(s(0.0))).is_none());
    let text: String = dmin_fixed_text(&vec!['a'], &vec!['b'], &vec!['c'], false).into_iter().collect();
    assert_eq!(text, "dmin:fixed:a,b,c;neutral_only=0");
}

fn stroke(tool: DustTool, points: &[(f32, f32)]) -> DustStroke {
    DustStroke {
        tool,
        radius: s(4.0),
        points: points.iter().map(|p| (s(p.0), s(p.1))).collect(),
    }
}

#[test]
fn dust_is_healed_where_it_is_painted() {
    for mode in [UiMode::Process, UiMode::Calibrate, UiMode::LuminanceCalibrate, UiMode::Debug] {
        for view in [DustView::Disable, DustView::Edit, DustView::Process] {
            for tab in [ProcessTab::Input, ProcessTab::Develop, ProcessTab::Dust, ProcessTab::Export] {
                assert!(!dust_should_apply(mode, tab, view, 0));
            }
        }
    }
    assert!(dust_should_apply(UiMode::Process, ProcessTab::Dust, DustView::Process, 2));
    assert!(!dust_should_apply(UiMode::Process, ProcessTab::Dust, DustView::Disable, 2));
}

#[test]
fn brushes() {
    let c = DustControls::fresh();
    assert_eq!(f(c.brush_radius), 8.0);
    assert!(f(c.smaller_brush().brush_radius) < 8.0);
    assert!(f(c.larger_brush().brush_radius) > 8.0);
    let mut big = c;
    for _ in 0..500 {
        big = big.larger_brush();
    }
    assert_eq!(f(big.brush_radius), 150.0);
    assert_eq!(f(c.dragged_brush(s(8.0), s(1e6)).brush_radius), 150.0);
    assert_eq!(f(c.heal().grain_sigma), 2.0);
    assert_eq!(c.heal().tile, 3);
    assert!(f(drag_further(s(1.0), s(2.0), s(0.0))) > 1.0);
    assert_eq!(f(brush_on(s(10.0), s(500.0), s(1000.0))), 5.0);
}

#[test]
fn small_moves_leave_no_point() {
    let at = (s(10.0), s(20.0));
    for (dx, dy) in [(0.0f32, 0.0f32), (0.25, 0.0), (0.0, -0.25), (0.2, 0.2), (-0.15, 0.19), (0.26, 0.0), (3.0, 4.0)] {
        let to = (s(10.0 + dx), s(20.0 + dy));
        let far = (f(at.0) - f(to.0)).hypot(f(at.1) - f(to.1)) > 0.25;
        assert_eq!(moved_enough(at, to), far, "{dx} {dy}");
    }
    assert_eq!(f(brush_circle(s(10.0), s(500.0), s(1000.0))), 5.0);
    assert_eq!(f(brush_circle(s(1.0), s(500.0), s(1000.0))), 2.0);
}

#[test]
fn sensor_data_is_told_by_its_extension() {
    for e in ["arw", "NEF", "nrw", "cr2", "Cr3", "crw", "dng", "raf", "orf", "rw2"] {
        assert!(is_raw_file(Some(e)), "{e}");
    }
    for e in ["png", "jpeg", "jpg", "tiff", "tif", "txt", ""] {
        assert!(!is_raw_file(Some(e)), "{e}");
    }
    assert!(!is_raw_file(None));
}

#[test]
fn strokes_are_painted() {
    let mut d = DustState::clean();
    d.paint(false, DustTool::Pen, s(4.0), (s(1.0), s(2.0)));
    assert_eq!(d.strokes.len(), 1);
    d.paint(true, DustTool::Pen, s(4.0), (s(3.0), s(2.0)));
    assert_eq!(d.strokes.len(), 1);
    assert_eq!(d.strokes[0].points.len(), 2);
    d.paint(true, DustTool::Pen, s(4.0), (s(3.0), s(2.0)));
    d.paint(true, DustTool::Pen, s(4.0), (s(3.25), s(2.0)));
    assert_eq!(d.strokes[0].points.len(), 2);
    d.paint(true, DustTool::Pen, s(4.0), (s(3.25), s(2.25)));
    assert_eq!(d.strokes[0].points.len(), 3);
    d.paint(false, DustTool::Eraser, s(4.0), (s(3.0), s(2.0)));
    assert_eq!(d.strokes.len(), 2);
    d.clear();
    assert!(d.strokes.is_empty());
    let frame = BrushFrame {
        reference: (1000, 500),
        shown: (s(500.0), s(250.0)),
        source: (s(1000.0), s(500.0)),
    };
    let (x, y) = frame.to_stroke(s(50.0), s(25.0));
    assert_eq!((f(x), f(y)), (100.0, 50.0));
    let (x, y) = frame.to_shown(x, y);
    assert_eq!((f(x), f(y)), (50.0, 25.0));
    let stamps = stamp_centres(Some((s(0.0), s(0.0))), s(4.0), s(0.0));
    assert_eq!(stamps.last().map(|p| (f(p.0), f(p.1))), Some((4.0, 0.0)));
    assert_eq!(stamp_centres(None, s(7.0), s(8.0)).len(), 1);
    assert_eq!(overlay_alphas(&vec![0, 255]).len(), 2);
}

#[test]
fn masks_are_asked_for() {
    let mut d = DustState::clean();
    assert!(d.rebuild_dust_raster(None).is_none());
    assert_eq!(d.mask_size, (0, 0));
    d.strokes.push(stroke(DustTool::Pen, &[(1.0, 1.0)]));
    d.reference_size = Some((20, 10));
    let request = d.rebuild_dust_raster(Some((10, 5))).unwrap();
    assert_eq!(request.reference, (20, 10));
    let n = (request.width * request.height) as usize;
    d.take_mask(request, vec![9; n]);
    assert_eq!(d.mask.len(), n);
    assert_eq!(d.mask_size, (request.width, request.height));
}

#[test]
fn scenes_are_pinned() {
    let mut o = default_options(false);
    o.auto_wb = true;
    o.wb_r = s(2.0);
    let zone = ZoneRange { d_p33: s(0.1), d_p66: s(0.5) };
    let stats = SceneStats {
        dmin: Some((s(0.1), s(0.2), s(0.3))),
        auto_wb: Some((s(1.5), s(1.0), s(0.5))),
        zone: Some(zone),
    };
    let p = pin_scene(o, stats);
    assert!(matches!(p.dmin_mode, DminMode::Fixed));
    assert_eq!(p.dmin_fixed, Some((s(0.1), s(0.2), s(0.3))));
    assert!(!p.auto_wb && p.apply_white_balance);
    assert_eq!(f(p.wb_r), 3.0);
    assert_eq!(p.pinned_zone, Some(zone));
}

#[test]
fn previews_carry_their_dust() {
    let mut d = DustState::clean();
    d.strokes.push(stroke(DustTool::Pen, &[(1.0, 1.0)]));
    d.reference_size = Some((20, 10));
    let c = DustControls::fresh();
    let o = bake_preview_options(
        default_options(false), Some("flat.tif".to_string()), None, false, &d, c, true, 77,
    );
    assert_eq!(o.flat_field_path.as_deref(), Some("flat.tif"));
    assert_eq!(o.dust_mask_hash, 77);
    assert_eq!(o.dust_strokes.len(), 1);
    assert_eq!(o.dust_reference_size, Some((20, 10)));
    let o = bake_preview_options(default_options(false), None, None, false, &d, c, false, 77);
    assert_eq!(o.dust_mask_hash, 0);
    assert!(o.dust_strokes.is_empty());
    assert_eq!(o.dust_reference_size, None);
    let e = attach_export_dust(default_options(false), &d, c, Some((200, 100)), 5);
    assert_eq!(e.dust_mask_hash, 5);
    assert_eq!(e.dust_strokes.len(), 1);
    let (w, h) = dust_source_wh(Some((3000, 2000)), 300, 200);
    assert_eq!((f(w), f(h)), (3000.0, 2000.0));
}

#[test]
fn edits_come_back() {
    let mut then = default_options(false);
    then.film_gamma = s(0.71);
    let mut d = DustState::clean();
    d.strokes.push(stroke(DustTool::Pen, &[(1.0, 1.0)]));
    d.reference_size = Some((20, 10));
    let snap = edit_snapshot(then, ExportFormat::Exr, &d);
    assert_eq!(snap.dust_strokes.len(), 1);
    let mut now = default_options(false);
    now.film_gamma = s(0.5);
    let back = restore_options(now, snap.options.clone());
    assert_eq!(f(back.film_gamma), 0.71);
    let mut other = DustState::clean();
    restore_dust(&mut other, &snap, Some((10, 5)));
    assert_eq!(other.strokes.len(), 1);
    assert_eq!(other.reference_size, Some((20, 10)));
    assert_eq!(restored_selection(&vec![5, 6, 7], &vec![9, 7, 5]), Some(2));
    assert_eq!(restored_selection(&vec![5, 6, 7], &vec![9]), None);
    assert!(matches!(commit_edit_history(true, false, None, &vec![1]), Commit::Wait));
    assert!(matches!(commit_edit_history(false, false, Some(0), &vec![1]), Commit::All));
    assert!(matches!(commit_edit_history(false, true, Some(0), &vec![4]), Commit::AllBut(4)));
}

#[test]
fn projects_keep_dust() {
    let mut d = DustState::clean();
    d.strokes.push(stroke(DustTool::Eraser, &[(1.0, 1.0), (2.0, 2.0)]));
    d.reference_size = Some((20, 10));
    let mut c = DustControls::fresh();
    c.brush_radius = s(13.0);
    c.tile = 5;
    let kept = project_dust(&d, c);
    assert_eq!(kept.reference_size, (20, 10));
    let again = DustControls::fresh().with_project(kept.heal, kept.brush_radius);
    assert_eq!(f(again.brush_radius), 13.0);
    assert_eq!(again.tile, 5);
    let mut fresh = DustState::clean();
    apply_project_dust(&mut fresh, kept, None);
    assert_eq!(fresh.strokes.len(), 1);
    assert_eq!(fresh.strokes[0].points.len(), 2);
    let image =
        persistable_image("a.nef".to_string(), default_options(true), ExportFormat::Jpeg, &d, c);
    assert_eq!(image.path, "a.nef");
    assert!(matches!(image.export_format, ProjectExportFormat::Jpeg));
    let dust = image.dust.unwrap();
    assert_eq!((dust.reference_size, dust.strokes.len(), dust.heal.tile), ((20, 10), 1, 5));
    d.strokes.clear();
    let bare =
        persistable_image("a.nef".to_string(), default_options(true), ExportFormat::Jpeg, &d, c);
    assert!(bare.dust.is_none());
}

#[test]
fn leaving_asks_first() {
    assert!(matches!(request_leave_current_project(false, LeaveAction::Quit), Leave::Go(LeaveAction::Quit)));
    assert!(matches!(request_leave_current_project(true, LeaveAction::Quit), Leave::Ask(LeaveAction::Quit)));
    let act = || LeaveAction::LoadRecent("p".to_string());
    assert!(matches!(answer_leave(LeaveAnswer::Yes, true, act()), AfterAnswer::SaveThenGo(_)));
    assert!(matches!(answer_leave(LeaveAnswer::Yes, false, act()), AfterAnswer::SaveAsThenGo(_)));
    assert!(matches!(answer_leave(LeaveAnswer::No, true, act()), AfterAnswer::Go(_)));
    assert!(matches!(answer_leave(LeaveAnswer::Cancel, true, act()), AfterAnswer::Stay));
    assert!(matches!(answer_leave(LeaveAnswer::Open, true, act()), AfterAnswer::AskOn(_)));
    assert!(after_save(false, act()).is_none());
    assert!(matches!(after_save(true, act()), Some(LeaveAction::LoadRecent(p)) if p == "p"));
    assert!(save_needs_place(true, true));
    assert!(save_needs_place(false, false));
    assert!(!save_needs_place(false, true));
}

#[test]
fn masks_are_drawn_where_they_do_not_fit() {
    let mut d = DustState {
        strokes: Vec::new(),
        reference_size: None,
        mask: Vec::new(),
        mask_size: (0, 0),
        overlay_dirty: false,
    };
    assert!(d.ensure_dust_working_mask(Some((600, 400)), 0, 40).is_none());
    assert_eq!(d.reference_size, None);
    let r = d.ensure_dust_working_mask(Some((600, 400)), 6, 4).unwrap();
    assert_eq!((r.width, r.height, r.reference), (6, 4, (600, 400)));
    assert_eq!(d.reference_size, Some((600, 400)));
    d.mask = vec![0; 24];
    d.mask_size = (6, 4);
    assert!(d.ensure_dust_working_mask(Some((600, 400)), 6, 4).is_none());
    assert!(d.ensure_dust_working_mask(Some((600, 400)), 4, 6).is_some());
}

#[test]
fn tile_sliders_give_whole_numbers() {
    let c = DustControls::fresh();
    assert_eq!(c.with_tile(s(2.4)).tile, 2);
    assert_eq!(c.with_tile(s(2.5)).tile, 3);
    assert_eq!(c.with_tile(s(9.0)).tile, 5);
    assert_eq!(c.with_tile(s(-1.0)).tile, 2);
}

#[test]
fn strokes_keep_the_radius_in_their_own_pixels() {
    let frame = BrushFrame {
        reference: (6000, 3000),
        shown: (s(300.0), s(200.0)),
        source: (s(600.0), s(400.0)),
    };
    let want = 8.0f32 * (6000.0 / 600.0 + 3000.0f32 / 400.0) * 0.5;
    assert_eq!(f(frame.stroke_radius(s(8.0))), want);
}
