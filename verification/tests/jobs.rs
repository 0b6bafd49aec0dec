use c41_darkroom::auto::prepare_search_options;
use c41_darkroom::auto::{AutoTuneResult, AutoTuner};
use c41_darkroom::export::{
    export_buttons, export_template, exporting_text, start_export, take_output_of,
    BatchExportDialog, ExportStart,
};
use c41_darkroom::jobs::{
    add_first_text, auto_failure_text, auto_figures, auto_heading, auto_stage, auto_start, auto_waiting_preview, batch_fraction,
    batch_outcome_text, batch_start, batch_started_text, export_heading, export_stage,
    export_window_delay, finest_cache, finish_auto_if_preview_ready, heavy_job_running,
    percent_text, poll_auto, poll_export, shown_count, AutoEvent, AutoFailure, AutoJobState, AutoProgress,
    AutoStart, AutoStep, BatchOutcome, BatchRun, BatchStart, ExportEvent, PreviewSight, PreviewWait,
    StepCache,
};
use c41_darkroom::options::{default_options, TiffFormat};
use c41_darkroom::settings::{
    apply_export_format_to_options, apply_exposure_to_opts, apply_print_balance_to_opts,
    exposure_from_opts, print_balance_from_opts, ExportFormat, ExposureParams, PrintBalance,
};
use c41_darkroom::single::Single;

fn s(v: f32) -> Single {
    Single { bits: v.to_bits() }
}

fn f(v: Single) -> f32 {
    f32::from_bits(v.bits)
}

fn job(batch: bool) -> AutoJobState {
    AutoJobState { batch, applying_preview: None }
}

#[test]
fn jobs_do_not_overlap() {
    assert!(heavy_job_running(true, None));
    assert!(!heavy_job_running(false, None));
    assert_eq!(auto_start(true, None, Some(0), 1), AutoStart::Refused);
    assert_eq!(auto_start(false, Some(job(false)), Some(0), 1), AutoStart::Refused);
    assert_eq!(auto_start(false, None, None, 1), AutoStart::SelectFirst);
    assert_eq!(auto_start(false, None, Some(2), 2), AutoStart::Refused);
    assert_eq!(auto_start(false, None, Some(1), 2), AutoStart::Start(1));
    assert_eq!(batch_start(false, None, 0), BatchStart::AddFirst);
    assert_eq!(batch_start(false, None, 1), BatchStart::Start(1));
    assert_eq!(batch_start(false, None, 9), BatchStart::Start(2));
    assert_eq!(batch_start(true, None, 9), BatchStart::Refused);
    assert_eq!(add_first_text("Batch auto"), "Batch auto: add images first.");
    assert_eq!(batch_started_text("Batch auto", 12), "Batch auto: 12 images…");
    let waiting = AutoJobState { batch: false, applying_preview: Some(3) };
    assert_eq!(auto_waiting_preview(Some(waiting)), Some(3));
    assert_eq!(auto_waiting_preview(None), None);
}

#[test]
fn batches_account_for_every_file() {
    let mut run = BatchRun::start(3);
    let mut taken = Vec::new();
    while let Some(i) = run.take_next() {
        taken.push(i);
        run.finish_file(i == 1);
    }
    assert_eq!(taken, [0, 1, 2]);
    assert_eq!(run.outcome(), BatchOutcome::Done { completed: 2, errors: 1 });
    assert_eq!(f(run.fraction()), 1.0);
    let mut stopped = BatchRun::start(3);
    stopped.take_next();
    stopped.cancel();
    stopped.finish_file(false);
    assert_eq!(stopped.take_next(), None);
    assert_eq!(stopped.outcome(), BatchOutcome::Cancelled { completed: 1 });
    assert_eq!(f(batch_fraction(1, s(0.5), 3)), 0.5);
    assert_eq!(f(batch_fraction(2, s(7.0), 3)), 1.0);
    assert_eq!(f(batch_fraction(0, s(0.25), 0)), 0.25);
}

#[test]
fn outcomes_in_words() {
    let t = "Batch auto";
    assert_eq!(
        batch_outcome_text(t, BatchOutcome::Done { completed: 4, errors: 0 }),
        "Batch auto: finished 4 image(s)."
    );
    assert_eq!(
        batch_outcome_text(t, BatchOutcome::Done { completed: 4, errors: 2 }),
        "Batch auto: finished 4 image(s), 2 failed."
    );
    assert_eq!(
        batch_outcome_text(t, BatchOutcome::Cancelled { completed: 0 }),
        "Batch auto cancelled."
    );
    assert_eq!(
        batch_outcome_text(t, BatchOutcome::Cancelled { completed: 3 }),
        "Batch auto cancelled after 3 image(s)."
    );
}

#[test]
fn progress_of_one_picture() {
    let mut p = AutoProgress::single();
    assert_eq!(p.message, "Preparing analysis…");
    assert_eq!(p.log, ["Preparing analysis…"]);
    p.report("Adjusting density…", s(0.3), Some("Adjusting density…"));
    p.report("Adjusting density…", s(0.4), None);
    assert_eq!(p.log, ["Preparing analysis…", "Adjusting density…"]);
    assert_eq!(f(p.fraction), 0.4);
    p.report("Adjusting density…", s(7.0), None);
    assert_eq!(f(p.fraction), 1.0);
    assert_eq!(percent_text(s(0.427)), "43%");
    assert_eq!(auto_stage(&p, false, true), "Cancelling…");
}

#[test]
fn progress_of_a_batch() {
    let mut p = AutoProgress::batch(3);
    assert_eq!(p.message, "Starting…");
    p.load_file("one.nef");
    assert_eq!(p.message, "Loading…");
    assert_eq!(p.file_name, "one.nef");
    assert_eq!(auto_heading(&p, true), "one.nef  (1/3)");
    let mut run = BatchRun::start(3);
    run.take_next();
    run.finish_file(true);
    p.close_file("one.nef", &run, true);
    assert_eq!(p.message, "Skipped one.nef");
    assert_eq!(p.completed, 1);
    assert_eq!(shown_count(0, 3, true), 1);
    assert_eq!(shown_count(3, 3, true), 3);
    assert_eq!(shown_count(1, 3, false), 1);
    assert_eq!(export_heading(&"two.nef".to_string(), 1, 3), "two.nef  (2/3)");
    assert_eq!(export_heading(&String::new(), 0, 1), "Exporting…");
    assert_eq!(export_stage("Rendering…", false), "Rendering…");
    assert_eq!(export_stage("Rendering…", true), "Cancelling…");
}

#[test]
fn events_of_a_job() {
    assert!(matches!(poll_auto(AutoEvent::Nothing, job(false), "t", 3), AutoStep::CheckPreview));
    assert!(matches!(poll_auto(AutoEvent::FileDone, job(true), "t", 3), AutoStep::ApplyFile));
    match poll_auto(AutoEvent::Lost, job(false), "t", 3) {
        AutoStep::End { status, .. } => {
            assert_eq!(status.unwrap(), "Auto stopped unexpectedly.");
        }
        _ => panic!("the job is over"),
    }
    let sight = PreviewSight { in_flight: false, shown: true, current: true, fraction: s(1.0) };
    let at = |i| AutoJobState { batch: false, applying_preview: i };
    assert!(matches!(finish_auto_if_preview_ready(at(None), 3, sight), PreviewWait::NotWaiting));
    assert!(matches!(finish_auto_if_preview_ready(at(Some(3)), 3, sight), PreviewWait::PictureGone));
    assert!(matches!(finish_auto_if_preview_ready(at(Some(1)), 3, sight), PreviewWait::Ready));
    let busy = PreviewSight { in_flight: true, ..sight };
    assert!(matches!(finish_auto_if_preview_ready(at(Some(1)), 3, busy), PreviewWait::Waiting));
}

#[test]
fn exports_in_words() {
    assert_eq!(poll_export(&ExportEvent::Nothing), None);
    assert_eq!(poll_export(&ExportEvent::Lost).unwrap(), "Export stopped unexpectedly.");
    assert_eq!(poll_export(&ExportEvent::Done(1)).unwrap(), "Exported 1 image.");
    assert_eq!(poll_export(&ExportEvent::Done(5)).unwrap(), "Exported 5 images.");
    assert_eq!(poll_export(&ExportEvent::Cancelled(0)).unwrap(), "Export cancelled.");
    assert_eq!(
        poll_export(&ExportEvent::Cancelled(2)).unwrap(),
        "Export cancelled after 2 image(s)."
    );
    assert_eq!(poll_export(&ExportEvent::Failed("disk".to_string())).unwrap(), "Error: disk");
    assert_eq!(export_window_delay(100), Some(300));
    assert_eq!(export_window_delay(400), None);
    assert_eq!(finest_cache(false, true, true), Some(StepCache::Screen));
    assert_eq!(finest_cache(true, true, true), Some(StepCache::Preview));
    assert_eq!(finest_cache(false, false, false), None);
}

#[test]
fn exports_start_with_pictures_and_a_folder() {
    assert!(matches!(start_export(true, true, false, None, 3), ExportStart::Refused));
    match start_export(false, true, false, Some(1), 3) {
        ExportStart::Start { pictures, template } => {
            assert_eq!(pictures, [0, 1, 2]);
            assert_eq!(template, Some(1));
        }
        _ => panic!("it starts"),
    }
    match start_export(false, true, true, Some(1), 3) {
        ExportStart::Start { pictures, .. } => assert_eq!(pictures, [1]),
        _ => panic!("it starts"),
    }
    assert_eq!(export_buttons(true, true, Some(0), 1), (false, false));
    assert_eq!(export_buttons(false, true, None, 1), (true, false));
    assert_eq!(exporting_text(true, 1), "Exporting selected…");
    assert_eq!(exporting_text(false, 4), "Exporting 4 images…");
    assert_eq!(export_template(Some(9), 3), Some(0));
    assert_eq!(export_template(None, 0), None);
}

#[test]
fn batches_take_the_output_of_the_template() {
    let mut template = default_options(false);
    template.format = TiffFormat::U16;
    template.write_jpeg = true;
    template.write_exr = true;
    let mut own = default_options(false);
    own.film_gamma = s(0.7);
    let out = take_output_of(own, &template);
    assert!(matches!(out.format, TiffFormat::U16));
    assert!(out.write_jpeg);
    assert!(out.write_exr);
    assert_eq!(f(out.film_gamma), 0.7);
}

#[test]
fn jpegs_have_no_jpeg_beside_them() {
    let mut o = default_options(false);
    o.write_jpeg = true;
    let dialog = BatchExportDialog::open(ExportFormat::Jpeg, &o);
    let settled = dialog.settled();
    assert!(!settled.write_jpeg);
    let out = settled.apply_to(o);
    assert!(out.write_jpeg_only && !out.write_jpeg);
    let tiff = BatchExportDialog { format: ExportFormat::Tiff16, write_jpeg: true };
    let out = tiff.apply_to(default_options(false));
    assert!(out.write_jpeg && !out.write_jpeg_only);
}

#[test]
fn formats_and_their_flags() {
    let all = [
        ExportFormat::Tiff16,
        ExportFormat::Tiff32,
        ExportFormat::Exr,
        ExportFormat::Jpeg,
        ExportFormat::ExrAces2065,
    ];
    let mut o = default_options(false);
    for a in all {
        assert_eq!(ExportFormat::from_project(a.to_project()), a);
        apply_export_format_to_options(&mut o, a);
        let mut once = default_options(false);
        apply_export_format_to_options(&mut once, a);
        assert_eq!(o.write_exr, once.write_exr);
        assert_eq!(o.write_jpeg_only, once.write_jpeg_only);
        assert_eq!(o.write_aces2065_only, once.write_aces2065_only);
        assert!(!a.label().is_empty());
    }
}

#[test]
fn neutral_exposure_and_balance_read_back() {
    let mut o = default_options(false);
    let neutral = ExposureParams::neutral();
    apply_exposure_to_opts(&neutral, &mut o);
    assert_eq!(exposure_from_opts(&o), neutral);
    let pb = PrintBalance::neutral();
    apply_print_balance_to_opts(&pb, &mut o);
    assert_eq!(print_balance_from_opts(&o), pb);
}

#[test]
fn sliders_show_what_they_wrote() {
    let near = |a: Single, b: f32| (f(a) as f64 - b as f64).abs() <= 1e-6;
    let values = [-7.5f32, -1.0, -0.4999999, -0.1, 0.0, 1e-9, 0.1, 0.3333333, 0.7, 1.3, 2.1, f32::INFINITY];
    for d in values {
        for g in values {
            let mut o = default_options(false);
            let exp = ExposureParams {
                density: s(d),
                grade: s(g),
                shadows: s(d),
                highlights: s(g),
                hardness: s(d),
            };
            apply_exposure_to_opts(&exp, &mut o);
            let r = exposure_from_opts(&o);
            assert!(near(r.density, d.clamp(0.0, 2.0)));
            assert!(near(r.grade, g.clamp(0.2, 3.0)));
            assert_eq!(f(r.shadows), d.clamp(-0.3, 0.3));
            assert_eq!(f(r.highlights), g.clamp(-0.5, 0.5));
            assert!(near(r.hardness, d.clamp(-0.5, 0.5)));
            let pb = PrintBalance { cyan: s(d), magenta: s(g), yellow: s(-d) };
            apply_print_balance_to_opts(&pb, &mut o);
            let r = print_balance_from_opts(&o);
            assert!(near(r.cyan, d.clamp(-1.0, 1.0)));
            assert!(near(r.magenta, g.clamp(-1.0, 1.0)));
            assert!(near(r.yellow, (-d).clamp(-1.0, 1.0)));
        }
    }
}

#[test]
fn house_grade_is_where_the_search_begins() {
    let t = AutoTuner::start();
    let o = prepare_search_options(default_options(false));
    assert_eq!(t.knobs.curve_offset, o.curve_offset);
    assert_eq!(t.knobs.curve_gamma, o.curve_gamma);
    // The first probe is the low end of the range.
    assert_eq!(f(t.knobs.film_gamma), 0.55);
}

#[test]
fn workers_report_from_their_files() {
    let mut p = AutoProgress::batch(4);
    p.report_file("a.nef", "Grading", s(0.5), 1);
    assert_eq!((p.file_name.as_str(), p.message.as_str(), p.completed), ("a.nef", "Grading", 1));
    assert_eq!(f(p.fraction), 1.5 / 4.0);
    assert!(p.log.is_empty());
}

#[test]
fn figures_of_a_grade() {
    let mut g = AutoTuneResult {
        film_gamma: s(0.6),
        curve_offset: s(-0.25),
        curve_gamma: s(3.0),
        toe_strength: s(0.1),
        lut_in_mid: s(1.2),
        highlight_rolloff: s(0.0),
        saturation: s(1.0),
        apply_lab: false,
        lab_separation: s(1.0),
        bujack_enabled: false,
        highlight_warmth: s(0.0),
    };
    let r = auto_figures(&g);
    assert_eq!((f(r.density), f(r.grade), f(r.hardness)), (0.75, 3.0 / 2.5, 1.2 - 1.0));
    g.curve_gamma = s(0.0);
    assert_eq!(f(auto_figures(&g).grade), 1.0);
}

#[test]
fn failures_are_told() {
    assert_eq!(auto_failure_text(&AutoFailure::NoBase), "Auto: no D-min buffer to analyse.");
    assert_eq!(
        auto_failure_text(&AutoFailure::NotLoaded("no such file".to_string())),
        "Auto: failed to load preview (no such file)"
    );
    assert_eq!(
        auto_failure_text(&AutoFailure::NotAnalysed("image is too small".to_string())),
        "Auto: image is too small"
    );
}
