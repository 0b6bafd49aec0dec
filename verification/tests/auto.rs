use std::cell::{Cell, RefCell};

use c41_darkroom::auto::{
    analysed_crop, analysis_proxy, auto_tune, crop_to_rect, prepare_search_options, AutoError, AutoPhase, AutoTuner,
};
use c41_darkroom::auto_report::{Relay, ReportList};
use c41_darkroom::film::FilmImage;
use c41_darkroom::metrics::{metrics_from_rgb, midtone_chroma, solve_saturation, HistMetrics};
use c41_darkroom::options::{default_options, PipelineOptions, Rect, ZoneRange};
use c41_darkroom::search::{search_1d, Search};
use c41_darkroom::single::Single;

fn s(v: f32) -> Single {
    Single { bits: v.to_bits() }
}

fn f(v: Single) -> f32 {
    f32::from_bits(v.bits)
}

fn gray_rgb(value: u8, n: usize) -> Vec<u8> {
    vec![value, value, value].repeat(n)
}

fn metrics(centroid: f32, clip_hi: f32, clip_lo: f32, p1: f32, p50: f32, p99: f32) -> HistMetrics {
    HistMetrics {
        centroid: s(centroid),
        clip_hi: s(clip_hi),
        clip_lo: s(clip_lo),
        p1: s(p1),
        p50: s(p50),
        p99: s(p99),
    }
}

#[test]
fn centroid_of_flat_gray() {
    let rgb = gray_rgb(118, 100);
    let m = metrics_from_rgb(&rgb);
    assert!((f(m.centroid) - 118.0).abs() < 0.5);
    assert_eq!(f(m.clip_hi), 0.0);
    assert_eq!(f(m.clip_lo), 0.0);
    assert!((f(m.p50) - 118.0).abs() < 0.5);
}

#[test]
fn clip_hi_detects_channel_rail() {
    let mut rgb = gray_rgb(128, 100);
    for i in 0..5 {
        rgb[i * 3] = 255;
    }
    let m = metrics_from_rgb(&rgb);
    assert!((f(m.clip_hi) - 0.05).abs() < 1e-4);
}

#[test]
fn gamma_score_prefers_no_clip_over_perfect_center() {
    let centered_clip = metrics(118.0, 0.05, 0.0, 10.0, 118.0, 250.0);
    let left_safe = metrics(100.0, 0.0, 0.0, 10.0, 100.0, 200.0);
    assert!(f(left_safe.gamma_score()) < f(centered_clip.gamma_score()));
}

#[test]
fn toe_score_prefers_black_touch() {
    let gap = metrics(128.0, 0.0, 0.0, 40.0, 128.0, 200.0);
    let touch = metrics(128.0, 0.0, 0.0005, 8.0, 128.0, 200.0);
    let crush = metrics(128.0, 0.0, 0.05, 0.0, 128.0, 200.0);
    assert!(f(touch.toe_score()) < f(gap.toe_score()));
    assert!(f(touch.toe_score()) < f(crush.toe_score()));
}

#[test]
fn saturation_solve_is_linear() {
    assert!((f(solve_saturation(s(0.10), s(0.11))) - 1.10).abs() < 1e-5);
    assert!((f(solve_saturation(s(0.01), s(0.11))) - 1.35).abs() < 1e-5);
    assert!((f(solve_saturation(s(0.20), s(0.11))) - 0.90).abs() < 1e-5);
    assert!((f(solve_saturation(s(0.0), s(0.11))) - 1.0).abs() < 1e-5);
}

#[test]
fn search_1d_finds_parabola_minimum() {
    let x = search_1d(s(0.0), s(1.0), 9, 7, |v: Single, _: usize, _: usize| {
        let v = f(v);
        s((v - 0.37) * (v - 0.37))
    });
    assert!((f(x) - 0.37).abs() < 0.03);
}

#[test]
fn grade_score_prefers_wider_unclipped_hist() {
    let narrow = metrics(118.0, 0.0, 0.0, 80.0, 118.0, 160.0);
    let wide = metrics(118.0, 0.0, 0.0, 12.0, 118.0, 240.0);
    let clipped_wide = metrics(118.0, 0.04, 0.0, 8.0, 118.0, 254.0);
    assert!(f(wide.grade_score()) < f(narrow.grade_score()));
    assert!(f(narrow.grade_score()) < f(clipped_wide.grade_score()));
}

#[test]
fn prepare_search_resets_owned_knobs() {
    let mut src = default_options(false);
    src.highlight_rolloff = s(1.2);
    src.curve_offset = s(0.3);
    src.curve_gamma = s(4.0);
    src.bujack_enabled = true;
    let opts = prepare_search_options(src);
    assert_eq!(f(opts.highlight_rolloff), 0.0);
    assert_eq!(f(opts.curve_offset), 0.0);
    assert_eq!(f(opts.curve_gamma), 2.5);
    assert!(!opts.bujack_enabled);
}

#[test]
fn preparing_keeps_what_the_search_does_not_own() {
    let mut src = default_options(false);
    src.wb_r = s(1.7);
    src.rotation_degrees = 90;
    let opts = prepare_search_options(src);
    assert_eq!(f(opts.wb_r), 1.7);
    assert_eq!(opts.rotation_degrees, 90);
    assert_eq!(f(opts.film_gamma), 0.65);
    assert_eq!(f(opts.lab_separation), 1.5);
    assert!(opts.apply_lab);
}

/// The search with native numbers.
fn native_search(lo: f32, hi: f32, coarse: usize, refine: usize, score: &dyn Fn(f32) -> f32) -> f32 {
    let mut best_x = lo;
    let mut best_s = f32::INFINITY;
    for i in 0..coarse {
        let t = if coarse <= 1 { 0.0 } else { i as f32 / (coarse - 1) as f32 };
        let x = lo + (hi - lo) * t;
        let v = score(x);
        if v < best_s {
            best_s = v;
            best_x = x;
        }
    }
    let span = (hi - lo) / (coarse as f32).max(1.0);
    let rlo = (best_x - span).max(lo);
    let rhi = (best_x + span).min(hi);
    for i in 0..refine {
        let t = if refine <= 1 { 0.5 } else { i as f32 / (refine - 1) as f32 };
        let x = rlo + (rhi - rlo) * t;
        let v = score(x);
        if v < best_s {
            best_s = v;
            best_x = x;
        }
    }
    best_x
}

#[test]
fn search_agrees_with_native_numbers() {
    for &(lo, hi, coarse, refine, at) in &[
        (0.55f32, 0.75f32, 7usize, 5usize, 0.613f32),
        (-0.12, 0.12, 7, 5, -0.031),
        (0.0, 1.0, 1, 1, 0.4),
        (0.0, 1.0, 0, 3, 0.9),
        (0.8, 1.25, 7, 0, 1.0),
        (-0.5, 0.5, 7, 5, 7.0),
    ] {
        let score = |x: f32| (x - at).abs();
        let got = search_1d(s(lo), s(hi), coarse, refine, |x: Single, _: usize, _: usize| {
            s((f(x) - at).abs())
        });
        assert_eq!(got.bits, native_search(lo, hi, coarse, refine, &score).to_bits());
    }
}

#[test]
fn search_keeps_its_lowest_score() {
    let scores = [4.0f32, 2.0, 3.0, 2.0, 9.0];
    let mut search = Search::start(s(0.0), s(1.0), 3, 2);
    let mut probes = Vec::new();
    for v in scores {
        assert!(!search.finished());
        probes.push(search.probe());
        search.record(s(v));
    }
    assert!(search.finished());
    assert_eq!(f(search.score), 2.0);
    assert_eq!(search.best, probes[1]);
    assert_eq!(f(search.best), 0.5);
}

#[test]
fn measures_of_a_ramp() {
    let mut rgb = Vec::new();
    for v in 0..=255u8 {
        rgb.extend_from_slice(&[v, v, v]);
    }
    let m = metrics_from_rgb(&rgb);
    assert_eq!(f(m.centroid), 127.5);
    assert!(f(m.p1) < f(m.p50) && f(m.p50) < f(m.p99));
    assert!(f(m.clip_hi) > 0.0 && f(m.clip_lo) > 0.0);
    let empty = metrics_from_rgb(&[]);
    assert_eq!(f(empty.clip_hi), 0.0);
}

fn image(w: usize, h: usize, px: impl Fn(usize, usize, usize) -> f32) -> FilmImage {
    let mut samples = Vec::new();
    for y in 0..h {
        for x in 0..w {
            for c in 0..3 {
                samples.push(s(px(x, y, c)));
            }
        }
    }
    FilmImage { width: w, height: h, channels: 3, samples }
}

#[test]
fn chroma_counts_the_middle_zone_alone() {
    let zone = ZoneRange { d_p33: s(0.2), d_p66: s(0.8) };
    let flat = image(8, 8, |_, _, _| 0.5);
    assert_eq!(f(midtone_chroma(&flat, s(0.0), zone)), 0.0);
    let outside = image(8, 8, |_, _, c| 2.0 + c as f32);
    assert_eq!(f(midtone_chroma(&outside, s(0.0), zone)), 0.0);
    let coloured = image(8, 8, |_, _, c| 0.4 + 0.1 * c as f32);
    assert!(f(midtone_chroma(&coloured, s(0.0), zone)) > 0.0);
}

#[test]
fn crops_of_four_pixels_are_left_alone() {
    let img = image(20, 10, |x, y, c| (x * 100 + y * 10 + c) as f32);
    let whole = crop_to_rect(&img, None);
    assert_eq!((whole.width, whole.height), (20, 10));
    let small = crop_to_rect(&img, Some(Rect { x: 2, y: 2, width: 4, height: 9 }));
    assert_eq!((small.width, small.height), (20, 10));
    let cut = crop_to_rect(&img, Some(Rect { x: 3, y: 2, width: 6, height: 30 }));
    assert_eq!((cut.width, cut.height), (6, 8));
    assert_eq!(f(cut.samples[0]), 320.0);
    assert_eq!(f(cut.samples[cut.samples.len() - 1]), 892.0);
}

#[test]
fn small_images_are_not_analysed() {
    assert_eq!(analysis_proxy(&image(7, 40, |_, _, _| 0.5), None).unwrap_err(), AutoError::TooSmall);
    assert_eq!(AutoError::TooSmall.message(), "Auto: image is too small to analyse");
    let proxy = analysis_proxy(&image(768, 16, |x, _, _| x as f32), None).unwrap();
    assert_eq!((proxy.width, proxy.height), (384, 8));
    assert_eq!(f(proxy.samples[0]), 0.5);
    let same = analysis_proxy(&image(8, 8, |_, _, _| 0.25), None).unwrap();
    assert_eq!((same.width, same.height), (8, 8));
}

/// Brightness of a made-up print: it depends on the knobs, so that the search has a best.
fn print_of(o: &PipelineOptions) -> u8 {
    let v = 118.0 + 400.0 * (f(o.film_gamma) - 0.62) + 300.0 * (f(o.curve_offset) - 0.03)
        + 20.0 * (f(o.curve_gamma) - 2.6);
    v.clamp(0.0, 255.0) as u8
}

#[test]
fn grade_is_searched_knob_by_knob() {
    let img = image(16, 16, |x, y, c| 0.2 + 0.02 * (x + y + c) as f32);
    let mut list = ReportList { reports: Vec::new() };
    let renders = Cell::new(0usize);
    let chromas = Cell::new(0usize);
    let mut options = default_options(false);
    options.wb_r = s(1.25);
    let grade = auto_tune(
        &img,
        options,
        &|proxy: &FilmImage, o: &PipelineOptions| {
            assert_eq!(f(o.wb_r), 1.25);
            renders.set(renders.get() + 1);
            gray_rgb(print_of(o), proxy.width * proxy.height)
        },
        &|proxy: &FilmImage, o: &PipelineOptions| {
            assert_eq!(f(o.saturation), 1.0);
            chromas.set(chromas.get() + 1);
            let d = image(proxy.width, proxy.height, |_, _, c| 0.45 + 0.05 * c as f32);
            (d, ZoneRange { d_p33: s(0.2), d_p66: s(0.8) })
        },
        &mut list,
    )
    .unwrap();
    assert_eq!(chromas.get(), 1);
    assert_eq!(renders.get(), 7 * 12 + 2);
    let told: Vec<&'static str> = list.reports.iter().filter_map(|t| t.log).collect();
    assert_eq!(
        told,
        vec![
            "Preparing analysis…",
            "Finding optimal Film γ…",
            "Adjusting density…",
            "Setting paper grade…",
            "Adjusting exposure…",
            "Stretching midtones…",
            "Refining shadows…",
            "Refining density…",
            "Adjusting saturation…",
            "Applying settings…",
        ]
    );
    let all = &list.reports;
    assert_eq!((all[0].title, f(all[0].part)), ("Preparing analysis…", 0.02));
    assert_eq!((all[1].title, f(all[1].part), all[1].log), ("Preparing analysis…", 0.08, None));
    let end = all[all.len() - 1];
    assert_eq!((end.title, f(end.part), end.log), ("Applying settings…", 0.97, Some("Applying settings…")));
    assert_eq!(all.len(), 2 + 9 + 7 * 12);
    for i in 1..all.len() {
        assert!(f(all[i - 1].part) <= f(all[i].part));
        assert!(all[i].log.is_none() || all[i].log == Some(all[i].title));
    }
    assert!(f(grade.film_gamma) >= 0.55 && f(grade.film_gamma) <= 0.75);
    assert!(f(grade.curve_gamma) >= 2.0 && f(grade.curve_gamma) <= 3.125);
    assert_eq!(f(grade.saturation), f(solve_saturation(midtone(), s(0.10))));
    assert_eq!(f(grade.lab_separation), 1.5);
    assert_eq!(f(grade.highlight_rolloff), 0.0);
    let mut opts = default_options(false);
    let before = f(opts.wb_g);
    grade.apply_to(&mut opts);
    assert_eq!(opts.film_gamma, grade.film_gamma);
    assert_eq!(f(opts.wb_g), before);
}

fn midtone() -> Single {
    let d = image(16, 16, |_, _, c| 0.45 + 0.05 * c as f32);
    midtone_chroma(&d, s(0.0), ZoneRange { d_p33: s(0.2), d_p66: s(0.8) })
}

#[test]
fn saturation_is_eased_while_it_clips() {
    let img = image(16, 16, |_, _, _| 0.5);
    let grade = auto_tune(
        &img,
        default_options(false),
        &|proxy: &FilmImage, o: &PipelineOptions| {
            let n = proxy.width * proxy.height;
            if f(o.saturation) > 1.12 { gray_rgb(255, n) } else { gray_rgb(118, n) }
        },
        &|proxy: &FilmImage, _: &PipelineOptions| {
            let d = image(proxy.width, proxy.height, |_, _, c| 0.5 + 0.001 * c as f32);
            (d, ZoneRange { d_p33: s(0.2), d_p66: s(0.8) })
        },
        &mut ReportList { reports: Vec::new() },
    )
    .unwrap();
    let mut want = 1.35f32;
    while want > 1.12 {
        want = (want - 0.05).max(0.90);
    }
    assert_eq!(f(grade.saturation), want);
}

#[test]
fn always_clipping_ends_near_the_least_saturation() {
    let img = image(16, 16, |_, _, _| 0.5);
    let base = Cell::new(true);
    let grade = auto_tune(
        &img,
        default_options(false),
        &|proxy: &FilmImage, o: &PipelineOptions| {
            let n = proxy.width * proxy.height;
            if f(o.saturation) == 1.0 && base.get() {
                return gray_rgb(118, n);
            }
            base.set(false);
            gray_rgb(255, n)
        },
        &|proxy: &FilmImage, _: &PipelineOptions| {
            let d = image(proxy.width, proxy.height, |_, _, c| 0.5 + 0.001 * c as f32);
            (d, ZoneRange { d_p33: s(0.2), d_p66: s(0.8) })
        },
        &mut ReportList { reports: Vec::new() },
    )
    .unwrap();
    let mut want = 1.35f32;
    while want > 0.90 + 0.02 {
        want = (want - 0.05).max(0.90);
    }
    assert_eq!(f(grade.saturation), want);
}

#[test]
fn too_small_images_have_no_grade() {
    let r = auto_tune(
        &image(6, 6, |_, _, _| 0.5),
        default_options(false),
        &|_: &FilmImage, _: &PipelineOptions| Vec::new(),
        &|_: &FilmImage, _: &PipelineOptions| {
            (image(1, 1, |_, _, _| 0.0), ZoneRange { d_p33: s(0.0), d_p66: s(0.0) })
        },
        &mut ReportList { reports: Vec::new() },
    );
    assert_eq!(r.unwrap_err(), AutoError::TooSmall);
    let mut list = ReportList { reports: Vec::new() };
    let grey = FilmImage { width: 20, height: 20, channels: 1, samples: vec![s(0.5); 400] };
    let r = auto_tune(
        &grey,
        default_options(false),
        &|_: &FilmImage, _: &PipelineOptions| Vec::new(),
        &|_: &FilmImage, _: &PipelineOptions| {
            (image(1, 1, |_, _, _| 0.0), ZoneRange { d_p33: s(0.0), d_p66: s(0.0) })
        },
        &mut list,
    );
    assert_eq!(r.unwrap_err(), AutoError::TooSmall);
    assert_eq!(list.reports.len(), 1);
    assert_eq!(analysis_proxy(&grey, None).unwrap_err(), AutoError::TooSmall);
}

#[test]
fn owned_knobs_are_forgotten() {
    let img = image(16, 16, |x, y, c| 0.2 + 0.02 * (x + y + c) as f32);
    let grade = |o: PipelineOptions| {
        auto_tune(
            &img,
            o,
            &|proxy: &FilmImage, o: &PipelineOptions| {
                gray_rgb(print_of(o), proxy.width * proxy.height)
            },
            &|proxy: &FilmImage, _: &PipelineOptions| {
                let d = image(proxy.width, proxy.height, |_, _, c| 0.45 + 0.05 * c as f32);
                (d, ZoneRange { d_p33: s(0.2), d_p66: s(0.8) })
            },
            &mut ReportList { reports: Vec::new() },
        )
        .unwrap()
    };
    let mut other = default_options(false);
    other.film_gamma = s(0.9);
    other.curve_offset = s(0.5);
    other.saturation = s(2.0);
    other.bujack_enabled = true;
    assert_eq!(grade(default_options(false)), grade(other));
}

#[test]
fn progress_goes_from_phase_to_phase() {
    let mut t = AutoTuner::start();
    assert_eq!(t.phase, AutoPhase::Gamma);
    assert_eq!(t.title(), "Finding optimal Film γ…");
    assert_eq!(f(t.progress()), 0.08);
    t.take_metrics(metrics(118.0, 0.0, 0.0, 10.0, 118.0, 240.0));
    assert_eq!(f(t.progress()), 0.08 + 0.14 * (1.0 / 12.0));
    let mut phases = vec![t.phase];
    for _ in 0..200 {
        if t.phase == AutoPhase::Done {
            break;
        }
        if t.phase == AutoPhase::Chroma {
            t.take_chroma(s(0.1));
        } else {
            t.take_metrics(metrics(118.0, 0.0, 0.0, 10.0, 118.0, 240.0));
        }
        if *phases.last().unwrap() != t.phase {
            phases.push(t.phase);
        }
    }
    assert_eq!(phases.len(), 11);
    assert_eq!(t.phase, AutoPhase::Done);
    assert_eq!(f(t.progress()), 0.97);
    assert_eq!(f(t.result().saturation), 1.0);
}

#[test]
fn relays_hand_reports_on() {
    let img = image(16, 16, |x, y, c| 0.2 + 0.02 * (x + y + c) as f32);
    let run = |list: &mut ReportList| {
        auto_tune(
            &img,
            default_options(false),
            &|proxy: &FilmImage, o: &PipelineOptions| {
                gray_rgb(print_of(o), proxy.width * proxy.height)
            },
            &|proxy: &FilmImage, _: &PipelineOptions| {
                let d = image(proxy.width, proxy.height, |_, _, c| 0.45 + 0.05 * c as f32);
                (d, ZoneRange { d_p33: s(0.2), d_p66: s(0.8) })
            },
            list,
        )
        .unwrap()
    };
    let mut list = ReportList { reports: Vec::new() };
    let kept = run(&mut list);
    let heard: RefCell<Vec<(&'static str, Single, Option<&'static str>)>> = RefCell::new(Vec::new());
    let mut relay = Relay::new(|title: &'static str, part: Single, log: Option<&'static str>| {
        heard.borrow_mut().push((title, part, log))
    });
    let relayed = auto_tune(
        &img,
        default_options(false),
        &|proxy: &FilmImage, o: &PipelineOptions| {
            gray_rgb(print_of(o), proxy.width * proxy.height)
        },
        &|proxy: &FilmImage, _: &PipelineOptions| {
            let d = image(proxy.width, proxy.height, |_, _, c| 0.45 + 0.05 * c as f32);
            (d, ZoneRange { d_p33: s(0.2), d_p66: s(0.8) })
        },
        &mut relay,
    )
    .unwrap();
    assert_eq!(kept, relayed);
    let told: Vec<_> = list.reports.iter().map(|t| (t.title, t.part, t.log)).collect();
    assert_eq!(*heard.borrow(), told);
}

#[test]
fn the_applied_crop_is_analysed() {
    let mut o = default_options(false);
    o.crop_rect = Some(Rect { x: 10, y: 20, width: 30, height: 40 });
    o.crop_rect_reference_size = Some((100, 100));
    o.apply_crop = false;
    assert_eq!(analysed_crop(&o, 200, 300), None);
    o.apply_crop = true;
    assert_eq!(analysed_crop(&o, 200, 300), Some(Rect { x: 20, y: 60, width: 60, height: 120 }));
    o.crop_rect_reference_size = None;
    assert_eq!(analysed_crop(&o, 200, 300), o.crop_rect);
    o.crop_rect = None;
    assert_eq!(analysed_crop(&o, 200, 300), None);
}

#[test]
fn the_grade_is_searched_in_the_crop() {
    let img = image(40, 40, |x, _, _| x as f32);
    let mut o = default_options(false);
    o.apply_crop = true;
    o.crop_rect = Some(Rect { x: 5, y: 0, width: 10, height: 20 });
    o.crop_rect_reference_size = Some((20, 20));
    let seen = Cell::new((0usize, 0usize, 0.0f32));
    auto_tune(
        &img,
        o,
        &|proxy: &FilmImage, o: &PipelineOptions| {
            seen.set((proxy.width, proxy.height, f(proxy.samples[0])));
            gray_rgb(print_of(o), proxy.width * proxy.height)
        },
        &|proxy: &FilmImage, _: &PipelineOptions| {
            (image(proxy.width, proxy.height, |_, _, _| 0.5), ZoneRange { d_p33: s(0.2), d_p66: s(0.8) })
        },
        &mut ReportList { reports: Vec::new() },
    )
    .unwrap();
    assert_eq!(seen.get(), (20, 40, 10.0));
}

#[test]
fn four_channels_are_analysed_where_they_are_reduced() {
    let four = |w: usize, h: usize| FilmImage {
        width: w,
        height: h,
        channels: 4,
        samples: (0..w * h * 4).map(|i| s((i % 4) as f32)).collect(),
    };
    let proxy = analysis_proxy(&four(768, 16), None).unwrap();
    assert_eq!((proxy.width, proxy.height, proxy.channels), (384, 8, 3));
    assert_eq!(proxy.samples.len(), 384 * 8 * 3);
    for px in proxy.samples.chunks(3) {
        assert_eq!((f(px[0]), f(px[1]), f(px[2])), (0.0, 1.0, 2.0));
    }
    assert_eq!(analysis_proxy(&four(40, 40), None).unwrap_err(), AutoError::TooSmall);
}
