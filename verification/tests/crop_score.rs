use c41_darkroom::auto_crop::{crop_probe, AutoCropResult, CropConfidence};
use c41_darkroom::crop_score::{iou_norm, norm, percentile, roll_score, score_row, usable, CropScore, Parts};
use c41_darkroom::film::FilmImage;
use c41_darkroom::options::Rect;
use c41_darkroom::single::Single;
use c41_darkroom::surround::SurroundClass;

fn s(v: f32) -> Single {
    Single { bits: v.to_bits() }
}

fn f(v: Single) -> f32 {
    f32::from_bits(v.bits)
}

fn rect(x: u32, y: u32, width: u32, height: u32) -> Rect {
    Rect { x, y, width, height }
}

fn found(r: Rect, size: (u32, u32)) -> AutoCropResult {
    AutoCropResult {
        rect: r,
        reference_size: size,
        confidence: CropConfidence::High,
        surround: SurroundClass::DarkHolder,
        format_hint: None,
    }
}

fn native_iou(a: Parts, b: Parts) -> f32 {
    let (al, at, ar, ab) = (f(a.left), f(a.top), f(a.right), f(a.bottom));
    let (bl, bt, br, bb) = (f(b.left), f(b.top), f(b.right), f(b.bottom));
    let shared = (ar.min(br) - al.max(bl)).max(0.0) * (ab.min(bb) - at.max(bt)).max(0.0);
    let one = (ar - al).max(0.0) * (ab - at).max(0.0);
    let two = (br - bl).max(0.0) * (bb - bt).max(0.0);
    let all = one + two - shared;
    if all <= 1e-6 {
        0.0
    } else {
        shared / all
    }
}

#[test]
fn edges_are_parts_of_the_sides() {
    let p = norm(rect(10, 20, 30, 40), (100, 80));
    assert_eq!(f(p.left), 10.0 / 100.0);
    assert_eq!(f(p.top), 20.0 / 80.0);
    assert_eq!(f(p.right), 40.0 / 100.0);
    assert_eq!(f(p.bottom), 60.0 / 80.0);
    let q = norm(rect(1, 1, 2, 2), (0, 0));
    assert_eq!(f(q.right), 3.0);
}

#[test]
fn overlaps_match_single_precision() {
    let shapes = [
        norm(rect(0, 0, 10, 10), (10, 10)),
        norm(rect(5, 0, 5, 10), (10, 10)),
        norm(rect(37, 11, 400, 300), (613, 411)),
        norm(rect(41, 9, 380, 333), (613, 411)),
        norm(rect(3, 3, 0, 0), (10, 10)),
        norm(rect(0, 0, 1, 1), (10, 10)),
        norm(rect(8, 8, 2, 2), (10, 10)),
    ];
    for a in shapes {
        for b in shapes {
            let got = iou_norm(a, b);
            assert_eq!(got.bits, native_iou(a, b).to_bits());
            assert_eq!(got, iou_norm(b, a));
        }
    }
    assert_eq!(f(iou_norm(shapes[0], shapes[0])), 1.0);
    assert_eq!(f(iou_norm(shapes[0], shapes[1])), 0.5);
    assert_eq!(f(iou_norm(shapes[5], shapes[6])), 0.0);
    assert_eq!(f(iou_norm(shapes[4], shapes[4])), 0.0);
}

#[test]
fn scores_give_the_farthest_edge() {
    let size = (100, 100);
    let hit = found(rect(10, 20, 60, 70), (200, 200));
    let r = score_row(rect(10, 10, 50, 50), size, Some(&hit));
    assert_eq!(f(r.dl), 10.0f32 / 200.0 - 10.0 / 100.0);
    assert_eq!(f(r.dt), 0.0);
    assert_eq!(f(r.dr), 70.0f32 / 200.0 - 60.0 / 100.0);
    assert_eq!(f(r.db), 90.0f32 / 200.0 - 60.0 / 100.0);
    assert_eq!(f(r.max_e), (70.0f32 / 200.0 - 60.0 / 100.0).abs());
    assert!(!usable(&r));

    let same = found(rect(20, 20, 100, 100), (200, 200));
    let r = score_row(rect(10, 10, 50, 50), size, Some(&same));
    assert_eq!(f(r.iou), 1.0);
    assert_eq!(f(r.max_e), 0.0);
    assert!(usable(&r));
}

#[test]
fn no_crop_is_as_far_off_as_can_be() {
    let r = score_row(rect(10, 10, 50, 50), (100, 100), None);
    assert_eq!(f(r.iou), 0.0);
    assert_eq!(f(r.max_e), 1.0);
    assert!(!usable(&r));
}

#[test]
fn a_crop_is_usable_by_area_or_by_edge() {
    let base = CropScore { iou: s(0.0), dl: s(0.0), dt: s(0.0), dr: s(0.0), db: s(0.0), max_e: s(1.0) };
    assert!(usable(&CropScore { iou: s(0.85), ..base }));
    assert!(!usable(&CropScore { iou: s(0.8499), ..base }));
    assert!(usable(&CropScore { max_e: s(0.05), ..base }));
    assert!(!usable(&CropScore { max_e: s(0.0501), ..base }));
}

#[test]
fn percentiles_take_the_nearest_value() {
    let v = vec![s(0.9), s(0.1), s(0.5), s(0.7)];
    assert_eq!(f(percentile(&v, s(0.0))), 0.1);
    assert_eq!(f(percentile(&v, s(0.5))), 0.7);
    assert_eq!(f(percentile(&v, s(1.0))), 0.9);
    assert_eq!(f(percentile(&v, s(2.0))), 0.9);
    assert_eq!(f(percentile(&Vec::new(), s(0.5))), 0.0);
}

#[test]
fn probes_read_the_reduced_scan() {
    let (w, h) = (120usize, 90usize);
    let mut data = Vec::new();
    for y in 0..h {
        for x in 0..w {
            let inside = x >= 20 && x < 100 && y >= 15 && y < 75;
            let v: f32 = if inside { 0.3 + 0.2 * (((x * 7 + y * 13) % 11) as f32 / 11.0) } else { 0.01 };
            for _ in 0..3 {
                data.push(s(v));
            }
        }
    }
    let image = FilmImage { width: w, height: h, channels: 3, samples: data };
    let p = crop_probe(&image).unwrap();
    assert_eq!((p.width, p.height), (w, h));
    assert!(f(p.outer) < 0.05);
    assert!(f(p.inner) > 0.25);
    assert!(p.pixels.left <= p.pixels.right && p.pixels.right <= w);

    let tiny = FilmImage { width: 12, height: 90, channels: 3, samples: vec![s(0.5); 12 * 90 * 3] };
    assert!(crop_probe(&tiny).is_none());
}

#[test]
fn rolls_are_scored_from_the_worst_crop_on() {
    let row = |iou: f32, max_e: f32| CropScore {
        iou: s(iou),
        dl: s(0.0),
        dt: s(0.0),
        dr: s(0.0),
        db: s(0.0),
        max_e: s(max_e),
    };
    let r = roll_score(&vec![row(0.95, 0.01), row(0.82, 0.045), row(0.87, 0.3), row(0.2, 1.0)]);
    assert_eq!(f(r.mean_iou), (((0.2f32 + 0.82) + 0.87) + 0.95) / 4.0);
    assert_eq!(f(r.median_iou), 0.87);
    assert_eq!((r.by_80, r.by_85, r.by_90), (3, 2, 1));
    assert_eq!((r.edge_4, r.usable), (1, 3));
    let none = roll_score(&Vec::new());
    assert_eq!(f(none.mean_iou), 0.0);
    assert_eq!((none.by_80, none.usable), (0, 0));
}
