use c41_darkroom::aspect::{clamp_rect, inset_bounds, seed_looks_complete, snap_aspect, Bounds, FilmFormat};
use c41_darkroom::auto_crop::{detect_crop, AutoCropResult, CropConfidence};
use c41_darkroom::film::{downsample_to_max_side, FilmImage};
use c41_darkroom::options::Rect;
use c41_darkroom::single::Single;
use c41_darkroom::surround::{classify_image_pixel, pixel_levels, vote_surround, SurroundClass};

/// A linear RGB image to draw on.
struct Img {
    w: usize,
    h: usize,
    data: Vec<f32>,
}

impl Img {
    fn new(w: usize, h: usize) -> Img {
        Img { w, h, data: vec![0.0; w * h * 3] }
    }

    fn at(&mut self, y: usize, x: usize, c: usize) -> &mut f32 {
        &mut self.data[(y * self.w + x) * 3 + c]
    }

    fn film(&self) -> FilmImage {
        FilmImage {
            width: self.w,
            height: self.h,
            channels: 3,
            samples: self.data.iter().map(|v| Single { bits: v.to_bits() }).collect(),
        }
    }
}


fn set_rgb(img: &mut Img, x: usize, y: usize, v: f32) {
    *img.at(y, x, 0) = v;
    *img.at(y, x, 1) = v;
    *img.at(y, x, 2) = v;
}

fn fill_rect(img: &mut Img, x0: usize, y0: usize, x1: usize, y1: usize, v: f32) {
    for y in y0..y1 {
        for x in x0..x1 {
            set_rgb(img, x, y, v);
        }
    }
}

/// Structured image content so texture distinguishes dye from rebate.
fn fill_image_pattern(
    img: &mut Img,
    x0: usize,
    y0: usize,
    x1: usize,
    y1: usize,
    lo: f32,
    hi: f32,
) {
    for y in y0..y1 {
        for x in x0..x1 {
            let u = (x - x0) as f32 * 0.21 + (y - y0) as f32 * 0.13;
            let v = lo + (hi - lo) * (0.5 + 0.5 * (u).sin());
            set_rgb(img, x, y, v);
        }
    }
}

fn canvas(w: usize, h: usize, fill: f32) -> Img {
    let mut img = Img::new(w, h);
    fill_rect(&mut img, 0, 0, w, h, fill);
    img
}

fn assert_rect_close(got: Rect, exp: (u32, u32, u32, u32), tol: u32) {
    let (x, y, w, h) = exp;
    assert!(got.x.abs_diff(x) <= tol, "x {} vs {} (tol {tol})", got.x, x);
    assert!(got.y.abs_diff(y) <= tol, "y {} vs {} (tol {tol})", got.y, y);
    assert!(
        got.width.abs_diff(w) <= tol,
        "w {} vs {} (tol {tol})",
        got.width,
        w
    );
    assert!(
        got.height.abs_diff(h) <= tol,
        "h {} vs {} (tol {tol})",
        got.height,
        h
    );
}

fn detect(img: &Img) -> AutoCropResult {
    detect_crop(&img.film(), None, None).expect("auto crop should find a frame")
}

#[test]
fn dark_holder_rebate_image() {
    let (w, h) = (320, 240);
    let mut img = canvas(w, h, 0.02);
    fill_rect(&mut img, 24, 24, w - 24, h - 24, 1.0);
    fill_image_pattern(&mut img, 40, 40, w - 40, h - 40, 0.32, 0.68);
    let r = detect(&img);
    assert_rect_close(r.rect, (40, 40, 240, 160), 10);
    assert_eq!(r.surround, SurroundClass::DarkHolder);
    assert_ne!(r.confidence, CropConfidence::Low);
}

#[test]
fn bright_surround_rebate_image() {
    let (w, h) = (320, 240);
    let mut img = canvas(w, h, 1.55);
    fill_rect(&mut img, 24, 24, w - 24, h - 24, 1.0);
    fill_image_pattern(&mut img, 40, 40, w - 40, h - 40, 0.30, 0.65);
    let r = detect(&img);
    assert_rect_close(r.rect, (40, 40, 240, 160), 10);
    assert_eq!(r.surround, SurroundClass::BrightLight);
}

#[test]
fn holder_only_no_rebate() {
    let (w, h) = (320, 240);
    let mut img = canvas(w, h, 0.02);
    fill_image_pattern(&mut img, 36, 36, w - 36, h - 36, 0.28, 0.70);
    let r = detect(&img);
    assert_rect_close(r.rect, (36, 36, 248, 168), 10);
    assert_eq!(r.surround, SurroundClass::DarkHolder);
}

#[test]
fn thin_border() {
    let (w, h) = (320, 240);
    let mut img = canvas(w, h, 0.02);
    // ~2.5% border, no rebate.
    fill_image_pattern(&mut img, 8, 6, w - 8, h - 6, 0.30, 0.66);
    let r = detect(&img);
    assert_rect_close(r.rect, (8, 6, 304, 228), 12);
}

#[test]
fn off_center_frame() {
    let (w, h) = (320, 240);
    let mut img = canvas(w, h, 0.02);
    // Image in the top-left; canvas centre sits in the holder.
    fill_image_pattern(&mut img, 12, 10, 152, 120, 0.30, 0.68);
    let r = detect(&img);
    assert_rect_close(r.rect, (12, 10, 140, 110), 12);
}

#[test]
fn dark_sky_at_image_edge() {
    let (w, h) = (320, 240);
    let mut img = canvas(w, h, 0.02);
    fill_rect(&mut img, 28, 28, w - 28, h - 28, 1.0);
    fill_image_pattern(&mut img, 44, 44, w - 44, h - 44, 0.34, 0.62);
    // Dense (low-T) sky band at the top of the image — must stay inside the crop.
    fill_rect(&mut img, 44, 44, w - 44, 72, 0.16);
    let r = detect(&img);
    assert!(r.rect.y <= 50, "sky band was cropped away: y={}", r.rect.y);
    assert!(
        r.rect.y + r.rect.height >= 190,
        "crop too short: {:?}",
        r.rect
    );
}

#[test]
fn fogged_base() {
    let (w, h) = (320, 240);
    let mut img = canvas(w, h, 0.02);
    fill_rect(&mut img, 24, 24, w - 24, h - 24, 1.0);
    // Low-contrast dye with higher-frequency grain (fogged / thin negs).
    for y in 40..h - 40 {
        for x in 40..w - 40 {
            let u = (x as f32) * 0.55 + (y as f32) * 0.41;
            let v = 0.88 + 0.07 * (0.5 + 0.5 * u.sin());
            *img.at(y, x, 0) = v;
            *img.at(y, x, 1) = v;
            *img.at(y, x, 2) = v;
        }
    }
    let r = detect(&img);
    assert_rect_close(r.rect, (40, 40, 240, 160), 12);
}

#[test]
fn vignette() {
    let (w, h) = (320, 240);
    let mut img = canvas(w, h, 0.02);
    fill_rect(&mut img, 24, 24, w - 24, h - 24, 1.0);
    fill_image_pattern(&mut img, 40, 40, w - 40, h - 40, 0.32, 0.66);
    let cx = (w as f32 - 1.0) * 0.5;
    let cy = (h as f32 - 1.0) * 0.5;
    for y in 0..h {
        for x in 0..w {
            let nx = (x as f32 - cx) / cx;
            let ny = (y as f32 - cy) / cy;
            let v = 0.74 + 0.26 * (1.0 - (nx * nx + ny * ny).min(1.0));
            for c in 0..3 {
                *img.at(y, x, c) *= v;
            }
        }
    }
    let r = detect(&img);
    assert_rect_close(r.rect, (40, 40, 240, 160), 14);
}

#[test]
fn sprocket_holes_35mm() {
    let (w, h) = (360, 240);
    let mut img = canvas(w, h, 0.02);
    fill_rect(&mut img, 16, 12, w - 16, h - 12, 1.0);
    fill_image_pattern(&mut img, 16, 36, w - 16, h - 36, 0.30, 0.64);
    // Periodic holes in the top/bottom rebate (35mm long edges).
    for &(y0, y1) in &[(12usize, 32usize), (h - 32, h - 12)] {
        let mut x = 24;
        while x + 8 < w - 16 {
            fill_rect(&mut img, x, y0, x + 8, y1, 0.02);
            x += 28;
        }
    }
    let r = detect(&img);
    assert!(
        r.rect.y >= 28 && r.rect.y <= 44,
        "sprocket band not trimmed: y={}",
        r.rect.y
    );
    assert!(
        r.rect.y + r.rect.height <= (h as u32 - 28),
        "bottom sprockets included: {:?}",
        r.rect
    );
    assert!(r.rect.width >= 300, "width too tight: {}", r.rect.width);
}

#[test]
fn tightly_framed_low_confidence() {
    let (w, h) = (320, 240);
    let mut img = canvas(w, h, 0.02);
    fill_image_pattern(&mut img, 2, 2, w - 2, h - 2, 0.30, 0.66);
    let r = detect(&img);
    assert!(r.rect.width >= 280, "width {}", r.rect.width);
    assert!(r.rect.height >= 200, "height {}", r.rect.height);
    assert_eq!(r.confidence, CropConfidence::Low);
}

#[test]
fn dmin_rect_hint_is_optional() {
    let (w, h) = (320, 240);
    let mut img = canvas(w, h, 0.02);
    fill_rect(&mut img, 24, 24, w - 24, h - 24, 1.0);
    fill_image_pattern(&mut img, 40, 40, w - 40, h - 40, 0.32, 0.68);
    let hint = Rect {
        x: 26,
        y: 26,
        width: 10,
        height: 8,
    };
    let size = Some((w as u32, h as u32));
    let with = detect_crop(&img.film(), Some(hint), size).expect("crop with dmin hint");
    let without = detect(&img);
    assert_rect_close(
        with.rect,
        (
            without.rect.x,
            without.rect.y,
            without.rect.width,
            without.rect.height,
        ),
        6,
    );
}

#[test]
fn large_noisy_white_surround() {
    let (w, h) = (320, 240);
    let mut img = Img::new(w, h);
    // ~40% of the frame is open lightbox at T≈1 with LED-like texture.
    for y in 0..h {
        for x in 0..w {
            let n = 1.0
                + 0.035 * ((x as f32) * 0.31).sin()
                + 0.025 * ((y as f32) * 0.27).sin()
                + 0.015 * (((x + y) % 7) as f32 / 6.0);
            set_rgb(&mut img, x, y, n);
        }
    }
    fill_image_pattern(&mut img, 70, 60, 250, 180, 0.28, 0.62);
    let r = detect(&img);
    assert_rect_close(r.rect, (70, 60, 180, 120), 14);
    assert!(
        r.rect.x >= 50 && r.rect.x + r.rect.width <= 270,
        "crop swallowed the lightbox: {:?}",
        r.rect
    );
    assert_eq!(r.surround, SurroundClass::BrightLight);
}

#[test]
fn chromatic_blue_narrowband_surround() {
    let (w, h) = (320, 240);
    let mut img = Img::new(w, h);
    // Film-base D-min turns open narrowband LED blue: mean T ~1.27, max 1.8.
    for y in 0..h {
        for x in 0..w {
            let n = 0.04 * ((x as f32) * 0.29).sin() + 0.03 * ((y as f32) * 0.23).sin();
            *img.at(y, x, 0) = 0.90 + n;
            *img.at(y, x, 1) = 1.10 + n;
            *img.at(y, x, 2) = 1.80 + n;
        }
    }
    fill_image_pattern(&mut img, 70, 60, 250, 180, 0.28, 0.62);
    let r = detect(&img);
    assert_rect_close(r.rect, (70, 60, 180, 120), 14);
    assert!(
        r.rect.x >= 50 && r.rect.x + r.rect.width <= 270,
        "crop swallowed the blue lightbox: {:?}",
        r.rect
    );
    assert_eq!(r.surround, SurroundClass::BrightLight);
}

#[test]
fn dark_surround_bright_film() {
    // DSC00931-style: inverted preview looks white around a dark frame,
    // but after D-min the surround is low-T and the film (thin/dark scene) is high-T.
    let (w, h) = (320, 240);
    let mut img = canvas(w, h, 0.22);
    for y in 0..h {
        for x in 0..w {
            let n = 0.03 * ((x as f32) * 0.19).sin();
            set_rgb(&mut img, x, y, 0.22 + n);
        }
    }
    fill_image_pattern(&mut img, 36, 16, 278, 218, 0.80, 0.96);
    fill_rect(&mut img, 36, 170, 278, 218, 0.14);
    let r = detect(&img);
    assert_rect_close(r.rect, (36, 16, 242, 202), 16);
    assert!(
        r.rect.x >= 20 && r.rect.x + r.rect.width <= 300,
        "crop included the dark surround: {:?}",
        r.rect
    );
    assert_eq!(r.surround, SurroundClass::DarkHolder);
}

#[test]
fn dark_and_bright_halves_inside_holder() {
    // Concert-style: one side of the film is dense (low T), the other is thin.
    // The bright-seed path must grow back into the dark half.
    let (w, h) = (320, 240);
    let mut img = canvas(w, h, 0.03);
    fill_image_pattern(&mut img, 36, 28, 156, 212, 0.22, 0.40);
    fill_image_pattern(&mut img, 156, 28, 278, 212, 0.78, 0.94);
    let r = detect(&img);
    assert_rect_close(r.rect, (36, 28, 242, 184), 18);
    assert!(
        r.rect.x <= 48 && r.rect.x + r.rect.width >= 260,
        "missed the dark half: {:?}",
        r.rect
    );
}

#[test]
fn votes_need_two_sides() {
    let (l, h, r, m) = (
        SurroundClass::BrightLight,
        SurroundClass::DarkHolder,
        SurroundClass::FilmRebate,
        SurroundClass::Mixed,
    );
    assert_eq!(vote_surround(&[h, h, m, m]), h);
    assert_eq!(vote_surround(&[h, m, m, m]), m);
    assert_eq!(vote_surround(&[h, h, l, l]), h);
    assert_eq!(vote_surround(&[l, r, l, r]), l);
    assert_eq!(vote_surround(&[r, r, r, l]), r);
    assert_eq!(vote_surround(&[h, l, r, m]), m);
}

#[test]
fn aspects_snap_to_still_formats() {
    let b = |l, r, t, o| Bounds { left: l, right: r, top: t, bottom: o };
    // exactly 3:2 stays
    assert_eq!(snap_aspect(b(0, 300, 0, 200)), (b(0, 300, 0, 200), Some(FilmFormat::Still35)));
    // a little wide: the width is cut
    assert_eq!(snap_aspect(b(10, 318, 0, 200)), (b(14, 314, 0, 200), Some(FilmFormat::Still35)));
    // a little tall: the height is cut
    assert_eq!(snap_aspect(b(0, 300, 10, 215)), (b(0, 300, 13, 212), Some(FilmFormat::Still35)));
    assert_eq!(snap_aspect(b(0, 500, 0, 100)), (b(0, 500, 0, 100), None));
}

#[test]
fn aspects_match_single_precision() {
    const CANDIDATES: [(f32, FilmFormat); 9] = [
        (3.0 / 2.0, FilmFormat::Still35),
        (2.0 / 3.0, FilmFormat::Still35),
        (1.0, FilmFormat::Square),
        (6.0 / 7.0, FilmFormat::SixBySeven),
        (7.0 / 6.0, FilmFormat::SixBySeven),
        (4.0 / 3.0, FilmFormat::FourByThree),
        (3.0 / 4.0, FilmFormat::FourByThree),
        (5.0 / 4.0, FilmFormat::FourByFive),
        (4.0 / 5.0, FilmFormat::FourByFive),
    ];
    for w in 1..130usize {
        for h in 1..130usize {
            let ratio = w as f32 / h as f32;
            let mut best: Option<(f32, FilmFormat)> = None;
            for (target, fmt) in CANDIDATES {
                let err = (ratio - target).abs() / target;
                if err < 0.045 && best.map(|(e, _)| err < e).unwrap_or(true) {
                    best = Some((err, fmt));
                }
            }
            let got = snap_aspect(Bounds { left: 5, right: 5 + w, top: 7, bottom: 7 + h });
            assert_eq!(got.1, best.map(|(_, f)| f));
            assert!(got.0.left >= 5 && got.0.right <= 5 + w);
            assert!(got.0.top >= 7 && got.0.bottom <= 7 + h);
        }
    }
}

#[test]
fn insets_follow_size_and_margin() {
    let b = Bounds { left: 30, right: 530, top: 40, bottom: 440 };
    assert_eq!(
        inset_bounds(b, 600, 500),
        Bounds { left: 32, right: 528, top: 42, bottom: 438 }
    );
    // a margin of 2 leaves no room
    let tight = Bounds { left: 2, right: 530, top: 40, bottom: 440 };
    assert_eq!(inset_bounds(tight, 600, 500), tight);
    // beyond the frame nothing is done
    assert_eq!(inset_bounds(b, 500, 500), b);
}

#[test]
fn clamped_rects() {
    let r = |x, y, width, height| Rect { x, y, width, height };
    assert_eq!(clamp_rect(r(5, 6, 100, 100), 50, 40), Some(r(5, 6, 45, 34)));
    assert_eq!(clamp_rect(r(45, 6, 100, 100), 50, 40), None);
    assert_eq!(clamp_rect(r(0, 0, 100, 100), 0, 40), None);
    assert_eq!(clamp_rect(r(500, 0, 100, 100), 50, 40), None);
}

#[test]
fn complete_seeds() {
    let b = |l, r, t, o| Bounds { left: l, right: r, top: t, bottom: o };
    assert!(seed_looks_complete(360, 240, b(30, 330, 20, 220)));
    assert!(!seed_looks_complete(360, 240, b(30, 130, 20, 220)));
    assert!(!seed_looks_complete(360, 240, b(30, 30, 20, 220)));
    assert!(!seed_looks_complete(0, 0, b(0, 1, 0, 5)));
}

#[test]
fn small_or_grey_images_have_no_crop() {
    let mut f = Img::new(15, 40).film();
    assert!(detect_crop(&f, None, None).is_none());
    f = Img::new(40, 40).film();
    f.channels = 1;
    f.samples.truncate(1600);
    assert!(detect_crop(&f, None, None).is_none());
}

#[test]
fn large_scans_are_reduced_by_block_means() {
    let mut img = Img::new(800, 100);
    for y in 0..100 {
        for x in 0..800 {
            *img.at(y, x, 0) = x as f32 * 0.001;
            *img.at(y, x, 1) = y as f32 * 0.01;
            *img.at(y, x, 2) = 0.3;
        }
    }
    let small = downsample_to_max_side(&img.film(), 384);
    assert_eq!((small.width, small.height), (384, 48));
    for (x, y) in [(0usize, 0usize), (100, 20), (383, 47)] {
        let (x0, y0) = (x * 800 / 384, y * 100 / 48);
        let (x1, y1) = ((x + 1) * 800 / 384, (y + 1) * 100 / 48);
        let mut s = [0.0f32; 3];
        let mut n = 0.0f32;
        for yy in y0..y1 {
            for xx in x0..x1 {
                for c in 0..3 {
                    s[c] += *img.at(yy, xx, c);
                }
                n += 1.0;
            }
        }
        for c in 0..3 {
            assert_eq!(small.samples[(y * 384 + x) * 3 + c].bits, (s[c] / n).to_bits());
        }
    }
}

#[test]
fn large_frames_are_found_too() {
    let (w, h) = (320, 240);
    let mut img = canvas(w, h, 0.02);
    fill_image_pattern(&mut img, 36, 36, w - 36, h - 36, 0.28, 0.70);
    let mut big = Img::new(2 * w, 2 * h);
    for y in 0..2 * h {
        for x in 0..2 * w {
            for c in 0..3 {
                *big.at(y, x, c) = *img.at(y / 2, x / 2, c);
            }
        }
    }
    let r = detect(&big);
    assert_rect_close(r.rect, (72, 72, 496, 336), 20);
    assert_eq!(r.reference_size, (640, 480));
    assert_eq!(r.surround, SurroundClass::DarkHolder);
}

#[test]
fn open_light_is_no_picture_however_grainy() {
    let v = |x: f32| Single { bits: x.to_bits() };
    let l = pixel_levels(v(0.8), v(0.02), Some(v(0.95)), v(0.1));
    assert!(classify_image_pixel(v(0.5), v(0.6), v(0.5), &l));
    assert!(!classify_image_pixel(v(0.5), v(0.9), v(0.5), &l));
    assert!(!classify_image_pixel(v(0.5), v(1.2), v(0.5), &l));
    assert!(!classify_image_pixel(v(0.04), v(0.05), v(0.5), &l));
    // Flat values close to the outer band are not promoted; flat dye is.
    assert!(!classify_image_pixel(v(0.12), v(0.12), v(0.0), &l));
    assert!(classify_image_pixel(v(0.4), v(0.4), v(0.0), &l));
}

#[test]
fn formats_are_cut_inwards() {
    for w in 1..120usize {
        for h in 1..120usize {
            let b = Bounds { left: 3, right: 3 + w, top: 4, bottom: 4 + h };
            let (r, _) = snap_aspect(b);
            assert!(b.left <= r.left && r.right <= b.right);
            assert!(b.top <= r.top && r.bottom <= b.bottom);
        }
    }
}

#[test]
fn edges_only_move_in() {
    for w in (1..40usize).chain([299, 300, 305, 311, 1000, 1 << 24, (1 << 24) + 3, 1 << 30]) {
        for h in (1..40usize).chain([200, 207, 666, 1 << 24, 1 << 29]) {
            let b = Bounds { left: 3, right: 3 + w, top: 5, bottom: 5 + h };
            let (r, _) = snap_aspect(b);
            assert!(r.left >= b.left && r.right <= b.right && r.left < r.right);
            assert!(r.top >= b.top && r.bottom <= b.bottom && r.top < r.bottom);
            assert_eq!(r.left - b.left, b.right - r.right);
            assert_eq!(r.top - b.top, b.bottom - r.bottom);
            let i = inset_bounds(b, w + 40, h + 40);
            let d = i.left - b.left;
            assert!(d <= 6);
            assert_eq!((i.right, i.top, i.bottom), (b.right - d, b.top + d, b.bottom - d));
        }
    }
}

#[test]
fn base_samples_follow_their_reference_size() {
    let (w, h) = (320, 240);
    let mut img = canvas(w, h, 0.02);
    fill_rect(&mut img, 24, 24, w - 24, h - 24, 1.0);
    fill_image_pattern(&mut img, 40, 40, w - 40, h - 40, 0.32, 0.68);
    let hint = |k: u32| Some(Rect { x: 26 * k, y: 26 * k, width: 10 * k, height: 8 * k });
    let film = img.film();
    let same = detect_crop(&film, hint(1), Some((w as u32, h as u32))).unwrap();
    let doubled = detect_crop(&film, hint(2), Some((2 * w as u32, 2 * h as u32))).unwrap();
    assert_eq!(same.rect, doubled.rect);
    let own = detect_crop(&film, hint(1), None).unwrap();
    assert_eq!(same.rect, own.rect);
}
