use c41_darkroom::aces::{
    acescg_to_aces2065_1, acescg_to_linear_srgb, apply_idt, convert_density_matrix_to_acescg,
    convert_density_matrix_to_srgb, convert_u16_linear_acescg_to_linear_srgb, is_identity,
    linear_acescg_to_aces2065_1, linear_acescg_to_linear_srgb, linear_print_to_aces2065_1,
    linear_srgb_to_acescg, Matrix,
};
use c41_darkroom::calibration::{
    calibrate, chart_base, chart_source, chart_squares, colorchecker_classic_srgb_8bit, compute_patch_centers_normalized,
    drag_chart_corner, drag_chart_handle, linear_to_density_24, mean_squared_error, patch_box, profile_file,
    reference_density_24, sample_patch_medians, solve_density_matrix_ols, BaseRemoval, ChartCorners,
    ChartSource, ProfileFile,
};
use c41_darkroom::canvas::Point;
use c41_darkroom::cms::{
    display_u8_from_linear, encode_preview, export_from_encoded_f32, export_from_u16,
    export_u16_from_linear, export_u8_from_linear, icc_header_present, icc_name,
    icc_verdict, linear_from_encoded, linear_from_u16, plain_u8, preview_u8, srgb_u16_from_linear, srgb_u8_from_linear,
    srgb_u8_from_u16, validate_icc_file, CmsError, IccSource, Step6Display,
};
use c41_darkroom::color::{
    apply_density_levels, apply_lab_separation_f32, apply_lab_separation_u16,
    density_to_rec709_leveled, lab_gain, lab_to_xyz, parts_of_white, rgb_linear_to_xyz,
    temp_k_to_wb_gains, xyz_to_lab, xyz_to_rgb_linear, Levels, Triple,
};
use c41_darkroom::color_space::{
    apply_input_idt_to_working_space, encode_linear_u16_to_srgb, linear_to_srgb, linear_to_srgb_u16,
    linear_to_srgb_u8, srgb_to_linear, working_primaries, ColorDomain, ColorPrimaries, ColorState,
    TransferFn,
};
use c41_darkroom::curve::{
    apply_color_bleed, apply_curve_and_quantize, apply_curve_pipeline, apply_density_matrix_pixel,
    apply_vibrance_pixel, print_spread, CurvePipeline, DensityMatrix, FilmPrintParams,
    PrintCurveParams, Rgb,
};
use c41_darkroom::film::FilmImage;
use c41_darkroom::options::{
    default_options, unit_matrix, CmsIntent, CmsTarget, OutputIcc, Rect,
};
use c41_darkroom::panels::pick_white_balance;
use c41_darkroom::paper::{
    apply_film_print_from_density, apply_ra4_from_density, apply_ra4_from_density_f32,
    build_density_to_ra4_lut, build_t_to_density_lut, density_to_ra4, generate_16bit_lut,
    print_film_curve, soften_shoulder, transmittance_to_density,
};
use c41_darkroom::single::Single;
use c41_darkroom::stats::sorted;
use c41_darkroom::view::UvRect;

fn s(v: f32) -> Single {
    Single { bits: v.to_bits() }
}

fn f(v: Single) -> f32 {
    f32::from_bits(v.bits)
}

fn t(v: [f32; 3]) -> Triple {
    Triple { a: s(v[0]), b: s(v[1]), c: s(v[2]) }
}

fn n(v: Triple) -> [f32; 3] {
    [f(v.a), f(v.b), f(v.c)]
}

fn power(a: Single, b: Single) -> Single {
    s(f(a).powf(f(b)))
}

fn root(a: Single) -> Single {
    s(f(a).cbrt())
}

fn log10(a: Single) -> Single {
    s(f(a).log10())
}

fn ln(a: Single) -> Single {
    s(f(a).ln())
}

fn same(a: [f32; 3], b: [f32; 3]) {
    for i in 0..3 {
        assert_eq!(a[i].to_bits(), b[i].to_bits(), "{a:?} {b:?}");
    }
}

fn matrix(m: [[f32; 3]; 3]) -> Matrix {
    [
        [s(m[0][0]), s(m[0][1]), s(m[0][2])],
        [s(m[1][0]), s(m[1][1]), s(m[1][2])],
        [s(m[2][0]), s(m[2][1]), s(m[2][2])],
    ]
}

fn rows(m: Matrix) -> nalgebra::Matrix3<f32> {
    nalgebra::Matrix3::from_row_slice(&[
        f(m[0][0]), f(m[0][1]), f(m[0][2]),
        f(m[1][0]), f(m[1][1]), f(m[1][2]),
        f(m[2][0]), f(m[2][1]), f(m[2][2]),
    ])
}

fn from_rows(m: nalgebra::Matrix3<f32>) -> Matrix {
    matrix([
        [m[(0, 0)], m[(0, 1)], m[(0, 2)]],
        [m[(1, 0)], m[(1, 1)], m[(1, 2)]],
        [m[(2, 0)], m[(2, 1)], m[(2, 2)]],
    ])
}

fn invert(m: Matrix) -> Option<Matrix> {
    rows(m).try_inverse().map(from_rows)
}

fn multiply(a: Matrix, b: Matrix) -> Matrix {
    from_rows(rows(a) * rows(b))
}

fn picture(px: &[[f32; 3]]) -> FilmImage {
    FilmImage {
        width: px.len(),
        height: 1,
        channels: 3,
        samples: px.iter().flat_map(|p| p.iter().map(|v| s(*v))).collect(),
    }
}

fn pixels(img: &FilmImage) -> Vec<[f32; 3]> {
    img.samples.chunks(3).map(|p| [f(p[0]), f(p[1]), f(p[2])]).collect()
}

fn native_encode(v: f32) -> f32 {
    let x = v.clamp(0.0, 1.0);
    if x <= 0.003_130_8 {
        12.92 * x
    } else {
        1.055 * x.powf(1.0 / 2.4) - 0.055
    }
}

fn native_decode(v: f32) -> f32 {
    let x = v.clamp(0.0, 1.0);
    if x <= 0.04045 {
        x / 12.92
    } else {
        ((x + 0.055) / 1.055).powf(2.4)
    }
}

#[test]
fn oetf_roundtrip_mid_gray() {
    let lin = 0.18;
    let enc = linear_to_srgb(s(lin), &power);
    let back = f(srgb_to_linear(enc, &power));
    assert!((back - lin).abs() < 1e-5, "roundtrip {back} vs {lin}");
}

#[test]
fn identity_idt_is_noop() {
    let mut img = picture(&[[0.4, 0.5, 0.6]]);
    apply_input_idt_to_working_space(&mut img, &unit_matrix());
    assert!((f(img.samples[0]) - 0.4).abs() < 1e-6);
    assert!((f(img.samples[1]) - 0.5).abs() < 1e-6);
    assert!((f(img.samples[2]) - 0.6).abs() < 1e-6);
}

#[test]
fn acescg_to_srgb_preserves_neutral() {
    let mut img = picture(&[[0.5, 0.5, 0.5]]);
    apply_idt(&mut img, &acescg_to_linear_srgb());
    assert!((f(img.samples[0]) - 0.5).abs() < 1e-4);
    assert!((f(img.samples[1]) - 0.5).abs() < 1e-4);
    assert!((f(img.samples[2]) - 0.5).abs() < 1e-4);
}

#[test]
fn codes_agree_with_native_numbers() {
    for v in [-0.5f32, 0.0, 0.001, 0.0031308, 0.0032, 0.04045, 0.0405, 0.18, 0.5, 0.999, 1.0, 7.0] {
        assert_eq!(linear_to_srgb(s(v), &power).bits, native_encode(v).to_bits());
        assert_eq!(srgb_to_linear(s(v), &power).bits, native_decode(v).to_bits());
        assert_eq!(linear_to_srgb_u8(s(v), &power), (native_encode(v) * 255.0).round() as u8);
        assert_eq!(linear_to_srgb_u16(s(v), &power), (native_encode(v) * 65535.0).round() as u16);
    }
    let mut img: Vec<u16> = vec![0, 1, 300, 20000, 65535, 40000];
    let before = img.clone();
    encode_linear_u16_to_srgb(&mut img, &power);
    let scale = 1.0 / 65535.0f32;
    for i in 0..6 {
        assert_eq!(img[i], (native_encode(before[i] as f32 * scale) * 65535.0).round() as u16);
    }
}

#[test]
fn states_of_buffers() {
    let c = ColorState::camera_linear_t();
    assert_eq!(c.domain, ColorDomain::Transmittance);
    assert_eq!(c.primaries, ColorPrimaries::Camera);
    assert_eq!(ColorState::rec709_linear_t().primaries, ColorPrimaries::Rec709);
    assert_eq!(ColorState::camera_density().transfer, TransferFn::DensityLog);
    assert_eq!(ColorState::rec709_density().domain, ColorDomain::Density);
    assert_eq!(ColorState::linear_print().domain, ColorDomain::LinearPrint);
    assert_eq!(ColorState::srgb_display().transfer, TransferFn::Srgb);
    assert_eq!(working_primaries(&unit_matrix()), ColorPrimaries::Camera);
    let idt = matrix([[0.7, 0.2, 0.1], [0.1, 0.8, 0.1], [0.0, 0.1, 0.9]]);
    assert_eq!(working_primaries(&idt), ColorPrimaries::Rec709);
    assert!(is_identity(&matrix([[1.0, 1e-7, 0.0], [0.0, 1.0, 0.0], [0.0, 0.0, 1.0]])));
    assert!(!is_identity(&matrix([[1.0, 1e-5, 0.0], [0.0, 1.0, 0.0], [0.0, 0.0, 1.0]])));
}

const AP0: [[f32; 3]; 3] = [
    [0.695_452_241_4, 0.140_678_696_5, 0.163_869_062_2],
    [0.044_794_563_4, 0.859_671_118_5, 0.095_534_318_2],
    [-0.005_525_882_6, 0.004_025_210_3, 1.001_500_672_3],
];

const REC709: [[f32; 3]; 3] = [
    [1.705_051, -0.621_815, -0.083_236],
    [-0.130_256, 1.140_801, -0.010_545],
    [-0.024_007, -0.128_984, 1.152_991],
];

fn through(m: [[f32; 3]; 3], v: [f32; 3]) -> [f32; 3] {
    let row = |i: usize| m[i][0] * v[0] + m[i][1] * v[1] + m[i][2] * v[2];
    [row(0), row(1), row(2)]
}

#[test]
fn matrices_hold_their_numbers() {
    assert_eq!(acescg_to_aces2065_1(), matrix(AP0));
    assert_eq!(acescg_to_linear_srgb(), matrix(REC709));
    let v = [0.3, 0.6, 0.1];
    let mut img = picture(&[v, [1.0, -0.2, 2.0]]);
    linear_acescg_to_aces2065_1(&mut img);
    same(pixels(&img)[0], through(AP0, v));
    let mut img = picture(&[v]);
    linear_acescg_to_linear_srgb(&mut img);
    same(pixels(&img)[0], through(REC709, v));
}

#[test]
fn camera_rgb_goes_through_acescg() {
    let idt = [[0.7, 0.2, 0.1], [0.1, 0.8, 0.1], [0.0, 0.1, 0.9]];
    let v = [0.3, 0.05, 0.9];
    let mut img = picture(&[v]);
    apply_input_idt_to_working_space(&mut img, &matrix(idt));
    let want = through(REC709, through(idt, v));
    same(pixels(&img)[0], [want[0].max(0.0), want[1].max(0.0), want[2].max(0.0)]);
}

#[test]
fn prints_go_to_aces_by_the_inverse() {
    let v = [0.2, 0.5, 0.7];
    let inv = invert(matrix(REC709)).unwrap();
    let mut img = picture(&[v]);
    linear_srgb_to_acescg(&mut img, &invert);
    let m = rows(inv);
    let back = through(
        [
            [m[(0, 0)], m[(0, 1)], m[(0, 2)]],
            [m[(1, 0)], m[(1, 1)], m[(1, 2)]],
            [m[(2, 0)], m[(2, 1)], m[(2, 2)]],
        ],
        v,
    );
    same(pixels(&img)[0], back);
    let mut img = picture(&[v]);
    linear_print_to_aces2065_1(&mut img, true, &invert);
    same(pixels(&img)[0], through(AP0, back));
    let mut img = picture(&[v]);
    linear_print_to_aces2065_1(&mut img, false, &invert);
    same(pixels(&img)[0], v);
    let mut img = picture(&[v]);
    linear_srgb_to_acescg(&mut img, &|_: Matrix| None);
    same(pixels(&img)[0], v);
}

#[test]
fn prints_of_sixteen_bits_change_primaries() {
    let mut img: Vec<u16> = vec![0, 65535, 30000, 12345, 23456, 34567];
    let before = img.clone();
    convert_u16_linear_acescg_to_linear_srgb(&mut img);
    let scale = 1.0 / 65535.0f32;
    for p in 0..2 {
        let v = [0, 1, 2].map(|c| before[3 * p + c] as f32 * scale);
        let want = through(REC709, v);
        for c in 0..3 {
            assert_eq!(img[3 * p + c], (want[c].clamp(0.0, 1.0) * 65535.0).round() as u16);
        }
    }
}

#[test]
fn density_matrices_move_between_spaces() {
    let m = matrix([[1.1, -0.1, 0.0], [0.05, 0.9, 0.05], [0.0, -0.2, 1.2]]);
    let idt = matrix([[0.7, 0.2, 0.1], [0.1, 0.8, 0.1], [0.0, 0.1, 0.9]]);
    let moved = convert_density_matrix_to_acescg(m, &idt, &invert, &multiply);
    let want = rows(idt) * rows(m) * rows(idt).try_inverse().unwrap();
    assert_eq!(moved, from_rows(want));
    let singular = matrix([[0.0; 3]; 3]);
    assert_eq!(convert_density_matrix_to_acescg(m, &singular, &invert, &multiply), m);
    let combined = rows(matrix(REC709)) * rows(idt);
    let srgb = convert_density_matrix_to_srgb(m, &idt, &invert, &multiply);
    assert_eq!(srgb, from_rows(combined * rows(m) * combined.try_inverse().unwrap()));
}

fn native_lab(x: f32, y: f32, z: f32) -> [f32; 3] {
    let g = |t: f32| {
        const EPS: f32 = 216.0 / 24389.0;
        const KAPPA: f32 = 24389.0 / 27.0;
        if t > EPS { t.cbrt() } else { (KAPPA * t + 16.0) / 116.0 }
    };
    let (fx, fy, fz) = (g(x / 0.95047), g(y / 1.0), g(z / 1.08883));
    [116.0 * fy - 16.0, 500.0 * (fx - fy), 200.0 * (fy - fz)]
}

fn native_unlab(l: f32, a: f32, b: f32) -> [f32; 3] {
    let fy = (l + 16.0) / 116.0;
    let fx = fy + a / 500.0;
    let fz = fy - b / 200.0;
    let g = |t: f32| {
        const EPS: f32 = 216.0 / 24389.0;
        const KAPPA: f32 = 24389.0 / 27.0;
        let t3 = t * t * t;
        if t3 > EPS { t3 } else { (116.0 * t - 16.0) / KAPPA }
    };
    [g(fx) * 0.95047, g(fy) * 1.0, g(fz) * 1.08883]
}

fn native_xyz(v: [f32; 3]) -> [f32; 3] {
    [
        0.4124564 * v[0] + 0.3575761 * v[1] + 0.1804375 * v[2],
        0.2126729 * v[0] + 0.7151522 * v[1] + 0.0721750 * v[2],
        0.0193339 * v[0] + 0.1191920 * v[1] + 0.9503041 * v[2],
    ]
}

fn native_rgb(v: [f32; 3]) -> [f32; 3] {
    [
        3.2404542 * v[0] - 1.5371385 * v[1] - 0.4985314 * v[2],
        -0.9692660 * v[0] + 1.8760108 * v[1] + 0.0415560 * v[2],
        0.0556434 * v[0] - 0.2040259 * v[1] + 1.0572252 * v[2],
    ]
}

fn native_separate(px: [f32; 3], strength: f32) -> [f32; 3] {
    let s = strength.clamp(-2.0, 2.0);
    let lin = px.map(|v| native_decode(v.clamp(0.0, 1.0)));
    let xyz = native_xyz(lin);
    let [l, a, b] = native_lab(xyz[0], xyz[1], xyz[2]);
    let c_ab = (a * a + b * b).sqrt();
    if c_ab < 1e-4 {
        return px;
    }
    let c_norm = (c_ab / 100.0).clamp(0.0, 1.0);
    let mid_boost = 1.0 + s * (c_norm * (1.0 - c_norm)) * 2.0;
    let edge_soften = 1.0 + 0.2 * s * (1.0 - c_norm);
    let gain = (mid_boost * edge_soften).max(0.0);
    let xyz = native_unlab(l, a * gain, b * gain);
    native_rgb(xyz).map(|v| native_encode(v).clamp(0.0, 1.0))
}

#[test]
fn lab_agrees_with_native_numbers() {
    for v in [[0.0, 0.0, 0.0], [0.18, 0.18, 0.18], [0.9, 0.1, 0.3], [0.001, 0.002, 0.9]] {
        let xyz = native_xyz(v);
        same(n(rgb_linear_to_xyz(t(v))), xyz);
        same(n(xyz_to_rgb_linear(t(xyz))), native_rgb(xyz));
        let parts = parts_of_white(t(xyz));
        let roots = Triple { a: root(parts.a), b: root(parts.b), c: root(parts.c) };
        let lab = native_lab(xyz[0], xyz[1], xyz[2]);
        same(n(xyz_to_lab(parts, roots)), lab);
        same(n(lab_to_xyz(t(lab))), native_unlab(lab[0], lab[1], lab[2]));
    }
    assert!(lab_gain(t([50.0, 0.0, 0.0]), s(1.0)).is_none());
    assert!(lab_gain(t([50.0, 20.0, 0.0]), s(1.0)).is_some());
}

#[test]
fn separation_agrees_with_native_numbers() {
    let px = [[0.5, 0.5, 0.5], [0.8, 0.3, 0.2], [0.1, 0.9, 0.4], [1.2, -0.1, 0.6]];
    for strength in [0.5f32, 1.5, -1.0, 9.0] {
        let mut img = picture(&px);
        apply_lab_separation_f32(&mut img, s(strength), &power, &root);
        let got = pixels(&img);
        for i in 0..4 {
            same(got[i], native_separate(px[i], strength));
        }
    }
    let mut img = picture(&px);
    apply_lab_separation_f32(&mut img, s(1e-7), &power, &root);
    assert_eq!(pixels(&img), px.to_vec());
    let mut codes: Vec<u16> = vec![100, 40000, 65535];
    apply_lab_separation_u16(&mut codes, s(1.0), &power, &root);
    let inv = 1.0 / 65535.0f32;
    let want = native_separate([100.0 * inv, 40000.0 * inv, 65535.0 * inv], 1.0);
    for c in 0..3 {
        assert_eq!(codes[c], (want[c].clamp(0.0, 1.0) * 65535.0).round() as u16);
    }
}

#[test]
fn levels_agree_with_native_numbers() {
    let px = [[0.0, 0.3, 1.0], [2.5, 3.0, -0.2]];
    let (black, white, mid) = (0.05f32, 0.9f32, 1.2f32);
    let levels = Levels { black: s(black), white: s(white), mid: s(mid) };
    let range = (white - black).max(1e-6);
    let inv_mid = 1.0 / mid.clamp(0.01, 10.0);
    let mut img = picture(&px);
    apply_density_levels(&mut img, s(2.0), levels, &power);
    for (got, p) in pixels(&img).iter().zip(px) {
        same(*got, p.map(|v| {
            let v = (v / 2.0).clamp(0.0, 1.0);
            ((v - black) / range).clamp(0.0, 1.0).powf(inv_mid)
        }));
    }
    let mut img = picture(&px);
    density_to_rec709_leveled(&mut img, levels, &power);
    for (got, p) in pixels(&img).iter().zip(px) {
        same(*got, p.map(|v| {
            let v = native_encode((v / 2.5).clamp(0.0, 1.0));
            ((v - black) / range).clamp(0.0, 1.0).powf(inv_mid)
        }));
    }
    let plain = Levels { black: s(0.0), white: s(1.0), mid: s(1.0) };
    assert!(!plain.bends());
    assert_eq!(f(plain.stretched(s(0.37))), 0.37);
}

#[test]
fn white_balance_of_a_temperature() {
    for k in [500.0f32, 2000.0, 3200.0, 5500.0, 6600.0, 6700.0, 9000.0, 90000.0] {
        let t = (k / 100.0).clamp(1.0, 400.0);
        let (r, g, b) = if t <= 66.0 {
            let g = 99.4708025861 * t.ln() - 161.1195681661;
            let b = if t > 19.0 { 138.5177312231 * (t - 10.0).ln() - 305.0447927307 } else { 0.0 };
            (255.0, g.clamp(0.0, 255.0), b.clamp(0.0, 255.0))
        } else {
            let r = 329.698727446 * (t - 60.0).powf(-0.1332047592);
            let g = 288.1221695283 * (t - 60.0).powf(-0.0755148492);
            (r.clamp(0.0, 255.0), g.clamp(0.0, 255.0), 255.0)
        };
        let (gr, gg, gb) = (255.0 / r.max(1.0), 255.0 / g.max(1.0), 255.0 / b.max(1.0));
        let geom = (gr * gg * gb).cbrt();
        let got = n(temp_k_to_wb_gains(s(k), &ln, &power, &root));
        same(got, [gr / geom, gg / geom, gb / geom]);
    }
}

fn params() -> PrintCurveParams {
    PrintCurveParams { offset: s(0.05), gamma: s(2.5), pivot: s(3.0) }
}

fn native_ra4(d: f32, offset: f32, gamma: f32, pivot: f32) -> f32 {
    let e = 10.0f32.powf(d.max(0.0) + offset);
    let eg = e.powf(gamma);
    let pg = pivot.powf(gamma);
    (eg / (eg + pg)).clamp(0.0, 1.0)
}

fn native_shoulder(y: f32) -> f32 {
    if y > 0.93 {
        let t = (y - 0.93) / (1.0 - 0.93);
        0.93 + (1.0 - (1.0 - t).powf(1.5)) * (1.0 - 0.93)
    } else {
        y
    }
}

#[test]
fn paper_agrees_with_native_numbers() {
    for d in [-1.0f32, 0.0, 0.2, 0.5, 1.0, 2.0, 3.0] {
        let y = native_ra4(d, 0.05, 2.5, 3.0);
        assert_eq!(density_to_ra4(s(d), &params(), &power).bits, y.to_bits());
        assert_eq!(soften_shoulder(s(y), &power).bits, native_shoulder(y).to_bits());
    }
    for v in [0.0f32, 1e-7, 0.01, 0.33, 1.0, 2.0] {
        let t = v.clamp(1e-6, 1.0);
        assert_eq!(transmittance_to_density(s(v), s(1e-6), &log10).bits, (-t.log10()).to_bits());
        let (ten, gamma, pivot) = std::hint::black_box((10.0f32, 2.5f32, 3.0f32));
        let eg = ten.powf(-t.log10() + 0.05).powf(gamma);
        let y = (eg / (eg + pivot.powf(gamma))).clamp(0.0, 1.0);
        assert_eq!(print_film_curve(s(v), &params(), &log10, &power).bits, y.to_bits());
    }
}

#[test]
fn tables_of_the_paper() {
    let lut = generate_16bit_lut(&params(), &log10, &power);
    assert_eq!(lut.len(), 65536);
    // Clear film prints dark, dense film bright.
    assert!(lut[65535] < lut[1000]);
    let d = build_t_to_density_lut(s(1e-6), &log10);
    assert_eq!(d.len(), 65536);
    assert_eq!(f(d[65535]), -0.0);
    assert_eq!(f(d[0]), -(1e-6f32).log10());
    let p = build_density_to_ra4_lut(&params(), s(3.0), &power);
    for i in [0usize, 1, 777, 30000, 65535] {
        let y = native_shoulder(native_ra4((i as f32 / 65535.0) * 3.0, 0.05, 2.5, 3.0));
        assert_eq!(p[i], (y * 65535.0).round() as u16);
    }
}

#[test]
fn prints_of_densities() {
    let px = [[0.0, 0.5, 1.0], [2.0, 4.0, -1.0]];
    let img = picture(&px);
    let lut = build_density_to_ra4_lut(&params(), s(3.0), &power);
    let out = apply_ra4_from_density(&img, &params(), s(3.0), s(1.0), &power);
    let white = apply_ra4_from_density(&img, &params(), s(3.0), s(0.8), &power);
    for (i, d) in px.iter().flatten().enumerate() {
        let at = (d.clamp(0.0, 3.0) / 3.0 * 65535.0).round() as usize;
        assert_eq!(out[i], lut[at]);
        let scaled = (lut[at] as f32 / 65535.0 * (1.0 / 0.8)).clamp(0.0, 1.0);
        assert_eq!(white[i], (scaled * 65535.0).round() as u16);
    }
    let linear = apply_ra4_from_density_f32(&img, &params(), s(3.0), &power);
    for (v, d) in linear.samples.iter().zip(px.iter().flatten()) {
        assert_eq!(f(*v), native_ra4(d.clamp(0.0, 3.0), 0.05, 2.5, 3.0));
    }
}

#[test]
fn curve_by_table_reads_the_nearest_entry() {
    let lut: Vec<u16> = (0..=65535u16).rev().collect();
    let img = picture(&[[0.0, 1.0, 0.5], [-3.0, 9.0, 0.25]]);
    let out = apply_curve_and_quantize(&img, &lut, s(1.0));
    assert_eq!(out, [65535, 0, 65535 - 32768, 65535, 0, 65535 - 16384]);
    let spread = print_spread(&vec![0, 256 * 10, 256 * 20, 65535]).unwrap();
    assert_eq!((spread.min, spread.max), (0, 255));
    assert!(print_spread(&vec![]).is_none());
}

#[test]
fn pipeline_of_a_print() {
    let m = DensityMatrix { m: matrix([[1.0, 0.1, 0.0], [0.0, 1.0, 0.0], [0.0, -0.1, 1.1]]) };
    let direct = CurvePipeline::new(&params(), m, s(3.0), false, &log10, &power);
    assert_eq!(direct.params, params());
    assert!(direct.t_to_d_lut.is_empty());
    let table = CurvePipeline::new(&params(), m, s(3.0), true, &log10, &power);
    assert_eq!(table.t_to_d_lut.len(), 65536);
    let px = [[0.1, 0.5, 0.9], [1.0, 0.0, 0.33]];
    let img = picture(&px);
    let no_cube: Option<&fn(Single, Single, Single) -> Rgb> = None;
    let out = apply_curve_pipeline(&img, &direct, no_cube, s(1.0), &log10);
    for p in 0..2 {
        let d = px[p].map(|v: f32| -(v.clamp(0.0, 1.0).clamp(1e-6, 1.0).log10()));
        let d = [
            1.0 * d[0] + 0.1 * d[1] + 0.0 * d[2],
            0.0 * d[0] + 1.0 * d[1] + 0.0 * d[2],
            0.0 * d[0] + -0.1 * d[1] + 1.1 * d[2],
        ];
        let got = apply_density_matrix_pixel([s(d[0]), s(d[1]), s(d[2])], &m);
        assert_eq!(got.len(), 3);
        for c in 0..3 {
            let at = (d[c].clamp(0.0, 3.0) / 3.0 * 65535.0).round() as usize;
            assert_eq!(out[3 * p + c], direct.d_to_u16_lut[at]);
        }
    }
    let flat = |_: Single, _: Single, _: Single| -> Rgb { (s(1.0), s(1.0), s(1.0)) };
    let cubed = apply_curve_pipeline(&img, &table, Some(&flat), s(1.0), &log10);
    assert!(cubed.iter().all(|v| *v == cubed[0]));
}

fn native_vibrance(r: f32, g: f32, b: f32, strength: f32) -> [f32; 3] {
    if strength.abs() < 1e-6 {
        return [r, g, b];
    }
    let luma = 0.2126 * r + 0.7152 * g + 0.0722 * b;
    let chroma = r.max(g).max(b) - r.min(g).min(b);
    let boost = 1.0 + strength * (1.0 - chroma.clamp(0.0, 1.0));
    [r, g, b].map(|v| (luma + (v - luma) * boost).clamp(0.0, 1.0))
}

#[test]
fn film_print_agrees_with_native_numbers() {
    let p = FilmPrintParams {
        base: params(),
        offset_rgb: [s(0.0), s(0.05), s(-0.05)],
        gamma_rgb: [s(1.0), s(1.1), s(0.01)],
        white_point: s(0.95),
        color_bleed: s(0.2),
        vibrance: s(0.6),
    };
    let px = [[0.2, 0.7, 1.1], [2.0, 0.0, 5.0]];
    let out = apply_film_print_from_density(&picture(&px), &p, s(3.0), &power);
    let offsets = [0.05f32 + 0.0, 0.05 + 0.05, 0.05 - 0.05];
    let gammas = [(2.5f32 * 1.0).max(0.1), (2.5 * 1.1f32).max(0.1), (2.5 * 0.01f32).max(0.1)];
    for (i, d) in px.iter().enumerate() {
        let (keep, half) = (1.0 - 0.2f32, 0.2 * 0.5f32);
        let d = [
            d[0] * keep + d[1] * half + d[2] * half,
            d[1] * keep + d[0] * half + d[2] * half,
            d[2] * keep + d[0] * half + d[1] * half,
        ];
        let mut rgb = [0.0f32; 3];
        for c in 0..3 {
            let at = (d[c].clamp(0.0, 3.0) / 3.0 * 65535.0).round().min(65535.0) as usize;
            let y = native_shoulder(native_ra4((at as f32 / 65535.0) * 3.0, offsets[c], gammas[c], 3.0));
            let code = (y * 65535.0).round() as u16;
            rgb[c] = (code as f32 / 65535.0 * (1.0 / 0.95)).clamp(0.0, 1.0);
        }
        let v = native_vibrance(rgb[0], rgb[1], rgb[2], 0.6);
        for c in 0..3 {
            assert_eq!(out[3 * i + c], (v[c].clamp(0.0, 1.0) * 65535.0).round() as u16);
        }
    }
    let (a, b, c) = apply_color_bleed(s(0.1), s(0.2), s(0.3), s(0.0));
    same([f(a), f(b), f(c)], [0.1, 0.2, 0.3]);
    let (a, b, c) = apply_vibrance_pixel(s(0.1), s(0.2), s(0.3), s(0.0));
    same([f(a), f(b), f(c)], [0.1, 0.2, 0.3]);
}

#[test]
fn chart_of_a_calibration() {
    let chart = colorchecker_classic_srgb_8bit();
    assert_eq!(chart.len(), 24);
    assert_eq!(chart[0], (0x73, 0x52, 0x44));
    assert_eq!(chart[23], (0x34, 0x34, 0x34));
    let reference = reference_density_24(&log10, &power);
    let lin = |c: u8| {
        let v = c as f32 / 255.0;
        if v <= 0.04045 { v / 12.92 } else { ((v + 0.055) / 1.055).powf(2.4) }
    };
    for (d, c) in reference.iter().zip(&chart) {
        let want = [c.0, c.1, c.2].map(|v| -(lin(v).clamp(1e-6, 1.0).log10()));
        same(n(*d), want);
    }
    let flat = vec![t([0.1, 0.01, 2.0]); 24];
    let d = linear_to_density_24(&flat, &log10);
    same(n(d[23]), [-(0.1f32.log10()), -(0.01f32.log10()), -(1.0f32.log10())]);
}

#[test]
fn patches_lie_between_the_corners() {
    let p = |x: f32, y: f32| Point { x: s(x), y: s(y) };
    let corners = ChartCorners {
        top_left: p(0.0, 0.0),
        top_right: p(1.0, 0.0),
        bottom_left: p(0.0, 1.0),
        bottom_right: p(1.0, 1.0),
    };
    let at = compute_patch_centers_normalized(corners);
    assert_eq!(at.len(), 24);
    assert_eq!((f(at[0].x), f(at[0].y)), (0.0, 0.0));
    assert_eq!((f(at[5].x), f(at[5].y)), (1.0, 0.0));
    assert_eq!((f(at[23].x), f(at[23].y)), (1.0, 1.0));
    assert_eq!(f(at[1].x), 0.2);
    let b = patch_box(p(0.5, 0.5), s(2.0), 11, 21);
    assert_eq!((b.x_min, b.x_max, b.y_min, b.y_max), (3, 7, 8, 12));
    let edge = patch_box(p(0.0, 2.0), s(3.5), 11, 21);
    assert_eq!((edge.x_min, edge.x_max, edge.y_min, edge.y_max), (0, 4, 16, 20));
    assert!(f(ChartCorners::centred().top_left.x) < f(ChartCorners::centred().top_right.x));
}

#[test]
fn medians_of_the_patches() {
    let mut img = FilmImage { width: 12, height: 8, channels: 3, samples: Vec::new() };
    for y in 0..8 {
        for x in 0..12 {
            img.samples.extend([s(x as f32), s(y as f32), s((x * y) as f32)]);
        }
    }
    let mid = Point { x: s(0.5), y: s(0.5) };
    let m = sample_patch_medians(&img, &vec![mid], s(1.0));
    let (mut r, mut g, mut b) = (Vec::new(), Vec::new(), Vec::new());
    for y in 2..=5 {
        for x in 4..=7 {
            r.push(x as f32);
            g.push(y as f32);
            b.push((x * y) as f32);
        }
    }
    for v in [&mut r, &mut g, &mut b] {
        v.sort_by(|a, b| a.partial_cmp(b).unwrap());
    }
    same(n(m[0]), [r[8], g[8], b[8]]);
}

fn row_matrix(v: &Vec<Triple>) -> nalgebra::DMatrix<f32> {
    nalgebra::DMatrix::from_fn(v.len(), 3, |i, c| n(v[i])[c])
}

fn gram(x: &Vec<Triple>, y: &Vec<Triple>) -> Matrix {
    let m = row_matrix(x).transpose() * row_matrix(y);
    let row = |r: usize| [m[(r, 0)], m[(r, 1)], m[(r, 2)]];
    matrix([row(0), row(1), row(2)])
}

fn apply(x: &Vec<Triple>, m: Matrix) -> Vec<Triple> {
    let pred = row_matrix(x) * rows(m);
    (0..x.len()).map(|i| t([pred[(i, 0)], pred[(i, 1)], pred[(i, 2)]])).collect()
}

#[test]
fn matrix_of_a_calibration_fits() {
    let reference = reference_density_24(&log10, &power);
    let (m, mse) = solve_density_matrix_ols(&reference, &reference, &gram, &invert, &multiply, &apply).unwrap();
    for r in 0..3 {
        for c in 0..3 {
            assert!((f(m[r][c]) - if r == c { 1.0 } else { 0.0 }).abs() < 1e-2);
        }
    }
    assert!(f(mse) < 1e-4);
    let flat = vec![t([0.0, 0.0, 0.0]); 24];
    assert!(
        solve_density_matrix_ols(&flat, &reference, &gram, &invert, &multiply, &apply).is_none()
    );
    let want = matrix([[0.9, 0.1, 0.0], [0.05, 1.1, -0.1], [0.0, 0.2, 0.8]]);
    let turned = apply(&reference, want);
    let (m, mse) =
        solve_density_matrix_ols(&reference, &turned, &gram, &invert, &multiply, &apply).unwrap();
    for r in 0..3 {
        for c in 0..3 {
            assert!((f(m[r][c]) - f(want[r][c])).abs() < 1e-2);
        }
    }
    assert_eq!(mse, mean_squared_error(&apply(&reference, m), &turned));
    let off: Vec<Triple> = reference.iter().map(|v| t(n(*v).map(|x| x + 0.5))).collect();
    assert!((f(mean_squared_error(&off, &reference)) - 0.25).abs() < 1e-5);
}

#[test]
fn a_chart_that_shows_its_colours_needs_no_correction() {
    let (w, h) = (240usize, 160usize);
    let corners = ChartCorners::centred();
    let centers = compute_patch_centers_normalized(corners);
    let colours = colorchecker_classic_srgb_8bit();
    let mut samples = Vec::new();
    for y in 0..h {
        for x in 0..w {
            let near = (0..24)
                .min_by_key(|i| {
                    let dx = f(centers[*i].x) * w as f32 - x as f32;
                    let dy = f(centers[*i].y) * h as f32 - y as f32;
                    (dx * dx + dy * dy) as i64
                })
                .unwrap();
            let (r, g, b) = colours[near];
            for c in [r, g, b] {
                samples.push(s(native_decode(c as f32 / 255.0)));
            }
        }
    }
    let image = FilmImage { width: w, height: h, channels: 3, samples };
    let base = Some((s(0.2), s(0.1), s(0.05)));
    let (profile, mse) =
        calibrate(
            &image, corners, base, "", "daylight", &log10, &power, &gram, &invert, &multiply, &apply,
        )
        .unwrap();
    assert_eq!((profile.name.as_str(), profile.light_source.as_str()), ("profile", "daylight"));
    assert_eq!(profile.dmin_medians, base);
    assert!(f(mse) < 1e-4);
    assert!((f(profile.matrix[0][0]) - 1.0).abs() < 1e-2);
    assert!(f(profile.matrix[0][1]).abs() < 1e-2);
    let none = |_: Matrix| -> Option<Matrix> { None };
    let refused = calibrate(
        &image, corners, base, "Gold", "", &log10, &power, &gram, &none, &multiply, &apply,
    );
    assert!(refused.is_none());
}

#[test]
fn files_of_a_calibration() {
    assert_eq!(profile_file(Some("json")), ProfileFile::Json);
    assert_eq!(profile_file(Some("c41")), ProfileFile::Archive);
    assert_eq!(profile_file(Some("JSON")), ProfileFile::Other);
    assert_eq!(profile_file(None), ProfileFile::Other);
    assert_eq!(chart_source(Some("NEF")), ChartSource::Raw);
    assert_eq!(chart_source(Some("Tiff")), ChartSource::Picture);
    assert_eq!(chart_source(Some("txt")), ChartSource::Unsupported);
    assert_eq!(chart_source(None), ChartSource::Unsupported);
    let mut o = default_options(false);
    assert!(matches!(chart_base(&o), BaseRemoval::Fixed(_)));
    o.dmin_fixed = None;
    assert!(matches!(chart_base(&o), BaseRemoval::Left));
    o.dmin_rect = Some(Rect { x: 1, y: 2, width: 3, height: 4 });
    o.dmin_neutral_only = true;
    assert!(matches!(chart_base(&o), BaseRemoval::Measured(Rect { x: 1, .. }, true)));
    let at = drag_chart_corner(s(0.5), s(10.0), s(100.0), s(200.0));
    assert_eq!(f(at), 0.6);
    assert_eq!(f(drag_chart_corner(s(0.5), s(900.0), s(100.0), s(200.0))), 1.0);
    let image = UvRect { left: s(100.0), top: s(50.0), right: s(200.0), bottom: s(250.0) };
    let corner = Point { x: s(0.5), y: s(0.25) };
    let moved = drag_chart_handle(corner, (s(10.0), s(-20.0)), image);
    assert_eq!((f(moved.x), f(moved.y)), (0.6, 0.15));
    let kept = drag_chart_handle(corner, (s(-900.0), s(900.0)), image);
    assert_eq!((f(kept.x), f(kept.y)), (0.0, 1.0));
}

/// The wide-gamut profiles that are built in.
fn bundled(primaries: [(f64, f64); 3], curve: lcms2::ToneCurve) -> Vec<u8> {
    let xy = |p: (f64, f64)| lcms2::CIExyY { x: p.0, y: p.1, Y: 1.0 };
    let triple = lcms2::CIExyYTRIPLE {
        Red: xy(primaries[0]),
        Green: xy(primaries[1]),
        Blue: xy(primaries[2]),
    };
    let white = xy((0.3127, 0.3290));
    lcms2::Profile::new_rgb(&white, &triple, &[&curve, &curve, &curve]).unwrap().icc().unwrap()
}

#[test]
fn bundled_profiles_are_icc_v2_or_v4() {
    let p3 = lcms2::ToneCurve::new_parametric(
        4,
        &[2.4, 1.0 / 1.055, 0.055 / 1.055, 1.0 / 12.92, 0.04045],
    )
    .unwrap();
    for bytes in [
        bundled([(0.680, 0.320), (0.265, 0.690), (0.150, 0.060)], p3),
        bundled([(0.64, 0.33), (0.21, 0.71), (0.15, 0.06)], lcms2::ToneCurve::new(2.199_218_75)),
    ] {
        assert!(bytes.len() >= 128);
        assert_eq!(&bytes[36..40], b"acsp");
        let size = u32::from_be_bytes(bytes[0..4].try_into().unwrap()) as usize;
        assert_eq!(size, bytes.len());
        assert!(icc_header_present(&bytes));
        assert_eq!(validate_icc_file(&bytes), Ok(()));
    }
}

#[test]
fn profiles_are_opened_before_they_are_taken() {
    let srgb = lcms2::Profile::new_srgb().icc().unwrap();
    assert_eq!(validate_icc_file(&srgb), Ok(()));
    assert_eq!(validate_icc_file(&vec![0; 500]), Err(CmsError::NotIcc));
    assert_eq!(validate_icc_file(&srgb[..100].to_vec()), Err(CmsError::NotIcc));
    let mut junk = vec![0u8; 500];
    junk[36..40].copy_from_slice(b"acsp");
    // More tags than a profile can have.
    junk[128..132].copy_from_slice(&[0xff; 4]);
    assert!(icc_header_present(&junk));
    assert_eq!(validate_icc_file(&junk), Err(CmsError::InvalidIcc));
    assert_eq!(icc_verdict(true), Ok(()));
    assert_eq!(icc_verdict(false), Err(CmsError::InvalidIcc));
    assert_eq!(icc_name(Some("Paper"), Some("file")), "Paper");
    assert_eq!(icc_name(None, Some("file")), "file");
    assert_eq!(icc_name(None, None), "ICC");
}

fn profile_of(primaries: [(f64, f64); 3], curve: &lcms2::ToneCurve) -> lcms2::Profile {
    let xy = |p: (f64, f64)| lcms2::CIExyY { x: p.0, y: p.1, Y: 1.0 };
    let triple = lcms2::CIExyYTRIPLE {
        Red: xy(primaries[0]),
        Green: xy(primaries[1]),
        Blue: xy(primaries[2]),
    };
    lcms2::Profile::new_rgb(&xy((0.3127, 0.3290)), &triple, &[curve, curve, curve]).unwrap()
}

fn profile(source: IccSource) -> Result<Vec<u8>, CmsError> {
    match source {
        IccSource::Srgb => Ok(lcms2::Profile::new_srgb().icc().unwrap()),
        IccSource::DisplayP3 => {
            let curve = lcms2::ToneCurve::new_parametric(
                4,
                &[2.4, 1.0 / 1.055, 0.055 / 1.055, 1.0 / 12.92, 0.04045],
            )
            .unwrap();
            Ok(bundled([(0.680, 0.320), (0.265, 0.690), (0.150, 0.060)], curve))
        }
        IccSource::AdobeRgb => {
            let curve = lcms2::ToneCurve::new(2.199_218_75);
            Ok(bundled([(0.64, 0.33), (0.21, 0.71), (0.15, 0.06)], curve))
        }
        IccSource::CustomFile => Err(CmsError::Unreadable),
        IccSource::ProofFile => profile(IccSource::AdobeRgb),
    }
}

fn linear_rec709() -> lcms2::Profile {
    profile_of([(0.64, 0.33), (0.30, 0.60), (0.15, 0.06)], &lcms2::ToneCurve::new(1.0))
}

fn triples(linear: &Vec<Single>) -> Vec<[f32; 3]> {
    linear.chunks_exact(3).map(|c| [f(c[0]), f(c[1]), f(c[2])]).collect()
}

fn convert(v: &Vec<Single>, icc: &Vec<u8>, _: CmsIntent, bpc: bool) -> Result<Vec<u8>, CmsError> {
    let dest = lcms2::Profile::new_icc(icc).map_err(|_| CmsError::InvalidIcc)?;
    let flags = if bpc {
        lcms2::Flags::BLACKPOINT_COMPENSATION
    } else {
        lcms2::Flags::default()
    };
    let xf: lcms2::Transform<[f32; 3], [u8; 3]> = lcms2::Transform::new_flags(
        &linear_rec709(),
        lcms2::PixelFormat::RGB_FLT,
        &dest,
        lcms2::PixelFormat::RGB_8,
        lcms2::Intent::RelativeColorimetric,
        flags,
    )
    .map_err(|_| CmsError::Conversion)?;
    let input = triples(v);
    let mut out = vec![[0u8; 3]; input.len()];
    xf.transform_pixels(&input, &mut out);
    Ok(out.into_iter().flatten().collect())
}

fn proofing(
    v: &Vec<Single>,
    on: &Vec<u8>,
    to: &Vec<u8>,
    _: CmsIntent,
    white: bool,
    _: bool,
) -> Result<Vec<u8>, CmsError> {
    let paper = lcms2::Profile::new_icc(on).map_err(|_| CmsError::InvalidIcc)?;
    let monitor = lcms2::Profile::new_icc(to).map_err(|_| CmsError::InvalidIcc)?;
    let shown = if white {
        lcms2::Intent::AbsoluteColorimetric
    } else {
        lcms2::Intent::RelativeColorimetric
    };
    let xf: lcms2::Transform<[f32; 3], [u8; 3]> = lcms2::Transform::new_proofing(
        &linear_rec709(),
        lcms2::PixelFormat::RGB_FLT,
        &monitor,
        lcms2::PixelFormat::RGB_8,
        &paper,
        lcms2::Intent::RelativeColorimetric,
        shown,
        lcms2::Flags::BLACKPOINT_COMPENSATION | lcms2::Flags::SOFT_PROOFING,
    )
    .map_err(|_| CmsError::Conversion)?;
    let input = triples(v);
    let mut out = vec![[0u8; 3]; input.len()];
    xf.transform_pixels(&input, &mut out);
    Ok(out.into_iter().flatten().collect())
}

#[test]
fn srgb_export_matches_hand_oetf() {
    let lin = vec![s(0.18), s(0.18), s(0.18)];
    let opts = default_options(false);
    let out = export_u8_from_linear(&lin, &opts, &profile, &convert, &power).ok().unwrap();
    assert_eq!(out.icc, lcms2::Profile::new_srgb().icc().unwrap());
    let expect = linear_to_srgb_u8(s(0.18), &power);
    assert_eq!(expect, (native_encode(0.18) * 255.0).round() as u8);
    assert_eq!(out.samples, [expect, expect, expect]);
}

#[test]
fn p3_export_builds_and_embeds_p3() {
    let lin = vec![s(0.18), s(0.18), s(0.18)];
    let mut opts = default_options(false);
    opts.output_icc = OutputIcc::DisplayP3;
    let out = export_u8_from_linear(&lin, &opts, &profile, &convert, &power).ok().unwrap();
    let (rgb, icc) = (out.samples, out.icc);
    assert_eq!(rgb.len(), 3);
    assert_eq!(&icc[36..40], b"acsp");
    assert_ne!(icc, lcms2::Profile::new_srgb().icc().unwrap());
    // Neutral mid-gray should stay roughly neutral.
    let max = rgb.iter().copied().max().unwrap().saturating_sub(rgb.iter().copied().min().unwrap());
    assert!(max < 8, "neutral drifted {rgb:?}");
}

#[test]
fn proofing_transform_builds() {
    let lin = vec![s(0.4), s(0.35), s(0.3)];
    let mut opts = default_options(false);
    opts.cms_target = CmsTarget::Display;
    opts.soft_proof = true;
    opts.proof_icc_path = Some("paper.icc".to_string());
    opts.proof_intent = CmsIntent::Relative;
    opts.proof_paper_white = true;
    opts.proof_gamut_warning = false;
    let out =
        display_u8_from_linear(&lin, &opts, &profile, &convert, &proofing, &power).unwrap();
    assert_eq!(out.len(), 3);
}

#[test]
fn exports_by_profile() {
    let lin = vec![s(0.18), s(0.5)];
    let mut opts = default_options(false);
    let told = |_: &Vec<Single>, icc: &Vec<u8>, _: CmsIntent, _: bool| -> Result<Vec<u16>, CmsError> {
        Ok(vec![9, icc.len() as u16])
    };
    let short = |_: IccSource| -> Result<Vec<u8>, CmsError> { Ok(vec![1]) };
    let wide = export_u16_from_linear(&lin, &opts, &short, &told, &power).ok().unwrap();
    assert_eq!(wide.samples, srgb_u16_from_linear(&lin, &power));
    opts.output_icc = OutputIcc::AdobeRgb;
    let adobe = export_u16_from_linear(&lin, &opts, &short, &told, &power).ok().unwrap();
    assert_eq!(adobe.samples, [9, 1]);
    assert_eq!(adobe.icc, [1]);
    let print = export_from_u16(&vec![0, 65535], &opts, &short, &told, &power).ok().unwrap();
    assert_eq!(print.samples, [9, 1]);
    opts.output_icc = OutputIcc::Srgb;
    let print = export_from_u16(&vec![0, 65535], &opts, &short, &told, &power).ok().unwrap();
    assert_eq!(print.samples, [0, 65535]);
    let film = export_from_encoded_f32(&vec![s(1.0), s(-1.0)], &opts, &short, &convert, &power);
    assert_eq!(film.ok().unwrap().samples, [255, 0]);
    opts.output_icc = OutputIcc::Custom;
    opts.output_icc_path = Some("gone.icc".to_string());
    let bad = export_u8_from_linear(&lin, &opts, &profile, &convert, &power);
    assert_eq!(bad.err(), Some(CmsError::Unreadable));
    let bad = export_u8_from_linear(&lin, &opts, &short, &convert, &power);
    assert_eq!(bad.err(), Some(CmsError::InvalidIcc));
    assert_eq!(CmsError::NoCustomFile.message(), "Custom output ICC selected but no file is set");
}

#[test]
fn samples_for_the_screen() {
    let img: Vec<u16> = vec![0, 300, 65535, 32768];
    let codes = srgb_u8_from_u16(&img, &power);
    let lin = linear_from_u16(&img);
    for i in 0..4 {
        let v = img[i] as f32 / 65535.0;
        assert_eq!(f(lin[i]), v);
        assert_eq!(codes[i], (native_encode(v) * 255.0).round() as u8);
    }
    assert_eq!(srgb_u8_from_linear(&lin, &power), codes);
    let back = linear_from_encoded(&vec![s(0.5), s(2.0)], &power);
    assert_eq!(f(back[0]), native_decode(0.5));
    assert_eq!(f(back[1]), native_decode(1.0));
    let shown = encode_preview(
        &Step6Display::U16(img),
        &default_options(false),
        &profile,
        &convert,
        &proofing,
        &vec![],
        &power,
    );
    assert_eq!(shown, codes);
}

#[test]
fn pictures_are_shown_without_a_profile() {
    let img: Vec<u16> = vec![0, 300, 65535, 32768];
    let codes = srgb_u8_from_u16(&img, &power);
    assert_eq!(plain_u8(&Step6Display::U16(img.clone()), &power), codes);
    let floats = vec![s(-1.0), s(0.5), s(2.0)];
    assert_eq!(plain_u8(&Step6Display::F32(floats.clone()), &power), [0, 128, 255]);
    assert_eq!(plain_u8(&Step6Display::PassthroughDensity(floats.clone()), &power), [0, 128, 255]);
    let fails = |_: &Vec<Single>, _: &Vec<u8>, _: CmsIntent, _: bool| -> Result<Vec<u8>, CmsError> {
        Err(CmsError::Conversion)
    };
    let mut o = default_options(false);
    o.output_icc = OutputIcc::AdobeRgb;
    let d = Step6Display::U16(img);
    assert_eq!(preview_u8(&d, &o, &profile, &fails, &proofing, &power), codes);
    let d = Step6Display::PassthroughDensity(floats);
    assert_eq!(preview_u8(&d, &o, &profile, &fails, &proofing, &power), [0, 128, 255]);
}

#[test]
fn codes_lie_between_zero_and_one() {
    for k in -40..=400 {
        let c = f(linear_to_srgb(s(k as f32 / 200.0), &power));
        assert!((0.0..=1.0).contains(&c), "{k} {c}");
    }
    for v in [f32::INFINITY, f32::NEG_INFINITY, 0.003_130_8, 0.003_130_9, -0.0, 1e-40] {
        assert!((0.0..=1.0).contains(&f(linear_to_srgb(s(v), &power))));
    }
    assert!(f(linear_to_srgb(s(f32::NAN), &power)).is_nan());
}

#[test]
fn equal_numbers_keep_their_order() {
    let v: Vec<Single> = [0.5, -0.0, 0.0, -1.0, -0.0].into_iter().map(s).collect();
    let bits: Vec<u32> = sorted(&v).into_iter().map(|x| x.bits).collect();
    let want: Vec<u32> = [-1.0f32, -0.0, 0.0, -0.0, 0.5].into_iter().map(f32::to_bits).collect();
    assert_eq!(bits, want);
}

#[test]
fn squares_around_the_patches() {
    let p = |x: f32, y: f32| Point { x: s(x), y: s(y) };
    let corners = ChartCorners {
        top_left: p(0.0, 0.0),
        top_right: p(1.0, 0.0),
        bottom_left: p(0.0, 1.0),
        bottom_right: p(1.0, 1.0),
    };
    let area = UvRect { left: s(10.0), top: s(20.0), right: s(610.0), bottom: s(320.0) };
    let squares = chart_squares(corners, area, s(0.02));
    assert_eq!(squares.len(), 24);
    let edges = |r: UvRect| [f(r.left), f(r.top), f(r.right), f(r.bottom)];
    assert_eq!(edges(squares[0]), [4.0, 14.0, 16.0, 26.0]);
    assert_eq!(edges(squares[5]), [604.0, 14.0, 616.0, 26.0]);
    assert_eq!(edges(squares[23]), [604.0, 314.0, 616.0, 326.0]);
    let centre = f(squares[8].left) + 6.0;
    assert!((centre - (10.0 + 600.0 * 0.4)).abs() < 1e-3);
}

#[test]
fn white_is_balanced_on_a_picked_colour() {
    let deep = |a: Single| s((f(a) as f64).log10() as f32);
    let gains = |r: Single, g: Single, b: Single| (g, b, r);
    let o = pick_white_balance(
        default_options(false),
        (s(0.1), s(0.0), s(1.0)),
        &deep,
        &gains,
    );
    assert!(o.apply_white_balance && !o.auto_wb);
    assert_eq!(f(o.wb_r), -((1e-10f32 as f64).log10()) as f32);
    assert_eq!(f(o.wb_g), -0.0);
    assert_eq!(f(o.wb_b), -((0.1f32 as f64).log10()) as f32);
}
