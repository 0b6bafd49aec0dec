use c41_darkroom::bujack::{
    apply_gain, apply_to_f32, apply_to_u16_linear, bilateral_base, blur_settings, gamut_clip,
    lin_to_oklab, oklab_to_lin, un_dim,
};
use c41_darkroom::color::Triple;
use c41_darkroom::film::FilmImage;
use c41_darkroom::options::default_options;
use c41_darkroom::single::Single;

fn s(v: f32) -> Single {
    Single { bits: v.to_bits() }
}

fn f(v: Single) -> f32 {
    f32::from_bits(v.bits)
}

fn t(v: [f32; 3]) -> Triple {
    Triple { a: s(v[0]), b: s(v[1]), c: s(v[2]) }
}

fn n(v: Triple) -> [f32; 3] {
    [f(v.a), f(v.b), f(v.c)]
}

fn power(a: Single, b: Single) -> Single {
    s(f(a).powf(f(b)))
}

fn root(a: Single) -> Single {
    s(f(a).cbrt())
}

fn exp(a: Single) -> Single {
    s(f(a).exp())
}

fn same(a: [f32; 3], b: [f32; 3]) {
    for i in 0..3 {
        assert_eq!(a[i].to_bits(), b[i].to_bits(), "{a:?} {b:?}");
    }
}

#[test]
fn oklab_roundtrip_mid_gray() {
    let lab = lin_to_oklab(t([0.18, 0.18, 0.18]), &root);
    let rgb = n(oklab_to_lin(lab));
    for i in 0..3 {
        assert!((rgb[i] - 0.18).abs() < 2e-4, "ch{i} {} vs 0.18", rgb[i]);
    }
}

#[test]
fn un_dim_is_identity_at_zero() {
    assert!((f(un_dim(s(0.0), s(0.25))) - 1.0).abs() < 1e-6);
}

#[test]
fn un_dim_grows_then_caps() {
    let k = 0.25;
    let g_small = f(un_dim(s(0.01), s(k)));
    let g_mid = f(un_dim(s(0.12), s(k)));
    let g_cap = f(un_dim(s(k), s(k)));
    assert!(g_small > 1.0 && g_small < g_mid);
    assert!((g_cap - 1.0 / 0.15).abs() < 1e-5);
}

fn picture(w: usize, h: usize, px: impl Fn(usize, usize, usize) -> f32) -> FilmImage {
    let mut samples = Vec::new();
    for y in 0..h {
        for x in 0..w {
            for c in 0..3 {
                samples.push(s(px(y, x, c)));
            }
        }
    }
    FilmImage { width: w, height: h, channels: 3, samples }
}

fn ramp(y: usize, x: usize, c: usize) -> f32 {
    let t = (x + y) as f32 / 14.0;
    [t, t * 0.8, 0.2 + t * 0.5][c]
}

#[test]
fn strength_zero_is_identity() {
    let mut img = picture(8, 8, ramp);
    let orig = img.clone();
    let mut opts = default_options(false);
    opts.bujack_enabled = true;
    opts.bujack_strength = s(0.0);
    opts.bujack_radius = s(4.0);
    apply_to_f32(&mut img, &opts, false, &power, &root, &exp);
    for (a, b) in img.samples.iter().zip(orig.samples.iter()) {
        assert!((f(*a) - f(*b)).abs() < 1e-6);
    }
}

#[test]
fn disabled_is_identity() {
    let mut img = picture(4, 4, |_, _, _| 0.4);
    let orig = img.clone();
    let mut opts = default_options(false);
    opts.bujack_enabled = false;
    opts.bujack_strength = s(1.0);
    apply_to_f32(&mut img, &opts, false, &power, &root, &exp);
    for (a, b) in img.samples.iter().zip(orig.samples.iter()) {
        assert!((f(*a) - f(*b)).abs() < 1e-6);
    }
}

/// The same steps in native numbers.
fn native_un_dim(y: f32, k: f32) -> f32 {
    k / (k - y).max(k * 0.15)
}

fn native_lab(r: f32, g: f32, b: f32) -> [f32; 3] {
    let l = (0.4122214708f32 * r + 0.5363325363 * g + 0.0514459929 * b).max(0.0).cbrt();
    let m = (0.2119034982f32 * r + 0.6806995451 * g + 0.1073969566 * b).max(0.0).cbrt();
    let q = (0.0883024619f32 * r + 0.2817188376 * g + 0.6299787005 * b).max(0.0).cbrt();
    [
        0.2104542553 * l + 0.7936177850 * m - 0.0040720468 * q,
        1.9779984951 * l - 2.4285922050 * m + 0.4505937099 * q,
        0.0259040371 * l + 0.7827717662 * m - 0.8086757660 * q,
    ]
}

fn native_lin(lab: [f32; 3]) -> [f32; 3] {
    let l = lab[0] + 0.3963377774 * lab[1] + 0.2158037573 * lab[2];
    let m = lab[0] - 0.1055613458 * lab[1] - 0.0638541728 * lab[2];
    let q = lab[0] - 0.0894841775 * lab[1] - 1.2914855480 * lab[2];
    let l = l * l * l;
    let m = m * m * m;
    let q = q * q * q;
    [
        4.0767416621 * l - 3.3077115913 * m + 0.2309699292 * q,
        -1.2684380046 * l + 2.6097574011 * m - 0.3413193965 * q,
        -0.0041960863 * l - 0.7034186147 * m + 1.7076147010 * q,
    ]
}

fn native_clip(rgb: [f32; 3]) -> [f32; 3] {
    let lum = (0.2126 * rgb[0] + 0.7152 * rgb[1] + 0.0722 * rgb[2]).clamp(0.0, 1.0);
    let mut t = 1.0_f32;
    for c in rgb {
        if c > 1.0 {
            t = t.min((1.0 - lum) / (c - lum).max(1e-5));
        }
        if c < 0.0 {
            t = t.min(lum / (lum - c).max(1e-5));
        }
    }
    let t = t.clamp(0.0, 1.0);
    [lum + (rgb[0] - lum) * t, lum + (rgb[1] - lum) * t, lum + (rgb[2] - lum) * t]
}

fn native_gain(lab: [f32; 3], base: [f32; 3], k_l: f32, k_c: f32, strength: f32) -> [f32; 3] {
    let d = [lab[0] - base[0], lab[1] - base[1], lab[2] - base[2]];
    let d_l = d[0] * native_un_dim(d[0].abs(), k_l);
    let c = (d[1] * d[1] + d[2] * d[2]).sqrt();
    let g_c = native_un_dim(c, k_c);
    let stretched = [d_l, d[1] * g_c, d[2] * g_c];
    let mut out = [0.0; 3];
    for i in 0..3 {
        out[i] = base[i] + d[i] + (stretched[i] - d[i]) * strength;
    }
    out
}

fn native_blur(lab: &[[f32; 3]], w: usize, h: usize, radius: i32, edge: f32) -> Vec<[f32; 3]> {
    let radius = radius.clamp(2, 48);
    let sigma = (radius as f32 * 0.5).max(0.6);
    let rs = 1.0 / (2.0 * sigma * sigma);
    let es = 1.0 / (2.0 * edge.max(1e-4) * edge.max(1e-4));
    let pass = |from: &[[f32; 3]], across: bool| -> Vec<[f32; 3]> {
        let mut out = vec![[0.0_f32; 3]; w * h];
        for y in 0..h {
            for x in 0..w {
                let center = from[y * w + x];
                let mut acc = [0.0_f32; 3];
                let mut wsum = 0.0_f32;
                for i in -radius..=radius {
                    let (xx, yy) = if across { (x as i32 + i, y as i32) } else { (x as i32, y as i32 + i) };
                    let xx = xx.clamp(0, w as i32 - 1) as usize;
                    let yy = yy.clamp(0, h as i32 - 1) as usize;
                    let q = from[yy * w + xx];
                    let d = [q[0] - center[0], q[1] - center[1], q[2] - center[2]];
                    let spatial = (-(i * i) as f32 * rs).exp();
                    let range = (-(d[0] * d[0] + d[1] * d[1] + d[2] * d[2]) * es).exp();
                    let wt = spatial * range;
                    for c in 0..3 {
                        acc[c] += q[c] * wt;
                    }
                    wsum += wt;
                }
                let inv = 1.0 / wsum.max(1e-6);
                out[y * w + x] = [acc[0] * inv, acc[1] * inv, acc[2] * inv];
            }
        }
        out
    };
    let tmp = pass(lab, true);
    pass(&tmp, false)
}

#[test]
fn colours_agree_with_native_numbers() {
    for v in [[0.0, 0.0, 0.0], [0.18, 0.5, 0.9], [1.0, 0.2, -0.1], [2.0, 0.0, 0.3]] {
        let lab = native_lab(v[0], v[1], v[2]);
        same(n(lin_to_oklab(t(v), &root)), lab);
        same(n(oklab_to_lin(t(lab))), native_lin(lab));
        same(n(gamut_clip(t(v))), native_clip(v));
        let base = native_lab(0.3, 0.3, 0.25);
        same(
            n(apply_gain(t(lab), t(base), s(0.25), s(0.2), s(0.7))),
            native_gain(lab, base, 0.25, 0.2, 0.7),
        );
    }
    for y in [0.0, 0.01, 0.2, 0.25, 3.0] {
        assert_eq!(un_dim(s(y), s(0.25)).bits, native_un_dim(y, 0.25).to_bits());
    }
}

#[test]
fn blur_agrees_with_native_numbers() {
    let (w, h) = (9, 6);
    let mut lab = Vec::new();
    for y in 0..h {
        for x in 0..w {
            lab.push([x as f32 * 0.1, y as f32 * 0.07 - 0.2, if x > 4 { 0.3 } else { 0.0 }]);
        }
    }
    let ours: Vec<Triple> = lab.iter().map(|v| t(*v)).collect();
    for (radius, edge) in [(1usize, 0.12f32), (4, 0.0), (60, 0.3)] {
        let got = bilateral_base(&ours, w, h, radius, s(edge), &exp);
        let want = native_blur(&lab, w, h, radius as i32, edge);
        for i in 0..w * h {
            same(n(got[i]), want[i]);
        }
    }
    assert_eq!(blur_settings(0, s(0.1)).radius, 2);
    assert_eq!(blur_settings(100, s(0.1)).radius, 48);
}

#[test]
fn whole_pass_agrees_with_native_numbers() {
    let mut opts = default_options(false);
    opts.bujack_enabled = true;
    opts.bujack_strength = s(0.8);
    opts.bujack_radius = s(3.4);
    opts.bujack_edge = s(0.12);
    opts.bujack_k_l = s(0.25);
    opts.bujack_k_c = s(0.2);
    let mut img = picture(8, 8, ramp);
    let mut lab = Vec::new();
    for y in 0..8 {
        for x in 0..8 {
            lab.push(native_lab(ramp(y, x, 0), ramp(y, x, 1), ramp(y, x, 2)));
        }
    }
    let base = native_blur(&lab, 8, 8, 3, 0.12);
    apply_to_f32(&mut img, &opts, false, &power, &root, &exp);
    for i in 0..64 {
        let rgb = native_clip(native_lin(native_gain(lab[i], base[i], 0.25, 0.2, 0.8)));
        for c in 0..3 {
            assert_eq!(f(img.samples[i * 3 + c]), rgb[c].clamp(0.0, 1.0));
        }
    }
}

#[test]
fn sixteen_bits_go_through_linear() {
    let mut opts = default_options(false);
    opts.bujack_enabled = true;
    opts.bujack_strength = s(0.8);
    opts.bujack_radius = s(2.0);
    let mut a: Vec<u16> = (0..75).map(|i| (i * 800) as u16).collect();
    let scale = 1.0 / 65535.0_f32;
    let mut want = picture(5, 5, |y, x, c| a[(y * 5 + x) * 3 + c] as f32 * scale);
    apply_to_f32(&mut want, &opts, false, &power, &root, &exp);
    apply_to_u16_linear(&mut a, 5, 5, &opts, &power, &root, &exp);
    for (got, v) in a.iter().zip(want.samples.iter()) {
        assert_eq!(*got, (f(*v).clamp(0.0, 1.0) * 65535.0).round() as u16);
    }
}

#[test]
fn encoded_pictures_stay_encoded() {
    let mut opts = default_options(false);
    opts.bujack_enabled = true;
    opts.bujack_strength = s(0.5);
    opts.bujack_radius = s(2.0);
    let mut flat = picture(4, 4, |_, _, _| 0.5);
    apply_to_f32(&mut flat, &opts, true, &power, &root, &exp);
    for v in &flat.samples {
        assert!((f(*v) - 0.5).abs() < 2e-3);
    }
}

#[test]
fn gains_are_bounded() {
    for k in [1e-6f32, 0.01, 0.25, 0.3, 1.0, 77.7, 1e6] {
        for y in [-1e9f32, -0.2, 0.0, 0.1, 0.2499, 0.25, 0.3, 5.0, 1e30, f32::INFINITY, f32::NAN] {
            let g = f(un_dim(s(y), s(k)));
            assert!(g >= 0.0 && g <= 6.7, "{y} {k} {g}");
            assert_eq!(g, k / (k - y).max(k * 0.15));
        }
        let mut last = 1.0f32;
        for i in 0..200 {
            let g = f(un_dim(s(k * i as f32 * 0.007), s(k)));
            assert!(g >= last);
            last = g;
        }
    }
}

#[test]
fn spread_samples_lie_between_zero_and_one() {
    for encoded in [false, true] {
        let mut img = FilmImage { width: 9, height: 7, channels: 3, samples: Vec::new() };
        for i in 0..9 * 7 * 3 {
            let v = ((i * 37) % 101) as f32 / 100.0;
            img.samples.push(s(if encoded { v } else { 1.6 * v - 0.3 }));
        }
        let mut opts = default_options(false);
        opts.bujack_enabled = true;
        opts.bujack_strength = s(2.0);
        opts.bujack_radius = s(2.0);
        apply_to_f32(&mut img, &opts, encoded, &power, &root, &exp);
        for v in &img.samples {
            assert!((0.0..=1.0).contains(&f(*v)), "{}", f(*v));
        }
    }
}
