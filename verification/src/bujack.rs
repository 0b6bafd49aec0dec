//! A spatial answer to diminishing returns in the perception of colour.
//!
//! Large differences of colour look smaller than they are. No change of single pixels can undo
//! that, so each pixel's difference from an edge-aware mean of its surroundings is stretched by
//! the inverse of a saturating response. The work is done in OkLab, on linear Rec.709 after the
//! output transform. Roots, powers and exponentials are the machine's and are handed in.

use vstd::prelude::*;
use vstd::arithmetic::power2::*;
use crate::color::Triple;
use crate::color_space::{linear_to_srgb, srgb_to_linear};
use crate::film::FilmImage;
use crate::options::PipelineOptions;
use crate::single::Single;

verus! {

/// Gain for a difference `y`, where the response saturates at `k`.
pub open spec fn un_dim_spec(y: Single, k: Single) -> Single {
    k.over(k.minus(y).larger(k.times(Single::ratio(15, 100))))
}

/// The inverse of a saturating response, bounded: one for no difference, and no more than
/// about 6.7.
pub fn un_dim(y: Single, k: Single) -> (r: Single)
    ensures
        r == un_dim_spec(y, k),
{
    k.over(k.minus(y).larger(k.times(Single::ratio(15, 100))))
}

/// Responses of the three cones to linear RGB.
pub open spec fn cones(v: Triple) -> Triple {
    Triple {
        // 0.4122214708, 0.5363325363, 0.0514459929
        a: Single { bits: 0x3ed3_0eb1 }.times(v.a).plus(Single { bits: 0x3f09_4d17 }.times(v.b)).plus(
            Single { bits: 0x3d52_b909 }.times(v.c),
        ),
        // 0.2119034982, 0.6806995451, 0.1073969566
        b: Single { bits: 0x3e58_fd3b }.times(v.a).plus(Single { bits: 0x3f2e_4253 }.times(v.b)).plus(
            Single { bits: 0x3ddb_f2f0 }.times(v.c),
        ),
        // 0.0883024619, 0.2817188376, 0.6299787005
        c: Single { bits: 0x3db4_d7ec }.times(v.a).plus(Single { bits: 0x3e90_3d74 }.times(v.b)).plus(
            Single { bits: 0x3f21_4649 }.times(v.c),
        ),
    }
}

fn cones_of(v: Triple) -> (r: Triple)
    ensures
        r == cones(v),
{
    Triple {
        a: Single { bits: 0x3ed3_0eb1 }.times(v.a).plus(Single { bits: 0x3f09_4d17 }.times(v.b)).plus(
            Single { bits: 0x3d52_b909 }.times(v.c),
        ),
        b: Single { bits: 0x3e58_fd3b }.times(v.a).plus(Single { bits: 0x3f2e_4253 }.times(v.b)).plus(
            Single { bits: 0x3ddb_f2f0 }.times(v.c),
        ),
        c: Single { bits: 0x3db4_d7ec }.times(v.a).plus(Single { bits: 0x3e90_3d74 }.times(v.b)).plus(
            Single { bits: 0x3f21_4649 }.times(v.c),
        ),
    }
}

/// OkLab from the cube roots of the cones' responses.
pub open spec fn oklab_from(f: Triple) -> Triple {
    Triple {
        // 0.2104542553, 0.7936177850, 0.0040720468
        a: Single { bits: 0x3e57_8152 }.times(f.a).plus(
            Single { bits: 0x3f4b_2a89 }.times(f.b),
        ).minus(Single { bits: 0x3b85_6ece }.times(f.c)),
        // 1.9779984951, 2.4285922050, 0.4505937099
        b: Single { bits: 0x3ffd_2f0e }.times(f.a).minus(
            Single { bits: 0x401b_6e0e }.times(f.b),
        ).plus(Single { bits: 0x3ee6_b438 }.times(f.c)),
        // 0.0259040371, 0.7827717662, 0.8086757660
        c: Single { bits: 0x3cd4_34b4 }.times(f.a).plus(
            Single { bits: 0x3f48_63bb }.times(f.b),
        ).minus(Single { bits: 0x3f4f_0560 }.times(f.c)),
    }
}

/// Cube roots of the responses that are not below zero, by the machine's cube root.
pub open spec fn rooted<C: Fn(Single) -> Single>(root: C, v: Triple, f: Triple) -> bool {
    &&& root.ensures((v.a.larger(Single::whole(0)),), f.a)
    &&& root.ensures((v.b.larger(Single::whole(0)),), f.b)
    &&& root.ensures((v.c.larger(Single::whole(0)),), f.c)
}

/// `lab` is the OkLab of linear RGB.
pub open spec fn is_oklab<C: Fn(Single) -> Single>(root: C, rgb: Triple, lab: Triple) -> bool {
    exists|f: Triple| #[trigger] rooted(root, cones(rgb), f) && lab == oklab_from(f)
}

/// Linear RGB to OkLab.
pub fn lin_to_oklab<C: Fn(Single) -> Single>(rgb: Triple, root: &C) -> (r: Triple)
    requires
        forall|a: Single| #[trigger] root.requires((a,)),
    ensures
        is_oklab(*root, rgb, r),
{
    let v: Triple = cones_of(rgb);
    let zero: Single = Single::whole(0);
    let f: Triple = Triple {
        a: root(v.a.larger(zero)),
        b: root(v.b.larger(zero)),
        c: root(v.c.larger(zero)),
    };
    proof {
        assert(rooted(*root, cones(rgb), f));
    }
    Triple {
        a: Single { bits: 0x3e57_8152 }.times(f.a).plus(
            Single { bits: 0x3f4b_2a89 }.times(f.b),
        ).minus(Single { bits: 0x3b85_6ece }.times(f.c)),
        b: Single { bits: 0x3ffd_2f0e }.times(f.a).minus(
            Single { bits: 0x401b_6e0e }.times(f.b),
        ).plus(Single { bits: 0x3ee6_b438 }.times(f.c)),
        c: Single { bits: 0x3cd4_34b4 }.times(f.a).plus(
            Single { bits: 0x3f48_63bb }.times(f.b),
        ).minus(Single { bits: 0x3f4f_0560 }.times(f.c)),
    }
}

/// Cubes of the three numbers that OkLab is made of.
pub open spec fn cubes(lab: Triple) -> Triple {
    // 0.3963377774 and 0.2158037573
    let l = lab.a.plus(Single { bits: 0x3eca_ecc9 }.times(lab.b)).plus(
        Single { bits: 0x3e5c_fba9 }.times(lab.c),
    );
    // 0.1055613458 and 0.0638541728
    let m = lab.a.minus(Single { bits: 0x3dd8_308c }.times(lab.b)).minus(
        Single { bits: 0x3d82_c5fa }.times(lab.c),
    );
    // 0.0894841775 and 1.2914855480
    let s = lab.a.minus(Single { bits: 0x3db7_437b }.times(lab.b)).minus(
        Single { bits: 0x3fa5_4f66 }.times(lab.c),
    );
    Triple { a: l.times(l).times(l), b: m.times(m).times(m), c: s.times(s).times(s) }
}

/// Linear RGB of OkLab.
pub open spec fn from_oklab(lab: Triple) -> Triple {
    let v = cubes(lab);
    Triple {
        // 4.0767416621, 3.3077115913, 0.2309699292
        a: Single { bits: 0x4082_74ab }.times(v.a).minus(
            Single { bits: 0x4053_b18c }.times(v.b),
        ).plus(Single { bits: 0x3e6c_8362 }.times(v.c)),
        // -1.2684380046, 2.6097574011, 0.3413193965
        b: Single { bits: 0xbfa2_5c2d }.times(v.a).plus(
            Single { bits: 0x4027_0644 }.times(v.b),
        ).minus(Single { bits: 0x3eae_c16a }.times(v.c)),
        // -0.0041960863, 0.7034186147, 1.7076147010
        c: Single { bits: 0xbb89_7f53 }.times(v.a).minus(
            Single { bits: 0x3f34_133e }.times(v.b),
        ).plus(Single { bits: 0x3fda_931e }.times(v.c)),
    }
}

/// OkLab to linear RGB.
pub fn oklab_to_lin(lab: Triple) -> (r: Triple)
    ensures
        r == from_oklab(lab),
{
    let l: Single = lab.a.plus(Single { bits: 0x3eca_ecc9 }.times(lab.b)).plus(
        Single { bits: 0x3e5c_fba9 }.times(lab.c),
    );
    let m: Single = lab.a.minus(Single { bits: 0x3dd8_308c }.times(lab.b)).minus(
        Single { bits: 0x3d82_c5fa }.times(lab.c),
    );
    let s: Single = lab.a.minus(Single { bits: 0x3db7_437b }.times(lab.b)).minus(
        Single { bits: 0x3fa5_4f66 }.times(lab.c),
    );
    let v: Triple = Triple { a: l.times(l).times(l), b: m.times(m).times(m), c: s.times(s).times(s) };
    Triple {
        a: Single { bits: 0x4082_74ab }.times(v.a).minus(
            Single { bits: 0x4053_b18c }.times(v.b),
        ).plus(Single { bits: 0x3e6c_8362 }.times(v.c)),
        b: Single { bits: 0xbfa2_5c2d }.times(v.a).plus(
            Single { bits: 0x4027_0644 }.times(v.b),
        ).minus(Single { bits: 0x3eae_c16a }.times(v.c)),
        c: Single { bits: 0xbb89_7f53 }.times(v.a).minus(
            Single { bits: 0x3f34_133e }.times(v.b),
        ).plus(Single { bits: 0x3fda_931e }.times(v.c)),
    }
}

/// Luminance that a colour is pulled to, from zero to one.
pub open spec fn luminance(v: Triple) -> Single {
    Single::ratio(2126, 10_000).times(v.a).plus(Single::ratio(7152, 10_000).times(v.b)).plus(
        Single::ratio(722, 10_000).times(v.c),
    ).clamp(Single::whole(0), Single::whole(1))
}

/// How much of a colour's distance from its luminance is kept so that `c` fits, `t` being what
/// the other channels allow.
pub open spec fn kept_for(c: Single, lum: Single, t: Single) -> Single {
    let tiny = Single::ratio(1, 100_000);
    let high = if Single::whole(1).less(c) {
        t.smaller(Single::whole(1).minus(lum).over(c.minus(lum).larger(tiny)))
    } else {
        t
    };
    if c.less(Single::whole(0)) {
        high.smaller(lum.over(lum.minus(c).larger(tiny)))
    } else {
        high
    }
}

fn keep_for(c: Single, lum: Single, t: Single) -> (r: Single)
    ensures
        r == kept_for(c, lum, t),
{
    let tiny: Single = Single::ratio(1, 100_000);
    let high: Single = if Single::whole(1).less(c) {
        t.smaller(Single::whole(1).minus(lum).over(c.minus(lum).larger(tiny)))
    } else {
        t
    };
    if c.less(Single::whole(0)) {
        high.smaller(lum.over(lum.minus(c).larger(tiny)))
    } else {
        high
    }
}

/// A colour pulled to its luminance until it fits the gamut.
pub open spec fn clipped(v: Triple) -> Triple {
    let lum = luminance(v);
    let t = kept_for(v.c, lum, kept_for(v.b, lum, kept_for(v.a, lum, Single::whole(1)))).clamp(
        Single::whole(0),
        Single::whole(1),
    );
    Triple {
        a: lum.plus(v.a.minus(lum).times(t)),
        b: lum.plus(v.b.minus(lum).times(t)),
        c: lum.plus(v.c.minus(lum).times(t)),
    }
}

/// Pulls a colour outside the gamut towards its own luminance.
pub fn gamut_clip(v: Triple) -> (r: Triple)
    ensures
        r == clipped(v),
{
    let lum: Single = Single::ratio(2126, 10_000).times(v.a).plus(
        Single::ratio(7152, 10_000).times(v.b),
    ).plus(Single::ratio(722, 10_000).times(v.c)).clamp(Single::whole(0), Single::whole(1));
    let ta: Single = keep_for(v.a, lum, Single::whole(1));
    let tb: Single = keep_for(v.b, lum, ta);
    let t: Single = keep_for(v.c, lum, tb).clamp(Single::whole(0), Single::whole(1));
    Triple {
        a: lum.plus(v.a.minus(lum).times(t)),
        b: lum.plus(v.b.minus(lum).times(t)),
        c: lum.plus(v.c.minus(lum).times(t)),
    }
}

/// A colour with its difference from the mean of its surroundings stretched.
pub open spec fn stretched(lab: Triple, base: Triple, k_l: Single, k_c: Single, strength: Single) -> Triple {
    let dl = lab.a.minus(base.a);
    let da = lab.b.minus(base.b);
    let db = lab.c.minus(base.c);
    let wide_l = dl.times(un_dim_spec(dl.abs_spec(), k_l));
    let gain = un_dim_spec(da.times(da).plus(db.times(db)).square_root(), k_c);
    Triple {
        a: base.a.plus(dl).plus(wide_l.minus(dl).times(strength)),
        b: base.b.plus(da).plus(da.times(gain).minus(da).times(strength)),
        c: base.c.plus(db).plus(db.times(gain).minus(db).times(strength)),
    }
}

/// Stretches the difference of a colour from the mean of its surroundings: lightness and chroma
/// each by its own response, and by `strength` of the way.
pub fn apply_gain(lab: Triple, base: Triple, k_l: Single, k_c: Single, strength: Single) -> (r:
    Triple)
    ensures
        r == stretched(lab, base, k_l, k_c, strength),
{
    let dl: Single = lab.a.minus(base.a);
    let da: Single = lab.b.minus(base.b);
    let db: Single = lab.c.minus(base.c);
    let wide_l: Single = dl.times(un_dim(dl.abs(), k_l));
    let gain: Single = un_dim(da.times(da).plus(db.times(db)).square_root(), k_c);
    Triple {
        a: base.a.plus(dl).plus(wide_l.minus(dl).times(strength)),
        b: base.b.plus(da).plus(da.times(gain).minus(da).times(strength)),
        c: base.c.plus(db).plus(db.times(gain).minus(db).times(strength)),
    }
}

/// A place moved by `d` along a side of `n` pixels, kept on it.
pub open spec fn moved(x: int, d: int, n: int) -> int {
    if x + d < 0 {
        0
    } else if x + d > n - 1 {
        n - 1
    } else {
        x + d
    }
}

fn move_along(x: usize, k: usize, radius: usize, n: usize) -> (r: usize)
    requires
        x < n,
        k <= 2 * radius,
        radius <= 48,
    ensures
        r == moved(x as int, k - radius, n as int),
        r < n,
{
    if k < radius {
        let back: usize = radius - k;
        if x < back {
            0
        } else {
            x - back
        }
    } else {
        let on: usize = k - radius;
        if n - 1 - x < on {
            n - 1
        } else {
            x + on
        }
    }
}

/// The place of a neighbour of pixel `p`, `d` pixels on in its row or its column.
pub open spec fn tap(w: int, h: int, p: int, across: bool, d: int) -> int {
    if across {
        (p / w) * w + moved(p % w, d, w)
    } else {
        moved(p / w, d, h) * w + p % w
    }
}

/// The neighbours of a pixel in its row or its column, itself in the middle.
pub open spec fn window(
    src: Seq<Triple>,
    w: int,
    h: int,
    p: int,
    across: bool,
    radius: int,
) -> Seq<Triple> {
    Seq::new((2 * radius + 1) as nat, |k: int| src[tap(w, h, p, across, k - radius)])
}

/// Minus the square of a distance.
pub open spec fn minus_square(d: int) -> Single {
    if d == 0 {
        Single::whole(0)
    } else {
        Single::whole((d * d) as u64).neg()
    }
}

/// Minus the square of the distance between two colours.
pub open spec fn minus_distance(s: Triple, centre: Triple) -> Single {
    let a = s.a.minus(centre.a);
    let b = s.b.minus(centre.b);
    let c = s.c.minus(centre.c);
    a.times(a).plus(b.times(b)).plus(c.times(c)).neg()
}

/// `weight` is that of a neighbour `d` pixels away: the nearer and the more alike, the heavier.
pub open spec fn weight_is<E: Fn(Single) -> Single>(
    exp: E,
    s: Triple,
    centre: Triple,
    d: int,
    blur: Blur,
    weight: Single,
) -> bool {
    exists|near: Single, alike: Single|
        #[trigger] exp.ensures((minus_square(d).times(blur.rs),), near) && #[trigger] exp.ensures(
            (minus_distance(s, centre).times(blur.es),),
            alike,
        ) && weight == near.times(alike)
}

/// How wide a blur reaches, and how fast its weights fall with the distance on the picture and
/// with that of the colours.
#[derive(Debug, Clone, Copy, PartialEq, Eq)]
pub struct Blur {
    pub radius: usize,
    pub rs: Single,
    pub es: Single,
}

pub open spec fn blur_of(radius: usize, edge: Single) -> Blur {
    let r: usize = if radius < 2 {
        2
    } else if radius > 48 {
        48
    } else {
        radius
    };
    let sigma = Single::whole(r as u64).times(Single::ratio(1, 2)).larger(Single::ratio(6, 10));
    let e = edge.larger(Single::ratio(1, 10_000));
    Blur {
        radius: r,
        rs: Single::whole(1).over(Single::whole(2).times(sigma).times(sigma)),
        es: Single::whole(1).over(Single::whole(2).times(e).times(e)),
    }
}

/// The blur for a radius, from 2 to 48 pixels, that keeps edges of colour.
pub fn blur_settings(radius: usize, edge: Single) -> (r: Blur)
    ensures
        r == blur_of(radius, edge),
        2 <= r.radius <= 48,
{
    let n: usize = if radius < 2 {
        2
    } else if radius > 48 {
        48
    } else {
        radius
    };
    let sigma: Single = Single::whole(n as u64).times(Single::ratio(1, 2)).larger(
        Single::ratio(6, 10),
    );
    let e: Single = edge.larger(Single::ratio(1, 10_000));
    Blur {
        radius: n,
        rs: Single::whole(1).over(Single::whole(2).times(sigma).times(sigma)),
        es: Single::whole(1).over(Single::whole(2).times(e).times(e)),
    }
}

fn weigh<E: Fn(Single) -> Single>(s: Triple, centre: Triple, k: usize, blur: Blur, exp: &E) -> (r:
    Single)
    requires
        blur.radius <= 48,
        k <= 2 * blur.radius,
        forall|a: Single| #[trigger] exp.requires((a,)),
    ensures
        weight_is(*exp, s, centre, k - blur.radius, blur, r),
{
    let d: u64 = if k < blur.radius {
        (blur.radius - k) as u64
    } else {
        (k - blur.radius) as u64
    };
    proof {
        let signed = k - blur.radius;
        assert(d * d == signed * signed) by (nonlinear_arith)
            requires
                d == signed || d == -signed,
        ;
        assert(d * d <= 48 * 48) by (nonlinear_arith)
            requires
                0 <= d <= 48,
        ;
        assert(d * d == 0 <==> d == 0) by (nonlinear_arith)
            requires
                0 <= d,
        ;
    }
    let square: Single = if d == 0 {
        Single::whole(0)
    } else {
        Single::whole(d * d).neg()
    };
    let near: Single = exp(square.times(blur.rs));
    let a: Single = s.a.minus(centre.a);
    let b: Single = s.b.minus(centre.b);
    let c: Single = s.c.minus(centre.c);
    let alike: Single = exp(
        a.times(a).plus(b.times(b)).plus(c.times(c)).neg().times(blur.es),
    );
    proof {
        assert(square == minus_square(k - blur.radius));
        assert(exp.ensures((minus_square(k - blur.radius).times(blur.rs),), near));
        assert(exp.ensures((minus_distance(s, centre).times(blur.es),), alike));
    }
    near.times(alike)
}

/// Weighted sum of the first `n` colours, and the sum of their weights.
pub open spec fn weighted(colours: Seq<Triple>, weights: Seq<Single>, n: nat) -> (Triple, Single)
    decreases n,
{
    if n == 0 {
        (
            Triple { a: Single::whole(0), b: Single::whole(0), c: Single::whole(0) },
            Single::whole(0),
        )
    } else {
        let (acc, sum) = weighted(colours, weights, (n - 1) as nat);
        let s = colours[n - 1];
        let w = weights[n - 1];
        (
            Triple {
                a: acc.a.plus(s.a.times(w)),
                b: acc.b.plus(s.b.times(w)),
                c: acc.c.plus(s.c.times(w)),
            },
            sum.plus(w),
        )
    }
}

/// Mean of some colours by their weights.
pub open spec fn mean_of(colours: Seq<Triple>, weights: Seq<Single>) -> Triple {
    let (acc, sum) = weighted(colours, weights, colours.len());
    let inv = Single::whole(1).over(sum.larger(Single::ratio(1, 1_000_000)));
    Triple { a: acc.a.times(inv), b: acc.b.times(inv), c: acc.c.times(inv) }
}

/// The weights of a window around `centre`.
pub open spec fn weights_are<E: Fn(Single) -> Single>(
    exp: E,
    colours: Seq<Triple>,
    centre: Triple,
    blur: Blur,
    weights: Seq<Single>,
) -> bool {
    &&& weights.len() == colours.len()
    &&& forall|k: int|
        0 <= k < colours.len() ==> weight_is(
            exp,
            colours[k],
            centre,
            k - blur.radius,
            blur,
            #[trigger] weights[k],
        )
}

/// `out` is the mean of a window around `centre`.
pub open spec fn blurred<E: Fn(Single) -> Single>(
    exp: E,
    colours: Seq<Triple>,
    centre: Triple,
    blur: Blur,
    out: Triple,
) -> bool {
    exists|weights: Seq<Single>| #[trigger]
        weights_are(exp, colours, centre, blur, weights) && out == mean_of(colours, weights)
}

/// `dst` is `src` blurred along its rows or its columns.
pub open spec fn blurred_along<E: Fn(Single) -> Single>(
    exp: E,
    src: Seq<Triple>,
    dst: Seq<Triple>,
    w: int,
    h: int,
    across: bool,
    blur: Blur,
) -> bool {
    &&& dst.len() == src.len()
    &&& forall|p: int|
        0 <= p < src.len() ==> blurred(
            exp,
            window(src, w, h, p, across, blur.radius as int),
            src[p],
            blur,
            #[trigger] dst[p],
        )
}

proof fn lemma_cell(p: int, w: int, h: int)
    requires
        0 <= p < w * h,
        w > 0,
        h > 0,
    ensures
        0 <= p % w < w,
        0 <= p / w < h,
        (p / w) * w + p % w == p,
{
    vstd::arithmetic::div_mod::lemma_fundamental_div_mod(p, w);
    vstd::arithmetic::div_mod::lemma_mod_bound(p, w);
    assert((p / w) * w == w * (p / w)) by (nonlinear_arith);
    assert(p / w >= 0) by (nonlinear_arith)
        requires
            p >= 0,
            w > 0,
    ;
    assert(p / w < h) by (nonlinear_arith)
        requires
            p == w * (p / w) + p % w,
            p % w >= 0,
            p < w * h,
            w > 0,
    ;
}

proof fn lemma_in_frame(x: int, y: int, w: int, h: int)
    requires
        0 <= x < w,
        0 <= y < h,
    ensures
        0 <= y * w + x < w * h,
        0 <= y * w <= w * h,
{
    assert(y * w + x < w * h && y * w >= 0) by (nonlinear_arith)
        requires
            0 <= x < w,
            0 <= y < h,
    ;
}

fn blur_pixel<E: Fn(Single) -> Single>(
    src: &Vec<Triple>,
    w: usize,
    h: usize,
    p: usize,
    across: bool,
    blur: Blur,
    exp: &E,
) -> (r: Triple)
    requires
        w > 0,
        h > 0,
        src.len() == w * h,
        p < w * h,
        2 <= blur.radius <= 48,
        forall|a: Single| #[trigger] exp.requires((a,)),
    ensures
        blurred(
            *exp,
            window(src@, w as int, h as int, p as int, across, blur.radius as int),
            src@[p as int],
            blur,
            r,
        ),
{
    let ghost win = window(src@, w as int, h as int, p as int, across, blur.radius as int);
    proof {
        lemma_cell(p as int, w as int, h as int);
    }
    let x: usize = p % w;
    let y: usize = p / w;
    let centre: Triple = src[p];
    let zero: Single = Single::whole(0);
    let mut acc: Triple = Triple { a: zero, b: zero, c: zero };
    let mut sum: Single = zero;
    let ghost mut weights: Seq<Single> = Seq::empty();
    let n: usize = 2 * blur.radius + 1;
    let mut k: usize = 0;
    while k < n
        invariant
            k <= n,
            n == 2 * blur.radius + 1,
            2 <= blur.radius <= 48,
            w > 0,
            h > 0,
            src.len() == w * h,
            p < w * h,
            x == p % w,
            y == p / w,
            x < w,
            y < h,
            win == window(src@, w as int, h as int, p as int, across, blur.radius as int),
            forall|a: Single| #[trigger] exp.requires((a,)),
            weights.len() == k,
            forall|j: int|
                0 <= j < k ==> weight_is(
                    *exp,
                    win[j],
                    centre,
                    j - blur.radius,
                    blur,
                    #[trigger] weights[j],
                ),
            (acc, sum) == weighted(win, weights, k as nat),
        decreases n - k,
    {
        let at: usize;
        if across {
            let xx: usize = move_along(x, k, blur.radius, w);
            proof {
                lemma_in_frame(xx as int, y as int, w as int, h as int);
            }
            at = y * w + xx;
        } else {
            let yy: usize = move_along(y, k, blur.radius, h);
            proof {
                lemma_in_frame(x as int, yy as int, w as int, h as int);
            }
            at = yy * w + x;
        }
        let s: Triple = src[at];
        proof {
            assert(at == tap(w as int, h as int, p as int, across, k - blur.radius));
            assert(s == win[k as int]);
        }
        let wt: Single = weigh(s, centre, k, blur, exp);
        proof {
            let before = weights;
            weights = weights.push(wt);
            lemma_weighted_prefix(win, before, weights, k as nat);
        }
        acc = Triple {
            a: acc.a.plus(s.a.times(wt)),
            b: acc.b.plus(s.b.times(wt)),
            c: acc.c.plus(s.c.times(wt)),
        };
        sum = sum.plus(wt);
        k = k + 1;
    }
    let inv: Single = Single::whole(1).over(sum.larger(Single::ratio(1, 1_000_000)));
    proof {
        assert(weights_are(*exp, win, centre, blur, weights));
    }
    Triple { a: acc.a.times(inv), b: acc.b.times(inv), c: acc.c.times(inv) }
}

proof fn lemma_weighted_prefix(colours: Seq<Triple>, a: Seq<Single>, b: Seq<Single>, n: nat)
    requires
        n <= a.len(),
        n <= b.len(),
        forall|i: int| 0 <= i < n ==> a[i] == b[i],
    ensures
        weighted(colours, a, n) == weighted(colours, b, n),
    decreases n,
{
    if n > 0 {
        lemma_weighted_prefix(colours, a, b, (n - 1) as nat);
    }
}

fn blur_along<E: Fn(Single) -> Single>(
    src: &Vec<Triple>,
    w: usize,
    h: usize,
    across: bool,
    blur: Blur,
    exp: &E,
) -> (r: Vec<Triple>)
    requires
        w > 0,
        h > 0,
        src.len() == w * h,
        2 <= blur.radius <= 48,
        forall|a: Single| #[trigger] exp.requires((a,)),
    ensures
        blurred_along(*exp, src@, r@, w as int, h as int, across, blur),
{
    let mut out: Vec<Triple> = Vec::with_capacity(src.len());
    let mut p: usize = 0;
    while p < src.len()
        invariant
            p <= src.len(),
            w > 0,
            h > 0,
            src.len() == w * h,
            2 <= blur.radius <= 48,
            forall|a: Single| #[trigger] exp.requires((a,)),
            out@.len() == p,
            forall|k: int|
                0 <= k < p ==> blurred(
                    *exp,
                    window(src@, w as int, h as int, k, across, blur.radius as int),
                    src@[k],
                    blur,
                    #[trigger] out@[k],
                ),
        decreases src.len() - p,
    {
        out.push(blur_pixel(src, w, h, p, across, blur, exp));
        p = p + 1;
    }
    out
}

/// `base` is the edge-aware mean of `lab`: blurred along the rows, then along the columns.
pub open spec fn is_base<E: Fn(Single) -> Single>(
    exp: E,
    lab: Seq<Triple>,
    base: Seq<Triple>,
    w: int,
    h: int,
    blur: Blur,
) -> bool {
    exists|rows: Seq<Triple>|
        #[trigger] blurred_along(exp, lab, rows, w, h, true, blur) && blurred_along(
            exp,
            rows,
            base,
            w,
            h,
            false,
            blur,
        )
}

/// Edge-aware mean of the surroundings of each pixel.
pub fn bilateral_base<E: Fn(Single) -> Single>(
    lab: &Vec<Triple>,
    w: usize,
    h: usize,
    radius: usize,
    edge: Single,
    exp: &E,
) -> (r: Vec<Triple>)
    requires
        w > 0,
        h > 0,
        lab@.len() == w * h,
        forall|a: Single| #[trigger] exp.requires((a,)),
    ensures
        r@.len() == lab@.len(),
        is_base(*exp, lab@, r@, w as int, h as int, blur_of(radius, edge)),
{
    let blur: Blur = blur_settings(radius, edge);
    let rows: Vec<Triple> = blur_along(lab, w, h, true, blur, exp);
    let out: Vec<Triple> = blur_along(&rows, w, h, false, blur, exp);
    proof {
        assert(blurred_along(*exp, lab@, rows@, w as int, h as int, true, blur));
    }
    out
}

/// Whether the pass does anything.
pub open spec fn acts(options: PipelineOptions) -> bool {
    options.bujack_enabled && !options.bujack_strength.at_most(Single::whole(0))
}

fn is_on(options: &PipelineOptions) -> (r: bool)
    ensures
        r == acts(*options),
{
    options.bujack_enabled && !options.bujack_strength.at_most(Single::whole(0))
}

/// `linear` is what a pixel is taken for: decoded where it is encoded.
pub open spec fn taken_for<P: Fn(Single, Single) -> Single>(
    power: P,
    encoded: bool,
    px: Triple,
    linear: Triple,
) -> bool {
    if encoded {
        &&& crate::color_space::decodes(power, px.a, linear.a)
        &&& crate::color_space::decodes(power, px.b, linear.b)
        &&& crate::color_space::decodes(power, px.c, linear.c)
    } else {
        linear == px
    }
}

/// `lab` is the OkLab of a pixel.
pub open spec fn pixel_lab<P: Fn(Single, Single) -> Single, C: Fn(Single) -> Single>(
    power: P,
    root: C,
    encoded: bool,
    px: Triple,
    lab: Triple,
) -> bool {
    exists|linear: Triple| #[trigger]
        taken_for(power, encoded, px, linear) && is_oklab(root, linear, lab)
}

/// `out` is what a linear colour within the gamut is written as.
pub open spec fn written_as<P: Fn(Single, Single) -> Single>(
    power: P,
    encoded: bool,
    rgb: Triple,
    out: Triple,
) -> bool {
    if encoded {
        crate::color_space::encodes(power, rgb.a, out.a) && crate::color_space::encodes(power, rgb.b, out.b) && crate::color_space::encodes(power, rgb.c, out.c)
    } else {
        out == (Triple {
            a: rgb.a.clamp(Single::whole(0), Single::whole(1)),
            b: rgb.b.clamp(Single::whole(0), Single::whole(1)),
            c: rgb.c.clamp(Single::whole(0), Single::whole(1)),
        })
    }
}

/// The radius that is asked for, in whole pixels.
pub open spec fn radius_of(options: PipelineOptions) -> usize {
    options.bujack_radius.rounded().to_int(0x7fff_ffff) as usize
}

/// A picture before and after the pass, by way of its colours and of the means of their
/// surroundings.
pub open spec fn passed_by_way<
    P: Fn(Single, Single) -> Single,
    C: Fn(Single) -> Single,
    E: Fn(Single) -> Single,
>(
    power: P,
    root: C,
    exp: E,
    before: FilmImage,
    after: Seq<Single>,
    options: PipelineOptions,
    encoded: bool,
    lab: Seq<Triple>,
    base: Seq<Triple>,
) -> bool {
    let n = before.width * before.height;
    &&& lab.len() == n
    &&& base.len() == n
    &&& forall|p: int|
        0 <= p < n ==> pixel_lab(
            power,
            root,
            encoded,
            crate::color::pixel(before.samples@, p),
            #[trigger] lab[p],
        )
    &&& is_base(
        exp,
        lab,
        base,
        before.width as int,
        before.height as int,
        blur_of(radius_of(options), options.bujack_edge),
    )
    &&& forall|p: int|
        0 <= p < n ==> written_as(
            power,
            encoded,
            clipped(
                from_oklab(
                    stretched(
                        lab[p],
                        base[p],
                        options.bujack_k_l,
                        options.bujack_k_c,
                        options.bujack_strength,
                    ),
                ),
            ),
            #[trigger] crate::color::pixel(after, p),
        )
}

fn lab_of_pixel<P: Fn(Single, Single) -> Single, C: Fn(Single) -> Single>(
    px: Triple,
    encoded: bool,
    power: &P,
    root: &C,
) -> (r: Triple)
    requires
        forall|a: Single, b: Single| #[trigger] power.requires((a, b)),
        forall|a: Single| #[trigger] root.requires((a,)),
    ensures
        pixel_lab(*power, *root, encoded, px, r),
{
    let linear: Triple = if encoded {
        Triple {
            a: srgb_to_linear(px.a, power),
            b: srgb_to_linear(px.b, power),
            c: srgb_to_linear(px.c, power),
        }
    } else {
        px
    };
    let lab: Triple = lin_to_oklab(linear, root);
    proof {
        assert(taken_for(*power, encoded, px, linear));
    }
    lab
}

fn write_pixel<P: Fn(Single, Single) -> Single>(rgb: Triple, encoded: bool, power: &P) -> (r:
    Triple)
    requires
        forall|a: Single, b: Single| #[trigger] power.requires((a, b)),
    ensures
        written_as(*power, encoded, rgb, r),
{
    let zero: Single = Single::whole(0);
    let one: Single = Single::whole(1);
    if encoded {
        Triple {
            a: linear_to_srgb(rgb.a, power),
            b: linear_to_srgb(rgb.b, power),
            c: linear_to_srgb(rgb.c, power),
        }
    } else {
        Triple {
            a: rgb.a.clamp(zero, one),
            b: rgb.b.clamp(zero, one),
            c: rgb.c.clamp(zero, one),
        }
    }
}

fn picture_lab<P: Fn(Single, Single) -> Single, C: Fn(Single) -> Single>(
    image: &FilmImage,
    encoded: bool,
    power: &P,
    root: &C,
) -> (r: Vec<Triple>)
    requires
        image.wf(),
        image.channels == 3,
        forall|a: Single, b: Single| #[trigger] power.requires((a, b)),
        forall|a: Single| #[trigger] root.requires((a,)),
    ensures
        r@.len() == image.width * image.height,
        forall|p: int|
            0 <= p < r@.len() ==> pixel_lab(
                *power,
                *root,
                encoded,
                crate::color::pixel(image.samples@, p),
                #[trigger] r@[p],
            ),
{
    let n: usize = image.samples.len() / 3;
    proof {
        let a = image.width * image.height;
        assert(image.width * image.height * image.channels == a * 3);
    }
    let mut out: Vec<Triple> = Vec::with_capacity(n);
    let mut p: usize = 0;
    while p < n
        invariant
            p <= n,
            n * 3 == image.samples.len(),
            forall|a: Single, b: Single| #[trigger] power.requires((a, b)),
            forall|a: Single| #[trigger] root.requires((a,)),
            out@.len() == p,
            forall|k: int|
                0 <= k < p ==> pixel_lab(
                    *power,
                    *root,
                    encoded,
                    crate::color::pixel(image.samples@, k),
                    #[trigger] out@[k],
                ),
        decreases n - p,
    {
        let px: Triple = Triple {
            a: image.samples[3 * p],
            b: image.samples[3 * p + 1],
            c: image.samples[3 * p + 2],
        };
        out.push(lab_of_pixel(px, encoded, power, root));
        p = p + 1;
    }
    out
}

/// Stretches the differences of colour in a picture, linear or `encoded`. Without strength, and
/// where it is switched off, the picture stays as it is; so does one without three channels, or
/// without a pixel.
pub fn apply_to_f32<
    P: Fn(Single, Single) -> Single,
    C: Fn(Single) -> Single,
    E: Fn(Single) -> Single,
>(image: &mut FilmImage, options: &PipelineOptions, encoded: bool, power: &P, root: &C, exp: &E)
    requires
        old(image).wf(),
        forall|a: Single, b: Single| #[trigger] power.requires((a, b)),
        forall|a: Single| #[trigger] root.requires((a,)),
        forall|a: Single| #[trigger] exp.requires((a,)),
    ensures
        final(image).wf(),
        final(image).width == old(image).width,
        final(image).height == old(image).height,
        final(image).channels == old(image).channels,
        !acts(*options) || old(image).channels != 3 || old(image).width == 0 || old(image).height
            == 0 ==> final(image).samples@ == old(image).samples@,
        acts(*options) && old(image).channels == 3 && old(image).width > 0 && old(image).height
            > 0 ==> exists|lab: Seq<Triple>, base: Seq<Triple>| #[trigger]
            passed_by_way(
                *power,
                *root,
                *exp,
                *old(image),
                final(image).samples@,
                *options,
                encoded,
                lab,
                base,
            ),
{
    if !is_on(options) {
        return;
    }
    if image.channels != 3 || image.width == 0 || image.height == 0 {
        return;
    }
    let ghost frame = *image;
    let w: usize = image.width;
    let h: usize = image.height;
    let lab: Vec<Triple> = picture_lab(image, encoded, power, root);
    let radius: u64 = options.bujack_radius.rounded().to_int(0x7fff_ffff);
    proof {
        crate::single::lemma_to_int_bound(options.bujack_radius.rounded(), 0x7fff_ffff);
    }
    let base: Vec<Triple> = bilateral_base(
        &lab,
        w,
        h,
        radius as usize,
        options.bujack_edge,
        exp,
    );
    let n: usize = lab.len();
    proof {
        let a = frame.width * frame.height;
        assert(frame.width * frame.height * frame.channels == a * 3);
    }
    let mut p: usize = 0;
    while p < n
        invariant
            p <= n,
            n == lab@.len(),
            n == base@.len(),
            n * 3 == image.samples.len(),
            image.width == frame.width,
            image.height == frame.height,
            image.channels == frame.channels,
            forall|a: Single, b: Single| #[trigger] power.requires((a, b)),
            forall|k: int|
                0 <= k < p ==> written_as(
                    *power,
                    encoded,
                    clipped(
                        from_oklab(
                            stretched(
                                lab@[k],
                                base@[k],
                                options.bujack_k_l,
                                options.bujack_k_c,
                                options.bujack_strength,
                            ),
                        ),
                    ),
                    #[trigger] crate::color::pixel(image.samples@, k),
                ),
        decreases n - p,
    {
        let wide: Triple = apply_gain(
            lab[p],
            base[p],
            options.bujack_k_l,
            options.bujack_k_c,
            options.bujack_strength,
        );
        let out: Triple = write_pixel(gamut_clip(oklab_to_lin(wide)), encoded, power);
        let ghost before = image.samples@;
        image.samples.set(3 * p, out.a);
        image.samples.set(3 * p + 1, out.b);
        image.samples.set(3 * p + 2, out.c);
        proof {
            assert(crate::color::pixel(image.samples@, p as int) == out);
            assert forall|k: int| 0 <= k < p + 1 implies written_as(
                *power,
                encoded,
                clipped(
                    from_oklab(
                        stretched(
                            lab@[k],
                            base@[k],
                            options.bujack_k_l,
                            options.bujack_k_c,
                            options.bujack_strength,
                        ),
                    ),
                ),
                #[trigger] crate::color::pixel(image.samples@, k),
            ) by {
                if k < p {
                    assert(crate::color::pixel(image.samples@, k) == crate::color::pixel(
                        before,
                        k,
                    ));
                }
            }
        }
        p = p + 1;
    }
    proof {
        assert(passed_by_way(
            *power,
            *root,
            *exp,
            frame,
            image.samples@,
            *options,
            encoded,
            lab@,
            base@,
        ));
    }
}

/// Stretches the differences of colour in linear 16-bit samples, `w` by `h` pixels.
pub fn apply_to_u16_linear<
    P: Fn(Single, Single) -> Single,
    C: Fn(Single) -> Single,
    E: Fn(Single) -> Single,
>(
    image: &mut Vec<u16>,
    w: usize,
    h: usize,
    options: &PipelineOptions,
    power: &P,
    root: &C,
    exp: &E,
)
    requires
        old(image)@.len() == w * h * 3,
        forall|a: Single, b: Single| #[trigger] power.requires((a, b)),
        forall|a: Single| #[trigger] root.requires((a,)),
        forall|a: Single| #[trigger] exp.requires((a,)),
    ensures
        final(image)@.len() == old(image)@.len(),
        !acts(*options) || w == 0 || h == 0 ==> final(image)@ == old(image)@,
        acts(*options) && w > 0 && h > 0 ==> exists|
            start: FilmImage,
            after: Seq<Single>,
            lab: Seq<Triple>,
            base: Seq<Triple>,
        |
            {
                &&& start.width == w
                &&& start.height == h
                &&& start.samples@ == old(image)@.map_values(
                    |v: u16| crate::color::part_of_one(v),
                )
                &&& #[trigger] passed_by_way(
                    *power,
                    *root,
                    *exp,
                    start,
                    after,
                    *options,
                    false,
                    lab,
                    base,
                )
                &&& final(image)@ == after.map_values(|v: Single| crate::color::on_16_bits(v))
            },
{
    if !is_on(options) {
        return;
    }
    if w == 0 || h == 0 {
        return;
    }
    let ghost begun = image@;
    let scale: Single = Single::whole(1).over(Single::whole(65_535));
    let total: usize = image.len();
    let mut samples: Vec<Single> = Vec::with_capacity(total);
    let mut i: usize = 0;
    while i < total
        invariant
            i <= total,
            total == begun.len(),
            image@ == begun,
            samples@.len() == i,
            scale == Single::whole(1).over(Single::whole(65_535)),
            forall|k: int|
                0 <= k < i ==> #[trigger] samples@[k] == crate::color::part_of_one(begun[k]),
        decreases total - i,
    {
        samples.push(Single::whole(image[i] as u64).times(scale));
        i = i + 1;
    }
    let mut whole: FilmImage = FilmImage { width: w, height: h, channels: 3, samples };
    let ghost start = whole;
    proof {
        assert(start.samples@ =~= begun.map_values(|v: u16| crate::color::part_of_one(v)));
    }
    apply_to_f32(&mut whole, options, false, power, root, exp);
    proof {
        let a = w * h;
        assert(whole.width * whole.height * whole.channels == a * 3);
    }
    let mut k: usize = 0;
    while k < total
        invariant
            k <= total,
            total == whole.samples@.len(),
            image@.len() == total,
            forall|j: int|
                0 <= j < k ==> #[trigger] image@[j] == crate::color::on_16_bits(whole.samples@[j]),
        decreases total - k,
    {
        let q: Single = whole.samples[k].clamp(Single::whole(0), Single::whole(1)).times(
            Single::whole(65_535),
        ).rounded();
        proof {
            crate::single::lemma_to_int_bound(q, 0xffff);
        }
        image.set(k, q.to_int(0xffff) as u16);
        k = k + 1;
    }
    proof {
        let after = whole.samples@;
        assert(image@ =~= after.map_values(|v: Single| crate::color::on_16_bits(v)));
        let (lab, base) = choose|lab: Seq<Triple>, base: Seq<Triple>| #[trigger]
            passed_by_way(*power, *root, *exp, start, after, *options, false, lab, base);
        assert(passed_by_way(*power, *root, *exp, start, after, *options, false, lab, base));
    }
}

/// Where there is no difference, there is nothing to stretch: the gain is one, for every
/// positive response.
pub proof fn no_difference_has_no_gain(k: Single)
    requires
        k.finite(),
        !k.negative(),
        k.mag() > 0,
    ensures
        un_dim_spec(Single::whole(0), k) == Single::whole(1),
{
    reveal(Single::plus_spec);
    reveal(Single::neg_spec);
    reveal(Single::times_spec);
    reveal(Single::over_spec);
    reveal(Single::larger_spec);
    reveal(Single::at_most_spec);
    reveal(Single::less_spec);
    let zero = Single::whole_spec(0);
    let one = Single::whole_spec(1);
    let f = Single::ratio_spec(15, 100);
    let p = pow2(149);
    lemma_pow2_pos(149);
    crate::single::lemma_whole_exact(0);
    crate::single::lemma_whole_exact(1);
    crate::single::lemma_ratio_bounds(15, 100, zero, one);
    crate::single::lemma_units_monotone(f, one);
    crate::single::lemma_round_self(zero);
    crate::single::lemma_zero_rounds(false, 1);
    assert(zero.mag() == 0);
    crate::single::lemma_units_monotone(zero, k);
    assert(k.units() > 0);
    crate::single::lemma_round_self(k);
    crate::single::lemma_round_self(one);
    assert(zero.neg_spec().units() == zero.units());
    assert(k.minus_spec(zero) == k);
    let part = k.times_spec(f);
    assert(k.units() * f.units() <= k.units() * p) by (nonlinear_arith)
        requires
            f.units() <= p,
    ;
    crate::single::lemma_round_at_most(k.units() * f.units(), p, k);
    assert(part.mag() <= k.mag() && part.finite() && !part.negative());
    crate::single::lemma_units_monotone(part, k);
    crate::single::order_is_by_value(part, k);
    crate::single::order_is_by_value(k, part);
    assert(k.larger_spec(part) == k);
    assert(k.units() > 0);
    crate::single::lemma_scale(false, p, 1, k.units());
    assert(p * k.units() == k.units() * p && 1 * k.units() == k.units()) by (nonlinear_arith);
    assert(k.over_spec(k) == one);
}

/// The least that a difference leaves of a response is nearly 15 percent of it.
proof fn lemma_least_left(k: Single)
    requires
        k.finite(),
        !k.negative(),
        pow2(149) <= 1_000_000 * k.units(),
        k.units() <= 1_000_000 * pow2(149),
    ensures
        ({
            let q = k.times(Single::ratio(15, 100));
            &&& q.finite()
            &&& !q.negative()
            &&& 1499 * k.units() <= 10_000 * q.units()
        }),
{
    lemma2_to64();
    lemma2_to64_rest();
    lemma_pow2_strictly_increases(64, 149);
    lemma_pow2_adds(64, 85);
    lemma_pow2_strictly_increases(64, 85);
    lemma_pow2_adds(121, 149);
    lemma_pow2_strictly_increases(64, 121);
    reveal(Single::ratio_spec);
    reveal(Single::times_spec);
    let c = pow2(149);
    let big = pow2(270);
    let ku = k.units();
    assert(c >= 0x1_0000_0000_0000_0000_0000_0000_0000_0000) by (nonlinear_arith)
        requires
            c == pow2(64) * pow2(85),
            pow2(64) == 0x1_0000_0000_0000_0000,
            pow2(85) >= 0x1_0000_0000_0000_0000,
    ;
    assert(big >= 0x1_0000_0000_0000_0000 * c) by (nonlinear_arith)
        requires
            big == pow2(121) * c,
            pow2(121) >= 0x1_0000_0000_0000_0000,
    ;
    assert(15 * c <= 100 * big);
    crate::single::lemma_round_near(15 * c, 100);
    let f = Single::ratio(15, 100).units();
    let n = ku * f;
    let x = ku * c;
    assert(n <= c * big) by (nonlinear_arith)
        requires
            n == ku * f,
            ku <= big,
            f <= c,
    ;
    crate::single::lemma_round_near(n, c);
    let q = k.times(Single::ratio(15, 100)).units();
    // The product against 15 percent, in units of both.
    assert(0x6400_0000 * n + 0x32_0000_0000_0000 * ku >= 0xeff_fff1 * x) by (nonlinear_arith)
        requires
            n == ku * f,
            x == ku * c,
            15 * c * 0xff_ffff <= f * 100 * 0x100_0000 + 0x8000_0000_0000 * 100,
    ;
    assert(x >= 0x1_0000_0000_0000_0000 * ku && 1_000_000 * x
        >= 0x1_0000_0000_0000_0000_0000_0000_0000_0000 * c) by (nonlinear_arith)
        requires
            x == ku * c,
            c >= 0x1_0000_0000_0000_0000_0000_0000_0000_0000,
            c <= 1_000_000 * ku,
    ;
    let qc = q * c;
    assert(10_000 * qc >= 1499 * x);
    assert((1499 * ku) * c <= (10_000 * q) * c) by (nonlinear_arith)
        requires
            10_000 * qc >= 1499 * x,
            qc == q * c,
            x == ku * c,
    ;
    vstd::arithmetic::mul::lemma_mul_inequality_converse(
        (1499 * ku) as int,
        (10_000 * q) as int,
        c as int,
    );
}

/// No difference is stretched by more than 6.7, whatever it is, for every response from a
/// millionth to a million.
pub proof fn gain_is_bounded(y: Single, k: Single)
    requires
        k.finite(),
        !k.negative(),
        pow2(149) <= 1_000_000 * k.units(),
        k.units() <= 1_000_000 * pow2(149),
    ensures
        un_dim_spec(y, k).at_most(Single::ratio(67, 10)),
{
    lemma_least_left(k);
    lemma2_to64();
    lemma_pow2_strictly_increases(64, 149);
    lemma_pow2_adds(121, 149);
    lemma_pow2_strictly_increases(4, 121);
    reveal(Single::over_spec);
    reveal(Single::larger_spec);
    reveal(Single::at_most_spec);
    reveal(Single::ratio_spec);
    let c = pow2(149);
    let a = Single::ratio(67, 10);
    assert(67 * c <= 10 * pow2(270)) by (nonlinear_arith)
        requires
            pow2(270) == pow2(121) * c,
            pow2(121) >= 16,
    ;
    crate::single::lemma_round_near(67 * c, 10);
    let q = k.times(Single::ratio(15, 100));
    crate::single::lemma_units_positive(k);
    crate::single::lemma_units_positive(q);
    let d = k.minus(y).larger(q);
    assert(d.key() >= q.key() && !d.not_a_number() && !d.negative());
    crate::single::lemma_zero();
    if d.finite() {
        crate::single::lemma_units_monotone(q, d);
        let du = d.units();
        let ku = k.units();
        assert(ku * c <= a.units() * du) by (nonlinear_arith)
            requires
                1499 * ku <= 10_000 * du,
                1000 * a.units() >= 6690 * c,
                c > 0,
        ;
        crate::single::lemma_round_at_most(ku * c, du, a);
    }
}

/// What a difference leaves of a response: the exact rest, rounded, with its sign.
proof fn lemma_rest(y: Single, k: Single)
    requires
        k.finite(),
        !k.negative(),
        y.finite(),
        !y.negative(),
    ensures
        k.minus(y).finite(),
        k.units() <= y.units() ==> k.minus(y).key() <= 0,
        k.units() > y.units() ==> k.minus(y) == crate::single::round_units(
            false,
            (k.units() - y.units()) as nat,
            1,
        ),
{
    reveal(Single::plus_spec);
    crate::single::lemma_opposite(y);
    if k.units() > y.units() {
        crate::single::lemma_round_at_most((k.units() - y.units()) as nat, 1, k);
    } else if k.units() < y.units() {
        let n = (y.units() - k.units()) as nat;
        crate::single::lemma_round_at_most(n, 1, y);
        crate::single::lemma_round_is_a_number(true, n, 1);
        assert(crate::single::round_units(true, n, 1).mag() == crate::single::round_units(
            false,
            n,
            1,
        ).mag());
    }
}

/// A larger difference is stretched by as much or more.
pub proof fn gain_grows_with_the_difference(y: Single, z: Single, k: Single)
    requires
        k.finite(),
        !k.negative(),
        pow2(149) <= 1_000_000 * k.units(),
        k.units() <= 1_000_000 * pow2(149),
        y.finite(),
        !y.negative(),
        z.finite(),
        !z.negative(),
        y.at_most(z),
    ensures
        un_dim_spec(y, k).at_most(un_dim_spec(z, k)),
{
    lemma_least_left(k);
    lemma_pow2_pos(149);
    crate::single::order_is_by_value(y, z);
    lemma_rest(y, k);
    lemma_rest(z, k);
    reveal(Single::over_spec);
    reveal(Single::larger_spec);
    reveal(Single::at_most_spec);
    let q = k.times(Single::ratio(15, 100));
    crate::single::lemma_units_positive(k);
    crate::single::lemma_units_positive(q);
    if k.units() > z.units() {
        crate::single::lemma_round_monotone(
            (k.units() - z.units()) as nat,
            1,
            (k.units() - y.units()) as nat,
            1,
        );
        crate::single::lemma_round_is_a_number(false, (k.units() - z.units()) as nat, 1);
        crate::single::lemma_round_is_a_number(false, (k.units() - y.units()) as nat, 1);
    }
    let d = k.minus(y).larger(q);
    let e = k.minus(z).larger(q);
    assert(d.key() >= e.key() >= q.key());
    crate::single::lemma_units_monotone(e, d);
    crate::single::lemma_units_positive(d);
    crate::single::lemma_units_positive(e);
    let n = k.units() * pow2(149);
    assert(n * e.units() <= n * d.units()) by (nonlinear_arith)
        requires
            e.units() <= d.units(),
            n >= 0,
    ;
    crate::single::lemma_round_monotone(n, d.units(), n, e.units());
    crate::single::lemma_round_is_a_number(false, n, d.units());
    crate::single::lemma_round_is_a_number(false, n, e.units());
}

/// A sample from zero to one, or one that is no number.
pub open spec fn is_sample(v: Single) -> bool {
    v.not_a_number() || crate::single::is_part(v)
}

proof fn lemma_held_between(v: Single)
    ensures
        is_sample(v.clamp(Single::whole(0), Single::whole(1))),
        v.clamp(Single::whole(0), Single::whole(1)).not_a_number() == v.not_a_number(),
{
    reveal(Single::less_spec);
    reveal(Single::at_most_spec);
    crate::single::lemma_zero();
    crate::single::lemma_whole_exact(1);
    crate::single::order_is_by_value(Single::whole(0), Single::whole(1));
}

/// What a colour is written as lies from zero to one in each of its numbers, and only what is no
/// number is written as none.
pub proof fn written_samples_lie_between_zero_and_one<P: Fn(Single, Single) -> Single>(
    power: P,
    encoded: bool,
    rgb: Triple,
    out: Triple,
)
    requires
        encoded ==> crate::color_space::raises_parts(power),
        written_as(power, encoded, rgb, out),
    ensures
        is_sample(out.a) && out.a.not_a_number() == rgb.a.not_a_number(),
        is_sample(out.b) && out.b.not_a_number() == rgb.b.not_a_number(),
        is_sample(out.c) && out.c.not_a_number() == rgb.c.not_a_number(),
{
    if encoded {
        crate::color_space::codes_lie_between_zero_and_one(power, rgb.a, out.a);
        crate::color_space::codes_lie_between_zero_and_one(power, rgb.b, out.b);
        crate::color_space::codes_lie_between_zero_and_one(power, rgb.c, out.c);
    } else {
        lemma_held_between(rgb.a);
        lemma_held_between(rgb.b);
        lemma_held_between(rgb.c);
    }
}

/// The samples of a picture that went through the pass lie from zero to one, but for those that
/// are no numbers.
pub proof fn passed_samples_lie_between_zero_and_one<
    P: Fn(Single, Single) -> Single,
    C: Fn(Single) -> Single,
    E: Fn(Single) -> Single,
>(
    power: P,
    root: C,
    exp: E,
    before: FilmImage,
    after: Seq<Single>,
    options: PipelineOptions,
    encoded: bool,
    lab: Seq<Triple>,
    base: Seq<Triple>,
)
    requires
        encoded ==> crate::color_space::raises_parts(power),
        passed_by_way(power, root, exp, before, after, options, encoded, lab, base),
    ensures
        forall|k: int|
            0 <= k < before.width * before.height * 3 ==> is_sample(#[trigger] after[k]),
{
    assert forall|k: int| 0 <= k < before.width * before.height * 3 implies is_sample(
        #[trigger] after[k],
    ) by {
        let p = k / 3;
        assert(0 <= p < before.width * before.height);
        let out = crate::color::pixel(after, p);
        let rgb = clipped(
            from_oklab(
                stretched(
                    lab[p],
                    base[p],
                    options.bujack_k_l,
                    options.bujack_k_c,
                    options.bujack_strength,
                ),
            ),
        );
        written_samples_lie_between_zero_and_one(power, encoded, rgb, out);
        assert(after[k] == out.a || after[k] == out.b || after[k] == out.c);
    }
}

} // verus!
