//! Printing: from transmittance through density to the values of the print.
//!
//! The curves themselves are given as tables of 65 536 entries; here they are looked up,
//! scaled to the white point and mixed.

use vstd::prelude::*;
use crate::film::FilmImage;
use crate::single::Single;

verus! {

/// Entries of a curve table.
pub const LUT_LEN: usize = 65_536;

/// Last entry of a curve table, and the largest value of a print.
pub const LUT_LAST: u64 = 65_535;

/// Settings of the paper curve.
#[derive(Debug, Clone, Copy, PartialEq, Eq, Structural)]
pub struct PrintCurveParams {
    pub offset: Single,
    pub gamma: Single,
    pub pivot: Single,
}

/// Calibration matrix between densities, row by row.
#[derive(Debug, Clone, Copy)]
pub struct DensityMatrix {
    pub m: [[Single; 3]; 3],
}

/// Tables and settings of a print.
#[derive(Debug)]
pub struct CurvePipeline {
    /// Density of each transmittance, or empty where it is computed each time.
    pub t_to_d_lut: Vec<Single>,
    /// Value of the print at each density from zero to `d_max`.
    pub d_to_u16_lut: Vec<u16>,
    pub d_max: Single,
    /// What the table of the print was made with.
    pub params: PrintCurveParams,
    pub matrix: DensityMatrix,
}

impl CurvePipeline {
    /// The table of densities is complete or empty, that of the print is complete.
    pub open spec fn wf(self) -> bool {
        (self.t_to_d_lut.len() == LUT_LEN || self.t_to_d_lut.len() == 0) && self.d_to_u16_lut.len()
            == LUT_LEN
    }
}

/// Zero to one.
pub open spec fn part(v: Single) -> Single {
    v.clamp(Single::whole(0), Single::whole(1))
}

fn to_part(v: Single) -> (r: Single)
    ensures
        r == part(v),
{
    v.clamp(Single::whole(0), Single::whole(1))
}

/// Entry of a table for a value from zero to one.
pub open spec fn entry(x: Single) -> int {
    let i = x.times(Single::whole(LUT_LAST)).rounded().to_int(u64::MAX);
    if i < LUT_LAST {
        i as int
    } else {
        LUT_LAST as int
    }
}

fn entry_of(x: Single) -> (r: usize)
    ensures
        r == entry(x),
        r < LUT_LEN,
{
    let i: u64 = x.times(Single::whole(LUT_LAST)).rounded().to_int(u64::MAX);
    if i < LUT_LAST {
        i as usize
    } else {
        65_535
    }
}

/// A value from zero to one as a value of the print.
pub open spec fn quantized(x: Single) -> u16 {
    x.times(Single::whole(LUT_LAST)).rounded().to_int(0xffff) as u16
}

fn quantize(x: Single) -> (r: u16)
    ensures
        r == quantized(x),
{
    let v: u64 = x.times(Single::whole(LUT_LAST)).rounded().to_int(0xffff);
    proof {
        crate::single::lemma_to_int_bound(
            x.times(Single::whole(LUT_LAST)).rounded(),
            0xffff,
        );
    }
    v as u16
}

/// A value of the print as a number from zero to one.
pub open spec fn unit(v: u16) -> Single {
    Single::whole(v as u64).over(Single::whole(LUT_LAST))
}

fn to_unit(v: u16) -> (r: Single)
    ensures
        r == unit(v),
{
    Single::whole(v as u64).over(Single::whole(LUT_LAST))
}

/// The step between one and the next larger number.
pub open spec fn epsilon() -> Single {
    Single { bits: 0x3400_0000 }
}

/// The white point in the range that is used.
pub open spec fn white(white_point: Single) -> Single {
    white_point.clamp(Single::ratio(1, 1_000_000), Single::whole(10))
}

/// The white point changes the print.
pub open spec fn whitens(white_point: Single) -> bool {
    epsilon().less(white(white_point).minus(Single::whole(1)).abs())
}

/// One over the white point.
pub open spec fn gain(white_point: Single) -> Single {
    Single::whole(1).over(white(white_point))
}

fn gain_of(white_point: Single) -> (r: Option<Single>)
    ensures
        r == if whitens(white_point) {
            Some(gain(white_point))
        } else {
            None
        },
{
    let wp: Single = white_point.clamp(Single::ratio(1, 1_000_000), Single::whole(10));
    let eps: Single = Single { bits: 0x3400_0000 };
    if eps.less(wp.minus(Single::whole(1)).abs()) {
        Some(Single::whole(1).over(wp))
    } else {
        None
    }
}

/// A value of the print with the white point brought to white.
pub open spec fn whitened(v: u16, white_point: Single) -> u16 {
    if whitens(white_point) {
        quantized(part(unit(v).times(gain(white_point))))
    } else {
        v
    }
}

fn whiten(v: u16, gain: Option<Single>, Ghost(white_point): Ghost<Single>) -> (r: u16)
    requires
        gain == if whitens(white_point) {
            Some(crate::curve::gain(white_point))
        } else {
            None
        },
    ensures
        r == whitened(v, white_point),
{
    match gain {
        Some(g) => quantize(to_part(to_unit(v).times(g))),
        None => v,
    }
}

/// As [`whitened`], with values above white cut off but nothing below zero.
pub open spec fn capped(v: u16, white_point: Single) -> u16 {
    if whitens(white_point) {
        quantized(unit(v).times(gain(white_point)).smaller(Single::whole(1)))
    } else {
        v
    }
}

/// Looks a tone curve up for every sample of an image and brings the white point to white.
/// Samples outside zero to one take the first or last entry.
pub fn apply_curve_and_quantize(image: &FilmImage, lut: &Vec<u16>, white_point: Single) -> (r: Vec<
    u16,
>)
    requires
        lut.len() == LUT_LEN,
    ensures
        r.len() == image.samples.len(),
        forall|i: int|
            0 <= i < r.len() ==> #[trigger] r@[i] == capped(
                lut@[entry(part(image.samples@[i]))],
                white_point,
            ),
{
    let g: Option<Single> = gain_of(white_point);
    let one: Single = Single::whole(1);
    let mut out: Vec<u16> = Vec::new();
    let mut i: usize = 0;
    while i < image.samples.len()
        invariant
            i <= image.samples.len(),
            lut.len() == LUT_LEN,
            one == Single::whole(1),
            g == if whitens(white_point) {
                Some(gain(white_point))
            } else {
                None
            },
            out.len() == i,
            forall|k: int|
                0 <= k < i ==> #[trigger] out@[k] == capped(
                    lut@[entry(part(image.samples@[k]))],
                    white_point,
                ),
        decreases image.samples.len() - i,
    {
        let v: u16 = lut[entry_of(to_part(image.samples[i]))];
        out.push(
            match g {
                Some(g) => quantize(to_unit(v).times(g).smaller(one)),
                None => v,
            },
        );
        i = i + 1;
    }
    out
}

/// The matrix applied to three densities.
pub open spec fn matrixed(m: [[Single; 3]; 3], r: Single, g: Single, b: Single, c: int) -> Single {
    m@[c]@[0].times(r).plus(m@[c]@[1].times(g)).plus(m@[c]@[2].times(b))
}

/// Applies the calibration matrix to the three densities of a pixel.
pub fn apply_density_matrix_pixel(d_in: [Single; 3], matrix: &DensityMatrix) -> (r: [Single; 3])
    ensures
        forall|c: int|
            0 <= c < 3 ==> #[trigger] r@[c] == matrixed(
                matrix.m,
                d_in@[0],
                d_in@[1],
                d_in@[2],
                c,
            ),
{
    let m: &[[Single; 3]; 3] = &matrix.m;
    let r: Single = d_in[0];
    let g: Single = d_in[1];
    let b: Single = d_in[2];
    [
        m[0][0].times(r).plus(m[0][1].times(g)).plus(m[0][2].times(b)),
        m[1][0].times(r).plus(m[1][1].times(g)).plus(m[1][2].times(b)),
        m[2][0].times(r).plus(m[2][1].times(g)).plus(m[2][2].times(b)),
    ]
}

/// Entry of the print table for a density.
pub open spec fn density_entry(d: Single, d_max: Single) -> int {
    entry(
        if Single::whole(0).less(d_max) {
            d.clamp(Single::whole(0), d_max).over(d_max)
        } else {
            Single::whole(0)
        },
    )
}

fn density_entry_of(d: Single, d_max: Single) -> (r: usize)
    ensures
        r == density_entry(d, d_max),
        r < LUT_LEN,
{
    let zero: Single = Single::whole(0);
    let x: Single = if zero.less(d_max) {
        d.clamp(zero, d_max).over(d_max)
    } else {
        zero
    };
    entry_of(x)
}

/// Prints densities: looks each up in the table of the paper curve and brings the white point
/// to white. Density zero is film base; the denser, the brighter the print.
pub fn print_by_table(
    density_image: &FilmImage,
    d_to_u16_lut: &Vec<u16>,
    d_max: Single,
    white_point: Single,
) -> (r: Vec<u16>)
    requires
        d_to_u16_lut.len() == LUT_LEN,
        Single::whole(0).at_most(d_max),
    ensures
        r.len() == density_image.samples.len(),
        forall|i: int|
            0 <= i < r.len() ==> #[trigger] r@[i] == whitened(
                d_to_u16_lut@[density_entry(density_image.samples@[i], d_max)],
                white_point,
            ),
{
    let g: Option<Single> = gain_of(white_point);
    let mut out: Vec<u16> = Vec::new();
    let mut i: usize = 0;
    while i < density_image.samples.len()
        invariant
            i <= density_image.samples.len(),
            d_to_u16_lut.len() == LUT_LEN,
            g == if whitens(white_point) {
                Some(gain(white_point))
            } else {
                None
            },
            out.len() == i,
            forall|k: int|
                0 <= k < i ==> #[trigger] out@[k] == whitened(
                    d_to_u16_lut@[density_entry(density_image.samples@[k], d_max)],
                    white_point,
                ),
        decreases density_image.samples.len() - i,
    {
        let v: u16 = d_to_u16_lut[density_entry_of(density_image.samples[i], d_max)];
        out.push(whiten(v, g, Ghost(white_point)));
        i = i + 1;
    }
    out
}

/// `d` is the density of a transmittance: looked up where there is a table, else by the
/// machine's decimal logarithm.
pub open spec fn density_is<L: Fn(Single) -> Single>(
    pipeline: CurvePipeline,
    log10: L,
    t: Single,
    d: Single,
) -> bool {
    if pipeline.t_to_d_lut@.len() == 0 {
        crate::paper::density_of(log10, part(t), Single::ratio(1, 1_000_000), d)
    } else {
        d == pipeline.t_to_d_lut@[entry(part(part(t)))]
    }
}

fn sample_t_to_density<L: Fn(Single) -> Single>(t: Single, pipeline: &CurvePipeline, log10: &L)
    -> (r: Single)
    requires
        pipeline.wf(),
        forall|a: Single| #[trigger] log10.requires((a,)),
    ensures
        density_is(*pipeline, *log10, t, r),
{
    if pipeline.t_to_d_lut.len() == 0 {
        crate::paper::transmittance_to_density(to_part(t), Single::ratio(1, 1_000_000), log10)
    } else {
        pipeline.t_to_d_lut[entry_of(to_part(to_part(t)))]
    }
}

/// Three numbers, for the channels.
pub type Rgb = (Single, Single, Single);

/// `out` are the densities `d`, corrected by the cube where there is one, else by the matrix.
pub open spec fn corrected<F: Fn(Single, Single, Single) -> Rgb>(
    pipeline: CurvePipeline,
    cube: Option<&F>,
    d: Rgb,
    out: Rgb,
) -> bool {
    match cube {
        Some(f) => f.ensures((d.0, d.1, d.2), out),
        None => out == (
            matrixed(pipeline.matrix.m, d.0, d.1, d.2, 0),
            matrixed(pipeline.matrix.m, d.0, d.1, d.2, 1),
            matrixed(pipeline.matrix.m, d.0, d.1, d.2, 2),
        ),
    }
}

/// Value of the print for a corrected density.
pub open spec fn print_value(pipeline: CurvePipeline, d: Single, white_point: Single) -> u16 {
    whitened(pipeline.d_to_u16_lut@[density_entry(d, pipeline.d_max)], white_point)
}

/// `out` is the print of a pixel with transmittances `t`, by way of its densities before and
/// after their correction.
pub open spec fn printed_by_way<
    L: Fn(Single) -> Single,
    F: Fn(Single, Single, Single) -> Rgb,
>(
    pipeline: CurvePipeline,
    log10: L,
    cube: Option<&F>,
    t: Rgb,
    out: (u16, u16, u16),
    white_point: Single,
    d: Rgb,
    fixed: Rgb,
) -> bool {
    &&& density_is(pipeline, log10, t.0, d.0)
    &&& density_is(pipeline, log10, t.1, d.1)
    &&& density_is(pipeline, log10, t.2, d.2)
    &&& corrected(pipeline, cube, d, fixed)
    &&& out == (
        print_value(pipeline, fixed.0, white_point),
        print_value(pipeline, fixed.1, white_point),
        print_value(pipeline, fixed.2, white_point),
    )
}

/// `out` is the print of a pixel with transmittances `t`.
pub open spec fn printed<L: Fn(Single) -> Single, F: Fn(Single, Single, Single) -> Rgb>(
    pipeline: CurvePipeline,
    log10: L,
    cube: Option<&F>,
    t: Rgb,
    out: (u16, u16, u16),
    white_point: Single,
) -> bool {
    exists|d: Rgb, fixed: Rgb| #[trigger]
        printed_by_way(pipeline, log10, cube, t, out, white_point, d, fixed)
}

/// Three samples of a pixel.
pub open spec fn three<T>(samples: Seq<T>, i: int) -> (T, T, T) {
    (samples[3 * i], samples[3 * i + 1], samples[3 * i + 2])
}

fn print_pixel<L: Fn(Single) -> Single, F: Fn(Single, Single, Single) -> Rgb>(
    pipeline: &CurvePipeline,
    log10: &L,
    cube: Option<&F>,
    t: Rgb,
    g: Option<Single>,
    white_point: Ghost<Single>,
) -> (r: (u16, u16, u16))
    requires
        pipeline.wf(),
        forall|a: Single| #[trigger] log10.requires((a,)),
        cube matches Some(f) ==> forall|a: Single, b: Single, c: Single| #[trigger]
            f.requires((a, b, c)),
        g == if whitens(white_point@) {
            Some(gain(white_point@))
        } else {
            None
        },
    ensures
        printed(*pipeline, *log10, cube, t, r, white_point@),
{
    let d: Rgb = (
        sample_t_to_density(t.0, pipeline, log10),
        sample_t_to_density(t.1, pipeline, log10),
        sample_t_to_density(t.2, pipeline, log10),
    );
    let fixed: Rgb = match cube {
        Some(f) => f(d.0, d.1, d.2),
        None => {
            let m: [Single; 3] = apply_density_matrix_pixel([d.0, d.1, d.2], &pipeline.matrix);
            (m[0], m[1], m[2])
        },
    };
    let r: u16 = pipeline.d_to_u16_lut[density_entry_of(fixed.0, pipeline.d_max)];
    let gr: u16 = pipeline.d_to_u16_lut[density_entry_of(fixed.1, pipeline.d_max)];
    let b: u16 = pipeline.d_to_u16_lut[density_entry_of(fixed.2, pipeline.d_max)];
    let out: (u16, u16, u16) = (
        whiten(r, g, white_point),
        whiten(gr, g, white_point),
        whiten(b, g, white_point),
    );
    proof {
        assert(printed_by_way(*pipeline, *log10, cube, t, out, white_point@, d, fixed));
    }
    out
}

/// Prints an image of transmittances: density, correction by a cube or a matrix, paper curve,
/// white point.
pub fn apply_curve_pipeline<L: Fn(Single) -> Single, F: Fn(Single, Single, Single) -> Rgb>(
    image: &FilmImage,
    pipeline: &CurvePipeline,
    cube: Option<&F>,
    white_point: Single,
    log10: &L,
) -> (r: Vec<u16>)
    requires
        image.wf(),
        image.channels == 3,
        pipeline.wf(),
        Single::whole(0).at_most(pipeline.d_max),
        forall|a: Single| #[trigger] log10.requires((a,)),
        cube matches Some(f) ==> forall|a: Single, b: Single, c: Single| #[trigger]
            f.requires((a, b, c)),
    ensures
        r@.len() == image.samples@.len(),
        forall|i: int|
            0 <= i < image.samples@.len() / 3 ==> printed(
                *pipeline,
                *log10,
                cube,
                three(image.samples@, i),
                #[trigger] three(r@, i),
                white_point,
            ),
{
    let g: Option<Single> = gain_of(white_point);
    let n: usize = image.samples.len() / 3;
    proof {
        let a = image.width * image.height;
        assert(image.width * image.height * image.channels == a * 3);
    }
    let mut out: Vec<u16> = Vec::new();
    let mut i: usize = 0;
    while i < n
        invariant
            i <= n,
            n * 3 == image.samples.len(),
            pipeline.wf(),
            forall|a: Single| #[trigger] log10.requires((a,)),
            cube matches Some(f) ==> forall|a: Single, b: Single, c: Single| #[trigger]
                f.requires((a, b, c)),
            g == if whitens(white_point) {
                Some(gain(white_point))
            } else {
                None
            },
            out@.len() == 3 * i,
            forall|k: int|
                0 <= k < i ==> printed(
                    *pipeline,
                    *log10,
                    cube,
                    three(image.samples@, k),
                    #[trigger] three(out@, k),
                    white_point,
                ),
        decreases n - i,
    {
        let t: Rgb = (
            image.samples[3 * i],
            image.samples[3 * i + 1],
            image.samples[3 * i + 2],
        );
        let (r, gr, b) = print_pixel(pipeline, log10, cube, t, g, Ghost(white_point));
        let ghost before = out@;
        out.push(r);
        out.push(gr);
        out.push(b);
        proof {
            assert forall|k: int| 0 <= k < i + 1 implies printed(
                *pipeline,
                *log10,
                cube,
                three(image.samples@, k),
                #[trigger] three(out@, k),
                white_point,
            ) by {
                if k < i {
                    assert(three(out@, k) == three(before, k));
                }
            }
        }
        i = i + 1;
    }
    out
}

/// Settings of the film print, by channel.
#[derive(Debug, Clone, Copy)]
pub struct FilmPrintParams {
    /// What all channels start from.
    pub base: PrintCurveParams,
    /// Added to the offset of each channel.
    pub offset_rgb: [Single; 3],
    /// Multiplied with the contrast of each channel.
    pub gamma_rgb: [Single; 3],
    pub white_point: Single,
    /// How much of each density comes from the other two.
    pub color_bleed: Single,
    pub vibrance: Single,
}

impl FilmPrintParams {
    /// The curve of channel `c`.
    pub open spec fn channel_curve(self, c: int) -> PrintCurveParams {
        PrintCurveParams {
            offset: self.base.offset.plus(self.offset_rgb@[c]),
            gamma: self.base.gamma.times(self.gamma_rgb@[c]).larger(Single::ratio(1, 10)),
            pivot: self.base.pivot,
        }
    }

    /// The curve of channel `c`, from which its table is made.
    pub fn channel(&self, c: usize) -> (r: PrintCurveParams)
        requires
            c < 3,
        ensures
            r == self.channel_curve(c as int),
    {
        PrintCurveParams {
            offset: self.base.offset.plus(self.offset_rgb[c]),
            gamma: self.base.gamma.times(self.gamma_rgb[c]).larger(Single::ratio(1, 10)),
            pivot: self.base.pivot,
        }
    }
}

/// A density with a part of the other two in it.
pub open spec fn bled(own: Single, a: Single, b: Single, bleed: Single) -> Single {
    if bleed.at_most(Single::whole(0)) {
        own
    } else {
        let half = bleed.times(Single::ratio(1, 2));
        own.times(Single::whole(1).minus(bleed)).plus(a.times(half)).plus(b.times(half))
    }
}

/// Mixes a part of each density with the other two.
pub fn apply_color_bleed(dr: Single, dg: Single, db: Single, bleed: Single) -> (r: (
    Single,
    Single,
    Single,
))
    ensures
        r == (bled(dr, dg, db, bleed), bled(dg, dr, db, bleed), bled(db, dr, dg, bleed)),
{
    if bleed.at_most(Single::whole(0)) {
        return (dr, dg, db);
    }
    let keep: Single = Single::whole(1).minus(bleed);
    let half: Single = bleed.times(Single::ratio(1, 2));
    (
        dr.times(keep).plus(dg.times(half)).plus(db.times(half)),
        dg.times(keep).plus(dr.times(half)).plus(db.times(half)),
        db.times(keep).plus(dr.times(half)).plus(dg.times(half)),
    )
}

/// Brightness of a colour.
pub open spec fn luma(r: Single, g: Single, b: Single) -> Single {
    Single::ratio(2126, 10_000).times(r).plus(Single::ratio(7152, 10_000).times(g)).plus(
        Single::ratio(722, 10_000).times(b),
    )
}

/// Distance between the largest and the smallest channel.
pub open spec fn spread(r: Single, g: Single, b: Single) -> Single {
    r.larger(g).larger(b).minus(r.smaller(g).smaller(b))
}

/// A channel moved away from the brightness of its colour, the more the greyer it is.
pub open spec fn vivid(v: Single, r: Single, g: Single, b: Single, strength: Single) -> Single {
    if strength.abs().less(Single::ratio(1, 1_000_000)) {
        v
    } else {
        let boost = Single::whole(1).plus(
            strength.times(Single::whole(1).minus(part(spread(r, g, b)))),
        );
        part(luma(r, g, b).plus(v.minus(luma(r, g, b)).times(boost)))
    }
}

/// Raises the saturation of a colour, muted ones more.
pub fn apply_vibrance_pixel(r: Single, g: Single, b: Single, strength: Single) -> (o: (
    Single,
    Single,
    Single,
))
    ensures
        o == (
            vivid(r, r, g, b, strength),
            vivid(g, r, g, b, strength),
            vivid(b, r, g, b, strength),
        ),
{
    if strength.abs().less(Single::ratio(1, 1_000_000)) {
        return (r, g, b);
    }
    let one: Single = Single::whole(1);
    let y: Single = Single::ratio(2126, 10_000).times(r).plus(
        Single::ratio(7152, 10_000).times(g),
    ).plus(Single::ratio(722, 10_000).times(b));
    let chroma: Single = r.larger(g).larger(b).minus(r.smaller(g).smaller(b));
    let boost: Single = one.plus(strength.times(one.minus(to_part(chroma))));
    (
        to_part(y.plus(r.minus(y).times(boost))),
        to_part(y.plus(g.minus(y).times(boost))),
        to_part(y.plus(b.minus(y).times(boost))),
    )
}

/// Entry of a film print table; what is not a number takes the last one.
pub open spec fn film_entry(x: Single) -> int {
    x.times(Single::whole(LUT_LAST)).rounded().smaller(Single::whole(LUT_LAST)).to_int(
        LUT_LAST,
    ) as int
}

fn film_entry_of(x: Single) -> (r: usize)
    ensures
        r == film_entry(x),
        r < LUT_LEN,
{
    let last: Single = Single::whole(LUT_LAST);
    let v: Single = x.times(last).rounded().smaller(last);
    proof {
        crate::single::lemma_to_int_bound(v, LUT_LAST);
    }
    v.to_int(LUT_LAST) as usize
}

/// A value of the film print before vibrance, as a number.
pub open spec fn film_value(lut: Seq<u16>, d: Single, d_max: Single, white_point: Single) -> Single {
    let v = unit(lut[film_entry(d.clamp(Single::whole(0), d_max).over(d_max))]);
    if whitens(white_point) {
        part(v.times(gain(white_point)))
    } else {
        v
    }
}

fn film_value_of(lut: &Vec<u16>, d: Single, d_max: Single, g: Option<Single>, Ghost(wp): Ghost<
    Single,
>) -> (r: Single)
    requires
        lut.len() == LUT_LEN,
        g == if whitens(wp) {
            Some(gain(wp))
        } else {
            None
        },
    ensures
        r == film_value(lut@, d, d_max, wp),
{
    let v: Single = to_unit(lut[film_entry_of(d.clamp(Single::whole(0), d_max).over(d_max))]);
    match g {
        Some(g) => to_part(v.times(g)),
        None => v,
    }
}

/// The three values of a film print before vibrance.
pub open spec fn film_values(
    luts: (Seq<u16>, Seq<u16>, Seq<u16>),
    dr: Single,
    dg: Single,
    db: Single,
    p: FilmPrintParams,
    d_max: Single,
) -> (Single, Single, Single) {
    (
        film_value(luts.0, bled(dr, dg, db, p.color_bleed), d_max, p.white_point),
        film_value(luts.1, bled(dg, dr, db, p.color_bleed), d_max, p.white_point),
        film_value(luts.2, bled(db, dr, dg, p.color_bleed), d_max, p.white_point),
    )
}

/// Value of the film print in channel `c` for the three densities of a pixel.
pub open spec fn film_printed(
    luts: (Seq<u16>, Seq<u16>, Seq<u16>),
    dr: Single,
    dg: Single,
    db: Single,
    c: int,
    p: FilmPrintParams,
    d_max: Single,
) -> u16 {
    let (r, g, b) = film_values(luts, dr, dg, db, p, d_max);
    quantized(
        part(
            vivid(
                if c == 0 {
                    r
                } else if c == 1 {
                    g
                } else {
                    b
                },
                r,
                g,
                b,
                p.vibrance,
            ),
        ),
    )
}

/// Tables of the film print, one for each channel.
#[derive(Debug)]
pub struct FilmPrintLuts {
    pub r: Vec<u16>,
    pub g: Vec<u16>,
    pub b: Vec<u16>,
}

impl FilmPrintLuts {
    pub open spec fn wf(self) -> bool {
        self.r.len() == LUT_LEN && self.g.len() == LUT_LEN && self.b.len() == LUT_LEN
    }

    pub open spec fn tables(self) -> (Seq<u16>, Seq<u16>, Seq<u16>) {
        (self.r@, self.g@, self.b@)
    }
}

/// Prints densities on film: colour bleed, a curve for each channel, white point, vibrance.
pub fn film_print_by_tables(
    density_image: &FilmImage,
    luts: &FilmPrintLuts,
    params: &FilmPrintParams,
    d_max: Single,
) -> (r: Vec<u16>)
    requires
        density_image.wf(),
        density_image.channels == 3,
        luts.wf(),
        Single::whole(0).at_most(d_max),
    ensures
        r.len() == density_image.samples.len(),
        forall|i: int, c: int|
            0 <= i < density_image.samples.len() / 3 && 0 <= c < 3 ==> #[trigger] r@[3 * i + c]
                == film_printed(
                luts.tables(),
                density_image.samples@[3 * i],
                density_image.samples@[3 * i + 1],
                density_image.samples@[3 * i + 2],
                c,
                *params,
                d_max,
            ),
{
    let g: Option<Single> = gain_of(params.white_point);
    let n: usize = density_image.samples.len() / 3;
    proof {
        let a = density_image.width * density_image.height;
        assert(density_image.width * density_image.height * density_image.channels == a * 3);
    }
    let mut out: Vec<u16> = Vec::new();
    let mut i: usize = 0;
    while i < n
        invariant
            i <= n,
            n * 3 == density_image.samples.len(),
            luts.wf(),
            g == if whitens(params.white_point) {
                Some(gain(params.white_point))
            } else {
                None
            },
            out.len() == 3 * i,
            forall|k: int, c: int|
                0 <= k < i && 0 <= c < 3 ==> #[trigger] out@[3 * k + c] == film_printed(
                    luts.tables(),
                    density_image.samples@[3 * k],
                    density_image.samples@[3 * k + 1],
                    density_image.samples@[3 * k + 2],
                    c,
                    *params,
                    d_max,
                ),
        decreases n - i,
    {
        let (dr, dg, db) = apply_color_bleed(
            density_image.samples[3 * i],
            density_image.samples[3 * i + 1],
            density_image.samples[3 * i + 2],
            params.color_bleed,
        );
        let vr: Single = film_value_of(&luts.r, dr, d_max, g, Ghost(params.white_point));
        let vg: Single = film_value_of(&luts.g, dg, d_max, g, Ghost(params.white_point));
        let vb: Single = film_value_of(&luts.b, db, d_max, g, Ghost(params.white_point));
        let (r, gr, b) = apply_vibrance_pixel(vr, vg, vb, params.vibrance);
        let ghost before = out@;
        out.push(quantize(to_part(r)));
        out.push(quantize(to_part(gr)));
        out.push(quantize(to_part(b)));
        proof {
            assert forall|k: int, c: int|
                0 <= k < i + 1 && 0 <= c < 3 implies #[trigger] out@[3 * k + c] == film_printed(
                luts.tables(),
                density_image.samples@[3 * k],
                density_image.samples@[3 * k + 1],
                density_image.samples@[3 * k + 2],
                c,
                *params,
                d_max,
            ) by {
                if k < i {
                    assert(out@[3 * k + c] == before[3 * k + c]);
                }
            }
        }
        i = i + 1;
    }
    out
}

/// No bleed leaves the densities as they are.
pub proof fn no_bleed_keeps_densities(own: Single, a: Single, b: Single)
    ensures
        bled(own, a, b, Single::whole(0)) == own,
{
    reveal(Single::at_most_spec);
    crate::single::lemma_whole_exact(0);
    crate::single::order_is_by_value(Single::whole(0), Single::whole(0));
}

/// No vibrance leaves a colour as it is.
pub proof fn no_vibrance_keeps_colours(v: Single, r: Single, g: Single, b: Single)
    ensures
        vivid(v, r, g, b, Single::whole(0)) == v,
{
    reveal(Single::abs_spec);
    reveal(Single::less_spec);
    crate::single::lemma_whole_exact(0);
    let none = Single::whole(0);
    vstd::arithmetic::power2::lemma_pow2_pos(149);
    crate::single::lemma_tiny_is_positive();
    crate::single::order_is_by_value(none.abs(), Single::ratio(1, 1_000_000));
}

/// The spread of a printed image over 256 steps.
#[derive(Debug, Clone, Copy, PartialEq, Eq, Structural)]
pub struct PrintSpread {
    pub min: usize,
    pub p50: usize,
    pub p90: usize,
    pub p99: usize,
    pub max: usize,
}

/// How many of the first `n` values lie in step `v`.
pub open spec fn step_count(out: Seq<u16>, v: int, n: nat) -> nat
    decreases n,
{
    if n == 0 {
        0
    } else {
        step_count(out, v, (n - 1) as nat) + if out[n - 1] / 256 == v {
            1nat
        } else {
            0nat
        }
    }
}

/// The first step from `v` on in which a value lies; 256 if there is none.
pub open spec fn first_step(out: Seq<u16>, v: nat) -> nat
    decreases 256 - v,
{
    if v >= 256 || step_count(out, v as int, out.len()) > 0 {
        v
    } else {
        first_step(out, v + 1)
    }
}

/// The last step up to `v` in which a value lies; 0 if there is none.
pub open spec fn last_step(out: Seq<u16>, v: nat) -> nat
    decreases v,
{
    if v == 0 || step_count(out, v as int, out.len()) > 0 {
        v
    } else {
        last_step(out, (v - 1) as nat)
    }
}

/// Values in the first `v` steps.
pub open spec fn up_to(out: Seq<u16>, v: nat) -> nat {
    crate::histogram::sum_of(|k: int| step_count(out, k, out.len()), v)
}

/// The three percentiles after the first `v` steps were looked at: each is set, while it is
/// still zero, to a step at which its share is reached, and the last one ends the search.
pub open spec fn shares(out: Seq<u16>, v: nat) -> (nat, nat, nat, bool)
    decreases v,
{
    if v == 0 {
        (0, 0, 0, false)
    } else {
        let (a, b, c, done) = shares(out, (v - 1) as nat);
        let cum = up_to(out, v);
        let n = out.len();
        if done {
            (a, b, c, true)
        } else {
            (
                if a == 0 && 2 * cum >= n {
                    (v - 1) as nat
                } else {
                    a
                },
                if b == 0 && 10 * cum >= 9 * n {
                    (v - 1) as nat
                } else {
                    b
                },
                if c == 0 && 100 * cum >= 99 * n {
                    (v - 1) as nat
                } else {
                    c
                },
                c == 0 && 100 * cum >= 99 * n,
            )
        }
    }
}

proof fn lemma_step_bound(out: Seq<u16>, v: int, n: nat)
    ensures
        step_count(out, v, n) <= n,
    decreases n,
{
    if n > 0 {
        lemma_step_bound(out, v, (n - 1) as nat);
    }
}

proof fn lemma_step_sum(out: Seq<u16>, n: nat, k: nat)
    requires
        n > 0,
    ensures
        crate::histogram::sum_of(|v: int| step_count(out, v, n), k) == crate::histogram::sum_of(
            |v: int| step_count(out, v, (n - 1) as nat),
            k,
        ) + if 0 <= out[n - 1] / 256 < k {
            1nat
        } else {
            0nat
        },
    decreases k,
{
    if k > 0 {
        lemma_step_sum(out, n, (k - 1) as nat);
    }
}

proof fn lemma_step_total(out: Seq<u16>, n: nat, k: nat)
    ensures
        crate::histogram::sum_of(|v: int| step_count(out, v, n), k) <= n,
    decreases n, k,
{
    if n > 0 {
        lemma_step_total(out, (n - 1) as nat, k);
        lemma_step_sum(out, n, k);
    } else if k > 0 {
        lemma_step_total(out, n, (k - 1) as nat);
    }
}

/// Where the values of a print lie, for inspection; none for a print without values.
pub fn print_spread(out: &Vec<u16>) -> (r: Option<PrintSpread>)
    requires
        out.len() < 0x1_0000_0000_0000,
    ensures
        out.len() == 0 ==> r is None,
        out.len() > 0 ==> r == Some(
            PrintSpread {
                min: first_step(out@, 0) as usize,
                p50: shares(out@, 256).0 as usize,
                p90: shares(out@, 256).1 as usize,
                p99: shares(out@, 256).2 as usize,
                max: last_step(out@, 255) as usize,
            },
        ),
{
    let n: u64 = out.len() as u64;
    if n == 0 {
        return None;
    }
    let mut hist: [u64; 256] = [0u64;256];
    let mut i: usize = 0;
    while i < out.len()
        invariant
            i <= out.len(),
            out.len() < 0x1_0000_0000_0000,
            forall|v: int| 0 <= v < 256 ==> #[trigger] hist@[v] == step_count(out@, v, i as nat),
        decreases out.len() - i,
    {
        let bin: usize = (out[i] / 256) as usize;
        proof {
            lemma_step_bound(out@, bin as int, i as nat);
        }
        hist[bin] = hist[bin] + 1;
        i = i + 1;
    }
    let mut min: usize = 0;
    while min < 256 && hist[min] == 0
        invariant
            min <= 256,
            forall|v: int|
                0 <= v < 256 ==> #[trigger] hist@[v] == step_count(out@, v, out@.len()),
            first_step(out@, 0) == first_step(out@, min as nat),
        decreases 256 - min,
    {
        min = min + 1;
    }
    let mut max: usize = 255;
    while max > 0 && hist[max] == 0
        invariant
            max <= 255,
            forall|v: int|
                0 <= v < 256 ==> #[trigger] hist@[v] == step_count(out@, v, out@.len()),
            last_step(out@, 255) == last_step(out@, max as nat),
        decreases max,
    {
        max = max - 1;
    }
    let ghost counts = |k: int| step_count(out@, k, out@.len());
    let mut cum: u64 = 0;
    let mut p50: usize = 0;
    let mut p90: usize = 0;
    let mut p99: usize = 0;
    let mut done: bool = false;
    let mut v: usize = 0;
    while v < 256
        invariant
            v <= 256,
            n == out.len(),
            n < 0x1_0000_0000_0000,
            counts == (|k: int| step_count(out@, k, out@.len())),
            forall|v: int|
                0 <= v < 256 ==> #[trigger] hist@[v] == step_count(out@, v, out@.len()),
            cum == crate::histogram::sum_of(counts, v as nat),
            shares(out@, v as nat) == (p50 as nat, p90 as nat, p99 as nat, done),
            cum <= n,
        decreases 256 - v,
    {
        proof {
            lemma_step_total(out@, out@.len(), (v + 1) as nat);
            assert(crate::histogram::sum_of(counts, (v + 1) as nat)
                == crate::histogram::sum_of(counts, v as nat) + counts(v as int));
        }
        cum = cum + hist[v];
        if !done {
            if p50 == 0 && 2 * cum >= n {
                p50 = v;
            }
            if p90 == 0 && 10 * cum >= 9 * n {
                p90 = v;
            }
            if p99 == 0 && 100 * cum >= 99 * n {
                p99 = v;
                done = true;
            }
        }
        v = v + 1;
    }
    Some(PrintSpread { min, p50, p90, p99, max })
}

} // verus!
