//! Photographic paper: from transmittance to density, and from density to the print.
//!
//! Density is the exposure of the print, so that dense film gives a bright print: this is where
//! the negative turns positive. Powers and logarithms are the machine's and are handed in.

use vstd::prelude::*;
use crate::curve::{
    film_print_by_tables, print_by_table, CurvePipeline, DensityMatrix, FilmPrintLuts,
    FilmPrintParams, PrintCurveParams, LUT_LEN,
};
use crate::film::FilmImage;
use crate::single::Single;

verus! {

/// `d` is the density of transmittance `t`, none below `threshold`, by the machine's decimal
/// logarithm.
pub open spec fn density_of<L: Fn(Single) -> Single>(
    log10: L,
    t: Single,
    threshold: Single,
    d: Single,
) -> bool {
    exists|q: Single|
        #[trigger] log10.ensures((t.clamp(threshold, Single::whole(1)),), q) && d == q.neg()
}

/// Transmittance to density: minus its decimal logarithm.
pub fn transmittance_to_density<L: Fn(Single) -> Single>(t: Single, threshold: Single, log10: &L)
    -> (r: Single)
    requires
        forall|a: Single| #[trigger] log10.requires((a,)),
    ensures
        density_of(*log10, t, threshold, r),
{
    let q: Single = log10(t.clamp(threshold, Single::whole(1)));
    q.neg()
}

/// Brightness of the print, where `eg` and `pg` are its exposure and the exposure for a middle
/// grey, each to the power of the paper's contrast.
pub open spec fn response(eg: Single, pg: Single) -> Single {
    eg.over(eg.plus(pg)).clamp(Single::whole(0), Single::whole(1))
}

/// `y` is the brightness of the print for a log exposure, by way of the exposure and its
/// powers.
pub open spec fn printed_by_way<P: Fn(Single, Single) -> Single>(
    power: P,
    log_exposure: Single,
    gamma: Single,
    pivot: Single,
    y: Single,
    exposure: Single,
    eg: Single,
    pg: Single,
) -> bool {
    &&& power.ensures((Single::whole(10), log_exposure), exposure)
    &&& power.ensures((exposure, gamma), eg)
    &&& power.ensures((pivot, gamma), pg)
    &&& y == response(eg, pg)
}

/// `y` is the brightness of the print for a log exposure, on paper of contrast `gamma` that
/// turns middle grey at the exposure `pivot`.
pub open spec fn printed<P: Fn(Single, Single) -> Single>(
    power: P,
    log_exposure: Single,
    gamma: Single,
    pivot: Single,
    y: Single,
) -> bool {
    exists|exposure: Single, eg: Single, pg: Single| #[trigger]
        printed_by_way(power, log_exposure, gamma, pivot, y, exposure, eg, pg)
}

fn print_one<P: Fn(Single, Single) -> Single>(
    log_exposure: Single,
    gamma: Single,
    pivot: Single,
    power: &P,
) -> (r: Single)
    requires
        forall|a: Single, b: Single| #[trigger] power.requires((a, b)),
    ensures
        printed(*power, log_exposure, gamma, pivot, r),
{
    let exposure: Single = power(Single::whole(10), log_exposure);
    let eg: Single = power(exposure, gamma);
    let pg: Single = power(pivot, gamma);
    let y: Single = eg.over(eg.plus(pg)).clamp(Single::whole(0), Single::whole(1));
    proof {
        assert(printed_by_way(*power, log_exposure, gamma, pivot, y, exposure, eg, pg));
    }
    y
}

/// `y` is the print of a density.
pub open spec fn print_of<P: Fn(Single, Single) -> Single>(
    power: P,
    density: Single,
    params: PrintCurveParams,
    y: Single,
) -> bool {
    printed(
        power,
        density.larger(Single::whole(0)).plus(params.offset),
        params.gamma,
        params.pivot,
        y,
    )
}

/// Density to the brightness of the print.
pub fn density_to_ra4<P: Fn(Single, Single) -> Single>(
    density: Single,
    params: &PrintCurveParams,
    power: &P,
) -> (r: Single)
    requires
        forall|a: Single, b: Single| #[trigger] power.requires((a, b)),
    ensures
        print_of(*power, density, *params, r),
{
    print_one(
        density.larger(Single::whole(0)).plus(params.offset),
        params.gamma,
        params.pivot,
        power,
    )
}

/// `y` is the print of a transmittance, from zero to one.
pub open spec fn print_of_light<L: Fn(Single) -> Single, P: Fn(Single, Single) -> Single>(
    log10: L,
    power: P,
    t: Single,
    params: PrintCurveParams,
    y: Single,
) -> bool {
    exists|d: Single| #[trigger]
        density_of(log10, t, Single::ratio(1, 1_000_000), d) && printed(
            power,
            d.plus(params.offset),
            params.gamma,
            params.pivot,
            y,
        )
}

/// Transmittance to the brightness of the print, at once.
pub fn print_film_curve<L: Fn(Single) -> Single, P: Fn(Single, Single) -> Single>(
    t: Single,
    params: &PrintCurveParams,
    log10: &L,
    power: &P,
) -> (r: Single)
    requires
        forall|a: Single| #[trigger] log10.requires((a,)),
        forall|a: Single, b: Single| #[trigger] power.requires((a, b)),
    ensures
        print_of_light(*log10, *power, t, *params, r),
{
    let d: Single = transmittance_to_density(t, Single::ratio(1, 1_000_000), log10);
    print_one(d.plus(params.offset), params.gamma, params.pivot, power)
}

/// The place of an entry in a table, from zero to one.
pub open spec fn place(i: int) -> Single {
    Single::whole(i as u64).over(Single::whole(65_535))
}

fn place_of(i: usize) -> (r: Single)
    ensures
        r == place(i as int),
{
    Single::whole(i as u64).over(Single::whole(65_535))
}

/// A brightness on 16 bits.
pub open spec fn code(y: Single) -> u16 {
    y.times(Single::whole(65_535)).rounded().to_int(0xffff) as u16
}

fn code_of(y: Single) -> (r: u16)
    ensures
        r == code(y),
{
    let q: Single = y.times(Single::whole(65_535)).rounded();
    proof {
        crate::single::lemma_to_int_bound(q, 0xffff);
    }
    q.to_int(0xffff) as u16
}

/// Entry `i` of the table from transmittance to the print.
pub open spec fn light_entry<L: Fn(Single) -> Single, P: Fn(Single, Single) -> Single>(
    log10: L,
    power: P,
    params: PrintCurveParams,
    i: int,
    v: u16,
) -> bool {
    exists|y: Single| #[trigger]
        print_of_light(log10, power, place(i), params, y) && v == code(y)
}

/// Table from transmittance to the print: entry `i` is for `i / 65535`.
pub fn generate_16bit_lut<L: Fn(Single) -> Single, P: Fn(Single, Single) -> Single>(
    params: &PrintCurveParams,
    log10: &L,
    power: &P,
) -> (r: Vec<u16>)
    requires
        forall|a: Single| #[trigger] log10.requires((a,)),
        forall|a: Single, b: Single| #[trigger] power.requires((a, b)),
    ensures
        r@.len() == LUT_LEN,
        forall|i: int|
            0 <= i < LUT_LEN ==> light_entry(*log10, *power, *params, i, #[trigger] r@[i]),
{
    let mut out: Vec<u16> = Vec::with_capacity(LUT_LEN);
    let mut i: usize = 0;
    while i < LUT_LEN
        invariant
            i <= LUT_LEN,
            out@.len() == i,
            forall|a: Single| #[trigger] log10.requires((a,)),
            forall|a: Single, b: Single| #[trigger] power.requires((a, b)),
            forall|k: int|
                0 <= k < i ==> light_entry(*log10, *power, *params, k, #[trigger] out@[k]),
        decreases LUT_LEN - i,
    {
        let y: Single = print_film_curve(place_of(i), params, log10, power);
        let v: u16 = code_of(y);
        proof {
            assert(light_entry(*log10, *power, *params, i as int, v));
        }
        out.push(v);
        i = i + 1;
    }
    out
}

/// Table from transmittance to density.
pub fn build_t_to_density_lut<L: Fn(Single) -> Single>(threshold: Single, log10: &L) -> (r: Vec<
    Single,
>)
    requires
        forall|a: Single| #[trigger] log10.requires((a,)),
    ensures
        r@.len() == LUT_LEN,
        forall|i: int|
            0 <= i < LUT_LEN ==> density_of(*log10, place(i), threshold, #[trigger] r@[i]),
{
    let mut out: Vec<Single> = Vec::with_capacity(LUT_LEN);
    let mut i: usize = 0;
    while i < LUT_LEN
        invariant
            i <= LUT_LEN,
            out@.len() == i,
            forall|a: Single| #[trigger] log10.requires((a,)),
            forall|k: int|
                0 <= k < i ==> density_of(*log10, place(k), threshold, #[trigger] out@[k]),
        decreases LUT_LEN - i,
    {
        out.push(transmittance_to_density(place_of(i), threshold, log10));
        i = i + 1;
    }
    out
}

/// Where the shoulder of the print begins.
pub open spec fn shoulder_start() -> Single {
    Single::ratio(93, 100)
}

/// How far into the shoulder a brightness lies.
pub open spec fn into_shoulder(y: Single) -> Single {
    y.minus(shoulder_start()).over(Single::whole(1).minus(shoulder_start()))
}

/// `r` is the brightness `y` with the soft shoulder near white.
pub open spec fn shouldered<P: Fn(Single, Single) -> Single>(
    power: P,
    y: Single,
    r: Single,
) -> bool {
    if shoulder_start().less(y) {
        exists|q: Single|
            #[trigger] power.ensures(
                (Single::whole(1).minus(into_shoulder(y)), Single::ratio(3, 2)),
                q,
            ) && r == shoulder_start().plus(
                Single::whole(1).minus(q).times(Single::whole(1).minus(shoulder_start())),
            )
    } else {
        r == y
    }
}

/// Bends a brightness near white gently towards it.
pub fn soften_shoulder<P: Fn(Single, Single) -> Single>(y: Single, power: &P) -> (r: Single)
    requires
        forall|a: Single, b: Single| #[trigger] power.requires((a, b)),
    ensures
        shouldered(*power, y, r),
{
    let start: Single = Single::ratio(93, 100);
    if start.less(y) {
        let rest: Single = Single::whole(1).minus(start);
        let t: Single = y.minus(start).over(rest);
        let q: Single = power(Single::whole(1).minus(t), Single::ratio(3, 2));
        proof {
            assert(power.ensures(
                (Single::whole(1).minus(into_shoulder(y)), Single::ratio(3, 2)),
                q,
            ));
        }
        start.plus(Single::whole(1).minus(q).times(rest))
    } else {
        y
    }
}

/// An entry of a table from density to the print, for the density `d`.
pub open spec fn paper_entry<P: Fn(Single, Single) -> Single>(
    power: P,
    d: Single,
    params: PrintCurveParams,
    v: u16,
) -> bool {
    exists|y: Single, z: Single|
        #[trigger] print_of(power, d, params, y) && #[trigger] shouldered(power, y, z) && v == code(
            z,
        )
}

/// Table from density to the print, over densities from zero to `d_max`.
pub fn build_density_to_ra4_lut<P: Fn(Single, Single) -> Single>(
    params: &PrintCurveParams,
    d_max: Single,
    power: &P,
) -> (r: Vec<u16>)
    requires
        forall|a: Single, b: Single| #[trigger] power.requires((a, b)),
    ensures
        r@.len() == LUT_LEN,
        forall|i: int|
            0 <= i < LUT_LEN ==> paper_entry(
                *power,
                place(i).times(d_max),
                *params,
                #[trigger] r@[i],
            ),
{
    let mut out: Vec<u16> = Vec::with_capacity(LUT_LEN);
    let mut i: usize = 0;
    while i < LUT_LEN
        invariant
            i <= LUT_LEN,
            out@.len() == i,
            forall|a: Single, b: Single| #[trigger] power.requires((a, b)),
            forall|k: int|
                0 <= k < i ==> paper_entry(
                    *power,
                    place(k).times(d_max),
                    *params,
                    #[trigger] out@[k],
                ),
        decreases LUT_LEN - i,
    {
        let d: Single = place_of(i).times(d_max);
        let y: Single = density_to_ra4(d, params, power);
        let z: Single = soften_shoulder(y, power);
        let v: u16 = code_of(z);
        proof {
            assert(print_of(*power, d, *params, y) && shouldered(*power, y, z));
            assert(paper_entry(*power, d, *params, v));
        }
        out.push(v);
        i = i + 1;
    }
    out
}

/// A table holds the print of densities from zero to `d_max`.
pub open spec fn is_paper_table<P: Fn(Single, Single) -> Single>(
    power: P,
    params: PrintCurveParams,
    d_max: Single,
    table: Seq<u16>,
) -> bool {
    &&& table.len() == LUT_LEN
    &&& forall|i: int|
        0 <= i < LUT_LEN ==> paper_entry(
            power,
            place(i).times(d_max),
            params,
            #[trigger] table[i],
        )
}

/// Tables from density to the film print, one for each channel.
pub fn build_film_print_luts<P: Fn(Single, Single) -> Single>(
    params: &FilmPrintParams,
    d_max: Single,
    power: &P,
) -> (r: FilmPrintLuts)
    requires
        forall|a: Single, b: Single| #[trigger] power.requires((a, b)),
    ensures
        r.wf(),
        is_paper_table(*power, params.channel_curve(0), d_max, r.tables().0),
        is_paper_table(*power, params.channel_curve(1), d_max, r.tables().1),
        is_paper_table(*power, params.channel_curve(2), d_max, r.tables().2),
{
    FilmPrintLuts {
        r: build_density_to_ra4_lut(&params.channel(0), d_max, power),
        g: build_density_to_ra4_lut(&params.channel(1), d_max, power),
        b: build_density_to_ra4_lut(&params.channel(2), d_max, power),
    }
}

impl CurvePipeline {
    /// Tables and settings of a print, for densities up to `d_max`. Densities have a table of
    /// their own where `use_t_to_d_lut` says so.
    pub fn new<L: Fn(Single) -> Single, P: Fn(Single, Single) -> Single>(
        params: &PrintCurveParams,
        matrix: DensityMatrix,
        d_max: Single,
        use_t_to_d_lut: bool,
        log10: &L,
        power: &P,
    ) -> (r: CurvePipeline)
        requires
            forall|a: Single| #[trigger] log10.requires((a,)),
            forall|a: Single, b: Single| #[trigger] power.requires((a, b)),
        ensures
            r.wf(),
            r.d_max == d_max,
            r.params == *params,
            r.matrix == matrix,
            is_paper_table(*power, *params, d_max, r.d_to_u16_lut@),
            r.t_to_d_lut@.len() == if use_t_to_d_lut {
                LUT_LEN
            } else {
                0
            },
            forall|i: int|
                0 <= i < r.t_to_d_lut@.len() ==> density_of(
                    *log10,
                    place(i),
                    Single::ratio(1, 1_000_000),
                    #[trigger] r.t_to_d_lut@[i],
                ),
    {
        CurvePipeline {
            t_to_d_lut: if use_t_to_d_lut {
                build_t_to_density_lut(Single::ratio(1, 1_000_000), log10)
            } else {
                Vec::new()
            },
            d_to_u16_lut: build_density_to_ra4_lut(params, d_max, power),
            d_max,
            params: *params,
            matrix,
        }
    }
}

/// Density to the linear brightness of the print, not quantised, for archival files.
pub fn apply_ra4_from_density_f32<P: Fn(Single, Single) -> Single>(
    image: &FilmImage,
    params: &PrintCurveParams,
    d_max: Single,
    power: &P,
) -> (r: FilmImage)
    requires
        image.wf(),
        image.channels == 3,
        forall|a: Single, b: Single| #[trigger] power.requires((a, b)),
    ensures
        r.wf(),
        r.width == image.width,
        r.height == image.height,
        r.channels == 3,
        forall|i: int|
            0 <= i < r.samples@.len() ==> print_of(
                *power,
                image.samples@[i].clamp(Single::whole(0), d_max),
                *params,
                #[trigger] r.samples@[i],
            ),
{
    let mut samples: Vec<Single> = Vec::with_capacity(image.samples.len());
    let mut i: usize = 0;
    while i < image.samples.len()
        invariant
            i <= image.samples.len(),
            samples@.len() == i,
            forall|a: Single, b: Single| #[trigger] power.requires((a, b)),
            forall|k: int|
                0 <= k < i ==> print_of(
                    *power,
                    image.samples@[k].clamp(Single::whole(0), d_max),
                    *params,
                    #[trigger] samples@[k],
                ),
        decreases image.samples.len() - i,
    {
        let d: Single = image.samples[i].clamp(Single::whole(0), d_max);
        samples.push(density_to_ra4(d, params, power));
        i = i + 1;
    }
    FilmImage { width: image.width, height: image.height, channels: 3, samples }
}

/// Prints an image of densities: makes the table of the paper and looks every density up.
pub fn apply_ra4_from_density<P: Fn(Single, Single) -> Single>(
    image: &FilmImage,
    params: &PrintCurveParams,
    d_max: Single,
    white_point: Single,
    power: &P,
) -> (r: Vec<u16>)
    requires
        Single::whole(0).at_most(d_max),
        forall|a: Single, b: Single| #[trigger] power.requires((a, b)),
    ensures
        r@.len() == image.samples@.len(),
        exists|table: Seq<u16>|
            #[trigger] is_paper_table(*power, *params, d_max, table) && forall|i: int|
                0 <= i < r@.len() ==> #[trigger] r@[i] == crate::curve::whitened(
                    table[crate::curve::density_entry(image.samples@[i], d_max)],
                    white_point,
                ),
{
    let table: Vec<u16> = build_density_to_ra4_lut(params, d_max, power);
    proof {
        assert(is_paper_table(*power, *params, d_max, table@));
    }
    print_by_table(image, &table, d_max, white_point)
}

/// Prints an image of densities on film: makes a table for each channel, and takes every pixel
/// through colour bleed, its tables, white point and vibrance.
pub fn apply_film_print_from_density<P: Fn(Single, Single) -> Single>(
    image: &FilmImage,
    params: &FilmPrintParams,
    d_max: Single,
    power: &P,
) -> (r: Vec<u16>)
    requires
        image.wf(),
        image.channels == 3,
        Single::whole(0).at_most(d_max),
        forall|a: Single, b: Single| #[trigger] power.requires((a, b)),
    ensures
        r@.len() == image.samples@.len(),
        exists|red: Seq<u16>, green: Seq<u16>, blue: Seq<u16>|
            {
                &&& #[trigger] is_paper_table(*power, params.channel_curve(0), d_max, red)
                &&& #[trigger] is_paper_table(*power, params.channel_curve(1), d_max, green)
                &&& #[trigger] is_paper_table(*power, params.channel_curve(2), d_max, blue)
                &&& forall|i: int, c: int|
                    0 <= i < image.samples.len() / 3 && 0 <= c < 3 ==> #[trigger] r@[3 * i + c]
                        == crate::curve::film_printed(
                        (red, green, blue),
                        image.samples@[3 * i],
                        image.samples@[3 * i + 1],
                        image.samples@[3 * i + 2],
                        c,
                        *params,
                        d_max,
                    )
            },
{
    let luts: FilmPrintLuts = build_film_print_luts(params, d_max, power);
    let r: Vec<u16> = film_print_by_tables(image, &luts, params, d_max);
    proof {
        let (red, green, blue) = luts.tables();
        assert(is_paper_table(*power, params.channel_curve(0), d_max, red));
        assert(is_paper_table(*power, params.channel_curve(1), d_max, green));
        assert(is_paper_table(*power, params.channel_curve(2), d_max, blue));
        assert((red, green, blue) == luts.tables());
    }
    r
}

} // verus!
