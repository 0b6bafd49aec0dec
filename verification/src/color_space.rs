//! Colour states of the pipeline's buffers.
//!
//! Every buffer has one state, a triple of domain, primaries and transfer; a conversion names
//! both its ends, so that no buffer is shown as what it is not.

use vstd::prelude::*;
use vstd::arithmetic::power2::*;
use crate::aces::{apply_idt, is_identity, linear_acescg_to_linear_srgb, Matrix};
use crate::film::FilmImage;
use crate::single::Single;

verus! {

/// What the sample values represent.
#[derive(Debug, Clone, Copy, PartialEq, Eq, Structural)]
pub enum ColorDomain {
    /// Linear transmittance of film and base.
    Transmittance,
    /// Optical density; more of it makes a brighter print.
    Density,
    /// Linear RGB of the print.
    LinearPrint,
    /// Code values for a display.
    DisplayEncoded,
}

/// RGB primaries of a buffer.
#[derive(Debug, Clone, Copy, PartialEq, Eq, Structural)]
pub enum ColorPrimaries {
    /// Demosaiced camera RGB.
    Camera,
    /// Rec.709 primaries, D65.
    Rec709,
    /// ACEScg (AP1).
    ACEScg,
    /// ACES2065-1 (AP0).
    ACES2065,
}

/// Transfer function of the stored samples.
#[derive(Debug, Clone, Copy, PartialEq, Eq, Structural)]
pub enum TransferFn {
    Linear,
    Srgb,
    /// Optical density (log10).
    DensityLog,
}

/// State of a buffer.
#[derive(Debug, Clone, Copy, PartialEq, Eq, Structural)]
pub struct ColorState {
    pub domain: ColorDomain,
    pub primaries: ColorPrimaries,
    pub transfer: TransferFn,
}

impl ColorState {
    /// Camera RGB as it comes from the sensor.
    pub fn camera_linear_t() -> (r: ColorState)
        ensures
            r == (ColorState {
                domain: ColorDomain::Transmittance,
                primaries: ColorPrimaries::Camera,
                transfer: TransferFn::Linear,
            }),
    {
        ColorState {
            domain: ColorDomain::Transmittance,
            primaries: ColorPrimaries::Camera,
            transfer: TransferFn::Linear,
        }
    }

    /// Transmittance after an input transform.
    pub fn rec709_linear_t() -> (r: ColorState)
        ensures
            r == (ColorState {
                domain: ColorDomain::Transmittance,
                primaries: ColorPrimaries::Rec709,
                transfer: TransferFn::Linear,
            }),
    {
        ColorState {
            domain: ColorDomain::Transmittance,
            primaries: ColorPrimaries::Rec709,
            transfer: TransferFn::Linear,
        }
    }

    /// Density of camera RGB.
    pub fn camera_density() -> (r: ColorState)
        ensures
            r == (ColorState {
                domain: ColorDomain::Density,
                primaries: ColorPrimaries::Camera,
                transfer: TransferFn::DensityLog,
            }),
    {
        ColorState {
            domain: ColorDomain::Density,
            primaries: ColorPrimaries::Camera,
            transfer: TransferFn::DensityLog,
        }
    }

    /// Density after an input transform.
    pub fn rec709_density() -> (r: ColorState)
        ensures
            r == (ColorState {
                domain: ColorDomain::Density,
                primaries: ColorPrimaries::Rec709,
                transfer: TransferFn::DensityLog,
            }),
    {
        ColorState {
            domain: ColorDomain::Density,
            primaries: ColorPrimaries::Rec709,
            transfer: TransferFn::DensityLog,
        }
    }

    /// The print before it is encoded.
    pub fn linear_print() -> (r: ColorState)
        ensures
            r == (ColorState {
                domain: ColorDomain::LinearPrint,
                primaries: ColorPrimaries::Rec709,
                transfer: TransferFn::Linear,
            }),
    {
        ColorState {
            domain: ColorDomain::LinearPrint,
            primaries: ColorPrimaries::Rec709,
            transfer: TransferFn::Linear,
        }
    }

    /// The print as it is shown.
    pub fn srgb_display() -> (r: ColorState)
        ensures
            r == (ColorState {
                domain: ColorDomain::DisplayEncoded,
                primaries: ColorPrimaries::Rec709,
                transfer: TransferFn::Srgb,
            }),
    {
        ColorState {
            domain: ColorDomain::DisplayEncoded,
            primaries: ColorPrimaries::Rec709,
            transfer: TransferFn::Srgb,
        }
    }
}

/// Primaries of the working space: those of the camera, unless it has an input transform.
pub fn working_primaries(idt: &Matrix) -> (r: ColorPrimaries)
    ensures
        r == if crate::aces::near_unit(*idt) {
            ColorPrimaries::Camera
        } else {
            ColorPrimaries::Rec709
        },
{
    if is_identity(idt) {
        ColorPrimaries::Camera
    } else {
        ColorPrimaries::Rec709
    }
}

/// Exponent of the display's curve.
pub open spec fn display_gamma() -> Single {
    Single::ratio(24, 10)
}

/// Exponent that encodes.
pub open spec fn srgb_exponent() -> Single {
    Single::whole(1).over(display_gamma())
}

/// The code value of a linear one, where `raised` is that value, cut to its range, to the
/// power of [`srgb_exponent`]: a straight line near black, a power above it.
pub open spec fn encoded(v: Single, raised: Single) -> Single {
    let x = crate::curve::part(v);
    if x.at_most(Single::ratio(31_308, 10_000_000)) {
        Single::ratio(1292, 100).times(x)
    } else {
        Single::ratio(1055, 1000).times(raised).minus(Single::ratio(55, 1000))
    }
}

/// What is raised to the power of [`display_gamma`] to decode a code value.
pub open spec fn lifted(v: Single) -> Single {
    crate::curve::part(v).plus(Single::ratio(55, 1000)).over(Single::ratio(1055, 1000))
}

/// The linear value of a code value, where `raised` is its [`lifted`] value to the power of
/// [`display_gamma`].
pub open spec fn decoded(v: Single, raised: Single) -> Single {
    let x = crate::curve::part(v);
    if x.at_most(Single::ratio(4045, 100_000)) {
        x.over(Single::ratio(1292, 100))
    } else {
        raised
    }
}

/// `r` is the code value of a linear value, by the machine's `power`.
pub open spec fn encodes<P: Fn(Single, Single) -> Single>(power: P, v: Single, r: Single) -> bool {
    exists|q: Single|
        #[trigger] power.ensures((crate::curve::part(v), srgb_exponent()), q) && r == encoded(v, q)
}

/// `r` is the linear value of a code value, by the machine's `power`.
pub open spec fn decodes<P: Fn(Single, Single) -> Single>(power: P, v: Single, r: Single) -> bool {
    exists|q: Single|
        #[trigger] power.ensures((lifted(v), display_gamma()), q) && r == decoded(v, q)
}

/// `r` is the 8-bit code of a linear value, by the machine's `power`.
pub open spec fn encodes_u8<P: Fn(Single, Single) -> Single>(power: P, v: Single, r: u8) -> bool {
    exists|code: Single|
        #[trigger] encodes(power, v, code) && r == code.times(Single::whole(255)).rounded().to_int(
            0xff,
        )
}

/// `r` is the 16-bit code of a linear value, by the machine's `power`.
pub open spec fn encodes_u16<P: Fn(Single, Single) -> Single>(power: P, v: Single, r: u16) -> bool {
    exists|code: Single|
        #[trigger] encodes(power, v, code) && r == code.times(
            Single::whole(65_535),
        ).rounded().to_int(0xffff)
}

/// Encodes a linear value, cut to zero to one.
pub fn linear_to_srgb<P: Fn(Single, Single) -> Single>(v: Single, power: &P) -> (r: Single)
    requires
        forall|a: Single, b: Single| #[trigger] power.requires((a, b)),
    ensures
        encodes(*power, v, r),
{
    let x: Single = v.clamp(Single::whole(0), Single::whole(1));
    let raised: Single = power(x, Single::whole(1).over(Single::ratio(24, 10)));
    assert(power.ensures((crate::curve::part(v), srgb_exponent()), raised));
    if x.at_most(Single::ratio(31_308, 10_000_000)) {
        Single::ratio(1292, 100).times(x)
    } else {
        Single::ratio(1055, 1000).times(raised).minus(Single::ratio(55, 1000))
    }
}

/// Decodes a code value, cut to zero to one.
pub fn srgb_to_linear<P: Fn(Single, Single) -> Single>(v: Single, power: &P) -> (r: Single)
    requires
        forall|a: Single, b: Single| #[trigger] power.requires((a, b)),
    ensures
        decodes(*power, v, r),
{
    let x: Single = v.clamp(Single::whole(0), Single::whole(1));
    let raised: Single = power(
        x.plus(Single::ratio(55, 1000)).over(Single::ratio(1055, 1000)),
        Single::ratio(24, 10),
    );
    assert(power.ensures((lifted(v), display_gamma()), raised));
    if x.at_most(Single::ratio(4045, 100_000)) {
        x.over(Single::ratio(1292, 100))
    } else {
        raised
    }
}

/// Encodes a linear value in 8 bits.
pub fn linear_to_srgb_u8<P: Fn(Single, Single) -> Single>(v: Single, power: &P) -> (r: u8)
    requires
        forall|a: Single, b: Single| #[trigger] power.requires((a, b)),
    ensures
        encodes_u8(*power, v, r),
{
    let code: Single = linear_to_srgb(v, power);
    let q: Single = code.times(Single::whole(255)).rounded();
    proof {
        crate::single::lemma_to_int_bound(q, 0xff);
        assert(encodes(*power, v, code));
    }
    q.to_int(0xff) as u8
}

/// Encodes a linear value in 16 bits.
pub fn linear_to_srgb_u16<P: Fn(Single, Single) -> Single>(v: Single, power: &P) -> (r: u16)
    requires
        forall|a: Single, b: Single| #[trigger] power.requires((a, b)),
    ensures
        encodes_u16(*power, v, r),
{
    let code: Single = linear_to_srgb(v, power);
    let q: Single = code.times(Single::whole(65_535)).rounded();
    proof {
        crate::single::lemma_to_int_bound(q, 0xffff);
        assert(encodes(*power, v, code));
    }
    q.to_int(0xffff) as u16
}

/// A 16-bit sample as a number from zero to one.
pub open spec fn unit_u16(v: u16) -> Single {
    Single::whole(v as u64).times(Single::whole(1).over(Single::whole(65_535)))
}

/// Encodes a linear print in place.
pub fn encode_linear_u16_to_srgb<P: Fn(Single, Single) -> Single>(image: &mut Vec<u16>, power: &P)
    requires
        forall|a: Single, b: Single| #[trigger] power.requires((a, b)),
    ensures
        final(image).len() == old(image).len(),
        forall|i: int|
            0 <= i < old(image).len() ==> encodes_u16(
                *power,
                unit_u16(old(image)@[i]),
                #[trigger] final(image)@[i],
            ),
{
    let ghost start = image@;
    let scale: Single = Single::whole(1).over(Single::whole(65_535));
    let mut i: usize = 0;
    while i < image.len()
        invariant
            i <= image.len(),
            image@.len() == start.len(),
            scale == Single::whole(1).over(Single::whole(65_535)),
            forall|a: Single, b: Single| #[trigger] power.requires((a, b)),
            forall|k: int|
                0 <= k < i ==> encodes_u16(*power, unit_u16(start[k]), #[trigger] image@[k]),
            forall|k: int| i <= k < start.len() ==> #[trigger] image@[k] == start[k],
        decreases image.len() - i,
    {
        let v: u16 = linear_to_srgb_u16(Single::whole(image[i] as u64).times(scale), power);
        assert(encodes_u16(*power, unit_u16(start[i as int]), v));
        image.set(i, v);
        i = i + 1;
    }
}

/// `after` is `before` with nothing below zero.
pub open spec fn floored(after: Seq<Single>, before: Seq<Single>) -> bool {
    &&& after.len() == before.len()
    &&& forall|i: int|
        0 <= i < before.len() ==> #[trigger] after[i] == before[i].larger(Single::whole(0))
}

/// Brings an image into the working space. Without an input transform it stays camera RGB, and
/// no other matrix is applied to it; with one it goes through ACEScg to linear Rec.709.
pub fn apply_input_idt_to_working_space(image: &mut FilmImage, idt: &Matrix)
    requires
        old(image).wf(),
        old(image).channels == 3,
    ensures
        final(image).wf(),
        final(image).width == old(image).width,
        final(image).height == old(image).height,
        final(image).channels == 3,
        crate::aces::near_unit(*idt) ==> final(image).samples@ == old(image).samples@,
        !crate::aces::near_unit(*idt) ==> exists|aces: Seq<Single>, rec709: Seq<Single>|
            {
                &&& #[trigger] crate::aces::changed_by(aces, old(image).samples@, *idt)
                &&& #[trigger] crate::aces::changed_by_bits(
                    rec709,
                    aces,
                    crate::aces::ap1_to_rec709(),
                )
                &&& floored(final(image).samples@, rec709)
            },
{
    if is_identity(idt) {
        return;
    }
    apply_idt(image, idt);
    let ghost aces = image.samples@;
    linear_acescg_to_linear_srgb(image);
    let ghost rec709 = image.samples@;
    let ghost frame = *image;
    let zero: Single = Single::whole(0);
    let mut i: usize = 0;
    while i < image.samples.len()
        invariant
            i <= image.samples.len(),
            image.samples@.len() == rec709.len(),
            image.width == frame.width,
            image.height == frame.height,
            image.channels == frame.channels,
            zero == Single::whole(0),
            forall|k: int| 0 <= k < i ==> #[trigger] image.samples@[k] == rec709[k].larger(zero),
            forall|k: int| i <= k < rec709.len() ==> #[trigger] image.samples@[k] == rec709[k],
        decreases image.samples.len() - i,
    {
        let v: Single = image.samples[i].larger(zero);
        image.samples.set(i, v);
        i = i + 1;
    }
    proof {
        assert(crate::aces::changed_by(aces, old(image).samples@, *idt));
        assert(crate::aces::changed_by_bits(rec709, aces, crate::aces::ap1_to_rec709()));
    }
}

/// One sixteenth.
pub open spec fn sixteenth() -> Single {
    Single { bits: 0x3d80_0000 }
}

proof fn lemma_sixteenth()
    ensures
        sixteenth().finite(),
        !sixteenth().negative(),
        16 * sixteenth().units() == pow2(149),
        pow2(149) >= 0x1_0000_0000_0000_0000,
{
    lemma2_to64();
    let a = sixteenth();
    assert(a.exp() == 122 && a.mant() == 0x80_0000);
    lemma_pow2_adds(23, 122);
    lemma_pow2_adds(4, 145);
    lemma_pow2_strictly_increases(64, 149);
}

/// The machine's `power` as far as codes need it: what is raised to [`srgb_exponent`] from beyond
/// the straight line lies between a sixteenth and one, and what is no number stays none.
pub open spec fn raises_parts<P: Fn(Single, Single) -> Single>(power: P) -> bool {
    forall|v: Single, q: Single| #[trigger]
        power.ensures((v, srgb_exponent()), q) ==> {
            &&& v.not_a_number() ==> q.not_a_number()
            &&& crate::single::is_part(v) && !v.at_most(Single::ratio(31_308, 10_000_000))
                ==> sixteenth().at_most(q) && q.at_most(Single::whole(1))
        }
}

/// A code on the straight line lies from zero to one.
proof fn lemma_line(x: Single)
    requires
        crate::single::is_part(x),
        x.at_most(Single::ratio(31_308, 10_000_000)),
    ensures
        crate::single::is_part(Single::ratio(1292, 100).times(x)),
{
    reveal(Single::at_most_spec);
    reveal(Single::times_spec);
    lemma_sixteenth();
    crate::single::lemma_zero();
    crate::single::lemma_whole_exact(1);
    crate::single::lemma_whole_exact(16);
    let c = pow2(149);
    let one = Single::whole(1);
    let slope = Single::ratio(1292, 100);
    let least = Single::ratio(31_308, 10_000_000);
    assert(0 <= 1292 * c <= (16 * c) * 100);
    crate::single::lemma_ratio_bounds(1292, 100, Single::whole(0), Single::whole(16));
    assert(31_308 * c <= sixteenth().units() * 10_000_000);
    crate::single::lemma_ratio_bounds(31_308, 10_000_000, Single::whole(0), sixteenth());
    crate::single::lemma_units_monotone(slope, Single::whole(16));
    crate::single::lemma_units_monotone(x, sixteenth());
    let n = slope.units() * x.units();
    assert(n <= one.units() * c) by (nonlinear_arith)
        requires
            n == slope.units() * x.units(),
            slope.units() <= 16 * c,
            16 * x.units() <= c,
            one.units() == c,
    ;
    crate::single::lemma_round_at_most(n, c, one);
    crate::single::lemma_round_is_a_number(x.negative(), n, c);
    let r = slope.times(x);
    assert(r.mag() == crate::single::round_units(false, n, c).mag());
    if x.negative() {
        assert(x.mag() == 0);
        crate::single::lemma_units_positive(x);
        assert(n == 0) by (nonlinear_arith)
            requires
                n == slope.units() * x.units(),
                x.units() == 0,
        ;
        crate::single::lemma_zero_rounds(true, c);
    }
}

/// So does one on the curve.
proof fn lemma_curve(q: Single)
    requires
        sixteenth().at_most(q),
        q.at_most(Single::whole(1)),
    ensures
        crate::single::is_part(Single::ratio(1055, 1000).times(q).minus(Single::ratio(55, 1000))),
{
    reveal(Single::at_most_spec);
    reveal(Single::times_spec);
    reveal(Single::plus_spec);
    lemma_sixteenth();
    lemma2_to64();
    crate::single::lemma_zero();
    crate::single::lemma_whole_exact(1);
    let c = pow2(149);
    let one = Single::whole(1);
    let low = sixteenth();
    let a = Single::ratio(1055, 1000);
    let b = Single::ratio(55, 1000);
    lemma_pow2_adds(23, 126);
    lemma_pow2_adds(28, 121);
    lemma_pow2_adds(5, 121);
    crate::single::lemma_ratio_is(1055, 1000, 8_849_981, 126, 23);
    crate::single::lemma_ratio_is(55, 1000, 14_763_950, 121, 28);
    crate::single::lemma_units_monotone(low, q);
    crate::single::lemma_units_monotone(q, one);
    assert(q.finite() && !q.negative());
    let n = a.units() * q.units();
    let u = pow2(121);
    assert(c == 0x1000_0000 * u);
    assert(a.units() == 8_849_981 * (32 * u));
    assert(b.units() == 14_763_950 * u);
    assert(n <= a.units() * c && low.units() * c <= n * 1) by (nonlinear_arith)
        requires
            n == a.units() * q.units(),
            low.units() <= q.units() <= c,
            a.units() >= c,
    ;
    crate::single::lemma_round_at_most(n, c, a);
    crate::single::lemma_round_self(low);
    crate::single::lemma_round_monotone(low.units(), 1, n, c);
    let p = a.times(q);
    crate::single::lemma_units_monotone(p, a);
    crate::single::lemma_units_monotone(low, p);
    crate::single::lemma_opposite(b);
    let t = p.units() - b.units();
    assert(t > 0);
    crate::single::lemma_round_at_most(t as nat, 1, one);
}

/// The code of a number lies from zero to one, on a machine whose `power` does so; what is no
/// number has no code.
pub proof fn codes_lie_between_zero_and_one<P: Fn(Single, Single) -> Single>(
    power: P,
    v: Single,
    r: Single,
)
    requires
        raises_parts(power),
        encodes(power, v, r),
    ensures
        r.not_a_number() == v.not_a_number(),
        !v.not_a_number() ==> crate::single::is_part(r),
{
    let x = crate::curve::part(v);
    let q = choose|q: Single| #[trigger]
        power.ensures((x, srgb_exponent()), q) && r == encoded(v, q);
    reveal(Single::less_spec);
    reveal(Single::at_most_spec);
    crate::single::lemma_zero();
    crate::single::lemma_whole_exact(1);
    crate::single::order_is_by_value(Single::whole(0), Single::whole(1));
    if v.not_a_number() {
        reveal(Single::times_spec);
        reveal(Single::plus_spec);
    } else {
        assert(crate::single::is_part(x));
        if x.at_most(Single::ratio(31_308, 10_000_000)) {
            lemma_line(x);
        } else {
            lemma_curve(q);
        }
    }
}

} // verus!
