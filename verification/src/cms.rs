//! Colour management decisions behind the last rendering step.
//!
//! The working space is linear Rec.709 print RGB. Which profile a buffer goes to, with which
//! intent and flags, and what is shown where no profile can be used, is decided here.

use vstd::prelude::*;
use crate::color_space::{linear_to_srgb_u16, linear_to_srgb_u8, srgb_to_linear};
use crate::options::{CmsIntent, CmsTarget, OutputIcc, OutputStage, PipelineOptions};
use crate::single::Single;

verus! {

/// The rendered picture, as the last step leaves it. Samples are in row order.
pub enum Step6Display {
    /// Density, not rendered at all.
    PassthroughDensity(Vec<Single>),
    /// Linear print RGB on 16 bits.
    U16(Vec<u16>),
    /// Display RGB, encoded already.
    F32(Vec<Single>),
}

/// Short label of an output profile, for file names and the export tab. A custom profile goes by
/// the stem of its file where that is readable.
pub fn output_icc_label(kind: OutputIcc, custom_stem: Option<&str>) -> (r: String)
    ensures
        r@ == match kind {
            OutputIcc::Srgb => "sRGB"@,
            OutputIcc::DisplayP3 => "Display P3"@,
            OutputIcc::AdobeRgb => "Adobe RGB"@,
            OutputIcc::Custom => match custom_stem {
                Some(stem) => stem@,
                None => "custom"@,
            },
        },
{
    match kind {
        OutputIcc::Srgb => "sRGB".to_owned(),
        OutputIcc::DisplayP3 => "Display P3".to_owned(),
        OutputIcc::AdobeRgb => "Adobe RGB".to_owned(),
        OutputIcc::Custom => match custom_stem {
            Some(stem) => stem.to_owned(),
            None => "custom".to_owned(),
        },
    }
}

/// Whether a file goes through a profile conversion instead of the plain sRGB curve.
pub open spec fn output_managed(options: PipelineOptions) -> bool {
    options.output_icc != OutputIcc::Srgb
}

/// True when TIFF/JPEG should go through colour management instead of the sRGB curve.
pub fn uses_output_cms(options: &PipelineOptions) -> (r: bool)
    ensures
        r == output_managed(*options),
{
    match options.output_icc {
        OutputIcc::Srgb => false,
        _ => true,
    }
}

/// The monitor profile, where one is set and not empty.
pub open spec fn has_monitor(options: PipelineOptions) -> bool {
    options.preview_monitor_icc matches Some(m) && m.len() > 0
}

fn monitor_set(options: &PipelineOptions) -> (r: bool)
    ensures
        r == has_monitor(*options),
{
    match &options.preview_monitor_icc {
        Some(m) => m.len() > 0,
        None => false,
    }
}

/// Whether a preview goes through a profile conversion.
pub open spec fn preview_managed(options: PipelineOptions) -> bool {
    match options.cms_target {
        CmsTarget::Export => output_managed(options),
        CmsTarget::Display => options.soft_proof || has_monitor(options),
    }
}

pub fn needs_cms_preview(options: &PipelineOptions) -> (r: bool)
    ensures
        r == preview_managed(*options),
{
    match options.cms_target {
        CmsTarget::Export => uses_output_cms(options),
        CmsTarget::Display => options.soft_proof || monitor_set(options),
    }
}

/// Where the bytes of an output profile come from.
#[derive(Debug, Clone, Copy, PartialEq, Eq, Structural)]
pub enum IccSource {
    Srgb,
    DisplayP3,
    AdobeRgb,
    /// The file named in the options.
    CustomFile,
    /// The file of the paper or printer profile named in the options.
    ProofFile,
}

/// Why a conversion cannot be planned or done.
#[derive(Debug, Clone, Copy, PartialEq, Eq, Structural)]
pub enum CmsError {
    NoCustomFile,
    NoProofFile,
    /// The file cannot be read.
    Unreadable,
    /// The file does not have the header of a profile.
    NotIcc,
    /// The file has the header, but cannot be opened.
    InvalidIcc,
    Conversion,
}

impl CmsError {
    /// What the user is told.
    pub fn message(self) -> (r: &'static str)
        ensures
            r@ == match self {
                CmsError::NoCustomFile => "Custom output ICC selected but no file is set"@,
                CmsError::NoProofFile => "Soft proof is on but no paper/printer ICC is set"@,
                CmsError::Unreadable => "Failed to read ICC"@,
                CmsError::NotIcc => "Not a valid ICC profile"@,
                CmsError::InvalidIcc => "Invalid ICC profile"@,
                CmsError::Conversion => "ICC transform"@,
            },
    {
        match self {
            CmsError::NoCustomFile => "Custom output ICC selected but no file is set",
            CmsError::NoProofFile => "Soft proof is on but no paper/printer ICC is set",
            CmsError::Unreadable => "Failed to read ICC",
            CmsError::NotIcc => "Not a valid ICC profile",
            CmsError::InvalidIcc => "Invalid ICC profile",
            CmsError::Conversion => "ICC transform",
        }
    }
}

pub open spec fn icc_source(kind: OutputIcc, has_file: bool) -> Result<IccSource, CmsError> {
    match kind {
        OutputIcc::Srgb => Ok(IccSource::Srgb),
        OutputIcc::DisplayP3 => Ok(IccSource::DisplayP3),
        OutputIcc::AdobeRgb => Ok(IccSource::AdobeRgb),
        OutputIcc::Custom => if has_file {
            Ok(IccSource::CustomFile)
        } else {
            Err(CmsError::NoCustomFile)
        },
    }
}

/// Where the profile to embed in an export file comes from.
pub fn output_icc_source(options: &PipelineOptions) -> (r: Result<IccSource, CmsError>)
    ensures
        r == icc_source(options.output_icc, options.output_icc_path is Some),
{
    match options.output_icc {
        OutputIcc::Srgb => Ok(IccSource::Srgb),
        OutputIcc::DisplayP3 => Ok(IccSource::DisplayP3),
        OutputIcc::AdobeRgb => Ok(IccSource::AdobeRgb),
        OutputIcc::Custom => if options.output_icc_path.is_some() {
            Ok(IccSource::CustomFile)
        } else {
            Err(CmsError::NoCustomFile)
        },
    }
}

/// An encoded sample on 8 bits: clamped to 0 and 1, scaled by 255 and rounded.
pub open spec fn clamp_u8(v: Single) -> u8 {
    v.clamp(Single::whole(0), Single::whole(1)).times(Single::whole(255)).rounded().to_int(
        255,
    ) as u8
}

/// Encoded samples on 8 bits.
pub fn clamp_f32_u8(img: &Vec<Single>) -> (r: Vec<u8>)
    ensures
        r@ == img@.map_values(|v: Single| clamp_u8(v)),
{
    let mut out: Vec<u8> = Vec::with_capacity(img.len());
    let zero = Single::whole(0);
    let one = Single::whole(1);
    let full = Single::whole(255);
    let mut i: usize = 0;
    while i < img.len()
        invariant
            i <= img.len(),
            zero == Single::whole(0),
            one == Single::whole(1),
            full == Single::whole(255),
            out@ == img@.take(i as int).map_values(|v: Single| clamp_u8(v)),
        decreases img.len() - i,
    {
        let v = img[i];
        let c: u64 = v.clamp(zero, one).times(full).rounded().to_int(255);
        out.push(c as u8);
        assert(img@.take(i + 1) =~= img@.take(i as int).push(v));
        assert(out@ =~= img@.take(i + 1).map_values(|v: Single| clamp_u8(v)));
        i = i + 1;
    }
    assert(img@.take(img.len() as int) =~= img@);
    out
}

/// `r` holds the 8-bit codes of linear 16-bit samples, by the machine's `power`.
pub open spec fn coded_by<P: Fn(Single, Single) -> Single>(
    power: P,
    img: Seq<u16>,
    r: Seq<u8>,
) -> bool {
    &&& r.len() == img.len()
    &&& forall|i: int|
        0 <= i < img.len() ==> crate::color_space::encodes_u8(
            power,
            Single::whole(img[i] as u64).over(Single::whole(65_535)),
            #[trigger] r[i],
        )
}

/// Linear 16-bit samples on 8 bits, by the sRGB curve.
pub fn srgb_u8_from_u16<P: Fn(Single, Single) -> Single>(img: &Vec<u16>, power: &P) -> (r: Vec<u8>)
    requires
        forall|a: Single, b: Single| #[trigger] power.requires((a, b)),
    ensures
        coded_by(*power, img@, r@),
{
    let mut out: Vec<u8> = Vec::with_capacity(img.len());
    let mut i: usize = 0;
    while i < img.len()
        invariant
            i <= img.len(),
            out@.len() == i,
            forall|a: Single, b: Single| #[trigger] power.requires((a, b)),
            forall|k: int|
                0 <= k < i ==> crate::color_space::encodes_u8(
                    *power,
                    Single::whole(img@[k] as u64).over(Single::whole(65_535)),
                    #[trigger] out@[k],
                ),
        decreases img.len() - i,
    {
        let code: u8 = linear_to_srgb_u8(
            Single::whole(img[i] as u64).over(Single::whole(65_535)),
            power,
        );
        out.push(code);
        i = i + 1;
    }
    out
}

/// How a rendered picture becomes bytes for the screen.
#[derive(Debug, Clone, Copy, PartialEq, Eq, Structural)]
pub enum PreviewRoute {
    /// Shown as the pipeline encodes it.
    Plain,
    /// Linear samples through the sRGB curve.
    SrgbCurve,
    /// Encoded samples as they are.
    Encoded,
    /// Through a profile, as [`display_u8_from_linear`] says.
    Managed,
}

/// Which way a picture takes to the screen.
pub open spec fn preview_route(display: Step6Display, options: PipelineOptions) -> PreviewRoute {
    match display {
        Step6Display::PassthroughDensity(_) => PreviewRoute::Plain,
        Step6Display::U16(_) => if preview_managed(options) {
            PreviewRoute::Managed
        } else {
            PreviewRoute::SrgbCurve
        },
        Step6Display::F32(_) => if options.output_stage != OutputStage::Bare && preview_managed(
            options,
        ) {
            PreviewRoute::Managed
        } else {
            PreviewRoute::Encoded
        },
    }
}

/// Linear samples on 8 bits, by the sRGB curve.
pub fn srgb_u8_from_linear<P: Fn(Single, Single) -> Single>(linear: &Vec<Single>, power: &P) -> (r:
    Vec<u8>)
    requires
        forall|a: Single, b: Single| #[trigger] power.requires((a, b)),
    ensures
        curve_u8(*power, linear@, r@),
{
    let mut out: Vec<u8> = Vec::with_capacity(linear.len());
    let mut i: usize = 0;
    while i < linear.len()
        invariant
            i <= linear.len(),
            out@.len() == i,
            forall|a: Single, b: Single| #[trigger] power.requires((a, b)),
            forall|k: int| 0 <= k < i ==> crate::color_space::encodes_u8(*power, linear@[k], #[trigger] out@[k]),
        decreases linear.len() - i,
    {
        let v: Single = linear[i];
        let code: u8 = linear_to_srgb_u8(v, power);
        out.push(code);
        i = i + 1;
    }
    out
}

/// Linear samples on 16 bits, by the sRGB curve.
pub fn srgb_u16_from_linear<P: Fn(Single, Single) -> Single>(linear: &Vec<Single>, power: &P) -> (r:
    Vec<u16>)
    requires
        forall|a: Single, b: Single| #[trigger] power.requires((a, b)),
    ensures
        curve_u16(*power, linear@, r@),
{
    let mut out: Vec<u16> = Vec::with_capacity(linear.len());
    let mut i: usize = 0;
    while i < linear.len()
        invariant
            i <= linear.len(),
            out@.len() == i,
            forall|a: Single, b: Single| #[trigger] power.requires((a, b)),
            forall|k: int| 0 <= k < i ==> crate::color_space::encodes_u16(*power, linear@[k], #[trigger] out@[k]),
        decreases linear.len() - i,
    {
        let v: Single = linear[i];
        let code: u16 = linear_to_srgb_u16(v, power);
        out.push(code);
        i = i + 1;
    }
    out
}

/// Samples of a 16-bit print, as parts of one.
pub open spec fn unit_samples(img: Seq<u16>) -> Seq<Single> {
    img.map_values(|v: u16| Single::whole(v as u64).over(Single::whole(65_535)))
}

/// Linear samples of a 16-bit print, as parts of one.
pub fn linear_from_u16(img: &Vec<u16>) -> (r: Vec<Single>)
    ensures
        r@ == unit_samples(img@),
{
    let mut out: Vec<Single> = Vec::with_capacity(img.len());
    let full: Single = Single::whole(65_535);
    let mut i: usize = 0;
    while i < img.len()
        invariant
            i <= img.len(),
            full == Single::whole(65_535),
            out@ == unit_samples(img@.take(i as int)),
        decreases img.len() - i,
    {
        let v: u16 = img[i];
        out.push(Single::whole(v as u64).over(full));
        proof {
            assert(img@.take(i + 1) =~= img@.take(i as int).push(v));
            assert(out@ =~= unit_samples(img@.take(i + 1)));
        }
        i = i + 1;
    }
    assert(img@.take(img.len() as int) =~= img@);
    out
}

/// `r` holds encoded samples made linear, each taken between 0 and 1 first.
pub open spec fn decoded_by<P: Fn(Single, Single) -> Single>(
    power: P,
    img: Seq<Single>,
    r: Seq<Single>,
) -> bool {
    &&& r.len() == img.len()
    &&& forall|i: int|
        0 <= i < r.len() ==> crate::color_space::decodes(
            power,
            crate::curve::part(img[i]),
            #[trigger] r[i],
        )
}

/// Encoded samples, made linear by the machine's `power`.
pub fn linear_from_encoded<P: Fn(Single, Single) -> Single>(img: &Vec<Single>, power: &P) -> (r: Vec<
    Single,
>)
    requires
        forall|a: Single, b: Single| #[trigger] power.requires((a, b)),
    ensures
        decoded_by(*power, img@, r@),
{
    let mut out: Vec<Single> = Vec::with_capacity(img.len());
    let mut i: usize = 0;
    while i < img.len()
        invariant
            i <= img.len(),
            out@.len() == i,
            forall|a: Single, b: Single| #[trigger] power.requires((a, b)),
            forall|k: int|
                0 <= k < i ==> crate::color_space::decodes(
                    *power,
                    crate::curve::part(img@[k]),
                    #[trigger] out@[k],
                ),
        decreases img.len() - i,
    {
        let v: Single = img[i].clamp(Single::whole(0), Single::whole(1));
        let linear: Single = srgb_to_linear(v, power);
        out.push(linear);
        i = i + 1;
    }
    out
}

/// An exported picture: its samples, and the profile that goes into the file with them.
pub struct Exported<T> {
    pub samples: Vec<T>,
    pub icc: Vec<u8>,
}

/// Samples that the sRGB curve gives on 8 bits, by the machine's `power`.
pub open spec fn curve_u8<P: Fn(Single, Single) -> Single>(
    power: P,
    linear: Seq<Single>,
    r: Seq<u8>,
) -> bool {
    &&& r.len() == linear.len()
    &&& forall|i: int|
        0 <= i < r.len() ==> crate::color_space::encodes_u8(power, linear[i], #[trigger] r[i])
}

/// Samples that the sRGB curve gives on 16 bits, by the machine's `power`.
pub open spec fn curve_u16<P: Fn(Single, Single) -> Single>(
    power: P,
    linear: Seq<Single>,
    r: Seq<u16>,
) -> bool {
    &&& r.len() == linear.len()
    &&& forall|i: int|
        0 <= i < r.len() ==> crate::color_space::encodes_u16(power, linear[i], #[trigger] r[i])
}

/// `r` is what the conversion to an output profile gives, with the export's intent and
/// black point, or its error.
pub open spec fn converted<
    T,
    C: Fn(&Vec<Single>, &Vec<u8>, CmsIntent, bool) -> Result<Vec<T>, CmsError>,
>(
    convert: C,
    linear: Vec<Single>,
    icc: Vec<u8>,
    options: PipelineOptions,
    r: Result<Exported<T>, CmsError>,
) -> bool {
    exists|c: Result<Vec<T>, CmsError>|
        #[trigger] convert.ensures(
            (&linear, &icc, options.export_intent, options.export_bpc),
            c,
        ) && match c {
            Ok(samples) => r == Ok::<Exported<T>, CmsError>(Exported { samples, icc }),
            Err(e) => r == Err::<Exported<T>, CmsError>(e),
        }
}

/// `r` is the outcome of an export on 8 bits: the profile is looked up first, then the samples
/// are converted to it; an export to sRGB goes by the plain curve.
pub open spec fn exported_u8<
    B: Fn(IccSource) -> Result<Vec<u8>, CmsError>,
    C: Fn(&Vec<Single>, &Vec<u8>, CmsIntent, bool) -> Result<Vec<u8>, CmsError>,
    P: Fn(Single, Single) -> Single,
>(
    linear: Vec<Single>,
    options: PipelineOptions,
    profile: B,
    convert: C,
    power: P,
    r: Result<Exported<u8>, CmsError>,
) -> bool {
    match icc_source(options.output_icc, options.output_icc_path is Some) {
        Err(e) => r == Err::<Exported<u8>, CmsError>(e),
        Ok(source) => exists|icc: Result<Vec<u8>, CmsError>|
            #[trigger] profile.ensures((source,), icc) && match icc {
                Err(e) => r == Err::<Exported<u8>, CmsError>(e),
                Ok(bytes) => if output_managed(options) {
                    converted(convert, linear, bytes, options, r)
                } else {
                    r matches Ok(x) && x.icc == bytes && curve_u8(power, linear@, x.samples@)
                },
            },
    }
}

/// `r` is the outcome of an export on 16 bits, as on 8 bits.
pub open spec fn exported_u16<
    B: Fn(IccSource) -> Result<Vec<u8>, CmsError>,
    C: Fn(&Vec<Single>, &Vec<u8>, CmsIntent, bool) -> Result<Vec<u16>, CmsError>,
    P: Fn(Single, Single) -> Single,
>(
    linear: Vec<Single>,
    options: PipelineOptions,
    profile: B,
    convert: C,
    power: P,
    r: Result<Exported<u16>, CmsError>,
) -> bool {
    match icc_source(options.output_icc, options.output_icc_path is Some) {
        Err(e) => r == Err::<Exported<u16>, CmsError>(e),
        Ok(source) => exists|icc: Result<Vec<u8>, CmsError>|
            #[trigger] profile.ensures((source,), icc) && match icc {
                Err(e) => r == Err::<Exported<u16>, CmsError>(e),
                Ok(bytes) => if output_managed(options) {
                    converted(convert, linear, bytes, options, r)
                } else {
                    r matches Ok(x) && x.icc == bytes && curve_u16(power, linear@, x.samples@)
                },
            },
    }
}

/// Samples of a file on 8 bits, with the profile to embed.
///
/// `profile` gives the bytes of a profile, `convert` takes linear samples to a profile with an
/// intent and, where asked, black point compensation.
pub fn export_u8_from_linear<
    B: Fn(IccSource) -> Result<Vec<u8>, CmsError>,
    C: Fn(&Vec<Single>, &Vec<u8>, CmsIntent, bool) -> Result<Vec<u8>, CmsError>,
    P: Fn(Single, Single) -> Single,
>(
    linear: &Vec<Single>,
    options: &PipelineOptions,
    profile: &B,
    convert: &C,
    power: &P,
) -> (r: Result<Exported<u8>, CmsError>)
    requires
        forall|s: IccSource| #[trigger] profile.requires((s,)),
        forall|v: &Vec<Single>, icc: &Vec<u8>, i: CmsIntent, b: bool| #[trigger]
            convert.requires((v, icc, i, b)),
        forall|a: Single, b: Single| #[trigger] power.requires((a, b)),
    ensures
        exported_u8(*linear, *options, *profile, *convert, *power, r),
{
    let source: IccSource = match output_icc_source(options) {
        Ok(s) => s,
        Err(e) => {
            return Err(e);
        },
    };
    match profile(source) {
        Err(e) => Err(e),
        Ok(icc) => {
            if !uses_output_cms(options) {
                return Ok(Exported { samples: srgb_u8_from_linear(linear, power), icc });
            }
            match convert(linear, &icc, options.export_intent, options.export_bpc) {
                Ok(samples) => Ok(Exported { samples, icc }),
                Err(e) => Err(e),
            }
        },
    }
}

/// Samples of a file on 16 bits, with the profile to embed, as on 8 bits.
pub fn export_u16_from_linear<
    B: Fn(IccSource) -> Result<Vec<u8>, CmsError>,
    C: Fn(&Vec<Single>, &Vec<u8>, CmsIntent, bool) -> Result<Vec<u16>, CmsError>,
    P: Fn(Single, Single) -> Single,
>(
    linear: &Vec<Single>,
    options: &PipelineOptions,
    profile: &B,
    convert: &C,
    power: &P,
) -> (r: Result<Exported<u16>, CmsError>)
    requires
        forall|s: IccSource| #[trigger] profile.requires((s,)),
        forall|v: &Vec<Single>, icc: &Vec<u8>, i: CmsIntent, b: bool| #[trigger]
            convert.requires((v, icc, i, b)),
        forall|a: Single, b: Single| #[trigger] power.requires((a, b)),
    ensures
        exported_u16(*linear, *options, *profile, *convert, *power, r),
{
    let source: IccSource = match output_icc_source(options) {
        Ok(s) => s,
        Err(e) => {
            return Err(e);
        },
    };
    match profile(source) {
        Err(e) => Err(e),
        Ok(icc) => {
            if !uses_output_cms(options) {
                return Ok(Exported { samples: srgb_u16_from_linear(linear, power), icc });
            }
            match convert(linear, &icc, options.export_intent, options.export_bpc) {
                Ok(samples) => Ok(Exported { samples, icc }),
                Err(e) => Err(e),
            }
        },
    }
}

/// Export of a 16-bit print through the output profile.
pub fn export_from_u16<
    B: Fn(IccSource) -> Result<Vec<u8>, CmsError>,
    C: Fn(&Vec<Single>, &Vec<u8>, CmsIntent, bool) -> Result<Vec<u16>, CmsError>,
    P: Fn(Single, Single) -> Single,
>(
    img: &Vec<u16>,
    options: &PipelineOptions,
    profile: &B,
    convert: &C,
    power: &P,
) -> (r: Result<Exported<u16>, CmsError>)
    requires
        forall|s: IccSource| #[trigger] profile.requires((s,)),
        forall|v: &Vec<Single>, icc: &Vec<u8>, i: CmsIntent, b: bool| #[trigger]
            convert.requires((v, icc, i, b)),
        forall|a: Single, b: Single| #[trigger] power.requires((a, b)),
    ensures
        exists|linear: Vec<Single>|
            linear@ == unit_samples(img@) && #[trigger] exported_u16(
                linear,
                *options,
                *profile,
                *convert,
                *power,
                r,
            ),
{
    let linear: Vec<Single> = linear_from_u16(img);
    export_u16_from_linear(&linear, options, profile, convert, power)
}

/// Export of encoded display samples through the output profile: they are made linear first.
pub fn export_from_encoded_f32<
    B: Fn(IccSource) -> Result<Vec<u8>, CmsError>,
    C: Fn(&Vec<Single>, &Vec<u8>, CmsIntent, bool) -> Result<Vec<u8>, CmsError>,
    P: Fn(Single, Single) -> Single,
>(
    img: &Vec<Single>,
    options: &PipelineOptions,
    profile: &B,
    convert: &C,
    power: &P,
) -> (r: Result<Exported<u8>, CmsError>)
    requires
        forall|s: IccSource| #[trigger] profile.requires((s,)),
        forall|v: &Vec<Single>, icc: &Vec<u8>, i: CmsIntent, b: bool| #[trigger]
            convert.requires((v, icc, i, b)),
        forall|a: Single, b: Single| #[trigger] power.requires((a, b)),
    ensures
        exists|linear: Vec<Single>|
            decoded_by(*power, img@, linear@) && #[trigger] exported_u8(
                linear,
                *options,
                *profile,
                *convert,
                *power,
                r,
            ),
{
    let linear: Vec<Single> = linear_from_encoded(img, power);
    export_u8_from_linear(&linear, options, profile, convert, power)
}

/// `r` is the soft proof of a paper on a display with profile `dest`, or its error.
pub open spec fn proofed<
    F: Fn(&Vec<Single>, &Vec<u8>, &Vec<u8>, CmsIntent, bool, bool) -> Result<Vec<u8>, CmsError>,
>(
    proofing: F,
    linear: Vec<Single>,
    paper: Vec<u8>,
    dest: Vec<u8>,
    options: PipelineOptions,
    r: Result<Vec<u8>, CmsError>,
) -> bool {
    proofing.ensures(
        (
            &linear,
            &paper,
            &dest,
            options.proof_intent,
            options.proof_paper_white,
            options.proof_gamut_warning,
        ),
        r,
    )
}

/// `r` is what the screen shows of linear samples. For the export's look that is the exported
/// samples. For the display it is the proof of the paper, on the monitor's profile or else on
/// sRGB, where one is asked for; else the conversion to the monitor's profile, relative and with
/// black point compensation; else the plain sRGB curve.
pub open spec fn displayed<
    B: Fn(IccSource) -> Result<Vec<u8>, CmsError>,
    C: Fn(&Vec<Single>, &Vec<u8>, CmsIntent, bool) -> Result<Vec<u8>, CmsError>,
    F: Fn(&Vec<Single>, &Vec<u8>, &Vec<u8>, CmsIntent, bool, bool) -> Result<Vec<u8>, CmsError>,
    P: Fn(Single, Single) -> Single,
>(
    linear: Vec<Single>,
    options: PipelineOptions,
    profile: B,
    convert: C,
    proofing: F,
    power: P,
    r: Result<Vec<u8>, CmsError>,
) -> bool {
    match options.cms_target {
        CmsTarget::Export => exists|x: Result<Exported<u8>, CmsError>|
            #[trigger] exported_u8(linear, options, profile, convert, power, x) && match x {
                Ok(out) => r == Ok::<Vec<u8>, CmsError>(out.samples),
                Err(e) => r == Err::<Vec<u8>, CmsError>(e),
            },
        CmsTarget::Display => if options.soft_proof {
            if options.proof_icc_path is Some {
                exists|paper: Result<Vec<u8>, CmsError>|
                    #[trigger] profile.ensures((IccSource::ProofFile,), paper) && match paper {
                        Err(e) => r == Err::<Vec<u8>, CmsError>(e),
                        Ok(on) => if has_monitor(options) {
                            proofed(
                                proofing,
                                linear,
                                on,
                                options.preview_monitor_icc->0,
                                options,
                                r,
                            )
                        } else {
                            exists|dest: Result<Vec<u8>, CmsError>|
                                #[trigger] profile.ensures((IccSource::Srgb,), dest) && match dest {
                                    Err(e) => r == Err::<Vec<u8>, CmsError>(e),
                                    Ok(to) => proofed(proofing, linear, on, to, options, r),
                                }
                        },
                    }
            } else {
                r == Err::<Vec<u8>, CmsError>(CmsError::NoProofFile)
            }
        } else if has_monitor(options) {
            convert.ensures(
                (&linear, &options.preview_monitor_icc->0, CmsIntent::Relative, true),
                r,
            )
        } else {
            r matches Ok(v) && curve_u8(power, linear@, v@)
        },
    }
}

/// What the screen shows of linear samples.
///
/// `proofing` shows linear samples on a paper's profile, given the display's; its last two
/// arguments ask for the paper's white and for a gamut warning.
pub fn display_u8_from_linear<
    B: Fn(IccSource) -> Result<Vec<u8>, CmsError>,
    C: Fn(&Vec<Single>, &Vec<u8>, CmsIntent, bool) -> Result<Vec<u8>, CmsError>,
    F: Fn(&Vec<Single>, &Vec<u8>, &Vec<u8>, CmsIntent, bool, bool) -> Result<Vec<u8>, CmsError>,
    P: Fn(Single, Single) -> Single,
>(
    linear: &Vec<Single>,
    options: &PipelineOptions,
    profile: &B,
    convert: &C,
    proofing: &F,
    power: &P,
) -> (r: Result<Vec<u8>, CmsError>)
    requires
        forall|s: IccSource| #[trigger] profile.requires((s,)),
        forall|v: &Vec<Single>, icc: &Vec<u8>, i: CmsIntent, b: bool| #[trigger]
            convert.requires((v, icc, i, b)),
        forall|v: &Vec<Single>, on: &Vec<u8>, to: &Vec<u8>, i: CmsIntent, a: bool, b: bool| #[trigger]
            proofing.requires((v, on, to, i, a, b)),
        forall|a: Single, b: Single| #[trigger] power.requires((a, b)),
    ensures
        displayed(*linear, *options, *profile, *convert, *proofing, *power, r),
{
    match options.cms_target {
        CmsTarget::Export => match export_u8_from_linear(linear, options, profile, convert, power) {
            Ok(out) => Ok(out.samples),
            Err(e) => Err(e),
        },
        CmsTarget::Display => {
            if options.soft_proof {
                if options.proof_icc_path.is_none() {
                    return Err(CmsError::NoProofFile);
                }
                let paper: Vec<u8> = match profile(IccSource::ProofFile) {
                    Ok(p) => p,
                    Err(e) => {
                        return Err(e);
                    },
                };
                if let Some(m) = &options.preview_monitor_icc {
                    if m.len() > 0 {
                        return proofing(
                            linear,
                            &paper,
                            m,
                            options.proof_intent,
                            options.proof_paper_white,
                            options.proof_gamut_warning,
                        );
                    }
                }
                return match profile(IccSource::Srgb) {
                    Ok(dest) => proofing(
                        linear,
                        &paper,
                        &dest,
                        options.proof_intent,
                        options.proof_paper_white,
                        options.proof_gamut_warning,
                    ),
                    Err(e) => Err(e),
                };
            }
            if let Some(m) = &options.preview_monitor_icc {
                if m.len() > 0 {
                    return convert(linear, m, CmsIntent::Relative, true);
                }
            }
            Ok(srgb_u8_from_linear(linear, power))
        },
    }
}

/// `linear` holds the linear samples of a rendered picture.
pub open spec fn made_linear<P: Fn(Single, Single) -> Single>(
    power: P,
    display: Step6Display,
    linear: Vec<Single>,
) -> bool {
    match display {
        Step6Display::PassthroughDensity(_) => false,
        Step6Display::U16(img) => linear@ == unit_samples(img@),
        Step6Display::F32(img) => decoded_by(power, img@, linear@),
    }
}

/// `r` are the bytes of a picture by the way it takes to the screen, or the error of the
/// conversion that it needs.
pub open spec fn previewed<
    B: Fn(IccSource) -> Result<Vec<u8>, CmsError>,
    C: Fn(&Vec<Single>, &Vec<u8>, CmsIntent, bool) -> Result<Vec<u8>, CmsError>,
    F: Fn(&Vec<Single>, &Vec<u8>, &Vec<u8>, CmsIntent, bool, bool) -> Result<Vec<u8>, CmsError>,
    P: Fn(Single, Single) -> Single,
>(
    display: Step6Display,
    options: PipelineOptions,
    profile: B,
    convert: C,
    proofing: F,
    plain: Seq<u8>,
    power: P,
    r: Result<Vec<u8>, CmsError>,
) -> bool {
    match preview_route(display, options) {
        PreviewRoute::Plain => r matches Ok(v) && v@ == plain,
        PreviewRoute::SrgbCurve => r matches Ok(v) && coded_by(power, display->U16_0@, v@),
        PreviewRoute::Encoded => r matches Ok(v) && v@ == display->F32_0@.map_values(
            |s: Single| clamp_u8(s),
        ),
        PreviewRoute::Managed => exists|linear: Vec<Single>|
            #[trigger] made_linear(power, display, linear) && displayed(
                linear,
                options,
                profile,
                convert,
                proofing,
                power,
                r,
            ),
    }
}

/// Bytes of a picture by the way it takes to the screen, or the error of the conversion that it
/// needs. `plain` is the pipeline's own encoding.
pub fn encode_preview_inner<
    B: Fn(IccSource) -> Result<Vec<u8>, CmsError>,
    C: Fn(&Vec<Single>, &Vec<u8>, CmsIntent, bool) -> Result<Vec<u8>, CmsError>,
    F: Fn(&Vec<Single>, &Vec<u8>, &Vec<u8>, CmsIntent, bool, bool) -> Result<Vec<u8>, CmsError>,
    P: Fn(Single, Single) -> Single,
>(
    display: &Step6Display,
    options: &PipelineOptions,
    profile: &B,
    convert: &C,
    proofing: &F,
    plain: &Vec<u8>,
    power: &P,
) -> (r: Result<Vec<u8>, CmsError>)
    requires
        forall|s: IccSource| #[trigger] profile.requires((s,)),
        forall|v: &Vec<Single>, icc: &Vec<u8>, i: CmsIntent, b: bool| #[trigger]
            convert.requires((v, icc, i, b)),
        forall|v: &Vec<Single>, on: &Vec<u8>, to: &Vec<u8>, i: CmsIntent, a: bool, b: bool| #[trigger]
            proofing.requires((v, on, to, i, a, b)),
        forall|a: Single, b: Single| #[trigger] power.requires((a, b)),
    ensures
        previewed(*display, *options, *profile, *convert, *proofing, plain@, *power, r),
{
    match display {
        Step6Display::PassthroughDensity(_) => Ok(plain.clone()),
        Step6Display::U16(img) => {
            if !needs_cms_preview(options) {
                return Ok(srgb_u8_from_u16(img, power));
            }
            let linear: Vec<Single> = linear_from_u16(img);
            assert(made_linear(*power, *display, linear));
            display_u8_from_linear(&linear, options, profile, convert, proofing, power)
        },
        Step6Display::F32(img) => {
            if options.output_stage == OutputStage::Bare {
                return Ok(clamp_f32_u8(img));
            }
            if !needs_cms_preview(options) {
                return Ok(clamp_f32_u8(img));
            }
            let linear: Vec<Single> = linear_from_encoded(img, power);
            assert(made_linear(*power, *display, linear));
            display_u8_from_linear(&linear, options, profile, convert, proofing, power)
        },
    }
}

/// Bytes for the preview and the contact sheet. A failed conversion falls back to the
/// pipeline's own encoding, so that a bad profile never blanks the viewer.
pub fn encode_preview<
    B: Fn(IccSource) -> Result<Vec<u8>, CmsError>,
    C: Fn(&Vec<Single>, &Vec<u8>, CmsIntent, bool) -> Result<Vec<u8>, CmsError>,
    F: Fn(&Vec<Single>, &Vec<u8>, &Vec<u8>, CmsIntent, bool, bool) -> Result<Vec<u8>, CmsError>,
    P: Fn(Single, Single) -> Single,
>(
    display: &Step6Display,
    options: &PipelineOptions,
    profile: &B,
    convert: &C,
    proofing: &F,
    plain: &Vec<u8>,
    power: &P,
) -> (r: Vec<u8>)
    requires
        forall|s: IccSource| #[trigger] profile.requires((s,)),
        forall|v: &Vec<Single>, icc: &Vec<u8>, i: CmsIntent, b: bool| #[trigger]
            convert.requires((v, icc, i, b)),
        forall|v: &Vec<Single>, on: &Vec<u8>, to: &Vec<u8>, i: CmsIntent, a: bool, b: bool| #[trigger]
            proofing.requires((v, on, to, i, a, b)),
        forall|a: Single, b: Single| #[trigger] power.requires((a, b)),
    ensures
        exists|x: Result<Vec<u8>, CmsError>|
            #[trigger] previewed(
                *display,
                *options,
                *profile,
                *convert,
                *proofing,
                plain@,
                *power,
                x,
            ) && r@ == match x {
                Ok(v) => v@,
                Err(_) => plain@,
            },
{
    match encode_preview_inner(display, options, profile, convert, proofing, plain, power) {
        Ok(rgb) => rgb,
        Err(_) => plain.clone(),
    }
}

/// How many samples a picture has.
pub open spec fn sample_count(display: Step6Display) -> nat {
    match display {
        Step6Display::PassthroughDensity(img) => img@.len(),
        Step6Display::U16(img) => img@.len(),
        Step6Display::F32(img) => img@.len(),
    }
}

/// `r` are the bytes of a picture that no profile touches: linear samples by the sRGB curve,
/// encoded samples and density clamped as they are.
pub open spec fn encoded_plainly<P: Fn(Single, Single) -> Single>(
    power: P,
    display: Step6Display,
    r: Seq<u8>,
) -> bool {
    match display {
        Step6Display::PassthroughDensity(img) => r == img@.map_values(|v: Single| clamp_u8(v)),
        Step6Display::U16(img) => coded_by(power, img@, r),
        Step6Display::F32(img) => r == img@.map_values(|v: Single| clamp_u8(v)),
    }
}

/// Bytes of a picture without a profile.
pub fn plain_u8<P: Fn(Single, Single) -> Single>(display: &Step6Display, power: &P) -> (r: Vec<u8>)
    requires
        forall|a: Single, b: Single| #[trigger] power.requires((a, b)),
    ensures
        encoded_plainly(*power, *display, r@),
        r@.len() == sample_count(*display),
{
    match display {
        Step6Display::PassthroughDensity(img) => clamp_f32_u8(img),
        Step6Display::U16(img) => srgb_u8_from_u16(img, power),
        Step6Display::F32(img) => clamp_f32_u8(img),
    }
}

/// The conversions give a byte for every sample.
pub open spec fn keep_lengths<
    C: Fn(&Vec<Single>, &Vec<u8>, CmsIntent, bool) -> Result<Vec<u8>, CmsError>,
    F: Fn(&Vec<Single>, &Vec<u8>, &Vec<u8>, CmsIntent, bool, bool) -> Result<Vec<u8>, CmsError>,
>(convert: C, proofing: F) -> bool {
    &&& forall|s: Vec<Single>, icc: Vec<u8>, i: CmsIntent, b: bool, r: Vec<u8>| #[trigger]
        convert.ensures((&s, &icc, i, b), Ok(r)) ==> r@.len() == s@.len()
    &&& forall|
        s: Vec<Single>,
        on: Vec<u8>,
        to: Vec<u8>,
        i: CmsIntent,
        a: bool,
        b: bool,
        r: Vec<u8>,
    | #[trigger]
        proofing.ensures((&s, &on, &to, i, a, b), Ok(r)) ==> r@.len() == s@.len()
}

/// What the preview and the contact sheet show of a picture: it is encoded by the way it takes
/// to the screen, and without a profile where a conversion fails. There is a byte for every
/// sample, if the conversions give one.
pub fn preview_u8<
    B: Fn(IccSource) -> Result<Vec<u8>, CmsError>,
    C: Fn(&Vec<Single>, &Vec<u8>, CmsIntent, bool) -> Result<Vec<u8>, CmsError>,
    F: Fn(&Vec<Single>, &Vec<u8>, &Vec<u8>, CmsIntent, bool, bool) -> Result<Vec<u8>, CmsError>,
    P: Fn(Single, Single) -> Single,
>(
    display: &Step6Display,
    options: &PipelineOptions,
    profile: &B,
    convert: &C,
    proofing: &F,
    power: &P,
) -> (r: Vec<u8>)
    requires
        forall|s: IccSource| #[trigger] profile.requires((s,)),
        forall|v: &Vec<Single>, icc: &Vec<u8>, i: CmsIntent, b: bool| #[trigger]
            convert.requires((v, icc, i, b)),
        forall|v: &Vec<Single>, on: &Vec<u8>, to: &Vec<u8>, i: CmsIntent, a: bool, b: bool| #[trigger]
            proofing.requires((v, on, to, i, a, b)),
        forall|a: Single, b: Single| #[trigger] power.requires((a, b)),
    ensures
        exists|plain: Vec<u8>, x: Result<Vec<u8>, CmsError>|
            {
                &&& encoded_plainly(*power, *display, plain@)
                &&& #[trigger] previewed(
                    *display,
                    *options,
                    *profile,
                    *convert,
                    *proofing,
                    plain@,
                    *power,
                    x,
                )
                &&& r@ == match x {
                    Ok(v) => v@,
                    Err(_) => plain@,
                }
            },
        keep_lengths(*convert, *proofing) ==> r@.len() == sample_count(*display),
{
    let plain: Vec<u8> = plain_u8(display, power);
    encode_preview(display, options, profile, convert, proofing, &plain, power)
}

/// An export to sRGB goes by the plain curve, whatever the conversion to profiles does, and
/// carries the bytes of the sRGB profile.
pub proof fn srgb_exports_go_by_the_curve<
    B: Fn(IccSource) -> Result<Vec<u8>, CmsError>,
    C: Fn(&Vec<Single>, &Vec<u8>, CmsIntent, bool) -> Result<Vec<u8>, CmsError>,
    P: Fn(Single, Single) -> Single,
>(
    linear: Vec<Single>,
    options: PipelineOptions,
    profile: B,
    convert: C,
    power: P,
    x: Exported<u8>,
)
    requires
        options.output_icc == OutputIcc::Srgb,
        exported_u8(linear, options, profile, convert, power, Ok(x)),
    ensures
        curve_u8(power, linear@, x.samples@),
        profile.ensures((IccSource::Srgb,), Ok(x.icc)),
{
}

/// An error of LittleCMS.
#[verifier::external_type_specification]
#[verifier::external_body]
pub struct ExLcmsError(lcms2::Error);

/// Whether LittleCMS can open these bytes as a profile.
pub uninterp spec fn icc_opens(bytes: Seq<u8>) -> bool;

/// Opens a profile with `lcms2::Profile::new_icc` and lets it go again. What is claimed of it
/// is that the bytes alone decide whether it can be opened.
#[verifier::external_body]
fn open_icc(bytes: &Vec<u8>) -> (r: Result<(), lcms2::Error>)
    ensures
        r is Ok == icc_opens(bytes@),
{
    lcms2::Profile::new_icc(bytes.as_slice()).map(|_| ())
}

/// Whether the header of a profile is complete and carries its signature, `acsp` at byte 36.
pub open spec fn has_icc_header(bytes: Seq<u8>) -> bool {
    bytes.len() >= 128 && bytes[36] == 0x61 && bytes[37] == 0x63 && bytes[38] == 0x73 && bytes[39]
        == 0x70
}

/// Whether the header of a file is that of a profile.
pub fn icc_header_present(bytes: &Vec<u8>) -> (r: bool)
    ensures
        r == has_icc_header(bytes@),
{
    bytes.len() >= 128 && bytes[36] == 0x61 && bytes[37] == 0x63 && bytes[38] == 0x73 && bytes[39]
        == 0x70
}

/// Rejects what is no profile before it is used for an export: first by its header, then by
/// opening it.
pub fn validate_icc_file(bytes: &Vec<u8>) -> (r: Result<(), CmsError>)
    ensures
        r == if !has_icc_header(bytes@) {
            Err(CmsError::NotIcc)
        } else if !icc_opens(bytes@) {
            Err(CmsError::InvalidIcc)
        } else {
            Ok::<(), CmsError>(())
        },
{
    if !icc_header_present(bytes) {
        return Err(CmsError::NotIcc);
    }
    icc_verdict(open_icc(bytes).is_ok())
}

/// What becomes of a file with the header of a profile, once it was opened or not.
pub fn icc_verdict(opened: bool) -> (r: Result<(), CmsError>)
    ensures
        r == if opened {
            Ok::<(), CmsError>(())
        } else {
            Err(CmsError::InvalidIcc)
        },
{
    if opened {
        Ok(())
    } else {
        Err(CmsError::InvalidIcc)
    }
}

/// The name of a profile: its own description, else the stem of its file, else a plain word.
///
/// The description is handed in. Where characters are wide on 16 bits, `lcms2::Profile::info`
/// panics on a description beyond the basic plane, so the caller reads it.
pub fn icc_name(description: Option<&str>, stem: Option<&str>) -> (r: String)
    ensures
        r@ == match description {
            Some(d) => d@,
            None => match stem {
                Some(s) => s@,
                None => "ICC"@,
            },
        },
{
    match description {
        Some(d) => d.to_owned(),
        None => match stem {
            Some(s) => s.to_owned(),
            None => "ICC".to_owned(),
        },
    }
}

} // verus!
