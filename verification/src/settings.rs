//! Groups of settings that are changed together: output formats, exposure, print balance,
//! and what belongs to a session rather than to a picture.

use vstd::prelude::*;
use vstd::arithmetic::power2::*;
use crate::options::{DustHealParams, PipelineOptions, TiffFormat};
use crate::single::Single;

verus! {

/// File format of an export.
#[derive(Debug, Clone, Copy, PartialEq, Eq, Structural)]
pub enum ExportFormat {
    Tiff16,
    Tiff32,
    Exr,
    Jpeg,
    /// EXR in ACES2065-1 only.
    ExrAces2065,
}

/// File format of an export as a project keeps it.
#[derive(Debug, Clone, Copy, PartialEq, Eq, Structural)]
pub enum ProjectExportFormat {
    Tiff16,
    Tiff32,
    Exr,
    Jpeg,
    ExrAces2065,
}

impl ExportFormat {
    pub open spec fn to_project_spec(self) -> ProjectExportFormat {
        match self {
            ExportFormat::Tiff16 => ProjectExportFormat::Tiff16,
            ExportFormat::Tiff32 => ProjectExportFormat::Tiff32,
            ExportFormat::Exr => ProjectExportFormat::Exr,
            ExportFormat::Jpeg => ProjectExportFormat::Jpeg,
            ExportFormat::ExrAces2065 => ProjectExportFormat::ExrAces2065,
        }
    }

    /// The format as a project keeps it.
    #[verifier::when_used_as_spec(to_project_spec)]
    pub fn to_project(self) -> (r: ProjectExportFormat)
        ensures
            r == self.to_project_spec(),
    {
        match self {
            ExportFormat::Tiff16 => ProjectExportFormat::Tiff16,
            ExportFormat::Tiff32 => ProjectExportFormat::Tiff32,
            ExportFormat::Exr => ProjectExportFormat::Exr,
            ExportFormat::Jpeg => ProjectExportFormat::Jpeg,
            ExportFormat::ExrAces2065 => ProjectExportFormat::ExrAces2065,
        }
    }

    pub open spec fn from_project_spec(fmt: ProjectExportFormat) -> ExportFormat {
        match fmt {
            ProjectExportFormat::Tiff16 => ExportFormat::Tiff16,
            ProjectExportFormat::Tiff32 => ExportFormat::Tiff32,
            ProjectExportFormat::Exr => ExportFormat::Exr,
            ProjectExportFormat::Jpeg => ExportFormat::Jpeg,
            ProjectExportFormat::ExrAces2065 => ExportFormat::ExrAces2065,
        }
    }

    /// The format that a project kept.
    #[verifier::when_used_as_spec(from_project_spec)]
    pub fn from_project(fmt: ProjectExportFormat) -> (r: ExportFormat)
        ensures
            r == ExportFormat::from_project_spec(fmt),
    {
        match fmt {
            ProjectExportFormat::Tiff16 => ExportFormat::Tiff16,
            ProjectExportFormat::Tiff32 => ExportFormat::Tiff32,
            ProjectExportFormat::Exr => ExportFormat::Exr,
            ProjectExportFormat::Jpeg => ExportFormat::Jpeg,
            ProjectExportFormat::ExrAces2065 => ExportFormat::ExrAces2065,
        }
    }

    pub open spec fn label_text(self) -> Seq<char> {
        match self {
            ExportFormat::Tiff16 => "TIFF 16-bit"@,
            ExportFormat::Tiff32 => "TIFF 32-bit float"@,
            ExportFormat::Exr => "EXR (32-bit float)"@,
            ExportFormat::Jpeg => "JPEG"@,
            ExportFormat::ExrAces2065 => "EXR ACES2065-1 (32-bit float)"@,
        }
    }

    /// The format in words.
    pub fn label(self) -> (r: &'static str)
        ensures
            r@ == self.label_text(),
    {
        match self {
            ExportFormat::Tiff16 => "TIFF 16-bit",
            ExportFormat::Tiff32 => "TIFF 32-bit float",
            ExportFormat::Exr => "EXR (32-bit float)",
            ExportFormat::Jpeg => "JPEG",
            ExportFormat::ExrAces2065 => "EXR ACES2065-1 (32-bit float)",
        }
    }
}

/// A project gives back the format that was put into it.
pub proof fn project_keeps_the_format(a: ExportFormat, b: ProjectExportFormat)
    ensures
        ExportFormat::from_project(a.to_project()) == a,
        ExportFormat::from_project(b).to_project() == b,
{
}

/// Settings that write this format.
pub open spec fn with_format(opts: PipelineOptions, format: ExportFormat) -> PipelineOptions {
    PipelineOptions {
        format: if format is Tiff16 || format is Jpeg {
            TiffFormat::U16
        } else {
            TiffFormat::Float32
        },
        write_exr: format is Exr,
        write_jpeg_only: format is Jpeg,
        write_jpeg: opts.write_jpeg && !(format is Jpeg),
        export_aces_exr: false,
        write_aces2065_only: format is ExrAces2065,
        ..opts
    }
}

/// Sets what is written to this format; a JPEG beside the main file is dropped only where the
/// main file is one.
pub fn apply_export_format_to_options(opts: &mut PipelineOptions, format: ExportFormat)
    ensures
        *final(opts) == with_format(*old(opts), format),
{
    let (depth, exr, jpeg, aces) = match format {
        ExportFormat::Tiff16 => (TiffFormat::U16, false, false, false),
        ExportFormat::Tiff32 => (TiffFormat::Float32, false, false, false),
        ExportFormat::Exr => (TiffFormat::Float32, true, false, false),
        ExportFormat::Jpeg => (TiffFormat::U16, false, true, false),
        ExportFormat::ExrAces2065 => (TiffFormat::Float32, false, false, true),
    };
    opts.format = depth;
    opts.write_exr = exr;
    opts.write_jpeg_only = jpeg;
    opts.write_jpeg = opts.write_jpeg && !jpeg;
    opts.export_aces_exr = false;
    opts.write_aces2065_only = aces;
}

/// The last format that was set is the one that is written.
pub proof fn last_format_wins(opts: PipelineOptions, a: ExportFormat, b: ExportFormat)
    ensures
        with_format(with_format(opts, a), b) == (PipelineOptions {
            write_jpeg: opts.write_jpeg && !(a is Jpeg) && !(b is Jpeg),
            ..with_format(opts, b)
        }),
{
}

/// Settings with everything that belongs to a session put to its default.
pub open spec fn session_defaults(opts: PipelineOptions, gpu: bool) -> PipelineOptions {
    PipelineOptions {
        use_gpu: gpu,
        debug_pipeline_step: 6,
        debug_preview_simple_debayer: false,
        verbose_debug: false,
        pinned_zone: None,
        flat_field_path: None,
        dust_mask: None,
        ..opts
    }
}

/// Settings with what belongs to the session at its default; `gpu` says whether there is one.
pub fn apply_runtime_gui_defaults(opts: PipelineOptions, gpu: bool) -> (r: PipelineOptions)
    ensures
        r == session_defaults(opts, gpu),
{
    PipelineOptions {
        use_gpu: gpu,
        debug_pipeline_step: 6,
        debug_preview_simple_debayer: false,
        verbose_debug: false,
        pinned_zone: None,
        flat_field_path: None,
        dust_mask: None,
        ..opts
    }
}

/// Settings without what belongs to the session, so that edits can be compared.
pub fn normalize_runtime_options(opts: PipelineOptions) -> (r: PipelineOptions)
    ensures
        r == session_defaults(opts, false),
{
    apply_runtime_gui_defaults(opts, false)
}

/// Settings as they are written to a project: `strokes` is the empty list that is left.
pub open spec fn persistable(
    opts: PipelineOptions,
    strokes: Vec<crate::options::DustStroke>,
) -> PipelineOptions {
    PipelineOptions {
        dust_mask_hash: 0,
        dust_mask: None,
        dust_strokes: strokes,
        dust_reference_size: None,
        dust_uv: None,
        dust_heal: DustHealParams::house(),
        ..session_defaults(opts, false)
    }
}

/// Settings without what is not written to a project with them: the session's own, and dust,
/// which is written apart.
pub fn normalize_persistable_options(opts: PipelineOptions) -> (r: PipelineOptions)
    ensures
        r.dust_strokes@.len() == 0,
        r == persistable(opts, r.dust_strokes),
{
    let plain: PipelineOptions = normalize_runtime_options(opts);
    PipelineOptions {
        dust_mask_hash: 0,
        dust_mask: None,
        dust_strokes: Vec::new(),
        dust_reference_size: None,
        dust_uv: None,
        dust_heal: DustHealParams::house(),
        ..plain
    }
}

/// Exposure in a printer's terms.
#[derive(Debug, Clone, Copy, PartialEq, Eq, Structural)]
pub struct ExposureParams {
    /// Print exposure; 1 is neutral.
    pub density: Single,
    /// Paper grade; 1 is the default contrast.
    pub grade: Single,
    pub shadows: Single,
    pub highlights: Single,
    /// Hardness of the midtones; 0 is neutral.
    pub hardness: Single,
}

/// The exposure that these settings amount to.
pub open spec fn exposure_of(opts: PipelineOptions) -> ExposureParams {
    ExposureParams {
        density: Single::whole(1).plus(opts.curve_offset),
        grade: if Single::whole(0).less(opts.curve_gamma) {
            opts.curve_gamma.over(Single::ratio(25, 10))
        } else {
            Single::whole(1)
        },
        shadows: opts.zone_shadows,
        highlights: opts.zone_highlights,
        hardness: opts.lut_in_mid.minus(Single::whole(1)),
    }
}

/// Reads the exposure off the settings.
pub fn exposure_from_opts(opts: &PipelineOptions) -> (r: ExposureParams)
    ensures
        r == exposure_of(*opts),
{
    ExposureParams {
        density: Single::whole(1).plus(opts.curve_offset),
        grade: if Single::whole(0).less(opts.curve_gamma) {
            opts.curve_gamma.over(Single::ratio(25, 10))
        } else {
            Single::whole(1)
        },
        shadows: opts.zone_shadows,
        highlights: opts.zone_highlights,
        hardness: opts.lut_in_mid.minus(Single::whole(1)),
    }
}

/// `v` between minus and plus `limit`.
pub open spec fn within(v: Single, limit: Single) -> Single {
    v.clamp(limit.neg(), limit)
}

/// Settings with this exposure, each part of it kept in its range.
pub open spec fn exposed(opts: PipelineOptions, exp: ExposureParams) -> PipelineOptions {
    PipelineOptions {
        curve_offset: exp.density.clamp(Single::whole(0), Single::whole(2)).minus(
            Single::whole(1),
        ),
        curve_gamma: Single::ratio(25, 10).times(
            exp.grade.clamp(Single::ratio(2, 10), Single::whole(3)),
        ),
        lut_in_mid: Single::whole(1).plus(within(exp.hardness, Single::ratio(5, 10))),
        zone_shadows: within(exp.shadows, Single::ratio(3, 10)),
        zone_highlights: within(exp.highlights, Single::ratio(5, 10)),
        ..opts
    }
}

fn keep_within(v: Single, limit: Single) -> (r: Single)
    ensures
        r == within(v, limit),
{
    v.clamp(limit.neg(), limit)
}

/// Writes an exposure to the settings.
pub fn apply_exposure_to_opts(exp: &ExposureParams, opts: &mut PipelineOptions)
    ensures
        *final(opts) == exposed(*old(opts), *exp),
{
    let density: Single = exp.density.clamp(Single::whole(0), Single::whole(2));
    let grade: Single = exp.grade.clamp(Single::ratio(2, 10), Single::whole(3));
    opts.curve_offset = density.minus(Single::whole(1));
    opts.curve_gamma = Single::ratio(25, 10).times(grade);
    opts.lut_in_mid = Single::whole(1).plus(keep_within(exp.hardness, Single::ratio(5, 10)));
    opts.zone_shadows = keep_within(exp.shadows, Single::ratio(3, 10));
    opts.zone_highlights = keep_within(exp.highlights, Single::ratio(5, 10));
}

/// Balance of a print in cyan, magenta and yellow, the complements of its three channels.
#[derive(Debug, Clone, Copy, PartialEq, Eq, Structural)]
pub struct PrintBalance {
    pub cyan: Single,
    pub magenta: Single,
    pub yellow: Single,
}

/// Reads the print balance off the settings.
pub fn print_balance_from_opts(opts: &PipelineOptions) -> (r: PrintBalance)
    ensures
        r == (PrintBalance {
            cyan: opts.fp_offset_r.neg().over(Single::ratio(3, 10)),
            magenta: opts.fp_offset_g.neg().over(Single::ratio(3, 10)),
            yellow: opts.fp_offset_b.neg().over(Single::ratio(3, 10)),
        }),
{
    let scale: Single = Single::ratio(3, 10);
    PrintBalance {
        cyan: opts.fp_offset_r.neg().over(scale),
        magenta: opts.fp_offset_g.neg().over(scale),
        yellow: opts.fp_offset_b.neg().over(scale),
    }
}

/// The channel offset that a part of the balance stands for.
pub open spec fn balance_offset(v: Single) -> Single {
    within(v, Single::whole(1)).neg().times(Single::ratio(3, 10))
}

fn offset_of(v: Single) -> (r: Single)
    ensures
        r == balance_offset(v),
{
    keep_within(v, Single::whole(1)).neg().times(Single::ratio(3, 10))
}

/// Writes a print balance to the settings.
pub fn apply_print_balance_to_opts(pb: &PrintBalance, opts: &mut PipelineOptions)
    ensures
        *final(opts) == (PipelineOptions {
            fp_offset_r: balance_offset(pb.cyan),
            fp_offset_g: balance_offset(pb.magenta),
            fp_offset_b: balance_offset(pb.yellow),
            ..*old(opts)
        }),
{
    opts.fp_offset_r = offset_of(pb.cyan);
    opts.fp_offset_g = offset_of(pb.magenta);
    opts.fp_offset_b = offset_of(pb.yellow);
}

impl ExposureParams {
    pub open spec fn neutral_spec() -> ExposureParams {
        ExposureParams {
            density: Single::whole(1),
            grade: Single::whole(1),
            shadows: Single::whole(0),
            highlights: Single::whole(0),
            hardness: Single::whole(0),
        }
    }

    /// The exposure that a reset puts back.
    #[verifier::when_used_as_spec(neutral_spec)]
    pub fn neutral() -> (r: ExposureParams)
        ensures
            r == ExposureParams::neutral_spec(),
    {
        ExposureParams {
            density: Single::whole(1),
            grade: Single::whole(1),
            shadows: Single::whole(0),
            highlights: Single::whole(0),
            hardness: Single::whole(0),
        }
    }
}

impl PrintBalance {
    /// The balance that a reset puts back.
    pub fn neutral() -> (r: PrintBalance)
        ensures
            r == (PrintBalance {
                cyan: Single::whole(0),
                magenta: Single::whole(0),
                yellow: Single::whole(0),
            }),
    {
        PrintBalance {
            cyan: Single::whole(0),
            magenta: Single::whole(0),
            yellow: Single::whole(0),
        }
    }
}

proof fn lemma_zero_within(n: u32, d: u32)
    requires
        0 < n <= d,
    ensures
        within(Single::whole_spec(0), Single::ratio_spec(n, d)) == Single::whole_spec(0),
        Single::ratio_spec(n, d).finite(),
        !Single::ratio_spec(n, d).negative(),
        Single::ratio_spec(n, d).mag() <= Single::whole_spec(1).mag(),
{
    reveal(Single::neg_spec);
    let zero = Single::whole_spec(0);
    let one = Single::whole_spec(1);
    let limit = Single::ratio_spec(n, d);
    crate::single::lemma_zero();
    crate::single::lemma_whole_exact(1);
    lemma_pow2_pos(149);
    let p = pow2(149);
    assert(0 <= n * p <= p * d) by (nonlinear_arith)
        requires
            0 < n <= d,
            p > 0,
    ;
    crate::single::lemma_ratio_bounds(n, d, zero, one);
    let low = limit.neg_spec();
    assert(low.finite() && low.mag() == limit.mag() && low.negative());
    assert(low.units() == limit.units());
    crate::single::order_is_by_value(zero, low);
    crate::single::order_is_by_value(limit, zero);
}

/// An exposure that was reset reads back as neutral.
pub proof fn neutral_exposure_reads_back(opts: PipelineOptions)
    ensures
        exposure_of(exposed(opts, ExposureParams::neutral())) == ExposureParams::neutral(),
{
    let zero = Single::whole_spec(0);
    let one = Single::whole_spec(1);
    let normal = Single::ratio_spec(25, 10);
    crate::single::lemma_zero();
    crate::single::lemma_whole_exact(1);
    crate::single::lemma_whole_exact(2);
    crate::single::lemma_whole_exact(3);
    crate::single::lemma_zero_is_neutral(one);
    lemma_zero_within(2, 10);
    lemma_zero_within(5, 10);
    lemma_zero_within(3, 10);
    crate::single::lemma_ratio_bounds(25, 10, one, Single::whole_spec(3));
    crate::single::lemma_units_monotone(Single::ratio_spec(2, 10), one);
    crate::single::lemma_one_is_neutral(normal);
    crate::single::lemma_over_itself(normal);
    let p = pow2(149);
    lemma_pow2_pos(149);
    crate::single::order_is_by_value(zero, one);
    crate::single::order_is_by_value(one, zero);
    crate::single::order_is_by_value(Single::whole_spec(2), one);
    crate::single::order_is_by_value(Single::whole_spec(3), one);
    crate::single::order_is_by_value(one, Single::ratio_spec(2, 10));
    assert(one.clamp_spec(zero, Single::whole_spec(2)) == one);
    assert(one.clamp_spec(Single::ratio_spec(2, 10), Single::whole_spec(3)) == one);
    assert(within(zero, Single::ratio_spec(5, 10)) == zero);
    assert(within(zero, Single::ratio_spec(3, 10)) == zero);
    assert(normal.times_spec(one) == normal);
    crate::single::order_is_by_value(zero, normal);
}

} // verus!
