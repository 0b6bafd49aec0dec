//! What the controls of the settings panel do to a picture's settings.

use vstd::prelude::*;
use crate::auto_crop::{AutoCropResult, CropConfidence};
use crate::options::{DminMode, OutputStage, PipelineOptions, Rect};
use crate::single::Single;

verus! {

/// The sample of film base that is used until there is a better one.
pub open spec fn house_dmin() -> (Single, Single, Single) {
    (
        Single::ratio(222_537, 1_000_000),
        Single::ratio(108_183, 1_000_000),
        Single::ratio(54_116, 1_000_000),
    )
}

/// The rectangle in which film base is sampled until another is drawn.
pub open spec fn house_dmin_rect() -> Rect {
    Rect { x: 35, y: 15, width: 20, height: 20 }
}

/// Settings that find the film base in this way. What the way needs is put in where it is not
/// there yet.
pub open spec fn with_dmin_mode(opts: PipelineOptions, mode: DminMode) -> PipelineOptions {
    PipelineOptions {
        dmin_mode: mode,
        dmin_rect: if mode == DminMode::SampleRegion && opts.dmin_rect is None {
            Some(house_dmin_rect())
        } else {
            opts.dmin_rect
        },
        dmin_fixed: if mode == DminMode::Fixed && opts.dmin_fixed is None {
            Some(house_dmin())
        } else {
            opts.dmin_fixed
        },
        ..opts
    }
}

/// Chooses how the film base is found.
pub fn choose_dmin_mode(opts: PipelineOptions, mode: DminMode) -> (r: PipelineOptions)
    ensures
        r == with_dmin_mode(opts, mode),
{
    let dmin_rect: Option<Rect> = if mode == DminMode::SampleRegion && opts.dmin_rect.is_none() {
        Some(Rect { x: 35, y: 15, width: 20, height: 20 })
    } else {
        opts.dmin_rect
    };
    let dmin_fixed: Option<(Single, Single, Single)> = if mode == DminMode::Fixed
        && opts.dmin_fixed.is_none() {
        Some(
            (
                Single::ratio(222_537, 1_000_000),
                Single::ratio(108_183, 1_000_000),
                Single::ratio(54_116, 1_000_000),
            ),
        )
    } else {
        opts.dmin_fixed
    };
    PipelineOptions { dmin_mode: mode, dmin_rect, dmin_fixed, ..opts }
}

/// Film base as it is pasted.
#[derive(Debug, Clone, Copy, PartialEq)]
pub enum PastedDmin {
    Fixed((Single, Single, Single)),
    Sample(Rect),
}

/// Settings with a film base that was pasted. A rectangle is taken in pixels of the preview.
pub open spec fn with_pasted(opts: PipelineOptions, pasted: PastedDmin, neutral: Option<bool>) -> PipelineOptions {
    let dmin_neutral_only = match neutral {
        Some(v) => v,
        None => opts.dmin_neutral_only,
    };
    match pasted {
        PastedDmin::Fixed(v) => PipelineOptions {
            dmin_mode: DminMode::Fixed,
            dmin_fixed: Some(v),
            dmin_neutral_only,
            ..opts
        },
        PastedDmin::Sample(rect) => PipelineOptions {
            dmin_mode: DminMode::SampleRegion,
            dmin_rect: Some(rect),
            dmin_rect_reference_size: None,
            dmin_neutral_only,
            ..opts
        },
    }
}

/// Pastes a film base.
pub fn paste_dmin(opts: PipelineOptions, pasted: PastedDmin, neutral: Option<bool>) -> (r:
    PipelineOptions)
    ensures
        r == with_pasted(opts, pasted, neutral),
{
    let dmin_neutral_only: bool = match neutral {
        Some(v) => v,
        None => opts.dmin_neutral_only,
    };
    match pasted {
        PastedDmin::Fixed(v) => PipelineOptions {
            dmin_mode: DminMode::Fixed,
            dmin_fixed: Some(v),
            dmin_neutral_only,
            ..opts
        },
        PastedDmin::Sample(rect) => PipelineOptions {
            dmin_mode: DminMode::SampleRegion,
            dmin_rect: Some(rect),
            dmin_rect_reference_size: None,
            dmin_neutral_only,
            ..opts
        },
    }
}

/// Settings of a picture whose crop is shown: one that has none starts with a square.
pub open spec fn with_crop_shown(opts: PipelineOptions) -> PipelineOptions {
    if opts.apply_crop && opts.crop_rect is None {
        PipelineOptions {
            crop_rect: Some(Rect { x: 40, y: 40, width: 240, height: 240 }),
            ..opts
        }
    } else {
        opts
    }
}

/// Prepares the crop of a picture that is to be cropped, and tells whether it is to be found
/// automatically: where there was none.
pub fn show_crop(opts: PipelineOptions) -> (r: (PipelineOptions, bool))
    ensures
        r.0 == with_crop_shown(opts),
        r.1 == (opts.apply_crop && opts.crop_rect is None),
{
    if opts.apply_crop && opts.crop_rect.is_none() {
        (
            PipelineOptions {
                crop_rect: Some(Rect { x: 40, y: 40, width: 240, height: 240 }),
                ..opts
            },
            true,
        )
    } else {
        (opts, false)
    }
}

/// Settings with a crop that was found.
pub open spec fn with_crop(opts: PipelineOptions, result: AutoCropResult) -> PipelineOptions {
    PipelineOptions {
        crop_rect: Some(result.rect),
        crop_rect_reference_size: Some(result.reference_size),
        apply_crop: true,
        ..opts
    }
}

/// Takes a crop that was found.
pub fn apply_crop_result(opts: PipelineOptions, result: &AutoCropResult) -> (r: PipelineOptions)
    ensures
        r == with_crop(opts, *result),
{
    PipelineOptions {
        crop_rect: Some(result.rect),
        crop_rect_reference_size: Some(result.reference_size),
        apply_crop: true,
        ..opts
    }
}

/// Settings with a rectangle that was drawn on a preview of this size.
pub fn draw_dmin_rect(opts: PipelineOptions, rect: Rect, size: (u32, u32)) -> (r: PipelineOptions)
    ensures
        r == (PipelineOptions {
            dmin_rect: Some(rect),
            dmin_rect_reference_size: Some(size),
            ..opts
        }),
{
    PipelineOptions { dmin_rect: Some(rect), dmin_rect_reference_size: Some(size), ..opts }
}

/// Settings with gains that were picked on the preview: they replace those that are found
/// automatically.
pub open spec fn with_picked_gains(opts: PipelineOptions, r: Single, g: Single, b: Single) -> PipelineOptions {
    PipelineOptions {
        wb_r: r,
        wb_g: g,
        wb_b: b,
        apply_white_balance: true,
        auto_wb: false,
        ..opts
    }
}

/// Takes gains that were picked on the preview.
pub fn take_picked_gains(opts: PipelineOptions, r: Single, g: Single, b: Single) -> (o:
    PipelineOptions)
    ensures
        o == with_picked_gains(opts, r, g, b),
{
    PipelineOptions {
        wb_r: r,
        wb_g: g,
        wb_b: b,
        apply_white_balance: true,
        auto_wb: false,
        ..opts
    }
}

/// The pattern of a ten-thousandth of a millionth.
pub const LEAST_BITS: u32 = 0x2edb_e6ff;

/// The least transmittance that a picked colour is taken for.
pub open spec fn least_picked() -> Single {
    Single { bits: LEAST_BITS }
}

/// `d` may be the density of a picked transmittance.
pub open spec fn picked_density<L: Fn(Single) -> Single>(log10: L, t: Single, d: Single) -> bool {
    exists|log: Single| #[trigger]
        log10.ensures((t.larger(least_picked()),), log) && d == log.neg()
}

/// Settings balanced on a picked colour: `gains` makes the gains of its densities.
pub open spec fn balanced_on<
    L: Fn(Single) -> Single,
    G: Fn(Single, Single, Single) -> (Single, Single, Single),
>(
    log10: L,
    gains: G,
    opts: PipelineOptions,
    sample: (Single, Single, Single),
    o: PipelineOptions,
) -> bool {
    exists|r: Single, g: Single, b: Single, by: (Single, Single, Single)|
        {
            &&& #[trigger] gains.ensures((r, g, b), by)
            &&& picked_density(log10, sample.0, r)
            &&& picked_density(log10, sample.1, g)
            &&& picked_density(log10, sample.2, b)
            &&& o == with_picked_gains(opts, by.0, by.1, by.2)
        }
}

fn density_of<L: Fn(Single) -> Single>(t: Single, log10: &L) -> (d: Single)
    requires
        forall|a: Single| #[trigger] log10.requires((a,)),
    ensures
        picked_density(*log10, t, d),
{
    let log: Single = log10(t.larger(Single { bits: LEAST_BITS }));
    assert(log10.ensures((t.larger(least_picked()),), log));
    log.neg()
}

/// Balances white on a colour that was picked on the preview.
pub fn pick_white_balance<
    L: Fn(Single) -> Single,
    G: Fn(Single, Single, Single) -> (Single, Single, Single),
>(opts: PipelineOptions, sample: (Single, Single, Single), log10: &L, gains: &G) -> (o:
    PipelineOptions)
    requires
        forall|a: Single| #[trigger] log10.requires((a,)),
        forall|a: Single, b: Single, c: Single| #[trigger] gains.requires((a, b, c)),
    ensures
        balanced_on(*log10, *gains, opts, sample, o),
{
    let r: Single = density_of(sample.0, log10);
    let g: Single = density_of(sample.1, log10);
    let b: Single = density_of(sample.2, log10);
    let by: (Single, Single, Single) = gains(r, g, b);
    let o: PipelineOptions = take_picked_gains(opts, by.0, by.1, by.2);
    assert(gains.ensures((r, g, b), by));
    o
}

/// Settings with the output curve switched on or off. Switched on, it falls back to paper where
/// no stage was chosen.
pub open spec fn with_curve(opts: PipelineOptions, on: bool) -> PipelineOptions {
    PipelineOptions {
        no_curve: !on,
        output_stage: if !on {
            OutputStage::Bare
        } else if opts.output_stage == OutputStage::Bare {
            OutputStage::Ra4
        } else {
            opts.output_stage
        },
        ..opts
    }
}

/// Switches the output curve.
pub fn switch_curve(opts: PipelineOptions, on: bool) -> (r: PipelineOptions)
    ensures
        r == with_curve(opts, on),
{
    let output_stage: OutputStage = if !on {
        OutputStage::Bare
    } else if opts.output_stage == OutputStage::Bare {
        OutputStage::Ra4
    } else {
        opts.output_stage
    };
    PipelineOptions { no_curve: !on, output_stage, ..opts }
}

/// Settings with another output stage; none at all switches the curve off.
pub open spec fn with_stage(opts: PipelineOptions, stage: OutputStage) -> PipelineOptions {
    PipelineOptions {
        output_stage: stage,
        no_curve: opts.no_curve || stage == OutputStage::Bare,
        ..opts
    }
}

/// Chooses the output stage.
pub fn choose_output_stage(opts: PipelineOptions, stage: OutputStage) -> (r: PipelineOptions)
    ensures
        r == with_stage(opts, stage),
{
    let no_curve: bool = opts.no_curve || stage == OutputStage::Bare;
    PipelineOptions { output_stage: stage, no_curve, ..opts }
}

/// Once the curve has been switched, it is off exactly where there is no output stage; and
/// choosing a stage keeps it so while the curve is on.
pub proof fn curve_and_stage_agree(opts: PipelineOptions, on: bool, stage: OutputStage)
    ensures
        with_curve(opts, on).no_curve == (with_curve(opts, on).output_stage == OutputStage::Bare),
        with_stage(with_curve(opts, true), stage).no_curve == (stage == OutputStage::Bare),
{
}

/// Sections of the panel whose values can be put back.
#[derive(Debug, Clone, Copy, PartialEq, Eq, Structural)]
pub enum Section {
    HighlightRolloff,
    ToneShaping,
    Color,
    Zones,
    Spread,
}

/// Settings with a section put back.
pub open spec fn with_section_reset(opts: PipelineOptions, section: Section) -> PipelineOptions {
    let zero = Single::whole(0);
    let one = Single::whole(1);
    match section {
        Section::HighlightRolloff => PipelineOptions {
            highlight_rolloff: zero,
            highlight_rolloff_d_mid: Single::ratio(3, 2),
            ..opts
        },
        Section::ToneShaping => PipelineOptions {
            toe_strength: zero,
            shoulder_strength: zero,
            shadow_cast_strength: zero,
            ..opts
        },
        Section::Color => PipelineOptions {
            saturation: one,
            highlight_warmth: zero,
            apply_lab: true,
            lab_separation: one,
            skin_magenta_shift: zero,
            ..opts
        },
        Section::Zones => PipelineOptions {
            zone_shadow_gain: zero,
            zone_mid_gain: zero,
            zone_highlight_gain: zero,
            zone_shadow_saturation: one,
            zone_mid_saturation: one,
            zone_highlight_saturation: one,
            color_shadow_gain_r: zero,
            color_shadow_gain_g: zero,
            color_shadow_gain_b: zero,
            color_mid_gain_r: zero,
            color_mid_gain_g: zero,
            color_mid_gain_b: zero,
            color_highlight_gain_r: zero,
            color_highlight_gain_g: zero,
            color_highlight_gain_b: zero,
            ..opts
        },
        Section::Spread => PipelineOptions {
            bujack_enabled: false,
            bujack_k_l: Single::ratio(1, 4),
            bujack_k_c: Single::ratio(3, 10),
            bujack_strength: Single::ratio(1, 5),
            bujack_radius: Single::whole(16),
            bujack_edge: Single::ratio(1, 4),
            ..opts
        },
    }
}

/// Puts a section of the panel back.
pub fn reset_section(opts: PipelineOptions, section: Section) -> (r: PipelineOptions)
    ensures
        r == with_section_reset(opts, section),
{
    let zero: Single = Single::whole(0);
    let one: Single = Single::whole(1);
    match section {
        Section::HighlightRolloff => PipelineOptions {
            highlight_rolloff: zero,
            highlight_rolloff_d_mid: Single::ratio(3, 2),
            ..opts
        },
        Section::ToneShaping => PipelineOptions {
            toe_strength: zero,
            shoulder_strength: zero,
            shadow_cast_strength: zero,
            ..opts
        },
        Section::Color => PipelineOptions {
            saturation: one,
            highlight_warmth: zero,
            apply_lab: true,
            lab_separation: one,
            skin_magenta_shift: zero,
            ..opts
        },
        Section::Zones => PipelineOptions {
            zone_shadow_gain: zero,
            zone_mid_gain: zero,
            zone_highlight_gain: zero,
            zone_shadow_saturation: one,
            zone_mid_saturation: one,
            zone_highlight_saturation: one,
            color_shadow_gain_r: zero,
            color_shadow_gain_g: zero,
            color_shadow_gain_b: zero,
            color_mid_gain_r: zero,
            color_mid_gain_g: zero,
            color_mid_gain_b: zero,
            color_highlight_gain_r: zero,
            color_highlight_gain_g: zero,
            color_highlight_gain_b: zero,
            ..opts
        },
        Section::Spread => PipelineOptions {
            bujack_enabled: false,
            bujack_k_l: Single::ratio(1, 4),
            bujack_k_c: Single::ratio(3, 10),
            bujack_strength: Single::ratio(1, 5),
            bujack_radius: Single::whole(16),
            bujack_edge: Single::ratio(1, 4),
            ..opts
        },
    }
}

/// Settings with the output section as in `defaults`.
pub open spec fn with_output_reset(opts: PipelineOptions, defaults: PipelineOptions) -> PipelineOptions {
    PipelineOptions {
        no_curve: defaults.no_curve,
        output_stage: defaults.output_stage,
        curve_pivot: defaults.curve_pivot,
        fp_offset_r: defaults.fp_offset_r,
        fp_offset_g: defaults.fp_offset_g,
        fp_offset_b: defaults.fp_offset_b,
        fp_gamma_r: defaults.fp_gamma_r,
        fp_gamma_g: defaults.fp_gamma_g,
        fp_gamma_b: defaults.fp_gamma_b,
        fp_color_bleed: defaults.fp_color_bleed,
        fp_vibrance: defaults.fp_vibrance,
        output_lut_encoding: defaults.output_lut_encoding,
        ..opts
    }
}

/// Puts the output section back to the pipeline's defaults.
pub fn reset_output(opts: PipelineOptions, defaults: &PipelineOptions) -> (r: PipelineOptions)
    ensures
        r == with_output_reset(opts, *defaults),
{
    PipelineOptions {
        no_curve: defaults.no_curve,
        output_stage: defaults.output_stage,
        curve_pivot: defaults.curve_pivot,
        fp_offset_r: defaults.fp_offset_r,
        fp_offset_g: defaults.fp_offset_g,
        fp_offset_b: defaults.fp_offset_b,
        fp_gamma_r: defaults.fp_gamma_r,
        fp_gamma_g: defaults.fp_gamma_g,
        fp_gamma_b: defaults.fp_gamma_b,
        fp_color_bleed: defaults.fp_color_bleed,
        fp_vibrance: defaults.fp_vibrance,
        output_lut_encoding: defaults.output_lut_encoding,
        ..opts
    }
}

/// What the user reads after the crop of one picture was looked for; nothing where it was found
/// and is sure. `ready` says whether there was a preview to look at.
pub fn auto_crop_status(ready: bool, result: Option<&AutoCropResult>) -> (r: Option<&'static str>)
    ensures
        match r {
            Some(s) => if !ready {
                s@ == "Auto crop: waiting for preview to finish processing."@
            } else {
                match result {
                    Some(c) => c.confidence == CropConfidence::Low && s@
                        == "Auto crop: weak edge — check crop."@,
                    None => s@ == "Auto crop: no clear frame boundary found."@,
                }
            },
            None => ready && (result matches Some(c) && c.confidence != CropConfidence::Low),
        },
{
    if !ready {
        return Some("Auto crop: waiting for preview to finish processing.");
    }
    match result {
        None => Some("Auto crop: no clear frame boundary found."),
        Some(c) => match c.confidence {
            CropConfidence::Low => Some("Auto crop: weak edge — check crop."),
            _ => None,
        },
    }
}

} // verus!
