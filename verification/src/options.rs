//! Settings of the development pipeline.

use vstd::prelude::*;
use crate::single::Single;

verus! {

/// How the film base is found.
#[derive(Debug, Clone, Copy, PartialEq, Eq, Hash, Structural)]
pub enum DminMode {
    AutoPercentile,
    SampleRegion,
    Fixed,
    Off,
}

/// How white balance is chosen.
#[derive(Debug, Clone, Copy, PartialEq, Eq, Hash, Structural)]
pub enum WbMode {
    Auto,
    Manual,
    Picker,
    Unset,
}

/// Sample type of a TIFF file.
#[derive(Debug, Clone, Copy, PartialEq, Eq, Hash, Structural)]
pub enum TiffFormat {
    Float32,
    U16,
}

/// Last rendering stage.
#[derive(Debug, Clone, Copy, PartialEq, Eq, Hash, Structural)]
pub enum OutputStage {
    Bare,
    Ra4,
    FilmPrint,
    Lut2383,
}

/// What the output cube expects.
#[derive(Debug, Clone, Copy, PartialEq, Eq, Hash, Structural)]
pub enum OutputLutEncoding {
    CineonLog,
    LinearDensity,
    Rec709,
}

/// How a dust speck is filled.
#[derive(Debug, Clone, Copy, PartialEq, Eq, Hash, Structural)]
pub enum DustInfill {
    PatchMatch,
    Telea,
    WaveFunction,
}

/// Dust brush.
#[derive(Debug, Clone, Copy, PartialEq, Eq, Hash, Structural)]
pub enum DustTool {
    Pen,
    Eraser,
}

/// Output profile of an export.
#[derive(Debug, Clone, Copy, PartialEq, Eq, Hash, Structural)]
pub enum OutputIcc {
    Srgb,
    DisplayP3,
    AdobeRgb,
    Custom,
}

/// Rendering intent.
#[derive(Debug, Clone, Copy, PartialEq, Eq, Hash, Structural)]
pub enum CmsIntent {
    Perceptual,
    Relative,
    Absolute,
}

/// What a preview stands for: the exported file or the monitor.
#[derive(Debug, Clone, Copy, PartialEq, Eq, Hash, Structural)]
pub enum CmsTarget {
    Export,
    Display,
}

/// A pixel rectangle.
#[derive(Debug, Clone, Copy, PartialEq, Eq, Hash, Structural)]
pub struct Rect {
    pub x: u32,
    pub y: u32,
    pub width: u32,
    pub height: u32,
}

/// Middle density zone of a scene.
#[derive(Debug, Clone, Copy, PartialEq, Eq, Structural)]
pub struct ZoneRange {
    pub d_p33: Single,
    pub d_p66: Single,
}

/// One brush stroke over dust, in pixels of a reference size.
#[derive(Debug, Clone)]
pub struct DustStroke {
    pub tool: DustTool,
    pub radius: Single,
    pub points: Vec<(Single, Single)>,
}

/// Rasterised dust strokes.
#[derive(Debug, Clone)]
pub struct DustMask {
    pub width: u32,
    pub height: u32,
    pub data: Vec<u8>,
}

/// How dust is healed.
#[derive(Debug, Clone, Copy, PartialEq, Eq, Structural)]
pub struct DustHealParams {
    pub detect: Single,
    pub feather: Single,
    pub grain: Single,
    pub grain_sigma: Single,
    pub infill: DustInfill,
    pub tile: u8,
    pub match_loosen: Single,
}

impl DustHealParams {
    /// The values that a new image starts with.
    pub open spec fn house_spec() -> DustHealParams {
        DustHealParams {
            detect: Single::whole(1),
            feather: Single::whole(6),
            grain: Single::whole(1),
            grain_sigma: Single::whole(2),
            infill: DustInfill::PatchMatch,
            tile: 3,
            match_loosen: Single::whole(2),
        }
    }

    #[verifier::when_used_as_spec(house_spec)]
    pub fn house() -> (r: DustHealParams)
        ensures
            r == DustHealParams::house_spec(),
    {
        DustHealParams {
            detect: Single::whole(1),
            feather: Single::whole(6),
            grain: Single::whole(1),
            grain_sigma: Single::whole(2),
            infill: DustInfill::PatchMatch,
            tile: 3,
            match_loosen: Single::whole(2),
        }
    }
}

/// Everything that decides how one negative is developed and written.
#[derive(Debug, Clone)]
pub struct PipelineOptions {
    pub dmin_mode: DminMode,
    pub auto_norm_buffer: Single,
    pub apply_white_balance: bool,
    pub auto_wb: bool,
    pub wb_mode: WbMode,
    pub film_gamma: Single,
    pub dmin_rect: Option<Rect>,
    pub dmin_rect_reference_size: Option<(u32, u32)>,
    pub apply_crop: bool,
    pub crop_rect: Option<Rect>,
    pub crop_rect_reference_size: Option<(u32, u32)>,
    pub dmin_fixed: Option<(Single, Single, Single)>,
    pub dmin_neutral_only: bool,
    pub format: TiffFormat,
    pub write_exr: bool,
    pub write_jpeg: bool,
    pub write_jpeg_only: bool,
    pub no_invert: bool,
    pub no_curve: bool,
    pub wb_r: Single,
    pub wb_g: Single,
    pub wb_b: Single,
    pub temp_k: Option<Single>,
    pub curve_offset: Single,
    pub curve_gamma: Single,
    pub curve_pivot: Single,
    pub curve_white: Single,
    pub apply_color_profile: bool,
    pub density_matrix: [[Single; 3]; 3],
    pub idt_matrix: [[Single; 3]; 3],
    pub flat_field_path: Option<String>,
    pub export_aces_exr: bool,
    pub write_aces2065_only: bool,
    pub lut3d_path: Option<String>,
    pub output_stage: OutputStage,
    pub output_lut_cube: Option<String>,
    pub output_lut_encoding: OutputLutEncoding,
    pub lut_in_black: Single,
    pub lut_in_white: Single,
    pub lut_in_mid: Single,
    pub fp_offset_r: Single,
    pub fp_offset_g: Single,
    pub fp_offset_b: Single,
    pub fp_gamma_r: Single,
    pub fp_gamma_g: Single,
    pub fp_gamma_b: Single,
    pub fp_color_bleed: Single,
    pub fp_vibrance: Single,
    pub saturation: Single,
    pub toe_strength: Single,
    pub shoulder_strength: Single,
    pub shadow_cast_strength: Single,
    pub zone_shadows: Single,
    pub zone_highlights: Single,
    pub zone_shadow_gain: Single,
    pub zone_mid_gain: Single,
    pub zone_highlight_gain: Single,
    pub color_shadow_gain_r: Single,
    pub color_shadow_gain_g: Single,
    pub color_shadow_gain_b: Single,
    pub color_mid_gain_r: Single,
    pub color_mid_gain_g: Single,
    pub color_mid_gain_b: Single,
    pub color_highlight_gain_r: Single,
    pub color_highlight_gain_g: Single,
    pub color_highlight_gain_b: Single,
    pub zone_shadow_saturation: Single,
    pub zone_mid_saturation: Single,
    pub zone_highlight_saturation: Single,
    pub highlight_rolloff: Single,
    pub highlight_rolloff_d_mid: Single,
    pub highlight_warmth: Single,
    pub soft_clip: Single,
    pub apply_lab: bool,
    pub lab_separation: Single,
    pub skin_magenta_shift: Single,
    pub rotation_degrees: i32,
    pub flip_horizontal: bool,
    pub flip_vertical: bool,
    pub synthetic_negative_input: bool,
    pub debug_pipeline_step: u8,
    pub debug_preview_simple_debayer: bool,
    pub verbose_debug: bool,
    pub use_gpu: bool,
    pub bujack_enabled: bool,
    pub bujack_k_l: Single,
    pub bujack_k_c: Single,
    pub bujack_strength: Single,
    pub bujack_radius: Single,
    pub bujack_edge: Single,
    pub pinned_zone: Option<ZoneRange>,
    pub dust_mask_hash: u64,
    pub dust_mask: Option<DustMask>,
    pub dust_strokes: Vec<DustStroke>,
    pub dust_reference_size: Option<(u32, u32)>,
    pub dust_uv: Option<(Single, Single, Single, Single)>,
    pub dust_heal: DustHealParams,
    pub output_icc: OutputIcc,
    pub output_icc_path: Option<String>,
    pub export_intent: CmsIntent,
    pub export_bpc: bool,
    pub cms_target: CmsTarget,
    pub soft_proof: bool,
    pub proof_icc_path: Option<String>,
    pub proof_intent: CmsIntent,
    pub proof_paper_white: bool,
    pub proof_gamut_warning: bool,
    pub preview_monitor_icc: Option<Vec<u8>>,
}

pub open spec fn is_unit_matrix(m: [[Single; 3]; 3]) -> bool {
    forall|i: int, j: int|
        0 <= i < 3 && 0 <= j < 3 ==> #[trigger] m@[i]@[j] == Single::whole(if i == j { 1 } else { 0 })
}

pub fn unit_matrix() -> (m: [[Single; 3]; 3])
    ensures
        is_unit_matrix(m),
{
    let o = Single::whole(0);
    let l = Single::whole(1);
    [[l, o, o], [o, l, o], [o, o, l]]
}

/// Settings of a new image.
pub fn default_options(gpu: bool) -> (r: PipelineOptions)
    ensures
        r.dmin_mode == DminMode::AutoPercentile,
        r.auto_norm_buffer == Single::ratio(2, 10),
        r.apply_white_balance,
        r.auto_wb,
        r.wb_mode == WbMode::Auto,
        r.film_gamma == Single::ratio(65, 100),
        r.dmin_rect is None,
        r.dmin_rect_reference_size is None,
        !r.apply_crop,
        r.crop_rect is None,
        r.crop_rect_reference_size is None,
        r.dmin_fixed == Some((Single::ratio(222537, 1000000), Single::ratio(108183, 1000000), Single::ratio(54116, 1000000))),
        !r.dmin_neutral_only,
        r.format == TiffFormat::Float32,
        !r.write_exr,
        !r.write_jpeg,
        !r.write_jpeg_only,
        !r.no_invert,
        !r.no_curve,
        r.wb_r == Single::whole(1),
        r.wb_g == Single::whole(1),
        r.wb_b == Single::whole(1),
        r.temp_k is None,
        r.curve_offset == Single::whole(0),
        r.curve_gamma == Single::ratio(25, 10),
        r.curve_pivot == Single::whole(3),
        r.curve_white == Single::whole(1),
        !r.apply_color_profile,
        is_unit_matrix(r.density_matrix),
        is_unit_matrix(r.idt_matrix),
        r.flat_field_path is None,
        !r.export_aces_exr,
        !r.write_aces2065_only,
        r.lut3d_path is None,
        r.output_stage == OutputStage::Ra4,
        r.output_lut_cube is None,
        r.output_lut_encoding == OutputLutEncoding::CineonLog,
        r.lut_in_black == Single::whole(0),
        r.lut_in_white == Single::whole(1),
        r.lut_in_mid == Single::whole(1),
        r.fp_offset_r == Single::whole(0),
        r.fp_offset_g == Single::whole(0),
        r.fp_offset_b == Single::whole(0),
        r.fp_gamma_r == Single::whole(1),
        r.fp_gamma_g == Single::whole(1),
        r.fp_gamma_b == Single::whole(1),
        r.fp_color_bleed == Single::ratio(8, 100),
        r.fp_vibrance == Single::ratio(3, 10),
        r.saturation == Single::whole(1),
        r.toe_strength == Single::whole(0),
        r.shoulder_strength == Single::whole(0),
        r.shadow_cast_strength == Single::whole(0),
        r.zone_shadows == Single::whole(0),
        r.zone_highlights == Single::whole(0),
        r.zone_shadow_gain == Single::whole(0),
        r.zone_mid_gain == Single::whole(0),
        r.zone_highlight_gain == Single::whole(0),
        r.color_shadow_gain_r == Single::whole(0),
        r.color_shadow_gain_g == Single::whole(0),
        r.color_shadow_gain_b == Single::whole(0),
        r.color_mid_gain_r == Single::whole(0),
        r.color_mid_gain_g == Single::whole(0),
        r.color_mid_gain_b == Single::whole(0),
        r.color_highlight_gain_r == Single::whole(0),
        r.color_highlight_gain_g == Single::whole(0),
        r.color_highlight_gain_b == Single::whole(0),
        r.zone_shadow_saturation == Single::whole(1),
        r.zone_mid_saturation == Single::whole(1),
        r.zone_highlight_saturation == Single::whole(1),
        r.highlight_rolloff == Single::whole(0),
        r.highlight_rolloff_d_mid == Single::ratio(15, 10),
        r.highlight_warmth == Single::whole(0),
        r.soft_clip == Single::ratio(93, 100),
        r.apply_lab,
        r.lab_separation == Single::whole(1),
        r.skin_magenta_shift == Single::whole(0),
        r.rotation_degrees == 0,
        !r.flip_horizontal,
        !r.flip_vertical,
        !r.synthetic_negative_input,
        r.debug_pipeline_step == 6,
        !r.debug_preview_simple_debayer,
        !r.verbose_debug,
        r.use_gpu == gpu,
        !r.bujack_enabled,
        r.bujack_k_l == Single::ratio(25, 100),
        r.bujack_k_c == Single::ratio(3, 10),
        r.bujack_strength == Single::ratio(2, 10),
        r.bujack_radius == Single::whole(16),
        r.bujack_edge == Single::ratio(25, 100),
        r.pinned_zone is None,
        r.dust_mask_hash == 0,
        r.dust_mask is None,
        r.dust_strokes@.len() == 0,
        r.dust_reference_size is None,
        r.dust_uv is None,
        r.dust_heal == DustHealParams::house(),
        r.output_icc == OutputIcc::Srgb,
        r.output_icc_path is None,
        r.export_intent == CmsIntent::Relative,
        r.export_bpc,
        r.cms_target == CmsTarget::Export,
        !r.soft_proof,
        r.proof_icc_path is None,
        r.proof_intent == CmsIntent::Relative,
        !r.proof_paper_white,
        !r.proof_gamut_warning,
        r.preview_monitor_icc is None,
{
    PipelineOptions {
        dmin_mode: DminMode::AutoPercentile,
        auto_norm_buffer: Single::ratio(2, 10),
        apply_white_balance: true,
        auto_wb: true,
        wb_mode: WbMode::Auto,
        film_gamma: Single::ratio(65, 100),
        dmin_rect: None,
        dmin_rect_reference_size: None,
        apply_crop: false,
        crop_rect: None,
        crop_rect_reference_size: None,
        dmin_fixed: Some((Single::ratio(222537, 1000000), Single::ratio(108183, 1000000), Single::ratio(54116, 1000000))),
        dmin_neutral_only: false,
        format: TiffFormat::Float32,
        write_exr: false,
        write_jpeg: false,
        write_jpeg_only: false,
        no_invert: false,
        no_curve: false,
        wb_r: Single::whole(1),
        wb_g: Single::whole(1),
        wb_b: Single::whole(1),
        temp_k: None,
        curve_offset: Single::whole(0),
        curve_gamma: Single::ratio(25, 10),
        curve_pivot: Single::whole(3),
        curve_white: Single::whole(1),
        apply_color_profile: false,
        density_matrix: unit_matrix(),
        idt_matrix: unit_matrix(),
        flat_field_path: None,
        export_aces_exr: false,
        write_aces2065_only: false,
        lut3d_path: None,
        output_stage: OutputStage::Ra4,
        output_lut_cube: None,
        output_lut_encoding: OutputLutEncoding::CineonLog,
        lut_in_black: Single::whole(0),
        lut_in_white: Single::whole(1),
        lut_in_mid: Single::whole(1),
        fp_offset_r: Single::whole(0),
        fp_offset_g: Single::whole(0),
        fp_offset_b: Single::whole(0),
        fp_gamma_r: Single::whole(1),
        fp_gamma_g: Single::whole(1),
        fp_gamma_b: Single::whole(1),
        fp_color_bleed: Single::ratio(8, 100),
        fp_vibrance: Single::ratio(3, 10),
        saturation: Single::whole(1),
        toe_strength: Single::whole(0),
        shoulder_strength: Single::whole(0),
        shadow_cast_strength: Single::whole(0),
        zone_shadows: Single::whole(0),
        zone_highlights: Single::whole(0),
        zone_shadow_gain: Single::whole(0),
        zone_mid_gain: Single::whole(0),
        zone_highlight_gain: Single::whole(0),
        color_shadow_gain_r: Single::whole(0),
        color_shadow_gain_g: Single::whole(0),
        color_shadow_gain_b: Single::whole(0),
        color_mid_gain_r: Single::whole(0),
        color_mid_gain_g: Single::whole(0),
        color_mid_gain_b: Single::whole(0),
        color_highlight_gain_r: Single::whole(0),
        color_highlight_gain_g: Single::whole(0),
        color_highlight_gain_b: Single::whole(0),
        zone_shadow_saturation: Single::whole(1),
        zone_mid_saturation: Single::whole(1),
        zone_highlight_saturation: Single::whole(1),
        highlight_rolloff: Single::whole(0),
        highlight_rolloff_d_mid: Single::ratio(15, 10),
        highlight_warmth: Single::whole(0),
        soft_clip: Single::ratio(93, 100),
        apply_lab: true,
        lab_separation: Single::whole(1),
        skin_magenta_shift: Single::whole(0),
        rotation_degrees: 0,
        flip_horizontal: false,
        flip_vertical: false,
        synthetic_negative_input: false,
        debug_pipeline_step: 6,
        debug_preview_simple_debayer: false,
        verbose_debug: false,
        use_gpu: gpu,
        bujack_enabled: false,
        bujack_k_l: Single::ratio(25, 100),
        bujack_k_c: Single::ratio(3, 10),
        bujack_strength: Single::ratio(2, 10),
        bujack_radius: Single::whole(16),
        bujack_edge: Single::ratio(25, 100),
        pinned_zone: None,
        dust_mask_hash: 0,
        dust_mask: None,
        dust_strokes: Vec::new(),
        dust_reference_size: None,
        dust_uv: None,
        dust_heal: DustHealParams::house(),
        output_icc: OutputIcc::Srgb,
        output_icc_path: None,
        export_intent: CmsIntent::Relative,
        export_bpc: true,
        cms_target: CmsTarget::Export,
        soft_proof: false,
        proof_icc_path: None,
        proof_intent: CmsIntent::Relative,
        proof_paper_white: false,
        proof_gamut_warning: false,
        preview_monitor_icc: None,
    }
}

} // verus!
