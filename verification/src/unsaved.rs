//! Whether a project holds changes that were not saved.
//!
//! Numbers are equal where their values are: both zeros are, and what is no number equals
//! nothing, itself included.

use vstd::prelude::*;
use crate::options::{DustHealParams, DustMask, DustStroke, PipelineOptions, Rect, ZoneRange};
use crate::project::{ProjectDust, ProjectImage};
use crate::single::Single;

verus! {

/// The numbers have the same value.
pub open spec fn same_number(a: Single, b: Single) -> bool {
    a.at_most(b) && b.at_most(a)
}

fn number(a: Single, b: Single) -> (r: bool)
    ensures
        r == same_number(a, b),
{
    a.at_most(b) && b.at_most(a)
}

pub open spec fn same_maybe(a: Option<Single>, b: Option<Single>) -> bool {
    match (a, b) {
        (Some(x), Some(y)) => same_number(x, y),
        (None, None) => true,
        _ => false,
    }
}

fn maybe(a: Option<Single>, b: Option<Single>) -> (r: bool)
    ensures
        r == same_maybe(a, b),
{
    match (a, b) {
        (Some(x), Some(y)) => number(x, y),
        (None, None) => true,
        _ => false,
    }
}

pub open spec fn same_triple(
    a: Option<(Single, Single, Single)>,
    b: Option<(Single, Single, Single)>,
) -> bool {
    match (a, b) {
        (Some(x), Some(y)) => same_number(x.0, y.0) && same_number(x.1, y.1) && same_number(
            x.2,
            y.2,
        ),
        (None, None) => true,
        _ => false,
    }
}

fn triple(a: Option<(Single, Single, Single)>, b: Option<(Single, Single, Single)>) -> (r: bool)
    ensures
        r == same_triple(a, b),
{
    match (a, b) {
        (Some(x), Some(y)) => number(x.0, y.0) && number(x.1, y.1) && number(x.2, y.2),
        (None, None) => true,
        _ => false,
    }
}

pub open spec fn same_window(
    a: Option<(Single, Single, Single, Single)>,
    b: Option<(Single, Single, Single, Single)>,
) -> bool {
    match (a, b) {
        (Some(x), Some(y)) => {
            &&& same_number(x.0, y.0)
            &&& same_number(x.1, y.1)
            &&& same_number(x.2, y.2)
            &&& same_number(x.3, y.3)
        },
        (None, None) => true,
        _ => false,
    }
}

fn window(
    a: Option<(Single, Single, Single, Single)>,
    b: Option<(Single, Single, Single, Single)>,
) -> (r: bool)
    ensures
        r == same_window(a, b),
{
    match (a, b) {
        (Some(x), Some(y)) => number(x.0, y.0) && number(x.1, y.1) && number(x.2, y.2) && number(
            x.3,
            y.3,
        ),
        (None, None) => true,
        _ => false,
    }
}

/// The matrices have the same values.
pub open spec fn same_matrix(a: [[Single; 3]; 3], b: [[Single; 3]; 3]) -> bool {
    forall|i: int, j: int|
        0 <= i < 3 && 0 <= j < 3 ==> #[trigger] same_number(a@[i]@[j], b@[i]@[j])
}

fn row(a: [Single; 3], b: [Single; 3]) -> (r: bool)
    ensures
        r == (same_number(a@[0], b@[0]) && same_number(a@[1], b@[1]) && same_number(a@[2], b@[2])),
{
    number(a[0], b[0]) && number(a[1], b[1]) && number(a[2], b[2])
}

fn matrix(a: &[[Single; 3]; 3], b: &[[Single; 3]; 3]) -> (r: bool)
    ensures
        r == same_matrix(*a, *b),
{
    let r: bool = row(a[0], b[0]) && row(a[1], b[1]) && row(a[2], b[2]);
    proof {
        if r {
            assert forall|i: int, j: int| 0 <= i < 3 && 0 <= j < 3 implies #[trigger] same_number(
                a@[i]@[j],
                b@[i]@[j],
            ) by {
                assert(i == 0 || i == 1 || i == 2);
                assert(j == 0 || j == 1 || j == 2);
            }
        } else {
            assert(exists|i: int, j: int|
                0 <= i < 3 && 0 <= j < 3 && !#[trigger] same_number(a@[i]@[j], b@[i]@[j]));
        }
    }
    r
}

fn text(a: &Option<String>, b: &Option<String>) -> (r: bool)
    ensures
        r == crate::options_key::same_text(*a, *b),
{
    match (a, b) {
        (Some(x), Some(y)) => *x == *y,
        (None, None) => true,
        _ => false,
    }
}

fn list(a: &Vec<u8>, b: &Vec<u8>) -> (r: bool)
    ensures
        r == (a@ == b@),
{
    if a.len() != b.len() {
        return false;
    }
    let mut i: usize = 0;
    while i < a.len()
        invariant
            i <= a.len(),
            a.len() == b.len(),
            forall|k: int| 0 <= k < i ==> a@[k] == b@[k],
        decreases a.len() - i,
    {
        if a[i] != b[i] {
            return false;
        }
        i = i + 1;
    }
    assert(a@ =~= b@);
    true
}

pub open spec fn same_bytes(a: Option<Vec<u8>>, b: Option<Vec<u8>>) -> bool {
    match (a, b) {
        (Some(x), Some(y)) => x@ == y@,
        (None, None) => true,
        _ => false,
    }
}

fn bytes(a: &Option<Vec<u8>>, b: &Option<Vec<u8>>) -> (r: bool)
    ensures
        r == same_bytes(*a, *b),
{
    match (a, b) {
        (Some(x), Some(y)) => list(x, y),
        (None, None) => true,
        _ => false,
    }
}

pub open spec fn same_zone(a: Option<ZoneRange>, b: Option<ZoneRange>) -> bool {
    match (a, b) {
        (Some(x), Some(y)) => same_number(x.d_p33, y.d_p33) && same_number(x.d_p66, y.d_p66),
        (None, None) => true,
        _ => false,
    }
}

fn zone(a: Option<ZoneRange>, b: Option<ZoneRange>) -> (r: bool)
    ensures
        r == same_zone(a, b),
{
    match (a, b) {
        (Some(x), Some(y)) => number(x.d_p33, y.d_p33) && number(x.d_p66, y.d_p66),
        (None, None) => true,
        _ => false,
    }
}

pub open spec fn same_mask(a: Option<DustMask>, b: Option<DustMask>) -> bool {
    match (a, b) {
        (Some(x), Some(y)) => x.width == y.width && x.height == y.height && x.data@ == y.data@,
        (None, None) => true,
        _ => false,
    }
}

fn mask(a: &Option<DustMask>, b: &Option<DustMask>) -> (r: bool)
    ensures
        r == same_mask(*a, *b),
{
    match (a, b) {
        (Some(x), Some(y)) => x.width == y.width && x.height == y.height && list(
            &x.data,
            &y.data,
        ),
        (None, None) => true,
        _ => false,
    }
}

/// The points have the same values, one by one.
pub open spec fn same_points(a: Seq<(Single, Single)>, b: Seq<(Single, Single)>) -> bool {
    &&& a.len() == b.len()
    &&& forall|i: int|
        #![trigger a[i]]
        #![trigger b[i]]
        0 <= i < a.len() ==> same_number(a[i].0, b[i].0) && same_number(a[i].1, b[i].1)
}

fn points(a: &Vec<(Single, Single)>, b: &Vec<(Single, Single)>) -> (r: bool)
    ensures
        r == same_points(a@, b@),
{
    if a.len() != b.len() {
        return false;
    }
    let mut i: usize = 0;
    while i < a.len()
        invariant
            i <= a.len(),
            a.len() == b.len(),
            forall|k: int|
                0 <= k < i ==> same_number((#[trigger] a@[k]).0, b@[k].0) && same_number(
                    a@[k].1,
                    b@[k].1,
                ),
        decreases a.len() - i,
    {
        if !(number(a[i].0, b[i].0) && number(a[i].1, b[i].1)) {
            assert(!(same_number(a@[i as int].0, b@[i as int].0) && same_number(
                a@[i as int].1,
                b@[i as int].1,
            )));
            return false;
        }
        i = i + 1;
    }
    true
}

pub open spec fn same_stroke(a: DustStroke, b: DustStroke) -> bool {
    &&& a.tool == b.tool
    &&& same_number(a.radius, b.radius)
    &&& same_points(a.points@, b.points@)
}

/// The strokes are equal, one by one.
pub open spec fn same_strokes(a: Seq<DustStroke>, b: Seq<DustStroke>) -> bool {
    &&& a.len() == b.len()
    &&& forall|i: int|
        #![trigger a[i]]
        #![trigger b[i]]
        0 <= i < a.len() ==> same_stroke(a[i], b[i])
}

fn strokes(a: &Vec<DustStroke>, b: &Vec<DustStroke>) -> (r: bool)
    ensures
        r == same_strokes(a@, b@),
{
    if a.len() != b.len() {
        return false;
    }
    let mut i: usize = 0;
    while i < a.len()
        invariant
            i <= a.len(),
            a.len() == b.len(),
            forall|k: int| 0 <= k < i ==> same_stroke(#[trigger] a@[k], b@[k]),
        decreases a.len() - i,
    {
        if !(a[i].tool == b[i].tool && number(a[i].radius, b[i].radius) && points(
            &a[i].points,
            &b[i].points,
        )) {
            assert(!same_stroke(a@[i as int], b@[i as int]));
            return false;
        }
        i = i + 1;
    }
    true
}

pub open spec fn same_heal(a: DustHealParams, b: DustHealParams) -> bool {
    &&& same_number(a.detect, b.detect)
    &&& same_number(a.feather, b.feather)
    &&& same_number(a.grain, b.grain)
    &&& same_number(a.grain_sigma, b.grain_sigma)
    &&& a.infill == b.infill
    &&& a.tile == b.tile
    &&& same_number(a.match_loosen, b.match_loosen)
}

fn heal(a: DustHealParams, b: DustHealParams) -> (r: bool)
    ensures
        r == same_heal(a, b),
{
    number(a.detect, b.detect) && number(a.feather, b.feather) && number(a.grain, b.grain)
        && number(a.grain_sigma, b.grain_sigma) && a.infill == b.infill && a.tile == b.tile
        && number(a.match_loosen, b.match_loosen)
}

fn rect(a: Option<Rect>, b: Option<Rect>) -> (r: bool)
    ensures
        r == (a == b),
{
    match (a, b) {
        (Some(x), Some(y)) => x == y,
        (None, None) => true,
        _ => false,
    }
}

fn sides(a: Option<(u32, u32)>, b: Option<(u32, u32)>) -> (r: bool)
    ensures
        r == (a == b),
{
    match (a, b) {
        (Some(x), Some(y)) => x.0 == y.0 && x.1 == y.1,
        (None, None) => true,
        _ => false,
    }
}

/// The settings agree in the film base, the crop and the file that is written.
pub open spec fn same_base(o: PipelineOptions, m: PipelineOptions) -> bool {
    &&& o.dmin_mode == m.dmin_mode
    &&& same_number(o.auto_norm_buffer, m.auto_norm_buffer)
    &&& o.apply_white_balance == m.apply_white_balance
    &&& o.auto_wb == m.auto_wb
    &&& o.wb_mode == m.wb_mode
    &&& same_number(o.film_gamma, m.film_gamma)
    &&& o.dmin_rect == m.dmin_rect
    &&& o.dmin_rect_reference_size == m.dmin_rect_reference_size
    &&& o.apply_crop == m.apply_crop
    &&& o.crop_rect == m.crop_rect
    &&& o.crop_rect_reference_size == m.crop_rect_reference_size
    &&& same_triple(o.dmin_fixed, m.dmin_fixed)
    &&& o.dmin_neutral_only == m.dmin_neutral_only
    &&& o.format == m.format
    &&& o.write_exr == m.write_exr
    &&& o.write_jpeg == m.write_jpeg
    &&& o.write_jpeg_only == m.write_jpeg_only
    &&& o.no_invert == m.no_invert
    &&& o.no_curve == m.no_curve
}

fn base(o: &PipelineOptions, m: &PipelineOptions) -> (r: bool)
    ensures
        r == same_base(*o, *m),
{
    o.dmin_mode == m.dmin_mode
        && number(o.auto_norm_buffer, m.auto_norm_buffer)
        && o.apply_white_balance == m.apply_white_balance
        && o.auto_wb == m.auto_wb
        && o.wb_mode == m.wb_mode
        && number(o.film_gamma, m.film_gamma)
        && rect(o.dmin_rect, m.dmin_rect)
        && sides(o.dmin_rect_reference_size, m.dmin_rect_reference_size)
        && o.apply_crop == m.apply_crop
        && rect(o.crop_rect, m.crop_rect)
        && sides(o.crop_rect_reference_size, m.crop_rect_reference_size)
        && triple(o.dmin_fixed, m.dmin_fixed)
        && o.dmin_neutral_only == m.dmin_neutral_only
        && o.format == m.format
        && o.write_exr == m.write_exr
        && o.write_jpeg == m.write_jpeg
        && o.write_jpeg_only == m.write_jpeg_only
        && o.no_invert == m.no_invert
        && o.no_curve == m.no_curve
}

/// The settings agree in white balance, curve and matrices.
pub open spec fn same_balance(o: PipelineOptions, m: PipelineOptions) -> bool {
    &&& same_number(o.wb_r, m.wb_r)
    &&& same_number(o.wb_g, m.wb_g)
    &&& same_number(o.wb_b, m.wb_b)
    &&& same_maybe(o.temp_k, m.temp_k)
    &&& same_number(o.curve_offset, m.curve_offset)
    &&& same_number(o.curve_gamma, m.curve_gamma)
    &&& same_number(o.curve_pivot, m.curve_pivot)
    &&& same_number(o.curve_white, m.curve_white)
    &&& o.apply_color_profile == m.apply_color_profile
    &&& same_matrix(o.density_matrix, m.density_matrix)
    &&& same_matrix(o.idt_matrix, m.idt_matrix)
    &&& crate::options_key::same_text(o.flat_field_path, m.flat_field_path)
    &&& o.export_aces_exr == m.export_aces_exr
    &&& o.write_aces2065_only == m.write_aces2065_only
    &&& crate::options_key::same_text(o.lut3d_path, m.lut3d_path)
}

fn balance(o: &PipelineOptions, m: &PipelineOptions) -> (r: bool)
    ensures
        r == same_balance(*o, *m),
{
    number(o.wb_r, m.wb_r)
        && number(o.wb_g, m.wb_g)
        && number(o.wb_b, m.wb_b)
        && maybe(o.temp_k, m.temp_k)
        && number(o.curve_offset, m.curve_offset)
        && number(o.curve_gamma, m.curve_gamma)
        && number(o.curve_pivot, m.curve_pivot)
        && number(o.curve_white, m.curve_white)
        && o.apply_color_profile == m.apply_color_profile
        && matrix(&o.density_matrix, &m.density_matrix)
        && matrix(&o.idt_matrix, &m.idt_matrix)
        && text(&o.flat_field_path, &m.flat_field_path)
        && o.export_aces_exr == m.export_aces_exr
        && o.write_aces2065_only == m.write_aces2065_only
        && text(&o.lut3d_path, &m.lut3d_path)
}

/// The settings agree in the print.
pub open spec fn same_print(o: PipelineOptions, m: PipelineOptions) -> bool {
    &&& o.output_stage == m.output_stage
    &&& crate::options_key::same_text(o.output_lut_cube, m.output_lut_cube)
    &&& o.output_lut_encoding == m.output_lut_encoding
    &&& same_number(o.lut_in_black, m.lut_in_black)
    &&& same_number(o.lut_in_white, m.lut_in_white)
    &&& same_number(o.lut_in_mid, m.lut_in_mid)
    &&& same_number(o.fp_offset_r, m.fp_offset_r)
    &&& same_number(o.fp_offset_g, m.fp_offset_g)
    &&& same_number(o.fp_offset_b, m.fp_offset_b)
    &&& same_number(o.fp_gamma_r, m.fp_gamma_r)
    &&& same_number(o.fp_gamma_g, m.fp_gamma_g)
    &&& same_number(o.fp_gamma_b, m.fp_gamma_b)
    &&& same_number(o.fp_color_bleed, m.fp_color_bleed)
    &&& same_number(o.fp_vibrance, m.fp_vibrance)
    &&& same_number(o.saturation, m.saturation)
    &&& same_number(o.toe_strength, m.toe_strength)
    &&& same_number(o.shoulder_strength, m.shoulder_strength)
    &&& same_number(o.shadow_cast_strength, m.shadow_cast_strength)
}

fn print(o: &PipelineOptions, m: &PipelineOptions) -> (r: bool)
    ensures
        r == same_print(*o, *m),
{
    o.output_stage == m.output_stage
        && text(&o.output_lut_cube, &m.output_lut_cube)
        && o.output_lut_encoding == m.output_lut_encoding
        && number(o.lut_in_black, m.lut_in_black)
        && number(o.lut_in_white, m.lut_in_white)
        && number(o.lut_in_mid, m.lut_in_mid)
        && number(o.fp_offset_r, m.fp_offset_r)
        && number(o.fp_offset_g, m.fp_offset_g)
        && number(o.fp_offset_b, m.fp_offset_b)
        && number(o.fp_gamma_r, m.fp_gamma_r)
        && number(o.fp_gamma_g, m.fp_gamma_g)
        && number(o.fp_gamma_b, m.fp_gamma_b)
        && number(o.fp_color_bleed, m.fp_color_bleed)
        && number(o.fp_vibrance, m.fp_vibrance)
        && number(o.saturation, m.saturation)
        && number(o.toe_strength, m.toe_strength)
        && number(o.shoulder_strength, m.shoulder_strength)
        && number(o.shadow_cast_strength, m.shadow_cast_strength)
}

/// The settings agree in the zones of the print.
pub open spec fn same_zones(o: PipelineOptions, m: PipelineOptions) -> bool {
    &&& same_number(o.zone_shadows, m.zone_shadows)
    &&& same_number(o.zone_highlights, m.zone_highlights)
    &&& same_number(o.zone_shadow_gain, m.zone_shadow_gain)
    &&& same_number(o.zone_mid_gain, m.zone_mid_gain)
    &&& same_number(o.zone_highlight_gain, m.zone_highlight_gain)
    &&& same_number(o.color_shadow_gain_r, m.color_shadow_gain_r)
    &&& same_number(o.color_shadow_gain_g, m.color_shadow_gain_g)
    &&& same_number(o.color_shadow_gain_b, m.color_shadow_gain_b)
    &&& same_number(o.color_mid_gain_r, m.color_mid_gain_r)
    &&& same_number(o.color_mid_gain_g, m.color_mid_gain_g)
    &&& same_number(o.color_mid_gain_b, m.color_mid_gain_b)
    &&& same_number(o.color_highlight_gain_r, m.color_highlight_gain_r)
    &&& same_number(o.color_highlight_gain_g, m.color_highlight_gain_g)
    &&& same_number(o.color_highlight_gain_b, m.color_highlight_gain_b)
    &&& same_number(o.zone_shadow_saturation, m.zone_shadow_saturation)
    &&& same_number(o.zone_mid_saturation, m.zone_mid_saturation)
    &&& same_number(o.zone_highlight_saturation, m.zone_highlight_saturation)
}

fn zones(o: &PipelineOptions, m: &PipelineOptions) -> (r: bool)
    ensures
        r == same_zones(*o, *m),
{
    number(o.zone_shadows, m.zone_shadows)
        && number(o.zone_highlights, m.zone_highlights)
        && number(o.zone_shadow_gain, m.zone_shadow_gain)
        && number(o.zone_mid_gain, m.zone_mid_gain)
        && number(o.zone_highlight_gain, m.zone_highlight_gain)
        && number(o.color_shadow_gain_r, m.color_shadow_gain_r)
        && number(o.color_shadow_gain_g, m.color_shadow_gain_g)
        && number(o.color_shadow_gain_b, m.color_shadow_gain_b)
        && number(o.color_mid_gain_r, m.color_mid_gain_r)
        && number(o.color_mid_gain_g, m.color_mid_gain_g)
        && number(o.color_mid_gain_b, m.color_mid_gain_b)
        && number(o.color_highlight_gain_r, m.color_highlight_gain_r)
        && number(o.color_highlight_gain_g, m.color_highlight_gain_g)
        && number(o.color_highlight_gain_b, m.color_highlight_gain_b)
        && number(o.zone_shadow_saturation, m.zone_shadow_saturation)
        && number(o.zone_mid_saturation, m.zone_mid_saturation)
        && number(o.zone_highlight_saturation, m.zone_highlight_saturation)
}

/// The settings agree in highlights, skin and turns.
pub open spec fn same_finish(o: PipelineOptions, m: PipelineOptions) -> bool {
    &&& same_number(o.highlight_rolloff, m.highlight_rolloff)
    &&& same_number(o.highlight_rolloff_d_mid, m.highlight_rolloff_d_mid)
    &&& same_number(o.highlight_warmth, m.highlight_warmth)
    &&& same_number(o.soft_clip, m.soft_clip)
    &&& o.apply_lab == m.apply_lab
    &&& same_number(o.lab_separation, m.lab_separation)
    &&& same_number(o.skin_magenta_shift, m.skin_magenta_shift)
    &&& o.rotation_degrees == m.rotation_degrees
    &&& o.flip_horizontal == m.flip_horizontal
    &&& o.flip_vertical == m.flip_vertical
    &&& o.synthetic_negative_input == m.synthetic_negative_input
    &&& o.debug_pipeline_step == m.debug_pipeline_step
    &&& o.debug_preview_simple_debayer == m.debug_preview_simple_debayer
    &&& o.verbose_debug == m.verbose_debug
    &&& o.use_gpu == m.use_gpu
}

fn finish(o: &PipelineOptions, m: &PipelineOptions) -> (r: bool)
    ensures
        r == same_finish(*o, *m),
{
    number(o.highlight_rolloff, m.highlight_rolloff)
        && number(o.highlight_rolloff_d_mid, m.highlight_rolloff_d_mid)
        && number(o.highlight_warmth, m.highlight_warmth)
        && number(o.soft_clip, m.soft_clip)
        && o.apply_lab == m.apply_lab
        && number(o.lab_separation, m.lab_separation)
        && number(o.skin_magenta_shift, m.skin_magenta_shift)
        && o.rotation_degrees == m.rotation_degrees
        && o.flip_horizontal == m.flip_horizontal
        && o.flip_vertical == m.flip_vertical
        && o.synthetic_negative_input == m.synthetic_negative_input
        && o.debug_pipeline_step == m.debug_pipeline_step
        && o.debug_preview_simple_debayer == m.debug_preview_simple_debayer
        && o.verbose_debug == m.verbose_debug
        && o.use_gpu == m.use_gpu
}

/// The settings agree in the spread of colours and dust.
pub open spec fn same_healing(o: PipelineOptions, m: PipelineOptions) -> bool {
    &&& o.bujack_enabled == m.bujack_enabled
    &&& same_number(o.bujack_k_l, m.bujack_k_l)
    &&& same_number(o.bujack_k_c, m.bujack_k_c)
    &&& same_number(o.bujack_strength, m.bujack_strength)
    &&& same_number(o.bujack_radius, m.bujack_radius)
    &&& same_number(o.bujack_edge, m.bujack_edge)
    &&& same_zone(o.pinned_zone, m.pinned_zone)
    &&& o.dust_mask_hash == m.dust_mask_hash
    &&& same_mask(o.dust_mask, m.dust_mask)
    &&& same_strokes(o.dust_strokes@, m.dust_strokes@)
    &&& o.dust_reference_size == m.dust_reference_size
    &&& same_window(o.dust_uv, m.dust_uv)
    &&& same_heal(o.dust_heal, m.dust_heal)
}

fn healing(o: &PipelineOptions, m: &PipelineOptions) -> (r: bool)
    ensures
        r == same_healing(*o, *m),
{
    o.bujack_enabled == m.bujack_enabled
        && number(o.bujack_k_l, m.bujack_k_l)
        && number(o.bujack_k_c, m.bujack_k_c)
        && number(o.bujack_strength, m.bujack_strength)
        && number(o.bujack_radius, m.bujack_radius)
        && number(o.bujack_edge, m.bujack_edge)
        && zone(o.pinned_zone, m.pinned_zone)
        && o.dust_mask_hash == m.dust_mask_hash
        && mask(&o.dust_mask, &m.dust_mask)
        && strokes(&o.dust_strokes, &m.dust_strokes)
        && sides(o.dust_reference_size, m.dust_reference_size)
        && window(o.dust_uv, m.dust_uv)
        && heal(o.dust_heal, m.dust_heal)
}

/// The settings agree in profiles and proofs.
pub open spec fn same_output(o: PipelineOptions, m: PipelineOptions) -> bool {
    &&& o.output_icc == m.output_icc
    &&& crate::options_key::same_text(o.output_icc_path, m.output_icc_path)
    &&& o.export_intent == m.export_intent
    &&& o.export_bpc == m.export_bpc
    &&& o.cms_target == m.cms_target
    &&& o.soft_proof == m.soft_proof
    &&& crate::options_key::same_text(o.proof_icc_path, m.proof_icc_path)
    &&& o.proof_intent == m.proof_intent
    &&& o.proof_paper_white == m.proof_paper_white
    &&& o.proof_gamut_warning == m.proof_gamut_warning
    &&& same_bytes(o.preview_monitor_icc, m.preview_monitor_icc)
}

fn output(o: &PipelineOptions, m: &PipelineOptions) -> (r: bool)
    ensures
        r == same_output(*o, *m),
{
    o.output_icc == m.output_icc
        && text(&o.output_icc_path, &m.output_icc_path)
        && o.export_intent == m.export_intent
        && o.export_bpc == m.export_bpc
        && o.cms_target == m.cms_target
        && o.soft_proof == m.soft_proof
        && text(&o.proof_icc_path, &m.proof_icc_path)
        && o.proof_intent == m.proof_intent
        && o.proof_paper_white == m.proof_paper_white
        && o.proof_gamut_warning == m.proof_gamut_warning
        && bytes(&o.preview_monitor_icc, &m.preview_monitor_icc)
}

/// The settings are equal, number by number.
pub open spec fn same_options(o: PipelineOptions, m: PipelineOptions) -> bool {
    &&& same_base(o, m)
    &&& same_balance(o, m)
    &&& same_print(o, m)
    &&& same_zones(o, m)
    &&& same_finish(o, m)
    &&& same_healing(o, m)
    &&& same_output(o, m)
}

fn options(o: &PipelineOptions, m: &PipelineOptions) -> (r: bool)
    ensures
        r == same_options(*o, *m),
{
    base(o, m) && balance(o, m) && print(o, m) && zones(o, m) && finish(o, m) && healing(o, m) && output(o, m)
}

pub open spec fn same_dust(a: Option<ProjectDust>, b: Option<ProjectDust>) -> bool {
    match (a, b) {
        (Some(x), Some(y)) => {
            &&& x.reference_size == y.reference_size
            &&& same_strokes(x.strokes@, y.strokes@)
            &&& same_heal(x.heal, y.heal)
            &&& same_number(x.brush_radius, y.brush_radius)
        },
        (None, None) => true,
        _ => false,
    }
}

fn dust(a: &Option<ProjectDust>, b: &Option<ProjectDust>) -> (r: bool)
    ensures
        r == same_dust(*a, *b),
{
    match (a, b) {
        (Some(x), Some(y)) => x.reference_size.0 == y.reference_size.0 && x.reference_size.1
            == y.reference_size.1 && strokes(&x.strokes, &y.strokes) && heal(x.heal, y.heal)
            && number(x.brush_radius, y.brush_radius),
        (None, None) => true,
        _ => false,
    }
}

/// The pictures of two projects are equal.
pub open spec fn same_picture(a: ProjectImage, b: ProjectImage) -> bool {
    &&& a.path@ == b.path@
    &&& a.export_format == b.export_format
    &&& same_options(a.options, b.options)
    &&& same_dust(a.dust, b.dust)
}

fn picture(a: &ProjectImage, b: &ProjectImage) -> (r: bool)
    ensures
        r == same_picture(*a, *b),
{
    a.path == b.path && a.export_format == b.export_format && options(&a.options, &b.options)
        && dust(&a.dust, &b.dust)
}

/// The projects hold equal pictures in the same order.
pub open spec fn same_project(a: Seq<ProjectImage>, b: Seq<ProjectImage>) -> bool {
    &&& a.len() == b.len()
    &&& forall|i: int|
        #![trigger a[i]]
        #![trigger b[i]]
        0 <= i < a.len() ==> same_picture(a[i], b[i])
}

/// Whether a project differs from what was saved last.
pub fn project_is_dirty(now: &Vec<ProjectImage>, clean: &Vec<ProjectImage>) -> (r: bool)
    ensures
        r == !same_project(now@, clean@),
{
    if now.len() != clean.len() {
        return true;
    }
    let mut i: usize = 0;
    while i < now.len()
        invariant
            i <= now.len(),
            now.len() == clean.len(),
            forall|k: int| 0 <= k < i ==> same_picture(#[trigger] now@[k], clean@[k]),
        decreases now.len() - i,
    {
        if !picture(&now[i], &clean[i]) {
            assert(!same_picture(now@[i as int], clean@[i as int]));
            return true;
        }
        i = i + 1;
    }
    false
}

proof fn lemma_same_points_turned(a: Seq<(Single, Single)>, b: Seq<(Single, Single)>)
    requires
        same_points(a, b),
    ensures
        same_points(b, a),
{
}

proof fn lemma_same_strokes_turned(a: Seq<DustStroke>, b: Seq<DustStroke>)
    requires
        same_strokes(a, b),
    ensures
        same_strokes(b, a),
{
    assert forall|i: int| 0 <= i < b.len() implies same_stroke(#[trigger] b[i], a[i]) by {
        assert(same_stroke(a[i], b[i]));
        lemma_same_points_turned(a[i].points@, b[i].points@);
    }
}

proof fn lemma_same_matrix_turned(a: [[Single; 3]; 3], b: [[Single; 3]; 3])
    requires
        same_matrix(a, b),
    ensures
        same_matrix(b, a),
{
    assert forall|i: int, j: int| 0 <= i < 3 && 0 <= j < 3 implies #[trigger] same_number(
        b@[i]@[j],
        a@[i]@[j],
    ) by {
        assert(same_number(a@[i]@[j], b@[i]@[j]));
    }
}

proof fn lemma_same_options_turned(o: PipelineOptions, m: PipelineOptions)
    requires
        same_options(o, m),
    ensures
        same_options(m, o),
{
    lemma_same_matrix_turned(o.density_matrix, m.density_matrix);
    lemma_same_matrix_turned(o.idt_matrix, m.idt_matrix);
    lemma_same_strokes_turned(o.dust_strokes@, m.dust_strokes@);
}

/// Which of two projects is held against the other makes no difference.
pub proof fn sameness_goes_both_ways(a: Seq<ProjectImage>, b: Seq<ProjectImage>)
    ensures
        same_project(a, b) == same_project(b, a),
{
    if same_project(a, b) {
        lemma_same_project_turned(a, b);
    }
    if same_project(b, a) {
        lemma_same_project_turned(b, a);
    }
}

proof fn lemma_same_project_turned(a: Seq<ProjectImage>, b: Seq<ProjectImage>)
    requires
        same_project(a, b),
    ensures
        same_project(b, a),
{
    assert forall|i: int| 0 <= i < b.len() implies same_picture(#[trigger] b[i], a[i]) by {
        let x = a[i];
        let y = b[i];
        assert(same_picture(x, y));
        lemma_same_options_turned(x.options, y.options);
        if x.dust is Some {
            lemma_same_strokes_turned(x.dust->0.strokes@, y.dust->0.strokes@);
        }
    }
}

/// All that the settings count of the film base, the crop and the file that is written are numbers.
pub open spec fn numbers_in_base(o: PipelineOptions) -> bool {
    &&& is_number(o.auto_norm_buffer)
    &&& is_number(o.film_gamma)
    &&& (o.dmin_fixed matches Some(v) ==> is_number(v.0) && is_number(v.1) && is_number(v.2))
}

/// All that the settings count of white balance, curve and matrices are numbers.
pub open spec fn numbers_in_balance(o: PipelineOptions) -> bool {
    &&& is_number(o.wb_r)
    &&& is_number(o.wb_g)
    &&& is_number(o.wb_b)
    &&& (o.temp_k matches Some(v) ==> is_number(v))
    &&& is_number(o.curve_offset)
    &&& is_number(o.curve_gamma)
    &&& is_number(o.curve_pivot)
    &&& is_number(o.curve_white)
    &&& numbers_in_matrix(o.density_matrix)
    &&& numbers_in_matrix(o.idt_matrix)
}

/// All that the settings count of the print are numbers.
pub open spec fn numbers_in_print(o: PipelineOptions) -> bool {
    &&& is_number(o.lut_in_black)
    &&& is_number(o.lut_in_white)
    &&& is_number(o.lut_in_mid)
    &&& is_number(o.fp_offset_r)
    &&& is_number(o.fp_offset_g)
    &&& is_number(o.fp_offset_b)
    &&& is_number(o.fp_gamma_r)
    &&& is_number(o.fp_gamma_g)
    &&& is_number(o.fp_gamma_b)
    &&& is_number(o.fp_color_bleed)
    &&& is_number(o.fp_vibrance)
    &&& is_number(o.saturation)
    &&& is_number(o.toe_strength)
    &&& is_number(o.shoulder_strength)
    &&& is_number(o.shadow_cast_strength)
}

/// All that the settings count of the zones of the print are numbers.
pub open spec fn numbers_in_zones(o: PipelineOptions) -> bool {
    &&& is_number(o.zone_shadows)
    &&& is_number(o.zone_highlights)
    &&& is_number(o.zone_shadow_gain)
    &&& is_number(o.zone_mid_gain)
    &&& is_number(o.zone_highlight_gain)
    &&& is_number(o.color_shadow_gain_r)
    &&& is_number(o.color_shadow_gain_g)
    &&& is_number(o.color_shadow_gain_b)
    &&& is_number(o.color_mid_gain_r)
    &&& is_number(o.color_mid_gain_g)
    &&& is_number(o.color_mid_gain_b)
    &&& is_number(o.color_highlight_gain_r)
    &&& is_number(o.color_highlight_gain_g)
    &&& is_number(o.color_highlight_gain_b)
    &&& is_number(o.zone_shadow_saturation)
    &&& is_number(o.zone_mid_saturation)
    &&& is_number(o.zone_highlight_saturation)
}

/// All that the settings count of highlights, skin and turns are numbers.
pub open spec fn numbers_in_finish(o: PipelineOptions) -> bool {
    &&& is_number(o.highlight_rolloff)
    &&& is_number(o.highlight_rolloff_d_mid)
    &&& is_number(o.highlight_warmth)
    &&& is_number(o.soft_clip)
    &&& is_number(o.lab_separation)
    &&& is_number(o.skin_magenta_shift)
}

/// All that the settings count of the spread of colours and dust are numbers.
pub open spec fn numbers_in_healing(o: PipelineOptions) -> bool {
    &&& is_number(o.bujack_k_l)
    &&& is_number(o.bujack_k_c)
    &&& is_number(o.bujack_strength)
    &&& is_number(o.bujack_radius)
    &&& is_number(o.bujack_edge)
    &&& (o.pinned_zone matches Some(v) ==> is_number(v.d_p33) && is_number(v.d_p66))
    &&& numbers_in_strokes(o.dust_strokes@)
    &&& (o.dust_uv matches Some(v) ==> is_number(v.0) && is_number(v.1) && is_number(v.2)
        && is_number(v.3))
    &&& numbers_in_heal(o.dust_heal)
}

/// All that the settings count are numbers.
pub open spec fn numbers_in(o: PipelineOptions) -> bool {
    &&& numbers_in_base(o)
    &&& numbers_in_balance(o)
    &&& numbers_in_print(o)
    &&& numbers_in_zones(o)
    &&& numbers_in_finish(o)
    &&& numbers_in_healing(o)
}

pub open spec fn is_number(v: Single) -> bool {
    !v.not_a_number()
}

pub open spec fn numbers_in_matrix(m: [[Single; 3]; 3]) -> bool {
    forall|i: int, j: int| 0 <= i < 3 && 0 <= j < 3 ==> is_number(#[trigger] m@[i]@[j])
}

pub open spec fn numbers_in_heal(h: DustHealParams) -> bool {
    &&& is_number(h.detect)
    &&& is_number(h.feather)
    &&& is_number(h.grain)
    &&& is_number(h.grain_sigma)
    &&& is_number(h.match_loosen)
}

pub open spec fn numbers_in_strokes(s: Seq<DustStroke>) -> bool {
    forall|i: int| #![trigger s[i]]
        0 <= i < s.len() ==> is_number(s[i].radius) && forall|k: int| #![trigger s[i].points@[k]]
            0 <= k < s[i].points@.len() ==> is_number(s[i].points@[k].0) && is_number(
                s[i].points@[k].1,
            )
}

/// All that a project counts are numbers.
pub open spec fn numbers_in_project(a: Seq<ProjectImage>) -> bool {
    forall|i: int| #![trigger a[i]]
        0 <= i < a.len() ==> {
            &&& numbers_in(a[i].options)
            &&& (a[i].dust matches Some(d) ==> numbers_in_strokes(d.strokes@) && numbers_in_heal(
                d.heal,
            ) && is_number(d.brush_radius))
        }
}

proof fn lemma_matrix_with_itself(m: [[Single; 3]; 3])
    requires
        numbers_in_matrix(m),
    ensures
        same_matrix(m, m),
{
    reveal(Single::at_most_spec);
}

proof fn lemma_base_with_itself(o: PipelineOptions)
    requires
        numbers_in_base(o),
    ensures
        same_base(o, o),
{
    reveal(Single::at_most_spec);
}

proof fn lemma_balance_with_itself(o: PipelineOptions)
    requires
        numbers_in_balance(o),
    ensures
        same_balance(o, o),
{
    reveal(Single::at_most_spec);
    lemma_matrix_with_itself(o.density_matrix);
    lemma_matrix_with_itself(o.idt_matrix);
}

proof fn lemma_print_with_itself(o: PipelineOptions)
    requires
        numbers_in_print(o),
    ensures
        same_print(o, o),
{
    reveal(Single::at_most_spec);
}

proof fn lemma_zones_with_itself(o: PipelineOptions)
    requires
        numbers_in_zones(o),
    ensures
        same_zones(o, o),
{
    reveal(Single::at_most_spec);
}

proof fn lemma_finish_with_itself(o: PipelineOptions)
    requires
        numbers_in_finish(o),
    ensures
        same_finish(o, o),
{
    reveal(Single::at_most_spec);
}

proof fn lemma_healing_with_itself(o: PipelineOptions)
    requires
        numbers_in_healing(o),
    ensures
        same_healing(o, o),
{
    reveal(Single::at_most_spec);
}

proof fn lemma_output_with_itself(o: PipelineOptions)
    ensures
        same_output(o, o),
{
    reveal(Single::at_most_spec);
}

/// A project of numbers that was saved, or just opened, holds no changes: it is the same as
/// itself.
pub proof fn a_saved_project_is_clean(a: Seq<ProjectImage>)
    requires
        numbers_in_project(a),
    ensures
        same_project(a, a),
{
    assert forall|i: int| 0 <= i < a.len() implies same_picture(#[trigger] a[i], a[i]) by {
        let o = a[i].options;
        lemma_base_with_itself(o);
        lemma_balance_with_itself(o);
        lemma_print_with_itself(o);
        lemma_zones_with_itself(o);
        lemma_finish_with_itself(o);
        lemma_healing_with_itself(o);
        lemma_output_with_itself(o);
        reveal(Single::at_most_spec);
    }
}

} // verus!
