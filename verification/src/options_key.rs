//! What a preview depends on, as a list of words, and the hash by which previews are told
//! apart.
//!
//! The crop is not among the words: it is drawn over the preview and bounds its histogram,
//! but no pixel depends on it.

use vstd::prelude::*;
use std::collections::hash_map::DefaultHasher;
use std::hash::Hasher;
use crate::options::{
    DminMode, DustInfill, OutputLutEncoding, OutputStage, PipelineOptions, Rect, TiffFormat, WbMode,
};
use crate::single::Single;

verus! {

pub open spec fn yes_no(b: bool) -> u64 {
    if b {
        1
    } else {
        0
    }
}

fn yes_no_word(b: bool) -> (r: u64)
    ensures
        r == yes_no(b),
{
    if b {
        1
    } else {
        0
    }
}

/// A turn as a word.
pub open spec fn turn_word(rot: i32) -> u64 {
    (rot + 0x8000_0000) as u64
}

fn turn(rot: i32) -> (r: u64)
    ensures
        r == turn_word(rot),
{
    (rot as i64 + 0x8000_0000) as u64
}

pub open spec fn dmin_word(m: DminMode) -> u64 {
    match m {
        DminMode::AutoPercentile => 0,
        DminMode::SampleRegion => 1,
        DminMode::Fixed => 2,
        DminMode::Off => 3,
    }
}

fn of_dmin(m: DminMode) -> (r: u64)
    ensures
        r == dmin_word(m),
{
    match m {
        DminMode::AutoPercentile => 0,
        DminMode::SampleRegion => 1,
        DminMode::Fixed => 2,
        DminMode::Off => 3,
    }
}

pub open spec fn wb_word(m: WbMode) -> u64 {
    match m {
        WbMode::Auto => 0,
        WbMode::Manual => 1,
        WbMode::Picker => 2,
        WbMode::Unset => 3,
    }
}

fn of_wb(m: WbMode) -> (r: u64)
    ensures
        r == wb_word(m),
{
    match m {
        WbMode::Auto => 0,
        WbMode::Manual => 1,
        WbMode::Picker => 2,
        WbMode::Unset => 3,
    }
}

pub open spec fn depth_word(m: TiffFormat) -> u64 {
    match m {
        TiffFormat::Float32 => 0,
        TiffFormat::U16 => 1,
    }
}

fn of_depth(m: TiffFormat) -> (r: u64)
    ensures
        r == depth_word(m),
{
    match m {
        TiffFormat::Float32 => 0,
        TiffFormat::U16 => 1,
    }
}

pub open spec fn stage_word(m: OutputStage) -> u64 {
    match m {
        OutputStage::Bare => 0,
        OutputStage::Ra4 => 1,
        OutputStage::FilmPrint => 2,
        OutputStage::Lut2383 => 3,
    }
}

fn of_stage(m: OutputStage) -> (r: u64)
    ensures
        r == stage_word(m),
{
    match m {
        OutputStage::Bare => 0,
        OutputStage::Ra4 => 1,
        OutputStage::FilmPrint => 2,
        OutputStage::Lut2383 => 3,
    }
}

pub open spec fn encoding_word(m: OutputLutEncoding) -> u64 {
    match m {
        OutputLutEncoding::CineonLog => 0,
        OutputLutEncoding::LinearDensity => 1,
        OutputLutEncoding::Rec709 => 2,
    }
}

fn of_encoding(m: OutputLutEncoding) -> (r: u64)
    ensures
        r == encoding_word(m),
{
    match m {
        OutputLutEncoding::CineonLog => 0,
        OutputLutEncoding::LinearDensity => 1,
        OutputLutEncoding::Rec709 => 2,
    }
}

pub open spec fn infill_word(m: DustInfill) -> u64 {
    match m {
        DustInfill::PatchMatch => 0,
        DustInfill::Telea => 1,
        DustInfill::WaveFunction => 2,
    }
}

fn of_infill(m: DustInfill) -> (r: u64)
    ensures
        r == infill_word(m),
{
    match m {
        DustInfill::PatchMatch => 0,
        DustInfill::Telea => 1,
        DustInfill::WaveFunction => 2,
    }
}

/// A text: how many characters it has, and each of them.
pub open spec fn text_words(t: Seq<char>) -> Seq<u64> {
    seq![t.len() as u64] + t.map_values(|c: char| (c as u32) as u64)
}

fn push_text(out: &mut Vec<u64>, t: &str)
    requires
        t@.len() <= u64::MAX,
    ensures
        final(out)@ == old(out)@ + text_words(t@),
{
    let ghost start = out@;
    let mut n: u64 = 0;
    for c in it: t.chars()
        invariant
            it.seq() == t@,
            t@.len() <= u64::MAX,
            n == it.index(),
    {
        n = n + 1;
    }
    out.push(n);
    let ghost word = |c: char| (c as u32) as u64;
    for c in it: t.chars()
        invariant
            it.seq() == t@,
            word == (|c: char| (c as u32) as u64),
            out@ == start + seq![t@.len() as u64] + t@.take(it.index() as int).map_values(word),
    {
        let ghost i = it.index() as int;
        out.push(c as u32 as u64);
        proof {
            assert(c == t@[i]);
            assert(t@.take(i + 1) =~= t@.take(i).push(c));
            assert(t@.take(i + 1).map_values(word) =~= t@.take(i).map_values(word).push(word(c)));
        }
    }
    assert(t@.take(t@.len() as int) =~= t@);
    assert(out@ =~= start + text_words(t@));
}

/// A text that may be missing.
pub open spec fn maybe_text_words(t: Option<String>) -> Seq<u64> {
    match t {
        None => seq![0u64],
        Some(s) => seq![1u64] + text_words(s@),
    }
}

fn push_maybe_text(out: &mut Vec<u64>, t: &Option<String>)
    requires
        t is Some ==> t->0@.len() <= u64::MAX,
    ensures
        final(out)@ == old(out)@ + maybe_text_words(*t),
{
    let ghost start = out@;
    match t {
        None => {
            out.push(0);
        },
        Some(s) => {
            out.push(1);
            push_text(out, s.as_str());
        },
    }
    assert(out@ =~= start + maybe_text_words(*t));
}

pub open spec fn rect_words(r: Option<Rect>) -> Seq<u64> {
    match r {
        None => seq![0u64],
        Some(r) => seq![1u64, r.x as u64, r.y as u64, r.width as u64, r.height as u64],
    }
}

fn push_rect(out: &mut Vec<u64>, r: Option<Rect>)
    ensures
        final(out)@ == old(out)@ + rect_words(r),
{
    let ghost start = out@;
    match r {
        None => {
            out.push(0);
        },
        Some(r) => {
            out.push(1);
            out.push(r.x as u64);
            out.push(r.y as u64);
            out.push(r.width as u64);
            out.push(r.height as u64);
        },
    }
    assert(out@ =~= start + rect_words(r));
}

pub open spec fn size_words(s: Option<(u32, u32)>) -> Seq<u64> {
    match s {
        None => seq![0u64],
        Some((w, h)) => seq![1u64, w as u64, h as u64],
    }
}

fn push_size(out: &mut Vec<u64>, s: Option<(u32, u32)>)
    ensures
        final(out)@ == old(out)@ + size_words(s),
{
    let ghost start = out@;
    match s {
        None => {
            out.push(0);
        },
        Some((w, h)) => {
            out.push(1);
            out.push(w as u64);
            out.push(h as u64);
        },
    }
    assert(out@ =~= start + size_words(s));
}

pub open spec fn fixed_words(f: Option<(Single, Single, Single)>) -> Seq<u64> {
    match f {
        None => seq![0u64],
        Some((r, g, b)) => seq![1u64, r.bits as u64, g.bits as u64, b.bits as u64],
    }
}

fn push_fixed(out: &mut Vec<u64>, f: Option<(Single, Single, Single)>)
    ensures
        final(out)@ == old(out)@ + fixed_words(f),
{
    let ghost start = out@;
    match f {
        None => {
            out.push(0);
        },
        Some((r, g, b)) => {
            out.push(1);
            out.push(r.bits as u64);
            out.push(g.bits as u64);
            out.push(b.bits as u64);
        },
    }
    assert(out@ =~= start + fixed_words(f));
}

pub open spec fn kelvin_words(k: Option<Single>) -> Seq<u64> {
    match k {
        None => seq![0u64],
        Some(k) => seq![1u64, k.bits as u64],
    }
}

fn push_kelvin(out: &mut Vec<u64>, k: Option<Single>)
    ensures
        final(out)@ == old(out)@ + kelvin_words(k),
{
    let ghost start = out@;
    match k {
        None => {
            out.push(0);
        },
        Some(k) => {
            out.push(1);
            out.push(k.bits as u64);
        },
    }
    assert(out@ =~= start + kelvin_words(k));
}

/// A matrix, row by row.
pub open spec fn matrix_words(m: [[Single; 3]; 3]) -> Seq<u64> {
    Seq::new(9, |i: int| m@[i / 3]@[i % 3].bits as u64)
}

fn push_matrix(out: &mut Vec<u64>, m: &[[Single; 3]; 3])
    ensures
        final(out)@ == old(out)@ + matrix_words(*m),
{
    let ghost start = out@;
    let mut i: usize = 0;
    while i < 9
        invariant
            i <= 9,
            out@ == start + matrix_words(*m).take(i as int),
        decreases 9 - i,
    {
        out.push(m[i / 3][i % 3].bits as u64);
        assert(matrix_words(*m).take(i + 1) =~= matrix_words(*m).take(i as int).push(
            matrix_words(*m)[i as int],
        ));
        i = i + 1;
    }
    assert(matrix_words(*m).take(9) =~= matrix_words(*m));
}

fn push_words(out: &mut Vec<u64>, words: &[u64])
    ensures
        final(out)@ == old(out)@ + words@,
{
    let ghost start = out@;
    let mut i: usize = 0;
    while i < words.len()
        invariant
            i <= words.len(),
            out@ == start + words@.take(i as int),
        decreases words.len() - i,
    {
        out.push(words[i]);
        assert(words@.take(i + 1) =~= words@.take(i as int).push(words@[i as int]));
        i = i + 1;
    }
    assert(words@.take(i as int) =~= words@);
}

/// Settings of the input stage.
#[verifier::opaque]
pub open spec fn input_words(o: PipelineOptions) -> Seq<u64> {
    seq![
        dmin_word(o.dmin_mode),
        o.auto_norm_buffer.bits as u64,
        yes_no(o.apply_white_balance),
        wb_word(o.wb_mode),
        yes_no(o.auto_wb),
        o.film_gamma.bits as u64,
        o.saturation.bits as u64,
        o.highlight_warmth.bits as u64,
        yes_no(o.apply_lab),
        o.lab_separation.bits as u64,
        o.skin_magenta_shift.bits as u64,
        yes_no(o.apply_color_profile),
    ]
}

fn push_input_words(out: &mut Vec<u64>, o: &PipelineOptions)
    ensures
        final(out)@ == old(out)@ + input_words(*o),
{
    reveal(input_words);
    push_words(
        out,
        &[
            of_dmin(o.dmin_mode),
            o.auto_norm_buffer.bits as u64,
            yes_no_word(o.apply_white_balance),
            of_wb(o.wb_mode),
            yes_no_word(o.auto_wb),
            o.film_gamma.bits as u64,
            o.saturation.bits as u64,
            o.highlight_warmth.bits as u64,
            yes_no_word(o.apply_lab),
            o.lab_separation.bits as u64,
            o.skin_magenta_shift.bits as u64,
            yes_no_word(o.apply_color_profile),
        ],
    );
}

/// The settings agree in all that these words hold.
pub open spec fn same_input_words(o: PipelineOptions, m: PipelineOptions) -> bool {
    &&& o.dmin_mode == m.dmin_mode
    &&& o.auto_norm_buffer == m.auto_norm_buffer
    &&& o.apply_white_balance == m.apply_white_balance
    &&& o.wb_mode == m.wb_mode
    &&& o.auto_wb == m.auto_wb
    &&& o.film_gamma == m.film_gamma
    &&& o.saturation == m.saturation
    &&& o.highlight_warmth == m.highlight_warmth
    &&& o.apply_lab == m.apply_lab
    &&& o.lab_separation == m.lab_separation
    &&& o.skin_magenta_shift == m.skin_magenta_shift
    &&& o.apply_color_profile == m.apply_color_profile
}

proof fn lemma_input_words(o: PipelineOptions, m: PipelineOptions)
    ensures
        input_words(o).len() == 12,
        input_words(o) == input_words(m) <==> same_input_words(o, m),
{
    reveal(input_words);
}

/// White balance gains.
#[verifier::opaque]
pub open spec fn balance_words(o: PipelineOptions) -> Seq<u64> {
    seq![
        o.wb_r.bits as u64,
        o.wb_g.bits as u64,
        o.wb_b.bits as u64,
    ]
}

fn push_balance_words(out: &mut Vec<u64>, o: &PipelineOptions)
    ensures
        final(out)@ == old(out)@ + balance_words(*o),
{
    reveal(balance_words);
    push_words(
        out,
        &[
            o.wb_r.bits as u64,
            o.wb_g.bits as u64,
            o.wb_b.bits as u64,
        ],
    );
}

/// The settings agree in all that these words hold.
pub open spec fn same_balance_words(o: PipelineOptions, m: PipelineOptions) -> bool {
    &&& o.wb_r == m.wb_r
    &&& o.wb_g == m.wb_g
    &&& o.wb_b == m.wb_b
}

proof fn lemma_balance_words(o: PipelineOptions, m: PipelineOptions)
    ensures
        balance_words(o).len() == 3,
        balance_words(o) == balance_words(m) <==> same_balance_words(o, m),
{
    reveal(balance_words);
}

/// Settings of the print curve and of what is written.
#[verifier::opaque]
pub open spec fn print_words(o: PipelineOptions) -> Seq<u64> {
    seq![
        yes_no(o.no_curve),
        yes_no(o.no_invert),
        yes_no(o.synthetic_negative_input),
        o.curve_offset.bits as u64,
        o.curve_gamma.bits as u64,
        o.curve_pivot.bits as u64,
        o.curve_white.bits as u64,
        depth_word(o.format),
        yes_no(o.write_exr),
        yes_no(o.write_jpeg),
        yes_no(o.write_jpeg_only),
    ]
}

fn push_print_words(out: &mut Vec<u64>, o: &PipelineOptions)
    ensures
        final(out)@ == old(out)@ + print_words(*o),
{
    reveal(print_words);
    push_words(
        out,
        &[
            yes_no_word(o.no_curve),
            yes_no_word(o.no_invert),
            yes_no_word(o.synthetic_negative_input),
            o.curve_offset.bits as u64,
            o.curve_gamma.bits as u64,
            o.curve_pivot.bits as u64,
            o.curve_white.bits as u64,
            of_depth(o.format),
            yes_no_word(o.write_exr),
            yes_no_word(o.write_jpeg),
            yes_no_word(o.write_jpeg_only),
        ],
    );
}

/// The settings agree in all that these words hold.
pub open spec fn same_print_words(o: PipelineOptions, m: PipelineOptions) -> bool {
    &&& o.no_curve == m.no_curve
    &&& o.no_invert == m.no_invert
    &&& o.synthetic_negative_input == m.synthetic_negative_input
    &&& o.curve_offset == m.curve_offset
    &&& o.curve_gamma == m.curve_gamma
    &&& o.curve_pivot == m.curve_pivot
    &&& o.curve_white == m.curve_white
    &&& o.format == m.format
    &&& o.write_exr == m.write_exr
    &&& o.write_jpeg == m.write_jpeg
    &&& o.write_jpeg_only == m.write_jpeg_only
}

proof fn lemma_print_words(o: PipelineOptions, m: PipelineOptions)
    ensures
        print_words(o).len() == 11,
        print_words(o) == print_words(m) <==> same_print_words(o, m),
{
    reveal(print_words);
}

/// Settings of archival exports.
#[verifier::opaque]
pub open spec fn aces_words(o: PipelineOptions) -> Seq<u64> {
    seq![
        yes_no(o.export_aces_exr),
        yes_no(o.write_aces2065_only),
    ]
}

fn push_aces_words(out: &mut Vec<u64>, o: &PipelineOptions)
    ensures
        final(out)@ == old(out)@ + aces_words(*o),
{
    reveal(aces_words);
    push_words(
        out,
        &[
            yes_no_word(o.export_aces_exr),
            yes_no_word(o.write_aces2065_only),
        ],
    );
}

/// The settings agree in all that these words hold.
pub open spec fn same_aces_words(o: PipelineOptions, m: PipelineOptions) -> bool {
    &&& o.export_aces_exr == m.export_aces_exr
    &&& o.write_aces2065_only == m.write_aces2065_only
}

proof fn lemma_aces_words(o: PipelineOptions, m: PipelineOptions)
    ensures
        aces_words(o).len() == 2,
        aces_words(o) == aces_words(m) <==> same_aces_words(o, m),
{
    reveal(aces_words);
}

/// Levels and film print.
#[verifier::opaque]
pub open spec fn level_words(o: PipelineOptions) -> Seq<u64> {
    seq![
        encoding_word(o.output_lut_encoding),
        o.lut_in_black.bits as u64,
        o.lut_in_white.bits as u64,
        o.lut_in_mid.bits as u64,
        o.soft_clip.bits as u64,
        o.toe_strength.bits as u64,
        o.shoulder_strength.bits as u64,
        o.fp_offset_r.bits as u64,
        o.fp_offset_g.bits as u64,
        o.fp_offset_b.bits as u64,
        o.fp_gamma_r.bits as u64,
        o.fp_gamma_g.bits as u64,
        o.fp_gamma_b.bits as u64,
        o.fp_color_bleed.bits as u64,
        o.fp_vibrance.bits as u64,
    ]
}

fn push_level_words(out: &mut Vec<u64>, o: &PipelineOptions)
    ensures
        final(out)@ == old(out)@ + level_words(*o),
{
    reveal(level_words);
    push_words(
        out,
        &[
            of_encoding(o.output_lut_encoding),
            o.lut_in_black.bits as u64,
            o.lut_in_white.bits as u64,
            o.lut_in_mid.bits as u64,
            o.soft_clip.bits as u64,
            o.toe_strength.bits as u64,
            o.shoulder_strength.bits as u64,
            o.fp_offset_r.bits as u64,
            o.fp_offset_g.bits as u64,
            o.fp_offset_b.bits as u64,
            o.fp_gamma_r.bits as u64,
            o.fp_gamma_g.bits as u64,
            o.fp_gamma_b.bits as u64,
            o.fp_color_bleed.bits as u64,
            o.fp_vibrance.bits as u64,
        ],
    );
}

/// The settings agree in all that these words hold.
pub open spec fn same_level_words(o: PipelineOptions, m: PipelineOptions) -> bool {
    &&& o.output_lut_encoding == m.output_lut_encoding
    &&& o.lut_in_black == m.lut_in_black
    &&& o.lut_in_white == m.lut_in_white
    &&& o.lut_in_mid == m.lut_in_mid
    &&& o.soft_clip == m.soft_clip
    &&& o.toe_strength == m.toe_strength
    &&& o.shoulder_strength == m.shoulder_strength
    &&& o.fp_offset_r == m.fp_offset_r
    &&& o.fp_offset_g == m.fp_offset_g
    &&& o.fp_offset_b == m.fp_offset_b
    &&& o.fp_gamma_r == m.fp_gamma_r
    &&& o.fp_gamma_g == m.fp_gamma_g
    &&& o.fp_gamma_b == m.fp_gamma_b
    &&& o.fp_color_bleed == m.fp_color_bleed
    &&& o.fp_vibrance == m.fp_vibrance
}

proof fn lemma_level_words(o: PipelineOptions, m: PipelineOptions)
    ensures
        level_words(o).len() == 15,
        level_words(o) == level_words(m) <==> same_level_words(o, m),
{
    reveal(level_words);
}

/// Settings by density zone.
#[verifier::opaque]
pub open spec fn zone_words(o: PipelineOptions) -> Seq<u64> {
    seq![
        o.shadow_cast_strength.bits as u64,
        o.zone_shadows.bits as u64,
        o.zone_highlights.bits as u64,
        o.zone_shadow_gain.bits as u64,
        o.zone_mid_gain.bits as u64,
        o.zone_highlight_gain.bits as u64,
        o.color_shadow_gain_r.bits as u64,
        o.color_shadow_gain_g.bits as u64,
        o.color_shadow_gain_b.bits as u64,
        o.color_mid_gain_r.bits as u64,
        o.color_mid_gain_g.bits as u64,
        o.color_mid_gain_b.bits as u64,
        o.color_highlight_gain_r.bits as u64,
        o.color_highlight_gain_g.bits as u64,
        o.color_highlight_gain_b.bits as u64,
        o.zone_shadow_saturation.bits as u64,
        o.zone_mid_saturation.bits as u64,
        o.zone_highlight_saturation.bits as u64,
        o.highlight_rolloff.bits as u64,
        o.highlight_rolloff_d_mid.bits as u64,
    ]
}

fn push_zone_words(out: &mut Vec<u64>, o: &PipelineOptions)
    ensures
        final(out)@ == old(out)@ + zone_words(*o),
{
    reveal(zone_words);
    push_words(
        out,
        &[
            o.shadow_cast_strength.bits as u64,
            o.zone_shadows.bits as u64,
            o.zone_highlights.bits as u64,
            o.zone_shadow_gain.bits as u64,
            o.zone_mid_gain.bits as u64,
            o.zone_highlight_gain.bits as u64,
            o.color_shadow_gain_r.bits as u64,
            o.color_shadow_gain_g.bits as u64,
            o.color_shadow_gain_b.bits as u64,
            o.color_mid_gain_r.bits as u64,
            o.color_mid_gain_g.bits as u64,
            o.color_mid_gain_b.bits as u64,
            o.color_highlight_gain_r.bits as u64,
            o.color_highlight_gain_g.bits as u64,
            o.color_highlight_gain_b.bits as u64,
            o.zone_shadow_saturation.bits as u64,
            o.zone_mid_saturation.bits as u64,
            o.zone_highlight_saturation.bits as u64,
            o.highlight_rolloff.bits as u64,
            o.highlight_rolloff_d_mid.bits as u64,
        ],
    );
}

/// The settings agree in all that these words hold.
pub open spec fn same_zone_words(o: PipelineOptions, m: PipelineOptions) -> bool {
    &&& o.shadow_cast_strength == m.shadow_cast_strength
    &&& o.zone_shadows == m.zone_shadows
    &&& o.zone_highlights == m.zone_highlights
    &&& o.zone_shadow_gain == m.zone_shadow_gain
    &&& o.zone_mid_gain == m.zone_mid_gain
    &&& o.zone_highlight_gain == m.zone_highlight_gain
    &&& o.color_shadow_gain_r == m.color_shadow_gain_r
    &&& o.color_shadow_gain_g == m.color_shadow_gain_g
    &&& o.color_shadow_gain_b == m.color_shadow_gain_b
    &&& o.color_mid_gain_r == m.color_mid_gain_r
    &&& o.color_mid_gain_g == m.color_mid_gain_g
    &&& o.color_mid_gain_b == m.color_mid_gain_b
    &&& o.color_highlight_gain_r == m.color_highlight_gain_r
    &&& o.color_highlight_gain_g == m.color_highlight_gain_g
    &&& o.color_highlight_gain_b == m.color_highlight_gain_b
    &&& o.zone_shadow_saturation == m.zone_shadow_saturation
    &&& o.zone_mid_saturation == m.zone_mid_saturation
    &&& o.zone_highlight_saturation == m.zone_highlight_saturation
    &&& o.highlight_rolloff == m.highlight_rolloff
    &&& o.highlight_rolloff_d_mid == m.highlight_rolloff_d_mid
}

proof fn lemma_zone_words(o: PipelineOptions, m: PipelineOptions)
    ensures
        zone_words(o).len() == 20,
        zone_words(o) == zone_words(m) <==> same_zone_words(o, m),
{
    reveal(zone_words);
}

/// Orientation, debugging, local contrast and dust.
#[verifier::opaque]
pub open spec fn view_words(o: PipelineOptions) -> Seq<u64> {
    seq![
        turn_word(o.rotation_degrees),
        yes_no(o.flip_horizontal),
        yes_no(o.flip_vertical),
        o.debug_pipeline_step as u64,
        yes_no(o.debug_preview_simple_debayer),
        yes_no(o.verbose_debug),
        yes_no(o.use_gpu),
        yes_no(o.bujack_enabled),
        o.bujack_k_l.bits as u64,
        o.bujack_k_c.bits as u64,
        o.bujack_strength.bits as u64,
        o.bujack_radius.bits as u64,
        o.bujack_edge.bits as u64,
        o.dust_mask_hash,
        o.dust_heal.detect.bits as u64,
        o.dust_heal.feather.bits as u64,
        o.dust_heal.grain.bits as u64,
        o.dust_heal.grain_sigma.bits as u64,
        infill_word(o.dust_heal.infill),
        o.dust_heal.tile as u64,
        o.dust_heal.match_loosen.bits as u64,
    ]
}

fn push_view_words(out: &mut Vec<u64>, o: &PipelineOptions)
    ensures
        final(out)@ == old(out)@ + view_words(*o),
{
    reveal(view_words);
    push_words(
        out,
        &[
            turn(o.rotation_degrees),
            yes_no_word(o.flip_horizontal),
            yes_no_word(o.flip_vertical),
            o.debug_pipeline_step as u64,
            yes_no_word(o.debug_preview_simple_debayer),
            yes_no_word(o.verbose_debug),
            yes_no_word(o.use_gpu),
            yes_no_word(o.bujack_enabled),
            o.bujack_k_l.bits as u64,
            o.bujack_k_c.bits as u64,
            o.bujack_strength.bits as u64,
            o.bujack_radius.bits as u64,
            o.bujack_edge.bits as u64,
            o.dust_mask_hash,
            o.dust_heal.detect.bits as u64,
            o.dust_heal.feather.bits as u64,
            o.dust_heal.grain.bits as u64,
            o.dust_heal.grain_sigma.bits as u64,
            of_infill(o.dust_heal.infill),
            o.dust_heal.tile as u64,
            o.dust_heal.match_loosen.bits as u64,
        ],
    );
}

/// The settings agree in all that these words hold.
pub open spec fn same_view_words(o: PipelineOptions, m: PipelineOptions) -> bool {
    &&& o.rotation_degrees == m.rotation_degrees
    &&& o.flip_horizontal == m.flip_horizontal
    &&& o.flip_vertical == m.flip_vertical
    &&& o.debug_pipeline_step == m.debug_pipeline_step
    &&& o.debug_preview_simple_debayer == m.debug_preview_simple_debayer
    &&& o.verbose_debug == m.verbose_debug
    &&& o.use_gpu == m.use_gpu
    &&& o.bujack_enabled == m.bujack_enabled
    &&& o.bujack_k_l == m.bujack_k_l
    &&& o.bujack_k_c == m.bujack_k_c
    &&& o.bujack_strength == m.bujack_strength
    &&& o.bujack_radius == m.bujack_radius
    &&& o.bujack_edge == m.bujack_edge
    &&& o.dust_mask_hash == m.dust_mask_hash
    &&& o.dust_heal.detect == m.dust_heal.detect
    &&& o.dust_heal.feather == m.dust_heal.feather
    &&& o.dust_heal.grain == m.dust_heal.grain
    &&& o.dust_heal.grain_sigma == m.dust_heal.grain_sigma
    &&& o.dust_heal.infill == m.dust_heal.infill
    &&& o.dust_heal.tile == m.dust_heal.tile
    &&& o.dust_heal.match_loosen == m.dust_heal.match_loosen
}

proof fn lemma_view_words(o: PipelineOptions, m: PipelineOptions)
    ensures
        view_words(o).len() == 21,
        view_words(o) == view_words(m) <==> same_view_words(o, m),
{
    reveal(view_words);
}

/// The words for what follows the print settings.
pub open spec fn output_words(o: PipelineOptions) -> Seq<u64> {
    maybe_text_words(o.flat_field_path) + (aces_words(o) + (maybe_text_words(o.lut3d_path) + (
    seq![stage_word(o.output_stage)] + (maybe_text_words(o.output_lut_cube) + (level_words(o) + (
    zone_words(o) + view_words(o)))))))
}

/// All that a preview of the picture at `path` depends on.
pub open spec fn key_words(path: Seq<char>, o: PipelineOptions) -> Seq<u64> {
    text_words(path) + (input_words(o) + (rect_words(o.dmin_rect) + (seq![
        yes_no(o.dmin_neutral_only),
    ] + (fixed_words(o.dmin_fixed) + (balance_words(o) + (kelvin_words(o.temp_k) + (print_words(o)
        + (matrix_words(o.density_matrix) + (matrix_words(o.idt_matrix) + output_words(o))))))))))
}

/// The texts in the settings can be counted.
pub open spec fn countable(o: PipelineOptions) -> bool {
    &&& o.flat_field_path is Some ==> o.flat_field_path->0@.len() <= u64::MAX
    &&& o.lut3d_path is Some ==> o.lut3d_path->0@.len() <= u64::MAX
    &&& o.output_lut_cube is Some ==> o.output_lut_cube->0@.len() <= u64::MAX
}

/// The words of the settings for a picture.
pub fn options_key(path: &str, o: &PipelineOptions) -> (r: Vec<u64>)
    requires
        path@.len() <= u64::MAX,
        countable(*o),
    ensures
        r@ == key_words(path@, *o),
{
    let mut out: Vec<u64> = Vec::new();
    push_text(&mut out, path);
    let ghost p0 = out@;
    push_input_words(&mut out, o);
    let ghost p1 = out@;
    push_rect(&mut out, o.dmin_rect);
    let ghost p2 = out@;
    out.push(yes_no_word(o.dmin_neutral_only));
    let ghost p3 = out@;
    push_fixed(&mut out, o.dmin_fixed);
    let ghost p4 = out@;
    push_balance_words(&mut out, o);
    let ghost p5 = out@;
    push_kelvin(&mut out, o.temp_k);
    let ghost p6 = out@;
    push_print_words(&mut out, o);
    let ghost p7 = out@;
    push_matrix(&mut out, &o.density_matrix);
    let ghost p8 = out@;
    push_matrix(&mut out, &o.idt_matrix);
    let ghost p9 = out@;
    push_output(&mut out, o);
    proof {
        let x9 = output_words(*o);
        let x8 = matrix_words(o.idt_matrix) + x9;
        let x7 = matrix_words(o.density_matrix) + x8;
        let x6 = print_words(*o) + x7;
        let x5 = kelvin_words(o.temp_k) + x6;
        let x4 = balance_words(*o) + x5;
        let x3 = fixed_words(o.dmin_fixed) + x4;
        let x2 = seq![yes_no(o.dmin_neutral_only)] + x3;
        let x1 = rect_words(o.dmin_rect) + x2;
        let x0 = input_words(*o) + x1;
        lemma_join(p8, matrix_words(o.idt_matrix), x9);
        lemma_join(p7, matrix_words(o.density_matrix), x8);
        lemma_join(p6, print_words(*o), x7);
        lemma_join(p5, kelvin_words(o.temp_k), x6);
        lemma_join(p4, balance_words(*o), x5);
        lemma_join(p3, fixed_words(o.dmin_fixed), x4);
        assert(p3 =~= p2 + seq![yes_no(o.dmin_neutral_only)]);
        lemma_join(p2, seq![yes_no(o.dmin_neutral_only)], x3);
        lemma_join(p1, rect_words(o.dmin_rect), x2);
        lemma_join(p0, input_words(*o), x1);
        assert(p0 =~= text_words(path@));
    }
    out
}

fn push_output(out: &mut Vec<u64>, o: &PipelineOptions)
    requires
        countable(*o),
    ensures
        final(out)@ == old(out)@ + output_words(*o),
{
    let ghost p0 = out@;
    push_maybe_text(out, &o.flat_field_path);
    let ghost p1 = out@;
    push_aces_words(out, o);
    let ghost p2 = out@;
    push_maybe_text(out, &o.lut3d_path);
    let ghost p3 = out@;
    out.push(of_stage(o.output_stage));
    let ghost p4 = out@;
    push_maybe_text(out, &o.output_lut_cube);
    let ghost p5 = out@;
    push_level_words(out, o);
    let ghost p6 = out@;
    push_zone_words(out, o);
    let ghost p7 = out@;
    push_view_words(out, o);
    proof {
        let x7 = view_words(*o);
        let x6 = zone_words(*o) + x7;
        let x5 = level_words(*o) + x6;
        let x4 = maybe_text_words(o.output_lut_cube) + x5;
        let x3 = seq![stage_word(o.output_stage)] + x4;
        let x2 = maybe_text_words(o.lut3d_path) + x3;
        let x1 = aces_words(*o) + x2;
        lemma_join(p6, zone_words(*o), x7);
        lemma_join(p5, level_words(*o), x6);
        lemma_join(p4, maybe_text_words(o.output_lut_cube), x5);
        assert(p4 =~= p3 + seq![stage_word(o.output_stage)]);
        lemma_join(p3, seq![stage_word(o.output_stage)], x4);
        lemma_join(p2, maybe_text_words(o.lut3d_path), x3);
        lemma_join(p1, aces_words(*o), x2);
        lemma_join(p0, maybe_text_words(o.flat_field_path), x1);
    }
}

proof fn lemma_join(a: Seq<u64>, b: Seq<u64>, c: Seq<u64>)
    ensures
        (a + b) + c == a + (b + c),
{
    assert((a + b) + c =~= a + (b + c));
}

/// The hash of some words: each is written as its eight bytes, the lowest first.
pub open spec fn digest(words: Seq<u64>) -> u64 {
    <DefaultHasher as vstd::std_specs::hash::DefaultHasherAdditionalSpecFns>::spec_finish(
        words.map_values(|w: u64| vstd::bytes::spec_u64_to_le_bytes(w)),
    )
}

fn hash_words(words: &Vec<u64>) -> (r: u64)
    ensures
        r == digest(words@),
{
    let mut h: DefaultHasher = DefaultHasher::new();
    let ghost bytes = |w: u64| vstd::bytes::spec_u64_to_le_bytes(w);
    let mut i: usize = 0;
    while i < words.len()
        invariant
            i <= words.len(),
            bytes == (|w: u64| vstd::bytes::spec_u64_to_le_bytes(w)),
            h@ =~= words@.take(i as int).map_values(bytes),
        decreases words.len() - i,
    {
        let b: Vec<u8> = vstd::bytes::u64_to_le_bytes(words[i]);
        h.write(b.as_slice());
        assert(words@.take(i + 1) =~= words@.take(i as int).push(words@[i as int]));
        i = i + 1;
    }
    assert(words@.take(words.len() as int) =~= words@);
    h.finish()
}

/// Hash of the settings for a picture.
pub fn options_hash_for(path: &str, opts: &PipelineOptions) -> (r: u64)
    requires
        path@.len() <= u64::MAX,
        countable(*opts),
    ensures
        r == digest(key_words(path@, *opts)),
{
    let words: Vec<u64> = options_key(path, opts);
    hash_words(&words)
}

/// The hash of a preview at some working size.
pub open spec fn invalidation_hash(
    path: Seq<char>,
    o: PipelineOptions,
    full_res: bool,
    max_w: u32,
    max_h: u32,
) -> u64 {
    digest(seq![digest(key_words(path, o)), yes_no(full_res), max_w as u64, max_h as u64])
}

/// Hash of a preview: another one means that it is out of date.
pub fn preview_invalidation_hash(
    path: &str,
    options: &PipelineOptions,
    full_res: bool,
    max_w: u32,
    max_h: u32,
) -> (r: u64)
    requires
        path@.len() <= u64::MAX,
        countable(*options),
    ensures
        r == invalidation_hash(path@, *options, full_res, max_w, max_h),
{
    let mut words: Vec<u64> = Vec::new();
    words.push(options_hash_for(path, options));
    words.push(yes_no_word(full_res));
    words.push(max_w as u64);
    words.push(max_h as u64);
    assert(words@ =~= seq![
        digest(key_words(path@, *options)),
        yes_no(full_res),
        max_w as u64,
        max_h as u64,
    ]);
    hash_words(&words)
}

/// Hash of a preview whatever its working size, so that a draft and the full preview share it.
pub fn preview_options_hash(path: &str, options: &PipelineOptions, full_res: bool) -> (r: u64)
    requires
        path@.len() <= u64::MAX,
        countable(*options),
    ensures
        r == invalidation_hash(path@, *options, full_res, 0, 0),
{
    preview_invalidation_hash(path, options, full_res, 0, 0)
}

/// What the histogram depends on beside the preview: the crop.
pub open spec fn crop_words(o: PipelineOptions) -> Seq<u64> {
    seq![yes_no(o.apply_crop)] + rect_words(o.crop_rect) + size_words(o.crop_rect_reference_size)
}

/// Hash of the crop, by which a histogram is known to be out of date.
pub fn crop_histogram_hash(opts: &PipelineOptions) -> (r: u64)
    ensures
        r == digest(crop_words(*opts)),
{
    let mut words: Vec<u64> = Vec::new();
    words.push(yes_no_word(opts.apply_crop));
    push_rect(&mut words, opts.crop_rect);
    push_size(&mut words, opts.crop_rect_reference_size);
    assert(words@ =~= crop_words(*opts));
    hash_words(&words)
}

/// Moving or switching the crop leaves the preview as it is: its words, and so its hash, stay
/// the same.
pub proof fn crop_does_not_touch_the_preview(
    path: Seq<char>,
    o: PipelineOptions,
    apply_crop: bool,
    crop_rect: Option<Rect>,
    size: Option<(u32, u32)>,
)
    ensures
        key_words(
            path,
            (PipelineOptions { apply_crop, crop_rect, crop_rect_reference_size: size, ..o }),
        ) == key_words(path, o),
{
    let m = PipelineOptions { apply_crop, crop_rect, crop_rect_reference_size: size, ..o };
    lemma_input_words(o, m);
    lemma_balance_words(o, m);
    lemma_print_words(o, m);
    lemma_aces_words(o, m);
    lemma_level_words(o, m);
    lemma_zone_words(o, m);
    lemma_view_words(o, m);
}

proof fn lemma_peel(a: Seq<u64>, b: Seq<u64>, c: Seq<u64>, d: Seq<u64>)
    requires
        a + b == c + d,
        a.len() == c.len(),
    ensures
        a == c,
        b == d,
{
    assert forall|i: int| 0 <= i < a.len() implies a[i] == c[i] by {
        assert((a + b)[i] == a[i]);
        assert((c + d)[i] == c[i]);
    }
    assert(a =~= c);
    assert((a + b).len() == a.len() + b.len());
    assert((c + d).len() == c.len() + d.len());
    assert forall|i: int| 0 <= i < b.len() implies b[i] == d[i] by {
        assert((a + b)[a.len() + i] == b[i]);
        assert((c + d)[a.len() + i] == d[i]);
    }
    assert(b =~= d);
}

/// The first word of both is the same.
proof fn lemma_first(a: Seq<u64>, b: Seq<u64>, c: Seq<u64>, d: Seq<u64>)
    requires
        a + b == c + d,
        a.len() > 0,
        c.len() > 0,
    ensures
        a[0] == c[0],
{
    assert((a + b)[0] == a[0]);
    assert((c + d)[0] == c[0]);
}

proof fn lemma_char(x: char, y: char)
    requires
        (x as u32) as u64 == (y as u32) as u64,
    ensures
        x == y,
{
}

proof fn lemma_peel_text(s: Seq<char>, b: Seq<u64>, t: Seq<char>, d: Seq<u64>)
    requires
        text_words(s) + b == text_words(t) + d,
        s.len() <= u64::MAX,
        t.len() <= u64::MAX,
    ensures
        s == t,
        b == d,
{
    lemma_first(text_words(s), b, text_words(t), d);
    lemma_peel(text_words(s), b, text_words(t), d);
    assert forall|i: int| 0 <= i < s.len() implies s[i] == t[i] by {
        assert(text_words(s)[i + 1] == (s[i] as u32) as u64);
        assert(text_words(t)[i + 1] == (t[i] as u32) as u64);
        lemma_char(s[i], t[i]);
    }
    assert(s =~= t);
}

proof fn lemma_peel_maybe(s: Option<String>, b: Seq<u64>, t: Option<String>, d: Seq<u64>)
    requires
        maybe_text_words(s) + b == maybe_text_words(t) + d,
        s is Some ==> s->0@.len() <= u64::MAX,
        t is Some ==> t->0@.len() <= u64::MAX,
    ensures
        same_text(s, t),
        b == d,
{
    lemma_first(maybe_text_words(s), b, maybe_text_words(t), d);
    match (s, t) {
        (Some(x), Some(y)) => {
            assert(maybe_text_words(s) + b =~= seq![1u64] + (text_words(x@) + b));
            assert(maybe_text_words(t) + d =~= seq![1u64] + (text_words(y@) + d));
            lemma_peel(seq![1u64], text_words(x@) + b, seq![1u64], text_words(y@) + d);
            lemma_peel_text(x@, b, y@, d);
        },
        _ => {
            lemma_peel(maybe_text_words(s), b, maybe_text_words(t), d);
        },
    }
}

/// Both texts are missing, or both read the same.
pub open spec fn same_text(s: Option<String>, t: Option<String>) -> bool {
    match (s, t) {
        (Some(x), Some(y)) => x@ == y@,
        (None, None) => true,
        _ => false,
    }
}

/// The settings agree in all that a preview depends on.
pub open spec fn same_look(o: PipelineOptions, m: PipelineOptions) -> bool {
    &&& same_input_words(o, m)
    &&& o.dmin_rect == m.dmin_rect
    &&& o.dmin_neutral_only == m.dmin_neutral_only
    &&& o.dmin_fixed == m.dmin_fixed
    &&& same_balance_words(o, m)
    &&& o.temp_k == m.temp_k
    &&& same_print_words(o, m)
    &&& o.density_matrix@ =~~= m.density_matrix@
    &&& o.idt_matrix@ =~~= m.idt_matrix@
    &&& same_text(o.flat_field_path, m.flat_field_path)
    &&& same_aces_words(o, m)
    &&& same_text(o.lut3d_path, m.lut3d_path)
    &&& o.output_stage == m.output_stage
    &&& same_text(o.output_lut_cube, m.output_lut_cube)
    &&& same_level_words(o, m)
    &&& same_zone_words(o, m)
    &&& same_view_words(o, m)
}

proof fn lemma_output(o: PipelineOptions, m: PipelineOptions)
    requires
        countable(o),
        countable(m),
        output_words(o) == output_words(m),
    ensures
        same_text(o.flat_field_path, m.flat_field_path),
        same_aces_words(o, m),
        same_text(o.lut3d_path, m.lut3d_path),
        o.output_stage == m.output_stage,
        same_text(o.output_lut_cube, m.output_lut_cube),
        same_level_words(o, m),
        same_zone_words(o, m),
        same_view_words(o, m),
{
    let a6 = zone_words(o) + view_words(o);
    let b6 = zone_words(m) + view_words(m);
    let a5 = level_words(o) + a6;
    let b5 = level_words(m) + b6;
    let a4 = maybe_text_words(o.output_lut_cube) + a5;
    let b4 = maybe_text_words(m.output_lut_cube) + b5;
    let a3 = seq![stage_word(o.output_stage)] + a4;
    let b3 = seq![stage_word(m.output_stage)] + b4;
    let a2 = maybe_text_words(o.lut3d_path) + a3;
    let b2 = maybe_text_words(m.lut3d_path) + b3;
    let a1 = aces_words(o) + a2;
    let b1 = aces_words(m) + b2;
    lemma_peel_maybe(o.flat_field_path, a1, m.flat_field_path, b1);
    lemma_aces_words(o, m);
    lemma_aces_words(m, o);
    lemma_peel(aces_words(o), a2, aces_words(m), b2);
    lemma_peel_maybe(o.lut3d_path, a3, m.lut3d_path, b3);
    lemma_peel(seq![stage_word(o.output_stage)], a4, seq![stage_word(m.output_stage)], b4);
    assert(seq![stage_word(o.output_stage)][0] == seq![stage_word(m.output_stage)][0]);
    lemma_peel_maybe(o.output_lut_cube, a5, m.output_lut_cube, b5);
    lemma_level_words(o, m);
    lemma_level_words(m, o);
    lemma_peel(level_words(o), a6, level_words(m), b6);
    lemma_zone_words(o, m);
    lemma_zone_words(m, o);
    lemma_peel(zone_words(o), view_words(o), zone_words(m), view_words(m));
    lemma_view_words(o, m);
}

proof fn lemma_matrix(m: [[Single; 3]; 3], n: [[Single; 3]; 3])
    requires
        matrix_words(m) == matrix_words(n),
    ensures
        m@ =~~= n@,
{
    assert forall|i: int, j: int| 0 <= i < 3 && 0 <= j < 3 implies #[trigger] m@[i]@[j] == n@[i]@[j] by {
        let k = 3 * i + j;
        assert(k / 3 == i && k % 3 == j);
        assert(matrix_words(m)[k] == m@[i]@[j].bits as u64);
        assert(matrix_words(n)[k] == n@[i]@[j].bits as u64);
    }
    assert forall|i: int| 0 <= i < 3 implies m@[i] == n@[i] by {
        assert(m@[i]@ =~= n@[i]@);
    }
}

/// Settings that differ in anything a preview depends on have different words, and so have the
/// settings of different pictures.
pub proof fn key_tells_looks_apart(p: Seq<char>, o: PipelineOptions, q: Seq<char>, m: PipelineOptions)
    requires
        p.len() <= u64::MAX,
        q.len() <= u64::MAX,
        countable(o),
        countable(m),
        key_words(p, o) == key_words(q, m),
    ensures
        p == q,
        same_look(o, m),
{
    let a9 = matrix_words(o.idt_matrix) + output_words(o);
    let b9 = matrix_words(m.idt_matrix) + output_words(m);
    let a8 = matrix_words(o.density_matrix) + a9;
    let b8 = matrix_words(m.density_matrix) + b9;
    let a7 = print_words(o) + a8;
    let b7 = print_words(m) + b8;
    let a6 = kelvin_words(o.temp_k) + a7;
    let b6 = kelvin_words(m.temp_k) + b7;
    let a5 = balance_words(o) + a6;
    let b5 = balance_words(m) + b6;
    let a4 = fixed_words(o.dmin_fixed) + a5;
    let b4 = fixed_words(m.dmin_fixed) + b5;
    let a3 = seq![yes_no(o.dmin_neutral_only)] + a4;
    let b3 = seq![yes_no(m.dmin_neutral_only)] + b4;
    let a2 = rect_words(o.dmin_rect) + a3;
    let b2 = rect_words(m.dmin_rect) + b3;
    let a1 = input_words(o) + a2;
    let b1 = input_words(m) + b2;
    lemma_peel_text(p, a1, q, b1);
    lemma_input_words(o, m);
    lemma_input_words(m, o);
    lemma_peel(input_words(o), a2, input_words(m), b2);
    lemma_first(rect_words(o.dmin_rect), a3, rect_words(m.dmin_rect), b3);
    lemma_peel(rect_words(o.dmin_rect), a3, rect_words(m.dmin_rect), b3);
    lemma_rect(o.dmin_rect, m.dmin_rect);
    lemma_peel(seq![yes_no(o.dmin_neutral_only)], a4, seq![yes_no(m.dmin_neutral_only)], b4);
    assert(seq![yes_no(o.dmin_neutral_only)][0] == seq![yes_no(m.dmin_neutral_only)][0]);
    lemma_first(fixed_words(o.dmin_fixed), a5, fixed_words(m.dmin_fixed), b5);
    lemma_peel(fixed_words(o.dmin_fixed), a5, fixed_words(m.dmin_fixed), b5);
    lemma_fixed(o.dmin_fixed, m.dmin_fixed);
    lemma_balance_words(o, m);
    lemma_balance_words(m, o);
    lemma_peel(balance_words(o), a6, balance_words(m), b6);
    lemma_first(kelvin_words(o.temp_k), a7, kelvin_words(m.temp_k), b7);
    lemma_peel(kelvin_words(o.temp_k), a7, kelvin_words(m.temp_k), b7);
    lemma_kelvin(o.temp_k, m.temp_k);
    lemma_print_words(o, m);
    lemma_print_words(m, o);
    lemma_peel(print_words(o), a8, print_words(m), b8);
    lemma_peel(matrix_words(o.density_matrix), a9, matrix_words(m.density_matrix), b9);
    lemma_matrix(o.density_matrix, m.density_matrix);
    lemma_peel(
        matrix_words(o.idt_matrix),
        output_words(o),
        matrix_words(m.idt_matrix),
        output_words(m),
    );
    lemma_matrix(o.idt_matrix, m.idt_matrix);
    lemma_output(o, m);
}

proof fn lemma_rect(a: Option<Rect>, b: Option<Rect>)
    requires
        rect_words(a) == rect_words(b),
    ensures
        a == b,
{
    let s = rect_words(a);
    let t = rect_words(b);
    assert(s[0] == t[0]);
    if a is Some {
        assert(s[1] == t[1] && s[2] == t[2] && s[3] == t[3] && s[4] == t[4]);
    }
}

proof fn lemma_fixed(a: Option<(Single, Single, Single)>, b: Option<(Single, Single, Single)>)
    requires
        fixed_words(a) == fixed_words(b),
    ensures
        a == b,
{
    let s = fixed_words(a);
    let t = fixed_words(b);
    assert(s[0] == t[0]);
    if a is Some {
        assert(s[1] == t[1] && s[2] == t[2] && s[3] == t[3]);
    }
}

proof fn lemma_kelvin(a: Option<Single>, b: Option<Single>)
    requires
        kelvin_words(a) == kelvin_words(b),
    ensures
        a == b,
{
    let s = kelvin_words(a);
    let t = kelvin_words(b);
    assert(s[0] == t[0]);
    if a is Some {
        assert(s[1] == t[1]);
    }
}

} // verus!
