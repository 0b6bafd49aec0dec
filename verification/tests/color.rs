use c41_darkroom::cms::{
    clamp_f32_u8, display_u8_from_linear, encode_preview, encode_preview_inner,
    export_u8_from_linear, needs_cms_preview, output_icc_label, uses_output_cms, CmsError,
    IccSource, Step6Display,
};
use c41_darkroom::options::{default_options, CmsIntent, CmsTarget, OutputIcc, OutputStage, PipelineOptions};
use c41_darkroom::single::Single;

#[test]
fn linear_as_srgb_exaggerates_green_deficit() {
    // A slight G deficit in linear, displayed without OETF, is decoded by
    // the monitor as sRGB. That per-channel gamma deepens magenta/purple.
    let r: f32 = 0.40;
    let g: f32 = 0.34;
    let b: f32 = 0.40;
    let displayed_r = r.powf(2.2);
    let displayed_g = g.powf(2.2);
    let displayed_b = b.powf(2.2);
    let lin_rg = r / g;
    let disp_rg = displayed_r / displayed_g;
    assert!(
        disp_rg > lin_rg,
        "display gamma should increase R/G ({disp_rg} vs {lin_rg})"
    );
    let _ = displayed_b;
}

#[test]
fn labels_of_output_profiles() {
    assert_eq!(output_icc_label(OutputIcc::Srgb, None), "sRGB");
    assert_eq!(output_icc_label(OutputIcc::DisplayP3, Some("x")), "Display P3");
    assert_eq!(output_icc_label(OutputIcc::AdobeRgb, None), "Adobe RGB");
    assert_eq!(output_icc_label(OutputIcc::Custom, Some("paper")), "paper");
    assert_eq!(output_icc_label(OutputIcc::Custom, None), "custom");
}

fn power(a: Single, b: Single) -> Single {
    Single { bits: f32::from_bits(a.bits).powf(f32::from_bits(b.bits)).to_bits() }
}

/// Bytes that tell the profiles apart.
fn profile(source: IccSource) -> Result<Vec<u8>, CmsError> {
    Ok(match source {
        IccSource::Srgb => vec![10],
        IccSource::DisplayP3 => vec![11],
        IccSource::AdobeRgb => vec![12],
        IccSource::CustomFile => vec![13],
        IccSource::ProofFile => vec![14],
    })
}

fn code(intent: CmsIntent) -> u8 {
    match intent {
        CmsIntent::Perceptual => 1,
        CmsIntent::Relative => 2,
        CmsIntent::Absolute => 3,
    }
}

/// Gives back what it was asked for.
fn convert(v: &Vec<Single>, icc: &Vec<u8>, i: CmsIntent, bpc: bool) -> Result<Vec<u8>, CmsError> {
    Ok(vec![v.len() as u8, icc[0], code(i), bpc as u8])
}

fn proofing(
    v: &Vec<Single>,
    on: &Vec<u8>,
    to: &Vec<u8>,
    i: CmsIntent,
    white: bool,
    gamut: bool,
) -> Result<Vec<u8>, CmsError> {
    Ok(vec![v.len() as u8, on[0], to[0], code(i), white as u8, gamut as u8])
}

#[test]
fn conversions_follow_the_options() {
    let lin = vec![Single { bits: 0 }, Single { bits: 1.0f32.to_bits() }];
    let mut o = default_options(false);
    assert!(!uses_output_cms(&o));
    assert!(!needs_cms_preview(&o));
    let out = |o: &PipelineOptions| export_u8_from_linear(&lin, o, &profile, &convert, &power);
    let shown =
        |o: &PipelineOptions| display_u8_from_linear(&lin, o, &profile, &convert, &proofing, &power);
    let plain = out(&o).ok().unwrap();
    assert_eq!((plain.samples, plain.icc), (vec![0, 255], vec![10]));
    o.output_icc = OutputIcc::Custom;
    assert_eq!(out(&o).err(), Some(CmsError::NoCustomFile));
    o.output_icc_path = Some("mine.icc".to_string());
    assert_eq!(out(&o).ok().unwrap().icc, [13]);
    o.output_icc = OutputIcc::DisplayP3;
    o.export_intent = CmsIntent::Perceptual;
    o.export_bpc = false;
    let p3 = out(&o).ok().unwrap();
    assert_eq!((p3.samples, p3.icc), (vec![2, 11, 1, 0], vec![11]));
    assert_eq!(shown(&o), Ok(vec![2, 11, 1, 0]));
    o.cms_target = CmsTarget::Display;
    assert_eq!(shown(&o), Ok(vec![0, 255]));
    o.preview_monitor_icc = Some(vec![]);
    assert!(!needs_cms_preview(&o));
    assert_eq!(shown(&o), Ok(vec![0, 255]));
    o.preview_monitor_icc = Some(vec![77]);
    assert!(needs_cms_preview(&o));
    assert_eq!(shown(&o), Ok(vec![2, 77, 2, 1]));
    o.soft_proof = true;
    assert_eq!(shown(&o), Err(CmsError::NoProofFile));
    o.proof_icc_path = Some("paper.icc".to_string());
    o.proof_paper_white = true;
    assert_eq!(shown(&o), Ok(vec![2, 14, 77, 2, 1, 0]));
    o.preview_monitor_icc = None;
    o.proof_gamut_warning = true;
    assert_eq!(shown(&o), Ok(vec![2, 14, 10, 2, 1, 1]));
    let unread = |_: IccSource| -> Result<Vec<u8>, CmsError> { Err(CmsError::Unreadable) };
    assert_eq!(
        display_u8_from_linear(&lin, &o, &unread, &convert, &proofing, &power),
        Err(CmsError::Unreadable)
    );
}

#[test]
fn a_bad_profile_never_blanks_the_viewer() {
    let fails = |_: &Vec<Single>, _: &Vec<u8>, _: CmsIntent, _: bool| -> Result<Vec<u8>, CmsError> {
        Err(CmsError::Conversion)
    };
    let mut o = default_options(false);
    let d = Step6Display::U16(vec![0, 65535]);
    let plain = vec![7u8, 8, 9];
    assert_eq!(encode_preview(&d, &o, &profile, &fails, &proofing, &plain, &power), [0, 255]);
    o.output_icc = OutputIcc::AdobeRgb;
    assert_eq!(encode_preview(&d, &o, &profile, &fails, &proofing, &plain, &power), plain);
    assert_eq!(
        encode_preview_inner(&d, &o, &profile, &fails, &proofing, &plain, &power),
        Err(CmsError::Conversion)
    );
    assert_eq!(encode_preview(&d, &o, &profile, &convert, &proofing, &plain, &power)[..2], [2, 12]);
    let e = Step6Display::F32(vec![Single { bits: 0.5f32.to_bits() }]);
    o.output_stage = OutputStage::Bare;
    assert_eq!(encode_preview(&e, &o, &profile, &convert, &proofing, &plain, &power), [128]);
    o.output_stage = OutputStage::Lut2383;
    assert_eq!(encode_preview(&e, &o, &profile, &convert, &proofing, &plain, &power)[..2], [1, 12]);
    let p = Step6Display::PassthroughDensity(vec![]);
    assert_eq!(encode_preview(&p, &o, &profile, &convert, &proofing, &plain, &power), plain);
}

#[test]
fn encoded_samples_round_to_eight_bits() {
    let v = [-1.0f32, 0.0, 0.00196, 0.25, 0.5, 0.9999, 1.0, 3.0, f32::NAN, f32::INFINITY];
    let s: Vec<Single> = v.iter().map(|x| Single { bits: x.to_bits() }).collect();
    let want: Vec<u8> = v.iter().map(|x| (x.clamp(0.0, 1.0) * 255.0).round() as u8).collect();
    assert_eq!(clamp_f32_u8(&s), want);
}
