//! Film-frame auto crop on linear transmittance.
//!
//! Detects the image area, without holder, lightbox, rebate and sprockets, on a scan from which
//! the film base has been divided out. Independent of the look of the print.

use vstd::prelude::*;
use crate::aspect::{Bounds, FilmFormat};
use crate::film::{FilmImage, Plane, PlaneView};
use crate::geometry::scale_rect_to_size;
use crate::options::Rect;
use crate::single::Single;
use crate::surround::{PixelLevels, Polarity, SurroundClass};

verus! {

/// Longest side of the image that is analysed.
pub const CROP_PROXY_MAX_SIDE: usize = 384;

/// How sure the detector is that the rect is the real frame edge.
#[derive(Debug, Clone, Copy, PartialEq, Eq, Structural)]
pub enum CropConfidence {
    High,
    Medium,
    Low,
}

/// Successful auto-crop. `rect` is in the input buffer's pixel space.
#[derive(Debug, Clone, Copy)]
pub struct AutoCropResult {
    pub rect: Rect,
    pub reference_size: (u32, u32),
    pub confidence: CropConfidence,
    pub surround: SurroundClass,
    pub format_hint: Option<FilmFormat>,
}

/// What the planes of a scan say, before bounds are looked for.
pub struct Reading {
    pub t: Plane,
    pub top: Plane,
    pub tex: Plane,
    pub base: Single,
    pub tex_thresh: Single,
    pub levels: PixelLevels,
    pub polarity: Polarity,
    pub surround: SurroundClass,
}

/// A reading as contracts speak of it.
pub struct ReadingView {
    pub t: PlaneView,
    pub top: PlaneView,
    pub tex: PlaneView,
    pub base: Single,
    pub tex_thresh: Single,
    pub levels: PixelLevels,
    pub polarity: Polarity,
    pub surround: SurroundClass,
}

impl View for Reading {
    type V = ReadingView;

    open spec fn view(&self) -> ReadingView {
        ReadingView {
            t: self.t@,
            top: self.top@,
            tex: self.tex@,
            base: self.base,
            tex_thresh: self.tex_thresh,
            levels: self.levels,
            polarity: self.polarity,
            surround: self.surround,
        }
    }
}

/// The class of the surround; a clear polarity overrides the vote.
pub open spec fn surround_of(polarity: Polarity, vote: SurroundClass) -> SurroundClass {
    match polarity {
        Polarity::FilmBrighter => SurroundClass::DarkHolder,
        Polarity::SurroundBrighter => SurroundClass::BrightLight,
        Polarity::Unclear => vote,
    }
}

/// The reading of an image of three channels, with an optional sample of the film base.
pub open spec fn reading(w: int, h: int, samples: Seq<Single>, sample: Option<Rect>) -> ReadingView {
    let t = PlaneView { width: w, height: h, values: crate::film::transmittance(samples) };
    let top = PlaneView { width: w, height: h, values: crate::film::channel_max(samples) };
    let tex = PlaneView { width: w, height: h, values: crate::film::texture(t) };
    let light = crate::surround::bright_mode_spec(top);
    let base = crate::surround::base_spec(t, top, sample, light);
    let tex_thresh = crate::surround::tex_thresh_spec(tex);
    let polarity = crate::surround::polarity_spec(t);
    ReadingView {
        t,
        top,
        tex,
        base,
        tex_thresh,
        levels: crate::surround::levels_spec(
            base,
            tex_thresh,
            light,
            crate::surround::outer_inner_spec(t).0,
        ),
        polarity,
        surround: surround_of(polarity, crate::surround::surround_spec(top, base, light)),
    }
}

impl ReadingView {
    /// The planes are large enough and of one size.
    pub open spec fn wf(self) -> bool {
        &&& crate::surround::sizable(self.t)
        &&& self.top.values.len() == self.t.values.len()
        &&& self.tex.values.len() == self.t.values.len()
    }

    /// Which pixels are picture, holes of the film left out.
    pub open spec fn picture(self) -> Seq<bool> {
        crate::sprockets::without_holes(
            self.t,
            Seq::new(
                self.t.values.len(),
                |i: int|
                    crate::surround::picture_pixel(
                        self.t.values[i],
                        self.top.values[i],
                        self.tex.values[i],
                        self.levels,
                    ),
            ),
            self.base,
        )
    }

    /// The bounds that are chosen, before they are fitted to a format.
    pub open spec fn bounds(self) -> Bounds {
        let w = self.t.width;
        let h = self.t.height;
        let by_pixels = crate::frame::frac_bounds_spec(self.picture(), w, h);
        let by_gates = crate::gates::gate_bounds_spec(self.t, self.polarity);
        if self.polarity == Polarity::FilmBrighter {
            let seed = crate::frame::spans(
                crate::frame::seed_span(self.t, false),
                crate::frame::seed_span(self.t, true),
            );
            crate::gates::picked(
                self.t,
                crate::frame::grown_spec(
                    self.t,
                    seed,
                    self.tex_thresh,
                    self.levels.light_floor,
                ),
                Some(by_pixels),
                by_gates,
            )
        } else {
            crate::gates::picked(self.t, by_pixels, None, by_gates)
        }
    }
}

fn read_image(image: &FilmImage, sample: Option<Rect>) -> (r: Reading)
    requires
        image.wf(),
        image.channels == 3,
        image.width >= 16,
        image.height >= 16,
    ensures
        r@ == reading(image.width as int, image.height as int, image.samples@, sample),
        r@.wf(),
        r.t.width == image.width,
        r.t.height == image.height,
{
    let t = crate::film::pixel_transmittance(image);
    let top = crate::film::pixel_max(image);
    let tex = crate::film::pixel_texture(&t);
    let light = crate::surround::find_bright_mode(&top);
    let base = crate::surround::estimate_base(&t, &top, sample, light);
    let vote = crate::surround::classify_surround(&top, base, light);
    let tex_thresh = crate::surround::adaptive_tex_thresh(&tex);
    let (outer, _) = crate::surround::outer_inner_means(&t);
    let levels = crate::surround::pixel_levels(base, tex_thresh, light, outer);
    let polarity = crate::surround::detect_polarity(&t);
    let surround = match polarity {
        Polarity::FilmBrighter => SurroundClass::DarkHolder,
        Polarity::SurroundBrighter => SurroundClass::BrightLight,
        Polarity::Unclear => vote,
    };
    Reading { t, top, tex, base, tex_thresh, levels, polarity, surround }
}

fn picture_pixels(r: &Reading) -> (px: Vec<bool>)
    requires
        r@.wf(),
    ensures
        px@ == r@.picture(),
{
    let n: usize = r.t.values.len();
    let mut px: Vec<bool> = Vec::with_capacity(n);
    let ghost want = Seq::new(
        r.t.values@.len(),
        |i: int|
            crate::surround::picture_pixel(
                r.t.values@[i],
                r.top.values@[i],
                r.tex.values@[i],
                r.levels,
            ),
    );
    let mut i: usize = 0;
    while i < n
        invariant
            n == r.t.values.len(),
            r.top.values.len() == n,
            r.tex.values.len() == n,
            i <= n,
            px.len() == i,
            want.len() == n,
            forall|j: int|
                0 <= j < n ==> #[trigger] want[j] == crate::surround::picture_pixel(
                    r.t.values@[j],
                    r.top.values@[j],
                    r.tex.values@[j],
                    r.levels,
                ),
            forall|j: int| 0 <= j < i ==> #[trigger] px@[j] == want[j],
        decreases n - i,
    {
        px.push(
            crate::surround::classify_image_pixel(
                r.t.values[i],
                r.top.values[i],
                r.tex.values[i],
                &r.levels,
            ),
        );
        assert(px@[i as int] == want[i as int]);
        i = i + 1;
    }
    assert(px@ =~= want);
    crate::sprockets::mark_sprocket_rows_as_border(&r.t, &mut px, r.base);
    px
}

fn choose_bounds(r: &Reading) -> (b: Bounds)
    requires
        r@.wf(),
    ensures
        b == r@.bounds(),
        b.within(r.t.width as int, r.t.height as int),
{
    let px = picture_pixels(r);
    assert(px.len() == r.t.width * r.t.height);
    let by_pixels = crate::frame::bounds_from_image_frac(&px, r.t.width, r.t.height);
    let by_gates = crate::gates::bounds_from_gate_edges(&r.t, r.polarity);
    if r.polarity == Polarity::FilmBrighter {
        let seed = crate::frame::bounds_from_bright_seed(&r.t);
        let grown = crate::frame::grow_bright_seed(
            &r.t,
            seed,
            r.tex_thresh,
            r.levels.light_floor,
        );
        crate::gates::pick_bounds(&r.t, grown, Some(by_pixels), by_gates)
    } else {
        crate::gates::pick_bounds(&r.t, by_pixels, None, by_gates)
    }
}

/// Margin of a side as a share of it.
pub open spec fn margin_spec(lines: int, side: int) -> Single {
    Single::whole((if lines > 0 { lines } else { 0 }) as u64).over(Single::whole(side as u64))
}

fn margin(lines: usize, side: usize) -> (r: Single)
    ensures
        r == margin_spec(lines as int, side as int),
{
    Single::whole(lines as u64).over(Single::whole(side as u64))
}

/// How sure the crop is: its margins are neither thin nor wide, and the surround is of one kind.
pub open spec fn confidence_spec(
    b: Bounds,
    w: int,
    h: int,
    surround: SurroundClass,
) -> CropConfidence {
    let l = margin_spec(b.left as int, w);
    let r = margin_spec(w - b.right, w);
    let t = margin_spec(b.top as int, h);
    let o = margin_spec(h - b.bottom, h);
    let least = l.smaller(r).smaller(t).smaller(o);
    let most = l.larger(r).larger(t).larger(o);
    let edge = Single::ratio(25, 1000).less(least) && most.less(Single::ratio(45, 100));
    let known = surround != SurroundClass::Mixed;
    if edge && known {
        CropConfidence::High
    } else if edge || known || Single::ratio(15, 1000).less(least) {
        CropConfidence::Medium
    } else {
        CropConfidence::Low
    }
}

pub fn crop_confidence(b: Bounds, w: usize, h: usize, surround: SurroundClass) -> (r:
    CropConfidence)
    ensures
        r == confidence_spec(b, w as int, h as int, surround),
{
    let l = margin(b.left, w);
    let r = margin(w.saturating_sub(b.right), w);
    let t = margin(b.top, h);
    let o = margin(h.saturating_sub(b.bottom), h);
    let least = l.smaller(r).smaller(t).smaller(o);
    let most = l.larger(r).larger(t).larger(o);
    let edge = Single::ratio(25, 1000).less(least) && most.less(Single::ratio(45, 100));
    let known = surround != SurroundClass::Mixed;
    if edge && known {
        CropConfidence::High
    } else if edge || known || Single::ratio(15, 1000).less(least) {
        CropConfidence::Medium
    } else {
        CropConfidence::Low
    }
}

/// The found bounds fitted to a format and drawn in, or none where too little is left: a side
/// must be 16 pixels and a twentieth of the shorter side of the image.
pub open spec fn fitted(b: Bounds, w: int, h: int) -> Option<(Bounds, Option<FilmFormat>)> {
    let (snapped, fmt) = crate::aspect::snap_spec(b);
    let r = crate::aspect::inset_spec(snapped, w, h);
    let least = crate::aspect::max2(crate::aspect::min2(w, h) / 20, 16);
    if b.is_empty() || r.is_empty() || r.right - r.left < least || r.bottom - r.top < least {
        None
    } else {
        Some((r, fmt))
    }
}

pub fn fit_bounds(b: Bounds, w: usize, h: usize) -> (r: Option<(Bounds, Option<FilmFormat>)>)
    ensures
        r == fitted(b, w as int, h as int),
{
    if b.is_empty() {
        return None;
    }
    let (snapped, fmt) = crate::aspect::snap_aspect(b);
    let r = crate::aspect::inset_bounds(snapped, w, h);
    if r.is_empty() {
        return None;
    }
    let shorter: usize = if w <= h {
        w
    } else {
        h
    };
    let least: usize = if shorter / 20 >= 16 {
        shorter / 20
    } else {
        16
    };
    if r.right - r.left < least || r.bottom - r.top < least {
        return None;
    }
    Some((r, fmt))
}

/// The crop that a reading leads to, in pixels of the analysed image.
pub open spec fn crop_of(r: ReadingView) -> Option<AutoCropResult> {
    let w = r.t.width;
    let h = r.t.height;
    match fitted(r.bounds(), w, h) {
        None => None,
        Some((b, fmt)) => Some(
            AutoCropResult {
                rect: Rect {
                    x: b.left as u32,
                    y: b.top as u32,
                    width: (b.right - b.left) as u32,
                    height: (b.bottom - b.top) as u32,
                },
                reference_size: (w as u32, h as u32),
                confidence: confidence_spec(b, w, h, r.surround),
                surround: r.surround,
                format_hint: fmt,
            },
        ),
    }
}

fn crop_from_reading(r: &Reading) -> (c: Option<AutoCropResult>)
    requires
        r@.wf(),
        r.t.width <= u32::MAX,
        r.t.height <= u32::MAX,
    ensures
        c == crop_of(r@),
        c matches Some(f) ==> lies_in(f.rect, (r.t.width as int, r.t.height as int)),
{
    let w: usize = r.t.width;
    let h: usize = r.t.height;
    let found = choose_bounds(r);
    proof {
        crops_lie_in_the_found_frame(r@);
    }
    let (b, fmt) = match fit_bounds(found, w, h) {
        Some(f) => f,
        None => {
            return None;
        },
    };
    let rect = Rect {
        x: #[verifier::truncate] (b.left as u32),
        y: #[verifier::truncate] (b.top as u32),
        width: #[verifier::truncate] ((b.right - b.left) as u32),
        height: #[verifier::truncate] ((b.bottom - b.top) as u32),
    };
    Some(
        AutoCropResult {
            rect,
            reference_size: (w as u32, h as u32),
            confidence: crop_confidence(b, w, h, r.surround),
            surround: r.surround,
            format_hint: fmt,
        },
    )
}


/// Looks for the frame on an image of analysis size; `sample` is a piece of film base in it.
pub fn detect_on_proxy(image: &FilmImage, sample: Option<Rect>) -> (r: Option<AutoCropResult>)
    requires
        image.wf(),
        image.channels == 3,
        16 <= image.width <= u32::MAX,
        16 <= image.height <= u32::MAX,
    ensures
        r == crop_of(
            reading(image.width as int, image.height as int, image.samples@, sample),
        ),
        r matches Some(c) ==> lies_in(c.rect, (image.width as int, image.height as int)),
{
    let r = read_image(image, sample);
    crop_from_reading(&r)
}

/// A length scaled by a single, rounded to a whole number of at least `least`.
pub open spec fn scaled_spec(v: u32, scale: Single, least: u32) -> u32 {
    let x = Single::whole(v as u64).times(scale).rounded();
    (if least == 0 {
        x
    } else {
        x.larger(Single::whole(least as u64))
    }).to_int(u32::MAX as u64) as u32
}

fn scaled(v: u32, scale: Single, least: u32) -> (r: u32)
    ensures
        r == scaled_spec(v, scale, least),
{
    let x = Single::whole(v as u64).times(scale).rounded();
    let y = if least == 0 {
        x
    } else {
        x.larger(Single::whole(least as u64))
    };
    y.to_int(u32::MAX as u64) as u32
}

/// A rectangle brought from a frame of one size to one of another.
pub open spec fn rescaled(r: Rect, from: (int, int), to: (int, int)) -> Rect {
    let sx = Single::whole(to.0 as u64).over(Single::whole(from.0 as u64));
    let sy = Single::whole(to.1 as u64).over(Single::whole(from.1 as u64));
    Rect {
        x: scaled_spec(r.x, sx, 0),
        y: scaled_spec(r.y, sy, 0),
        width: scaled_spec(r.width, sx, 1),
        height: scaled_spec(r.height, sy, 1),
    }
}

fn rescale(r: Rect, fw: usize, fh: usize, tw: usize, th: usize) -> (s: Rect)
    ensures
        s == rescaled(r, (fw as int, fh as int), (tw as int, th as int)),
{
    let sx = Single::whole(tw as u64).over(Single::whole(fw as u64));
    let sy = Single::whole(th as u64).over(Single::whole(fh as u64));
    Rect {
        x: scaled(r.x, sx, 0),
        y: scaled(r.y, sy, 0),
        width: scaled(r.width, sx, 1),
        height: scaled(r.height, sy, 1),
    }
}

/// Size and samples of the image that is analysed.
pub open spec fn proxy_of(image: FilmImage) -> (int, int, Seq<Single>) {
    let max = CROP_PROXY_MAX_SIDE as int;
    if crate::film::reduced(image, max) {
        let long = crate::film::longer_side(image);
        (
            crate::film::proxy_side(image.width as int, long, max),
            crate::film::proxy_side(image.height as int, long, max),
            crate::film::proxy_samples(image, max),
        )
    } else {
        (image.width as int, image.height as int, image.samples@)
    }
}

/// The crop of an image: found on its proxy, brought back to its own pixels and kept in it.
pub open spec fn crop_spec(image: FilmImage, sample: Option<Rect>) -> Option<AutoCropResult> {
    let size = (image.width as int, image.height as int);
    let (pw, ph, samples) = proxy_of(image);
    if image.channels != 3 || image.width < 16 || image.height < 16 || pw < 16 || ph < 16 {
        None
    } else {
        let small = match sample {
            Some(r) => Some(rescaled(r, size, (pw, ph))),
            None => None,
        };
        match crop_of(reading(pw, ph, samples, small)) {
            None => None,
            Some(found) => match crate::aspect::clamp_rect_spec(
                rescaled(found.rect, (pw, ph), size),
                image.width as u32,
                image.height as u32,
            ) {
                None => None,
                Some(rect) => Some(
                    AutoCropResult {
                        rect,
                        reference_size: (image.width as u32, image.height as u32),
                        ..found
                    },
                ),
            },
        }
    }
}

/// A sample of the film base in pixels of an image, drawn on whatever size.
pub open spec fn sample_on(sample: Option<Rect>, reference: Option<(u32, u32)>, w: u32, h: u32) -> Option<
    Rect,
> {
    match sample {
        Some(rect) => Some(crate::geometry::scaled_rect(rect, reference, w, h)),
        None => None,
    }
}

/// Detects a tight image-area crop on a linear-transmittance RGB buffer.
///
/// `dmin_rect` is an optional sample of the film base, drawn on the reference size. It is a hint
/// for the base transmittance, not a requirement.
#[verifier::rlimit(40)]
pub fn detect_crop(
    image: &FilmImage,
    dmin_rect: Option<Rect>,
    dmin_rect_reference_size: Option<(u32, u32)>,
) -> (r: Option<AutoCropResult>)
    requires
        image.wf(),
        image.width <= u32::MAX,
        image.height <= u32::MAX,
        image.width * CROP_PROXY_MAX_SIDE <= usize::MAX,
        image.height * CROP_PROXY_MAX_SIDE <= usize::MAX,
    ensures
        r == crop_spec(
            *image,
            sample_on(dmin_rect, dmin_rect_reference_size, image.width as u32, image.height as u32),
        ),
        image.width <= PROPORTION_MAX_SIDE && image.height <= PROPORTION_MAX_SIDE ==> (
        r matches Some(c) ==> found_on_proxy(
            *image,
            sample_on(dmin_rect, dmin_rect_reference_size, image.width as u32, image.height as u32),
            c,
        )),
{
    let w: usize = image.width;
    let h: usize = image.height;
    if image.channels != 3 || w < 16 || h < 16 {
        return None;
    }
    let proxy = crate::film::downsample_to_max_side(image, CROP_PROXY_MAX_SIDE);
    let pw: usize = proxy.width;
    let ph: usize = proxy.height;
    if pw < 16 || ph < 16 {
        return None;
    }
    let small = match dmin_rect {
        Some(r) => Some(
            rescale(
                scale_rect_to_size(r, dmin_rect_reference_size, w as u32, h as u32),
                w,
                h,
                pw,
                ph,
            ),
        ),
        None => None,
    };
    let found = match detect_on_proxy(&proxy, small) {
        Some(found) => found,
        None => {
            return None;
        },
    };
    proof {
        if w <= PROPORTION_MAX_SIDE && h <= PROPORTION_MAX_SIDE {
            lemma_in_proportion(
                *image,
                sample_on(dmin_rect, dmin_rect_reference_size, w as u32, h as u32),
            );
        }
    }
    let rect = match crate::aspect::clamp_rect(
        rescale(found.rect, pw, ph, w, h),
        w as u32,
        h as u32,
    ) {
        Some(rect) => rect,
        None => {
            return None;
        },
    };
    Some(
        AutoCropResult {
            rect,
            reference_size: (w as u32, h as u32),
            confidence: found.confidence,
            surround: found.surround,
            format_hint: found.format_hint,
        },
    )
}

/// What the detector reads off a scan, for those who look into a crop.
#[derive(Debug, Clone, Copy, PartialEq, Eq)]
pub struct CropProbe {
    pub width: usize,
    pub height: usize,
    pub polarity: Polarity,
    /// Mean transmittance near the rim and in the middle.
    pub outer: Single,
    pub inner: Single,
    pub base: Single,
    pub tex_thresh: Single,
    pub light: Option<Single>,
    /// The bright area inside the film.
    pub seed: Bounds,
    /// The area of pixels that are picture.
    pub pixels: Bounds,
}

/// What is read off a scan, without a sample of its base.
pub open spec fn probe_spec(w: int, h: int, samples: Seq<Single>) -> CropProbe {
    let r = reading(w, h, samples, None);
    let means = crate::surround::outer_inner_spec(r.t);
    CropProbe {
        width: w as usize,
        height: h as usize,
        polarity: r.polarity,
        outer: means.0,
        inner: means.1,
        base: r.base,
        tex_thresh: r.tex_thresh,
        light: crate::surround::bright_mode_spec(r.top),
        seed: crate::frame::spans(
            crate::frame::seed_span(r.t, false),
            crate::frame::seed_span(r.t, true),
        ),
        pixels: crate::frame::frac_bounds_spec(r.picture(), w, h),
    }
}

/// Reads a scan as the detector does; nothing where it is too small for it.
pub fn crop_probe(image: &FilmImage) -> (r: Option<CropProbe>)
    requires
        image.wf(),
        image.channels == 3,
        image.width * CROP_PROXY_MAX_SIDE <= usize::MAX,
        image.height * CROP_PROXY_MAX_SIDE <= usize::MAX,
    ensures
        ({
            let (pw, ph, samples) = proxy_of(*image);
            r == if pw < 16 || ph < 16 {
                None
            } else {
                Some(probe_spec(pw, ph, samples))
            }
        }),
{
    let proxy: FilmImage = crate::film::downsample_to_max_side(image, CROP_PROXY_MAX_SIDE);
    if proxy.width < 16 || proxy.height < 16 {
        return None;
    }
    let r: Reading = read_image(&proxy, None);
    let (outer, inner) = crate::surround::outer_inner_means(&r.t);
    let light: Option<Single> = crate::surround::find_bright_mode(&r.top);
    let px: Vec<bool> = picture_pixels(&r);
    assert(px.len() == r.t.width * r.t.height);
    Some(
        CropProbe {
            width: proxy.width,
            height: proxy.height,
            polarity: r.polarity,
            outer,
            inner,
            base: r.base,
            tex_thresh: r.tex_thresh,
            light,
            seed: crate::frame::bounds_from_bright_seed(&r.t),
            pixels: crate::frame::bounds_from_image_frac(&px, r.t.width, r.t.height),
        },
    )
}

/// A crop that was found lies in the image, with at least 8 pixels on each side.
pub proof fn crop_lies_in_image(image: FilmImage, sample: Option<Rect>)
    requires
        image.width <= u32::MAX,
        image.height <= u32::MAX,
    ensures
        crop_spec(image, sample) matches Some(c) ==> {
            &&& c.rect.x + c.rect.width <= image.width
            &&& c.rect.y + c.rect.height <= image.height
            &&& c.rect.width >= 8
            &&& c.rect.height >= 8
            &&& c.reference_size == (image.width as u32, image.height as u32)
        },
{
}

/// A length in one frame agrees with one in another, in parts of each frame's side: to a pixel.
pub open spec fn in_proportion(a: int, side: int, b: int, other: int) -> bool {
    -other <= a * other - b * side <= other
}

/// A rectangle in a frame agrees with one in another, side by side.
pub open spec fn proportionate(r: Rect, size: (int, int), s: Rect, other: (int, int)) -> bool {
    &&& in_proportion(r.x as int, size.0, s.x as int, other.0)
    &&& in_proportion(r.width as int, size.0, s.width as int, other.0)
    &&& in_proportion(r.y as int, size.1, s.y as int, other.1)
    &&& in_proportion(r.height as int, size.1, s.height as int, other.1)
}

/// Longest side of an image whose crop is in proportion: on longer ones, rounding alone moves an
/// edge by more than half a pixel.
pub const PROPORTION_MAX_SIDE: u32 = 0x8_0000;

/// A length brought to another frame agrees with itself.
proof fn lemma_scaled(v: u32, to: int, from: int, least: u32)
    requires
        1 <= from <= PROPORTION_MAX_SIDE,
        1 <= to <= PROPORTION_MAX_SIDE,
        v <= from,
        least <= 1,
    ensures
        in_proportion(
            scaled_spec(
                v,
                Single::whole(to as u64).over(Single::whole(from as u64)),
                least,
            ) as int,
            to,
            v as int,
            from,
        ),
{
    let c = crate::near::one();
    let e = crate::near::slip();
    crate::near::lemma_sizes();
    crate::near::lemma_whole(to as u64);
    crate::near::lemma_whole(from as u64);
    crate::near::lemma_whole(v as u64);
    crate::near::lemma_whole(1);
    let s = Single::whole(to as u64).over(Single::whole(from as u64));
    let k = to / from + 1;
    vstd::arithmetic::div_mod::lemma_fundamental_div_mod(to, from);
    vstd::arithmetic::div_mod::lemma_mod_bound(to, from);
    let d = to / from;
    assert(0 <= d <= to && from * d <= to && to <= k * from) by (nonlinear_arith)
        requires
            to == from * d + to % from,
            0 <= to % from < from,
            k == d + 1,
            from >= 1,
            to >= 1,
    ;
    assert(0 <= to * c <= k * (from * c) && from * c > 0) by (nonlinear_arith)
        requires
            0 <= to <= k * from,
            from >= 1,
            c > 0,
    ;
    crate::near::lemma_quotient(Single::whole(to as u64), Single::whole(from as u64), k);
    let z = s.signed();
    assert(-(k * e * from) <= z * from - to * c <= k * e * from) by (nonlinear_arith)
        requires
            -(k * e * (from * c)) <= z * (from * c) - to * c * c <= k * e * (from * c),
            c > 0,
    ;
    let x = Single::whole(v as u64);
    let m = to + 2 * from;
    // The product, in whole numbers.
    assert(v * k <= to + from) by (nonlinear_arith)
        requires
            v <= from,
            k == d + 1,
            from * d <= to,
            0 <= d,
    ;
    let p = v * z;
    crate::near::lemma_bounded(z * from - to * c, k * e * from, v as int, v as int);
    assert((z * from - to * c) * v == p * from - v * to * c && k * e * from * v == v * k * e
        * from) by (nonlinear_arith)
        requires
            p == v * z,
    ;
    let y = (to + from) * e;
    assert(v * k * e * from <= y * from) by (nonlinear_arith)
        requires
            v * k <= to + from,
            y == (to + from) * e,
            e > 0,
            from > 0,
    ;
    assert(v * to * c <= from * (to * c)) by (nonlinear_arith)
        requires
            v <= from,
            to * c >= 0,
    ;
    assert(y <= 0x20_0000 * e) by (nonlinear_arith)
        requires
            y == (to + from) * e,
            to + from <= 0x20_0000,
            e > 0,
    ;
    assert(v * to * c >= 0) by (nonlinear_arith)
        requires
            v >= 0,
            to >= 0,
            c > 0,
    ;
    assert(-y <= p <= to * c + y) by (nonlinear_arith)
        requires
            -(y * from) <= p * from - v * to * c <= y * from,
            0 <= v * to * c <= from * (to * c),
            from > 0,
    ;
    assert(x.signed() * z == p * c) by (nonlinear_arith)
        requires
            x.signed() == v * c,
            p == v * z,
    ;
    assert(-(m * c * c) <= p * c <= m * c * c) by (nonlinear_arith)
        requires
            -y <= p <= to * c + y,
            y <= c,
            m == to + 2 * from,
            from >= 1,
            to >= 1,
            c > 0,
    ;
    crate::near::lemma_product(x, s, m);
    let a = x.times(s);
    let av = a.signed();
    assert(-(m * e) <= av - p <= m * e) by (nonlinear_arith)
        requires
            -(m * e * c) <= av * c - p * c <= m * e * c,
            c > 0,
    ;
    assert(m * e <= 0x18_0000 * e && y <= 0x10_0000 * e) by (nonlinear_arith)
        requires
            m <= 0x18_0000,
            to + from <= 0x10_0000,
            y == (to + from) * e,
            e > 0,
    ;
    reveal(Single::over_spec);
    reveal(Single::times_spec);
    crate::single::lemma_units_positive(Single::whole(from as u64));
    crate::single::lemma_round_is_a_number(
        false,
        Single::whole(to as u64).units() * vstd::arithmetic::power2::pow2(149),
        Single::whole(from as u64).units(),
    );
    crate::single::lemma_round_is_a_number(
        false,
        x.units() * s.units(),
        vstd::arithmetic::power2::pow2(149),
    );
    assert(av >= 0);
    assert(to * c <= 0x8_0000 * c) by (nonlinear_arith)
        requires
            to <= 0x8_0000,
            c > 0,
    ;
    let q = crate::near::lemma_rounded(a);
    let off = q * c - p;
    assert(-(c + c - 2 * y) <= off + off <= c + c - 2 * y);
    assert(-(c * from) <= q * c * from - v * to * c <= c * from) by (nonlinear_arith)
        requires
            off == q * c - p,
            -(c + c - 2 * y) <= off + off <= c + c - 2 * y,
            -(y * from) <= p * from - v * to * c <= y * from,
            from > 0,
    ;
    let near = q * from - v * to;
    assert(near * c == q * c * from - v * to * c && from * c == c * from) by (nonlinear_arith)
        requires
            near == q * from - v * to,
    ;
    crate::near::lemma_divided(near, from, c);
    let r = a.rounded();
    if least == 1 {
        crate::near::lemma_smaller_larger(r, Single::whole(1));
        let big = r.larger(Single::whole(1));
        crate::near::lemma_cut(big, u32::MAX as u64);
        let f = scaled_spec(v, s, least) as int;
        if q >= 1 {
            assert(q * c >= 1 * c) by (nonlinear_arith)
                requires
                    q >= 1,
                    c > 0,
            ;
            assert(f == q) by (nonlinear_arith)
                requires
                    f * c <= q * c,
                    f < u32::MAX ==> q * c < (f + 1) * c,
                    q <= 0x80_0000,
                    f <= u32::MAX,
                    c > 0,
            ;
        } else {
            assert(0 * c == 0);
            assert(f == 1) by (nonlinear_arith)
                requires
                    f * c <= 1 * c,
                    f < u32::MAX ==> 1 * c < (f + 1) * c,
                    c > 0,
            ;
            assert(0 * from == 0);
            assert(v * to >= 0) by (nonlinear_arith)
                requires
                    v >= 0,
                    to >= 0,
            ;
        }
    }
}

/// A rectangle in an image.
pub open spec fn lies_in(r: Rect, size: (int, int)) -> bool {
    r.x + r.width <= size.0 && r.y + r.height <= size.1
}

/// A crop of an image by way of what was found on its proxy, with a base sample `hint` in it.
pub open spec fn found_by_way(
    image: FilmImage,
    sample: Option<Rect>,
    c: AutoCropResult,
    hint: Option<Rect>,
    found: AutoCropResult,
) -> bool {
    let size = (image.width as int, image.height as int);
    let (pw, ph, samples) = proxy_of(image);
    &&& crop_of(reading(pw, ph, samples, hint)) == Some(found)
    &&& proportionate(c.rect, size, found.rect, (pw, ph))
    &&& c.confidence == found.confidence
    &&& c.surround == found.surround
    &&& c.format_hint == found.format_hint
    &&& match (sample, hint) {
        (None, None) => true,
        (Some(s), Some(h)) => lies_in(s, size) ==> proportionate(h, (pw, ph), s, size),
        _ => false,
    }
}

/// A crop is the one found on the proxy, in proportion; so is the base sample that it is found by.
#[verifier::opaque]
pub open spec fn found_on_proxy(
    image: FilmImage,
    sample: Option<Rect>,
    c: AutoCropResult,
) -> bool {
    exists|hint: Option<Rect>, found: AutoCropResult| #[trigger]
        found_by_way(image, sample, c, hint, found)
}

proof fn lemma_rescaled(r: Rect, from: (int, int), to: (int, int))
    requires
        lies_in(r, from),
        1 <= from.0 <= PROPORTION_MAX_SIDE,
        1 <= from.1 <= PROPORTION_MAX_SIDE,
        1 <= to.0 <= PROPORTION_MAX_SIDE,
        1 <= to.1 <= PROPORTION_MAX_SIDE,
    ensures
        proportionate(rescaled(r, from, to), to, r, from),
{
    lemma_scaled(r.x, to.0, from.0, 0);
    lemma_scaled(r.y, to.1, from.1, 0);
    lemma_scaled(r.width, to.0, from.0, 1);
    lemma_scaled(r.height, to.1, from.1, 1);
}

/// What is cut at the edge of an image stays in proportion, where it was in proportion and lay in
/// its frame before.
proof fn lemma_cut_in_proportion(x: int, width: int, w: int, fx: int, fw: int, pw: int)
    requires
        w >= 1,
        pw >= 1,
        0 <= fx,
        0 <= fw,
        0 <= x,
        0 <= width,
        fx + fw <= pw,
        in_proportion(x, w, fx, pw),
        in_proportion(width, w, fw, pw),
    ensures
        ({
            let cx = crate::aspect::min2(x, w - 1);
            let cw = crate::aspect::min2(width, w - cx);
            in_proportion(cx, w, fx, pw) && in_proportion(cw, w, fw, pw)
        }),
{
    let cx = crate::aspect::min2(x, w - 1);
    let cw = crate::aspect::min2(width, w - cx);
    assert(fx * w <= pw * w && fx * w + fw * w <= pw * w) by (nonlinear_arith)
        requires
            0 <= fw,
            fx + fw <= pw,
            w >= 1,
    ;
    assert((w - 1) * pw == pw * w - pw) by (nonlinear_arith);
    assert(cx * pw <= x * pw && cw * pw <= width * pw) by (nonlinear_arith)
        requires
            cx <= x,
            cw <= width,
            pw >= 1,
    ;
    if cw != width {
        assert(cw * pw == pw * w - cx * pw) by (nonlinear_arith)
            requires
                cw == w - cx,
        ;
    }
}

/// A crop covers the same part of the scan, from each side of it, as the frame found on the
/// proxy does of the proxy: whatever the shape of the scan.
pub proof fn crops_keep_their_proportions(image: FilmImage, sample: Option<Rect>)
    requires
        image.width <= PROPORTION_MAX_SIDE,
        image.height <= PROPORTION_MAX_SIDE,
        ({
            let (pw, ph, samples) = proxy_of(image);
            forall|hint: Option<Rect>| #[trigger]
                crop_of(reading(pw, ph, samples, hint)) matches Some(f) ==> lies_in(
                    f.rect,
                    (pw, ph),
                )
        }),
    ensures
        crop_spec(image, sample) matches Some(c) ==> found_on_proxy(image, sample, c),
{
    lemma_in_proportion(image, sample);
}

/// The base sample in pixels of the proxy.
pub open spec fn hint_of(image: FilmImage, sample: Option<Rect>) -> Option<Rect> {
    let (pw, ph, _) = proxy_of(image);
    match sample {
        Some(r) => Some(rescaled(r, (image.width as int, image.height as int), (pw, ph))),
        None => None,
    }
}

proof fn lemma_in_proportion(image: FilmImage, sample: Option<Rect>)
    requires
        image.width <= PROPORTION_MAX_SIDE,
        image.height <= PROPORTION_MAX_SIDE,
        ({
            let (pw, ph, samples) = proxy_of(image);
            crop_of(reading(pw, ph, samples, hint_of(image, sample))) matches Some(f) ==> lies_in(
                f.rect,
                (pw, ph),
            )
        }),
    ensures
        crop_spec(image, sample) matches Some(c) ==> found_on_proxy(image, sample, c),
{
    if let Some(c) = crop_spec(image, sample) {
        let size = (image.width as int, image.height as int);
        let (pw, ph, samples) = proxy_of(image);
        lemma_proxy_is_no_larger(image);
        let hint = hint_of(image, sample);
        let found = crop_of(reading(pw, ph, samples, hint))->0;
        assert(lies_in(found.rect, (pw, ph)));
        lemma_rescaled(found.rect, (pw, ph), size);
        let r = rescaled(found.rect, (pw, ph), size);
        lemma_cut_in_proportion(
            r.x as int,
            r.width as int,
            size.0,
            found.rect.x as int,
            found.rect.width as int,
            pw,
        );
        lemma_cut_in_proportion(
            r.y as int,
            r.height as int,
            size.1,
            found.rect.y as int,
            found.rect.height as int,
            ph,
        );
        if let Some(s) = sample {
            if lies_in(s, size) {
                lemma_rescaled(s, size, (pw, ph));
            }
        }
        reveal(found_on_proxy);
        assert(found_by_way(image, sample, c, hint, found));
    }
}

proof fn lemma_proxy_is_no_larger(image: FilmImage)
    ensures
        ({
            let (pw, ph, _) = proxy_of(image);
            &&& pw <= image.width || pw == 1
            &&& ph <= image.height || ph == 1
        }),
{
    let max = CROP_PROXY_MAX_SIDE as int;
    let long = crate::film::longer_side(image);
    if crate::film::reduced(image, max) {
        crate::film::lemma_proxy_side(image.width as int, long, max);
        crate::film::lemma_proxy_side(image.height as int, long, max);
    }
}

/// The crop on a proxy lies in the frame that was found there, drawn in from both sides alike; it
/// is never beside it.
pub proof fn crops_lie_in_the_found_frame(r: ReadingView)
    requires
        r.bounds().within(r.t.width, r.t.height),
        r.t.width <= u32::MAX,
        r.t.height <= u32::MAX,
        r.t.width <= usize::MAX,
        r.t.height <= usize::MAX,
    ensures
        crop_of(r) matches Some(c) ==> {
            let b = r.bounds();
            &&& lies_in(c.rect, (r.t.width, r.t.height))
            &&& b.left <= c.rect.x
            &&& c.rect.x + c.rect.width <= b.right
            &&& b.top <= c.rect.y
            &&& c.rect.y + c.rect.height <= b.bottom
            &&& c.rect.x - b.left == b.right - (c.rect.x + c.rect.width)
            &&& c.rect.y - b.top == b.bottom - (c.rect.y + c.rect.height)
            &&& c.rect.x - b.left <= 6 || c.rect.y - b.top <= 6
        },
{
    let b = r.bounds();
    if crop_of(r) is Some {
        crate::aspect::snapping_moves_edges_in(b);
        let s = crate::aspect::snap_spec(b).0;
        crate::aspect::inset_moves_edges_in(s, r.t.width, r.t.height);
    }
}

} // verus!
