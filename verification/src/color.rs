//! Colour helpers of the print: XYZ and Lab, separation of colours, density levels, and the
//! gains for a colour temperature.
//!
//! Powers, roots and logarithms are the machine's: each function that needs one is handed it.

use vstd::prelude::*;
use vstd::arithmetic::power2::*;
use crate::color_space::{linear_to_srgb, srgb_to_linear};
use crate::film::FilmImage;
use crate::single::Single;

verus! {

/// A colour by three numbers.
#[derive(Debug, Clone, Copy, PartialEq, Eq, Structural)]
pub struct Triple {
    pub a: Single,
    pub b: Single,
    pub c: Single,
}

/// `x · a + y · b + z · c`, from left to right.
pub open spec fn mix(x: Single, y: Single, z: Single, v: Triple) -> Single {
    x.times(v.a).plus(y.times(v.b)).plus(z.times(v.c))
}

fn mixed(x: Single, y: Single, z: Single, v: Triple) -> (r: Single)
    ensures
        r == mix(x, y, z, v),
{
    x.times(v.a).plus(y.times(v.b)).plus(z.times(v.c))
}

/// Linear Rec.709 as XYZ, with a white of D65.
pub open spec fn to_xyz(v: Triple) -> Triple {
    Triple {
        a: mix(
            Single::ratio(4_124_564, 10_000_000),
            Single::ratio(3_575_761, 10_000_000),
            Single::ratio(1_804_375, 10_000_000),
            v,
        ),
        b: mix(
            Single::ratio(2_126_729, 10_000_000),
            Single::ratio(7_151_522, 10_000_000),
            Single::ratio(721_750, 10_000_000),
            v,
        ),
        c: mix(
            Single::ratio(193_339, 10_000_000),
            Single::ratio(1_191_920, 10_000_000),
            Single::ratio(9_503_041, 10_000_000),
            v,
        ),
    }
}

/// Linear Rec.709 to XYZ.
pub fn rgb_linear_to_xyz(v: Triple) -> (r: Triple)
    ensures
        r == to_xyz(v),
{
    Triple {
        a: mixed(
            Single::ratio(4_124_564, 10_000_000),
            Single::ratio(3_575_761, 10_000_000),
            Single::ratio(1_804_375, 10_000_000),
            v,
        ),
        b: mixed(
            Single::ratio(2_126_729, 10_000_000),
            Single::ratio(7_151_522, 10_000_000),
            Single::ratio(721_750, 10_000_000),
            v,
        ),
        c: mixed(
            Single::ratio(193_339, 10_000_000),
            Single::ratio(1_191_920, 10_000_000),
            Single::ratio(9_503_041, 10_000_000),
            v,
        ),
    }
}

/// XYZ as linear Rec.709.
pub open spec fn to_rgb(v: Triple) -> Triple {
    Triple {
        // 3.2404542, 1.5371385 and 0.4985314
        a: Single { bits: 0x404f_639a }.times(v.a).minus(
            Single::ratio(15_371_385, 10_000_000).times(v.b),
        ).minus(Single::ratio(4_985_314, 10_000_000).times(v.c)),
        // -0.9692660, 1.8760108 and 0.0415560
        b: Single::ratio(9_692_660, 10_000_000).neg().times(v.a).plus(
            Single { bits: 0x3ff0_211f }.times(v.b),
        ).plus(Single::ratio(415_560, 10_000_000).times(v.c)),
        c: Single::ratio(556_434, 10_000_000).times(v.a).minus(
            Single::ratio(2_040_259, 10_000_000).times(v.b),
        ).plus(Single::ratio(10_572_252, 10_000_000).times(v.c)),
    }
}

/// XYZ to linear Rec.709.
pub fn xyz_to_rgb_linear(v: Triple) -> (r: Triple)
    ensures
        r == to_rgb(v),
{
    Triple {
        a: Single { bits: 0x404f_639a }.times(v.a).minus(
            Single::ratio(15_371_385, 10_000_000).times(v.b),
        ).minus(Single::ratio(4_985_314, 10_000_000).times(v.c)),
        b: Single::ratio(9_692_660, 10_000_000).neg().times(v.a).plus(
            Single { bits: 0x3ff0_211f }.times(v.b),
        ).plus(Single::ratio(415_560, 10_000_000).times(v.c)),
        c: Single::ratio(556_434, 10_000_000).times(v.a).minus(
            Single::ratio(2_040_259, 10_000_000).times(v.b),
        ).plus(Single::ratio(10_572_252, 10_000_000).times(v.c)),
    }
}

/// Where the cube root of Lab gives way to a straight line.
pub open spec fn lab_eps() -> Single {
    Single::ratio(216, 24_389)
}

/// Slope of that line.
pub open spec fn lab_kappa() -> Single {
    Single::ratio(24_389, 27)
}

/// XYZ as parts of the white of D65.
pub open spec fn of_white(v: Triple) -> Triple {
    Triple {
        a: v.a.over(Single::ratio(95_047, 100_000)),
        b: v.b.over(Single::whole(1)),
        c: v.c.over(Single::ratio(108_883, 100_000)),
    }
}

/// The compressed value of a part of white whose cube root is `root`.
pub open spec fn lab_f(t: Single, root: Single) -> Single {
    if lab_eps().less(t) {
        root
    } else {
        lab_kappa().times(t).plus(Single::whole(16)).over(Single::whole(116))
    }
}

/// Lab of three compressed values.
pub open spec fn lab_of(f: Triple) -> Triple {
    Triple {
        a: Single::whole(116).times(f.b).minus(Single::whole(16)),
        b: Single::whole(500).times(f.a.minus(f.b)),
        c: Single::whole(200).times(f.b.minus(f.c)),
    }
}

/// XYZ as parts of white.
pub fn parts_of_white(v: Triple) -> (r: Triple)
    ensures
        r == of_white(v),
{
    Triple {
        a: v.a.over(Single::ratio(95_047, 100_000)),
        b: v.b.over(Single::whole(1)),
        c: v.c.over(Single::ratio(108_883, 100_000)),
    }
}

fn compressed(t: Single, root: Single) -> (r: Single)
    ensures
        r == lab_f(t, root),
{
    if Single::ratio(216, 24_389).less(t) {
        root
    } else {
        Single::ratio(24_389, 27).times(t).plus(Single::whole(16)).over(Single::whole(116))
    }
}

/// Lab of a colour, from its parts of white and their cube roots.
pub fn xyz_to_lab(parts: Triple, roots: Triple) -> (r: Triple)
    ensures
        r == lab_of(
            Triple {
                a: lab_f(parts.a, roots.a),
                b: lab_f(parts.b, roots.b),
                c: lab_f(parts.c, roots.c),
            },
        ),
{
    let fx: Single = compressed(parts.a, roots.a);
    let fy: Single = compressed(parts.b, roots.b);
    let fz: Single = compressed(parts.c, roots.c);
    Triple {
        a: Single::whole(116).times(fy).minus(Single::whole(16)),
        b: Single::whole(500).times(fx.minus(fy)),
        c: Single::whole(200).times(fy.minus(fz)),
    }
}

/// The part of white of a compressed value.
pub open spec fn lab_f_inv(t: Single) -> Single {
    let cube = t.times(t).times(t);
    if lab_eps().less(cube) {
        cube
    } else {
        Single::whole(116).times(t).minus(Single::whole(16)).over(lab_kappa())
    }
}

fn expanded(t: Single) -> (r: Single)
    ensures
        r == lab_f_inv(t),
{
    let cube: Single = t.times(t).times(t);
    if Single::ratio(216, 24_389).less(cube) {
        cube
    } else {
        Single::whole(116).times(t).minus(Single::whole(16)).over(Single::ratio(24_389, 27))
    }
}

/// Lab as XYZ.
pub open spec fn from_lab(v: Triple) -> Triple {
    let fy = v.a.plus(Single::whole(16)).over(Single::whole(116));
    let fx = fy.plus(v.b.over(Single::whole(500)));
    let fz = fy.minus(v.c.over(Single::whole(200)));
    Triple {
        a: lab_f_inv(fx).times(Single::ratio(95_047, 100_000)),
        b: lab_f_inv(fy).times(Single::whole(1)),
        c: lab_f_inv(fz).times(Single::ratio(108_883, 100_000)),
    }
}

/// Lab to XYZ.
pub fn lab_to_xyz(v: Triple) -> (r: Triple)
    ensures
        r == from_lab(v),
{
    let fy: Single = v.a.plus(Single::whole(16)).over(Single::whole(116));
    let fx: Single = fy.plus(v.b.over(Single::whole(500)));
    let fz: Single = fy.minus(v.c.over(Single::whole(200)));
    Triple {
        a: expanded(fx).times(Single::ratio(95_047, 100_000)),
        b: expanded(fy).times(Single::whole(1)),
        c: expanded(fz).times(Single::ratio(108_883, 100_000)),
    }
}

/// How strongly the colours of a Lab value are spread; none for a neutral.
pub open spec fn lab_gain_spec(lab: Triple, s: Single) -> Option<Single> {
    let chroma = lab.b.times(lab.b).plus(lab.c.times(lab.c)).square_root();
    if chroma.less(Single::ratio(1, 10_000)) {
        None
    } else {
        let n = chroma.over(Single::whole(100)).clamp(Single::whole(0), Single::whole(1));
        let rest = Single::whole(1).minus(n);
        let mid = Single::whole(1).plus(s.times(n.times(rest)).times(Single::whole(2)));
        let edge = Single::whole(1).plus(Single::ratio(1, 5).times(s).times(rest));
        Some(mid.times(edge).larger(Single::whole(0)))
    }
}

/// How strongly the colours of a Lab value are spread: most in the middle of the range, and
/// less the purer they are already. A neutral is left as it is.
pub fn lab_gain(lab: Triple, s: Single) -> (r: Option<Single>)
    ensures
        r == lab_gain_spec(lab, s),
{
    let chroma: Single = lab.b.times(lab.b).plus(lab.c.times(lab.c)).square_root();
    if chroma.less(Single::ratio(1, 10_000)) {
        return None;
    }
    let n: Single = chroma.over(Single::whole(100)).clamp(Single::whole(0), Single::whole(1));
    let rest: Single = Single::whole(1).minus(n);
    let mid: Single = Single::whole(1).plus(s.times(n.times(rest)).times(Single::whole(2)));
    let edge: Single = Single::whole(1).plus(Single::ratio(1, 5).times(s).times(rest));
    Some(mid.times(edge).larger(Single::whole(0)))
}

/// A value cut to zero to one.
pub open spec fn cut(v: Single) -> Single {
    v.clamp(Single::whole(0), Single::whole(1))
}

/// `r` is the code value of a linear value, cut to zero to one, by the machine's `power`.
pub open spec fn encodes<P: Fn(Single, Single) -> Single>(power: P, v: Single, r: Single) -> bool {
    exists|code: Single| #[trigger]
        crate::color_space::encodes(power, v, code) && r == cut(code)
}

/// Lab of linear RGB, where `roots` are the cube roots of its parts of white.
pub open spec fn lab_from(linear: Triple, roots: Triple) -> Triple {
    let parts = of_white(to_xyz(linear));
    lab_of(
        Triple {
            a: lab_f(parts.a, roots.a),
            b: lab_f(parts.b, roots.b),
            c: lab_f(parts.c, roots.c),
        },
    )
}

/// Linear RGB of a Lab value whose colours are spread.
pub open spec fn spread(lab: Triple, gain: Single) -> Triple {
    to_rgb(from_lab(Triple { a: lab.a, b: lab.b.times(gain), c: lab.c.times(gain) }))
}

/// One pixel before and after its colours were spread, by way of its linear values and the cube
/// roots of their parts of white.
pub open spec fn spread_by_way<P: Fn(Single, Single) -> Single, C: Fn(Single) -> Single>(
    power: P,
    root: C,
    s: Single,
    before: Triple,
    after: Triple,
    linear: Triple,
    roots: Triple,
) -> bool {
    let parts = of_white(to_xyz(linear));
    let lab = lab_from(linear, roots);
    &&& crate::color_space::decodes(power, cut(before.a), linear.a)
    &&& crate::color_space::decodes(power, cut(before.b), linear.b)
    &&& crate::color_space::decodes(power, cut(before.c), linear.c)
    &&& root.ensures((parts.a,), roots.a)
    &&& root.ensures((parts.b,), roots.b)
    &&& root.ensures((parts.c,), roots.c)
    &&& match lab_gain_spec(lab, s) {
        None => after == before,
        Some(g) => {
            let out = spread(lab, g);
            &&& encodes(power, out.a, after.a)
            &&& encodes(power, out.b, after.b)
            &&& encodes(power, out.c, after.c)
        },
    }
}

/// `after` is `before` with its colours spread by `s`, by the machine's `power` and cube `root`.
pub open spec fn separated<P: Fn(Single, Single) -> Single, C: Fn(Single) -> Single>(
    power: P,
    root: C,
    s: Single,
    before: Triple,
    after: Triple,
) -> bool {
    exists|linear: Triple, roots: Triple|
        #[trigger] spread_by_way(power, root, s, before, after, linear, roots)
}

fn encode<P: Fn(Single, Single) -> Single>(power: &P, v: Single) -> (r: Single)
    requires
        forall|a: Single, b: Single| #[trigger] power.requires((a, b)),
    ensures
        encodes(*power, v, r),
{
    let code: Single = linear_to_srgb(v, power);
    assert(crate::color_space::encodes(*power, v, code));
    code.clamp(Single::whole(0), Single::whole(1))
}

/// Spreads the colours of one pixel; a neutral is left as it is.
pub fn separate_pixel<P: Fn(Single, Single) -> Single, C: Fn(Single) -> Single>(
    px: Triple,
    s: Single,
    power: &P,
    root: &C,
) -> (r: Triple)
    requires
        forall|a: Single, b: Single| #[trigger] power.requires((a, b)),
        forall|a: Single| #[trigger] root.requires((a,)),
    ensures
        separated(*power, *root, s, px, r),
{
    let zero: Single = Single::whole(0);
    let one: Single = Single::whole(1);
    let linear: Triple = Triple {
        a: srgb_to_linear(px.a.clamp(zero, one), power),
        b: srgb_to_linear(px.b.clamp(zero, one), power),
        c: srgb_to_linear(px.c.clamp(zero, one), power),
    };
    let parts: Triple = parts_of_white(rgb_linear_to_xyz(linear));
    let roots: Triple = Triple { a: root(parts.a), b: root(parts.b), c: root(parts.c) };
    let lab: Triple = xyz_to_lab(parts, roots);
    let after: Triple = match lab_gain(lab, s) {
        None => px,
        Some(g) => {
            let out: Triple = xyz_to_rgb_linear(
                lab_to_xyz(Triple { a: lab.a, b: lab.b.times(g), c: lab.c.times(g) }),
            );
            Triple { a: encode(power, out.a), b: encode(power, out.b), c: encode(power, out.c) }
        },
    };
    proof {
        assert(spread_by_way(*power, *root, s, px, after, linear, roots));
    }
    after
}

/// The pixel at `i`, of an image with three channels.
pub open spec fn pixel(samples: Seq<Single>, i: int) -> Triple {
    Triple { a: samples[3 * i], b: samples[3 * i + 1], c: samples[3 * i + 2] }
}

/// Whether a strength does anything.
pub open spec fn matters(strength: Single) -> bool {
    !strength.abs_spec().less(Single::ratio(1, 1_000_000))
}

/// Spreads the colours of an image with samples from zero to one, by a strength from -2 to 2.
/// Neutrals stay; colours in the middle of the range move apart most.
pub fn apply_lab_separation_f32<P: Fn(Single, Single) -> Single, C: Fn(Single) -> Single>(
    image: &mut FilmImage,
    strength: Single,
    power: &P,
    root: &C,
)
    requires
        old(image).wf(),
        old(image).channels == 3,
        forall|a: Single, b: Single| #[trigger] power.requires((a, b)),
        forall|a: Single| #[trigger] root.requires((a,)),
    ensures
        final(image).wf(),
        final(image).width == old(image).width,
        final(image).height == old(image).height,
        final(image).channels == 3,
        !matters(strength) ==> final(image).samples@ == old(image).samples@,
        matters(strength) ==> forall|i: int|
            0 <= i < old(image).width * old(image).height ==> #[trigger] separated(
                *power,
                *root,
                strength.clamp(Single::whole(2).neg(), Single::whole(2)),
                pixel(old(image).samples@, i),
                pixel(final(image).samples@, i),
            ),
{
    if strength.abs().less(Single::ratio(1, 1_000_000)) {
        return;
    }
    let s: Single = strength.clamp(Single::whole(2).neg(), Single::whole(2));
    let ghost start = image.samples@;
    let ghost frame = *image;
    let total: usize = image.samples.len();
    let n: usize = total / 3;
    proof {
        let (w, h) = (image.width as int, image.height as int);
        assert(total == w * h * 3);
        assert((w * h * 3) / 3 == w * h);
    }
    let mut i: usize = 0;
    while i < n
        invariant
            i <= n,
            n * 3 == total,
            n == frame.width * frame.height,
            total == start.len(),
            image.samples@.len() == total,
            image.width == frame.width,
            image.height == frame.height,
            image.channels == frame.channels,
            forall|a: Single, b: Single| #[trigger] power.requires((a, b)),
            forall|a: Single| #[trigger] root.requires((a,)),
            forall|k: int|
                0 <= k < i ==> #[trigger] separated(
                    *power,
                    *root,
                    s,
                    pixel(start, k),
                    pixel(image.samples@, k),
                ),
            forall|k: int| 3 * i <= k < total ==> #[trigger] image.samples@[k] == start[k],
        decreases n - i,
    {
        let at: usize = 3 * i;
        let px: Triple = Triple {
            a: image.samples[at],
            b: image.samples[at + 1],
            c: image.samples[at + 2],
        };
        let out: Triple = separate_pixel(px, s, power, root);
        let ghost before = image.samples@;
        image.samples.set(at, out.a);
        image.samples.set(at + 1, out.b);
        image.samples.set(at + 2, out.c);
        proof {
            assert(px == pixel(start, i as int));
            assert(out == pixel(image.samples@, i as int));
            assert forall|k: int| 0 <= k < i + 1 implies #[trigger] separated(
                *power,
                *root,
                s,
                pixel(start, k),
                pixel(image.samples@, k),
            ) by {
                if k < i {
                    assert(pixel(image.samples@, k) == pixel(before, k));
                    assert(separated(*power, *root, s, pixel(start, k), pixel(before, k)));
                }
            }
        }
        i = i + 1;
    }
}

/// A 16-bit sample as a part of one.
pub open spec fn part_of_one(v: u16) -> Single {
    Single::whole(v as u64).times(Single::whole(1).over(Single::whole(65_535)))
}

/// A part of one on 16 bits.
pub open spec fn on_16_bits(v: Single) -> u16 {
    cut(v).times(Single::whole(65_535)).rounded().to_int(0xffff) as u16
}

/// The pixel at `i` of 16-bit samples, as parts of one.
pub open spec fn pixel_16(samples: Seq<u16>, i: int) -> Triple {
    Triple {
        a: part_of_one(samples[3 * i]),
        b: part_of_one(samples[3 * i + 1]),
        c: part_of_one(samples[3 * i + 2]),
    }
}

/// The pixel at `i` of 16-bit samples holds these parts of one.
pub open spec fn holds(samples: Seq<u16>, i: int, t: Triple) -> bool {
    samples[3 * i] == on_16_bits(t.a) && samples[3 * i + 1] == on_16_bits(t.b) && samples[3 * i + 2]
        == on_16_bits(t.c)
}

/// The pixel at `i` of `after` is that of `before` with its colours spread.
pub open spec fn separated_16<P: Fn(Single, Single) -> Single, C: Fn(Single) -> Single>(
    power: P,
    root: C,
    s: Single,
    before: Seq<u16>,
    after: Seq<u16>,
    i: int,
) -> bool {
    exists|t: Triple| #[trigger]
        separated(power, root, s, pixel_16(before, i), t) && holds(after, i, t)
}

/// Spreads the colours of 16-bit samples, three to a pixel.
pub fn apply_lab_separation_u16<P: Fn(Single, Single) -> Single, C: Fn(Single) -> Single>(
    image: &mut Vec<u16>,
    strength: Single,
    power: &P,
    root: &C,
)
    requires
        old(image)@.len() % 3 == 0,
        forall|a: Single, b: Single| #[trigger] power.requires((a, b)),
        forall|a: Single| #[trigger] root.requires((a,)),
    ensures
        final(image)@.len() == old(image)@.len(),
        !matters(strength) ==> final(image)@ == old(image)@,
        matters(strength) ==> forall|i: int|
            0 <= i < old(image)@.len() / 3 ==> #[trigger] separated_16(
                *power,
                *root,
                strength.clamp(Single::whole(2).neg(), Single::whole(2)),
                old(image)@,
                final(image)@,
                i,
            ),
{
    if strength.abs().less(Single::ratio(1, 1_000_000)) {
        return;
    }
    let ghost start = image@;
    let inv: Single = Single::whole(1).over(Single::whole(65_535));
    let total: usize = image.len();
    let mut samples: Vec<Single> = Vec::with_capacity(total);
    let mut i: usize = 0;
    while i < total
        invariant
            i <= total,
            total == start.len(),
            image@ == start,
            samples@.len() == i,
            inv == Single::whole(1).over(Single::whole(65_535)),
            forall|k: int| 0 <= k < i ==> #[trigger] samples@[k] == part_of_one(start[k]),
        decreases total - i,
    {
        samples.push(Single::whole(image[i] as u64).times(inv));
        i = i + 1;
    }
    let n: usize = total / 3;
    let mut whole: FilmImage = FilmImage { width: n, height: 1, channels: 3, samples };
    proof {
        assert(whole.samples@.len() == n * 1 * 3);
    }
    let ghost plain = whole.samples@;
    apply_lab_separation_f32(&mut whole, strength, power, root);
    proof {
        assert(whole.width * whole.height * whole.channels == n * 1 * 3);
        assert(whole.samples@.len() == total);
    }
    let mut k: usize = 0;
    while k < total
        invariant
            k <= total,
            total == whole.samples@.len(),
            image@.len() == total,
            forall|j: int| 0 <= j < k ==> #[trigger] image@[j] == on_16_bits(whole.samples@[j]),
        decreases total - k,
    {
        let q: Single = whole.samples[k].clamp(Single::whole(0), Single::whole(1)).times(
            Single::whole(65_535),
        ).rounded();
        proof {
            crate::single::lemma_to_int_bound(q, 0xffff);
        }
        image.set(k, q.to_int(0xffff) as u16);
        k = k + 1;
    }
    proof {
        let s = strength.clamp(Single::whole(2).neg(), Single::whole(2));
        assert forall|j: int| 0 <= j < start.len() / 3 implies #[trigger] separated_16(
            *power,
            *root,
            s,
            start,
            image@,
            j,
        ) by {
            assert(0 <= j < n * 1);
            let t = pixel(whole.samples@, j);
            assert(separated(*power, *root, s, pixel(plain, j), t));
            assert(pixel(plain, j) == pixel_16(start, j));
            assert(holds(image@, j, t));
        }
    }
}

/// Density levels: what is black, what is white, and where the middle lies.
#[derive(Debug, Clone, Copy, PartialEq, Eq, Structural)]
pub struct Levels {
    pub black: Single,
    pub white: Single,
    pub mid: Single,
}

impl Levels {
    /// Exponent for the middle.
    pub open spec fn exponent_spec(self) -> Single {
        Single::whole(1).over(self.mid.clamp(Single::ratio(1, 100), Single::whole(10)))
    }

    #[verifier::when_used_as_spec(exponent_spec)]
    pub fn exponent(self) -> (r: Single)
        ensures
            r == self.exponent_spec(),
    {
        Single::whole(1).over(self.mid.clamp(Single::ratio(1, 100), Single::whole(10)))
    }

    /// Whether the middle is moved at all.
    pub open spec fn bends_spec(self) -> bool {
        Single::ratio(1, 1_000_000).less(self.mid.minus(Single::whole(1)).abs_spec())
    }

    #[verifier::when_used_as_spec(bends_spec)]
    pub fn bends(self) -> (r: bool)
        ensures
            r == self.bends_spec(),
    {
        Single::ratio(1, 1_000_000).less(self.mid.minus(Single::whole(1)).abs())
    }

    /// A value from zero to one between black and white.
    pub open spec fn stretched_spec(self, v: Single) -> Single {
        cut(v.minus(self.black).over(self.white.minus(self.black).larger(Single::ratio(
            1,
            1_000_000,
        ))))
    }

    #[verifier::when_used_as_spec(stretched_spec)]
    pub fn stretched(self, v: Single) -> (r: Single)
        ensures
            r == self.stretched_spec(v),
    {
        v.minus(self.black).over(
            self.white.minus(self.black).larger(Single::ratio(1, 1_000_000)),
        ).clamp(Single::whole(0), Single::whole(1))
    }

    /// `r` is `v` put between black and white, with the middle moved by the machine's `power`.
    pub open spec fn levels<P: Fn(Single, Single) -> Single>(
        self,
        power: P,
        v: Single,
        r: Single,
    ) -> bool {
        if self.bends() {
            power.ensures((self.stretched(v), self.exponent()), r)
        } else {
            r == self.stretched(v)
        }
    }

    fn level<P: Fn(Single, Single) -> Single>(self, power: &P, v: Single) -> (r: Single)
        requires
            forall|a: Single, b: Single| #[trigger] power.requires((a, b)),
        ensures
            self.levels(*power, v, r),
    {
        let s: Single = self.stretched(v);
        if self.bends() {
            power(s, self.exponent())
        } else {
            s
        }
    }
}

/// Density as a part of the densest.
pub open spec fn of_densest(v: Single, d_max: Single) -> Single {
    cut(v.over(d_max))
}

/// Puts the densities of an image on a range from zero to one: as parts of the densest, between
/// black and white, with the middle moved.
pub fn apply_density_levels<P: Fn(Single, Single) -> Single>(
    image: &mut FilmImage,
    d_max: Single,
    levels: Levels,
    power: &P,
)
    requires
        old(image).channels == 3,
        forall|a: Single, b: Single| #[trigger] power.requires((a, b)),
    ensures
        final(image).width == old(image).width,
        final(image).height == old(image).height,
        final(image).channels == 3,
        final(image).samples@.len() == old(image).samples@.len(),
        forall|i: int|
            0 <= i < old(image).samples@.len() ==> levels.levels(
                *power,
                of_densest(old(image).samples@[i], d_max),
                #[trigger] final(image).samples@[i],
            ),
{
    let ghost start = image.samples@;
    let ghost frame = *image;
    let mut i: usize = 0;
    while i < image.samples.len()
        invariant
            i <= image.samples.len(),
            image.samples@.len() == start.len(),
            image.width == frame.width,
            image.height == frame.height,
            image.channels == frame.channels,
            forall|a: Single, b: Single| #[trigger] power.requires((a, b)),
            forall|k: int|
                0 <= k < i ==> levels.levels(
                    *power,
                    of_densest(start[k], d_max),
                    #[trigger] image.samples@[k],
                ),
            forall|k: int| i <= k < start.len() ==> #[trigger] image.samples@[k] == start[k],
        decreases image.samples.len() - i,
    {
        let v: Single = image.samples[i].over(d_max).clamp(Single::whole(0), Single::whole(1));
        let r: Single = levels.level(power, v);
        image.samples.set(i, r);
        i = i + 1;
    }
}

/// Density that a cube for the screen takes for the densest.
pub open spec fn cube_d_max() -> Single {
    Single::ratio(5, 2)
}

/// Puts the densities of an image on the range that a cube for the screen expects: as parts of
/// a density of 2.5, encoded, between black and white, with the middle moved. The cube itself
/// turns negative into positive.
pub fn density_to_rec709_leveled<P: Fn(Single, Single) -> Single>(
    image: &mut FilmImage,
    levels: Levels,
    power: &P,
)
    requires
        old(image).channels == 3,
        forall|a: Single, b: Single| #[trigger] power.requires((a, b)),
    ensures
        final(image).width == old(image).width,
        final(image).height == old(image).height,
        final(image).channels == 3,
        final(image).samples@.len() == old(image).samples@.len(),
        forall|i: int|
            0 <= i < old(image).samples@.len() ==> code_then_levels(
                *power,
                levels,
                old(image).samples@[i],
                #[trigger] final(image).samples@[i],
            ),
{
    let ghost start = image.samples@;
    let ghost frame = *image;
    let mut i: usize = 0;
    while i < image.samples.len()
        invariant
            i <= image.samples.len(),
            image.samples@.len() == start.len(),
            image.width == frame.width,
            image.height == frame.height,
            image.channels == frame.channels,
            forall|a: Single, b: Single| #[trigger] power.requires((a, b)),
            forall|k: int|
                0 <= k < i ==> code_then_levels(
                    *power,
                    levels,
                    start[k],
                    #[trigger] image.samples@[k],
                ),
            forall|k: int| i <= k < start.len() ==> #[trigger] image.samples@[k] == start[k],
        decreases image.samples.len() - i,
    {
        let v: Single = image.samples[i].over(Single::ratio(5, 2)).clamp(
            Single::whole(0),
            Single::whole(1),
        );
        let code: Single = linear_to_srgb(v, power);
        let r: Single = levels.level(power, code);
        proof {
            let part = of_densest(start[i as int], cube_d_max());
            assert(crate::color_space::encodes(*power, part, code));
            assert(code_then_levels(*power, levels, start[i as int], r));
        }
        image.samples.set(i, r);
        i = i + 1;
    }
}

/// `r` is the density `v` encoded and put between black and white.
pub open spec fn code_then_levels<P: Fn(Single, Single) -> Single>(
    power: P,
    levels: Levels,
    v: Single,
    r: Single,
) -> bool {
    let part = of_densest(v, cube_d_max());
    exists|code: Single| #[trigger]
        crate::color_space::encodes(power, part, code) && levels.levels(power, code, r)
}

/// With black at zero, white at one and the middle where it was, levels change nothing that
/// lies between.
pub proof fn plain_levels_keep_values(levels: Levels, v: Single)
    requires
        levels.black == Single::whole(0),
        levels.white == Single::whole(1),
        levels.mid == Single::whole(1),
        v.finite(),
        !v.negative(),
        v.at_most(Single::whole(1)),
    ensures
        !levels.bends(),
        levels.stretched(v) == v,
{
    reveal(Single::plus_spec);
    reveal(Single::neg_spec);
    reveal(Single::over_spec);
    reveal(Single::less_spec);
    reveal(Single::at_most_spec);
    reveal(Single::larger_spec);
    let zero = Single::whole_spec(0);
    let one = Single::whole_spec(1);
    let tiny = Single::ratio_spec(1, 1_000_000);
    crate::single::lemma_whole_exact(0);
    crate::single::lemma_whole_exact(1);
    crate::single::lemma_tiny_is_positive();
    crate::single::lemma_round_self(zero);
    crate::single::lemma_round_self(one);
    crate::single::lemma_round_self(v);
    crate::single::lemma_zero_rounds(false, 1);
    let p = pow2(149);
    lemma_pow2_pos(149);
    assert(one.units() == p);
    crate::single::lemma_scale(false, v.units(), 1, p);
    assert(one.neg_spec().units() == one.units());
    assert(zero.neg_spec().units() == zero.units());
    assert(one.minus_spec(one) == zero);
    assert(zero.abs_spec() == zero) by {
        reveal(Single::abs_spec);
    }
    crate::single::order_is_by_value(tiny, zero);
    assert(v.minus_spec(zero) == v);
    assert(one.minus_spec(zero) == one);
    assert(tiny.mag() <= one.mag()) by {
        crate::single::lemma_ratio_bounds(1, 1_000_000, zero, one);
    }
    crate::single::order_is_by_value(tiny, one);
    crate::single::order_is_by_value(v, one);
    crate::single::order_is_by_value(zero, v);
    assert(one.larger_spec(tiny) == one);
    assert(v.over_spec(one) == v);
}

/// A colour temperature in hundreds of kelvins, within the range of the fit.
pub open spec fn hundreds(temp_k: Single) -> Single {
    temp_k.over(Single::whole(100)).clamp(Single::whole(1), Single::whole(400))
}

/// A value cut to the range of a byte.
pub open spec fn in_byte(v: Single) -> Single {
    v.clamp(Single::whole(0), Single::whole(255))
}

/// Whether the temperature lies on the warm branch of the fit.
pub open spec fn warm(t: Single) -> bool {
    t.at_most(Single::whole(66))
}

/// Colour of a black body, where `x` and `y` are what the branch of the fit needs: the
/// logarithms of `t` and of `t - 10`, or the two powers of `t - 60`.
pub open spec fn body_colour(t: Single, x: Single, y: Single) -> Triple {
    if warm(t) {
        Triple {
            a: Single::whole(255),
            // 99.4708025861 and 161.1195681661
            b: in_byte(Single { bits: 0x42c6_f10d }.times(x).minus(Single { bits: 0x4321_1e9c })),
            c: in_byte(
                if Single::whole(19).less(t) {
                    // 138.5177312231 and 305.0447927307
                    Single { bits: 0x430a_848a }.times(y).minus(Single { bits: 0x4398_85bc })
                } else {
                    Single::whole(0)
                },
            ),
        }
    } else {
        Triple {
            // 329.698727446
            a: in_byte(Single { bits: 0x43a4_d970 }.times(x)),
            // 288.1221695283
            b: in_byte(Single { bits: 0x4390_0fa3 }.times(y)),
            c: Single::whole(255),
        }
    }
}

/// What brings one channel of a black body's colour to white.
pub open spec fn whitening(v: Single) -> Single {
    Single::whole(255).over(v.larger(Single::whole(1)))
}

/// The product of the three gains.
pub open spec fn gain_product(body: Triple) -> Single {
    whitening(body.a).times(whitening(body.b)).times(whitening(body.c))
}

/// The gains with a geometric mean of one, where `mean` is the one they have.
pub open spec fn balanced(body: Triple, mean: Single) -> Triple {
    Triple {
        a: whitening(body.a).over(mean),
        b: whitening(body.b).over(mean),
        c: whitening(body.c).over(mean),
    }
}

/// `x` and `y` are what [`body_colour`] needs, by the machine's logarithm and power.
pub open spec fn fit_terms<L: Fn(Single) -> Single, P: Fn(Single, Single) -> Single>(
    ln: L,
    power: P,
    t: Single,
    x: Single,
    y: Single,
) -> bool {
    if warm(t) {
        &&& ln.ensures((t,), x)
        &&& Single::whole(19).less(t) ==> ln.ensures((t.minus(Single::whole(10)),), y)
    } else {
        // the exponents -0.1332047592 and -0.0755148492
        &&& power.ensures((t.minus(Single::whole(60)), Single { bits: 0xbe08_66d4 }), x)
        &&& power.ensures((t.minus(Single::whole(60)), Single { bits: 0xbd9a_a787 }), y)
    }
}

/// The gains that a temperature asks for, by way of the terms of the fit and of the mean.
pub open spec fn gains_by_way<
    L: Fn(Single) -> Single,
    P: Fn(Single, Single) -> Single,
    C: Fn(Single) -> Single,
>(ln: L, power: P, root: C, t: Single, r: Triple, x: Single, y: Single, mean: Single) -> bool {
    let body = body_colour(t, x, y);
    &&& fit_terms(ln, power, t, x, y)
    &&& root.ensures((gain_product(body),), mean)
    &&& r == balanced(body, mean)
}

fn whiten(v: Single) -> (r: Single)
    ensures
        r == whitening(v),
{
    Single::whole(255).over(v.larger(Single::whole(1)))
}

/// White-balance gains for a colour temperature: what turns the light of a black body white,
/// with a geometric mean of one. Warm light asks for cool gains.
pub fn temp_k_to_wb_gains<
    L: Fn(Single) -> Single,
    P: Fn(Single, Single) -> Single,
    C: Fn(Single) -> Single,
>(temp_k: Single, ln: &L, power: &P, root: &C) -> (r: Triple)
    requires
        forall|a: Single| #[trigger] ln.requires((a,)),
        forall|a: Single, b: Single| #[trigger] power.requires((a, b)),
        forall|a: Single| #[trigger] root.requires((a,)),
    ensures
        exists|x: Single, y: Single, mean: Single| #[trigger]
            gains_by_way(*ln, *power, *root, hundreds(temp_k), r, x, y, mean),
{
    let t: Single = temp_k.over(Single::whole(100)).clamp(Single::whole(1), Single::whole(400));
    let low: Single = Single::whole(0);
    let high: Single = Single::whole(255);
    let (x, y): (Single, Single);
    let body: Triple;
    if t.at_most(Single::whole(66)) {
        x = ln(t);
        y = if Single::whole(19).less(t) {
            ln(t.minus(Single::whole(10)))
        } else {
            Single::whole(0)
        };
        body = Triple {
            a: high,
            b: Single { bits: 0x42c6_f10d }.times(x).minus(Single { bits: 0x4321_1e9c }).clamp(
                low,
                high,
            ),
            c: (if Single::whole(19).less(t) {
                Single { bits: 0x430a_848a }.times(y).minus(Single { bits: 0x4398_85bc })
            } else {
                Single::whole(0)
            }).clamp(low, high),
        };
    } else {
        let base: Single = t.minus(Single::whole(60));
        x = power(base, Single { bits: 0xbe08_66d4 });
        y = power(base, Single { bits: 0xbd9a_a787 });
        body = Triple {
            a: Single { bits: 0x43a4_d970 }.times(x).clamp(low, high),
            b: Single { bits: 0x4390_0fa3 }.times(y).clamp(low, high),
            c: high,
        };
    }
    let (gain_r, gain_g, gain_b) = (whiten(body.a), whiten(body.b), whiten(body.c));
    let mean: Single = root(gain_r.times(gain_g).times(gain_b));
    let r: Triple = Triple {
        a: gain_r.over(mean),
        b: gain_g.over(mean),
        c: gain_b.over(mean),
    };
    proof {
        assert(body == body_colour(t, x, y));
        assert(gains_by_way(*ln, *power, *root, hundreds(temp_k), r, x, y, mean));
    }
    r
}

} // verus!
