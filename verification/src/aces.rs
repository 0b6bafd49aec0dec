//! Changes of primaries: camera, ACEScg, ACES2065-1 and Rec.709.

use vstd::prelude::*;
use crate::film::FilmImage;
use crate::single::Single;

verus! {

/// Three by three numbers, row by row.
pub type Matrix = [[Single; 3]; 3];

/// Input transform of a camera, from its linear RGB to ACEScg.
#[derive(Debug, Clone)]
pub struct IdtProfile {
    pub name: String,
    pub matrix: Matrix,
}

/// The matrix holds these bit patterns, row by row.
pub open spec fn has_bits(m: Matrix, bits: Seq<u32>) -> bool {
    forall|i: int, j: int|
        0 <= i < 3 && 0 <= j < 3 ==> (#[trigger] m@[i]@[j]).bits == bits[3 * i + j]
}

/// The numbers of the change from ACEScg to ACES2065-1: 0.6954522414, 0.1406786965,
/// 0.1638690622; 0.0447945634, 0.8596711185, 0.0955343182; -0.0055258826, 0.0040252103,
/// 1.0015006723.
pub open spec fn ap1_to_ap0() -> Seq<u32> {
    seq![
        0x3f32_0928u32,
        0x3e10_0e14u32,
        0x3e27_cd4bu32,
        0x3d37_7a81u32,
        0x3f5c_1368u32,
        0x3dc3_a77fu32,
        0xbbb5_1277u32,
        0x3b83_e5e9u32,
        0x3f80_312du32,
    ]
}

/// The numbers of the change from ACEScg to linear Rec.709: 1.705051, -0.621815, -0.083236;
/// -0.130256, 1.140801, -0.010545; -0.024007, -0.128984, 1.152991.
pub open spec fn ap1_to_rec709() -> Seq<u32> {
    seq![
        0x3fda_3f1cu32,
        0xbf1f_2f45u32,
        0xbdaa_77a3u32,
        0xbe05_61d4u32,
        0x3f92_05c4u32,
        0xbc2c_c4f0u32,
        0xbcc4_aa54u32,
        0xbe04_1462u32,
        0x3f93_9536u32,
    ]
}

fn bits(b: u32) -> (r: Single)
    ensures
        r.bits == b,
{
    Single { bits: b }
}

/// ACEScg to ACES2065-1.
pub fn acescg_to_aces2065_1() -> (m: Matrix)
    ensures
        has_bits(m, ap1_to_ap0()),
{
    [
        [bits(0x3f32_0928), bits(0x3e10_0e14), bits(0x3e27_cd4b)],
        [bits(0x3d37_7a81), bits(0x3f5c_1368), bits(0x3dc3_a77f)],
        [bits(0xbbb5_1277), bits(0x3b83_e5e9), bits(0x3f80_312d)],
    ]
}

/// ACEScg to linear Rec.709.
pub fn acescg_to_linear_srgb() -> (m: Matrix)
    ensures
        has_bits(m, ap1_to_rec709()),
{
    [
        [bits(0x3fda_3f1c), bits(0xbf1f_2f45), bits(0xbdaa_77a3)],
        [bits(0xbe05_61d4), bits(0x3f92_05c4), bits(0xbc2c_c4f0)],
        [bits(0xbcc4_aa54), bits(0xbe04_1462), bits(0x3f93_9536)],
    ]
}

/// A number of the unit matrix.
pub open spec fn unit_entry(i: int, j: int) -> Single {
    Single::whole(if i == j { 1 } else { 0 })
}

/// No number of the matrix is further than a millionth from the unit matrix.
pub open spec fn near_unit(m: Matrix) -> bool {
    forall|i: int, j: int|
        0 <= i < 3 && 0 <= j < 3 ==> !Single::ratio(1, 1_000_000).less(
            (#[trigger] m@[i]@[j]).minus(unit_entry(i, j)).abs(),
        )
}

/// Whether a matrix is the identity, or as good as it: then no input transform was chosen, and
/// camera RGB is not to be taken for ACEScg.
pub fn is_identity(m: &Matrix) -> (r: bool)
    ensures
        r == near_unit(*m),
{
    let eps: Single = Single::ratio(1, 1_000_000);
    let mut i: usize = 0;
    while i < 3
        invariant
            i <= 3,
            eps == Single::ratio(1, 1_000_000),
            forall|a: int, b: int|
                0 <= a < i && 0 <= b < 3 ==> !eps.less(
                    (#[trigger] m@[a]@[b]).minus(unit_entry(a, b)).abs(),
                ),
        decreases 3 - i,
    {
        let mut j: usize = 0;
        while j < 3
            invariant
                i < 3,
                j <= 3,
                eps == Single::ratio(1, 1_000_000),
                forall|a: int, b: int|
                    0 <= a < 3 && 0 <= b < 3 && (a < i || (a == i && b < j)) ==> !eps.less(
                        (#[trigger] m@[a]@[b]).minus(unit_entry(a, b)).abs(),
                    ),
            decreases 3 - j,
        {
            let expected: Single = Single::whole(if i == j { 1 } else { 0 });
            if eps.less(m[i][j].minus(expected).abs()) {
                assert(eps.less(m@[i as int]@[j as int].minus(unit_entry(i as int, j as int)).abs()));
                return false;
            }
            j = j + 1;
        }
        i = i + 1;
    }
    true
}

/// Channel `c` of a colour under a matrix.
pub open spec fn changed(m: Matrix, r: Single, g: Single, b: Single, c: int) -> Single {
    crate::curve::matrixed(m, r, g, b, c)
}

/// Every pixel of `after` is the pixel of `before` under the matrix.
pub open spec fn changed_by(after: Seq<Single>, before: Seq<Single>, m: Matrix) -> bool {
    &&& after.len() == before.len()
    &&& forall|i: int, c: int|
        0 <= i < before.len() / 3 && 0 <= c < 3 ==> #[trigger] after[3 * i + c] == changed(
            m,
            before[3 * i],
            before[3 * i + 1],
            before[3 * i + 2],
            c,
        )
}

/// Applies a matrix to each pixel: row `c` makes channel `c`.
pub fn apply_idt(image: &mut FilmImage, matrix: &Matrix)
    requires
        old(image).wf(),
        old(image).channels == 3,
    ensures
        final(image).wf(),
        final(image).width == old(image).width,
        final(image).height == old(image).height,
        final(image).channels == 3,
        changed_by(final(image).samples@, old(image).samples@, *matrix),
{
    let n: usize = image.samples.len() / 3;
    proof {
        let a = image.width * image.height;
        assert(image.width * image.height * image.channels == a * 3);
    }
    let ghost start = image.samples@;
    let ghost frame = *image;
    let mut i: usize = 0;
    while i < n
        invariant
            i <= n,
            n * 3 == start.len(),
            n * 3 <= usize::MAX,
            image.samples@.len() == start.len(),
            image.width == frame.width,
            image.height == frame.height,
            image.channels == frame.channels,
            forall|k: int, c: int|
                0 <= k < i && 0 <= c < 3 ==> #[trigger] image.samples@[3 * k + c] == changed(
                    *matrix,
                    start[3 * k],
                    start[3 * k + 1],
                    start[3 * k + 2],
                    c,
                ),
            forall|k: int| 3 * i <= k < start.len() ==> #[trigger] image.samples@[k] == start[k],
        decreases n - i,
    {
        let r: Single = image.samples[3 * i];
        let g: Single = image.samples[3 * i + 1];
        let b: Single = image.samples[3 * i + 2];
        let x: Single = matrix[0][0].times(r).plus(matrix[0][1].times(g)).plus(
            matrix[0][2].times(b),
        );
        let y: Single = matrix[1][0].times(r).plus(matrix[1][1].times(g)).plus(
            matrix[1][2].times(b),
        );
        let z: Single = matrix[2][0].times(r).plus(matrix[2][1].times(g)).plus(
            matrix[2][2].times(b),
        );
        let ghost before = image.samples@;
        image.samples.set(3 * i, x);
        image.samples.set(3 * i + 1, y);
        image.samples.set(3 * i + 2, z);
        proof {
            assert forall|k: int, c: int|
                0 <= k < i + 1 && 0 <= c < 3 implies #[trigger] image.samples@[3 * k + c]
                == changed(*matrix, start[3 * k], start[3 * k + 1], start[3 * k + 2], c) by {
                if k < i {
                    assert(image.samples@[3 * k + c] == before[3 * k + c]);
                }
            }
        }
        i = i + 1;
    }
}

/// `after` is `before` changed by the matrix with these numbers.
pub open spec fn changed_by_bits(after: Seq<Single>, before: Seq<Single>, bits: Seq<u32>) -> bool {
    exists|m: Matrix| #[trigger] has_bits(m, bits) && changed_by(after, before, m)
}

/// Brings linear ACEScg to ACES2065-1.
pub fn linear_acescg_to_aces2065_1(image: &mut FilmImage)
    requires
        old(image).wf(),
        old(image).channels == 3,
    ensures
        final(image).wf(),
        final(image).width == old(image).width,
        final(image).height == old(image).height,
        final(image).channels == 3,
        changed_by_bits(final(image).samples@, old(image).samples@, ap1_to_ap0()),
{
    apply_idt(image, &acescg_to_aces2065_1());
}

/// Brings linear ACEScg to linear Rec.709.
pub fn linear_acescg_to_linear_srgb(image: &mut FilmImage)
    requires
        old(image).wf(),
        old(image).channels == 3,
    ensures
        final(image).wf(),
        final(image).width == old(image).width,
        final(image).height == old(image).height,
        final(image).channels == 3,
        changed_by_bits(final(image).samples@, old(image).samples@, ap1_to_rec709()),
{
    apply_idt(image, &acescg_to_linear_srgb());
}

/// `inverse` is what `invert` gave for the change from ACEScg to Rec.709.
pub open spec fn inverse_by<I: Fn(Matrix) -> Option<Matrix>>(
    invert: I,
    inverse: Option<Matrix>,
) -> bool {
    exists|m: Matrix| has_bits(m, ap1_to_rec709()) && #[trigger] invert.ensures((m,), inverse)
}

/// Samples after the way back from Rec.709, which stay as they are where it has no inverse.
pub open spec fn brought_back(
    after: Seq<Single>,
    before: Seq<Single>,
    inverse: Option<Matrix>,
) -> bool {
    match inverse {
        Some(m) => changed_by(after, before, m),
        None => after == before,
    }
}

/// Brings linear Rec.709 to ACEScg by the inverse of the way back; an image for which there is
/// none stays as it is.
pub fn linear_srgb_to_acescg<I: Fn(Matrix) -> Option<Matrix>>(image: &mut FilmImage, invert: &I)
    requires
        old(image).wf(),
        old(image).channels == 3,
        forall|a: Matrix| #[trigger] invert.requires((a,)),
    ensures
        final(image).wf(),
        final(image).width == old(image).width,
        final(image).height == old(image).height,
        final(image).channels == 3,
        exists|inverse: Option<Matrix>| #[trigger]
            inverse_by(*invert, inverse) && brought_back(
                final(image).samples@,
                old(image).samples@,
                inverse,
            ),
{
    let m: Matrix = acescg_to_linear_srgb();
    let inverse: Option<Matrix> = invert(m);
    assert(invert.ensures((m,), inverse));
    assert(inverse_by(*invert, inverse));
    if let Some(m) = inverse {
        apply_idt(image, &m);
    }
}

/// Brings a linear print to ACES2065-1. Only a print that is Rec.709 is brought there: camera
/// RGB taken for ACEScg would shift its colours, so it stays as it is.
pub fn linear_print_to_aces2065_1<I: Fn(Matrix) -> Option<Matrix>>(
    image: &mut FilmImage,
    working_space_is_rec709: bool,
    invert: &I,
)
    requires
        old(image).wf(),
        old(image).channels == 3,
        forall|a: Matrix| #[trigger] invert.requires((a,)),
    ensures
        final(image).wf(),
        final(image).width == old(image).width,
        final(image).height == old(image).height,
        final(image).channels == 3,
        !working_space_is_rec709 ==> final(image).samples@ == old(image).samples@,
        working_space_is_rec709 ==> exists|inverse: Option<Matrix>, mid: Seq<Single>|
            {
                &&& #[trigger] inverse_by(*invert, inverse)
                &&& #[trigger] brought_back(mid, old(image).samples@, inverse)
                &&& changed_by_bits(final(image).samples@, mid, ap1_to_ap0())
            },
{
    if !working_space_is_rec709 {
        return;
    }
    linear_srgb_to_acescg(image, invert);
    let ghost mid = image.samples@;
    linear_acescg_to_aces2065_1(image);
    proof {
        let inverse = choose|inverse: Option<Matrix>| #[trigger]
            inverse_by(*invert, inverse) && brought_back(mid, old(image).samples@, inverse);
        assert(brought_back(mid, old(image).samples@, inverse));
    }
}

/// A value of a print under a matrix, cut to its range.
pub open spec fn changed_value(m: Matrix, r: u16, g: u16, b: u16, c: int) -> u16 {
    let scale = Single::whole(1).over(Single::whole(65_535));
    crate::curve::quantized(
        crate::curve::part(
            changed(
                m,
                Single::whole(r as u64).times(scale),
                Single::whole(g as u64).times(scale),
                Single::whole(b as u64).times(scale),
                c,
            ),
        ),
    )
}

fn change_value(row: &[Single; 3], r: Single, g: Single, b: Single) -> (v: u16)
    ensures
        v == crate::curve::quantized(
            crate::curve::part(row@[0].times(r).plus(row@[1].times(g)).plus(row@[2].times(b))),
        ),
{
    let x: Single = row[0].times(r).plus(row[1].times(g)).plus(row[2].times(b)).clamp(
        Single::whole(0),
        Single::whole(1),
    );
    let q: Single = x.times(Single::whole(65_535)).rounded();
    proof {
        crate::single::lemma_to_int_bound(q, 0xffff);
    }
    q.to_int(0xffff) as u16
}

/// Brings a print in linear ACEScg, 16 bits to a value, to linear Rec.709.
pub fn convert_u16_linear_acescg_to_linear_srgb(image: &mut Vec<u16>)
    requires
        old(image).len() % 3 == 0,
    ensures
        final(image).len() == old(image).len(),
        exists|m: Matrix|
            #[trigger] has_bits(m, ap1_to_rec709()) && forall|i: int, c: int|
                0 <= i < old(image).len() / 3 && 0 <= c < 3 ==> #[trigger] final(image)@[3 * i + c]
                    == changed_value(
                    m,
                    old(image)@[3 * i],
                    old(image)@[3 * i + 1],
                    old(image)@[3 * i + 2],
                    c,
                ),
{
    let m: Matrix = acescg_to_linear_srgb();
    let scale: Single = Single::whole(1).over(Single::whole(65_535));
    let n: usize = image.len() / 3;
    let ghost start = image@;
    let mut i: usize = 0;
    while i < n
        invariant
            i <= n,
            n * 3 == start.len(),
            n * 3 <= usize::MAX,
            image@.len() == start.len(),
            scale == Single::whole(1).over(Single::whole(65_535)),
            forall|k: int, c: int|
                0 <= k < i && 0 <= c < 3 ==> #[trigger] image@[3 * k + c] == changed_value(
                    m,
                    start[3 * k],
                    start[3 * k + 1],
                    start[3 * k + 2],
                    c,
                ),
            forall|k: int| 3 * i <= k < start.len() ==> #[trigger] image@[k] == start[k],
        decreases n - i,
    {
        let r: Single = Single::whole(image[3 * i] as u64).times(scale);
        let g: Single = Single::whole(image[3 * i + 1] as u64).times(scale);
        let b: Single = Single::whole(image[3 * i + 2] as u64).times(scale);
        let x: u16 = change_value(&m[0], r, g, b);
        let y: u16 = change_value(&m[1], r, g, b);
        let z: u16 = change_value(&m[2], r, g, b);
        let ghost before = image@;
        image.set(3 * i, x);
        image.set(3 * i + 1, y);
        image.set(3 * i + 2, z);
        proof {
            assert forall|k: int, c: int|
                0 <= k < i + 1 && 0 <= c < 3 implies #[trigger] image@[3 * k + c]
                == changed_value(m, start[3 * k], start[3 * k + 1], start[3 * k + 2], c) by {
                if k < i {
                    assert(image@[3 * k + c] == before[3 * k + c]);
                }
            }
        }
        i = i + 1;
    }
    assert(has_bits(m, ap1_to_rec709()));
}

/// `r` is `m` as it acts in the space that `t` leads to: `t · m · t⁻¹` by the machine's product
/// and inverse, or `m` itself where `t` has no inverse.
pub open spec fn moved_by<I: Fn(Matrix) -> Option<Matrix>, T: Fn(Matrix, Matrix) -> Matrix>(
    invert: I,
    multiply: T,
    t: Matrix,
    m: Matrix,
    r: Matrix,
) -> bool {
    ||| invert.ensures((t,), None) && r == m
    ||| exists|inverse: Matrix, half: Matrix| #[trigger]
        invert.ensures((t,), Some(inverse)) && #[trigger] multiply.ensures((t, m), half)
            && multiply.ensures((half, inverse), r)
}

fn move_by<I: Fn(Matrix) -> Option<Matrix>, T: Fn(Matrix, Matrix) -> Matrix>(
    m: Matrix,
    t: Matrix,
    invert: &I,
    multiply: &T,
) -> (r: Matrix)
    requires
        forall|a: Matrix| #[trigger] invert.requires((a,)),
        forall|a: Matrix, b: Matrix| #[trigger] multiply.requires((a, b)),
    ensures
        moved_by(*invert, *multiply, t, m, r),
{
    match invert(t) {
        None => m,
        Some(inverse) => {
            let half: Matrix = multiply(t, m);
            multiply(half, inverse)
        },
    }
}

/// A density matrix made for camera RGB, as it acts in ACEScg. `invert` and `multiply` are the
/// inverse and the product of matrices.
pub fn convert_density_matrix_to_acescg<
    I: Fn(Matrix) -> Option<Matrix>,
    T: Fn(Matrix, Matrix) -> Matrix,
>(m_cam: Matrix, idt: &Matrix, invert: &I, multiply: &T) -> (r: Matrix)
    requires
        forall|a: Matrix| #[trigger] invert.requires((a,)),
        forall|a: Matrix, b: Matrix| #[trigger] multiply.requires((a, b)),
    ensures
        moved_by(*invert, *multiply, *idt, m_cam, r),
{
    move_by(m_cam, *idt, invert, multiply)
}

/// A density matrix made for camera RGB, as it acts in linear Rec.709.
pub fn convert_density_matrix_to_srgb<
    I: Fn(Matrix) -> Option<Matrix>,
    T: Fn(Matrix, Matrix) -> Matrix,
>(m_cam: Matrix, idt: &Matrix, invert: &I, multiply: &T) -> (r: Matrix)
    requires
        forall|a: Matrix| #[trigger] invert.requires((a,)),
        forall|a: Matrix, b: Matrix| #[trigger] multiply.requires((a, b)),
    ensures
        exists|srgb: Matrix, combined: Matrix|
            has_bits(srgb, ap1_to_rec709()) && #[trigger] multiply.ensures((srgb, *idt), combined)
                && moved_by(*invert, *multiply, combined, m_cam, r),
{
    let srgb: Matrix = acescg_to_linear_srgb();
    let combined: Matrix = multiply(srgb, *idt);
    move_by(m_cam, combined, invert, multiply)
}

} // verus!
