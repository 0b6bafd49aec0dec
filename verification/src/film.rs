//! Linear scans of film and the planes that analysis works on.

use vstd::prelude::*;
use vstd::arithmetic::div_mod::*;
use crate::single::Single;

verus! {

/// A linear image: `channels` samples a pixel, pixels in row order.
#[derive(Debug, Clone)]
pub struct FilmImage {
    pub width: usize,
    pub height: usize,
    pub channels: usize,
    pub samples: Vec<Single>,
}

impl FilmImage {
    /// There is a sample for every channel of every pixel.
    pub open spec fn wf(self) -> bool {
        self.samples.len() == self.width * self.height * self.channels
    }
}

/// One value a pixel, in row order.
#[derive(Debug, Clone)]
pub struct Plane {
    pub width: usize,
    pub height: usize,
    pub values: Vec<Single>,
}

/// A plane as contracts speak of it.
pub struct PlaneView {
    pub width: int,
    pub height: int,
    pub values: Seq<Single>,
}

impl PlaneView {
    pub open spec fn wf(self) -> bool {
        self.values.len() == self.width * self.height
    }

    pub open spec fn at(self, x: int, y: int) -> Single {
        self.values[y * self.width + x]
    }
}

impl View for Plane {
    type V = PlaneView;

    open spec fn view(&self) -> PlaneView {
        PlaneView { width: self.width as int, height: self.height as int, values: self.values@ }
    }
}

impl Plane {
    /// There is a value for every pixel.
    pub open spec fn wf(self) -> bool {
        self.values.len() == self.width * self.height
    }
}

/// What each value adds to a sum.
#[derive(Debug, Clone, Copy, PartialEq, Eq, Structural)]
pub enum Term {
    Value,
    /// Its distance from a level.
    Deviation(Single),
    Square,
}

impl Term {
    pub open spec fn of_spec(self, v: Single) -> Single {
        match self {
            Term::Value => v,
            Term::Deviation(m) => v.minus(m).abs(),
            Term::Square => v.times(v),
        }
    }

    #[verifier::when_used_as_spec(of_spec)]
    pub fn of(self, v: Single) -> (r: Single)
        ensures
            r == self.of_spec(v),
    {
        match self {
            Term::Value => v,
            Term::Deviation(m) => v.minus(m).abs(),
            Term::Square => v.times(v),
        }
    }
}

/// A block of a plane, or of one channel of an image: columns `x0..x1` of rows `y0..y1`.
pub struct Block {
    pub x0: usize,
    pub x1: usize,
    pub y0: usize,
    pub y1: usize,
}

/// Where the value of a pixel stands: `stride` values a pixel, of which number `offset`.
pub open spec fn place(w: int, stride: int, offset: int, x: int, y: int) -> int {
    (y * w + x) * stride + offset
}

/// A running sum carried on over columns `x0..x1` of row `y`.
pub open spec fn row_sum(
    v: Seq<Single>,
    w: int,
    stride: int,
    offset: int,
    term: Term,
    x0: int,
    x1: int,
    y: int,
    acc: Single,
) -> Single
    decreases x1 - x0,
{
    if x1 <= x0 {
        acc
    } else {
        row_sum(v, w, stride, offset, term, x0, x1 - 1, y, acc).plus(
            term.of(v[place(w, stride, offset, x1 - 1, y)]),
        )
    }
}

/// The sum over a block, added up row by row.
pub open spec fn block_sum_spec(
    v: Seq<Single>,
    w: int,
    stride: int,
    offset: int,
    term: Term,
    x0: int,
    x1: int,
    y0: int,
    y1: int,
) -> Single
    decreases y1 - y0,
{
    if y1 <= y0 {
        Single::whole(0)
    } else {
        row_sum(
            v,
            w,
            stride,
            offset,
            term,
            x0,
            x1,
            y1 - 1,
            block_sum_spec(v, w, stride, offset, term, x0, x1, y0, y1 - 1),
        )
    }
}

/// A count kept as a single by adding ones: it stops growing at `2^24`.
pub open spec fn counted_spec(n: int) -> Single {
    Single::whole(if n < 0x100_0000 { n as u64 } else { 0x100_0000 })
}

pub fn counted(n: usize) -> (r: Single)
    ensures
        r == counted_spec(n as int),
{
    Single::whole(if n < 0x100_0000 { n as u64 } else { 0x100_0000 })
}

pub proof fn lemma_place(w: int, h: int, stride: int, offset: int, x: int, y: int)
    requires
        0 <= x < w,
        0 <= y < h,
        0 <= offset < stride,
    ensures
        0 <= y * w,
        0 <= y * w + x < w * h,
        0 <= (y * w + x) * stride,
        0 <= place(w, stride, offset, x, y) < w * h * stride,
{
    assert(0 <= y * w && 0 <= y * w + x && y * w + x + 1 <= w * h) by (nonlinear_arith)
        requires
            0 <= x < w,
            0 <= y < h,
    ;
    let i = y * w + x;
    let n = w * h;
    assert(0 <= i * stride && i * stride + offset < n * stride) by (nonlinear_arith)
        requires
            0 <= i,
            i + 1 <= n,
            0 <= offset < stride,
    ;
}

/// Sum over a block.
pub fn block_sum(
    v: &Vec<Single>,
    w: usize,
    h: usize,
    stride: usize,
    offset: usize,
    term: Term,
    b: &Block,
) -> (r: Single)
    requires
        v.len() == w * h * stride,
        offset < stride,
        b.x0 <= b.x1 <= w,
        b.y0 <= b.y1 <= h,
    ensures
        r == block_sum_spec(
            v@,
            w as int,
            stride as int,
            offset as int,
            term,
            b.x0 as int,
            b.x1 as int,
            b.y0 as int,
            b.y1 as int,
        ),
{
    let mut acc = Single::whole(0);
    let mut y: usize = b.y0;
    while y < b.y1
        invariant
            v.len() == w * h * stride,
            offset < stride,
            b.x0 <= b.x1 <= w,
            b.y0 <= y <= b.y1 <= h,
            acc == block_sum_spec(
                v@,
                w as int,
                stride as int,
                offset as int,
                term,
                b.x0 as int,
                b.x1 as int,
                b.y0 as int,
                y as int,
            ),
        decreases b.y1 - y,
    {
        let ghost start = acc;
        let mut x: usize = b.x0;
        while x < b.x1
            invariant
                v.len() == w * h * stride,
                offset < stride,
                b.x0 <= x <= b.x1 <= w,
                y < b.y1 <= h,
                acc == row_sum(
                    v@,
                    w as int,
                    stride as int,
                    offset as int,
                    term,
                    b.x0 as int,
                    x as int,
                    y as int,
                    start,
                ),
            decreases b.x1 - x,
        {
            proof {
                lemma_place(w as int, h as int, stride as int, offset as int, x as int, y as int);
                assert(w * h <= w * h * stride) by (nonlinear_arith)
                    requires
                        stride >= 1,
                        w * h >= 0,
                ;
                assert(v.len() == w * h * stride);
            }
            let i: usize = (y * w + x) * stride + offset;
            acc = acc.plus(term.of(v[i]));
            x = x + 1;
        }
        y = y + 1;
    }
    acc
}


/// One side of an image whose longer side is brought down to `max`.
pub open spec fn proxy_side(side: int, long: int, max: int) -> int {
    if long <= max {
        side
    } else if side * max / long < 1 {
        1
    } else {
        side * max / long
    }
}

/// First source line behind line `i` of `n`, of `len` in all.
pub open spec fn source_from(i: int, n: int, len: int) -> int {
    i * len / n
}

/// One past the last source line behind line `i`; there is at least one.
pub open spec fn source_to(i: int, n: int, len: int) -> int {
    if (i + 1) * len / n < source_from(i, n, len) + 1 {
        source_from(i, n, len) + 1
    } else {
        (i + 1) * len / n
    }
}

/// A sample of a reduced image: the mean of the source pixels behind it.
pub open spec fn proxy_sample(image: FilmImage, nw: int, nh: int, x: int, y: int, c: int) -> Single {
    let x0 = source_from(x, nw, image.width as int);
    let x1 = source_to(x, nw, image.width as int);
    let y0 = source_from(y, nh, image.height as int);
    let y1 = source_to(y, nh, image.height as int);
    block_sum_spec(
        image.samples@,
        image.width as int,
        image.channels as int,
        c,
        Term::Value,
        x0,
        x1,
        y0,
        y1,
    ).over(counted_spec((x1 - x0) * (y1 - y0)))
}

pub open spec fn longer_side(image: FilmImage) -> int {
    if image.height >= image.width {
        image.height as int
    } else {
        image.width as int
    }
}

/// Whether an image is reduced at all.
pub open spec fn reduced(image: FilmImage, max_side: int) -> bool {
    image.width > 0 && image.height > 0 && longer_side(image) > max_side
}

/// Samples of the image with its longer side brought down to `max_side`, in its first three
/// channels.
pub open spec fn proxy_samples(image: FilmImage, max_side: int) -> Seq<Single> {
    let nw = proxy_side(image.width as int, longer_side(image), max_side);
    let nh = proxy_side(image.height as int, longer_side(image), max_side);
    Seq::new(
        (nw * nh * 3) as nat,
        |i: int| proxy_sample(image, nw, nh, (i / 3) % nw, (i / 3) / nw, i % 3),
    )
}

proof fn lemma_source(i: int, n: int, len: int)
    requires
        0 <= i < n,
        0 < len,
    ensures
        0 <= i * len,
        i * len <= (i + 1) * len <= n * len,
        0 <= source_from(i, n, len) < source_to(i, n, len) <= len,
{
    assert(0 <= i * len && i * len < n * len && (i + 1) * len <= n * len && i * len <= (i + 1) * len)
        by (nonlinear_arith)
        requires
            0 <= i < n,
            0 < len,
    ;
    lemma_div_pos_is_pos(i * len, n);
    lemma_multiply_divide_lt(i * len, n, len);
    lemma_multiply_divide_le((i + 1) * len, n, len);
}

/// The image with its longer side brought down to `max_side`, each pixel the mean of a block. A
/// reduced image keeps its first three channels; one that is small enough stays as it is.
pub fn downsample_to_max_side(image: &FilmImage, max_side: usize) -> (r: FilmImage)
    requires
        image.wf(),
        image.channels >= 3,
        image.width * max_side <= usize::MAX,
        image.height * max_side <= usize::MAX,
        max_side > 0,
    ensures
        r.wf(),
        !reduced(*image, max_side as int) ==> {
            &&& r.width == image.width
            &&& r.height == image.height
            &&& r.channels == image.channels
            &&& r.samples@ == image.samples@
        },
        reduced(*image, max_side as int) ==> {
            &&& r.width == proxy_side(image.width as int, longer_side(*image), max_side as int)
            &&& r.height == proxy_side(image.height as int, longer_side(*image), max_side as int)
            &&& 0 < r.width <= max_side
            &&& 0 < r.height <= max_side
            &&& r.channels == 3
            &&& r.samples@ == proxy_samples(*image, max_side as int)
        },
{
    let w: usize = image.width;
    let h: usize = image.height;
    let long: usize = if h >= w {
        h
    } else {
        w
    };
    if w == 0 || h == 0 || long <= max_side {
        return FilmImage {
            width: w,
            height: h,
            channels: image.channels,
            samples: image.samples.clone(),
        };
    }
    let a: usize = w * max_side / long;
    let b: usize = h * max_side / long;
    let nw: usize = if a < 1 {
        1
    } else {
        a
    };
    let nh: usize = if b < 1 {
        1
    } else {
        b
    };
    proof {
        assert(w * max_side <= long * max_side && h * max_side <= long * max_side)
            by (nonlinear_arith)
            requires
                w <= long,
                h <= long,
        ;
        lemma_multiply_divide_le(w * max_side, long as int, max_side as int);
        lemma_multiply_divide_le(h * max_side, long as int, max_side as int);
        assert(nw <= w && nh <= h) by {
            assert(w * max_side <= w * long && h * max_side <= h * long) by (nonlinear_arith)
                requires
                    max_side <= long,
                    w >= 0,
                    h >= 0,
            ;
            assert(w * long == long * w && h * long == long * h) by (nonlinear_arith);
            lemma_multiply_divide_le(w * max_side, long as int, w as int);
            lemma_multiply_divide_le(h * max_side, long as int, h as int);
        }
        assert(nw * nh * 3 <= w * h * 3) by (nonlinear_arith)
            requires
                nw <= w,
                nh <= h,
                nw >= 0,
                nh >= 0,
        ;
        assert(nw * nh >= 0) by (nonlinear_arith)
            requires
                nw >= 0,
                nh >= 0,
        ;
        assert(w * h * 3 <= w * h * image.channels) by (nonlinear_arith)
            requires
                image.channels >= 3,
                w >= 0,
                h >= 0,
        ;
        assert(image.samples.len() == w * h * image.channels);
    }
    let n: usize = nw * nh;
    let channels: usize = image.channels;
    let mut out: Vec<Single> = Vec::with_capacity(n * 3);
    let mut p: usize = 0;
    assert(out@ =~= proxy_samples(*image, max_side as int).take(0));
    while p < n
        invariant
            image.wf(),
            image.channels >= 3,
            channels == image.channels,
            reduced(*image, max_side as int),
            w == image.width,
            h == image.height,
            long == longer_side(*image),
            nw == proxy_side(w as int, long as int, max_side as int),
            nh == proxy_side(h as int, long as int, max_side as int),
            0 < nw <= max_side,
            0 < nh <= max_side,
            w * max_side <= usize::MAX,
            h * max_side <= usize::MAX,
            p <= n,
            n == nw * nh,
            n * 3 <= usize::MAX,
            out@ == proxy_samples(*image, max_side as int).take(p * 3),
        decreases n - p,
    {
        let y: usize = p / nw;
        let x: usize = p % nw;
        proof {
            lemma_multiply_divide_lt(p as int, nw as int, nh as int);
            lemma_mod_bound(p as int, nw as int);
            lemma_source(x as int, nw as int, w as int);
            lemma_source(y as int, nh as int, h as int);
            assert(nw * w <= w * max_side && nh * h <= h * max_side) by (nonlinear_arith)
                requires
                    nw <= max_side,
                    nh <= max_side,
                    w >= 0,
                    h >= 0,
            ;
        }
        let x0: usize = x * w / nw;
        let xe: usize = (x + 1) * w / nw;
        let x1: usize = if xe < x0 + 1 {
            x0 + 1
        } else {
            xe
        };
        let y0: usize = y * h / nh;
        let ye: usize = (y + 1) * h / nh;
        let y1: usize = if ye < y0 + 1 {
            y0 + 1
        } else {
            ye
        };
        let block = Block { x0, x1, y0, y1 };
        proof {
            assert((x1 - x0) * (y1 - y0) <= w * h) by (nonlinear_arith)
                requires
                    0 <= x0 <= x1 <= w,
                    0 <= y0 <= y1 <= h,
            ;
            assert(w * h <= w * h * channels) by (nonlinear_arith)
                requires
                    w * h >= 0,
                    channels >= 3,
            ;
            assert(image.samples.len() == w * h * channels);
            assert((x1 - x0) * (y1 - y0) >= 0) by (nonlinear_arith)
                requires
                    x0 <= x1,
                    y0 <= y1,
            ;
        }
        let count = counted((x1 - x0) * (y1 - y0));
        let red = block_sum(&image.samples, w, h, channels, 0, Term::Value, &block).over(count);
        let green = block_sum(&image.samples, w, h, channels, 1, Term::Value, &block).over(count);
        let blue = block_sum(&image.samples, w, h, channels, 2, Term::Value, &block).over(count);
        out.push(red);
        out.push(green);
        out.push(blue);
        proof {
            let all = proxy_samples(*image, max_side as int);
            let q = 3 * p;
            assert(q / 3 == p && (q + 1) / 3 == p && (q + 2) / 3 == p);
            assert(all[q] == red && all[q + 1] == green && all[q + 2] == blue);
            assert(out@ =~= all.take((p + 1) * 3));
        }
        p = p + 1;
    }
    assert(proxy_samples(*image, max_side as int).take(n * 3) =~= proxy_samples(
        *image,
        max_side as int,
    ));
    FilmImage { width: nw, height: nh, channels: 3, samples: out }
}

/// Mean of the three channels of each pixel.
pub open spec fn transmittance(s: Seq<Single>) -> Seq<Single> {
    Seq::new(
        s.len() / 3,
        |i: int| s[3 * i].plus(s[3 * i + 1]).plus(s[3 * i + 2]).times(Single::ratio(1, 3)),
    )
}

/// Largest channel of each pixel.
pub open spec fn channel_max(s: Seq<Single>) -> Seq<Single> {
    Seq::new(s.len() / 3, |i: int| s[3 * i].larger(s[3 * i + 1]).larger(s[3 * i + 2]))
}

pub fn pixel_transmittance(image: &FilmImage) -> (r: Plane)
    requires
        image.wf(),
        image.channels == 3,
    ensures
        r.wf(),
        r.width == image.width,
        r.height == image.height,
        r.values@ == transmittance(image.samples@),
{
    let third = Single::ratio(1, 3);
    let n: usize = image.samples.len() / 3;
    let mut out: Vec<Single> = Vec::with_capacity(n);
    let mut i: usize = 0;
    while i < n
        invariant
            i <= n,
            n == image.samples.len() / 3,
            third == Single::ratio(1, 3),
            out@ == transmittance(image.samples@).take(i as int),
        decreases n - i,
    {
        let s = &image.samples;
        out.push(s[3 * i].plus(s[3 * i + 1]).plus(s[3 * i + 2]).times(third));
        assert(out@ =~= transmittance(image.samples@).take(i + 1));
        i = i + 1;
    }
    assert(transmittance(image.samples@).take(n as int) =~= transmittance(image.samples@));
    Plane { width: image.width, height: image.height, values: out }
}

pub fn pixel_max(image: &FilmImage) -> (r: Plane)
    requires
        image.wf(),
        image.channels == 3,
    ensures
        r.wf(),
        r.width == image.width,
        r.height == image.height,
        r.values@ == channel_max(image.samples@),
{
    let n: usize = image.samples.len() / 3;
    let mut out: Vec<Single> = Vec::with_capacity(n);
    let mut i: usize = 0;
    while i < n
        invariant
            i <= n,
            n == image.samples.len() / 3,
            out@ == channel_max(image.samples@).take(i as int),
        decreases n - i,
    {
        let s = &image.samples;
        out.push(s[3 * i].larger(s[3 * i + 1]).larger(s[3 * i + 2]));
        assert(out@ =~= channel_max(image.samples@).take(i + 1));
        i = i + 1;
    }
    assert(channel_max(image.samples@).take(n as int) =~= channel_max(image.samples@));
    Plane { width: image.width, height: image.height, values: out }
}


/// The `k`th of the nine places around a pixel lies in the plane and is not the pixel itself.
pub open spec fn neighbour(w: int, h: int, x: int, y: int, k: int) -> bool {
    let xx = x + k % 3 - 1;
    let yy = y + k / 3 - 1;
    k != 4 && 0 <= xx < w && 0 <= yy < h
}

/// Distances of the first `k` neighbours from the pixel, added up in row order.
pub open spec fn texture_sum(p: PlaneView, x: int, y: int, k: int) -> Single
    decreases k,
{
    if k <= 0 {
        Single::whole(0)
    } else if neighbour(p.width as int, p.height as int, x, y, k - 1) {
        texture_sum(p, x, y, k - 1).plus(
            p.at(x + (k - 1) % 3 - 1, y + (k - 1) / 3 - 1).minus(p.at(x, y)).abs(),
        )
    } else {
        texture_sum(p, x, y, k - 1)
    }
}

pub open spec fn neighbours(w: int, h: int, x: int, y: int, k: int) -> int
    decreases k,
{
    if k <= 0 {
        0
    } else if neighbour(w, h, x, y, k - 1) {
        neighbours(w, h, x, y, k - 1) + 1
    } else {
        neighbours(w, h, x, y, k - 1)
    }
}

/// Mean distance of a pixel from its neighbours.
pub open spec fn texture_at(p: PlaneView, x: int, y: int) -> Single {
    let n = neighbours(p.width as int, p.height as int, x, y, 9);
    if n > 0 {
        texture_sum(p, x, y, 9).over(Single::whole(n as u64))
    } else {
        Single::whole(0)
    }
}

pub open spec fn texture(p: PlaneView) -> Seq<Single> {
    Seq::new(
        p.values.len(),
        |i: int| texture_at(p, i % p.width as int, i / p.width as int),
    )
}

fn pixel_texture_at(p: &Plane, x: usize, y: usize) -> (r: Single)
    requires
        p.wf(),
        x < p.width,
        y < p.height,
    ensures
        r == texture_at(p@, x as int, y as int),
{
    let w: usize = p.width;
    let h: usize = p.height;
    proof {
        lemma_place(w as int, h as int, 1, 0, x as int, y as int);
        assert(p.values.len() == w * h);
    }
    let centre = p.values[y * w + x];
    let mut acc = Single::whole(0);
    let mut n: u64 = 0;
    let mut k: usize = 0;
    while k < 9
        invariant
            p.wf(),
            w == p.width,
            h == p.height,
            x < w,
            y < h,
            k <= 9,
            n <= k,
            centre == p@.at(x as int, y as int),
            acc == texture_sum(p@, x as int, y as int, k as int),
            n == neighbours(w as int, h as int, x as int, y as int, k as int),
        decreases 9 - k,
    {
        let dx: usize = k % 3;
        let dy: usize = k / 3;
        if k != 4 && (x > 0 || dx > 0) && (y > 0 || dy > 0) && (dx < 2 || x < w - 1) && (dy < 2 || y
            < h - 1) {
            let xx: usize = x + dx - 1;
            let yy: usize = y + dy - 1;
            proof {
                lemma_place(w as int, h as int, 1, 0, xx as int, yy as int);
                assert(p.values.len() == w * h);
            }
            acc = acc.plus(p.values[yy * w + xx].minus(centre).abs());
            n = n + 1;
        }
        k = k + 1;
    }
    if n > 0 {
        acc.over(Single::whole(n))
    } else {
        Single::whole(0)
    }
}

/// Local grain of each pixel.
pub fn pixel_texture(p: &Plane) -> (r: Plane)
    requires
        p.wf(),
    ensures
        r.wf(),
        r.width == p.width,
        r.height == p.height,
        r.values@ == texture(p@),
{
    let n: usize = p.values.len();
    let mut out: Vec<Single> = Vec::with_capacity(n);
    let mut i: usize = 0;
    while i < n
        invariant
            p.wf(),
            i <= n,
            n == p.values.len(),
            out@ == texture(p@).take(i as int),
        decreases n - i,
    {
        proof {
            assert(p.width > 0) by {
                if p.width == 0 {
                    assert(0 * p.height == 0);
                }
            }
            assert(p.width * p.height == p.height * p.width) by (nonlinear_arith);
            lemma_multiply_divide_lt(i as int, p.width as int, p.height as int);
            lemma_mod_bound(i as int, p.width as int);
        }
        out.push(pixel_texture_at(p, i % p.width, i / p.width));
        assert(out@ =~= texture(p@).take(i + 1));
        i = i + 1;
    }
    assert(texture(p@).take(n as int) =~= texture(p@));
    Plane { width: p.width, height: p.height, values: out }
}

/// Mean over columns `x0..x1` and rows `y0..y1`, cut to the plane; zero where nothing is left.
pub open spec fn strip_mean_spec(p: PlaneView, x0: int, x1: int, y0: int, y1: int) -> Single {
    let xe = if x1 <= p.width { x1 } else { p.width as int };
    let ye = if y1 <= p.height { y1 } else { p.height as int };
    if x0 >= xe || y0 >= ye {
        Single::whole(0)
    } else {
        block_sum_spec(p.values, p.width as int, 1, 0, Term::Value, x0, xe, y0, ye).over(
            counted_spec((xe - x0) * (ye - y0)),
        )
    }
}

pub proof fn lemma_area(x: int, y: int, w: int, h: int)
    requires
        0 <= x <= w,
        0 <= y <= h,
    ensures
        0 <= x * y <= w * h,
{
    assert(0 <= x * y <= w * h) by (nonlinear_arith)
        requires
            0 <= x <= w,
            0 <= y <= h,
    ;
}

pub fn strip_mean(p: &Plane, x0: usize, x1: usize, y0: usize, y1: usize) -> (r: Single)
    requires
        p.wf(),
    ensures
        r == strip_mean_spec(p@, x0 as int, x1 as int, y0 as int, y1 as int),
{
    let xe: usize = if x1 <= p.width {
        x1
    } else {
        p.width
    };
    let ye: usize = if y1 <= p.height {
        y1
    } else {
        p.height
    };
    if x0 >= xe || y0 >= ye {
        return Single::whole(0);
    }
    let b = Block { x0, x1: xe, y0, y1: ye };
    proof {
        lemma_area(xe - x0, ye - y0, p.width as int, p.height as int);
        assert(p.values.len() == p.width * p.height);
        assert(p.width * p.height * 1 == p.width * p.height);
    }
    block_sum(&p.values, p.width, p.height, 1, 0, Term::Value, &b).over(
        counted((xe - x0) * (ye - y0)),
    )
}

/// A side is never made longer, but for one without a whole pixel.
pub proof fn lemma_proxy_side(side: int, long: int, max: int)
    requires
        0 <= side,
        0 < max < long,
    ensures
        1 <= proxy_side(side, long, max),
        proxy_side(side, long, max) <= side || proxy_side(side, long, max) == 1,
        ({
            let n = proxy_side(side, long, max);
            side * max < (n + 1) * long && (n * long <= side * max || n == 1)
        }),
{
    let q = side * max / long;
    lemma_fundamental_div_mod(side * max, long);
    lemma_mod_bound(side * max, long);
    assert(long * q <= side * max < long * q + long && q <= side) by (nonlinear_arith)
        requires
            side * max == long * q + side * max % long,
            0 <= side * max % long < long,
            0 <= side,
            0 < max < long,
    ;
    assert(q * long == long * q && (q + 1) * long == long * q + long) by (nonlinear_arith);
    assert(side * max >= 0) by (nonlinear_arith)
        requires
            side >= 0,
            max > 0,
    ;
    lemma_div_pos_is_pos(side * max, long);
    if q < 1 {
        assert((1 + 1) * long >= (q + 1) * long) by (nonlinear_arith)
            requires
                q < 1,
                long > 0,
        ;
    }
}

/// A reduced image keeps its shape: its longer side is as long as allowed, and the other is in
/// proportion, to a pixel.
pub proof fn reduced_images_keep_their_shape(image: FilmImage, max: int)
    requires
        0 < max,
        reduced(image, max),
    ensures
        ({
            let long = if image.height >= image.width {
                image.height as int
            } else {
                image.width as int
            };
            let nw = proxy_side(image.width as int, longer_side(image), max);
            let nh = proxy_side(image.height as int, longer_side(image), max);
            &&& image.width >= image.height ==> nw == max
            &&& image.height >= image.width ==> nh == max
            &&& image.width * max < (nw + 1) * long && (nw * long <= image.width * max || nw == 1)
            &&& image.height * max < (nh + 1) * long && (nh * long <= image.height * max || nh == 1)
        }),
{
    let long = longer_side(image);
    lemma_proxy_side(image.width as int, long, max);
    lemma_proxy_side(image.height as int, long, max);
    assert(long * max / long == max) by {
        lemma_div_multiples_vanish(max, long);
    }
}

/// The blocks behind the lines of a reduced image cover the source from its first line to its
/// last, each beginning where the one before it ends.
pub proof fn blocks_cover_the_source(i: int, n: int, len: int)
    requires
        0 <= i < n <= len,
    ensures
        source_from(0, n, len) == 0,
        source_from(i, n, len) < source_to(i, n, len),
        i + 1 < n ==> source_to(i, n, len) == source_from(i + 1, n, len),
        source_to(n - 1, n, len) == len,
{
    lemma_steps(i, n, len);
    lemma_steps(n - 1, n, len);
    assert(n * len / n == len) by {
        lemma_div_multiples_vanish(len, n);
    }
    assert(0 * len == 0);
    lemma_basic_div(0, n);
}

proof fn lemma_steps(i: int, n: int, len: int)
    requires
        0 <= i < n <= len,
    ensures
        i * len / n + 1 <= (i + 1) * len / n,
{
    let a = i * len;
    let b = (i + 1) * len;
    lemma_fundamental_div_mod(a, n);
    lemma_fundamental_div_mod(b, n);
    lemma_mod_bound(a, n);
    lemma_mod_bound(b, n);
    let p = a / n;
    let q = b / n;
    assert(b == a + len) by (nonlinear_arith)
        requires
            a == i * len,
            b == (i + 1) * len,
    ;
    assert(p + 1 <= q) by (nonlinear_arith)
        requires
            a == n * p + a % n,
            b == n * q + b % n,
            0 <= a % n < n,
            0 <= b % n < n,
            b == a + len,
            len >= n,
            n > 0,
    ;
}

/// The true sum of the values of a channel over columns `x0..x1` of row `y`.
pub open spec fn row_total(
    v: Seq<Single>,
    w: int,
    stride: int,
    offset: int,
    x0: int,
    x1: int,
    y: int,
) -> int
    decreases x1 - x0,
{
    if x1 <= x0 {
        0
    } else {
        row_total(v, w, stride, offset, x0, x1 - 1, y) + v[(y * w + x1 - 1) * stride
            + offset].signed()
    }
}

/// The true sum over a block.
pub open spec fn block_total(
    v: Seq<Single>,
    w: int,
    stride: int,
    offset: int,
    x0: int,
    x1: int,
    y0: int,
    y1: int,
) -> int
    decreases y1 - y0,
{
    if y1 <= y0 {
        0
    } else {
        block_total(v, w, stride, offset, x0, x1, y0, y1 - 1) + row_total(
            v,
            w,
            stride,
            offset,
            x0,
            x1,
            y1 - 1,
        )
    }
}

/// All values are numbers from zero to a thousand.
pub open spec fn plain(v: Seq<Single>) -> bool {
    forall|i: int|
        0 <= i < v.len() ==> (#[trigger] v[i]).finite() && 0 <= v[i].signed() <= 1000
            * crate::near::one()
}

proof fn lemma_row_near(
    v: Seq<Single>,
    w: int,
    h: int,
    stride: int,
    offset: int,
    x0: int,
    x1: int,
    y: int,
    acc: Single,
    total: int,
    k: int,
)
    requires
        plain(v),
        v.len() == w * h * stride,
        0 <= offset < stride,
        0 <= x0 <= x1 <= w,
        0 <= y < h,
        0 <= k,
        k + (x1 - x0) <= 0x1_0000,
        total <= k * (1000 * crate::near::one()),
        crate::near::sums_to(acc, total, k),
    ensures
        crate::near::sums_to(
            row_sum(v, w, stride, offset, Term::Value, x0, x1, y, acc),
            total + row_total(v, w, stride, offset, x0, x1, y),
            k + (x1 - x0),
        ),
        0 <= row_total(v, w, stride, offset, x0, x1, y) <= (x1 - x0) * (1000
            * crate::near::one()),
    decreases x1 - x0,
{
    let m = 1000 * crate::near::one();
    crate::near::lemma_sizes();
    if x1 > x0 {
        lemma_row_near(v, w, h, stride, offset, x0, x1 - 1, y, acc, total, k);
        lemma_place(w, h, stride, offset, x1 - 1, y);
        let x = v[place(w, stride, offset, x1 - 1, y)];
        let n = x1 - 1 - x0;
        assert((n + 1) * m == n * m + m) by (nonlinear_arith);
        assert(k * m + n * m + m <= 0x1_0000 * m) by (nonlinear_arith)
            requires
                k + n + 1 <= 0x1_0000,
                m >= 0,
        ;
        crate::near::lemma_one_more(
            row_sum(v, w, stride, offset, Term::Value, x0, x1 - 1, y, acc),
            total + row_total(v, w, stride, offset, x0, x1 - 1, y),
            k + n,
            x,
        );
        assert(Term::Value.of(x) == x);
    } else {
        assert(0 * m == 0);
    }
}

/// A sum over a block lies near the true one.
pub proof fn lemma_block_near(
    v: Seq<Single>,
    w: int,
    h: int,
    stride: int,
    offset: int,
    x0: int,
    x1: int,
    y0: int,
    y1: int,
)
    requires
        plain(v),
        v.len() == w * h * stride,
        0 <= offset < stride,
        0 <= x0 <= x1 <= w,
        0 <= y0 <= y1 <= h,
        (x1 - x0) * (y1 - y0) <= 0x1_0000,
    ensures
        crate::near::sums_to(
            block_sum_spec(v, w, stride, offset, Term::Value, x0, x1, y0, y1),
            block_total(v, w, stride, offset, x0, x1, y0, y1),
            (x1 - x0) * (y1 - y0),
        ),
        0 <= block_total(v, w, stride, offset, x0, x1, y0, y1) <= (x1 - x0) * (y1 - y0) * (1000
            * crate::near::one()),
    decreases y1 - y0,
{
    let m = 1000 * crate::near::one();
    crate::near::lemma_sizes();
    crate::near::lemma_whole(0);
    let a = x1 - x0;
    if y1 > y0 {
        let b = y1 - 1 - y0;
        assert(a * (b + 1) == a * b + a && a * b >= 0) by (nonlinear_arith)
            requires
                a >= 0,
                b >= 0,
        ;
        lemma_block_near(v, w, h, stride, offset, x0, x1, y0, y1 - 1);
        lemma_row_near(
            v,
            w,
            h,
            stride,
            offset,
            x0,
            x1,
            y1 - 1,
            block_sum_spec(v, w, stride, offset, Term::Value, x0, x1, y0, y1 - 1),
            block_total(v, w, stride, offset, x0, x1, y0, y1 - 1),
            a * b,
        );
        assert((a * b + a) * m == a * b * m + a * m) by (nonlinear_arith);
    } else {
        assert(a * 0 == 0 && 0 * m == 0);
        assert(a * (y1 - y0) == 0) by (nonlinear_arith)
            requires
                y1 == y0,
        ;
    }
}

/// A pixel of a reduced image is the mean of the block of the source behind it, in its own
/// channel: to a part in a hundred of a block of up to `2^16` pixels, and the closer the smaller
/// the block is.
pub proof fn reduced_pixels_are_block_means(
    image: FilmImage,
    nw: int,
    nh: int,
    x: int,
    y: int,
    c: int,
)
    requires
        image.wf(),
        plain(image.samples@),
        0 <= x < nw <= image.width,
        0 <= y < nh <= image.height,
        0 <= c < image.channels,
        ({
            let x0 = x * image.width / nw;
            let x1 = (x + 1) * image.width / nw;
            let y0 = y * image.height / nh;
            let y1 = (y + 1) * image.height / nh;
            (x1 - x0) * (y1 - y0) <= 0x1_0000
        }),
    ensures
        ({
            let x0 = x * image.width / nw;
            let x1 = (x + 1) * image.width / nw;
            let y0 = y * image.height / nh;
            let y1 = (y + 1) * image.height / nh;
            let n = (x1 - x0) * (y1 - y0);
            let total = block_total(
                image.samples@,
                image.width as int,
                image.channels as int,
                c,
                x0,
                x1,
                y0,
                y1,
            );
            let p = proxy_sample(image, nw, nh, x, y, c);
            &&& n > 0
            &&& p.finite()
            &&& 0 <= p.signed()
            &&& -(total * (n + 1) + n * crate::near::one()) <= (p.signed() * n - total) * 0x40_0000
                <= total * (n + 1) + n * crate::near::one()
        }),
{
    let w = image.width as int;
    let h = image.height as int;
    lemma_source(x, nw, w);
    lemma_source(y, nh, h);
    blocks_cover_the_source(x, nw, w);
    blocks_cover_the_source(y, nh, h);
    lemma_steps(x, nw, w);
    lemma_steps(y, nh, h);
    let (x0, x1) = (source_from(x, nw, w), source_to(x, nw, w));
    let (y0, y1) = (source_from(y, nh, h), source_to(y, nh, h));
    let n = (x1 - x0) * (y1 - y0);
    assert(n >= 1) by (nonlinear_arith)
        requires
            x1 - x0 >= 1,
            y1 - y0 >= 1,
            n == (x1 - x0) * (y1 - y0),
    ;
    lemma_block_near(image.samples@, w, h, image.channels as int, c, x0, x1, y0, y1);
    let total = block_total(image.samples@, w, image.channels as int, c, x0, x1, y0, y1);
    let sum = block_sum_spec(
        image.samples@,
        w,
        image.channels as int,
        c,
        Term::Value,
        x0,
        x1,
        y0,
        y1,
    );
    lemma_mean_near(sum, total, n);
}

/// A mean of a sum.
pub proof fn lemma_mean_near(sum: Single, total: int, n: int)
    requires
        1 <= n <= 0x1_0000,
        crate::near::sums_to(sum, total, n),
        total <= n * (1000 * crate::near::one()),
    ensures
        ({
            let p = sum.over(counted_spec(n));
            &&& p.finite()
            &&& 0 <= p.signed()
            &&& -(total * (n + 1) + n * crate::near::one()) <= (p.signed() * n - total) * 0x40_0000
                <= total * (n + 1) + n * crate::near::one()
        }),
{
    let c = crate::near::one();
    let e = crate::near::slip();
    crate::near::lemma_sizes();
    crate::near::lemma_whole(n as u64);
    let d = counted_spec(n);
    let s = sum.signed();
    let hh: int = 0x8000_0000_0000;
    // The sum is off by little.
    assert(2 * n * (total + hh) == 2 * (total * n) + 2 * n * hh) by (nonlinear_arith);
    assert(total * n <= total * 0x1_0000) by (nonlinear_arith)
        requires
            n <= 0x1_0000,
            total >= 0,
    ;
    assert(n * hh * 0x80 <= n * c) by (nonlinear_arith)
        requires
            n >= 1,
            c >= hh * 0x80,
    ;
    reveal(Single::over_spec);
    crate::single::lemma_units_positive(d);
    assert(n * c > 0) by (nonlinear_arith)
        requires
            n >= 1,
            c > 0,
    ;
    assert(n * (1000 * c) == 1000 * (n * c) && total * (n + 1) == total * n + total)
        by (nonlinear_arith);
    let num = sum.units() * vstd::arithmetic::power2::pow2(149);
    let den = d.units();
    assert(s <= total + total / 0x40 + n * c);
    assert(num <= den * vstd::arithmetic::power2::pow2(270)) by (nonlinear_arith)
        requires
            num == s * c,
            den == n * c,
            s <= 0x800 * (n * c),
            vstd::arithmetic::power2::pow2(270) >= c * 0x1_0000_0000_0000_0000,
            c > 0,
            n >= 1,
    ;
    crate::single::lemma_round_near(num, den);
    let p = sum.over(d);
    if sum.negative() {
        assert(sum.units() == 0);
        assert(0 * vstd::arithmetic::power2::pow2(149) == 0);
        crate::single::lemma_zero_rounds(true, den);
        crate::single::lemma_zero_rounds(false, den);
        crate::single::lemma_units_positive(p);
    } else {
        crate::single::lemma_round_is_a_number(false, num, den);
    }
    let pv = p.signed();
    let up = crate::single::round_units(false, num, den);
    if sum.negative() {
        assert(crate::single::round_units(false, num, den).mag() == 0);
        crate::single::lemma_units_positive(up);
    }
    assert(up.units() == pv);
    assert(pv * (n * c) == (pv * n) * c) by (nonlinear_arith);
    let a = pv * n;
    assert(a * 0x100_0000 <= s * 0x100_0001 + hh * n && s * 0xff_ffff <= a * 0x100_0000 + hh * n)
        by (nonlinear_arith)
        requires
            (a * c) * 0x100_0000 <= (s * c) * 0x100_0001 + hh * (n * c),
            (s * c) * 0xff_ffff <= (a * c) * 0x100_0000 + hh * (n * c),
            c > 0,
    ;
}

} // verus!
