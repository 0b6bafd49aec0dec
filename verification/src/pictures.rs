//! Small pictures and samples cut from RGB buffers.

use vstd::prelude::*;
use crate::contact_sheet::scaled_size;
use crate::film::FilmImage;
use crate::single::Single;
use crate::view::UvRect;

verus! {

/// Sides below this keep their exact value as numbers.
pub const EXACT: u32 = 0x100_0000;

/// An RGB picture, row by row.
#[derive(Debug, Clone)]
pub struct Picture {
    pub width: u32,
    pub height: u32,
    pub rgb: Vec<u8>,
}

/// Byte `c` of pixel `(x, y)` in a picture `w` pixels wide.
pub open spec fn byte_at(rgb: Seq<u8>, w: int, x: int, y: int, c: int) -> u8 {
    rgb[(y * w + x) * 3 + c]
}

/// The bytes of a picture `w` pixels wide whose pixel `(x, y)` is pixel `(fx(x), fy(y))` of
/// another one.
pub open spec fn picked(
    out: Seq<u8>,
    w: int,
    h: int,
    rgb: Seq<u8>,
    src_w: int,
    fx: spec_fn(int) -> int,
    fy: spec_fn(int) -> int,
) -> bool {
    &&& out.len() == w * h * 3
    &&& forall|x: int, y: int, c: int|
        0 <= x < w && 0 <= y < h && 0 <= c < 3 ==> #[trigger] byte_at(out, w, x, y, c) == byte_at(
            rgb,
            src_w,
            fx(x),
            fy(y),
            c,
        )
}

/// As [`picked`], for the first `y` rows and `x` pixels of the next one.
spec fn picked_part(
    out: Seq<u8>,
    w: int,
    rgb: Seq<u8>,
    src_w: int,
    fx: spec_fn(int) -> int,
    fy: spec_fn(int) -> int,
    x: int,
    y: int,
) -> bool {
    &&& out.len() == (y * w + x) * 3
    &&& forall|px: int, py: int, c: int|
        0 <= px < w && 0 <= py && 0 <= c < 3 && (py < y || (py == y && px < x)) ==> #[trigger]
            byte_at(out, w, px, py, c) == byte_at(rgb, src_w, fx(px), fy(py), c)
}

proof fn lemma_pick_step(
    out: Seq<u8>,
    w: int,
    rgb: Seq<u8>,
    src_w: int,
    fx: spec_fn(int) -> int,
    fy: spec_fn(int) -> int,
    x: int,
    y: int,
)
    requires
        0 <= x < w,
        0 <= y,
        picked_part(out, w, rgb, src_w, fx, fy, x, y),
    ensures
        picked_part(
            out.push(byte_at(rgb, src_w, fx(x), fy(y), 0)).push(
                byte_at(rgb, src_w, fx(x), fy(y), 1),
            ).push(byte_at(rgb, src_w, fx(x), fy(y), 2)),
            w,
            rgb,
            src_w,
            fx,
            fy,
            x + 1,
            y,
        ),
{
    let next = out.push(byte_at(rgb, src_w, fx(x), fy(y), 0)).push(
        byte_at(rgb, src_w, fx(x), fy(y), 1),
    ).push(byte_at(rgb, src_w, fx(x), fy(y), 2));
    assert(0 <= y * w) by (nonlinear_arith)
        requires
            0 <= y,
            0 < w,
    ;
    assert forall|px: int, py: int, c: int|
        0 <= px < w && 0 <= py && 0 <= c < 3 && (py < y || (py == y && px < x + 1)) implies #[trigger]
    byte_at(next, w, px, py, c) == byte_at(rgb, src_w, fx(px), fy(py), c) by {
        assert(py < y ==> py * w + px < y * w) by (nonlinear_arith)
            requires
                0 <= px < w,
                py <= y,
        ;
        assert(0 <= py * w) by (nonlinear_arith)
            requires
                0 <= py,
                0 < w,
        ;
        if py < y || px < x {
            assert(byte_at(out, w, px, py, c) == byte_at(rgb, src_w, fx(px), fy(py), c));
        }
    }
}

proof fn lemma_row_done(
    out: Seq<u8>,
    w: int,
    rgb: Seq<u8>,
    src_w: int,
    fx: spec_fn(int) -> int,
    fy: spec_fn(int) -> int,
    y: int,
)
    requires
        picked_part(out, w, rgb, src_w, fx, fy, w, y),
    ensures
        picked_part(out, w, rgb, src_w, fx, fy, 0, y + 1),
{
    assert((y + 1) * w == y * w + w) by (nonlinear_arith);
}

proof fn lemma_in_buffer(x: int, y: int, w: int, h: int)
    requires
        0 <= x < w,
        0 <= y < h,
    ensures
        0 <= y * w + x,
        (y * w + x) * 3 + 3 <= w * h * 3,
{
    assert(0 <= y * w + x && y * w + w <= w * h) by (nonlinear_arith)
        requires
            0 <= x < w,
            0 <= y < h,
    ;
}

/// Place in a picture of `n` pixels that stands at place `i` when it is shrunk to `m`.
pub open spec fn source_place(i: int, n: u32, m: u32) -> int {
    Single::whole(i as u64).plus(Single::ratio(1, 2)).times(Single::whole(n as u64)).over(
        Single::whole(m as u64),
    ).floored().clamp(Single::whole(0), Single::whole((n - 1) as u64)).to_int(u64::MAX) as int
}

fn place_in_source(i: u32, n: u32, m: u32) -> (r: usize)
    requires
        0 < n <= EXACT,
    ensures
        r == source_place(i as int, n, m),
        r < n,
{
    let last: Single = Single::whole((n - 1) as u64);
    let zero: Single = Single::whole(0);
    let at: Single = Single::whole(i as u64).plus(Single::ratio(1, 2)).times(
        Single::whole(n as u64),
    ).over(Single::whole(m as u64)).floored();
    proof {
        crate::view::lemma_ordered(0, (n - 1) as u64);
        crate::single::lemma_clamped_int(at, zero, (n - 1) as u64, u64::MAX);
    }
    at.clamp(zero, last).to_int(u64::MAX) as usize
}

/// Size of the thumbnail of a picture.
pub open spec fn thumbnail_size(src_w: u32, src_h: u32, max_side: u32) -> (u32, u32) {
    crate::contact_sheet::scaled_size_spec(src_w, src_h, max_side, max_side)
}

/// A picture shrunk so that no side is longer than `max_side`, by its nearest pixels; none for
/// a picture without area or a buffer of another size.
pub fn make_thumbnail_from_rgb(rgb: &Vec<u8>, src_w: u32, src_h: u32, max_side: u32) -> (r: Option<
    Picture,
>)
    requires
        src_w <= EXACT,
        src_h <= EXACT,
        src_w * src_h * 3 <= usize::MAX,
    ensures
        r is Some <==> src_w > 0 && src_h > 0 && max_side > 0 && rgb.len() == src_w * src_h * 3,
        r is Some ==> {
            let p = r->0;
            let (w, h) = thumbnail_size(src_w, src_h, max_side);
            &&& p.width == w && p.height == h
            &&& picked(
                p.rgb@,
                w as int,
                h as int,
                rgb@,
                src_w as int,
                |x: int| source_place(x, src_w, w),
                |y: int| source_place(y, src_h, h),
            )
        },
{
    if src_w == 0 || src_h == 0 || max_side == 0 {
        return None;
    }
    assert(src_w * src_h <= src_w * src_h * 3) by (nonlinear_arith)
        requires
            src_w * src_h >= 0,
    ;
    assert(src_w * src_h >= 0) by (nonlinear_arith)
        requires
            src_w >= 0,
            src_h >= 0,
    ;
    if rgb.len() != src_w as usize * src_h as usize * 3 {
        return None;
    }
    let (dst_w, dst_h) = scaled_size(src_w, src_h, max_side, max_side);
    let ghost fx = |x: int| source_place(x, src_w, dst_w);
    let ghost fy = |y: int| source_place(y, src_h, dst_h);
    let ghost w = dst_w as int;
    let ghost sw = src_w as int;
    let mut out: Vec<u8> = Vec::new();
    let mut y: u32 = 0;
    while y < dst_h
        invariant
            y <= dst_h,
            0 < src_w <= EXACT,
            0 < src_h <= EXACT,
            src_w * src_h * 3 <= usize::MAX,
            rgb.len() == src_w * src_h * 3,
            w == dst_w,
            sw == src_w,
            fx == (|x: int| source_place(x, src_w, dst_w)),
            fy == (|y: int| source_place(y, src_h, dst_h)),
            picked_part(out@, w, rgb@, sw, fx, fy, 0, y as int),
        decreases dst_h - y,
    {
        let sy: usize = place_in_source(y, src_h, dst_h);
        let mut x: u32 = 0;
        while x < dst_w
            invariant
                x <= dst_w,
                y < dst_h,
                sy == fy(y as int),
                sy < src_h,
                0 < src_w <= EXACT,
                0 < src_h <= EXACT,
                src_w * src_h * 3 <= usize::MAX,
                rgb.len() == src_w * src_h * 3,
                w == dst_w,
                sw == src_w,
                fx == (|x: int| source_place(x, src_w, dst_w)),
                fy == (|y: int| source_place(y, src_h, dst_h)),
                picked_part(out@, w, rgb@, sw, fx, fy, x as int, y as int),
            decreases dst_w - x,
        {
            let sx: usize = place_in_source(x, src_w, dst_w);
            proof {
                lemma_in_buffer(sx as int, sy as int, src_w as int, src_h as int);
                assert(0 <= sy * src_w) by (nonlinear_arith)
                    requires
                        sy >= 0,
                        src_w >= 0,
                ;
                lemma_pick_step(out@, w, rgb@, sw, fx, fy, x as int, y as int);
            }
            let i: usize = (sy * src_w as usize + sx) * 3;
            out.push(rgb[i]);
            out.push(rgb[i + 1]);
            out.push(rgb[i + 2]);
            x = x + 1;
        }
        proof {
            lemma_row_done(out@, w, rgb@, sw, fx, fy, y as int);
        }
        y = y + 1;
    }
    proof {
        assert(dst_h * w == w * dst_h) by (nonlinear_arith);
        assert(picked(out@, w, dst_h as int, rgb@, sw, fx, fy));
    }
    Some(Picture { width: dst_w, height: dst_h, rgb: out })
}

/// First pixel of the span from `a` to `b`, in parts of `n` pixels: the first one wholly in it.
pub open spec fn first_in(a: Single, n: u32) -> u64 {
    a.times(Single::whole(n as u64)).ceiled().clamp(
        Single::whole(0),
        Single::whole((n - 1) as u64),
    ).to_int(0xffff_ffff)
}

/// End of the span, at least one after its first pixel.
pub open spec fn end_in(b: Single, first: u64, n: u32) -> u64 {
    b.times(Single::whole(n as u64)).floored().clamp(
        Single::whole((first + 1) as u64),
        Single::whole(n as u64),
    ).to_int(0xffff_ffff)
}

/// The span lies in the `n` pixels. So it does on every picture of fewer than 2^24 pixels a
/// side, where it has an end that is a number; an end that is none leaves nothing of a span that
/// begins at the first pixel.
pub open spec fn span_fits(a: Single, b: Single, n: u32) -> bool {
    let first = first_in(a, n);
    &&& first < u32::MAX
    &&& Single::whole((first + 1) as u64).at_most(Single::whole(n as u64))
    &&& first <= end_in(b, first, n) <= n
}

/// A span with an end that is a number lies in a picture of fewer than 2^24 pixels a side, and
/// holds a pixel of it.
pub proof fn spans_hold_a_pixel(a: Single, b: Single, n: u32)
    requires
        0 < n < EXACT,
        !b.not_a_number(),
    ensures
        span_fits(a, b, n),
        first_in(a, n) < end_in(b, first_in(a, n), n),
{
    let from = a.times(Single::whole(n as u64)).ceiled();
    crate::view::lemma_ordered(0, (n - 1) as u64);
    crate::single::lemma_clamped_int(from, Single::whole(0), (n - 1) as u64, 0xffff_ffff);
    let first = first_in(a, n);
    let low = Single::whole((first + 1) as u64);
    let to = b.times(Single::whole(n as u64)).floored();
    crate::view::lemma_ordered((first + 1) as u64, n as u64);
    crate::single::lemma_clamped_int(to, low, n as u64, 0xffff_ffff);
    crate::single::lemma_product_is_a_number(b, n as u64);
    crate::single::lemma_clamped_low(to, (first + 1) as u64, n as u64, 0xffff_ffff);
}

fn span_in(a: Single, b: Single, n: u32) -> (r: (u32, u32))
    requires
        n > 0,
        span_fits(a, b, n),
    ensures
        r.0 == first_in(a, n),
        r.1 == end_in(b, first_in(a, n), n),
        r.0 <= r.1 <= n,
{
    let size: Single = Single::whole(n as u64);
    let from: Single = a.times(size).ceiled().clamp(
        Single::whole(0),
        Single::whole((n - 1) as u64),
    );
    let x0: u32 = from.to_int(0xffff_ffff) as u32;
    let to: Single = b.times(size).floored().clamp(Single::whole((x0 + 1) as u64), size);
    (x0, to.to_int(0xffff_ffff) as u32)
}

/// The whole of a picture.
pub open spec fn whole_uv() -> UvRect {
    UvRect {
        left: Single::whole(0),
        top: Single::whole(0),
        right: Single::whole(1),
        bottom: Single::whole(1),
    }
}

/// Cuts an RGB buffer to `uv`, so that averaging over pixels does not reach into the halo.
/// Only pixels wholly inside are kept. What is cut fills its texture; a buffer that is too short
/// stays as it is, with its own place.
pub fn crop_rgb_u8_to_uv(w: u32, h: u32, rgb: &Vec<u8>, uv: UvRect) -> (r: (Picture, UvRect))
    requires
        w * h * 3 <= usize::MAX,
        w > 0 && h > 0 && rgb.len() >= w * h * 3 ==> span_fits(uv.left, uv.right, w) && span_fits(
            uv.top,
            uv.bottom,
            h,
        ),
    ensures
        if w == 0 || h == 0 || rgb.len() < w * h * 3 {
            r.0.width == w && r.0.height == h && r.0.rgb@ == rgb@ && r.1 == uv
        } else {
            let x0 = first_in(uv.left, w);
            let y0 = first_in(uv.top, h);
            let x1 = end_in(uv.right, x0, w);
            let y1 = end_in(uv.bottom, y0, h);
            &&& x0 <= x1 <= w && y0 <= y1 <= h
            &&& r.1 == whole_uv()
            &&& r.0.width == x1 - x0 && r.0.height == y1 - y0
            &&& if x0 == 0 && y0 == 0 && x1 == w && y1 == h {
                r.0.rgb@ == rgb@
            } else {
                picked(
                    r.0.rgb@,
                    x1 - x0,
                    y1 - y0,
                    rgb@,
                    w as int,
                    |x: int| x0 + x,
                    |y: int| y0 + y,
                )
            }
        },
{
    proof {
        assert(w * h <= w * h * 3) by (nonlinear_arith)
            requires
                w * h >= 0,
        ;
        assert(w * h >= 0) by (nonlinear_arith)
            requires
                w >= 0,
                h >= 0,
        ;
    }
    if w == 0 || h == 0 || rgb.len() < w as usize * h as usize * 3 {
        return (Picture { width: w, height: h, rgb: copied(rgb) }, uv);
    }
    let full: UvRect = UvRect {
        left: Single::whole(0),
        top: Single::whole(0),
        right: Single::whole(1),
        bottom: Single::whole(1),
    };
    let (x0, x1) = span_in(uv.left, uv.right, w);
    let (y0, y1) = span_in(uv.top, uv.bottom, h);
    if x0 == 0 && y0 == 0 && x1 == w && y1 == h {
        return (Picture { width: w, height: h, rgb: copied(rgb) }, full);
    }
    let nw: u32 = x1 - x0;
    let nh: u32 = y1 - y0;
    let ghost gx = first_in(uv.left, w);
    let ghost gy = first_in(uv.top, h);
    let ghost fx = |x: int| gx + x;
    let ghost fy = |y: int| gy + y;
    let ghost cw = nw as int;
    let ghost sw = w as int;
    let mut out: Vec<u8> = Vec::new();
    let mut y: u32 = 0;
    while y < nh
        invariant
            y <= nh,
            nw == x1 - x0,
            nh == y1 - y0,
            x0 <= x1 <= w,
            y0 <= y1 <= h,
            w * h * 3 <= usize::MAX,
            rgb.len() >= w * h * 3,
            cw == nw,
            sw == w,
            gx == x0,
            gy == y0,
            fx == (|x: int| gx + x),
            fy == (|y: int| gy + y),
            picked_part(out@, cw, rgb@, sw, fx, fy, 0, y as int),
        decreases nh - y,
    {
        let sy: usize = (y0 + y) as usize;
        let mut x: u32 = 0;
        while x < nw
            invariant
                x <= nw,
                y < nh,
                sy == y0 + y,
                nw == x1 - x0,
                nh == y1 - y0,
                x0 <= x1 <= w,
                y0 <= y1 <= h,
                w * h * 3 <= usize::MAX,
                rgb.len() >= w * h * 3,
                cw == nw,
                sw == w,
                gx == x0,
                gy == y0,
                fx == (|x: int| gx + x),
                fy == (|y: int| gy + y),
                picked_part(out@, cw, rgb@, sw, fx, fy, x as int, y as int),
            decreases nw - x,
        {
            let sx: usize = (x0 + x) as usize;
            proof {
                lemma_in_buffer(sx as int, sy as int, w as int, h as int);
                assert(0 <= sy * w) by (nonlinear_arith)
                    requires
                        sy >= 0,
                        w >= 0,
                ;
                lemma_pick_step(out@, cw, rgb@, sw, fx, fy, x as int, y as int);
            }
            let i: usize = (sy * w as usize + sx) * 3;
            out.push(rgb[i]);
            out.push(rgb[i + 1]);
            out.push(rgb[i + 2]);
            x = x + 1;
        }
        proof {
            lemma_row_done(out@, cw, rgb@, sw, fx, fy, y as int);
        }
        y = y + 1;
    }
    proof {
        assert(nh * cw == cw * nh) by (nonlinear_arith);
        assert(picked(out@, cw, nh as int, rgb@, sw, fx, fy));
    }
    (Picture { width: nw, height: nh, rgb: out }, full)
}

fn copied(v: &Vec<u8>) -> (r: Vec<u8>)
    ensures
        r@ == v@,
{
    let mut out: Vec<u8> = Vec::new();
    let mut i: usize = 0;
    while i < v.len()
        invariant
            i <= v.len(),
            out@ == v@.take(i as int),
        decreases v.len() - i,
    {
        out.push(v[i]);
        assert(v@.take(i + 1) =~= v@.take(i as int).push(v@[i as int]));
        i = i + 1;
    }
    assert(v@.take(v.len() as int) =~= v@);
    out
}

/// Pixels along each side of a picked sample.
pub const WB_PICKER_SAMPLE: usize = 4;

/// First place of the sample around `c`, among `n`.
pub open spec fn sample_start(c: int, n: int) -> int {
    let at = if c < n {
        c
    } else {
        n - 1
    };
    if at > 0 {
        at - 1
    } else {
        0
    }
}

/// End of the sample around `c`, among `n`.
pub open spec fn sample_end(c: int, n: int) -> int {
    if sample_start(c, n) + WB_PICKER_SAMPLE < n {
        sample_start(c, n) + WB_PICKER_SAMPLE
    } else {
        n
    }
}

fn sample_span(c: usize, n: usize) -> (r: (usize, usize))
    requires
        n > 0,
    ensures
        r.0 == sample_start(c as int, n as int),
        r.1 == sample_end(c as int, n as int),
        r.0 < r.1 <= n,
        r.1 - r.0 <= WB_PICKER_SAMPLE,
{
    let at: usize = if c < n {
        c
    } else {
        n - 1
    };
    let start: usize = if at > 0 {
        at - 1
    } else {
        0
    };
    let end: usize = if n - start > WB_PICKER_SAMPLE {
        start + WB_PICKER_SAMPLE
    } else {
        n
    };
    (start, end)
}

/// What pixel `(x, y)` adds: its byte in channel `c`, or one where `c` is 3; nothing where the
/// buffer ends before it.
pub open spec fn pixel_share(rgb: Seq<u8>, w: int, x: int, y: int, c: int) -> nat {
    if (y * w + x) * 3 + 2 < rgb.len() {
        if c == 3 {
            1
        } else {
            byte_at(rgb, w, x, y, c) as nat
        }
    } else {
        0
    }
}

/// What columns `x0..x` of row `y` add.
pub open spec fn row_share(rgb: Seq<u8>, w: int, y: int, x0: int, x: int, c: int) -> nat
    decreases x - x0,
{
    if x <= x0 {
        0
    } else {
        row_share(rgb, w, y, x0, x - 1, c) + pixel_share(rgb, w, x - 1, y, c)
    }
}

/// What columns `x0..x1` of rows `y0..y` add.
pub open spec fn block_share(
    rgb: Seq<u8>,
    w: int,
    x0: int,
    x1: int,
    y0: int,
    y: int,
    c: int,
) -> nat
    decreases y - y0,
{
    if y <= y0 {
        0
    } else {
        block_share(rgb, w, x0, x1, y0, y - 1, c) + row_share(rgb, w, y - 1, x0, x1, c)
    }
}

/// What the sample around `(cx, cy)` adds up to.
pub open spec fn sample_share(rgb: Seq<u8>, w: int, h: int, cx: int, cy: int, c: int) -> nat {
    block_share(
        rgb,
        w,
        sample_start(cx, w),
        sample_end(cx, w),
        sample_start(cy, h),
        sample_end(cy, h),
        c,
    )
}

/// Mean colour of the pixels around `(cx, cy)`; mid grey where there are none.
pub fn sample_rgb_u8_4x4(rgb: &Vec<u8>, w: u32, h: u32, cx: u32, cy: u32) -> (r: [u8; 3])
    requires
        w * h * 3 <= usize::MAX,
    ensures
        forall|c: int|
            0 <= c < 3 ==> #[trigger] r@[c] == if w == 0 || h == 0 || sample_share(
                rgb@,
                w as int,
                h as int,
                cx as int,
                cy as int,
                3,
            ) == 0 {
                128
            } else {
                sample_share(rgb@, w as int, h as int, cx as int, cy as int, c) / sample_share(
                    rgb@,
                    w as int,
                    h as int,
                    cx as int,
                    cy as int,
                    3,
                )
            },
{
    if w == 0 || h == 0 {
        return [128, 128, 128];
    }
    let (x0, x1) = sample_span(cx as usize, w as usize);
    let (y0, y1) = sample_span(cy as usize, h as usize);
    let ghost gw = w as int;
    let mut sr: u32 = 0;
    let mut sg: u32 = 0;
    let mut sb: u32 = 0;
    let mut n: u32 = 0;
    let mut y: usize = y0;
    while y < y1
        invariant
            y0 <= y <= y1 <= h,
            x0 < x1 <= w,
            x1 - x0 <= 4,
            y1 - y0 <= 4,
            gw == w,
            w * h * 3 <= usize::MAX,
            sr == block_share(rgb@, gw, x0 as int, x1 as int, y0 as int, y as int, 0),
            sg == block_share(rgb@, gw, x0 as int, x1 as int, y0 as int, y as int, 1),
            sb == block_share(rgb@, gw, x0 as int, x1 as int, y0 as int, y as int, 2),
            n == block_share(rgb@, gw, x0 as int, x1 as int, y0 as int, y as int, 3),
            sr <= 255 * n && sg <= 255 * n && sb <= 255 * n,
            n <= 4 * (y - y0),
        decreases y1 - y,
    {
        let ghost start = (sr as nat, sg as nat, sb as nat, n as nat);
        let mut x: usize = x0;
        while x < x1
            invariant
                y0 <= y < y1 <= h,
                x0 <= x <= x1 <= w,
                x1 - x0 <= 4,
                y1 - y0 <= 4,
                gw == w,
                w * h * 3 <= usize::MAX,
                sr == start.0 + row_share(rgb@, gw, y as int, x0 as int, x as int, 0),
                sg == start.1 + row_share(rgb@, gw, y as int, x0 as int, x as int, 1),
                sb == start.2 + row_share(rgb@, gw, y as int, x0 as int, x as int, 2),
                n == start.3 + row_share(rgb@, gw, y as int, x0 as int, x as int, 3),
                sr <= 255 * n && sg <= 255 * n && sb <= 255 * n,
                n <= 4 * (y - y0) + (x - x0),
            decreases x1 - x,
        {
            proof {
                lemma_in_buffer(x as int, y as int, w as int, h as int);
                assert(0 <= y * w) by (nonlinear_arith)
                    requires
                        y >= 0,
                        w >= 0,
                ;
            }
            let i: usize = (y * w as usize + x) * 3;
            if i + 2 < rgb.len() {
                sr = sr + rgb[i] as u32;
                sg = sg + rgb[i + 1] as u32;
                sb = sb + rgb[i + 2] as u32;
                n = n + 1;
            }
            x = x + 1;
        }
        y = y + 1;
    }
    if n == 0 {
        [128, 128, 128]
    } else {
        proof {
            lemma_mean(sr as int, n as int);
            lemma_mean(sg as int, n as int);
            lemma_mean(sb as int, n as int);
        }
        [(sr / n) as u8, (sg / n) as u8, (sb / n) as u8]
    }
}

proof fn lemma_mean(s: int, n: int)
    requires
        0 <= s <= 255 * n,
        n > 0,
    ensures
        0 <= s / n <= 255,
{
    vstd::arithmetic::div_mod::lemma_div_is_ordered(s, 255 * n, n);
    vstd::arithmetic::div_mod::lemma_div_by_multiple(255, n);
    vstd::arithmetic::div_mod::lemma_div_pos_is_pos(s, n);
}

/// Sum of channel `c` over columns `x0..x` of row `y`, on top of `start`.
pub open spec fn row_total(
    image: FilmImage,
    start: Single,
    y: int,
    x0: int,
    x: int,
    c: int,
) -> Single
    decreases x - x0,
{
    if x <= x0 {
        start
    } else {
        row_total(image, start, y, x0, x - 1, c).plus(
            image.samples@[(y * image.width + x - 1) * image.channels + c],
        )
    }
}

/// Sum of channel `c` over columns `x0..x1` of rows `y0..y`, row by row.
pub open spec fn block_total(image: FilmImage, x0: int, x1: int, y0: int, y: int, c: int) -> Single
    decreases y - y0,
{
    if y <= y0 {
        Single::whole(0)
    } else {
        row_total(image, block_total(image, x0, x1, y0, y - 1, c), y - 1, x0, x1, c)
    }
}

/// Mean of channel `c` over the sample around `(cx, cy)`.
pub open spec fn sample_mean(image: FilmImage, cx: int, cy: int, c: int) -> Single {
    let x0 = sample_start(cx, image.width as int);
    let x1 = sample_end(cx, image.width as int);
    let y0 = sample_start(cy, image.height as int);
    let y1 = sample_end(cy, image.height as int);
    block_total(image, x0, x1, y0, y1, c).over(Single::whole(((x1 - x0) * (y1 - y0)) as u64))
}

/// Mean of the three channels around `(cx, cy)`; one where the image has no pixels.
pub fn sample_array3_4x4(image: &FilmImage, cx: usize, cy: usize) -> (r: (Single, Single, Single))
    requires
        image.wf(),
        image.channels >= 3,
    ensures
        r == if image.width == 0 || image.height == 0 {
            (Single::whole(1), Single::whole(1), Single::whole(1))
        } else {
            (
                sample_mean(*image, cx as int, cy as int, 0),
                sample_mean(*image, cx as int, cy as int, 1),
                sample_mean(*image, cx as int, cy as int, 2),
            )
        },
{
    let w: usize = image.width;
    let h: usize = image.height;
    let k: usize = image.channels;
    if w == 0 || h == 0 {
        return (Single::whole(1), Single::whole(1), Single::whole(1));
    }
    let (x0, x1) = sample_span(cx, w);
    let (y0, y1) = sample_span(cy, h);
    let mut sr: Single = Single::whole(0);
    let mut sg: Single = Single::whole(0);
    let mut sb: Single = Single::whole(0);
    let mut n: u64 = 0;
    let mut y: usize = y0;
    while y < y1
        invariant
            image.wf(),
            k == image.channels,
            k >= 3,
            w == image.width,
            h == image.height,
            y0 <= y <= y1 <= h,
            x0 < x1 <= w,
            x1 - x0 <= 4,
            y1 - y0 <= 4,
            sr == block_total(*image, x0 as int, x1 as int, y0 as int, y as int, 0),
            sg == block_total(*image, x0 as int, x1 as int, y0 as int, y as int, 1),
            sb == block_total(*image, x0 as int, x1 as int, y0 as int, y as int, 2),
            n == (x1 - x0) * (y - y0),
            n <= 4 * (y - y0),
        decreases y1 - y,
    {
        let ghost start = (sr, sg, sb, n);
        let mut x: usize = x0;
        while x < x1
            invariant
                image.wf(),
                k == image.channels,
                k >= 3,
                w == image.width,
                h == image.height,
                y0 <= y < y1 <= h,
                x0 <= x <= x1 <= w,
                x1 - x0 <= 4,
                y1 - y0 <= 4,
                sr == row_total(*image, start.0, y as int, x0 as int, x as int, 0),
                sg == row_total(*image, start.1, y as int, x0 as int, x as int, 1),
                sb == row_total(*image, start.2, y as int, x0 as int, x as int, 2),
                n == start.3 + (x - x0),
                start.3 <= 4 * (y - y0),
            decreases x1 - x,
        {
            proof {
                lemma_sample_in_buffer(x as int, y as int, w as int, h as int, k as int);
            }
            let i: usize = (y * w + x) * k;
            sr = sr.plus(image.samples[i]);
            sg = sg.plus(image.samples[i + 1]);
            sb = sb.plus(image.samples[i + 2]);
            n = n + 1;
            x = x + 1;
        }
        proof {
            assert((x1 - x0) * (y + 1 - y0) == (x1 - x0) * (y - y0) + (x1 - x0)) by (nonlinear_arith);
        }
        y = y + 1;
    }
    let count: Single = Single::whole(n);
    (sr.over(count), sg.over(count), sb.over(count))
}

proof fn lemma_sample_in_buffer(x: int, y: int, w: int, h: int, k: int)
    requires
        0 <= x < w,
        0 <= y < h,
        k >= 3,
    ensures
        0 <= y * w,
        y * w + x <= w * h * k,
        y * w <= w * h * k,
        0 <= (y * w + x) * k,
        (y * w + x) * k + 3 <= w * h * k,
{
    assert(0 <= y * w && 0 <= y * w + x && y * w + x + 1 <= w * h) by (nonlinear_arith)
        requires
            0 <= x < w,
            0 <= y < h,
    ;
    let a = y * w + x;
    let b = w * h;
    assert(0 <= a * k && a * k + k <= b * k && a <= b * k) by (nonlinear_arith)
        requires
            0 <= a,
            a + 1 <= b,
            k >= 3,
    ;
}

} // verus!
