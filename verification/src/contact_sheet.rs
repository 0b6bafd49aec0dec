//! Contact sheet: a grid of already encoded RGB thumbnails with captions.

use vstd::prelude::*;
use vstd::arithmetic::div_mod::*;
use vstd::arithmetic::power2::*;
use vstd::bits::*;
use crate::single::Single;

verus! {

/// Layout of a single contact sheet.
#[derive(Debug, Clone)]
pub struct ContactSheetLayout {
    pub columns: u32,
    pub cell_long: u32,
    pub gap: u32,
    pub caption_height: u32,
    pub background: [u8; 3],
}

impl Default for ContactSheetLayout {
    fn default() -> (r: Self)
        ensures
            r.columns == 4,
            r.cell_long == 400,
            r.gap == 16,
            r.caption_height == 18,
            r.background@ == seq![18u8, 18u8, 20u8],
    {
        ContactSheetLayout {
            columns: 4,
            cell_long: 400,
            gap: 16,
            caption_height: 18,
            background: [18, 18, 20],
        }
    }
}

/// One thumbnail, three bytes a pixel in row order, and its caption.
#[derive(Debug, Clone)]
pub struct ContactSheetCell {
    pub width: u32,
    pub height: u32,
    pub rgb: Vec<u8>,
    pub caption: String,
}

#[derive(Debug, Clone, Copy, PartialEq, Eq, Structural)]
pub struct ContactSheetSize {
    pub width: u32,
    pub height: u32,
    pub rows: u32,
}

/// Why no sheet was made.
#[derive(Debug, Clone, Copy, PartialEq, Eq, Structural)]
pub enum SheetError {
    NoImages,
    ZeroSize,
}

impl SheetError {
    /// What the user is told.
    pub fn message(self) -> (r: &'static str)
        ensures
            r@ == match self {
                SheetError::NoImages => "Contact sheet needs at least one image"@,
                SheetError::ZeroSize => "Contact sheet size is zero"@,
            },
    {
        match self {
            SheetError::NoImages => "Contact sheet needs at least one image",
            SheetError::ZeroSize => "Contact sheet size is zero",
        }
    }
}

impl ContactSheetLayout {
    /// Number of columns; at least one.
    pub open spec fn cols(self) -> int {
        if self.columns == 0 {
            1
        } else {
            self.columns as int
        }
    }

    /// Height of a cell with its caption.
    pub open spec fn cell_h(self) -> int {
        self.cell_long + self.caption_height
    }

    /// Rows that hold `n` cells. The count is kept in 32 bits.
    pub open spec fn rows_for(self, n: usize) -> int {
        ((n as u32) + self.cols() - 1) / self.cols()
    }

    pub open spec fn sheet_w(self) -> int {
        self.cols() * self.cell_long + (self.cols() + 1) * self.gap
    }

    pub open spec fn sheet_h(self, n: usize) -> int {
        self.rows_for(n) * self.cell_h() + (self.rows_for(n) + 1) * self.gap
    }

    /// The sheet's sides stay within 32 bits.
    pub open spec fn measurable(self, n: usize) -> bool {
        &&& self.columns < u32::MAX
        &&& self.rows_for(n) < u32::MAX
        &&& self.cell_h() <= u32::MAX
        &&& self.sheet_w() <= u32::MAX
        &&& self.sheet_h(n) <= u32::MAX
    }

    /// Left edge of the `i`th cell.
    pub open spec fn cell_x(self, i: int) -> int {
        self.gap + (i % self.cols()) * (self.cell_long + self.gap)
    }

    /// Top edge of the `i`th cell.
    pub open spec fn cell_y(self, i: int) -> int {
        self.gap + (i / self.cols()) * (self.cell_h() + self.gap)
    }
}

/// Size of the sheet that holds `n` cells.
pub fn sheet_size(n: usize, layout: &ContactSheetLayout) -> (r: Result<ContactSheetSize, SheetError>)
    requires
        n > 0 ==> layout.measurable(n),
    ensures
        n == 0 <==> r == Err::<ContactSheetSize, SheetError>(SheetError::NoImages),
        (n > 0 && (layout.sheet_w() == 0 || layout.sheet_h(n) == 0)) <==> r == Err::<
            ContactSheetSize,
            SheetError,
        >(SheetError::ZeroSize),
        r matches Ok(s) ==> {
            &&& s.width == layout.sheet_w()
            &&& s.height == layout.sheet_h(n)
            &&& s.rows == layout.rows_for(n)
        },
{
    if n == 0 {
        return Err(SheetError::NoImages);
    }
    let cols: u32 = if layout.columns == 0 {
        1
    } else {
        layout.columns
    };
    let count: u32 = #[verifier::truncate] (n as u32);
    let rows: u32 = if count == 0 {
        0
    } else {
        (count - 1) / cols + 1
    };
    proof {
        if count > 0 {
            assert((count - 1) / (cols as int) + 1 == (count + cols - 1) / (cols as int)) by {
                lemma_div_plus_one(count - 1, cols as int);
            }
        } else {
            lemma_basic_div(cols - 1, cols as int);
        }
        lemma_div_pos_is_pos(count + cols - 1, cols as int);
        let c = cols as int;
        let l = layout.cell_long as int;
        let g = layout.gap as int;
        assert(0 <= c * l && 0 <= (c + 1) * g && 0 <= rows * layout.cell_h() && 0 <= (rows + 1) * g)
            by (nonlinear_arith)
            requires
                c >= 0,
                l >= 0,
                g >= 0,
                rows >= 0,
                layout.cell_h() >= 0,
        ;
        if g > 0 {
            assert(rows < (rows + 1) * g) by (nonlinear_arith)
                requires
                    rows >= 0,
                    g >= 1,
            ;
        }
    }
    let cell_h: u32 = layout.cell_long + layout.caption_height;
    let width: u32 = cols * layout.cell_long + (cols + 1) * layout.gap;
    let height: u32 = rows * cell_h + (rows + 1) * layout.gap;
    if width == 0 || height == 0 {
        return Err(SheetError::ZeroSize);
    }
    Ok(ContactSheetSize { width, height, rows })
}

/// Size of a `src_w` by `src_h` picture made to fit a box, keeping its aspect.
///
/// Computed in single precision: the smaller of the two side ratios, at most 1, scales
/// both sides, and each is rounded to a whole number of at least 1.
pub open spec fn fit_scale(src_w: u32, src_h: u32, box_w: u32, box_h: u32) -> Single {
    Single::whole(box_w as u64).over(side(src_w)).smaller(
        Single::whole(box_h as u64).over(side(src_h)),
    ).smaller(Single::whole(1))
}

pub open spec fn side(v: u32) -> Single {
    Single::whole(if v == 0 { 1 } else { v as u64 })
}

pub open spec fn fit_side(v: u32, scale: Single) -> u32 {
    side(v).times(scale).rounded().larger(Single::whole(1)).to_int(u32::MAX as u64) as u32
}

/// Both sides of a picture, scaled by what a box allows.
pub open spec fn scaled_size_spec(src_w: u32, src_h: u32, box_w: u32, box_h: u32) -> (u32, u32) {
    let scale = fit_scale(src_w, src_h, box_w, box_h);
    (fit_side(src_w, scale), fit_side(src_h, scale))
}

pub(crate) fn scaled_size(src_w: u32, src_h: u32, box_w: u32, box_h: u32) -> (r: (u32, u32))
    ensures
        r == scaled_size_spec(src_w, src_h, box_w, box_h),
{
    let w = Single::whole(if src_w == 0 { 1 } else { src_w as u64 });
    let h = Single::whole(if src_h == 0 { 1 } else { src_h as u64 });
    let one = Single::whole(1);
    let scale = Single::whole(box_w as u64).over(w).smaller(
        Single::whole(box_h as u64).over(h),
    ).smaller(one);
    (
        w.times(scale).rounded().larger(one).to_int(u32::MAX as u64) as u32,
        h.times(scale).rounded().larger(one).to_int(u32::MAX as u64) as u32,
    )
}

/// A side that is no longer than its box.
pub open spec fn in_box(side: u32, limit: u32) -> u32 {
    if side <= limit {
        side
    } else {
        limit
    }
}

/// The scaled sides, neither longer than the box: a box without width or height leaves none.
pub open spec fn fit_spec(src_w: u32, src_h: u32, box_w: u32, box_h: u32) -> (u32, u32) {
    let (w, h) = scaled_size_spec(src_w, src_h, box_w, box_h);
    (in_box(w, box_w), in_box(h, box_h))
}

/// Fit `src_w × src_h` inside a `box_w × box_h` rectangle, keeping aspect.
pub fn fit_size(src_w: u32, src_h: u32, box_w: u32, box_h: u32) -> (r: (u32, u32))
    ensures
        r == fit_spec(src_w, src_h, box_w, box_h),
        r.0 <= box_w,
        r.1 <= box_h,
{
    let (w, h): (u32, u32) = scaled_size(src_w, src_h, box_w, box_h);
    (if w <= box_w {
        w
    } else {
        box_w
    }, if h <= box_h {
        h
    } else {
        box_h
    })
}

/// Column of the pixel that byte `i` belongs to, on a canvas `w` pixels wide.
pub open spec fn px(i: int, w: int) -> int {
    (i / 3) % w
}

/// Row of the pixel that byte `i` belongs to.
pub open spec fn py(i: int, w: int) -> int {
    (i / 3) / w
}

/// Index of a pixel's first byte.
pub open spec fn at(x: int, y: int, w: int) -> int {
    (y * w + x) * 3
}

proof fn lemma_at(x: int, y: int, w: int, h: int)
    requires
        0 <= x < w,
        0 <= y < h,
    ensures
        0 <= at(x, y, w),
        at(x, y, w) + 3 <= w * h * 3,
        0 <= y * w + x < w * h,
{
    assert(0 <= y * w + x && y * w + x + 1 <= w * h) by (nonlinear_arith)
        requires
            0 <= x < w,
            0 <= y < h,
    ;
}

/// Byte `i` is one of the three of the pixel that it names.
proof fn lemma_pixel(i: int, x: int, y: int, w: int)
    requires
        0 <= i,
        0 <= x < w,
        0 <= y,
    ensures
        (at(x, y, w) <= i < at(x, y, w) + 3) <==> (px(i, w) == x && py(i, w) == y),
        at(x, y, w) <= i < at(x, y, w) + 3 ==> i % 3 == i - at(x, y, w),
{
    let p = i / 3;
    lemma_fundamental_div_mod(p, w);
    lemma_mod_bound(p, w);
    if at(x, y, w) <= i < at(x, y, w) + 3 {
        assert(p == y * w + x);
        lemma_fundamental_div_mod_converse(p, w, y, x);
    }
    if px(i, w) == x && py(i, w) == y {
        assert(p == y * w + x) by (nonlinear_arith)
            requires
                p == w * y + x,
        ;
    }
}

/// Rectangle that a fitted picture covers: it is centred in its box.
pub struct Placed {
    pub x: u32,
    pub y: u32,
    pub w: u32,
    pub h: u32,
}

/// The canvas after the picture's rows above `rows`, and `cols` pixels of that row, are in.
spec fn picture_part(
    dest: Seq<u8>,
    w: int,
    cell: ContactSheetCell,
    p: Placed,
    rows: int,
    cols: int,
) -> Seq<u8> {
    Seq::new(
        dest.len(),
        |i: int|
            {
                let x = px(i, w) - p.x;
                let y = py(i, w) - p.y;
                if 0 <= x < p.w && 0 <= y < p.h && (y < rows || (y == rows && x < cols)) {
                    cell.rgb@[at(x * cell.width / p.w as int, y * cell.height / p.h as int,
                        cell.width as int) + i % 3]
                } else {
                    dest[i]
                }
            },
    )
}

/// The canvas with the picture in its place; each pixel takes the nearest one above and
/// left of it in the source.
pub open spec fn with_picture(dest: Seq<u8>, w: int, cell: ContactSheetCell, p: Placed) -> Seq<u8> {
    Seq::new(
        dest.len(),
        |i: int|
            {
                let x = px(i, w) - p.x;
                let y = py(i, w) - p.y;
                if 0 <= x < p.w && 0 <= y < p.h {
                    cell.rgb@[at(x * cell.width / p.w as int, y * cell.height / p.h as int,
                        cell.width as int) + i % 3]
                } else {
                    dest[i]
                }
            },
    )
}

/// A cell is drawn where its pixels are all there.
pub open spec fn drawable(cell: ContactSheetCell) -> bool {
    cell.width > 0 && cell.height > 0 && cell.rgb.len() >= cell.width * cell.height * 3
}

pub open spec fn place(x0: int, y0: int, box_w: u32, box_h: u32, cell: ContactSheetCell) -> Placed {
    let (fw, fh) = fit_spec(cell.width, cell.height, box_w, box_h);
    Placed {
        x: (x0 + (box_w - fw) / 2) as u32,
        y: (y0 + (box_h - fh) / 2) as u32,
        w: fw,
        h: fh,
    }
}

fn copy_pixel(dest: &mut Vec<u8>, di: usize, src: &Vec<u8>, si: usize)
    requires
        di + 3 <= old(dest).len(),
        si + 3 <= src.len(),
    ensures
        final(dest).len() == old(dest).len(),
        forall|i: int|
            #![trigger final(dest)@[i]]
            0 <= i < old(dest).len() ==> final(dest)@[i] == if di <= i < di + 3 {
                src@[si + (i - di)]
            } else {
                old(dest)@[i]
            },
{
    dest[di] = src[si];
    dest[di + 1] = src[si + 1];
    dest[di + 2] = src[si + 2];
}

proof fn lemma_sample(x: int, n: int, m: int)
    requires
        0 <= x < n,
        0 < m,
    ensures
        0 <= x * m / n < m,
{
    assert(0 <= x * m < n * m) by (nonlinear_arith)
        requires
            0 <= x < n,
            0 < m,
    ;
    lemma_div_pos_is_pos(x * m, n);
    lemma_multiply_divide_lt(x * m, n, m);
}

/// Scales the cell's picture into a box, centred.
fn blit_fit(
    dest: &mut Vec<u8>,
    dest_w: u32,
    dest_h: u32,
    x0: u32,
    y0: u32,
    box_w: u32,
    box_h: u32,
    cell: &ContactSheetCell,
)
    requires
        old(dest).len() == dest_w * dest_h * 3,
        dest_w > 0,
        x0 + box_w <= u32::MAX,
        y0 + box_h <= u32::MAX,
        cell.width > 0 && cell.height > 0 ==> cell.width * cell.height * 3 <= u32::MAX,
    ensures
        final(dest)@ == if drawable(*cell) {
            with_picture(
                old(dest)@,
                dest_w as int,
                *cell,
                place(x0 as int, y0 as int, box_w, box_h, *cell),
            )
        } else {
            old(dest)@
        },
{
    if cell.width == 0 || cell.height == 0 {
        return;
    }
    proof {
        assert(cell.width * cell.height <= cell.width * cell.height * 3) by (nonlinear_arith)
            requires
                cell.width * cell.height >= 0,
        ;
        assert(cell.width * cell.height >= 0) by (nonlinear_arith)
            requires
                cell.width >= 0,
                cell.height >= 0,
        ;
    }
    if cell.rgb.len() < (cell.width * cell.height * 3) as usize {
        return;
    }
    let (fw, fh) = fit_size(cell.width, cell.height, box_w, box_h);
    let ox: u32 = x0 + (box_w - fw) / 2;
    let oy: u32 = y0 + (box_h - fh) / 2;
    let ghost p = Placed { x: ox, y: oy, w: fw, h: fh };
    let ghost start = dest@;
    let ghost w = dest_w as int;
    assert(dest@ =~= picture_part(start, w, *cell, p, 0, 0));
    let mut y: u32 = 0;
    while y < fh
        invariant
            y <= fh,
            w == dest_w,
            w > 0,
            start.len() == dest_w * dest_h * 3,
            dest@ == picture_part(start, w, *cell, p, y as int, 0),
            p == (Placed { x: ox, y: oy, w: fw, h: fh }),
            cell.width > 0,
            cell.height > 0,
            cell.rgb.len() >= cell.width * cell.height * 3,
        decreases fh - y,
    {
        proof {
            lemma_sample(y as int, fh as int, cell.height as int);
            assert(y * cell.height <= 0xffff_ffff * 0xffff_ffff) by (nonlinear_arith)
                requires
                    y <= 0xffff_ffff,
                    cell.height <= 0xffff_ffff,
            ;
        }
        let sy: u64 = y as u64 * cell.height as u64 / fh as u64;
        let mut x: u32 = 0;
        while x < fw
            invariant
                x <= fw,
                y < fh,
                w == dest_w,
                w > 0,
                start.len() == dest_w * dest_h * 3,
                dest@ == picture_part(start, w, *cell, p, y as int, x as int),
                p == (Placed { x: ox, y: oy, w: fw, h: fh }),
                cell.width > 0,
                cell.height > 0,
                cell.rgb.len() >= cell.width * cell.height * 3,
                sy == y * cell.height / fh as int,
                sy < cell.height,
            decreases fw - x,
        {
            proof {
                lemma_sample(x as int, fw as int, cell.width as int);
                assert(x * cell.width <= 0xffff_ffff * 0xffff_ffff) by (nonlinear_arith)
                    requires
                        x <= 0xffff_ffff,
                        cell.width <= 0xffff_ffff,
                ;
            }
            let sx: u64 = x as u64 * cell.width as u64 / fw as u64;
            let qx: u64 = ox as u64 + x as u64;
            let qy: u64 = oy as u64 + y as u64;
            let ghost before = dest@;
            if qx < dest_w as u64 && qy < dest_h as u64 {
                proof {
                    lemma_at(qx as int, qy as int, w, dest_h as int);
                    lemma_at(sx as int, sy as int, cell.width as int, cell.height as int);
                    assert(dest.len() == start.len());
                    assert(0 <= qy * w && 0 <= sy * cell.width) by (nonlinear_arith)
                        requires
                            qy >= 0,
                            w >= 0,
                            sy >= 0,
                            cell.width >= 0,
                    ;
                }
                let di: usize = (qy as usize * dest_w as usize + qx as usize) * 3;
                let si: usize = (sy as usize * cell.width as usize + sx as usize) * 3;
                copy_pixel(dest, di, &cell.rgb, si);
                assert forall|i: int| 0 <= i < start.len() implies #[trigger] dest@[i]
                    == picture_part(start, w, *cell, p, y as int, x + 1)[i] by {
                    lemma_pixel(i, qx as int, qy as int, w);
                    assert(before[i] == picture_part(start, w, *cell, p, y as int, x as int)[i]);
                }
            } else {
                assert forall|i: int| 0 <= i < start.len() implies #[trigger] dest@[i]
                    == picture_part(start, w, *cell, p, y as int, x + 1)[i] by {
                    lemma_inside(i, w, dest_h as int);
                    assert(before[i] == picture_part(start, w, *cell, p, y as int, x as int)[i]);
                }
            }
            assert(dest@ =~= picture_part(start, w, *cell, p, y as int, x + 1));
            x = x + 1;
        }
        assert(dest@ =~= picture_part(start, w, *cell, p, y + 1, 0));
        y = y + 1;
    }
    assert(dest@ =~= with_picture(start, w, *cell, p));
}

/// Every byte of the canvas belongs to one of its pixels.
proof fn lemma_inside(i: int, w: int, h: int)
    requires
        0 <= i < w * h * 3,
        w > 0,
    ensures
        0 <= px(i, w) < w,
        0 <= py(i, w) < h,
{
    let p = i / 3;
    assert(p < w * h);
    lemma_mod_bound(p, w);
    lemma_div_pos_is_pos(p, w);
    assert(w * h == h * w) by (nonlinear_arith);
    lemma_multiply_divide_lt(p, w, h);
}

/// Ink of the captions.
pub open spec fn ink(c: int) -> u8 {
    if c == 2 {
        214
    } else {
        210
    }
}

/// A character of the caption font: seven rows of five dots, the top left one first.
pub open spec fn glyph_code(ch: char) -> u64 {
    match ch {
        '0' => 0b01110_10001_10011_10101_11001_10001_01110,
        '1' => 0b00100_01100_00100_00100_00100_00100_01110,
        '2' => 0b01110_10001_00001_00010_00100_01000_11111,
        '3' => 0b01110_10001_00001_00110_00001_10001_01110,
        '4' => 0b00010_00110_01010_10010_11111_00010_00010,
        '5' => 0b11111_10000_11110_00001_00001_10001_01110,
        '6' => 0b00110_01000_10000_11110_10001_10001_01110,
        '7' => 0b11111_00001_00010_00100_01000_01000_01000,
        '8' => 0b01110_10001_10001_01110_10001_10001_01110,
        '9' => 0b01110_10001_10001_01111_00001_00010_01100,
        'A' | 'a' => 0b01110_10001_10001_11111_10001_10001_10001,
        'B' | 'b' => 0b11110_10001_10001_11110_10001_10001_11110,
        'C' | 'c' => 0b01110_10001_10000_10000_10000_10001_01110,
        'D' | 'd' => 0b11110_10001_10001_10001_10001_10001_11110,
        'E' | 'e' => 0b11111_10000_10000_11110_10000_10000_11111,
        'F' | 'f' => 0b11111_10000_10000_11110_10000_10000_10000,
        'G' | 'g' => 0b01110_10001_10000_10111_10001_10001_01110,
        'H' | 'h' => 0b10001_10001_10001_11111_10001_10001_10001,
        'I' | 'i' => 0b01110_00100_00100_00100_00100_00100_01110,
        'J' | 'j' => 0b00111_00010_00010_00010_00010_10010_01100,
        'K' | 'k' => 0b10001_10010_10100_11000_10100_10010_10001,
        'L' | 'l' => 0b10000_10000_10000_10000_10000_10000_11111,
        'M' | 'm' => 0b10001_11011_10101_10001_10001_10001_10001,
        'N' | 'n' => 0b10001_11001_10101_10011_10001_10001_10001,
        'O' | 'o' => 0b01110_10001_10001_10001_10001_10001_01110,
        'P' | 'p' => 0b11110_10001_10001_11110_10000_10000_10000,
        'R' | 'r' => 0b11110_10001_10001_11110_10100_10010_10001,
        'S' | 's' => 0b01110_10001_10000_01110_00001_10001_01110,
        'T' | 't' => 0b11111_00100_00100_00100_00100_00100_00100,
        'U' | 'u' => 0b10001_10001_10001_10001_10001_10001_01110,
        'V' | 'v' => 0b10001_10001_10001_10001_10001_01010_00100,
        'W' | 'w' => 0b10001_10001_10001_10001_10101_11011_10001,
        'X' | 'x' => 0b10001_10001_01010_00100_01010_10001_10001,
        'Y' | 'y' => 0b10001_10001_01010_00100_00100_00100_00100,
        'Z' | 'z' => 0b11111_00001_00010_00100_01000_10000_11111,
        '_' => 0b00000_00000_00000_00000_00000_00000_11111,
        '-' => 0b00000_00000_00000_11111_00000_00000_00000,
        '.' => 0b00000_00000_00000_00000_00000_00100_00100,
        _ => 0b00000_00100_00000_00100_00000_00100_00000,
    }
}

/// The dots of a character, five to a row from the top row down.
pub fn glyph_bits(ch: char) -> (r: u64)
    ensures
        r == glyph_code(ch),
{
    match ch {
        '0' => 0b01110_10001_10011_10101_11001_10001_01110,
        '1' => 0b00100_01100_00100_00100_00100_00100_01110,
        '2' => 0b01110_10001_00001_00010_00100_01000_11111,
        '3' => 0b01110_10001_00001_00110_00001_10001_01110,
        '4' => 0b00010_00110_01010_10010_11111_00010_00010,
        '5' => 0b11111_10000_11110_00001_00001_10001_01110,
        '6' => 0b00110_01000_10000_11110_10001_10001_01110,
        '7' => 0b11111_00001_00010_00100_01000_01000_01000,
        '8' => 0b01110_10001_10001_01110_10001_10001_01110,
        '9' => 0b01110_10001_10001_01111_00001_00010_01100,
        'A' | 'a' => 0b01110_10001_10001_11111_10001_10001_10001,
        'B' | 'b' => 0b11110_10001_10001_11110_10001_10001_11110,
        'C' | 'c' => 0b01110_10001_10000_10000_10000_10001_01110,
        'D' | 'd' => 0b11110_10001_10001_10001_10001_10001_11110,
        'E' | 'e' => 0b11111_10000_10000_11110_10000_10000_11111,
        'F' | 'f' => 0b11111_10000_10000_11110_10000_10000_10000,
        'G' | 'g' => 0b01110_10001_10000_10111_10001_10001_01110,
        'H' | 'h' => 0b10001_10001_10001_11111_10001_10001_10001,
        'I' | 'i' => 0b01110_00100_00100_00100_00100_00100_01110,
        'J' | 'j' => 0b00111_00010_00010_00010_00010_10010_01100,
        'K' | 'k' => 0b10001_10010_10100_11000_10100_10010_10001,
        'L' | 'l' => 0b10000_10000_10000_10000_10000_10000_11111,
        'M' | 'm' => 0b10001_11011_10101_10001_10001_10001_10001,
        'N' | 'n' => 0b10001_11001_10101_10011_10001_10001_10001,
        'O' | 'o' => 0b01110_10001_10001_10001_10001_10001_01110,
        'P' | 'p' => 0b11110_10001_10001_11110_10000_10000_10000,
        'R' | 'r' => 0b11110_10001_10001_11110_10100_10010_10001,
        'S' | 's' => 0b01110_10001_10000_01110_00001_10001_01110,
        'T' | 't' => 0b11111_00100_00100_00100_00100_00100_00100,
        'U' | 'u' => 0b10001_10001_10001_10001_10001_10001_01110,
        'V' | 'v' => 0b10001_10001_10001_10001_10001_01010_00100,
        'W' | 'w' => 0b10001_10001_10001_10001_10101_11011_10001,
        'X' | 'x' => 0b10001_10001_01010_00100_01010_10001_10001,
        'Y' | 'y' => 0b10001_10001_01010_00100_00100_00100_00100,
        'Z' | 'z' => 0b11111_00001_00010_00100_01000_10000_11111,
        '_' => 0b00000_00000_00000_00000_00000_00000_11111,
        '-' => 0b00000_00000_00000_11111_00000_00000_00000,
        '.' => 0b00000_00000_00000_00000_00000_00100_00100,
        _ => 0b00000_00100_00000_00100_00000_00100_00000,
    }
}

/// The capital of a letter of the Latin alphabet; any other character.
pub open spec fn capital(ch: char) -> char {
    if 'a' <= ch <= 'z' {
        (ch as int - 32) as char
    } else {
        ch
    }
}

/// No character is blank or has dots beyond its seven rows of five, and small letters look like
/// capitals.
pub proof fn glyphs_are_inked_and_know_no_case(ch: char)
    ensures
        0 < glyph_code(ch) < 0x8_0000_0000,
        glyph_code(ch) == glyph_code(capital(ch)),
{
}

/// Whether the dot in this column and row of a character is inked.
pub open spec fn dot(ch: char, col: int, row: int) -> bool {
    0 <= col < 5 && 0 <= row < 7 && (glyph_code(ch) as nat / pow2((34 - 5 * row - col) as nat)) % 2
        == 1
}

/// The canvas with the dots of one character, up to dot `col` of row `row`, at (`x`, `y`).
spec fn glyph_part(dest: Seq<u8>, w: int, x: int, y: int, ch: char, row: int, col: int) -> Seq<u8> {
    Seq::new(
        dest.len(),
        |i: int|
            {
                let c = px(i, w) - x;
                let r = py(i, w) - y;
                if dot(ch, c, r) && (r < row || (r == row && c < col)) {
                    ink(i % 3)
                } else {
                    dest[i]
                }
            },
    )
}

/// The canvas with one character whose top left dot lies at (`x`, `y`).
pub open spec fn with_glyph(dest: Seq<u8>, w: int, x: int, y: int, ch: char) -> Seq<u8> {
    Seq::new(
        dest.len(),
        |i: int|
            if dot(ch, px(i, w) - x, py(i, w) - y) {
                ink(i % 3)
            } else {
                dest[i]
            },
    )
}

fn blit_glyph(dest: &mut Vec<u8>, dest_w: u32, dest_h: u32, x: u32, y: u32, ch: char)
    requires
        old(dest).len() == dest_w * dest_h * 3,
        dest_w > 0,
    ensures
        final(dest)@ == with_glyph(old(dest)@, dest_w as int, x as int, y as int, ch),
{
    let bits: u64 = glyph_bits(ch);
    let ghost start = dest@;
    let ghost w = dest_w as int;
    assert(dest@ =~= glyph_part(start, w, x as int, y as int, ch, 0, 0));
    let mut row: u64 = 0;
    while row < 7
        invariant
            row <= 7,
            bits == glyph_code(ch),
            w == dest_w,
            w > 0,
            start.len() == dest_w * dest_h * 3,
            dest@ == glyph_part(start, w, x as int, y as int, ch, row as int, 0),
        decreases 7 - row,
    {
        let mut col: u64 = 0;
        while col < 5
            invariant
                row < 7,
                col <= 5,
                bits == glyph_code(ch),
                w == dest_w,
                w > 0,
                start.len() == dest_w * dest_h * 3,
                dest@ == glyph_part(start, w, x as int, y as int, ch, row as int, col as int),
            decreases 5 - col,
        {
            let shift: u64 = 34 - 5 * row - col;
            proof {
                lemma_u64_shr_is_div(bits, shift);
            }
            let on = (bits >> shift) % 2 == 1;
            let qx: u64 = x as u64 + col;
            let qy: u64 = y as u64 + row;
            let ghost before = dest@;
            if on && qx < dest_w as u64 && qy < dest_h as u64 {
                proof {
                    lemma_at(qx as int, qy as int, w, dest_h as int);
                    assert(dest.len() == start.len());
                    assert(0 <= qy * w) by (nonlinear_arith)
                        requires
                            qy >= 0,
                            w >= 0,
                    ;
                }
                let i: usize = (qy as usize * dest_w as usize + qx as usize) * 3;
                dest[i] = 210;
                dest[i + 1] = 210;
                dest[i + 2] = 214;
                assert forall|j: int| 0 <= j < start.len() implies #[trigger] dest@[j]
                    == glyph_part(start, w, x as int, y as int, ch, row as int, col + 1)[j] by {
                    lemma_pixel(j, qx as int, qy as int, w);
                    assert(before[j] == glyph_part(start, w, x as int, y as int, ch, row as int,
                        col as int)[j]);
                }
            } else {
                assert forall|j: int| 0 <= j < start.len() implies #[trigger] dest@[j]
                    == glyph_part(start, w, x as int, y as int, ch, row as int, col + 1)[j] by {
                    lemma_inside(j, w, dest_h as int);
                    assert(before[j] == glyph_part(start, w, x as int, y as int, ch, row as int,
                        col as int)[j]);
                }
            }
            assert(dest@ =~= glyph_part(start, w, x as int, y as int, ch, row as int, col + 1));
            col = col + 1;
        }
        assert(dest@ =~= glyph_part(start, w, x as int, y as int, ch, row + 1, 0));
        row = row + 1;
    }
    assert(dest@ =~= with_glyph(start, w, x as int, y as int, ch));
}

/// Characters of a caption that fit a strip of this width.
pub open spec fn shown(text: Seq<char>, width: int) -> Seq<char> {
    let max = (if width > 2 { width - 2 } else { 0 }) / 6;
    text.take(if max <= text.len() { max } else { text.len() as int })
}

/// The canvas with the first `n` characters of `text` in a row, six pixels apart.
pub open spec fn with_line(
    dest: Seq<u8>,
    w: int,
    x: int,
    y: int,
    text: Seq<char>,
    n: int,
) -> Seq<u8> {
    Seq::new(
        dest.len(),
        |i: int|
            {
                let k = (px(i, w) - x) / 6;
                if 0 <= k < n && dot(text[k], (px(i, w) - x) % 6, py(i, w) - y) {
                    ink(i % 3)
                } else {
                    dest[i]
                }
            },
    )
}

/// The canvas with a caption centred in a strip.
pub open spec fn with_caption(
    dest: Seq<u8>,
    w: int,
    x0: int,
    y0: int,
    width: int,
    height: int,
    text: Seq<char>,
) -> Seq<u8> {
    let line = shown(text, width);
    let x = x0 + (width - 6 * line.len()) / 2;
    let y = y0 + (if height > 7 { height - 7 } else { 0 }) / 2;
    with_line(dest, w, x, y, line, line.len() as int)
}

/// Centres a caption in a strip, in a font of 5 by 7 dots.
fn draw_caption(
    dest: &mut Vec<u8>,
    dest_w: u32,
    dest_h: u32,
    x0: u32,
    y0: u32,
    width: u32,
    height: u32,
    text: &str,
)
    requires
        old(dest).len() == dest_w * dest_h * 3,
        dest_w > 0,
        x0 + width <= u32::MAX,
        y0 + height <= u32::MAX,
    ensures
        final(dest)@ == with_caption(
            old(dest)@,
            dest_w as int,
            x0 as int,
            y0 as int,
            width as int,
            height as int,
            text@,
        ),
{
    let max_chars: usize = (width.saturating_sub(2) / 6) as usize;
    let line: Vec<char> = crate::text::first_chars(text, max_chars);
    assert(line@ == shown(text@, width as int));
    let text_w: u32 = line.len() as u32 * 6;
    let x: u32 = x0 + (width - text_w) / 2;
    let y: u32 = y0 + height.saturating_sub(7) / 2;
    let ghost start = dest@;
    let ghost w = dest_w as int;
    assert(dest@ =~= with_line(start, w, x as int, y as int, line@, 0));
    let mut k: usize = 0;
    while k < line.len()
        invariant
            k <= line.len(),
            x + 6 * line.len() <= u32::MAX,
            w == dest_w,
            w > 0,
            start.len() == dest_w * dest_h * 3,
            dest@ == with_line(start, w, x as int, y as int, line@, k as int),
        decreases line.len() - k,
    {
        let ghost before = dest@;
        blit_glyph(dest, dest_w, dest_h, x + 6 * (k as u32), y, line[k]);
        assert forall|i: int| 0 <= i < start.len() implies #[trigger] dest@[i] == with_line(
            start,
            w,
            x as int,
            y as int,
            line@,
            k + 1,
        )[i] by {
            assert(before[i] == with_line(start, w, x as int, y as int, line@, k as int)[i]);
        }
        assert(dest@ =~= with_line(start, w, x as int, y as int, line@, k + 1));
        k = k + 1;
    }
}

/// The sheet with the first `k` cells on it: each puts its picture and then its caption
/// over what is there.
pub open spec fn painted(cells: Seq<ContactSheetCell>, layout: ContactSheetLayout, k: int) -> Seq<u8>
    decreases k,
{
    let w = layout.sheet_w();
    if k <= 0 {
        Seq::new(
            (w * layout.sheet_h(cells.len() as usize) * 3) as nat,
            |i: int| layout.background@[i % 3],
        )
    } else {
        let cell = cells[k - 1];
        let x = layout.cell_x(k - 1);
        let y = layout.cell_y(k - 1);
        let under = painted(cells, layout, k - 1);
        let pictured = if drawable(cell) {
            with_picture(under, w, cell, place(x, y, layout.cell_long, layout.cell_long, cell))
        } else {
            under
        };
        with_caption(
            pictured,
            w,
            x,
            y + layout.cell_long,
            layout.cell_long as int,
            layout.caption_height as int,
            cell.caption@,
        )
    }
}

/// The cells and the layout stay within what the machine can count.
pub open spec fn composable(cells: Seq<ContactSheetCell>, layout: ContactSheetLayout) -> bool {
    &&& cells.len() <= u32::MAX
    &&& layout.measurable(cells.len() as usize)
    &&& layout.sheet_w() * layout.sheet_h(cells.len() as usize) * 3 <= usize::MAX
    &&& forall|i: int|
        #![trigger cells[i]]
        0 <= i < cells.len() && cells[i].width > 0 && cells[i].height > 0 ==> cells[i].width
            * cells[i].height * 3 <= u32::MAX
}

/// A cell with its caption lies on the sheet.
proof fn lemma_cell_on_sheet(layout: ContactSheetLayout, n: usize, i: int)
    requires
        0 <= i < n <= u32::MAX,
    ensures
        0 <= layout.cell_x(i),
        layout.cell_x(i) + layout.cell_long <= layout.sheet_w(),
        0 <= layout.cell_y(i),
        layout.cell_y(i) + layout.cell_h() <= layout.sheet_h(n),
{
    let c = layout.cols();
    let col = i % c;
    let row = i / c;
    let rows = layout.rows_for(n);
    lemma_fundamental_div_mod(i, c);
    lemma_mod_bound(i, c);
    lemma_div_pos_is_pos(i, c);
    assert(row < rows) by {
        lemma_div_plus_one(n - 1, c);
        lemma_div_is_ordered(i, n - 1, c);
    }
    let l = layout.cell_long as int;
    let g = layout.gap as int;
    let h = layout.cell_h();
    assert(0 <= col * (l + g) && col * (l + g) + l + g <= c * l + c * g) by (nonlinear_arith)
        requires
            0 <= col < c,
            l >= 0,
            g >= 0,
    ;
    assert((c + 1) * g == c * g + g) by (nonlinear_arith);
    assert(0 <= row * (h + g) && row * (h + g) + h + g <= rows * h + rows * g) by (nonlinear_arith)
        requires
            0 <= row < rows,
            h >= 0,
            g >= 0,
    ;
    assert((rows + 1) * g == rows * g + g) by (nonlinear_arith);
}

/// Draws the sheet: width, height and its bytes, three a pixel in row order.
pub fn compose(cells: &[ContactSheetCell], layout: &ContactSheetLayout) -> (r: Result<
    (u32, u32, Vec<u8>),
    SheetError,
>)
    requires
        cells.len() > 0 ==> composable(cells@, *layout),
    ensures
        cells.len() == 0 <==> r == Err::<(u32, u32, Vec<u8>), SheetError>(SheetError::NoImages),
        (cells.len() > 0 && (layout.sheet_w() == 0 || layout.sheet_h(cells.len()) == 0)) <==> r
            == Err::<(u32, u32, Vec<u8>), SheetError>(SheetError::ZeroSize),
        r matches Ok(sheet) ==> {
            &&& sheet.0 == layout.sheet_w()
            &&& sheet.1 == layout.sheet_h(cells.len())
            &&& sheet.2@ == painted(cells@, *layout, cells.len() as int)
        },
{
    let size = match sheet_size(cells.len(), layout) {
        Ok(size) => size,
        Err(e) => {
            return Err(e);
        },
    };
    proof {
        let a = size.width as int;
        let b = size.height as int;
        assert(0 <= a * b && a * b <= a * b * 3) by (nonlinear_arith)
            requires
                a >= 0,
                b >= 0,
        ;
    }
    let pixels: usize = size.width as usize * size.height as usize;
    let mut rgb: Vec<u8> = Vec::with_capacity(pixels * 3);
    let mut p: usize = 0;
    while p < pixels
        invariant
            p <= pixels,
            pixels * 3 <= usize::MAX,
            rgb@ == Seq::new((p * 3) as nat, |i: int| layout.background@[i % 3]),
        decreases pixels - p,
    {
        rgb.push(layout.background[0]);
        rgb.push(layout.background[1]);
        rgb.push(layout.background[2]);
        p = p + 1;
        assert(rgb@ =~= Seq::new((p * 3) as nat, |i: int| layout.background@[i % 3]));
    }
    assert(rgb@ =~= painted(cells@, *layout, 0));
    let cols: u32 = if layout.columns == 0 {
        1
    } else {
        layout.columns
    };
    let cell_h: u32 = layout.cell_long + layout.caption_height;
    let mut i: usize = 0;
    while i < cells.len()
        invariant
            i <= cells.len(),
            composable(cells@, *layout),
            cols == layout.cols(),
            cell_h == layout.cell_h(),
            size.width == layout.sheet_w(),
            size.width > 0,
            size.height == layout.sheet_h(cells.len()),
            rgb@ == painted(cells@, *layout, i as int),
            rgb.len() == size.width * size.height * 3,
        decreases cells.len() - i,
    {
        let col: u32 = i as u32 % cols;
        let row: u32 = i as u32 / cols;
        proof {
            lemma_cell_on_sheet(*layout, cells.len(), i as int);
            let s = (layout.cell_long + layout.gap) as int;
            let t = (cell_h + layout.gap) as int;
            assert(s <= layout.sheet_w() && t <= layout.sheet_h(cells.len())) by {
                let c = layout.cols();
                let r = layout.rows_for(cells.len());
                lemma_div_pos_is_pos(i as int, c);
                lemma_rows_positive(*layout, cells.len());
                let l = layout.cell_long as int;
                let g = layout.gap as int;
                let h = cell_h as int;
                assert(l + g <= c * l + (c + 1) * g && h + g <= r * h + (r + 1) * g)
                    by (nonlinear_arith)
                    requires
                        c >= 1,
                        r >= 1,
                        l >= 0,
                        g >= 0,
                        h >= 0,
                ;
            }
            assert(col * s >= 0 && row * t >= 0) by (nonlinear_arith)
                requires
                    col >= 0,
                    row >= 0,
                    s >= 0,
                    t >= 0,
            ;
        }
        let x0: u32 = layout.gap + col * (layout.cell_long + layout.gap);
        let y0: u32 = layout.gap + row * (cell_h + layout.gap);
        blit_fit(
            &mut rgb,
            size.width,
            size.height,
            x0,
            y0,
            layout.cell_long,
            layout.cell_long,
            &cells[i],
        );
        draw_caption(
            &mut rgb,
            size.width,
            size.height,
            x0,
            y0 + layout.cell_long,
            layout.cell_long,
            layout.caption_height,
            cells[i].caption.as_str(),
        );
        i = i + 1;
    }
    Ok((size.width, size.height, rgb))
}

proof fn lemma_rows_positive(layout: ContactSheetLayout, n: usize)
    requires
        0 < n <= u32::MAX,
    ensures
        layout.rows_for(n) >= 1,
{
    lemma_div_plus_one(n - 1, layout.cols());
    lemma_div_pos_is_pos(n - 1, layout.cols());
}

/// A scaled side no more than a quarter above `bound` rounds to at most `bound`, or to 1; one no
/// more than a quarter below rounds to at least `bound`.
proof fn lemma_fit_side(v: u32, scale: Single, bound: nat)
    requires
        bound < 0x40_0000,
        side(v).times(scale).finite(),
        !side(v).times(scale).negative(),
        side(v).times(scale).units() <= (4 * bound + 1) * pow2(147),
    ensures
        1 <= fit_side(v, scale),
        fit_side(v, scale) <= bound || fit_side(v, scale) == 1,
        side(v).times(scale).units() >= (4 * bound - 1) * pow2(147) ==> fit_side(v, scale) >= bound,
{
    reveal(Single::rounded_spec);
    reveal(Single::to_int_spec);
    reveal(Single::larger_spec);
    let a = side(v).times(scale);
    let c = pow2(149);
    lemma2_to64();
    lemma_pow2_adds(2, 147);
    lemma_pow2_pos(147);
    let q = (2 * a.units() + c) / (2 * c);
    assert(q <= bound && (a.units() >= (4 * bound - 1) * pow2(147) ==> q >= bound)) by {
        lemma_fundamental_div_mod((2 * a.units() + c) as int, (2 * c) as int);
        lemma_mod_bound((2 * a.units() + c) as int, (2 * c) as int);
        let e = pow2(147);
        assert(q <= bound) by (nonlinear_arith)
            requires
                2 * a.units() + c == (2 * c) * q + (2 * a.units() + c) % (2 * c),
                (2 * a.units() + c) % (2 * c) >= 0,
                c == 4 * e,
                a.units() <= (4 * bound + 1) * e,
                e > 0,
        ;
        if a.units() >= (4 * bound - 1) * e {
            assert(q >= bound) by (nonlinear_arith)
                requires
                    2 * a.units() + c == (2 * c) * q + (2 * a.units() + c) % (2 * c),
                    (2 * a.units() + c) % (2 * c) < 2 * c,
                    c == 4 * e,
                    a.units() >= (4 * bound - 1) * e,
                    e > 0,
            ;
        }
    }
    crate::single::lemma_dyadic_exact(q, 149);
    crate::single::lemma_whole_exact(1);
    let r = a.rounded();
    let one = Single::whole(1);
    crate::single::order_is_by_value(r, one);
    crate::single::order_is_by_value(one, r);
    assert(r.units() == q * c);
    assert((q * c) / c == q) by {
        lemma_div_by_multiple(q as int, c as int);
    }
    assert((1 * c) / c == 1) by {
        lemma_div_by_multiple(1, c as int);
    }
    assert(q * c >= 1 * c || q == 0) by (nonlinear_arith)
        requires
            c > 0,
            q >= 0,
    ;
    assert(0 * c == 0);
    if q >= 1 {
        reveal(Single::at_most_spec);
        assert(one.at_most(r));
        assert(r.larger(one).units() == q * c);
        assert(fit_side(v, scale) == q);
    }
}

/// One side of the fit: the scale is no larger than what this side allows.
proof fn lemma_fit_one(v: u32, b: u32, scale: Single)
    requires
        b < 0x40_0000,
        scale.finite(),
        !scale.negative(),
        scale.at_most(Single::whole(b as u64).over(side(v))),
    ensures
        1 <= fit_side(v, scale),
        fit_side(v, scale) <= b || fit_side(v, scale) == 1,
        side(v).times(scale).finite(),
        !side(v).times(scale).negative(),
        side(v).times(scale).units() <= (4 * b + 1) * pow2(147),
{
    reveal(Single::over_spec);
    reveal(Single::times_spec);
    let s = side(v);
    let bb = Single::whole(b as u64);
    let c = pow2(149);
    lemma2_to64();
    lemma_pow2_pos(149);
    crate::single::lemma_whole_range(if v == 0 { 1 } else { v as u64 });
    crate::single::lemma_whole_exact(b as u64);
    let su = s.units();
    assert(s.mag() > 0) by {
        if s.mag() == 0 {
            assert(s.mant() == 0);
            assert(0 * pow2(s.exp()) == 0);
        }
    }
    let ratio = bb.over(s);
    let n = bb.units() * c;
    assert(ratio == crate::single::round_units(false, n, su));
    assert(n <= bb.units() * su) by (nonlinear_arith)
        requires
            n == bb.units() * c,
            c <= su,
            bb.units() >= 0,
    ;
    crate::single::lemma_round_at_most(n, su, bb);
    crate::single::order_is_by_value(scale, ratio);
    let ru = ratio.units();
    // su · ru stays within a quarter of the box side
    lemma_pow2_adds(2, 147);
    lemma_pow2_adds(147, 149);
    let e = pow2(147);
    let top = (4 * b as nat + 1) * e;
    assert(su * ru <= top * c) by {
        if b == 0 {
            crate::single::lemma_units_monotone(ratio, bb);
            assert(0 * c == 0);
            assert(su * ru == 0) by (nonlinear_arith)
                requires
                    ru == 0,
            ;
            assert(top * c >= 0) by (nonlinear_arith)
                requires
                    top >= 0,
                    c >= 0,
            ;
        } else {
            lemma_pow2_adds(23, 182);
            lemma_pow2_adds(149, 149);
            lemma_pow2_strictly_increases(205, 298);
            assert(n >= 0x80_0000 * su) by (nonlinear_arith)
                requires
                    n == (b * c) * c,
                    b >= 1,
                    c * c > 0x80_0000 * pow2(182),
                    su <= pow2(182),
                    c > 0,
            ;
            crate::single::lemma_round_error(n, su);
            assert(su * ru <= top * c) by (nonlinear_arith)
                requires
                    ru * su * 0x100_0000 <= n * 0x100_0001,
                    n == (b * c) * c,
                    c == 4 * e,
                    top == (4 * b + 1) * e,
                    b < 0x40_0000,
                    e > 0,
            ;
        }
    }
    let cu = scale.units();
    assert(su * cu <= top * c) by (nonlinear_arith)
        requires
            su * ru <= top * c,
            cu <= ru,
            su >= 0,
    ;
    let limit = crate::single::round_units(false, top, 1);
    crate::single::lemma_dyadic_exact(4 * b as nat + 1, 147);
    crate::single::lemma_round_at_most(su * cu, c, limit);
    crate::single::lemma_units_monotone(s.times(scale), limit);
    lemma_fit_side(v, scale, b as nat);
}

proof fn lemma_scale_good(src_w: u32, src_h: u32, box_w: u32, box_h: u32)
    requires
        box_w < 0x40_0000,
        box_h < 0x40_0000,
    ensures
        ({
            let scale = fit_scale(src_w, src_h, box_w, box_h);
            &&& scale.finite()
            &&& !scale.negative()
            &&& scale.at_most(Single::whole(box_w as u64).over(side(src_w)))
            &&& scale.at_most(Single::whole(box_h as u64).over(side(src_h)))
            &&& scale.at_most(Single::whole(1))
        }),
{
    reveal(Single::smaller_spec);
    reveal(Single::at_most_spec);
    lemma_ratio_good(src_w, box_w);
    lemma_ratio_good(src_h, box_h);
    crate::single::lemma_whole_exact(1);
}

proof fn lemma_ratio_good(v: u32, b: u32)
    requires
        b < 0x40_0000,
    ensures
        Single::whole(b as u64).over(side(v)).finite(),
        !Single::whole(b as u64).over(side(v)).negative(),
{
    reveal(Single::over_spec);
    let s = side(v);
    let bb = Single::whole(b as u64);
    let c = pow2(149);
    lemma_pow2_pos(149);
    crate::single::lemma_whole_range(if v == 0 { 1 } else { v as u64 });
    crate::single::lemma_whole_exact(b as u64);
    assert(s.mag() > 0) by {
        if s.mag() == 0 {
            assert(s.mant() == 0);
            assert(0 * pow2(s.exp()) == 0);
        }
    }
    let su = s.units();
    let n = bb.units() * c;
    assert(n <= bb.units() * su) by (nonlinear_arith)
        requires
            n == bb.units() * c,
            c <= su,
            bb.units() >= 0,
    ;
    crate::single::lemma_round_at_most(n, su, bb);
}

/// A fitted picture stays inside its box, whatever the box. It keeps a pixel each way that the
/// box has one.
pub proof fn fitted_stays_in_box(src_w: u32, src_h: u32, box_w: u32, box_h: u32)
    ensures
        ({
            let r = fit_spec(src_w, src_h, box_w, box_h);
            &&& r.0 <= box_w
            &&& r.1 <= box_h
            &&& r.0 == 0 <==> box_w == 0
            &&& r.1 == 0 <==> box_h == 0
        }),
{
    let scale = fit_scale(src_w, src_h, box_w, box_h);
    lemma_side_holds_a_pixel(src_w, scale);
    lemma_side_holds_a_pixel(src_h, scale);
}

proof fn lemma_side_holds_a_pixel(v: u32, scale: Single)
    ensures
        fit_side(v, scale) >= 1,
{
    crate::single::lemma_at_least_one(side(v).times(scale).rounded(), u32::MAX as u64);
}

/// The scale that a side allows by itself brings the side to its box.
proof fn lemma_tight(v: u32, b: u32)
    requires
        1 <= v <= 0x1_0000,
        1 <= b <= 0x1_0000,
    ensures
        fit_side(v, Single::whole(b as u64).over(side(v))) == b,
{
    reveal(Single::over_spec);
    reveal(Single::times_spec);
    let s = side(v);
    let bb = Single::whole(b as u64);
    let c = pow2(149);
    lemma2_to64();
    lemma_pow2_pos(149);
    crate::single::lemma_whole_exact(v as u64);
    crate::single::lemma_whole_exact(b as u64);
    let su = s.units();
    assert(su >= c && su > 0) by (nonlinear_arith)
        requires
            su == v * c,
            v >= 1,
            c > 0,
    ;
    assert(s.mag() > 0) by {
        if s.mag() == 0 {
            assert(s.mant() == 0);
            assert(0 * pow2(s.exp()) == 0);
        }
    }
    let ratio = bb.over(s);
    let n = bb.units() * c;
    lemma_ratio_good(v, b);
    assert(ratio == crate::single::round_units(false, n, su));
    lemma_pow2_adds(2, 147);
    lemma_pow2_strictly_increases(64, 149);
    let e = pow2(147);
    lemma_pow2_pos(147);
    assert(n >= 0x80_0000 * su) by (nonlinear_arith)
        requires
            n == (b * c) * c,
            b >= 1,
            su == v * c,
            v <= 0x1_0000,
            c >= 0x100_0000_0000,
    ;
    crate::single::lemma_round_error(n, su);
    let ru = ratio.units();
    let t = su * ru;
    assert(t * 0x100_0000 >= (b * c) * c * 0xff_ffff) by (nonlinear_arith)
        requires
            ru * su * 0x100_0000 >= n * 0xff_ffff,
            n == (b * c) * c,
            t == su * ru,
    ;
    assert(t >= 0x80_0000 * c) by (nonlinear_arith)
        requires
            t * 0x100_0000 >= (b * c) * c * 0xff_ffff,
            b >= 1,
            c >= 0x100_0000_0000,
    ;
    reveal(Single::at_most_spec);
    lemma_fit_one(v, b, ratio);
    let made = s.times(ratio);
    assert(made == crate::single::round_units(false, t, c));
    crate::single::lemma_round_error(t, c);
    let mu = made.units();
    assert(mu >= (4 * b - 1) * e) by (nonlinear_arith)
        requires
            mu * c * 0x100_0000 >= t * 0xff_ffff,
            t * 0x100_0000 >= (b * c) * c * 0xff_ffff,
            c == 4 * e,
            e > 0,
            1 <= b <= 0x1_0000,
    {
        assert(mu * c * 0x100_0000 * 0x100_0000 >= (b * c) * c * 0xff_ffff * 0xff_ffff);
        assert(mu * 0x1_0000_0000_0000 >= (b * c) * 0xff_ffff * 0xff_ffff);
        assert((b * c) * (0x1_0000_0000_0000 - 0xff_ffff * 0xff_ffff) <= e * 0x1_0000_0000_0000);
    }
    lemma_fit_side(v, ratio, b as nat);
}

/// A side that the box has room for gives a scale of one at least.
proof fn lemma_roomy(v: u32, b: u32)
    requires
        1 <= v <= b <= 0x1_0000,
    ensures
        Single::whole(1).at_most(Single::whole(b as u64).over(side(v))),
{
    reveal(Single::over_spec);
    reveal(Single::at_most_spec);
    let one = Single::whole(1);
    let s = side(v);
    let bb = Single::whole(b as u64);
    let c = pow2(149);
    lemma_pow2_pos(149);
    crate::single::lemma_whole_exact(1);
    crate::single::lemma_whole_exact(v as u64);
    crate::single::lemma_whole_exact(b as u64);
    let su = s.units();
    assert(su > 0) by (nonlinear_arith)
        requires
            su == v * c,
            v >= 1,
            c > 0,
    ;
    assert(s.mag() > 0) by {
        if s.mag() == 0 {
            assert(s.mant() == 0);
            assert(0 * pow2(s.exp()) == 0);
        }
    }
    let n = bb.units() * c;
    assert(one.units() * su <= n * 1) by (nonlinear_arith)
        requires
            one.units() == 1 * c,
            su == v * c,
            n == (b * c) * c,
            v <= b,
            c > 0,
    ;
    lemma_ratio_good(v, b);
    crate::single::lemma_round_self(one);
    crate::single::lemma_round_monotone(one.units(), 1, n, su);
}

/// A side that the box has no room for gives a scale of one at most.
proof fn lemma_narrow(v: u32, b: u32)
    requires
        1 <= b <= v <= 0x1_0000,
    ensures
        Single::whole(b as u64).over(side(v)).at_most(Single::whole(1)),
{
    reveal(Single::over_spec);
    reveal(Single::at_most_spec);
    let one = Single::whole(1);
    let s = side(v);
    let bb = Single::whole(b as u64);
    let c = pow2(149);
    lemma_pow2_pos(149);
    crate::single::lemma_whole_exact(1);
    crate::single::lemma_whole_exact(v as u64);
    crate::single::lemma_whole_exact(b as u64);
    let su = s.units();
    assert(su > 0) by (nonlinear_arith)
        requires
            su == v * c,
            v >= 1,
            c > 0,
    ;
    assert(s.mag() > 0) by {
        if s.mag() == 0 {
            assert(s.mant() == 0);
            assert(0 * pow2(s.exp()) == 0);
        }
    }
    let n = bb.units() * c;
    assert(n <= one.units() * su) by (nonlinear_arith)
        requires
            one.units() == 1 * c,
            su == v * c,
            n == (b * c) * c,
            b <= v,
            c > 0,
    ;
    crate::single::lemma_round_at_most(n, su, one);
}

/// A side scaled by one stays what it is.
proof fn lemma_scale_one(v: u32)
    requires
        1 <= v <= 0x1_0000,
    ensures
        fit_side(v, Single::whole(1)) == v,
{
    reveal(Single::at_most_spec);
    let c = pow2(149);
    lemma2_to64();
    lemma_pow2_pos(147);
    lemma_pow2_adds(2, 147);
    crate::single::lemma_whole_exact(v as u64);
    crate::single::lemma_whole_exact(1);
    crate::single::lemma_one_is_neutral(side(v));
    let e = pow2(147);
    assert(v * c <= (4 * v + 1) * e && v * c >= (4 * v - 1) * e) by (nonlinear_arith)
        requires
            c == 4 * e,
            e >= 0,
    ;
    lemma_fit_side(v, Single::whole(1), v as nat);
}

proof fn lemma_roomy_fit(src_w: u32, src_h: u32, box_w: u32, box_h: u32)
    requires
        1 <= src_w <= box_w <= 0x1_0000,
        1 <= src_h <= box_h <= 0x1_0000,
    ensures
        fit_spec(src_w, src_h, box_w, box_h) == (src_w, src_h),
{
    reveal(Single::at_most_spec);
    reveal(Single::smaller_spec);
    lemma_roomy(src_w, box_w);
    lemma_roomy(src_h, box_h);
    lemma_scale_one(src_w);
    lemma_scale_one(src_h);
    lemma_scale_good(src_w, src_h, box_w, box_h);
    crate::single::lemma_whole_exact(1);
    let one = Single::whole(1);
    let scale = fit_scale(src_w, src_h, box_w, box_h);
    assert(scale.key() == one.key());
    assert(scale.bits == one.bits);
}

/// A picture that its box has room for keeps its size. Any other touches its box on one side at
/// least. A fitted picture stays as it is when it is fitted again.
pub proof fn fitting_is_tight(src_w: u32, src_h: u32, box_w: u32, box_h: u32)
    requires
        1 <= src_w <= 0x1_0000,
        1 <= src_h <= 0x1_0000,
        1 <= box_w <= 0x1_0000,
        1 <= box_h <= 0x1_0000,
    ensures
        ({
            let r = fit_spec(src_w, src_h, box_w, box_h);
            &&& if src_w <= box_w && src_h <= box_h {
                r == (src_w, src_h)
            } else {
                r.0 == box_w || r.1 == box_h
            }
            &&& fit_spec(r.0, r.1, box_w, box_h) == r
        }),
{
    let r = fit_spec(src_w, src_h, box_w, box_h);
    fitted_stays_in_box(src_w, src_h, box_w, box_h);
    lemma_roomy_fit(r.0, r.1, box_w, box_h);
    if src_w <= box_w && src_h <= box_h {
        lemma_roomy_fit(src_w, src_h, box_w, box_h);
    } else {
        reveal(Single::at_most_spec);
        reveal(Single::smaller_spec);
        let across = Single::whole(box_w as u64).over(side(src_w));
        let down = Single::whole(box_h as u64).over(side(src_h));
        lemma_ratio_good(src_w, box_w);
        lemma_ratio_good(src_h, box_h);
        crate::single::lemma_whole_exact(1);
        if src_w > box_w {
            lemma_narrow(src_w, box_w);
        } else {
            lemma_narrow(src_h, box_h);
        }
        let scale = fit_scale(src_w, src_h, box_w, box_h);
        assert(scale == across || scale == down);
        lemma_tight(src_w, box_w);
        lemma_tight(src_h, box_h);
    }
}

/// Fitting never enlarges a picture.
pub proof fn fitting_never_enlarges(src_w: u32, src_h: u32, box_w: u32, box_h: u32)
    requires
        0 < src_w < 0x40_0000,
        0 < src_h < 0x40_0000,
        box_w < 0x40_0000,
        box_h < 0x40_0000,
    ensures
        ({
            let r = fit_spec(src_w, src_h, box_w, box_h);
            r.0 <= src_w && r.1 <= src_h
        }),
{
    let scale = fit_scale(src_w, src_h, box_w, box_h);
    lemma_scale_good(src_w, src_h, box_w, box_h);
    lemma_not_enlarged(src_w, scale);
    lemma_not_enlarged(src_h, scale);
}

proof fn lemma_not_enlarged(v: u32, scale: Single)
    requires
        0 < v < 0x40_0000,
        scale.finite(),
        !scale.negative(),
        scale.at_most(Single::whole(1)),
    ensures
        fit_side(v, scale) <= v,
{
    reveal(Single::times_spec);
    let s = side(v);
    let c = pow2(149);
    lemma2_to64();
    lemma_pow2_pos(149);
    crate::single::lemma_whole_exact(v as u64);
    crate::single::lemma_whole_exact(1);
    crate::single::order_is_by_value(scale, Single::whole(1));
    let cu = scale.units();
    assert(s.units() * cu <= s.units() * c) by (nonlinear_arith)
        requires
            cu <= c,
            s.units() >= 0,
    ;
    crate::single::lemma_round_at_most(s.units() * cu, c, s);
    crate::single::lemma_units_monotone(s.times(scale), s);
    lemma_pow2_adds(2, 147);
    let e = pow2(147);
    assert(v * c <= (4 * v + 1) * e) by (nonlinear_arith)
        requires
            c == 4 * e,
            e >= 0,
    ;
    lemma_fit_side(v, scale, v as nat);
}

/// However many cells are drawn, the sheet keeps three bytes for each of its pixels.
pub proof fn sheet_keeps_its_length(
    cells: Seq<ContactSheetCell>,
    layout: ContactSheetLayout,
    k: int,
)
    requires
        layout.sheet_w() * layout.sheet_h(cells.len() as usize) >= 0,
    ensures
        painted(cells, layout, k).len() == layout.sheet_w() * layout.sheet_h(cells.len() as usize)
            * 3,
    decreases k,
{
    if k > 0 {
        sheet_keeps_its_length(cells, layout, k - 1);
    }
}

/// Byte `i` of the sheet lies in the `j`th cell or its caption strip.
pub open spec fn in_cell(layout: ContactSheetLayout, j: int, i: int) -> bool {
    let x = px(i, layout.sheet_w()) - layout.cell_x(j);
    let y = py(i, layout.sheet_w()) - layout.cell_y(j);
    0 <= x < layout.cell_long && 0 <= y < layout.cell_h()
}

/// What lies in no cell keeps the background, where captions have the height of the font.
pub proof fn gaps_keep_the_background(
    cells: Seq<ContactSheetCell>,
    layout: ContactSheetLayout,
    k: int,
    i: int,
)
    requires
        composable(cells, layout),
        0 <= k <= cells.len(),
        layout.caption_height >= 7,
        0 <= i < layout.sheet_w() * layout.sheet_h(cells.len() as usize) * 3,
        forall|j: int| 0 <= j < k ==> !in_cell(layout, j, i),
    ensures
        painted(cells, layout, k)[i] == layout.background@[i % 3],
    decreases k,
{
    if k > 0 {
        let cell = cells[k - 1];
        let n = cells.len() as usize;
        gaps_keep_the_background(cells, layout, k - 1, i);
        sheet_keeps_its_length(cells, layout, k - 1);
        sheet_keeps_its_length(cells, layout, k);
        assert(!in_cell(layout, k - 1, i));
        lemma_cell_on_sheet(layout, n, k - 1);
        fitted_stays_in_box(cell.width, cell.height, layout.cell_long, layout.cell_long);
    }
}

/// Drawing a cell leaves what lies beside it as it is.
proof fn lemma_beside_a_cell(
    cells: Seq<ContactSheetCell>,
    layout: ContactSheetLayout,
    k: int,
    i: int,
)
    requires
        composable(cells, layout),
        0 < k <= cells.len(),
        layout.caption_height >= 7,
        0 <= i < layout.sheet_w() * layout.sheet_h(cells.len() as usize) * 3,
        !in_cell(layout, k - 1, i),
    ensures
        painted(cells, layout, k)[i] == painted(cells, layout, k - 1)[i],
{
    let cell = cells[k - 1];
    sheet_keeps_its_length(cells, layout, k - 1);
    sheet_keeps_its_length(cells, layout, k);
    lemma_cell_on_sheet(layout, cells.len() as usize, k - 1);
    fitted_stays_in_box(cell.width, cell.height, layout.cell_long, layout.cell_long);
}

/// No byte lies in two cells.
proof fn lemma_cells_apart(layout: ContactSheetLayout, j: int, k: int, i: int)
    requires
        0 <= j < k,
        in_cell(layout, j, i),
    ensures
        !in_cell(layout, k, i),
{
    let c = layout.cols();
    lemma_fundamental_div_mod(j, c);
    lemma_fundamental_div_mod(k, c);
    lemma_mod_bound(j, c);
    lemma_mod_bound(k, c);
    if in_cell(layout, k, i) {
        let a = layout.cell_long + layout.gap;
        let b = layout.cell_h() + layout.gap;
        lemma_apart(j % c, k % c, a, layout.cell_long as int, px(i, layout.sheet_w()) - layout.gap);
        lemma_apart(j / c, k / c, b, layout.cell_h(), py(i, layout.sheet_w()) - layout.gap);
    }
}

proof fn lemma_apart(m: int, n: int, step: int, len: int, v: int)
    requires
        len <= step,
        0 <= v - m * step < len,
        0 <= v - n * step < len,
    ensures
        m == n,
{
    assert(m == n) by (nonlinear_arith)
        requires
            len <= step,
            0 <= v - m * step < len,
            0 <= v - n * step < len,
    ;
}

/// A byte of a cell stays what it was when the cell was drawn.
proof fn lemma_drawn_cells_stay(
    cells: Seq<ContactSheetCell>,
    layout: ContactSheetLayout,
    j: int,
    k: int,
    i: int,
)
    requires
        composable(cells, layout),
        0 <= j < k <= cells.len(),
        layout.caption_height >= 7,
        0 <= i < layout.sheet_w() * layout.sheet_h(cells.len() as usize) * 3,
        in_cell(layout, j, i),
    ensures
        painted(cells, layout, k)[i] == painted(cells, layout, j + 1)[i],
    decreases k,
{
    if k > j + 1 {
        lemma_cells_apart(layout, j, k - 1, i);
        lemma_beside_a_cell(cells, layout, k, i);
        lemma_drawn_cells_stay(cells, layout, j, k - 1, i);
    }
}

/// Before its cell is drawn, a byte shows the background.
proof fn lemma_not_drawn_yet(
    cells: Seq<ContactSheetCell>,
    layout: ContactSheetLayout,
    j: int,
    i: int,
)
    requires
        composable(cells, layout),
        0 <= j < cells.len(),
        layout.caption_height >= 7,
        0 <= i < layout.sheet_w() * layout.sheet_h(cells.len() as usize) * 3,
        in_cell(layout, j, i),
    ensures
        painted(cells, layout, j)[i] == layout.background@[i % 3],
{
    assert forall|k: int| 0 <= k < j implies !in_cell(layout, k, i) by {
        if in_cell(layout, k, i) {
            lemma_cells_apart(layout, k, j, i);
        }
    }
    gaps_keep_the_background(cells, layout, j, i);
}

/// Byte number `ch` of the pixel `across` and `down` in the cell of a row and a column.
pub open spec fn byte_in_cell(
    layout: ContactSheetLayout,
    row: int,
    col: int,
    across: int,
    down: int,
    ch: int,
) -> int {
    let columns = if layout.columns == 0 {
        1
    } else {
        layout.columns as int
    };
    let w = columns * layout.cell_long + (columns + 1) * layout.gap;
    let x = layout.gap + col * (layout.cell_long + layout.gap) + across;
    let y = layout.gap + row * (layout.cell_long + layout.caption_height + layout.gap) + down;
    (y * w + x) * 3 + ch
}

/// Where a byte of a cell stands on the sheet.
proof fn lemma_byte_in_cell(
    cells: Seq<ContactSheetCell>,
    layout: ContactSheetLayout,
    row: int,
    col: int,
    across: int,
    down: int,
    ch: int,
)
    requires
        composable(cells, layout),
        0 <= row,
        0 <= col < layout.cols(),
        row * layout.cols() + col < cells.len(),
        0 <= across < layout.cell_long,
        0 <= down < layout.cell_long + layout.caption_height,
        0 <= ch < 3,
    ensures
        ({
            let j = row * layout.cols() + col;
            let i = byte_in_cell(layout, row, col, across, down, ch);
            let w = layout.sheet_w();
            &&& 0 <= j
            &&& 0 <= i < w * layout.sheet_h(cells.len() as usize) * 3
            &&& in_cell(layout, j, i)
            &&& px(i, w) == layout.cell_x(j) + across
            &&& py(i, w) == layout.cell_y(j) + down
            &&& i % 3 == ch
        }),
{
    let c = layout.cols();
    let j = row * c + col;
    let w = layout.sheet_w();
    let h = layout.sheet_h(cells.len() as usize);
    assert(row * c >= 0) by (nonlinear_arith)
        requires
            row >= 0,
            c >= 0,
    ;
    lemma_fundamental_div_mod_converse(j, c, row, col);
    lemma_cell_on_sheet(layout, cells.len() as usize, j);
    let x = layout.cell_x(j) + across;
    let y = layout.cell_y(j) + down;
    let i = byte_in_cell(layout, row, col, across, down, ch);
    assert(i == at(x, y, w) + ch);
    lemma_at(x, y, w, h);
    lemma_pixel(i, x, y, w);
}

/// `s` is the source line whose share of `source` lines, spread over `shown` ones, holds the start
/// of line `at`.
pub open spec fn stands_for(s: int, at: int, source: int, shown: int) -> bool {
    0 <= s < source && s * shown <= at * source < (s + 1) * shown
}

proof fn lemma_stands_for(at: int, source: int, shown: int)
    requires
        0 <= at < shown,
        0 < source,
    ensures
        stands_for(at * source / shown, at, source, shown),
{
    lemma_sample(at, shown, source);
    let n = at * source;
    lemma_fundamental_div_mod(n, shown);
    lemma_mod_bound(n, shown);
    let s = n / shown;
    assert(s * shown == shown * s && (s + 1) * shown == shown * s + shown) by (nonlinear_arith);
}

/// Each picture is shown whole in its own cell, in the middle of it: the pixels across a fitted
/// picture stand for columns of the source that are evenly spread from its first to its last, and
/// those down it for rows.
pub proof fn sheets_show_pictures_whole(
    cells: Seq<ContactSheetCell>,
    layout: ContactSheetLayout,
    row: int,
    col: int,
    x: int,
    y: int,
    ch: int,
)
    requires
        composable(cells, layout),
        layout.caption_height >= 7,
        0 <= row,
        0 <= col < layout.cols(),
        row * layout.cols() + col < cells.len(),
        drawable(cells[row * layout.cols() + col]),
        ({
            let cell = cells[row * layout.cols() + col];
            let size = fit_spec(cell.width, cell.height, layout.cell_long, layout.cell_long);
            0 <= x < size.0 && 0 <= y < size.1
        }),
        0 <= ch < 3,
    ensures
        ({
            let cell = cells[row * layout.cols() + col];
            let size = fit_spec(cell.width, cell.height, layout.cell_long, layout.cell_long);
            let i = byte_in_cell(
                layout,
                row,
                col,
                (layout.cell_long - size.0) / 2 + x,
                (layout.cell_long - size.1) / 2 + y,
                ch,
            );
            exists|sx: int, sy: int| #[trigger]
                stands_for(sx, x, cell.width as int, size.0 as int) && #[trigger] stands_for(
                    sy,
                    y,
                    cell.height as int,
                    size.1 as int,
                ) && painted(cells, layout, cells.len() as int)[i] == cell.rgb@[(sy * cell.width
                    + sx) * 3 + ch]
        }),
{
    let j = row * layout.cols() + col;
    let cell = cells[j];
    let l = layout.cell_long;
    let size = fit_spec(cell.width, cell.height, l, l);
    fitted_stays_in_box(cell.width, cell.height, l, l);
    let across = (l - size.0) / 2 + x;
    let down = (l - size.1) / 2 + y;
    let i = byte_in_cell(layout, row, col, across, down, ch);
    lemma_byte_in_cell(cells, layout, row, col, across, down, ch);
    lemma_drawn_cells_stay(cells, layout, j, cells.len() as int, i);
    sheet_keeps_its_length(cells, layout, j);
    let sx = x * cell.width / size.0 as int;
    let sy = y * cell.height / size.1 as int;
    lemma_stands_for(x, cell.width as int, size.0 as int);
    lemma_stands_for(y, cell.height as int, size.1 as int);
    lemma_cell_on_sheet(layout, cells.len() as usize, j);
    let p = place(layout.cell_x(j), layout.cell_y(j), l, l, cell);
    assert(p.x == layout.cell_x(j) + (l - size.0) / 2 && p.y == layout.cell_y(j) + (l - size.1)
        / 2);
    let w = layout.sheet_w();
    assert(with_picture(painted(cells, layout, j), w, cell, p)[i] == cell.rgb@[at(
        sx,
        sy,
        cell.width as int,
    ) + ch]);
}

/// A caption stands under its picture, in the middle of its strip, one character after the other:
/// what is no dot of it shows the background.
pub proof fn sheets_show_captions(
    cells: Seq<ContactSheetCell>,
    layout: ContactSheetLayout,
    row: int,
    col: int,
    q: int,
    dx: int,
    dy: int,
    ch: int,
)
    requires
        composable(cells, layout),
        layout.caption_height >= 7,
        0 <= row,
        0 <= col < layout.cols(),
        row * layout.cols() + col < cells.len(),
        0 <= q < cells[row * layout.cols() + col].caption@.len(),
        6 * q + 8 <= layout.cell_long,
        0 <= dx < 6,
        0 <= dy < 7,
        0 <= ch < 3,
    ensures
        ({
            let text = cells[row * layout.cols() + col].caption@;
            let room = (layout.cell_long - 2) / 6;
            let n = if text.len() <= room {
                text.len() as int
            } else {
                room
            };
            let i = byte_in_cell(
                layout,
                row,
                col,
                (layout.cell_long - 6 * n) / 2 + 6 * q + dx,
                layout.cell_long + (layout.caption_height - 7) / 2 + dy,
                ch,
            );
            painted(cells, layout, cells.len() as int)[i] == if dot(text[q], dx, dy) {
                ink(ch)
            } else {
                layout.background@[ch]
            }
        }),
{
    let j = row * layout.cols() + col;
    let cell = cells[j];
    let l = layout.cell_long;
    let text = cell.caption@;
    let line = shown(text, l as int);
    let n = line.len() as int;
    let across = (l - 6 * n) / 2 + 6 * q + dx;
    let down = l + (layout.caption_height - 7) / 2 + dy;
    let i = byte_in_cell(layout, row, col, across, down, ch);
    assert(q < n);
    lemma_byte_in_cell(cells, layout, row, col, across, down, ch);
    lemma_drawn_cells_stay(cells, layout, j, cells.len() as int, i);
    lemma_not_drawn_yet(cells, layout, j, i);
    sheet_keeps_its_length(cells, layout, j);
    sheet_keeps_its_length(cells, layout, j + 1);
    fitted_stays_in_box(cell.width, cell.height, l, l);
    lemma_cell_on_sheet(layout, cells.len() as usize, j);
    assert((6 * q + dx) / 6 == q && (6 * q + dx) % 6 == dx);
}

/// A fitted side is the side times the scale, to a pixel.
proof fn lemma_fitted_side(v: u32, scale: Single)
    requires
        1 <= v <= 0x1_0000,
        scale.finite(),
        0 <= scale.signed() <= crate::near::one(),
    ensures
        -crate::near::one() <= fit_side(v, scale) * crate::near::one() - v * scale.signed()
            <= crate::near::one(),
{
    let c = crate::near::one();
    let e = crate::near::slip();
    crate::near::lemma_sizes();
    crate::near::lemma_whole(v as u64);
    crate::near::lemma_whole(1);
    let s = side(v);
    let z = scale.signed();
    let k = v as int;
    assert(0 <= s.signed() * z <= k * c * c && s.signed() * z == (v * z) * c) by (nonlinear_arith)
        requires
            s.signed() == v * c,
            0 <= z <= c,
            k == v,
            c > 0,
    ;
    crate::near::lemma_product(s, scale, k);
    let a = s.times(scale);
    let av = a.signed();
    assert(-(k * e) <= av - v * z <= k * e) by (nonlinear_arith)
        requires
            -(k * e * c) <= av * c - (v * z) * c <= k * e * c,
            c > 0,
    ;
    assert(k * e * 0x80 <= c && v * z <= 0x1_0000 * c && v * z >= 0) by (nonlinear_arith)
        requires
            k == v,
            1 <= v <= 0x1_0000,
            c == e * 0x80_0000,
            0 <= z <= c,
            e > 0,
    ;
    reveal(Single::times_spec);
    crate::single::lemma_round_is_a_number(
        s.negative() != scale.negative(),
        s.units() * scale.units(),
        pow2(149),
    );
    if scale.negative() {
        assert(scale.units() == 0);
        assert(s.units() * 0 == 0);
        crate::single::lemma_zero_rounds(true, pow2(149));
        crate::single::lemma_units_positive(a);
    }
    let q = crate::near::lemma_rounded(a);
    let r = a.rounded();
    crate::near::lemma_smaller_larger(r, Single::whole(1));
    let big = r.larger(Single::whole(1));
    if q >= 1 {
        assert(q * c >= 1 * c) by (nonlinear_arith)
            requires
                q >= 1,
                c > 0,
        ;
        crate::near::lemma_cut(big, u32::MAX as u64);
        let f = fit_side(v, scale) as int;
        assert(f == q) by (nonlinear_arith)
            requires
                f * c <= q * c,
                f < u32::MAX ==> q * c < (f + 1) * c,
                q <= 0x80_0000,
                f <= u32::MAX,
                c > 0,
        ;
    } else {
        assert(0 * c == 0);
        crate::near::lemma_cut(big, u32::MAX as u64);
        let f = fit_side(v, scale) as int;
        assert(f == 1) by (nonlinear_arith)
            requires
                f * c <= 1 * c,
                f < u32::MAX ==> 1 * c < (f + 1) * c,
                c > 0,
        ;
    }
}

/// A fitted picture keeps its aspect, to a pixel each way.
pub proof fn fitting_keeps_the_aspect(src_w: u32, src_h: u32, box_w: u32, box_h: u32)
    requires
        1 <= src_w <= 0x1_0000,
        1 <= src_h <= 0x1_0000,
        1 <= box_w <= 0x1_0000,
        1 <= box_h <= 0x1_0000,
    ensures
        ({
            let r = fit_spec(src_w, src_h, box_w, box_h);
            -(src_w + src_h) <= r.0 * src_h - r.1 * src_w <= src_w + src_h
        }),
{
    let c = crate::near::one();
    crate::near::lemma_sizes();
    let scale = fit_scale(src_w, src_h, box_w, box_h);
    lemma_scale_good(src_w, src_h, box_w, box_h);
    crate::near::lemma_whole(1);
    crate::single::order_is_by_value(scale, Single::whole(1));
    lemma_fit_one(src_w, box_w, scale);
    lemma_fit_one(src_h, box_h, scale);
    lemma_fitted_side(src_w, scale);
    lemma_fitted_side(src_h, scale);
    let (fw, fh) = fit_spec(src_w, src_h, box_w, box_h);
    let z = scale.signed();
    crate::near::lemma_bounded(fw * c - src_w * z, c, src_h as int, src_h as int);
    crate::near::lemma_bounded(fh * c - src_h * z, c, src_w as int, src_w as int);
    let off = fw * src_h - fh * src_w;
    assert(off * c == (fw * c - src_w * z) * src_h - (fh * c - src_h * z) * src_w)
        by (nonlinear_arith)
        requires
            off == fw * src_h - fh * src_w,
    ;
    assert(c * src_h + c * src_w == (src_w + src_h) * c) by (nonlinear_arith);
    crate::near::lemma_divided(off, src_w + src_h, c);
}

} // verus!
