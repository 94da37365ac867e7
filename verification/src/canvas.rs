//! Glyphs on a canvas of pixels.
//!
//! A canvas is a sequence of bytes, four to a pixel: blue, green, red and alpha,
//! the colours premultiplied by the alpha. Pixels stand row by row.

use vstd::prelude::*;

verus! {

/// The four bytes of a pixel.
#[derive(Debug, Clone, Copy, PartialEq, Eq)]
pub struct Pixel {
    pub b: u8,
    pub g: u8,
    pub r: u8,
    pub a: u8,
}

/// The colour that glyphs are drawn with, and how opaque it is.
#[derive(Debug, Clone, Copy, PartialEq, Eq)]
pub struct Ink {
    pub r: u8,
    pub g: u8,
    pub b: u8,
    pub alpha: u8,
}

/// The size of a canvas in pixels.
#[derive(Debug, Clone, Copy, PartialEq, Eq)]
pub struct CanvasSize {
    pub width: u32,
    pub height: u32,
}

/// A glyph and the place of its top left corner. `data` tells how much of each
/// of its pixels it covers, row by row; a pixel beyond the end of `data` is not
/// covered.
#[derive(Debug, Clone, Copy)]
pub struct Glyph<'a> {
    pub x: i32,
    pub y: i32,
    pub width: u32,
    pub height: u32,
    pub data: &'a [u8],
}

/// The signed number with the 32 bits of `n`.
pub open spec fn as_signed(n: u32) -> int {
    if n <= i32::MAX {
        n as int
    } else {
        n - 0x1_0000_0000
    }
}

/// `color * share / 255`, rounded down.
pub open spec fn scaled(color: int, share: int) -> int {
    color * share / 255
}

/// How opaque an ink is on a pixel that is covered in part.
pub open spec fn ink_alpha(ink: Ink, coverage: u8) -> int {
    scaled(coverage as int, ink.alpha as int)
}

/// A channel of an ink of the given opacity over a channel of a pixel.
pub open spec fn over(color: int, alpha: int, below: int) -> int {
    scaled(color, alpha) + scaled(below, 255 - alpha)
}

/// An ink over a pixel that it covers in part. A pixel that stays transparent
/// stays as it is.
pub open spec fn blended(below: Pixel, ink: Ink, coverage: u8) -> Pixel {
    let alpha = ink_alpha(ink, coverage);
    let a = alpha + scaled(below.a as int, 255 - alpha);
    if a > 0 {
        Pixel {
            b: over(ink.b as int, alpha, below.b as int) as u8,
            g: over(ink.g as int, alpha, below.g as int) as u8,
            r: over(ink.r as int, alpha, below.r as int) as u8,
            a: a as u8,
        }
    } else {
        below
    }
}

/// The `p`-th pixel of a canvas.
pub open spec fn pixel_at(canvas: Seq<u8>, p: int) -> Pixel {
    Pixel {
        b: canvas[4 * p],
        g: canvas[4 * p + 1],
        r: canvas[4 * p + 2],
        a: canvas[4 * p + 3],
    }
}

/// The byte of a pixel at the place `c`.
pub open spec fn channel(p: Pixel, c: int) -> u8 {
    if c == 0 {
        p.b
    } else if c == 1 {
        p.g
    } else if c == 2 {
        p.r
    } else {
        p.a
    }
}

impl<'a> Glyph<'a> {
    /// Whether the glyph has a pixel in the given column and row of its own.
    pub open spec fn has(self, px: int, py: int) -> bool {
        0 <= px < as_signed(self.width) && 0 <= py < as_signed(self.height)
    }

    /// The place of a pixel of the glyph in `data`.
    pub open spec fn index(self, px: int, py: int) -> int {
        py * as_signed(self.width) + px
    }

    /// How much the glyph covers of the pixel of the canvas at `x` and `y`.
    pub open spec fn coverage(self, size: CanvasSize, x: int, y: int) -> u8 {
        let i = self.index(x - self.x, y - self.y);
        if self.has(x - self.x, y - self.y) && inside(size, x, y) && i < self.data@.len() {
            self.data@[i]
        } else {
            0
        }
    }

    /// Whether drawing the pixel in the given column and row of the glyph stays
    /// within the integers and the canvas that it is done with.
    pub open spec fn pixel_in_range(self, size: CanvasSize, len: nat, px: int, py: int) -> bool {
        let x = self.x + px;
        let y = self.y + py;
        let at = (y * size.width + x) * 4;
        &&& x <= i32::MAX
        &&& y <= i32::MAX
        &&& inside(size, x, y) ==> {
            &&& self.index(px, py) <= i32::MAX
            &&& self.coverage(size, x, y) > 0 ==> at <= u32::MAX && at + 3 < len
        }
    }

    /// Whether all of the glyph can be drawn on a canvas of `len` bytes.
    pub open spec fn in_range(self, size: CanvasSize, len: nat) -> bool {
        forall|px: int, py: int|
            self.has(px, py) ==> #[trigger] self.pixel_in_range(size, len, px, py)
    }

    /// Byte `k` of the canvas with the first pixels of the glyph drawn on it:
    /// the rows before `row`, and of that row the columns before `col`.
    spec fn byte_until(
        self,
        size: CanvasSize,
        ink: Ink,
        canvas: Seq<u8>,
        row: int,
        col: int,
        k: int,
    ) -> u8 {
        let p = k / 4;
        let x = p % size.width as int;
        let y = p / size.width as int;
        let done = y - self.y < row || (y - self.y == row && x - self.x < col);
        if size.width > 0 && done && self.coverage(size, x, y) > 0 {
            channel(blended(pixel_at(canvas, p), ink, self.coverage(size, x, y)), k % 4)
        } else {
            canvas[k]
        }
    }

    /// The canvas with the first pixels of the glyph drawn on it.
    spec fn drawn_until(
        self,
        size: CanvasSize,
        ink: Ink,
        canvas: Seq<u8>,
        row: int,
        col: int,
    ) -> Seq<u8> {
        Seq::new(canvas.len(), |k: int| self.byte_until(size, ink, canvas, row, col, k))
    }

    /// Byte `k` of the canvas with the glyph drawn on it: that of the pixel
    /// blended with the ink where the glyph covers it, else what it was.
    pub open spec fn drawn_byte(self, size: CanvasSize, ink: Ink, canvas: Seq<u8>, k: int) -> u8 {
        let p = k / 4;
        let c = self.coverage(size, p % size.width as int, p / size.width as int);
        if size.width > 0 && c > 0 {
            channel(blended(pixel_at(canvas, p), ink, c), k % 4)
        } else {
            canvas[k]
        }
    }

    /// The canvas with the glyph drawn on it.
    pub open spec fn drawn(self, size: CanvasSize, ink: Ink, canvas: Seq<u8>) -> Seq<u8> {
        Seq::new(canvas.len(), |k: int| self.drawn_byte(size, ink, canvas, k))
    }
}

/// Whether the canvas has a pixel at `x` and `y`.
pub open spec fn inside(size: CanvasSize, x: int, y: int) -> bool {
    0 <= x < as_signed(size.width) && 0 <= y < as_signed(size.height)
}

/// A share of a colour is no more than the share and no more than the colour.
proof fn lemma_scaled(color: int, share: int)
    requires
        0 <= color <= 255,
        0 <= share <= 255,
    ensures
        0 <= scaled(color, share) <= share,
        scaled(color, share) <= color,
        0 <= color * share <= 65025,
{
    assert(0 <= color * share <= 255 * share && color * share <= 255 * color) by (nonlinear_arith)
        requires
            0 <= color <= 255,
            0 <= share <= 255,
    ;
}

/// An ink over a pixel never exceeds a byte.
proof fn lemma_over(color: int, alpha: int, below: int)
    requires
        0 <= color <= 255,
        0 <= alpha <= 255,
        0 <= below <= 255,
    ensures
        0 <= over(color, alpha, below) <= 255,
{
    lemma_scaled(color, alpha);
    lemma_scaled(below, 255 - alpha);
}

/// The signed number with the 32 bits of `n`.
pub fn to_signed(n: u32) -> (r: i32)
    ensures
        r == as_signed(n),
{
    if n <= 0x7fff_ffff {
        n as i32
    } else {
        -1 - (0xffff_ffff - n) as i32
    }
}

/// `color * share / 255`, rounded down.
fn scale(color: u8, share: u8) -> (r: u8)
    ensures
        r == scaled(color as int, share as int),
        r <= share,
{
    proof {
        lemma_scaled(color as int, share as int);
    }
    ((color as u32 * share as u32) / 255) as u8
}

/// A channel of an ink over a channel of a pixel.
fn mix(color: u8, alpha: u8, below: u8) -> (r: u8)
    ensures
        r == over(color as int, alpha as int, below as int),
{
    scale(color, alpha) + scale(below, 255 - alpha)
}

/// Puts an ink over a pixel that it covers in part.
pub fn blend(below: Pixel, ink: Ink, coverage: u8) -> (r: Pixel)
    ensures
        r == blended(below, ink, coverage),
{
    let alpha: u8 = scale(coverage, ink.alpha);
    let a: u8 = alpha + scale(below.a, 255 - alpha);
    if a > 0 {
        Pixel {
            b: mix(ink.b, alpha, below.b),
            g: mix(ink.g, alpha, below.g),
            r: mix(ink.r, alpha, below.r),
            a,
        }
    } else {
        below
    }
}

/// The pixel in column `x` of row `y`, and it alone, is the `y * width + x`-th.
proof fn lemma_pixel_place(width: int, x: int, y: int, p: int)
    requires
        0 <= x < width,
    ensures
        p == y * width + x <==> p % width == x && p / width == y,
{
    if p == y * width + x {
        vstd::arithmetic::div_mod::lemma_fundamental_div_mod_converse(p, width, y, x);
    }
    if p % width == x && p / width == y {
        vstd::arithmetic::div_mod::lemma_fundamental_div_mod(p, width);
        assert(width * (p / width) == y * width) by (nonlinear_arith)
            requires
                p / width == y,
        ;
    }
}

impl<'a> Glyph<'a> {
    /// Places in `data` and on the canvas stay within 64 and 128 bits.
    proof fn lemma_places(self, size: CanvasSize, px: int, py: int)
        requires
            self.has(px, py),
        ensures
            0 <= py * as_signed(self.width) <= 0x3fff_ffff_ffff_ffff,
            inside(size, self.x + px, self.y + py) ==> 0 <= (self.y + py) * size.width
                <= 0x7fff_ffff_ffff_ffff,
    {
        let w = as_signed(self.width);
        assert(0 <= py * w <= 0x3fff_ffff_ffff_ffff) by (nonlinear_arith)
            requires
                0 <= py < 0x7fff_ffff,
                0 <= w <= 0x7fff_ffff,
        ;
        let y = self.y + py;
        let width = size.width as int;
        if inside(size, self.x + px, y) {
            assert(0 <= y * width <= 0x7fff_ffff_ffff_ffff) by (nonlinear_arith)
                requires
                    0 <= y < 0x7fff_ffff,
                    0 <= width <= 0xffff_ffff,
            ;
        }
    }

    /// How much the pixel in the given column and row of the glyph covers of
    /// the pixel of the canvas under it.
    fn covered(&self, size: CanvasSize, px: i32, py: i32) -> (r: u8)
        requires
            self.has(px as int, py as int),
        ensures
            r == self.coverage(size, self.x + px, self.y + py),
    {
        proof {
            self.lemma_places(size, px as int, py as int);
        }
        let x: i64 = self.x as i64 + px as i64;
        let y: i64 = self.y as i64 + py as i64;
        if x < 0 || x >= to_signed(size.width) as i64 || y < 0 || y >= to_signed(size.height) as i64 {
            return 0;
        }
        let i: u64 = py as u64 * to_signed(self.width) as u64 + px as u64;
        if i < self.data.len() as u64 {
            self.data[i as usize]
        } else {
            0
        }
    }

    /// Whether drawing one pixel of the glyph stays in range.
    fn pixel_fits(&self, size: CanvasSize, len: usize, px: i32, py: i32) -> (r: bool)
        requires
            self.has(px as int, py as int),
        ensures
            r == self.pixel_in_range(size, len as nat, px as int, py as int),
    {
        proof {
            self.lemma_places(size, px as int, py as int);
        }
        let x: i64 = self.x as i64 + px as i64;
        let y: i64 = self.y as i64 + py as i64;
        if x > i32::MAX as i64 || y > i32::MAX as i64 {
            return false;
        }
        if x < 0 || x >= to_signed(size.width) as i64 || y < 0 || y >= to_signed(size.height) as i64 {
            return true;
        }
        let i: u64 = py as u64 * to_signed(self.width) as u64 + px as u64;
        if i > i32::MAX as u64 {
            return false;
        }
        if self.covered(size, px, py) == 0 {
            return true;
        }
        let at: u128 = (y as u128 * size.width as u128 + x as u128) * 4;
        at <= u32::MAX as u128 && at + 3 < len as u128
    }

    /// Whether all of the glyph can be drawn on a canvas of `len` bytes.
    pub fn fits(&self, size: CanvasSize, len: usize) -> (r: bool)
        ensures
            r == self.in_range(size, len as nat),
    {
        let width: i32 = to_signed(self.width);
        let height: i32 = to_signed(self.height);
        let mut py: i32 = 0;
        while py < height
            invariant
                width == as_signed(self.width),
                height == as_signed(self.height),
                0 <= py,
                forall|i: int, j: int|
                    self.has(i, j) && j < py ==> #[trigger] self.pixel_in_range(
                        size,
                        len as nat,
                        i,
                        j,
                    ),
            decreases height - py,
        {
            let mut px: i32 = 0;
            while px < width
                invariant
                    width == as_signed(self.width),
                    height == as_signed(self.height),
                    0 <= py < height,
                    0 <= px,
                    forall|i: int, j: int|
                        self.has(i, j) && (j < py || (j == py && i < px))
                            ==> #[trigger] self.pixel_in_range(size, len as nat, i, j),
                decreases width - px,
            {
                if !self.pixel_fits(size, len, px, py) {
                    return false;
                }
                px += 1;
            }
            py += 1;
        }
        true
    }
}

impl<'a> Glyph<'a> {
    /// One pixel more: with that pixel blended, what was drawn up to column
    /// `px` of row `py` becomes what is drawn up to the next column.
    proof fn lemma_next_pixel(
        self,
        size: CanvasSize,
        ink: Ink,
        canvas: Seq<u8>,
        px: int,
        py: int,
    )
        requires
            self.has(px, py),
            self.pixel_in_range(size, canvas.len(), px, py),
        ensures
            ({
                let c = self.coverage(size, self.x + px, self.y + py);
                let p = (self.y + py) * size.width + self.x + px;
                let before = self.drawn_until(size, ink, canvas, py, px);
                let after = self.drawn_until(size, ink, canvas, py, px + 1);
                let pixel = blended(pixel_at(before, p), ink, c);
                after == if c > 0 {
                    before.update(4 * p, pixel.b).update(4 * p + 1, pixel.g).update(
                        4 * p + 2,
                        pixel.r,
                    ).update(4 * p + 3, pixel.a)
                } else {
                    before
                }
            }),
    {
        let x = self.x + px;
        let y = self.y + py;
        let width = size.width as int;
        let c = self.coverage(size, x, y);
        let p = y * width + x;
        let before = self.drawn_until(size, ink, canvas, py, px);
        let after = self.drawn_until(size, ink, canvas, py, px + 1);
        self.lemma_places(size, px, py);
        if c > 0 {
            lemma_pixel_place(width, x, y, p);
            assert forall|k: int| 4 * p <= k < 4 * p + 4 implies before[k] == canvas[k] by {
                assert(k / 4 == p);
            }
            assert(pixel_at(before, p) == pixel_at(canvas, p));
            let pixel = blended(pixel_at(canvas, p), ink, c);
            let written = before.update(4 * p, pixel.b).update(4 * p + 1, pixel.g).update(
                4 * p + 2,
                pixel.r,
            ).update(4 * p + 3, pixel.a);
            assert forall|k: int| 0 <= k < canvas.len() implies after[k] == written[k] by {
                lemma_pixel_place(width, x, y, k / 4);
                if k / 4 == p {
                    assert(k == 4 * p + k % 4);
                }
            }
            assert(after =~= written);
        } else {
            assert forall|k: int| 0 <= k < canvas.len() implies after[k] == before[k] by {
                let q = k / 4;
                if width > 0 && q % width == x && q / width == y {
                    assert(self.coverage(size, q % width, q / width) == 0);
                }
            }
            assert(after =~= before);
        }
    }

    /// Draws a glyph that can be drawn.
    fn draw_in_range(&self, canvas: &mut [u8], size: CanvasSize, ink: Ink)
        requires
            self.in_range(size, old(canvas)@.len()),
        ensures
            final(canvas)@ == self.drawn(size, ink, old(canvas)@),
    {
        let ghost start = canvas@;
        let width: i32 = to_signed(self.width);
        let height: i32 = to_signed(self.height);
        let mut py: i32 = 0;
        proof {
            self.lemma_first_row(size, ink, start);
        }
        while py < height
            invariant
                width == as_signed(self.width),
                height == as_signed(self.height),
                0 <= py,
                py <= height || height < 0,
                self.in_range(size, start.len()),
                canvas@ == self.drawn_until(size, ink, start, py as int, 0),
            decreases height - py,
        {
            let mut px: i32 = 0;
            while px < width
                invariant
                    width == as_signed(self.width),
                    height == as_signed(self.height),
                    0 <= py < height,
                    0 <= px,
                    px <= width || width < 0,
                    self.in_range(size, start.len()),
                    canvas@ == self.drawn_until(size, ink, start, py as int, px as int),
                decreases width - px,
            {
                assert(self.pixel_in_range(size, start.len(), px as int, py as int));
                proof {
                    self.lemma_next_pixel(size, ink, start, px as int, py as int);
                    self.lemma_places(size, px as int, py as int);
                }
                let c: u8 = self.covered(size, px, py);
                if c > 0 {
                    let x: u32 = (self.x + px) as u32;
                    let y: u32 = (self.y + py) as u32;
                    let at: usize = ((y * size.width + x) * 4) as usize;
                    let below: Pixel = Pixel {
                        b: canvas[at],
                        g: canvas[at + 1],
                        r: canvas[at + 2],
                        a: canvas[at + 3],
                    };
                    let pixel: Pixel = blend(below, ink, c);
                    canvas[at] = pixel.b;
                    canvas[at + 1] = pixel.g;
                    canvas[at + 2] = pixel.r;
                    canvas[at + 3] = pixel.a;
                }
                px += 1;
            }
            proof {
                self.lemma_next_row(size, ink, start, py as int, px as int);
            }
            py += 1;
        }
        proof {
            self.lemma_last_row(size, ink, start, py as int);
        }
    }

    /// Nothing is drawn before the first row.
    proof fn lemma_first_row(self, size: CanvasSize, ink: Ink, canvas: Seq<u8>)
        ensures
            self.drawn_until(size, ink, canvas, 0, 0) == canvas,
    {
        assert(self.drawn_until(size, ink, canvas, 0, 0) =~= canvas);
    }

    /// The end of a row is the start of the next.
    proof fn lemma_next_row(self, size: CanvasSize, ink: Ink, canvas: Seq<u8>, row: int, col: int)
        requires
            0 <= col,
            as_signed(self.width) <= col,
        ensures
            self.drawn_until(size, ink, canvas, row, col) == self.drawn_until(
                size,
                ink,
                canvas,
                row + 1,
                0,
            ),
    {
        assert(self.drawn_until(size, ink, canvas, row, col) =~= self.drawn_until(
            size,
            ink,
            canvas,
            row + 1,
            0,
        ));
    }

    /// With all rows drawn, the glyph is drawn.
    proof fn lemma_last_row(self, size: CanvasSize, ink: Ink, canvas: Seq<u8>, row: int)
        requires
            as_signed(self.height) <= row,
        ensures
            self.drawn_until(size, ink, canvas, row, 0) == self.drawn(size, ink, canvas),
    {
        assert(self.drawn_until(size, ink, canvas, row, 0) =~= self.drawn(size, ink, canvas));
    }

    /// Draws the glyph on a canvas, unless a pixel of it is out of range: then
    /// the canvas stays as it is.
    pub fn draw(&self, canvas: &mut [u8], size: CanvasSize, ink: Ink) -> (r: bool)
        ensures
            r == self.in_range(size, old(canvas)@.len()),
            final(canvas)@ == if r {
                self.drawn(size, ink, old(canvas)@)
            } else {
                old(canvas)@
            },
    {
        if self.fits(size, canvas.len()) {
            self.draw_in_range(canvas, size, ink);
            true
        } else {
            false
        }
    }
}

/// Whether no colour of a pixel exceeds its alpha, as in a premultiplied pixel.
pub open spec fn premultiplied(p: Pixel) -> bool {
    p.b <= p.a && p.g <= p.a && p.r <= p.a
}

/// Whether all pixels of a canvas are premultiplied.
pub open spec fn canvas_premultiplied(canvas: Seq<u8>) -> bool {
    forall|p: int| 0 <= p && 4 * p + 3 < canvas.len() ==> premultiplied(#[trigger] pixel_at(canvas, p))
}

/// A larger colour has no smaller share.
proof fn lemma_scaled_monotone(less: int, more: int, share: int)
    requires
        0 <= less <= more,
        0 <= share,
    ensures
        scaled(less, share) <= scaled(more, share),
{
    assert(less * share <= more * share) by (nonlinear_arith)
        requires
            0 <= less <= more,
            0 <= share,
    ;
}

/// An ink that covers nothing, or is too thin to count, leaves a pixel as it
/// is.
pub proof fn law_no_ink_no_change(below: Pixel, ink: Ink, coverage: u8)
    requires
        ink_alpha(ink, coverage) == 0,
    ensures
        blended(below, ink, coverage) == below,
{
}

/// An opaque ink that covers a pixel replaces it.
pub proof fn law_full_ink_replaces(below: Pixel, ink: Ink, coverage: u8)
    requires
        ink_alpha(ink, coverage) == 255,
    ensures
        blended(below, ink, coverage) == (Pixel { b: ink.b, g: ink.g, r: ink.r, a: 255 }),
{
}

/// Blending never makes a pixel more transparent than it was or than the ink
/// is.
pub proof fn law_alpha_grows(below: Pixel, ink: Ink, coverage: u8)
    ensures
        blended(below, ink, coverage).a >= ink_alpha(ink, coverage),
        blended(below, ink, coverage).a >= below.a,
{
    let alpha = ink_alpha(ink, coverage);
    lemma_scaled(coverage as int, ink.alpha as int);
    lemma_scaled(below.a as int, 255 - alpha);
    let a = below.a as int;
    assert(a * (255 - alpha) >= 255 * a - 255 * alpha) by (nonlinear_arith)
        requires
            0 <= a <= 255,
            0 <= alpha <= 255,
    ;
}

/// Blending keeps a premultiplied pixel premultiplied.
pub proof fn law_blending_keeps_premultiplied(below: Pixel, ink: Ink, coverage: u8)
    requires
        premultiplied(below),
    ensures
        premultiplied(blended(below, ink, coverage)),
{
    let alpha = ink_alpha(ink, coverage);
    lemma_scaled(coverage as int, ink.alpha as int);
    lemma_scaled(below.a as int, 255 - alpha);
    lemma_over(ink.b as int, alpha, below.b as int);
    lemma_over(ink.g as int, alpha, below.g as int);
    lemma_over(ink.r as int, alpha, below.r as int);
    lemma_scaled(ink.b as int, alpha);
    lemma_scaled(ink.g as int, alpha);
    lemma_scaled(ink.r as int, alpha);
    lemma_scaled_monotone(below.b as int, below.a as int, 255 - alpha);
    lemma_scaled_monotone(below.g as int, below.a as int, 255 - alpha);
    lemma_scaled_monotone(below.r as int, below.a as int, 255 - alpha);
}

/// The four bytes of the `p`-th pixel, and the places that they have in it.
proof fn lemma_byte_places(p: int)
    ensures
        (4 * p) / 4 == p && (4 * p) % 4 == 0,
        (4 * p + 1) / 4 == p && (4 * p + 1) % 4 == 1,
        (4 * p + 2) / 4 == p && (4 * p + 2) % 4 == 2,
        (4 * p + 3) / 4 == p && (4 * p + 3) % 4 == 3,
{
}

/// Drawing changes the pixels that the glyph covers, each to its blend with the
/// ink, and no other.
pub proof fn law_drawing_is_local(
    glyph: Glyph<'_>,
    size: CanvasSize,
    ink: Ink,
    canvas: Seq<u8>,
    x: int,
    y: int,
)
    requires
        0 <= x < size.width,
        0 <= y,
        4 * (y * size.width + x) + 3 < canvas.len(),
    ensures
        glyph.drawn(size, ink, canvas).len() == canvas.len(),
        pixel_at(glyph.drawn(size, ink, canvas), y * size.width + x) == if glyph.coverage(size, x, y)
            > 0 {
            blended(pixel_at(canvas, y * size.width + x), ink, glyph.coverage(size, x, y))
        } else {
            pixel_at(canvas, y * size.width + x)
        },
{
    let p = y * size.width + x;
    lemma_pixel_place(size.width as int, x, y, p);
    assert(0 <= p) by (nonlinear_arith)
        requires
            0 <= x,
            0 <= y,
            p == y * size.width + x,
    ;
    lemma_byte_places(p);
}

/// Drawing keeps a premultiplied canvas premultiplied.
pub proof fn law_drawing_keeps_premultiplied(
    glyph: Glyph<'_>,
    size: CanvasSize,
    ink: Ink,
    canvas: Seq<u8>,
)
    requires
        canvas_premultiplied(canvas),
    ensures
        canvas_premultiplied(glyph.drawn(size, ink, canvas)),
{
    let after = glyph.drawn(size, ink, canvas);
    assert forall|p: int| 0 <= p && 4 * p + 3 < after.len() implies premultiplied(
        #[trigger] pixel_at(after, p),
    ) by {
        let width = size.width as int;
        assert(premultiplied(pixel_at(canvas, p)));
        lemma_byte_places(p);
        if width > 0 {
            law_blending_keeps_premultiplied(
                pixel_at(canvas, p),
                ink,
                glyph.coverage(size, p % width, p / width),
            );
        }
    }
}

/// The signed number with the bits of an unsigned one: the only one in 32 bits
/// that differs from it by a multiple of two to the 32nd.
pub proof fn law_signed_bits(n: u32)
    ensures
        -0x8000_0000 <= as_signed(n) < 0x8000_0000,
        as_signed(n) == n || as_signed(n) == n - 0x1_0000_0000,
{
}

/// A share of a colour is its product with the share, in 255ths, rounded down.
pub proof fn law_share_is_rounded_down(color: int, share: int)
    ensures
        255 * scaled(color, share) <= color * share < 255 * scaled(color, share) + 255,
{
}

/// The ink over a pixel is the sum of two shares, each rounded down: of the
/// ink, as much as it covers and is opaque; of the pixel, the rest.
pub proof fn law_blending_adds_shares(below: Pixel, ink: Ink, coverage: u8)
    ensures
        ({
            let alpha = coverage * ink.alpha / 255;
            let rest = 255 - alpha;
            let p = blended(below, ink, coverage);
            if alpha + below.a * rest / 255 > 0 {
                &&& p.b == ink.b * alpha / 255 + below.b * rest / 255
                &&& p.g == ink.g * alpha / 255 + below.g * rest / 255
                &&& p.r == ink.r * alpha / 255 + below.r * rest / 255
                &&& p.a == alpha + below.a * rest / 255
            } else {
                p == below
            }
        }),
{
    let alpha = ink_alpha(ink, coverage);
    lemma_scaled(coverage as int, ink.alpha as int);
    lemma_scaled(below.a as int, 255 - alpha);
    lemma_over(ink.b as int, alpha, below.b as int);
    lemma_over(ink.g as int, alpha, below.g as int);
    lemma_over(ink.r as int, alpha, below.r as int);
}

/// The image of a glyph is copied upright: the pixel of the canvas `px` to the
/// right of the glyph's corner and `py` below it is covered as the image says in
/// column `px` of row `py`.
pub proof fn law_glyph_is_upright(glyph: Glyph<'_>, size: CanvasSize, px: int, py: int)
    requires
        glyph.width <= i32::MAX && glyph.height <= i32::MAX,
        size.width <= i32::MAX && size.height <= i32::MAX,
        0 <= px < glyph.width,
        0 <= py < glyph.height,
        0 <= glyph.x + px < size.width,
        0 <= glyph.y + py < size.height,
    ensures
        py * glyph.width + px < glyph.data@.len() ==> glyph.coverage(
            size,
            glyph.x + px,
            glyph.y + py,
        ) == glyph.data@[py * glyph.width + px],
        py * glyph.width + px >= glyph.data@.len() ==> glyph.coverage(
            size,
            glyph.x + px,
            glyph.y + py,
        ) == 0,
{
}

/// A glyph covers nothing outside its own rectangle, and nothing outside the
/// canvas. A side of two to the 31st or more is none.
pub proof fn law_glyph_covers_its_rectangle(glyph: Glyph<'_>, size: CanvasSize, x: int, y: int)
    requires
        glyph.coverage(size, x, y) > 0,
    ensures
        glyph.x <= x < glyph.x + glyph.width,
        glyph.y <= y < glyph.y + glyph.height,
        0 <= x < size.width,
        0 <= y < size.height,
        glyph.width <= i32::MAX && glyph.height <= i32::MAX,
        size.width <= i32::MAX && size.height <= i32::MAX,
{
}

/// A drawn pixel, byte by byte: blue, green, red and alpha of the pixel in column
/// `x` of row `y` stand from byte `4 * (y * width + x)` on. Where the glyph covers
/// the pixel they are blended with the ink, else they stay.
pub proof fn law_drawn_bytes(
    glyph: Glyph<'_>,
    size: CanvasSize,
    ink: Ink,
    canvas: Seq<u8>,
    x: int,
    y: int,
)
    requires
        0 <= x < size.width,
        0 <= y,
        4 * (y * size.width + x) + 3 < canvas.len(),
    ensures
        ({
            let at = 4 * (y * size.width + x);
            let c = glyph.coverage(size, x, y);
            let below = Pixel {
                b: canvas[at],
                g: canvas[at + 1],
                r: canvas[at + 2],
                a: canvas[at + 3],
            };
            let p = if c > 0 {
                blended(below, ink, c)
            } else {
                below
            };
            let after = glyph.drawn(size, ink, canvas);
            &&& after.len() == canvas.len()
            &&& after[at] == p.b
            &&& after[at + 1] == p.g
            &&& after[at + 2] == p.r
            &&& after[at + 3] == p.a
        }),
{
    law_drawing_is_local(glyph, size, ink, canvas, x, y);
    let p = y * size.width + x;
    let drawn = pixel_at(glyph.drawn(size, ink, canvas), p);
    let after = glyph.drawn(size, ink, canvas);
    assert(after[4 * p] == drawn.b && after[4 * p + 1] == drawn.g);
    assert(after[4 * p + 2] == drawn.r && after[4 * p + 3] == drawn.a);
}

/// A byte that belongs to no pixel of the glyph stays as it is.
pub proof fn law_other_bytes_stay(
    glyph: Glyph<'_>,
    size: CanvasSize,
    ink: Ink,
    canvas: Seq<u8>,
    k: int,
)
    requires
        0 <= k < canvas.len(),
        size.width == 0 || glyph.coverage(
            size,
            (k / 4) % size.width as int,
            (k / 4) / size.width as int,
        ) == 0,
    ensures
        glyph.drawn(size, ink, canvas)[k] == canvas[k],
{
}

/// A pixel of a glyph can be drawn exactly where its column and row on the canvas
/// are 32-bit numbers; and, inside the canvas, where its place in the image is
/// one, and its four bytes, if it is covered, are on the canvas and start at a
/// 32-bit place. A canvas with a side of two to the 31st or more has no inside.
pub proof fn law_pixel_in_range(glyph: Glyph<'_>, size: CanvasSize, len: nat, px: int, py: int)
    requires
        glyph.width <= i32::MAX,
    ensures
        glyph.pixel_in_range(size, len, px, py) <==> {
            let x = glyph.x + px;
            let y = glyph.y + py;
            let canvas_fits = size.width < 0x8000_0000 && size.height < 0x8000_0000;
            &&& x < 0x8000_0000 && y < 0x8000_0000
            &&& canvas_fits && 0 <= x < size.width && 0 <= y < size.height ==> {
                &&& py * glyph.width + px < 0x8000_0000
                &&& glyph.coverage(size, x, y) > 0 ==> {
                    &&& 4 * (y * size.width + x) < 0x1_0000_0000
                    &&& 4 * (y * size.width + x) + 3 < len
                }
            }
        },
{
}

/// A glyph can be drawn exactly where each of its pixels can.
pub proof fn law_glyph_in_range(glyph: Glyph<'_>, size: CanvasSize, len: nat)
    requires
        glyph.width <= i32::MAX && glyph.height <= i32::MAX,
    ensures
        glyph.in_range(size, len) <==> forall|px: int, py: int|
            0 <= px < glyph.width && 0 <= py < glyph.height ==> #[trigger] glyph.pixel_in_range(
                size,
                len,
                px,
                py,
            ),
{
}

/// A glyph without pixels can always be drawn; with a side of two to the 31st or
/// more it has none.
pub proof fn law_no_pixels_in_range(glyph: Glyph<'_>, size: CanvasSize, len: nat)
    requires
        glyph.width == 0 || glyph.width > i32::MAX || glyph.height == 0 || glyph.height > i32::MAX,
    ensures
        glyph.in_range(size, len),
{
}

/// On a canvas that holds all its pixels every glyph of usual size near it can be
/// drawn.
pub proof fn law_usual_glyph_is_drawn(glyph: Glyph<'_>, size: CanvasSize, len: nat)
    requires
        size.width * size.height * 4 <= len,
        size.width * size.height * 4 <= u32::MAX,
        glyph.width * glyph.height <= i32::MAX,
        glyph.width <= i32::MAX && glyph.height <= i32::MAX,
        size.width <= i32::MAX && size.height <= i32::MAX,
        glyph.x + glyph.width <= i32::MAX,
        glyph.y + glyph.height <= i32::MAX,
    ensures
        glyph.in_range(size, len),
{
    assert forall|px: int, py: int| glyph.has(px, py) implies #[trigger] glyph.pixel_in_range(
        size,
        len,
        px,
        py,
    ) by {
        let (w, h) = (glyph.width as int, glyph.height as int);
        assert(py * w + px < w * h) by (nonlinear_arith)
            requires
                0 <= px < w,
                0 <= py < h,
        ;
        let (x, y) = (glyph.x + px, glyph.y + py);
        let (cw, ch) = (size.width as int, size.height as int);
        if 0 <= x < cw && 0 <= y < ch {
            assert((y * cw + x) + 1 <= cw * ch) by (nonlinear_arith)
                requires
                    0 <= x < cw,
                    0 <= y < ch,
            ;
        }
    }
}

} // verus!
