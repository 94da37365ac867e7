//! What the overlay shows, and where its text goes.

use vstd::prelude::*;

use crate::canvas;
use crate::canvas::Ink;
use crate::number::OutOfRange;

verus! {

/// The state of the overlay that decides what is drawn.
#[derive(Debug)]
pub struct OverlayState {
    pub width: u32,
    pub height: u32,
    pub configured: bool,
    pub exit: bool,
    pub current_lyric: String,
}

/// What to draw in one frame.
#[derive(Debug)]
pub struct DrawPlan {
    /// The size of the memory pool to make first, where there is none yet.
    pub pool_bytes: Option<usize>,
    /// The width of the buffer, as the compositor takes it.
    pub width: i32,
    /// The height of the buffer, as the compositor takes it.
    pub height: i32,
    /// The bytes in a row of the buffer, as the compositor takes them.
    pub stride: i32,
    /// The text to draw on the cleared buffer, if any.
    pub text: Option<String>,
}

/// The bytes of two buffers of the given size.
pub open spec fn double_buffer(width: u32, height: u32) -> int {
    width * height * 8
}

impl OverlayState {
    /// Whether the integers in which the sizes of a frame are computed hold
    /// them.
    pub open spec fn sizes_in_range(self, has_pool: bool) -> bool {
        &&& !has_pool ==> double_buffer(self.width, self.height) <= u32::MAX
        &&& self.width * 4 <= u32::MAX
    }

    /// An overlay of the given size, before the compositor has configured it.
    pub fn new(width: u32, height: u32) -> (r: Self)
        ensures
            r.width == width,
            r.height == height,
            !r.configured,
            !r.exit,
            r.current_lyric@.len() == 0,
    {
        OverlayState {
            width,
            height,
            configured: false,
            exit: false,
            current_lyric: String::new(),
        }
    }

    /// Takes the size that the compositor gives; a zero leaves that side to the
    /// overlay. From then on it can be drawn.
    pub fn configure(&mut self, new_width: u32, new_height: u32)
        ensures
            final(self).width == (if new_width > 0 {
                new_width
            } else {
                old(self).width
            }),
            final(self).height == (if new_height > 0 {
                new_height
            } else {
                old(self).height
            }),
            final(self).configured,
            final(self).exit == old(self).exit,
            final(self).current_lyric == old(self).current_lyric,
    {
        if new_width > 0 {
            self.width = new_width;
        }
        if new_height > 0 {
            self.height = new_height;
        }
        self.configured = true;
    }

    /// Notes that the surface was closed.
    pub fn closed(&mut self)
        ensures
            final(self).exit,
            final(self).width == old(self).width,
            final(self).height == old(self).height,
            final(self).configured == old(self).configured,
            final(self).current_lyric == old(self).current_lyric,
    {
        self.exit = true;
    }

    /// Takes the new lyric, if there is one, and tells whether there was.
    pub fn check_lyric_update(&mut self, update: Option<String>) -> (r: bool)
        ensures
            r == update is Some,
            final(self).current_lyric == (match update {
                Some(text) => text,
                None => old(self).current_lyric,
            }),
            final(self).width == old(self).width,
            final(self).height == old(self).height,
            final(self).configured == old(self).configured,
            final(self).exit == old(self).exit,
    {
        match update {
            Some(text) => {
                self.current_lyric = text;
                true
            },
            None => false,
        }
    }

    /// Decides what to draw: nothing before the overlay is configured and has a
    /// surface; then a cleared buffer, with the current lyric on it where the
    /// overlay is visible and there is one.
    pub fn draw(&self, has_surface: bool, has_pool: bool, visible: bool) -> (r: Result<
        Option<DrawPlan>,
        OutOfRange,
    >)
        ensures
            match r {
                Ok(None) => !(self.configured && has_surface),
                Ok(Some(plan)) => {
                    &&& self.configured && has_surface
                    &&& self.sizes_in_range(has_pool)
                    &&& plan.pool_bytes == (if has_pool {
                        None
                    } else {
                        Some(double_buffer(self.width, self.height) as usize)
                    })
                    &&& plan.width == canvas::as_signed(self.width)
                    &&& plan.height == canvas::as_signed(self.height)
                    &&& plan.stride == canvas::as_signed((self.width * 4) as u32)
                    &&& plan.text == (if visible && self.current_lyric@.len() > 0 {
                        Some(self.current_lyric)
                    } else {
                        None
                    })
                },
                Err(_) => self.configured && has_surface && !self.sizes_in_range(has_pool),
            },
    {
        if !self.configured || !has_surface {
            return Ok(None);
        }
        proof {
            let (w, h) = (self.width as int, self.height as int);
            assert(0 <= w * h <= 0xffff_ffff * 0xffff_ffff) by (nonlinear_arith)
                requires
                    0 <= w <= 0xffff_ffff,
                    0 <= h <= 0xffff_ffff,
            ;
        }
        let mut pool_bytes: Option<usize> = None;
        if !has_pool {
            let bytes: u128 = self.width as u128 * self.height as u128 * 8;
            if bytes > u32::MAX as u128 {
                return Err(OutOfRange);
            }
            pool_bytes = Some(bytes as usize);
        }
        let row: u64 = self.width as u64 * 4;
        if row > u32::MAX as u64 {
            return Err(OutOfRange);
        }
        let text: Option<String> = if visible && !self.current_lyric.as_str().is_empty() {
            Some(self.current_lyric.clone())
        } else {
            None
        };
        Ok(
            Some(
                DrawPlan {
                    pool_bytes,
                    width: canvas::to_signed(self.width),
                    height: canvas::to_signed(self.height),
                    stride: canvas::to_signed(row as u32),
                    text,
                },
            ),
        )
    }
}

/// One pass over the glyphs of a text.
#[derive(Debug, Clone, Copy, PartialEq, Eq)]
pub struct RenderPass {
    /// Where the first line goes.
    pub y_offset: i32,
    /// How far the text is moved to the right and down.
    pub shadow_offset: i32,
    pub ink: Ink,
}

/// Whether `n` is an `i32`.
pub open spec fn is_i32(n: int) -> bool {
    i32::MIN <= n <= i32::MAX
}

/// The passes that draw a text: its shadow first, the text itself over it.
pub fn render_passes(y_offset: i32) -> (r: Result<(RenderPass, RenderPass), OutOfRange>)
    ensures
        match r {
            Ok((shadow, main)) => {
                &&& shadow.y_offset == y_offset + 2
                &&& shadow.shadow_offset == 2
                &&& shadow.ink == (Ink { r: 0, g: 0, b: 0, alpha: 160 })
                &&& main.y_offset == y_offset
                &&& main.shadow_offset == 0
                &&& main.ink == (Ink { r: 255, g: 255, b: 255, alpha: 255 })
            },
            Err(_) => !is_i32(y_offset + 2),
        },
{
    if y_offset > i32::MAX - 2 {
        return Err(OutOfRange);
    }
    Ok(
        (
            RenderPass {
                y_offset: y_offset + 2,
                shadow_offset: 2,
                ink: Ink { r: 0, g: 0, b: 0, alpha: 160 },
            },
            RenderPass {
                y_offset,
                shadow_offset: 0,
                ink: Ink { r: 255, g: 255, b: 255, alpha: 255 },
            },
        ),
    )
}

/// Where a line of text starts: right-aligned at `x`, and `dy` below the first
/// line, both moved by the offset of the pass.
pub fn line_origin(pass: RenderPass, x: i32, dy: i32) -> (r: Result<(i32, i32), OutOfRange>)
    ensures
        match r {
            Ok((line_x, line_y)) => {
                &&& line_x == x + pass.shadow_offset
                &&& line_y == pass.y_offset + dy + pass.shadow_offset
                &&& is_i32(pass.y_offset + dy)
            },
            Err(_) => !(is_i32(x + pass.shadow_offset) && is_i32(pass.y_offset + dy) && is_i32(
                pass.y_offset + dy + pass.shadow_offset,
            )),
        },
{
    let line_x: i32 = sum(x, pass.shadow_offset)?;
    let line_y: i32 = sum(sum(pass.y_offset, dy)?, pass.shadow_offset)?;
    Ok((line_x, line_y))
}

/// Where the top left corner of a glyph goes: `x` and `y` from the start of its
/// line, with the bearings `left` and `top` of its image, and the baseline one
/// font size below the top of the line.
pub fn glyph_origin(line: (i32, i32), x: i32, y: i32, left: i32, top: i32, font_size: i32) -> (r:
    Result<(i32, i32), OutOfRange>)
    ensures
        match r {
            Ok((glyph_x, glyph_y)) => {
                &&& glyph_x == line.0 + x + left
                &&& is_i32(line.0 + x)
                &&& glyph_y == line.1 + y - top + font_size
                &&& is_i32(line.1 + y)
                &&& is_i32(line.1 + y - top)
            },
            Err(_) => !(is_i32(line.0 + x) && is_i32(line.0 + x + left) && is_i32(line.1 + y)
                && is_i32(line.1 + y - top) && is_i32(line.1 + y - top + font_size)),
        },
{
    let glyph_x: i32 = sum(sum(line.0, x)?, left)?;
    let glyph_y: i32 = sum(difference(sum(line.1, y)?, top)?, font_size)?;
    Ok((glyph_x, glyph_y))
}

/// The difference of two numbers, where it is an `i32`.
fn difference(a: i32, b: i32) -> (r: Result<i32, OutOfRange>)
    ensures
        match r {
            Ok(v) => v == a - b,
            Err(_) => !is_i32(a - b),
        },
{
    let v: i64 = a as i64 - b as i64;
    if v < i32::MIN as i64 || v > i32::MAX as i64 {
        Err(OutOfRange)
    } else {
        Ok(v as i32)
    }
}

/// The sum of two numbers, where it is an `i32`.
fn sum(a: i32, b: i32) -> (r: Result<i32, OutOfRange>)
    ensures
        match r {
            Ok(v) => v == a + b,
            Err(_) => !is_i32(a + b),
        },
{
    let v: i64 = a as i64 + b as i64;
    if v < i32::MIN as i64 || v > i32::MAX as i64 {
        Err(OutOfRange)
    } else {
        Ok(v as i32)
    }
}

/// Two buffers hold four bytes for each pixel of the overlay, twice.
pub proof fn law_double_buffer(width: u32, height: u32)
    ensures
        double_buffer(width, height) == 2 * (4 * (width * height)),
{
    let area = width * height;
    assert(width * height * 8 == area * 8);
}

/// The sizes of a frame are in range where a row, and the two buffers if they
/// are still to be made, have fewer than two to the 32nd bytes.
pub proof fn law_sizes_in_range(state: OverlayState, has_pool: bool)
    ensures
        state.sizes_in_range(has_pool) <==> state.width * 4 < 0x1_0000_0000 && (has_pool || 2 * (4
            * (state.width * state.height)) < 0x1_0000_0000),
{
    law_double_buffer(state.width, state.height);
}

/// The numbers of 32 bits with a sign.
pub proof fn law_i32(n: int)
    ensures
        is_i32(n) <==> -0x8000_0000 <= n < 0x8000_0000,
{
}

} // verus!
