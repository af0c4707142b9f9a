//! Text output on the linear framebuffer: a cursor over 8x8 glyphs, turned
//! into pixel writes for the caller to apply.
use vstd::prelude::*;
use font8x8::UnicodeFonts;
use crate::uefi::BootInfo;

verus! {

/// The 8x8 bitmap font8x8 gives a character: one byte per row, top row
/// first, bit `x` set where column `x` is lit.
pub uninterp spec fn glyph_of(c: char) -> Seq<u8>;

/// Relies on font8x8's `BASIC_FONTS.get` (`UnicodeFonts`): the bitmap of a
/// Basic Latin character, U+0000 to U+007F, and nothing for any other
/// character.
#[verifier::external_body]
fn basic_glyph(c: char) -> (r: Option<[u8; 8]>)
    ensures
        r is Some <==> (c as u32) < 128,
        r matches Some(b) ==> b@ == glyph_of(c),
{
    font8x8::BASIC_FONTS.get(c)
}

pub const WHITE: u32 = 0xFFFF_FFFF;
pub const BLACK: u32 = 0;

/// Vertical advance of a new line.
pub const LINE_HEIGHT: u64 = 16;

pub const GLYPH_WIDTH: u64 = 8;

/// One change to the framebuffer.
#[derive(Clone, Copy, Debug, PartialEq, Eq, Structural)]
pub enum DrawOp {
    /// Every pixel black.
    Clear,
    /// The 32-bit pixel at index `offset` (`y * pixels_per_scanline + x`).
    Pixel { offset: u64, color: u32 },
}

/// The write for pixel `k` (row `k / 8`, column `k % 8`) of `glyph` drawn
/// with its top-left corner at `(x0, y0)`; none when it falls off screen.
pub open spec fn pixel_op(glyph: Seq<u8>, x0: int, y0: int, info: BootInfo, k: int) -> Seq<DrawOp> {
    let x = x0 + k % 8;
    let y = y0 + k / 8;
    if x >= info.horizontal_resolution || y >= info.vertical_resolution {
        Seq::empty()
    } else {
        seq![
            DrawOp::Pixel {
                offset: (y * info.pixels_per_scanline + x) as u64,
                color: if (glyph[k / 8] >> ((k % 8) as u8)) & 1 == 1 {
                    WHITE
                } else {
                    BLACK
                },
            },
        ]
    }
}

/// The writes for pixels `0..k` of a glyph.
pub open spec fn glyph_ops(glyph: Seq<u8>, x0: int, y0: int, info: BootInfo, k: int) -> Seq<DrawOp>
    decreases k,
{
    if k <= 0 {
        Seq::empty()
    } else {
        glyph_ops(glyph, x0, y0, info, k - 1) + pixel_op(glyph, x0, y0, info, k - 1)
    }
}

pub struct WriterView {
    pub framebuffer: u64,
    pub info: BootInfo,
    pub x: int,
    pub y: int,
}

pub struct Writer {
    framebuffer: u64,
    info: BootInfo,
    x_pos: u64,
    y_pos: u64,
}

impl View for Writer {
    type V = WriterView;

    closed spec fn view(&self) -> WriterView {
        WriterView {
            framebuffer: self.framebuffer,
            info: self.info,
            x: self.x_pos as int,
            y: self.y_pos as int,
        }
    }
}

/// The cursor after a new line: column 0, one line down (a cursor already
/// below the screen stays there; the next character clears the screen
/// anyway).
pub open spec fn after_new_line(v: WriterView) -> (int, int) {
    (0, if v.y < v.info.vertical_resolution {
        v.y + LINE_HEIGHT
    } else {
        v.y
    })
}

impl Writer {
    pub open spec fn wf(&self) -> bool {
        &&& self@.x <= self@.info.horizontal_resolution + GLYPH_WIDTH
        &&& self@.y <= self@.info.vertical_resolution + LINE_HEIGHT
    }

    /// A writer at the top-left corner of the framebuffer `info` describes.
    pub fn new(info: BootInfo) -> (r: Writer)
        ensures
            r.wf(),
            r@ == (WriterView { framebuffer: info.framebuffer_base, info, x: 0, y: 0 }),
    {
        Writer { framebuffer: info.framebuffer_base, info, x_pos: 0, y_pos: 0 }
    }

    pub fn new_line(&mut self)
        requires
            old(self).wf(),
        ensures
            final(self).wf(),
            (final(self)@.x, final(self)@.y) == after_new_line(old(self)@),
            final(self)@.info == old(self)@.info,
            final(self)@.framebuffer == old(self)@.framebuffer,
    {
        self.x_pos = 0;
        if self.y_pos < self.info.vertical_resolution as u64 {
            self.y_pos = self.y_pos + LINE_HEIGHT;
        }
    }

    /// Blanks the screen and moves the cursor home.
    pub fn clear_screen(&mut self) -> (r: DrawOp)
        ensures
            final(self)@ == (WriterView { x: 0, y: 0, ..old(self)@ }),
            r == DrawOp::Clear,
    {
        self.x_pos = 0;
        self.y_pos = 0;
        DrawOp::Clear
    }

    /// The pixel writes of `glyph` at the cursor, white on black, leaving out
    /// pixels off screen.
    pub fn write_rendered_char(&self, glyph: &[u8; 8]) -> (r: Vec<DrawOp>)
        requires
            self.wf(),
        ensures
            r@ == glyph_ops(glyph@, self@.x, self@.y, self@.info, 64),
    {
        let mut ops: Vec<DrawOp> = Vec::new();
        let mut k: u64 = 0;
        while k < 64
            invariant
                k <= 64,
                self.wf(),
                ops@ == glyph_ops(glyph@, self@.x, self@.y, self@.info, k as int),
            decreases 64 - k,
        {
            let x = self.x_pos + k % 8;
            let y = self.y_pos + k / 8;
            let row = glyph[(k / 8) as usize];
            if x < self.info.horizontal_resolution as u64 && y < self.info.vertical_resolution as u64 {
                let color = if (row >> ((k % 8) as u8)) & 1 == 1 {
                    WHITE
                } else {
                    BLACK
                };
                assert(y * (self.info.pixels_per_scanline as u64) <= 0xFFFF_FFFFu64 * 0xFFFF_FFFFu64) by (nonlinear_arith)
                    requires
                        y < 0x1_0000_0000u64,
                        self.info.pixels_per_scanline <= 0xFFFF_FFFFu32,
                ;
                let offset = y * (self.info.pixels_per_scanline as u64) + x;
                ops.push(DrawOp::Pixel { offset, color });
            }
            k = k + 1;
        }
        ops
    }

    /// Writes one character: a new line for `'\n'`; otherwise wraps to the
    /// next line at the right edge, clears the screen and starts over at the
    /// bottom, and draws the character's glyph if the font has one, moving
    /// the cursor one glyph right.
    pub fn write_char(&mut self, c: char) -> (r: Vec<DrawOp>)
        requires
            old(self).wf(),
        ensures
            final(self).wf(),
            final(self)@.info == old(self)@.info,
            c == '\n' ==> r@.len() == 0 && (final(self)@.x, final(self)@.y) == after_new_line(old(self)@),
            c != '\n' ==> ({
                let (x1, y1) = if old(self)@.x >= old(self)@.info.horizontal_resolution {
                    after_new_line(old(self)@)
                } else {
                    (old(self)@.x, old(self)@.y)
                };
                let cleared = y1 >= old(self)@.info.vertical_resolution;
                let x2 = if cleared { 0 } else { x1 };
                let y2 = if cleared { 0 } else { y1 };
                let pre = if cleared { seq![DrawOp::Clear] } else { Seq::empty() };
                &&& (c as u32) < 128 ==> r@ == pre + glyph_ops(glyph_of(c), x2, y2, old(self)@.info, 64)
                    && final(self)@.x == x2 + GLYPH_WIDTH && final(self)@.y == y2
                &&& (c as u32) >= 128 ==> r@ == pre && final(self)@.x == x2 && final(self)@.y == y2
            }),
    {
        let mut out: Vec<DrawOp> = Vec::new();
        if c == '\n' {
            self.new_line();
            return out;
        }
        if self.x_pos >= self.info.horizontal_resolution as u64 {
            self.new_line();
        }
        let cleared = self.y_pos >= self.info.vertical_resolution as u64;
        if cleared {
            out.push(self.clear_screen());
        }
        let ghost pre = out@;
        assert(pre =~= if cleared {
            seq![DrawOp::Clear]
        } else {
            Seq::<DrawOp>::empty()
        });
        let glyph = match basic_glyph(c) {
            Some(g) => g,
            None => {
                return out;
            },
        };
        let mut pixels = self.write_rendered_char(&glyph);
        out.append(&mut pixels);
        assert(out@ =~= pre + glyph_ops(glyph_of(c), self@.x, self@.y, self@.info, 64));
        self.x_pos = self.x_pos + GLYPH_WIDTH;
        out
    }
}

} // verus!
