//! Frame rendering and the keyboard-driven resize state machine.
//!
//! A dithered monochrome bitmap is sampled in 2-column by 4-row blocks; each
//! block becomes one braille glyph, rows of glyphs are terminated by a
//! carriage return and a line feed, and the whole frame is assembled into one
//! byte buffer. Keyboard events adjust the requested grid dimensions in steps
//! of four with a floor of four, or end the loop.

use vstd::prelude::*;

use crate::braille::Pattern;
use crate::braille::spec_mask;
use crate::braille::utf8_bytes;

verus! {

/// A single-channel bitmap in row-major order: one byte per pixel, a pixel is
/// on when its byte is nonzero.
pub struct Bitmap {
    pub width: u32,
    pub height: u32,
    pub pixels: Vec<u8>,
}

impl Bitmap {
    /// Well-formedness: the pixel buffer holds exactly one byte per pixel.
    pub open spec fn wf(self) -> bool {
        self.pixels@.len() == self.width * self.height
    }

    /// Builds a bitmap, or `None` when the buffer length does not match the
    /// dimensions.
    pub fn new(width: u32, height: u32, pixels: Vec<u8>) -> (r: Option<Bitmap>)
        ensures
            r is Some <==> pixels@.len() == width * height,
            r matches Some(bm) ==> bm.wf() && bm.width == width && bm.height == height && bm.pixels@
                == pixels@,
    {
        proof {
            assert((width as u64) * (height as u64) <= u64::MAX) by (nonlinear_arith)
                requires
                    width <= u32::MAX,
                    height <= u32::MAX,
            ;
        }
        let expected: u64 = (width as u64) * (height as u64);
        if pixels.len() as u64 == expected {
            Some(Bitmap { width, height, pixels })
        } else {
            None
        }
    }
}

/// Whether the pixel at column `x`, row `y` of a row-major buffer of width
/// `w` is on.
pub open spec fn pixel_on(px: Seq<u8>, w: u32, x: int, y: int) -> bool {
    px[y * w + x] != 0
}

/// The pattern offset of the 2-by-4 block at block column `c`, block row `r`:
/// the dot at `(x, y)` of the glyph is on exactly when the pixel at
/// `(2c + x, 4r + y)` is on.
pub open spec fn block_offset(px: Seq<u8>, w: u32, c: int, r: int) -> u8 {
    let o1 = if pixel_on(px, w, 2 * c, 4 * r) {
        0u8 | spec_mask(0, 0)
    } else {
        0u8
    };
    let o2 = if pixel_on(px, w, 2 * c, 4 * r + 1) {
        o1 | spec_mask(0, 1)
    } else {
        o1
    };
    let o3 = if pixel_on(px, w, 2 * c, 4 * r + 2) {
        o2 | spec_mask(0, 2)
    } else {
        o2
    };
    let o4 = if pixel_on(px, w, 2 * c, 4 * r + 3) {
        o3 | spec_mask(0, 3)
    } else {
        o3
    };
    let o5 = if pixel_on(px, w, 2 * c + 1, 4 * r) {
        o4 | spec_mask(1, 0)
    } else {
        o4
    };
    let o6 = if pixel_on(px, w, 2 * c + 1, 4 * r + 1) {
        o5 | spec_mask(1, 1)
    } else {
        o5
    };
    let o7 = if pixel_on(px, w, 2 * c + 1, 4 * r + 2) {
        o6 | spec_mask(1, 2)
    } else {
        o6
    };
    if pixel_on(px, w, 2 * c + 1, 4 * r + 3) {
        o7 | spec_mask(1, 3)
    } else {
        o7
    }
}

/// Law: in the glyph encoded for a block, the dot at column `x`, row `y` is
/// on exactly when the sampled pixel at `(2c + x, 4r + y)` is on.
pub proof fn lemma_block_offset_dots(px: Seq<u8>, w: u32, c: int, r: int, x: u32, y: u32)
    requires
        x < 2,
        y < 4,
    ensures
        (block_offset(px, w, c, r) & spec_mask(x, y) != 0) <==> pixel_on(
            px,
            w,
            2 * c + x,
            4 * r + y,
        ),
{
    let o1 = if pixel_on(px, w, 2 * c, 4 * r) {
        0u8 | spec_mask(0, 0)
    } else {
        0u8
    };
    let o2 = if pixel_on(px, w, 2 * c, 4 * r + 1) {
        o1 | spec_mask(0, 1)
    } else {
        o1
    };
    let o3 = if pixel_on(px, w, 2 * c, 4 * r + 2) {
        o2 | spec_mask(0, 2)
    } else {
        o2
    };
    let o4 = if pixel_on(px, w, 2 * c, 4 * r + 3) {
        o3 | spec_mask(0, 3)
    } else {
        o3
    };
    let o5 = if pixel_on(px, w, 2 * c + 1, 4 * r) {
        o4 | spec_mask(1, 0)
    } else {
        o4
    };
    let o6 = if pixel_on(px, w, 2 * c + 1, 4 * r + 1) {
        o5 | spec_mask(1, 1)
    } else {
        o5
    };
    let o7 = if pixel_on(px, w, 2 * c + 1, 4 * r + 2) {
        o6 | spec_mask(1, 2)
    } else {
        o6
    };
    assert((0u8 & spec_mask(x, y)) == 0) by (bit_vector);
    crate::braille::lemma_or_mask_dots(0u8, 0, 0, x, y);
    crate::braille::lemma_or_mask_dots(o1, 0, 1, x, y);
    crate::braille::lemma_or_mask_dots(o2, 0, 2, x, y);
    crate::braille::lemma_or_mask_dots(o3, 0, 3, x, y);
    crate::braille::lemma_or_mask_dots(o4, 1, 0, x, y);
    crate::braille::lemma_or_mask_dots(o5, 1, 1, x, y);
    crate::braille::lemma_or_mask_dots(o6, 1, 2, x, y);
    crate::braille::lemma_or_mask_dots(o7, 1, 3, x, y);
}

/// The glyph bytes of the first `c` blocks of block row `r`.
pub open spec fn row_glyphs(px: Seq<u8>, w: u32, r: int, c: nat) -> Seq<u8>
    decreases c,
{
    if c == 0 {
        Seq::empty()
    } else {
        row_glyphs(px, w, r, (c - 1) as nat) + utf8_bytes(block_offset(px, w, c - 1, r))
    }
}

/// One output line: the glyphs of block row `r` followed by a carriage return
/// and a line feed.
pub open spec fn row_line(px: Seq<u8>, w: u32, r: int) -> Seq<u8> {
    row_glyphs(px, w, r, (w as nat) / 2) + seq![13u8, 10u8]
}

/// The first `n` output lines of the frame.
pub open spec fn frame_rows(px: Seq<u8>, w: u32, n: nat) -> Seq<u8>
    decreases n,
{
    if n == 0 {
        Seq::empty()
    } else {
        frame_rows(px, w, (n - 1) as nat) + row_line(px, w, n - 1)
    }
}

/// The whole frame: one line per block row.
pub open spec fn frame_spec(px: Seq<u8>, w: u32, h: u32) -> Seq<u8> {
    frame_rows(px, w, (h as nat) / 4)
}

/// Whether the pixel at column `x`, row `y` is on.
fn pixel_nonzero(bm: &Bitmap, x: u32, y: u32) -> (b: bool)
    requires
        bm.wf(),
        x < bm.width,
        y < bm.height,
    ensures
        b == pixel_on(bm.pixels@, bm.width, x as int, y as int),
{
    proof {
        assert((y as int) * (bm.width as int) + (x as int) < (bm.width as int) * (
        bm.height as int)) by (nonlinear_arith)
            requires
                x < bm.width,
                y < bm.height,
        ;
    }
    let len: usize = bm.pixels.len();
    let idx: usize = (y as usize) * (bm.width as usize) + (x as usize);
    bm.pixels[idx] != 0
}

/// The glyph for the 2-by-4 pixel block at block column `c`, block row `r`.
fn block_pattern(bm: &Bitmap, c: u32, r: u32) -> (p: Pattern)
    requires
        bm.wf(),
        2 * c + 1 < bm.width,
        4 * r + 3 < bm.height,
    ensures
        p@ == block_offset(bm.pixels@, bm.width, c as int, r as int),
{
    let x0: u32 = 2 * c;
    let y0: u32 = 4 * r;
    let mut p = Pattern::empty();
    p = p.set(0, 0, pixel_nonzero(bm, x0, y0));
    p = p.set(0, 1, pixel_nonzero(bm, x0, y0 + 1));
    p = p.set(0, 2, pixel_nonzero(bm, x0, y0 + 2));
    p = p.set(0, 3, pixel_nonzero(bm, x0, y0 + 3));
    p = p.set(1, 0, pixel_nonzero(bm, x0 + 1, y0));
    p = p.set(1, 1, pixel_nonzero(bm, x0 + 1, y0 + 1));
    p = p.set(1, 2, pixel_nonzero(bm, x0 + 1, y0 + 2));
    p = p.set(1, 3, pixel_nonzero(bm, x0 + 1, y0 + 3));
    p
}

/// Renders a whole frame: `height / 4` lines of `width / 2` glyphs, each line
/// terminated by a carriage return and a line feed.
pub fn render_frame(bm: &Bitmap) -> (out: Vec<u8>)
    requires
        bm.wf(),
        bm.width % 2 == 0,
        bm.height % 4 == 0,
    ensures
        out@ == frame_spec(bm.pixels@, bm.width, bm.height),
{
    let rows = bm.height / 4;
    let cols = bm.width / 2;
    let mut out: Vec<u8> = Vec::new();
    let mut r: u32 = 0;
    while r < rows
        invariant
            bm.wf(),
            bm.width % 2 == 0,
            bm.height % 4 == 0,
            rows == bm.height / 4,
            cols == bm.width / 2,
            r <= rows,
            out@ == frame_rows(bm.pixels@, bm.width, r as nat),
        decreases rows - r,
    {
        let mut c: u32 = 0;
        while c < cols
            invariant
                bm.wf(),
                bm.width % 2 == 0,
                bm.height % 4 == 0,
                rows == bm.height / 4,
                cols == bm.width / 2,
                r < rows,
                c <= cols,
                out@ == frame_rows(bm.pixels@, bm.width, r as nat) + row_glyphs(
                    bm.pixels@,
                    bm.width,
                    r as int,
                    c as nat,
                ),
            decreases cols - c,
        {
            proof {
                assert(2 * c + 1 < bm.width && 4 * r + 3 < bm.height);
            }
            let p = block_pattern(bm, c, r);
            let mut buf: [u8; 3] = [0u8, 0u8, 0u8];
            p.encode_utf8(&mut buf);
            let ghost before = out@;
            out.push(buf[0]);
            out.push(buf[1]);
            out.push(buf[2]);
            proof {
                assert(out@ =~= before + utf8_bytes(block_offset(
                    bm.pixels@,
                    bm.width,
                    c as int,
                    r as int,
                )));
            }
            c = c + 1;
        }
        out.push(13);
        out.push(10);
        proof {
            assert(out@ =~= frame_rows(bm.pixels@, bm.width, (r + 1) as nat));
        }
        r = r + 1;
    }
    out
}

proof fn lemma_row_glyphs_len(px: Seq<u8>, w: u32, r: int, c: nat)
    ensures
        row_glyphs(px, w, r, c).len() == 3 * c,
    decreases c,
{
    if c > 0 {
        lemma_row_glyphs_len(px, w, r, (c - 1) as nat);
    }
}

proof fn lemma_frame_rows_len(px: Seq<u8>, w: u32, n: nat)
    ensures
        frame_rows(px, w, n).len() == n * (3 * ((w as nat) / 2) + 2),
    decreases n,
{
    let k: nat = 3 * ((w as nat) / 2) + 2;
    if n > 0 {
        lemma_frame_rows_len(px, w, (n - 1) as nat);
        lemma_row_glyphs_len(px, w, n - 1, (w as nat) / 2);
        assert(row_line(px, w, n - 1).len() == k);
        assert(frame_rows(px, w, n) == frame_rows(px, w, (n - 1) as nat) + row_line(px, w, n - 1));
        assert(frame_rows(px, w, n).len() == ((n - 1) as nat) * k + k);
        assert(((n - 1) as nat) * k + k == n * k) by (nonlinear_arith)
            requires
                n >= 1,
        ;
    } else {
        assert(frame_rows(px, w, n).len() == 0);
        assert(n * k == 0) by (nonlinear_arith)
            requires
                n == 0,
        ;
    }
}

/// Law: a frame consists of exactly `height / 4` lines of `3 * (width / 2)`
/// glyph bytes plus the two terminator bytes, whatever the pixels hold.
pub proof fn lemma_frame_len(px: Seq<u8>, w: u32, h: u32)
    ensures
        frame_spec(px, w, h).len() == ((h as nat) / 4) * (3 * ((w as nat) / 2) + 2),
{
    lemma_frame_rows_len(px, w, (h as nat) / 4);
}

/// The requested grid size in pixel-equivalent units.
#[derive(Debug, Clone, Copy, PartialEq, Eq, Structural)]
pub struct Dimensions {
    pub width: u32,
    pub height: u32,
}

impl Dimensions {
    /// Every reachable grid size: both dimensions are multiples of four and
    /// at least four.
    pub open spec fn wf(self) -> bool {
        &&& self.width >= 4
        &&& self.width % 4 == 0
        &&& self.height >= 4
        &&& self.height % 4 == 0
    }
}

/// A keyboard event, reduced to what the resize loop reacts to.
#[derive(Debug, Clone, Copy, PartialEq, Eq, Structural)]
pub enum KeyInput {
    Up,
    Down,
    Left,
    Right,
    Escape,
    Other,
}

/// What the loop does after a keyboard event: draw the next frame with new
/// dimensions, keep waiting, or terminate.
#[derive(Debug, Clone, Copy, PartialEq, Eq, Structural)]
pub enum Action {
    Redraw(Dimensions),
    Ignore,
    Exit,
}

/// The resize state machine: up and left shrink a dimension by four with a
/// floor of four, down and right grow it by four, escape terminates, and any
/// other key is ignored.
pub open spec fn spec_step(d: Dimensions, key: KeyInput) -> Action {
    match key {
        KeyInput::Up => Action::Redraw(
            Dimensions {
                width: d.width,
                height: if d.height >= 8 {
                    (d.height - 4) as u32
                } else {
                    4u32
                },
            },
        ),
        KeyInput::Down => Action::Redraw(
            Dimensions { width: d.width, height: (d.height + 4) as u32 },
        ),
        KeyInput::Left => Action::Redraw(
            Dimensions {
                width: if d.width >= 8 {
                    (d.width - 4) as u32
                } else {
                    4u32
                },
                height: d.height,
            },
        ),
        KeyInput::Right => Action::Redraw(
            Dimensions { width: (d.width + 4) as u32, height: d.height },
        ),
        KeyInput::Escape => Action::Exit,
        KeyInput::Other => Action::Ignore,
    }
}

/// One transition of the resize state machine. The floor is taken before the
/// subtraction, so a dimension can never wrap below zero.
pub fn step(dims: Dimensions, key: KeyInput) -> (r: Action)
    requires
        dims.wf(),
        dims.width + 4 <= u32::MAX,
        dims.height + 4 <= u32::MAX,
    ensures
        r == spec_step(dims, key),
        r matches Action::Redraw(d2) ==> d2.wf(),
        r is Exit <==> key is Escape,
        r is Ignore <==> key is Other,
{
    proof {
        lemma_step_preserves_wf(dims, key);
    }
    match key {
        KeyInput::Up => Action::Redraw(
            Dimensions {
                width: dims.width,
                height: if dims.height >= 8 {
                    dims.height - 4
                } else {
                    4
                },
            },
        ),
        KeyInput::Down => Action::Redraw(
            Dimensions { width: dims.width, height: dims.height + 4 },
        ),
        KeyInput::Left => Action::Redraw(
            Dimensions {
                width: if dims.width >= 8 {
                    dims.width - 4
                } else {
                    4
                },
                height: dims.height,
            },
        ),
        KeyInput::Right => Action::Redraw(
            Dimensions { width: dims.width + 4, height: dims.height },
        ),
        KeyInput::Escape => Action::Exit,
        KeyInput::Other => Action::Ignore,
    }
}

/// Law: the resize state machine keeps the grid well formed — whatever key
/// arrives in a well-formed state, a redraw carries dimensions that are still
/// multiples of four and at least four, so repeated shrinking floors at four
/// and never wraps.
pub proof fn lemma_step_preserves_wf(dims: Dimensions, key: KeyInput)
    requires
        dims.wf(),
        dims.width + 4 <= u32::MAX,
        dims.height + 4 <= u32::MAX,
    ensures
        spec_step(dims, key) matches Action::Redraw(d2) ==> d2.wf(),
{
    lemma_nudge_keeps_multiple_of_four(dims.width);
    lemma_nudge_keeps_multiple_of_four(dims.height);
}

proof fn lemma_nudge_keeps_multiple_of_four(v: u32)
    requires
        v % 4 == 0,
        v >= 4,
        v + 4 <= u32::MAX,
    ensures
        v >= 8 ==> ((v - 4) % 4 == 0 && v - 4 >= 4),
        (v + 4) % 4 == 0,
        v + 4 >= 4,
{
    vstd::arithmetic::div_mod::lemma_mod_sub_multiples_vanish(v as int, 4);
    vstd::arithmetic::div_mod::lemma_mod_add_multiples_vanish(v as int, 4);
}

/// Upper bounds on the first frame: a decoded image is scaled down so that
/// neither dimension exceeds these before the render loop starts.
pub const MAX_INITIAL_WIDTH: u32 = 512;

pub const MAX_INITIAL_HEIGHT: u32 = 64;

/// The dimensions a freshly decoded image must be scaled down to before the
/// render loop, or `None` when it is already within the initial viewport cap.
pub fn clamp_dimensions(width: u32, height: u32) -> (r: Option<(u32, u32)>)
    ensures
        r is Some <==> (width > MAX_INITIAL_WIDTH || height > MAX_INITIAL_HEIGHT),
        r matches Some(p) ==> p.0 == (if width < MAX_INITIAL_WIDTH {
            width
        } else {
            MAX_INITIAL_WIDTH
        }) && p.1 == (if height < MAX_INITIAL_HEIGHT {
            height
        } else {
            MAX_INITIAL_HEIGHT
        }),
{
    if width > MAX_INITIAL_WIDTH || height > MAX_INITIAL_HEIGHT {
        let new_width = if width < MAX_INITIAL_WIDTH {
            width
        } else {
            MAX_INITIAL_WIDTH
        };
        let new_height = if height < MAX_INITIAL_HEIGHT {
            height
        } else {
            MAX_INITIAL_HEIGHT
        };
        Some((new_width, new_height))
    } else {
        None
    }
}

/// Relies on image::GrayImage::from_raw (accepts a raw buffer holding
/// exactly width * height bytes), image::imageops::resize (returns a buffer
/// of exactly the requested dimensions, resampled here with the Lanczos3
/// filter), image::imageops::dither with image::imageops::BiLevel (rewrites
/// the pixel bytes in place, keeping the dimensions; it indexes one column
/// past the current pixel, so the width must be at least 2), and
/// ImageBuffer::into_raw (hands the buffer back, one byte per pixel).
#[verifier::external_body]
fn resample_bilevel(bm: &Bitmap, width: u32, height: u32) -> (r: Bitmap)
    requires
        bm.wf(),
        width >= 2,
        height >= 1,
    ensures
        r.wf(),
        r.width == width,
        r.height == height,
{
    let img = image::GrayImage::from_raw(bm.width, bm.height, bm.pixels.clone()).unwrap();
    let mut resized = image::imageops::resize(&img, width, height, image::imageops::FilterType::Lanczos3);
    image::imageops::dither(&mut resized, &image::imageops::BiLevel);
    Bitmap { width, height, pixels: resized.into_raw() }
}

proof fn lemma_multiple_of_four_is_even(v: u32)
    by (nonlinear_arith)
    requires
        v % 4 == 0,
    ensures
        v % 2 == 0,
{
}

/// Resamples and binarizes the source bitmap to the requested grid size and
/// renders one frame from it: the output is the frame encoding of a bitmap
/// of exactly the requested dimensions.
pub fn render_resized(src: &Bitmap, dims: Dimensions) -> (out: Vec<u8>)
    requires
        src.wf(),
        dims.wf(),
    ensures
        out@.len() == ((dims.height as nat) / 4) * (3 * ((dims.width as nat) / 2) + 2),
        exists|px: Seq<u8>|
            px.len() == dims.width * dims.height && out@ == frame_spec(
                px,
                dims.width,
                dims.height,
            ),
{
    let resized = resample_bilevel(src, dims.width, dims.height);
    proof {
        lemma_multiple_of_four_is_even(dims.width);
        lemma_frame_len(resized.pixels@, dims.width, dims.height);
    }
    let out = render_frame(&resized);
    proof {
        assert(resized.pixels@.len() == dims.width * dims.height && out@ == frame_spec(
            resized.pixels@,
            dims.width,
            dims.height,
        ));
    }
    out
}

} // verus!
