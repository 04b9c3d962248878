//! The raster canvas: a dense row-major grid of color codes.
//!
//! Color convention (fixed and documented here, used by the extractor and
//! the renderer alike): code 0 is background (no cell at that pixel),
//! code 1 marks a present but dead cell, code 2 marks a present live cell.
//! Any other code makes the canvas malformed.

use vstd::prelude::*;

verus! {

/// Color code for a background pixel (no cell).
pub const CODE_BACKGROUND: u8 = 0;

/// Color code for a pixel holding a dead cell.
pub const CODE_DEAD: u8 = 1;

/// Color code for a pixel holding a live cell.
pub const CODE_LIVE: u8 = 2;

/// A 2-D buffer of color codes, stored row-major: the pixel at column `x`
/// of row `y` is `pixels[y * width + x]`.
pub struct Canvas {
    pub width: usize,
    pub height: usize,
    pub pixels: Vec<u8>,
}

impl Canvas {
    /// The buffer has exactly one code per pixel of the `width` x `height` grid.
    pub open spec fn wf(self) -> bool {
        self.pixels@.len() == self.width * self.height
    }

    /// Every code in the buffer is one of the three recognized colors.
    pub open spec fn codes_valid(self) -> bool {
        forall|p: int|
            0 <= p < self.pixels@.len() ==> #[trigger] self.pixels@[p] <= CODE_LIVE
    }

    /// The code stored for the pixel at column `x`, row `y`.
    pub open spec fn code_at(self, x: int, y: int) -> u8 {
        self.pixels@[y * self.width + x]
    }

    /// Builds a canvas, checking that the buffer length matches the
    /// dimensions; the codes themselves are vetted later, by the extractor.
    pub fn new(width: usize, height: usize, pixels: Vec<u8>) -> (r: Option<Canvas>)
        ensures
            r matches Some(c) ==> c.width == width && c.height == height
                && c.pixels@ == pixels@ && c.wf(),
            r is None ==> pixels@.len() != width * height,
    {
        let w128: u128 = width as u128;
        let h128: u128 = height as u128;
        proof {
            assert(w128 * h128 <= 0xFFFF_FFFF_FFFF_FFFFu128 * 0xFFFF_FFFF_FFFF_FFFFu128)
                by (nonlinear_arith)
                requires
                    w128 <= 0xFFFF_FFFF_FFFF_FFFFu128,
                    h128 <= 0xFFFF_FFFF_FFFF_FFFFu128,
            ;
        }
        let len_ok = (pixels.len() as u128) == w128 * h128;
        if len_ok {
            assert(pixels@.len() == width * height);
            Some(Canvas { width, height, pixels })
        } else {
            assert(pixels@.len() != width * height);
            None
        }
    }

    /// Reads one pixel's color code.
    pub fn get(&self, x: usize, y: usize) -> (r: u8)
        requires
            self.wf(),
            x < self.width,
            y < self.height,
        ensures
            r == self.code_at(x as int, y as int),
    {
        let n = self.pixels.len();
        proof {
            lemma_row_major_in_range(x as int, y as int, self.width as int, self.height as int);
            assert(y * self.width + x < n);
        }
        self.pixels[y * self.width + x]
    }
}

/// A row-major index built from in-bounds coordinates lands inside the buffer.
pub proof fn lemma_row_major_in_range(x: int, y: int, w: int, h: int)
    requires
        0 <= x < w,
        0 <= y < h,
    ensures
        0 <= y * w + x < w * h,
{
    assert(y * w + x < w * h) by (nonlinear_arith)
        requires 0 <= x < w, 0 <= y < h,
    ;
    assert(y * w + x >= 0) by (nonlinear_arith)
        requires 0 <= x, 0 <= y, 0 < w,
    ;
}

} // verus!
