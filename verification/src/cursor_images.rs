//! Bitmaps of cursor glyphs and the kind of each of their pixels.

use crate::utility::lemma_index_in_raster;
use vstd::prelude::*;

verus! {

/// A bitmap stored row by row, and the pixel of it that sits on the cursor.
#[derive(Debug, Copy, Clone, Eq, PartialEq)]
pub struct BitRaster<'a> {
    pub width: usize,
    pub height: usize,
    pub offset_x: usize,
    pub offset_y: usize,
    pub pixels: &'a [bool],
}

/// How a pixel of a glyph is drawn.
#[derive(Debug, Copy, Clone, Eq, PartialEq, Structural)]
pub enum PixelType {
    /// Not part of the glyph.
    Empty,
    /// Inside the glyph.
    Fill,
    /// Outside the glyph and next to it.
    Border,
}

impl<'a> BitRaster<'a> {
    /// True when there is one stored pixel for each column of each row.
    pub open spec fn wf(self) -> bool {
        self.pixels@.len() == self.width * self.height
    }

    /// The stored pixel in column `x` of row `y`.
    pub open spec fn filled(self, x: int, y: int) -> bool {
        self.pixels@[y * self.width + x]
    }

    /// True when a stored pixel is set at `(x, y)` or at a place of the
    /// bitmap that touches it, diagonals included.
    pub open spec fn near_fill(self, x: int, y: int) -> bool {
        exists|nx: int, ny: int|
            {
                &&& x - 1 <= nx <= x + 1
                &&& 0 <= nx < self.width
                &&& y - 1 <= ny <= y + 1
                &&& 0 <= ny < self.height
                &&& #[trigger] self.filled(nx, ny)
            }
    }

    /// The kind of the pixel at `(x, y)`.
    pub open spec fn pixel_type(self, x: int, y: int) -> PixelType {
        if self.filled(x, y) {
            PixelType::Fill
        } else if self.near_fill(x, y) {
            PixelType::Border
        } else {
            PixelType::Empty
        }
    }

    /// The kind of the pixel in column `x` of row `y`.
    pub fn get(&self, x: usize, y: usize) -> (kind: PixelType)
        requires
            self.wf(),
            y * self.width + x < self.pixels@.len(),
        ensures
            kind == self.pixel_type(x as int, y as int),
    {
        if self.get_raw(x, y) {
            PixelType::Fill
        } else if self.is_bordering(x, y) {
            PixelType::Border
        } else {
            PixelType::Empty
        }
    }

    /// Tests whether a stored pixel is set at `(x, y)` or next to it.
    pub fn is_bordering(&self, x: usize, y: usize) -> (near: bool)
        requires
            self.wf(),
        ensures
            near == self.near_fill(x as int, y as int),
    {
        let x_lo: usize = if x > 0 {
            x - 1
        } else {
            0
        };
        let y_lo: usize = if y > 0 {
            y - 1
        } else {
            0
        };
        let x_hi: usize = if self.width >= 2 && x <= self.width - 2 {
            x + 2
        } else {
            self.width
        };
        let y_hi: usize = if self.height >= 2 && y <= self.height - 2 {
            y + 2
        } else {
            self.height
        };
        let mut nx: usize = x_lo;
        while nx < x_hi
            invariant
                self.wf(),
                x_lo <= nx,
                x_hi <= self.width,
                y_hi <= self.height,
                x_lo == if x > 0 { x - 1 } else { 0 },
                y_lo == if y > 0 { y - 1 } else { 0 },
                x_hi == if x + 2 <= self.width { x + 2 } else { self.width as int },
                y_hi == if y + 2 <= self.height { y + 2 } else { self.height as int },
                forall|px: int, py: int|
                    x_lo <= px < nx && y_lo <= py < y_hi ==> !#[trigger] self.filled(px, py),
            decreases x_hi - nx,
        {
            let mut ny: usize = y_lo;
            while ny < y_hi
                invariant
                    self.wf(),
                    x_lo <= nx < x_hi,
                    y_lo <= ny,
                    x_hi <= self.width,
                    y_hi <= self.height,
                    x_lo == if x > 0 { x - 1 } else { 0 },
                    y_lo == if y > 0 { y - 1 } else { 0 },
                    x_hi == if x + 2 <= self.width { x + 2 } else { self.width as int },
                    y_hi == if y + 2 <= self.height { y + 2 } else { self.height as int },
                    forall|px: int, py: int|
                        x_lo <= px < nx && y_lo <= py < y_hi ==> !#[trigger] self.filled(px, py),
                    forall|py: int| y_lo <= py < ny ==> !#[trigger] self.filled(nx as int, py),
                decreases y_hi - ny,
            {
                proof {
                    lemma_index_in_raster(
                        nx as int,
                        ny as int,
                        self.width as int,
                        self.height as int,
                    );
                }
                if self.get_raw(nx, ny) {
                    return true;
                }
                ny += 1;
            }
            nx += 1;
        }
        false
    }

    fn get_raw(&self, x: usize, y: usize) -> (set: bool)
        requires
            y * self.width + x < self.pixels@.len(),
        ensures
            set == self.filled(x as int, y as int),
    {
        let len = self.pixels.len();
        assert(0 <= y * self.width < len) by (nonlinear_arith)
            requires
                0 <= y,
                0 <= self.width,
                0 <= x,
                y * self.width + x < len,
        ;
        self.pixels[y * self.width + x]
    }
}

/// A pixel of a glyph table that is set.
pub const W: bool = true;

/// A pixel of a glyph table that is clear.
pub const O: bool = false;

/// The rows of the cardinal glyph, top row first.
pub const CARDINAL_BITS: [bool; 156] = [
    O, O, O, O, O, O, O, O, O, O, O, O, O, W, O, O, O, O, O, O, O, O, O, O, O, W, W, W, O, O, O, O,
    O, O, O, O, O, O, W, W, W, W, O, O, O, O, O, O, O, O, W, W, W, W, W, W, O, O, O, O, O, O, O, W,
    W, W, W, W, W, W, O, O, O, O, O, W, W, W, W, W, W, W, W, O, O, O, O, W, W, W, W, W, W, W, O, O,
    O, O, W, W, W, W, W, W, O, O, O, O, O, O, W, W, W, W, O, O, O, O, O, O, O, W, W, W, O, O, O, O,
    O, O, O, O, O, W, O, O, O, O, O, O, O, O, O, O, O, O, O, O, O, O, O, O, O, O, O, O,
];

/// The rows of the diagonal glyph, top row first.
pub const DIAGONAL_BITS: [bool; 144] = [
    O, O, O, O, O, O, O, O, O, O, O, O, O, O, O, O, O, O, O, O, W, W, W, O, O, O, O, O, O, O, W, W,
    W, W, W, O, O, O, O, O, W, W, W, W, W, W, W, O, O, W, W, W, W, W, W, W, W, W, O, O, O, O, W, W,
    W, W, W, W, W, W, O, O, O, O, O, O, W, W, W, W, W, O, O, O, O, O, O, O, O, W, W, W, W, O, O, O,
    O, O, O, O, O, O, W, W, O, O, O, O, O, O, O, O, O, O, W, W, O, O, O, O, O, O, O, O, O, O, O, W,
    O, O, O, O, O, O, O, O, O, O, O, O, O, O, O, O,
];

/// The glyph of a cursor that faces along an axis, drawn facing octant 0.
pub open spec fn cardinal_glyph() -> BitRaster<'static> {
    BitRaster { width: 12, height: 13, offset_x: 10, offset_y: 6, pixels: &CARDINAL_BITS }
}

/// The glyph of a cursor that faces along a diagonal, drawn facing octant 1.
pub open spec fn diagonal_glyph() -> BitRaster<'static> {
    BitRaster { width: 12, height: 12, offset_x: 10, offset_y: 1, pixels: &DIAGONAL_BITS }
}

/// The glyph of a cursor that faces along an axis, drawn facing octant 0.
pub fn cardinal() -> (raster: BitRaster<'static>)
    ensures
        raster == cardinal_glyph(),
        raster.wf(),
        raster.width == 12,
        raster.height == 13,
        raster.offset_x == 10,
        raster.offset_y == 6,
{
    let pixels: &'static [bool] = &CARDINAL_BITS;
    assert(pixels@.len() == 156);
    assert(12 * 13 == 156);
    BitRaster { width: 12, height: 13, offset_x: 10, offset_y: 6, pixels }
}

/// The glyph of a cursor that faces along a diagonal, drawn facing octant 1.
pub fn diagonal() -> (raster: BitRaster<'static>)
    ensures
        raster == diagonal_glyph(),
        raster.wf(),
        raster.width == 12,
        raster.height == 12,
        raster.offset_x == 10,
        raster.offset_y == 1,
{
    let pixels: &'static [bool] = &DIAGONAL_BITS;
    assert(pixels@.len() == 144);
    assert(12 * 12 == 144);
    BitRaster { width: 12, height: 12, offset_x: 10, offset_y: 1, pixels }
}

} // verus!
