//! The raster image that a path is drawn on.

use crate::utility::lemma_index_in_raster;
use vstd::prelude::*;

verus! {

/// Red, green and blue.
pub type Color = (u8, u8, u8);

/// The colour of the paper.
pub const WHITE: Color = (255, 255, 255);

/// The colour of points and edges.
pub const BLACK: Color = (0, 0, 0);

/// The colour inside the cursor's glyph.
pub const RED: Color = (255, 0, 0);

/// The colour of the glyph's border.
pub const GREEN: Color = (0, 255, 0);

/// An image of three colour channels, held by `image::RgbImage`.
#[verifier::external_body]
pub struct Canvas {
    img: image::RgbImage,
}

/// The colour of each pixel of a canvas, by column and row.
pub uninterp spec fn canvas_pixels(canvas: Canvas) -> Map<(int, int), Color>;

/// The width and the height of a canvas.
pub uninterp spec fn canvas_size(canvas: Canvas) -> (int, int);

/// The picture of `width` by `height` pixels that has `color` everywhere.
pub open spec fn blank(width: int, height: int, color: Color) -> Map<(int, int), Color> {
    Map::new(|p: (int, int)| 0 <= p.0 < width && 0 <= p.1 < height, |p: (int, int)| color)
}

impl Canvas {
    /// The width in pixels.
    pub open spec fn width(self) -> int {
        canvas_size(self).0
    }

    /// The height in pixels.
    pub open spec fn height(self) -> int {
        canvas_size(self).1
    }

    /// The colour of each pixel, by column and row.
    pub open spec fn pixels(self) -> Map<(int, int), Color> {
        canvas_pixels(self)
    }

    /// True when `(x, y)` is a pixel of the canvas.
    pub open spec fn has_pixel(self, x: int, y: int) -> bool {
        0 <= x < self.width() && 0 <= y < self.height()
    }

    /// True when the canvas has a colour for each of its pixels and for
    /// nothing else.
    pub open spec fn wf(self) -> bool {
        &&& 0 <= self.width() <= u32::MAX
        &&& 0 <= self.height() <= u32::MAX
        &&& forall|p: (int, int)|
            self.pixels().dom().contains(p) <==> self.has_pixel(p.0, p.1)
    }

    /// Channel `c` of a colour: 0 for red, 1 for green, 2 for blue.
    pub open spec fn channel(color: Color, c: int) -> u8 {
        if c == 0 {
            color.0
        } else if c == 1 {
            color.1
        } else {
            color.2
        }
    }

    /// The pixels as bytes: row after row from the top, each row from the
    /// left, and red, green and blue for each pixel.
    pub open spec fn rgb_bytes(self) -> Seq<u8> {
        Seq::new(
            (3 * self.width() * self.height()) as nat,
            |i: int|
                Self::channel(
                    self.pixels()[((i / 3) % self.width(), (i / 3) / self.width())],
                    i % 3,
                ),
        )
    }

    /// The width and the height in pixels.
    pub fn size(&self) -> (size: (u32, u32))
        ensures
            size.0 == self.width(),
            size.1 == self.height(),
    {
        self.dimensions()
    }

    /// The colour of the pixel in column `x` of row `y`, or `None` when the
    /// canvas has no such pixel.
    pub fn pixel(&self, x: u32, y: u32) -> (color: Option<Color>)
        ensures
            color == if self.has_pixel(x as int, y as int) {
                Some(self.pixels()[(x as int, y as int)])
            } else {
                None
            },
    {
        let (width, height) = self.dimensions();
        if x < width && y < height {
            Some(self.get_pixel(x, y))
        } else {
            None
        }
    }

    /// Copies the pixels out as bytes, row after row.
    pub fn to_rgb_bytes(&self) -> (bytes: Vec<u8>)
        ensures
            bytes@ == self.rgb_bytes(),
    {
        let (width, height) = self.dimensions();
        let ghost all = self.rgb_bytes();
        let mut bytes: Vec<u8> = Vec::new();
        let mut y: u32 = 0;
        assert(0 <= width * height) by (nonlinear_arith)
            requires
                0 <= width,
                0 <= height,
        ;
        assert(3 * width * height == 3 * (width * height)) by (nonlinear_arith);
        assert(bytes@ == all.take(0));
        while y < height
            invariant
                y <= height,
                width == self.width(),
                height == self.height(),
                all == self.rgb_bytes(),
                all.len() == 3 * (width * height),
                0 <= 3 * (y * width) <= all.len(),
                bytes@ == all.take(3 * (y * width)),
            decreases height - y,
        {
            let mut x: u32 = 0;
            while x < width
                invariant
                    y < height,
                    x <= width,
                    width == self.width(),
                    height == self.height(),
                    all == self.rgb_bytes(),
                    all.len() == 3 * (width * height),
                    0 <= 3 * (y * width + x) <= all.len(),
                    bytes@ == all.take(3 * (y * width + x)),
                decreases width - x,
            {
                let color = self.get_pixel(x, y);
                let ghost n = y * width + x;
                proof {
                    lemma_index_in_raster(
                        x as int,
                        y as int,
                        width as int,
                        height as int,
                    );
                    vstd::arithmetic::div_mod::lemma_fundamental_div_mod_converse(
                        n,
                        width as int,
                        y as int,
                        x as int,
                    );
                    assert(3 * n + 3 <= all.len());
                    assert((3 * n) / 3 == n && (3 * n + 1) / 3 == n && (3 * n + 2) / 3 == n);
                    assert(all[3 * n] == color.0);
                    assert(all[3 * n + 1] == color.1);
                    assert(all[3 * n + 2] == color.2);
                }
                bytes.push(color.0);
                bytes.push(color.1);
                bytes.push(color.2);
                assert(bytes@ == all.take(3 * n + 3));
                x += 1;
            }
            assert((y + 1) * width == y * width + width) by (nonlinear_arith);
            y += 1;
        }
        assert(y * width == width * height) by (nonlinear_arith)
            requires
                y == height,
        ;
        assert(all.take(all.len() as int) == all);
        bytes
    }

    /// Calls `ImageBuffer::from_pixel`, which allocates three bytes for
    /// each pixel and copies `color` into every one of them. It multiplies
    /// three by the width and then by the height and panics when either
    /// product is more than `usize` holds, or when the byte count is more
    /// than a vector can hold, so both are left out.
    #[verifier::external_body]
    pub(crate) fn filled(width: u32, height: u32, color: Color) -> (canvas: Canvas)
        requires
            3 * width <= usize::MAX,
            3 * width * height <= isize::MAX,
        ensures
            canvas_size(canvas) == (width as int, height as int),
            canvas_pixels(canvas) == blank(width as int, height as int, color),
    {
        let pixel = image::Rgb([color.0, color.1, color.2]);
        Canvas { img: image::RgbImage::from_pixel(width, height, pixel) }
    }

    /// Calls `ImageBuffer::dimensions`, which returns the width and the
    /// height that the image was made with.
    #[verifier::external_body]
    pub(crate) fn dimensions(&self) -> (size: (u32, u32))
        ensures
            canvas_size(*self) == (size.0 as int, size.1 as int),
    {
        self.img.dimensions()
    }

    /// Calls `ImageBuffer::put_pixel`, which overwrites the pixel at
    /// `(x, y)` and no other. It panics outside the image, so that is left
    /// out.
    #[verifier::external_body]
    pub(crate) fn put_pixel(&mut self, x: u32, y: u32, color: Color)
        requires
            x < canvas_size(*old(self)).0,
            y < canvas_size(*old(self)).1,
        ensures
            canvas_size(*final(self)) == canvas_size(*old(self)),
            canvas_pixels(*final(self)) == canvas_pixels(*old(self)).insert(
                (x as int, y as int),
                color,
            ),
    {
        self.img.put_pixel(x, y, image::Rgb([color.0, color.1, color.2]));
    }

    /// Calls `ImageBuffer::get_pixel`, which returns the pixel at `(x, y)`.
    /// It panics outside the image, so that is left out.
    #[verifier::external_body]
    pub(crate) fn get_pixel(&self, x: u32, y: u32) -> (color: Color)
        requires
            x < canvas_size(*self).0,
            y < canvas_size(*self).1,
        ensures
            color == canvas_pixels(*self)[(x as int, y as int)],
    {
        let p = self.img.get_pixel(x, y);
        (p.0[0], p.0[1], p.0[2])
    }
}

} // verus!
