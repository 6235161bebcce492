//! Coordinates and bounding rectangles.

use vstd::prelude::*;

verus! {

/// A grid coordinate.
pub type Pos = i64;

/// An axis-aligned rectangle on the grid, with both corners inside it.
#[derive(Debug, Copy, Clone, Eq, PartialEq, Structural)]
pub struct Bounds {
    pub x1: Pos,
    pub y1: Pos,
    pub x2: Pos,
    pub y2: Pos,
}

impl Bounds {
    /// True when `(x, y)` lies inside the rectangle or on its edge.
    pub open spec fn contains(self, x: int, y: int) -> bool {
        self.x1 <= x <= self.x2 && self.y1 <= y <= self.y2
    }

    /// The rectangle grown just enough to contain `(x, y)`.
    pub open spec fn with_point(self, x: Pos, y: Pos) -> Bounds {
        Bounds {
            x1: if x < self.x1 { x } else { self.x1 },
            y1: if y < self.y1 { y } else { self.y1 },
            x2: if x > self.x2 { x } else { self.x2 },
            y2: if y > self.y2 { y } else { self.y2 },
        }
    }

    /// The all-zero rectangle, which stands for an empty point set.
    pub open spec fn zero() -> Bounds {
        Bounds { x1: 0, y1: 0, x2: 0, y2: 0 }
    }

    /// The inverted rectangle that contains no point: growing it by a point
    /// gives the rectangle of that point alone.
    pub open spec fn inverted() -> Bounds {
        Bounds { x1: i64::MAX, y1: i64::MAX, x2: i64::MIN, y2: i64::MIN }
    }

    /// The offset of `(x, y)` from the rectangle's left and top edges, where
    /// the top edge is the one with the largest y.
    pub fn normalize(&self, x: Pos, y: Pos) -> (offset: (u32, u32))
        requires
            self.contains(x as int, y as int),
            x - self.x1 <= u32::MAX,
            self.y2 - y <= u32::MAX,
        ensures
            offset.0 == x - self.x1,
            offset.1 == self.y2 - y,
    {
        // A larger y is higher up, so the row counts down from the top edge.
        ((x - self.x1) as u32, (self.y2 - y) as u32)
    }

    /// The all-zero rectangle.
    pub fn zeros() -> (b: Self)
        ensures
            b == Bounds::zero(),
    {
        Self { x1: 0, y1: 0, x2: 0, y2: 0 }
    }

    /// The inverted rectangle from which a fold over points starts.
    pub fn initial() -> (b: Self)
        ensures
            b == Bounds::inverted(),
    {
        Self { x1: Pos::MAX, y1: Pos::MAX, x2: Pos::MIN, y2: Pos::MIN }
    }

    /// Grows the rectangle just enough to contain `(x, y)`.
    pub fn add_point(&mut self, x: Pos, y: Pos)
        ensures
            *final(self) == old(self).with_point(x, y),
    {
        if x < self.x1 {
            self.x1 = x;
        }
        if y < self.y1 {
            self.y1 = y;
        }
        if x > self.x2 {
            self.x2 = x;
        }
        if y > self.y2 {
            self.y2 = y;
        }
    }
}

/// A place inside a raster of `width` by `height` pixels that is stored
/// row by row has its index inside the stored pixels.
pub proof fn lemma_index_in_raster(x: int, y: int, width: int, height: int)
    requires
        0 <= x < width,
        0 <= y < height,
    ensures
        0 <= y * width + x < width * height,
{
    assert(y * width >= 0) by (nonlinear_arith)
        requires
            y >= 0,
            width >= 0,
    ;
    assert((y + 1) * width <= height * width) by (nonlinear_arith)
        requires
            y + 1 <= height,
            width >= 0,
    ;
    assert((y + 1) * width == y * width + width) by (nonlinear_arith);
    assert(height * width == width * height) by (nonlinear_arith);
}

} // verus!
