//! Geometric value types: 2D vectors and directed line segments.
//!
//! Coordinates are exact fixed-point integers: one pixel spans [`SUBPIXEL`]
//! coordinate units, so a pixel center sits at an exact integer coordinate
//! and every intersection test below is decided by exact integer arithmetic.

use vstd::prelude::*;

verus! {

/// Coordinate units per pixel. Pixel `(x, y)` covers the half-open square
/// from `(x * SUBPIXEL, y * SUBPIXEL)` of side `SUBPIXEL`, and its center
/// sits at `(x * SUBPIXEL + SUBPIXEL / 2, y * SUBPIXEL + SUBPIXEL / 2)`.
pub const SUBPIXEL: i64 = 256;

/// Largest coordinate magnitude the library accepts: 2^60.
///
/// The bound leaves enough headroom that every intermediate product in the
/// intersection arithmetic fits in 128 bits, keeping all computation exact.
pub const COORD_LIMIT: i64 = 0x1000_0000_0000_0000;

/// A 2D point or direction with fixed-point components.
#[derive(Clone, Copy, Debug, PartialEq, Eq, Structural)]
pub struct Vector2 {
    pub x: i64,
    pub y: i64,
}

/// A directed straight segment from `start` to `end`.
#[derive(Clone, Copy, Debug, PartialEq, Eq, Structural)]
pub struct Segment {
    pub start: Vector2,
    pub end: Vector2,
}

impl Vector2 {
    /// Both components have magnitude at most `b`.
    pub open spec fn in_bounds(self, b: int) -> bool {
        &&& -b <= self.x <= b
        &&& -b <= self.y <= b
    }

    /// The vector's coordinates are within the range the library accepts.
    pub open spec fn wf(self) -> bool {
        self.in_bounds(COORD_LIMIT as int)
    }
}

impl Segment {
    /// Horizontal component of the direction vector `end - start`.
    pub open spec fn dir_x(self) -> int {
        self.end.x - self.start.x
    }

    /// Vertical component of the direction vector `end - start`.
    pub open spec fn dir_y(self) -> int {
        self.end.y - self.start.y
    }

    /// Both endpoints have coordinates of magnitude at most `b`.
    pub open spec fn in_bounds(self, b: int) -> bool {
        &&& self.start.in_bounds(b)
        &&& self.end.in_bounds(b)
    }

    /// The segment's coordinates are within the range the library accepts.
    pub open spec fn wf(self) -> bool {
        self.in_bounds(COORD_LIMIT as int)
    }

    /// A zero-length segment: both endpoints coincide.
    pub open spec fn is_degenerate(self) -> bool {
        self.start == self.end
    }

    /// The direction vector `end - start`.
    pub fn direction(&self) -> (d: Vector2)
        requires
            self.in_bounds(2 * COORD_LIMIT as int),
        ensures
            d.x == self.dir_x(),
            d.y == self.dir_y(),
    {
        Vector2 { x: self.end.x - self.start.x, y: self.end.y - self.start.y }
    }
}

/// Every segment of the path has coordinates the library accepts.
pub open spec fn wf_path(path: Seq<Segment>) -> bool {
    forall|i: int| 0 <= i < path.len() ==> #[trigger] path[i].wf()
}

} // verus!
