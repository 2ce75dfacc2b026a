//! Points of the pixel grid and the squared distance between them.

use vstd::prelude::*;

verus! {

/// A position on the pixel grid: column `x`, row `y`.
#[derive(Debug, Clone, Copy, PartialEq, Eq, Structural)]
pub struct Point {
    pub x: usize,
    pub y: usize,
}

impl Point {
    /// Whether the point lies on a grid of `width` columns and `height` rows.
    pub open spec fn within(self, width: int, height: int) -> bool {
        self.x < width && self.y < height
    }

    /// Tells whether the point lies on a grid of the given size.
    pub fn is_within(&self, width: usize, height: usize) -> (inside: bool)
        ensures
            inside == self.within(width as int, height as int),
    {
        self.x < width && self.y < height
    }
}

/// The squared Euclidean distance between `(x1, y1)` and `(x2, y2)`.
///
/// Squaring keeps the order of the distances, so nearest-point questions are
/// answered without a square root.
pub open spec fn squared_distance(x1: int, y1: int, x2: int, y2: int) -> int {
    (x1 - x2) * (x1 - x2) + (y1 - y2) * (y1 - y2)
}

/// The squared distance from `p` to the pixel `(x, y)`.
pub open spec fn distance_to(p: Point, x: int, y: int) -> int {
    squared_distance(p.x as int, p.y as int, x, y)
}

/// Every point of `seeds` lies on a grid of the given size.
pub open spec fn all_within(seeds: Seq<Point>, width: int, height: int) -> bool {
    forall|i: int| 0 <= i < seeds.len() ==> (#[trigger] seeds[i]).within(width, height)
}

/// Two positions on a grid whose pixel count fits in a machine word are at a
/// squared distance that fits in 128 bits.
pub proof fn lemma_distance_on_grid_fits(
    width: int,
    height: int,
    x1: int,
    y1: int,
    x2: int,
    y2: int,
)
    requires
        width * height <= usize::MAX,
        0 <= x1 < width,
        0 <= x2 < width,
        0 <= y1 < height,
        0 <= y2 < height,
    ensures
        0 <= squared_distance(x1, y1, x2, y2) <= u128::MAX,
{
    let dx = if x1 >= x2 { x1 - x2 } else { x2 - x1 };
    let dy = if y1 >= y2 { y1 - y2 } else { y2 - y1 };
    assert(usize::MAX <= 0xFFFF_FFFF_FFFF_FFFF);
    assert((x1 - x2) * (x1 - x2) == dx * dx) by (nonlinear_arith)
        requires
            dx == x1 - x2 || dx == x2 - x1,
    ;
    assert((y1 - y2) * (y1 - y2) == dy * dy) by (nonlinear_arith)
        requires
            dy == y1 - y2 || dy == y2 - y1,
    ;
    assert(0 <= dx * dx + dy * dy <= 0xFFFF_FFFF_FFFF_FFFF_FFFF_FFFF_FFFF_FFFF)
        by (nonlinear_arith)
        requires
            0 <= dx < width,
            0 <= dy < height,
            width * height <= 0xFFFF_FFFF_FFFF_FFFF,
    {
        if dy <= 1 {
            assert(dx <= 0xFFFF_FFFF_FFFF_FFFE);
            assert(dx * dx <= 0xFFFF_FFFF_FFFF_FFFE * 0xFFFF_FFFF_FFFF_FFFE);
            assert(dy * dy <= 1);
        } else if dx <= 1 {
            assert(dy <= 0xFFFF_FFFF_FFFF_FFFE);
            assert(dy * dy <= 0xFFFF_FFFF_FFFF_FFFE * 0xFFFF_FFFF_FFFF_FFFE);
            assert(dx * dx <= 1);
        } else {
            assert(2 * dx <= height * dx);
            assert(height * dx <= height * width);
            assert(2 * dy <= width * dy);
            assert(width * dy <= width * height);
            assert(dx <= 0x7FFF_FFFF_FFFF_FFFF);
            assert(dy <= 0x7FFF_FFFF_FFFF_FFFF);
            assert(dx * dx <= 0x7FFF_FFFF_FFFF_FFFF * 0x7FFF_FFFF_FFFF_FFFF);
            assert(dy * dy <= 0x7FFF_FFFF_FFFF_FFFF * 0x7FFF_FFFF_FFFF_FFFF);
        }
    }
}

/// Computes the squared Euclidean distance between two positions.
///
/// The result is 128 bits wide, so that it holds the distance between any
/// two positions of a grid that fits in memory.
pub fn sqr_dst(x1: usize, y1: usize, x2: usize, y2: usize) -> (d: u128)
    requires
        squared_distance(x1 as int, y1 as int, x2 as int, y2 as int) <= u128::MAX,
    ensures
        d == squared_distance(x1 as int, y1 as int, x2 as int, y2 as int),
{
    let dx: u128 = if x1 >= x2 {
        (x1 - x2) as u128
    } else {
        (x2 - x1) as u128
    };
    let dy: u128 = if y1 >= y2 {
        (y1 - y2) as u128
    } else {
        (y2 - y1) as u128
    };
    assert(dx * dx == (x1 - x2) * (x1 - x2)) by (nonlinear_arith)
        requires
            dx == x1 - x2 || dx == x2 - x1,
    ;
    assert(dy * dy == (y1 - y2) * (y1 - y2)) by (nonlinear_arith)
        requires
            dy == y1 - y2 || dy == y2 - y1,
    ;
    assert(0 <= dx * dx && 0 <= dy * dy) by (nonlinear_arith);
    dx * dx + dy * dy
}

} // verus!
