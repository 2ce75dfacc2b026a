//! Seed markers: filled discs stamped on the grid, clipped at its edges.

use vstd::prelude::*;
use crate::color::Color;
use crate::geometry::{squared_distance, Point};
use crate::image::Image;

verus! {

/// Whether the pixel `(x, y)` belongs to the marker of the given radius
/// centred at `(cx, cy)`.
///
/// The marker is the part of the disc, edge included, that lies in the square
/// of columns `cx - radius` up to but not including `cx + radius` and of rows
/// `cy - radius` up to but not including `cy + radius`.
pub open spec fn in_marker(cx: int, cy: int, radius: int, x: int, y: int) -> bool {
    &&& cx - radius <= x < cx + radius
    &&& cy - radius <= y < cy + radius
    &&& squared_distance(cx, cy, x, y) <= radius * radius
}

/// Whether the pixel `(x, y)` belongs to the marker centred at `seed`.
pub open spec fn covers(seed: Point, radius: int, x: int, y: int) -> bool {
    in_marker(seed.x as int, seed.y as int, radius, x, y)
}

/// Whether the pixel `(x, y)` belongs to the marker of at least one seed.
pub open spec fn marked(seeds: Seq<Point>, radius: int, x: int, y: int) -> bool {
    exists|i: int| 0 <= i < seeds.len() && #[trigger] covers(seeds[i], radius, x, y)
}

/// The distance between two coordinates, widened so that it can be squared.
fn span(a: usize, b: usize) -> (d: u128)
    ensures
        d == if a >= b { a - b } else { b - a },
        d * d == (a - b) * (a - b),
        d * d <= u128::MAX,
{
    let d: usize = if a >= b {
        a - b
    } else {
        b - a
    };
    assert(d * d == (a - b) * (a - b)) by (nonlinear_arith)
        requires
            d == a - b || d == b - a,
    ;
    assert(d * d <= 0xFFFF_FFFF_FFFF_FFFF * 0xFFFF_FFFF_FFFF_FFFF) by (nonlinear_arith)
        requires
            0 <= d <= 0xFFFF_FFFF_FFFF_FFFF,
    ;
    d as u128
}

/// The end of the scanned range along one axis: `centre + radius`, cut off at
/// the edge of the grid.
fn clipped_end(centre: usize, radius: usize, limit: usize) -> (end: usize)
    ensures
        end == if centre + radius < limit { centre + radius } else { limit as int },
{
    match centre.checked_add(radius) {
        Some(sum) => if sum < limit {
            sum
        } else {
            limit
        },
        None => limit,
    }
}

/// Stamps one marker: paints with `color` every pixel of the image that
/// belongs to the marker of the given radius centred at `(cx, cy)`, and
/// leaves every other pixel as it is.
///
/// The centre may lie anywhere and the radius may be of any size: the part of
/// the marker that falls outside the image is left out.
pub fn fill_circle(cx: usize, cy: usize, radius: usize, color: Color, image: &mut Image)
    requires
        old(image).wf(),
    ensures
        final(image).wf(),
        final(image)@.width == old(image)@.width,
        final(image)@.height == old(image)@.height,
        forall|x: int, y: int|
            old(image)@.contains(x, y) ==> #[trigger] final(image)@.at(x, y) == if in_marker(
                cx as int,
                cy as int,
                radius as int,
                x,
                y,
            ) {
                color.value()
            } else {
                old(image)@.at(x, y)
            },
{
    let packed: u32 = color.rgb();
    let width: usize = image.width();
    let height: usize = image.height();
    let x0: usize = cx.saturating_sub(radius);
    let y0: usize = cy.saturating_sub(radius);
    let x1: usize = clipped_end(cx, radius, width);
    let y1: usize = clipped_end(cy, radius, height);
    let reach: u128 = span(radius, 0);
    let limit: u128 = reach * reach;
    let ghost start = image@;

    let mut x: usize = x0;
    while x < x1
        invariant
            image.wf(),
            image@.width == start.width == width,
            image@.height == start.height == height,
            packed == color.value(),
            x0 == if cx >= radius { cx - radius } else { 0int },
            y0 == if cy >= radius { cy - radius } else { 0int },
            x1 == if cx + radius < width { cx + radius } else { width as int },
            y1 == if cy + radius < height { cy + radius } else { height as int },
            limit == radius * radius,
            x0 <= x,
            forall|px: int, py: int|
                start.contains(px, py) ==> #[trigger] image@.at(px, py) == if in_marker(
                    cx as int,
                    cy as int,
                    radius as int,
                    px,
                    py,
                ) && px < x {
                    packed
                } else {
                    start.at(px, py)
                },
        decreases x1 - x,
    {
        let dx: u128 = span(x, cx);
        let across: u128 = dx * dx;
        assert(across <= limit) by (nonlinear_arith)
            requires
                across == dx * dx,
                limit == radius * radius,
                0 <= dx <= radius,
        ;
        let mut y: usize = y0;
        while y < y1
            invariant
                image.wf(),
                image@.width == start.width == width,
                image@.height == start.height == height,
                packed == color.value(),
                x0 <= x < x1,
                x0 == if cx >= radius { cx - radius } else { 0int },
                y0 == if cy >= radius { cy - radius } else { 0int },
                x1 == if cx + radius < width { cx + radius } else { width as int },
                y1 == if cy + radius < height { cy + radius } else { height as int },
                limit == radius * radius,
                across == (x - cx) * (x - cx),
                across <= limit,
                y0 <= y,
                forall|px: int, py: int|
                    start.contains(px, py) ==> #[trigger] image@.at(px, py) == if in_marker(
                        cx as int,
                        cy as int,
                        radius as int,
                        px,
                        py,
                    ) && (px < x || (px == x && py < y)) {
                        packed
                    } else {
                        start.at(px, py)
                    },
            decreases y1 - y,
        {
            let dy: u128 = span(y, cy);
            let along: u128 = dy * dy;
            assert(squared_distance(cx as int, cy as int, x as int, y as int) == across + along)
                by (nonlinear_arith)
                requires
                    across == (x - cx) * (x - cx),
                    along == (y - cy) * (y - cy),
            ;
            if along <= limit - across {
                let ghost before = image@;
                image.set(x, y, packed);
                proof {
                    before.lemma_put(x as int, y as int, packed);
                }
            }
            y = y + 1;
        }
        x = x + 1;
    }
}

/// A marker of radius 1 or more holds its own centre.
pub proof fn lemma_centre_is_marked(seeds: Seq<Point>, radius: int, i: int)
    requires
        0 <= i < seeds.len(),
        radius > 0,
    ensures
        marked(seeds, radius, seeds[i].x as int, seeds[i].y as int),
{
    assert(radius * radius >= 0) by (nonlinear_arith);
    assert(covers(seeds[i], radius, seeds[i].x as int, seeds[i].y as int));
}

/// Stamps a marker of the given radius and colour on every seed.
///
/// A pixel ends up in the marker colour if it belongs to the marker of at
/// least one seed, and keeps its colour otherwise. In particular, with a
/// radius of 1 or more, the pixel of every seed that lies on the image ends
/// up in the marker colour, whatever it held before.
pub fn render_seed_markers(image: &mut Image, seeds: &Vec<Point>, radius: usize, color: Color)
    requires
        old(image).wf(),
    ensures
        final(image).wf(),
        final(image)@.width == old(image)@.width,
        final(image)@.height == old(image)@.height,
        forall|x: int, y: int|
            old(image)@.contains(x, y) ==> #[trigger] final(image)@.at(x, y) == if marked(
                seeds@,
                radius as int,
                x,
                y,
            ) {
                color.value()
            } else {
                old(image)@.at(x, y)
            },
        radius > 0 ==> forall|i: int|
            0 <= i < seeds@.len() && old(image)@.contains(
                (#[trigger] seeds@[i]).x as int,
                seeds@[i].y as int,
            ) ==> final(image)@.at(seeds@[i].x as int, seeds@[i].y as int) == color.value(),
{
    let ghost start = image@;
    let count: usize = seeds.len();
    let mut k: usize = 0;
    while k < count
        invariant
            image.wf(),
            image@.width == start.width,
            image@.height == start.height,
            count == seeds@.len(),
            k <= count,
            forall|x: int, y: int|
                start.contains(x, y) ==> #[trigger] image@.at(x, y) == if marked(
                    seeds@.take(k as int),
                    radius as int,
                    x,
                    y,
                ) {
                    color.value()
                } else {
                    start.at(x, y)
                },
        decreases count - k,
    {
        let seed: Point = seeds[k];
        let ghost before = image@;
        fill_circle(seed.x, seed.y, radius, color, image);
        proof {
            let done = seeds@.take(k as int);
            let next = seeds@.take(k + 1);
            assert forall|x: int, y: int| start.contains(x, y) implies #[trigger] image@.at(x, y)
                == if marked(next, radius as int, x, y) {
                color.value()
            } else {
                start.at(x, y)
            } by {
                assert(image@.at(x, y) == if covers(seed, radius as int, x, y) {
                    color.value()
                } else {
                    before.at(x, y)
                });
                if covers(seed, radius as int, x, y) {
                    assert(covers(next[k as int], radius as int, x, y));
                } else if marked(done, radius as int, x, y) {
                    let i = choose|i: int|
                        0 <= i < done.len() && #[trigger] covers(done[i], radius as int, x, y);
                    assert(covers(next[i], radius as int, x, y));
                } else if marked(next, radius as int, x, y) {
                    let i = choose|i: int|
                        0 <= i < next.len() && #[trigger] covers(next[i], radius as int, x, y);
                    assert(covers(done[i], radius as int, x, y));
                }
            }
        }
        k = k + 1;
    }
    proof {
        assert(seeds@.take(count as int) =~= seeds@);
        if radius > 0 {
            assert forall|i: int|
                0 <= i < seeds@.len() && start.contains(
                    (#[trigger] seeds@[i]).x as int,
                    seeds@[i].y as int,
                ) implies image@.at(seeds@[i].x as int, seeds@[i].y as int)
                == color.value() by {
                lemma_centre_is_marked(seeds@, radius as int, i);
            }
        }
    }
}

} // verus!
