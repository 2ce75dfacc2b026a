//! The Voronoi pass: every pixel takes the palette colour of its nearest
//! seed.

use vstd::prelude::*;
use crate::color::Color;
use crate::geometry::{all_within, distance_to, lemma_distance_on_grid_fits, sqr_dst, Point};
use crate::image::{Grid, Image};

verus! {

/// Whether seed `i` is the nearest seed of the pixel `(x, y)`: no seed is
/// closer, and every seed before it is strictly farther away. Among seeds at
/// the same smallest distance this singles out the one of lowest index.
pub open spec fn is_nearest_seed(seeds: Seq<Point>, x: int, y: int, i: int) -> bool {
    &&& 0 <= i < seeds.len()
    &&& forall|j: int|
        0 <= j < seeds.len() ==> distance_to(seeds[i], x, y) <= distance_to(
            #[trigger] seeds[j],
            x,
            y,
        )
    &&& forall|j: int|
        0 <= j < i ==> distance_to(seeds[i], x, y) < distance_to(#[trigger] seeds[j], x, y)
}

/// The index of the nearest seed of the pixel `(x, y)`; index 0 where there
/// is no seed at all.
pub open spec fn nearest_seed(seeds: Seq<Point>, x: int, y: int) -> int {
    if seeds.len() == 0 {
        0
    } else {
        choose|i: int| is_nearest_seed(seeds, x, y, i)
    }
}

/// The colour of the pixel `(x, y)` in the diagram: the palette entry of its
/// nearest seed, the palette being repeated as often as the seeds need.
pub open spec fn voronoi_color(seeds: Seq<Point>, palette: Seq<Color>, x: int, y: int) -> u32 {
    palette[nearest_seed(seeds, x, y) % (palette.len() as int)].value()
}

/// Whether the grid is the Voronoi diagram of the seeds in the colours of the
/// palette.
pub open spec fn is_voronoi(grid: Grid, seeds: Seq<Point>, palette: Seq<Color>) -> bool {
    &&& grid.wf()
    &&& forall|x: int, y: int|
        grid.contains(x, y) ==> #[trigger] grid.at(x, y) == voronoi_color(seeds, palette, x, y)
}

/// A pixel has at most one nearest seed.
pub proof fn lemma_nearest_seed_unique(seeds: Seq<Point>, x: int, y: int, i: int, j: int)
    requires
        is_nearest_seed(seeds, x, y, i),
        is_nearest_seed(seeds, x, y, j),
    ensures
        i == j,
{
    if i < j {
        assert(distance_to(seeds[j], x, y) < distance_to(seeds[i], x, y));
        assert(distance_to(seeds[i], x, y) <= distance_to(seeds[j], x, y));
    } else if j < i {
        assert(distance_to(seeds[i], x, y) < distance_to(seeds[j], x, y));
        assert(distance_to(seeds[j], x, y) <= distance_to(seeds[i], x, y));
    }
}

/// Where there is a seed, a pixel has a nearest seed; the index returned is
/// it.
proof fn lemma_nearest_seed_exists(seeds: Seq<Point>, x: int, y: int) -> (i: int)
    requires
        seeds.len() > 0,
    ensures
        is_nearest_seed(seeds, x, y, i),
    decreases seeds.len(),
{
    if seeds.len() == 1 {
        0
    } else {
        let front = seeds.drop_last();
        let last = seeds.len() - 1;
        let j = lemma_nearest_seed_exists(front, x, y);
        assert(front[j] == seeds[j]);
        if distance_to(seeds[last], x, y) < distance_to(seeds[j], x, y) {
            assert forall|k: int| 0 <= k < seeds.len() implies distance_to(seeds[last], x, y)
                <= distance_to(#[trigger] seeds[k], x, y) by {
                if k < last {
                    assert(front[k] == seeds[k]);
                }
            }
            assert forall|k: int| 0 <= k < last implies distance_to(seeds[last], x, y)
                < distance_to(#[trigger] seeds[k], x, y) by {
                assert(front[k] == seeds[k]);
            }
            last
        } else {
            assert forall|k: int| 0 <= k < seeds.len() implies distance_to(seeds[j], x, y)
                <= distance_to(#[trigger] seeds[k], x, y) by {
                if k < last {
                    assert(front[k] == seeds[k]);
                }
            }
            assert forall|k: int| 0 <= k < j implies distance_to(seeds[j], x, y) < distance_to(
                #[trigger] seeds[k],
                x,
                y,
            ) by {
                assert(front[k] == seeds[k]);
            }
            j
        }
    }
}

/// Where there is a seed, `nearest_seed` is the smallest index among the
/// seeds at the smallest squared distance from the pixel.
pub proof fn lemma_nearest_seed(seeds: Seq<Point>, x: int, y: int)
    requires
        seeds.len() > 0,
    ensures
        is_nearest_seed(seeds, x, y, nearest_seed(seeds, x, y)),
{
    let found = lemma_nearest_seed_exists(seeds, x, y);
    lemma_nearest_seed_unique(seeds, x, y, found, nearest_seed(seeds, x, y));
}

/// Ties go to the lower index: a seed that is as far from the pixel as a
/// seed before it is never the nearest seed. Where no seed is closer than
/// the two, the nearest seed is the earlier of them, or a seed before it at
/// that same distance.
pub proof fn lemma_tie_goes_to_lower_index(seeds: Seq<Point>, x: int, y: int, i: int, j: int)
    requires
        0 <= i < j < seeds.len(),
        distance_to(seeds[i], x, y) == distance_to(seeds[j], x, y),
    ensures
        nearest_seed(seeds, x, y) != j,
        (forall|k: int|
            0 <= k < seeds.len() ==> distance_to(seeds[i], x, y) <= distance_to(
                #[trigger] seeds[k],
                x,
                y,
            )) ==> {
            &&& nearest_seed(seeds, x, y) <= i
            &&& distance_to(seeds[nearest_seed(seeds, x, y)], x, y) == distance_to(
                seeds[i],
                x,
                y,
            )
        },
{
    lemma_nearest_seed(seeds, x, y);
    let n = nearest_seed(seeds, x, y);
    if n == j {
        assert(distance_to(seeds[j], x, y) < distance_to(seeds[i], x, y));
    }
    if forall|k: int|
        0 <= k < seeds.len() ==> distance_to(seeds[i], x, y) <= distance_to(
            #[trigger] seeds[k],
            x,
            y,
        ) {
        assert(distance_to(seeds[i], x, y) <= distance_to(seeds[n], x, y));
        assert(distance_to(seeds[n], x, y) <= distance_to(seeds[i], x, y));
        if n > i {
            assert(distance_to(seeds[n], x, y) < distance_to(seeds[i], x, y));
        }
    }
}

/// The diagram depends on the seeds, the palette and the size of the grid
/// alone: two grids of one size that both hold the diagram are the same
/// grid. So the pass yields the same image whatever the grid held before,
/// and running it a second time changes nothing.
pub proof fn lemma_voronoi_pass_idempotent(
    first: Grid,
    second: Grid,
    seeds: Seq<Point>,
    palette: Seq<Color>,
)
    requires
        first.width == second.width,
        first.height == second.height,
        is_voronoi(first, seeds, palette),
        is_voronoi(second, seeds, palette),
    ensures
        first == second,
{
    assert forall|x: int, y: int| first.contains(x, y) implies #[trigger] first.at(x, y)
        == second.at(x, y) by {
        assert(second.contains(x, y));
        assert(second.at(x, y) == voronoi_color(seeds, palette, x, y));
    }
    first.lemma_equal(second);
}

/// Finds the nearest seed of the pixel `(x, y)`: the first seed, in index
/// order, at the smallest squared distance. Without seeds the answer is 0.
pub fn nearest_seed_index(seeds: &Vec<Point>, x: usize, y: usize) -> (nearest: usize)
    requires
        forall|i: int|
            0 <= i < seeds@.len() ==> distance_to(#[trigger] seeds@[i], x as int, y as int)
                <= u128::MAX,
    ensures
        nearest == nearest_seed(seeds@, x as int, y as int),
{
    let count: usize = seeds.len();
    let mut j: usize = 0;
    if count == 0 {
        return j;
    }
    let mut i: usize = 1;
    while i < count
        invariant
            count == seeds@.len(),
            1 <= i <= count,
            j < i,
            forall|k: int|
                0 <= k < seeds@.len() ==> distance_to(#[trigger] seeds@[k], x as int, y as int)
                    <= u128::MAX,
            forall|k: int|
                0 <= k < i ==> distance_to(seeds@[j as int], x as int, y as int) <= distance_to(
                    #[trigger] seeds@[k],
                    x as int,
                    y as int,
                ),
            forall|k: int|
                0 <= k < j ==> distance_to(seeds@[j as int], x as int, y as int) < distance_to(
                    #[trigger] seeds@[k],
                    x as int,
                    y as int,
                ),
        decreases count - i,
    {
        let candidate: Point = seeds[i];
        let best: Point = seeds[j];
        if sqr_dst(candidate.x, candidate.y, x, y) < sqr_dst(best.x, best.y, x, y) {
            j = i;
        }
        i = i + 1;
    }
    proof {
        assert(is_nearest_seed(seeds@, x as int, y as int, j as int));
        lemma_nearest_seed(seeds@, x as int, y as int);
        lemma_nearest_seed_unique(
            seeds@,
            x as int,
            y as int,
            j as int,
            nearest_seed(seeds@, x as int, y as int),
        );
    }
    j
}

/// Paints the Voronoi diagram of the seeds over the whole image: every pixel
/// takes the palette colour of its nearest seed, whatever it held before.
///
/// Seed `i` is painted in palette entry `i` modulo the size of the palette.
/// With no seeds every pixel takes the first palette colour.
pub fn render_varonoi(image: &mut Image, seeds: &Vec<Point>, palette: &Vec<Color>)
    requires
        old(image).wf(),
        palette@.len() > 0,
        all_within(seeds@, old(image)@.width as int, old(image)@.height as int),
    ensures
        final(image).wf(),
        final(image)@.width == old(image)@.width,
        final(image)@.height == old(image)@.height,
        is_voronoi(final(image)@, seeds@, palette@),
{
    let width: usize = image.width();
    let height: usize = image.height();
    let shades: usize = palette.len();
    proof {
        image.lemma_pixel_count_fits();
    }
    let mut y: usize = 0;
    while y < height
        invariant
            image.wf(),
            image@.width == width,
            image@.height == height,
            width * height <= usize::MAX,
            shades == palette@.len(),
            shades > 0,
            all_within(seeds@, width as int, height as int),
            y <= height,
            forall|px: int, py: int|
                image@.contains(px, py) && py < y ==> #[trigger] image@.at(px, py)
                    == voronoi_color(seeds@, palette@, px, py),
        decreases height - y,
    {
        let mut x: usize = 0;
        while x < width
            invariant
                image.wf(),
                image@.width == width,
                image@.height == height,
                width * height <= usize::MAX,
                shades == palette@.len(),
                shades > 0,
                all_within(seeds@, width as int, height as int),
                y < height,
                x <= width,
                forall|px: int, py: int|
                    image@.contains(px, py) && (py < y || (py == y && px < x))
                        ==> #[trigger] image@.at(px, py) == voronoi_color(
                        seeds@,
                        palette@,
                        px,
                        py,
                    ),
            decreases width - x,
        {
            proof {
                assert forall|i: int| 0 <= i < seeds@.len() implies distance_to(
                    #[trigger] seeds@[i],
                    x as int,
                    y as int,
                ) <= u128::MAX by {
                    assert(seeds@[i].within(width as int, height as int));
                    lemma_distance_on_grid_fits(
                        width as int,
                        height as int,
                        seeds@[i].x as int,
                        seeds@[i].y as int,
                        x as int,
                        y as int,
                    );
                }
            }
            let j: usize = nearest_seed_index(seeds, x, y);
            let shade: Color = palette[j % shades];
            let ghost before = image@;
            image.set(x, y, shade.rgb());
            proof {
                before.lemma_put(x as int, y as int, shade.value());
            }
            x = x + 1;
        }
        y = y + 1;
    }
}

} // verus!
