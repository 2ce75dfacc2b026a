//! The pixel grid: a fixed-size, row-major array of packed colours.

use vstd::prelude::*;
use crate::color::Color;

verus! {

/// The mathematical value of an image: its size and its pixels, row after
/// row.
pub struct Grid {
    pub width: nat,
    pub height: nat,
    pub pixels: Seq<u32>,
}

impl Grid {
    /// The grid holds exactly one pixel for every position.
    pub open spec fn wf(self) -> bool {
        self.pixels.len() == self.width * self.height
    }

    /// Whether `(x, y)` is a position of the grid.
    pub open spec fn contains(self, x: int, y: int) -> bool {
        0 <= x < self.width && 0 <= y < self.height
    }

    /// The pixel in column `x` of row `y`.
    pub open spec fn at(self, x: int, y: int) -> u32 {
        self.pixels[y * self.width + x]
    }

    /// The grid with the pixel at `(x, y)` replaced by `c`.
    pub open spec fn put(self, x: int, y: int, c: u32) -> Grid {
        Grid { width: self.width, height: self.height, pixels: self.pixels.update(y * self.width + x, c) }
    }

    /// The grid of the given size whose pixels all hold `c`.
    pub open spec fn filled(width: nat, height: nat, c: u32) -> Grid {
        Grid { width, height, pixels: Seq::new(width * height, |k: int| c) }
    }

    /// A position of the grid has a place in the pixel sequence.
    pub proof fn lemma_position_index(self, x: int, y: int)
        requires
            self.wf(),
            self.contains(x, y),
        ensures
            0 <= y * self.width + x < self.pixels.len(),
    {
        let w = self.width as int;
        let h = self.height as int;
        assert(0 <= y * w && y * w + w <= h * w) by (nonlinear_arith)
            requires
                0 <= y < h,
                0 <= w,
        ;
        assert(h * w == w * h) by (nonlinear_arith);
    }

    /// Two positions of the grid share a place in the pixel sequence only if
    /// they are the same position.
    pub proof fn lemma_position_unique(self, x1: int, y1: int, x2: int, y2: int)
        requires
            self.contains(x1, y1),
            self.contains(x2, y2),
            y1 * self.width + x1 == y2 * self.width + x2,
        ensures
            x1 == x2,
            y1 == y2,
    {
        let w = self.width as int;
        assert(y1 == y2) by (nonlinear_arith)
            requires
                0 <= x1 < w,
                0 <= x2 < w,
                y1 * w + x1 == y2 * w + x2,
        {
            if y1 < y2 {
                assert((y2 - y1) * w >= w);
            } else if y2 < y1 {
                assert((y1 - y2) * w >= w);
            }
        }
    }

    /// Writing one pixel changes that pixel and no other.
    pub proof fn lemma_put(self, x: int, y: int, c: u32)
        requires
            self.wf(),
            self.contains(x, y),
        ensures
            self.put(x, y, c).wf(),
            self.put(x, y, c).width == self.width,
            self.put(x, y, c).height == self.height,
            self.put(x, y, c).at(x, y) == c,
            forall|x2: int, y2: int|
                self.contains(x2, y2) && (x2 != x || y2 != y) ==> #[trigger] self.put(x, y, c).at(
                    x2,
                    y2,
                ) == self.at(x2, y2),
    {
        self.lemma_position_index(x, y);
        assert forall|x2: int, y2: int|
            self.contains(x2, y2) && (x2 != x || y2 != y) implies #[trigger] self.put(x, y, c).at(
            x2,
            y2,
        ) == self.at(x2, y2) by {
            self.lemma_position_index(x2, y2);
            if y2 * self.width + x2 == y * self.width + x {
                self.lemma_position_unique(x, y, x2, y2);
            }
        }
    }

    /// Every pixel of a filled grid holds the fill colour.
    pub proof fn lemma_filled(width: nat, height: nat, c: u32)
        ensures
            Grid::filled(width, height, c).wf(),
            forall|x: int, y: int|
                Grid::filled(width, height, c).contains(x, y) ==> #[trigger] Grid::filled(
                    width,
                    height,
                    c,
                ).at(x, y) == c,
    {
        let g = Grid::filled(width, height, c);
        assert forall|x: int, y: int| g.contains(x, y) implies #[trigger] g.at(x, y) == c by {
            g.lemma_position_index(x, y);
        }
    }

    /// Two grids of one size that agree at every position are the same grid.
    pub proof fn lemma_equal(self, other: Grid)
        requires
            self.wf(),
            other.wf(),
            self.width == other.width,
            self.height == other.height,
            forall|x: int, y: int|
                self.contains(x, y) ==> #[trigger] self.at(x, y) == other.at(x, y),
        ensures
            self == other,
    {
        let w = self.width as int;
        assert forall|k: int| 0 <= k < self.pixels.len() implies self.pixels[k]
            == other.pixels[k] by {
            assert(w > 0) by (nonlinear_arith)
                requires
                    0 <= k < w * self.height,
                    0 <= w,
            ;
            let x = k % w;
            let y = k / w;
            vstd::arithmetic::div_mod::lemma_fundamental_div_mod(k, w);
            assert(w * y + x == y * w + x) by (nonlinear_arith);
            assert(0 <= y < self.height) by (nonlinear_arith)
                requires
                    0 <= k < w * self.height,
                    k == w * y + x,
                    0 <= x < w,
            ;
            assert(self.at(x, y) == other.at(x, y));
        }
        assert(self.pixels =~= other.pixels);
    }
}

/// A `width` by `height` grid of packed colours, stored row after row. Its
/// size is fixed when it is made.
pub struct Image {
    width: usize,
    height: usize,
    pixels: Vec<u32>,
}

impl View for Image {
    type V = Grid;

    closed spec fn view(&self) -> Grid {
        Grid { width: self.width as nat, height: self.height as nat, pixels: self.pixels@ }
    }
}

impl Image {
    /// The image holds exactly one pixel for every position.
    pub open spec fn wf(&self) -> bool {
        self@.wf()
    }

    /// The pixels of an image are counted by a machine word.
    pub proof fn lemma_pixel_count_fits(&self)
        requires
            self.wf(),
        ensures
            self@.width * self@.height <= usize::MAX,
    {
        assert(self.pixels@.len() == self.pixels.len());
    }

    /// Makes a `width` by `height` image whose pixels all hold `background`.
    pub fn new(width: usize, height: usize, background: u32) -> (image: Image)
        requires
            width * height <= usize::MAX,
        ensures
            image.wf(),
            image@ == Grid::filled(width as nat, height as nat, background),
            forall|x: int, y: int|
                image@.contains(x, y) ==> #[trigger] image@.at(x, y) == background,
    {
        let count: usize = width * height;
        let mut pixels: Vec<u32> = Vec::new();
        let mut k: usize = 0;
        while k < count
            invariant
                k <= count,
                pixels@.len() == k,
                forall|i: int| 0 <= i < k ==> pixels@[i] == background,
            decreases count - k,
        {
            pixels.push(background);
            k = k + 1;
        }
        let image = Image { width, height, pixels };
        proof {
            assert(image@.pixels =~= Grid::filled(
                width as nat,
                height as nat,
                background,
            ).pixels);
            Grid::lemma_filled(width as nat, height as nat, background);
        }
        image
    }

    /// The number of columns.
    pub fn width(&self) -> (w: usize)
        ensures
            w == self@.width,
    {
        self.width
    }

    /// The number of rows.
    pub fn height(&self) -> (h: usize)
        ensures
            h == self@.height,
    {
        self.height
    }

    /// Reads the pixel in column `x` of row `y`.
    pub fn get(&self, x: usize, y: usize) -> (c: u32)
        requires
            self.wf(),
            self@.contains(x as int, y as int),
        ensures
            c == self@.at(x as int, y as int),
    {
        proof {
            self@.lemma_position_index(x as int, y as int);
            assert(self.pixels@.len() == self.pixels.len());
            assert(0 <= y * self.width) by (nonlinear_arith)
                requires
                    0 <= y,
                    0 <= self.width,
            ;
        }
        self.pixels[y * self.width + x]
    }

    /// Writes `c` to the pixel in column `x` of row `y`; every other pixel
    /// and the size stay as they are.
    pub fn set(&mut self, x: usize, y: usize, c: u32)
        requires
            old(self).wf(),
            old(self)@.contains(x as int, y as int),
        ensures
            final(self).wf(),
            final(self)@ == old(self)@.put(x as int, y as int, c),
    {
        proof {
            self@.lemma_position_index(x as int, y as int);
            assert(self.pixels@.len() == self.pixels.len());
            assert(0 <= y * self.width) by (nonlinear_arith)
                requires
                    0 <= y,
                    0 <= self.width,
            ;
        }
        let k: usize = y * self.width + x;
        self.pixels.set(k, c);
    }
}

/// Paints every pixel of the image with `color`.
pub fn fill_image(image: &mut Image, color: Color)
    requires
        old(image).wf(),
    ensures
        final(image).wf(),
        final(image)@ == Grid::filled(old(image)@.width, old(image)@.height, color.value()),
        forall|x: int, y: int|
            final(image)@.contains(x, y) ==> #[trigger] final(image)@.at(x, y) == color.value(),
{
    let packed: u32 = color.rgb();
    let count: usize = image.pixels.len();
    let mut k: usize = 0;
    while k < count
        invariant
            k <= count,
            image.pixels@.len() == count,
            image.width == old(image).width,
            image.height == old(image).height,
            forall|i: int| 0 <= i < k ==> image.pixels@[i] == packed,
        decreases count - k,
    {
        image.pixels.set(k, packed);
        k = k + 1;
    }
    proof {
        assert(image@.pixels =~= Grid::filled(
            old(image)@.width,
            old(image)@.height,
            color.value(),
        ).pixels);
        Grid::lemma_filled(old(image)@.width, old(image)@.height, color.value());
    }
}

} // verus!
