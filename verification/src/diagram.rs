//! The configuration of a render and the whole pipeline: background, Voronoi
//! pass, seed markers.

use vstd::prelude::*;
use crate::color::Color;
use crate::geometry::{all_within, Point};
use crate::image::{Grid, Image};
use crate::marker::{marked, render_seed_markers};
use crate::seeds::{generate_random_seeds, RandomSource};
use crate::voronoi::{render_varonoi, voronoi_color};

verus! {

/// What a render is made from. The default is an 800 by 800 image with 10
/// seeds, black markers of radius 10, the dark background `0x181818` and the
/// seven bright Gruvbox colours as palette.
pub struct Config {
    /// The number of columns of the image.
    pub width: usize,
    /// The number of rows of the image.
    pub height: usize,
    /// The number of seeds that are placed at random.
    pub seed_count: usize,
    /// The radius of the marker stamped on each seed.
    pub marker_radius: usize,
    /// The colour of the markers.
    pub marker_color: Color,
    /// The colour that the image holds before anything is painted.
    pub background_color: Color,
    /// The colours of the regions: seed `i` takes entry `i` modulo the size
    /// of the palette.
    pub palette: Vec<Color>,
}

impl Config {
    /// Whether an image can be rendered from the configuration: its pixels
    /// are counted by a machine word, the palette holds a colour, and seeds
    /// are asked for only where there is a pixel to place them on.
    pub open spec fn wf(&self) -> bool {
        &&& self.width * self.height <= usize::MAX
        &&& self.palette@.len() > 0
        &&& self.seed_count > 0 ==> self.width > 0 && self.height > 0
    }

    /// Tells whether an image can be rendered from the configuration.
    pub fn is_valid(&self) -> (valid: bool)
        ensures
            valid == self.wf(),
    {
        let fits: bool = match self.width.checked_mul(self.height) {
            Some(_) => true,
            None => false,
        };
        fits && self.palette.len() > 0 && (self.seed_count == 0 || (self.width > 0
            && self.height > 0))
    }
}

impl Default for Config {
    fn default() -> (config: Config)
        ensures
            config.wf(),
            config.width == 800,
            config.height == 800,
            config.seed_count == 10,
            config.marker_radius == 10,
            config.marker_color == Color::Black,
            config.background_color == Color::Background,
            config.palette@ == seq![
                Color::GruvboxBrightRed,
                Color::GruvboxBrightGreen,
                Color::GruvboxBrightYellow,
                Color::GruvboxBrightBlue,
                Color::GruvboxBrightPurple,
                Color::GruvboxBrightAqua,
                Color::GruvboxBrightOrange,
            ],
    {
        let mut palette: Vec<Color> = Vec::new();
        palette.push(Color::GruvboxBrightRed);
        palette.push(Color::GruvboxBrightGreen);
        palette.push(Color::GruvboxBrightYellow);
        palette.push(Color::GruvboxBrightBlue);
        palette.push(Color::GruvboxBrightPurple);
        palette.push(Color::GruvboxBrightAqua);
        palette.push(Color::GruvboxBrightOrange);
        assert(palette@ =~= seq![
            Color::GruvboxBrightRed,
            Color::GruvboxBrightGreen,
            Color::GruvboxBrightYellow,
            Color::GruvboxBrightBlue,
            Color::GruvboxBrightPurple,
            Color::GruvboxBrightAqua,
            Color::GruvboxBrightOrange,
        ]);
        Config {
            width: 800,
            height: 800,
            seed_count: 10,
            marker_radius: 10,
            marker_color: Color::Black,
            background_color: Color::Background,
            palette,
        }
    }
}

/// The colour of the pixel `(x, y)` in the finished image: the marker colour
/// where a marker covers the pixel, else the palette colour of its nearest
/// seed.
pub open spec fn diagram_color(config: Config, seeds: Seq<Point>, x: int, y: int) -> u32 {
    if marked(seeds, config.marker_radius as int, x, y) {
        config.marker_color.value()
    } else {
        voronoi_color(seeds, config.palette@, x, y)
    }
}

/// Whether the grid is the finished image of the configuration for the given
/// seeds.
pub open spec fn is_diagram(grid: Grid, config: Config, seeds: Seq<Point>) -> bool {
    &&& grid.wf()
    &&& grid.width == config.width
    &&& grid.height == config.height
    &&& forall|x: int, y: int|
        grid.contains(x, y) ==> #[trigger] grid.at(x, y) == diagram_color(config, seeds, x, y)
}

/// Renders the diagram of the given seeds: an image of the configured size is
/// filled with the background colour, painted by the Voronoi pass and stamped
/// with a marker on every seed.
pub fn render_with_seeds(config: &Config, seeds: &Vec<Point>) -> (image: Image)
    requires
        config.wf(),
        all_within(seeds@, config.width as int, config.height as int),
    ensures
        image.wf(),
        is_diagram(image@, *config, seeds@),
{
    let mut image: Image = Image::new(config.width, config.height, config.background_color.rgb());
    render_varonoi(&mut image, seeds, &config.palette);
    render_seed_markers(&mut image, seeds, config.marker_radius, config.marker_color);
    image
}

/// Renders a diagram of as many seeds as the configuration asks for, placed
/// with numbers drawn from `rng`.
///
/// Which image comes out depends on the numbers drawn: it is the diagram of
/// some seeds of the configured number that lie on the grid.
pub fn render<R: RandomSource>(config: &Config, rng: &mut R) -> (image: Image)
    requires
        config.wf(),
    ensures
        image.wf(),
        exists|seeds: Seq<Point>|
            {
                &&& seeds.len() == config.seed_count
                &&& all_within(seeds, config.width as int, config.height as int)
                &&& #[trigger] is_diagram(image@, *config, seeds)
            },
{
    let seeds: Vec<Point> = generate_random_seeds(rng, config.seed_count, config.width, config.height);
    let image: Image = render_with_seeds(config, &seeds);
    assert(is_diagram(image@, *config, seeds@));
    image
}

} // verus!
