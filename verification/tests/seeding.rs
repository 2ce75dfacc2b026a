use voronoi::color::Color;
use voronoi::diagram::{render, render_with_seeds, Config};
use voronoi::geometry::Point;
use voronoi::image::Image;
use voronoi::seeds::{generate_random_seeds, RandomSource, SequenceSource, ThreadSource};

#[test]
fn a_sequence_hands_out_its_numbers_in_turn() {
    let mut source: SequenceSource = SequenceSource::new(vec![5, 17, 3]);
    assert_eq!(source.below(10), 5);
    assert_eq!(source.below(10), 7);
    assert_eq!(source.below(10), 3);
    assert_eq!(source.below(10), 5);
    assert_eq!(source.below(4), 1);
    assert_eq!(source.below(1), 0);
}

#[test]
fn an_empty_sequence_hands_out_zero() {
    let mut source: SequenceSource = SequenceSource::new(Vec::new());
    assert_eq!(source.below(10), 0);
    assert_eq!(source.below(1), 0);
}

#[test]
fn seeds_take_a_column_then_a_row_from_the_source() {
    let mut source: SequenceSource = SequenceSource::new(vec![1, 2, 30, 41, 5, 6]);
    let seeds: Vec<Point> = generate_random_seeds(&mut source, 4, 10, 20);
    assert_eq!(
        seeds,
        vec![
            Point { x: 1, y: 2 },
            Point { x: 0, y: 1 },
            Point { x: 5, y: 6 },
            Point { x: 1, y: 2 },
        ]
    );
}

#[test]
fn random_seeds_lie_on_the_grid() {
    let mut source: ThreadSource = ThreadSource::new();
    let seeds: Vec<Point> = generate_random_seeds(&mut source, 500, 7, 3);
    assert_eq!(seeds.len(), 500);
    let mut i: usize = 0;
    while i < seeds.len() {
        assert!(seeds[i].x < 7);
        assert!(seeds[i].y < 3);
        assert!(seeds[i].is_within(7, 3));
        i += 1;
    }
}

#[test]
fn random_seeds_on_a_single_pixel_all_fall_on_it() {
    let mut source: ThreadSource = ThreadSource::new();
    let seeds: Vec<Point> = generate_random_seeds(&mut source, 20, 1, 1);
    assert_eq!(seeds.len(), 20);
    let mut i: usize = 0;
    while i < seeds.len() {
        assert_eq!(seeds[i], Point { x: 0, y: 0 });
        i += 1;
    }
}

#[test]
fn random_numbers_reach_every_value_below_the_bound() {
    let mut source: ThreadSource = ThreadSource::new();
    let mut seen: [bool; 4] = [false; 4];
    let mut i: usize = 0;
    while i < 2000 {
        let drawn: usize = source.below(4);
        assert!(drawn < 4);
        seen[drawn] = true;
        i += 1;
    }
    assert!(seen[0] && seen[1] && seen[2] && seen[3]);
}

#[test]
fn no_seeds_are_placed_when_none_are_asked_for() {
    let mut source: ThreadSource = ThreadSource::new();
    let seeds: Vec<Point> = generate_random_seeds(&mut source, 0, 0, 0);
    assert_eq!(seeds.len(), 0);
}

#[test]
fn the_default_configuration_holds_the_documented_values() {
    let config: Config = Config::default();
    assert_eq!(config.width, 800);
    assert_eq!(config.height, 800);
    assert_eq!(config.seed_count, 10);
    assert_eq!(config.marker_radius, 10);
    assert_eq!(config.marker_color, Color::Black);
    assert_eq!(config.marker_color.rgb(), 0x000000);
    assert_eq!(config.background_color, Color::Background);
    assert_eq!(config.background_color.rgb(), 0x181818);
    assert_eq!(
        config.palette,
        vec![
            Color::GruvboxBrightRed,
            Color::GruvboxBrightGreen,
            Color::GruvboxBrightYellow,
            Color::GruvboxBrightBlue,
            Color::GruvboxBrightPurple,
            Color::GruvboxBrightAqua,
            Color::GruvboxBrightOrange,
        ]
    );
    assert!(config.is_valid());
}

#[test]
fn a_configuration_without_palette_or_room_is_not_valid() {
    let mut config: Config = Config::default();
    config.palette = Vec::new();
    assert!(!config.is_valid());

    let mut config: Config = Config::default();
    config.width = usize::MAX;
    config.height = 2;
    assert!(!config.is_valid());

    let mut config: Config = Config::default();
    config.width = 0;
    assert!(!config.is_valid());
    config.seed_count = 0;
    assert!(config.is_valid());
}

fn small_config() -> Config {
    Config {
        width: 16,
        height: 12,
        seed_count: 3,
        marker_radius: 2,
        marker_color: Color::Black,
        background_color: Color::Background,
        palette: vec![Color::Red, Color::Green],
    }
}

#[test]
fn the_pipeline_paints_regions_and_then_markers() {
    let config: Config = small_config();
    let seeds: Vec<Point> = vec![Point { x: 2, y: 2 }, Point { x: 13, y: 9 }, Point { x: 2, y: 10 }];
    let image: Image = render_with_seeds(&config, &seeds);
    assert_eq!(image.width(), 16);
    assert_eq!(image.height(), 12);
    assert_eq!(image.get(2, 2), 0x000000);
    assert_eq!(image.get(13, 9), 0x000000);
    assert_eq!(image.get(2, 10), 0x000000);
    assert_eq!(image.get(1, 2), 0x000000);
    assert_eq!(image.get(4, 2), 0xFF0000);
    assert_eq!(image.get(5, 0), 0xFF0000);
    assert_eq!(image.get(15, 11), 0x00FF00);
    assert_eq!(image.get(10, 9), 0x00FF00);
    assert_eq!(image.get(5, 11), 0xFF0000);
    assert_eq!(image.get(0, 6), 0xFF0000);
    assert_eq!(image.get(0, 7), 0xFF0000);
}

#[test]
fn the_pipeline_with_a_fixed_source_is_repeatable() {
    let config: Config = small_config();
    let mut first: SequenceSource = SequenceSource::new(vec![2, 2, 13, 9, 2, 10]);
    let mut second: SequenceSource = SequenceSource::new(vec![2, 2, 13, 9, 2, 10]);
    let a: Image = render(&config, &mut first);
    let b: Image = render(&config, &mut second);
    let seeds: Vec<Point> = vec![Point { x: 2, y: 2 }, Point { x: 13, y: 9 }, Point { x: 2, y: 10 }];
    let c: Image = render_with_seeds(&config, &seeds);
    let mut y: usize = 0;
    while y < 12 {
        let mut x: usize = 0;
        while x < 16 {
            assert_eq!(a.get(x, y), b.get(x, y));
            assert_eq!(a.get(x, y), c.get(x, y));
            x += 1;
        }
        y += 1;
    }
}

#[test]
fn the_pipeline_with_the_system_source_marks_some_pixel_of_a_region() {
    let config: Config = small_config();
    let mut source: ThreadSource = ThreadSource::new();
    let image: Image = render(&config, &mut source);
    assert_eq!(image.width(), 16);
    assert_eq!(image.height(), 12);
    let mut black: usize = 0;
    let mut y: usize = 0;
    while y < 12 {
        let mut x: usize = 0;
        while x < 16 {
            let c: u32 = image.get(x, y);
            assert!(c == 0x000000 || c == 0xFF0000 || c == 0x00FF00);
            if c == 0 {
                black += 1;
            }
            x += 1;
        }
        y += 1;
    }
    assert!(black >= 1);
}
