use voronoi::color::Color;
use voronoi::geometry::Point;
use voronoi::image::Image;
use voronoi::marker::{fill_circle, render_seed_markers};

/// Whether a pixel belongs to a marker, computed the plain way.
fn belongs(cx: usize, cy: usize, radius: usize, x: usize, y: usize) -> bool {
    let (cx, cy, r): (u128, u128, u128) = (cx as u128, cy as u128, radius as u128);
    let (x, y): (u128, u128) = (x as u128, y as u128);
    let in_box: bool = cx <= x + r && x < cx + r && cy <= y + r && y < cy + r;
    let dx: u128 = if x >= cx { x - cx } else { cx - x };
    let dy: u128 = if y >= cy { y - cy } else { cy - y };
    let near: bool = match (dx * dx).checked_add(dy * dy) {
        Some(sum) => sum <= r * r,
        None => false,
    };
    in_box && near
}

fn check_marker(width: usize, height: usize, cx: usize, cy: usize, radius: usize) {
    let ground: u32 = 0x181818;
    let mut image: Image = Image::new(width, height, ground);
    fill_circle(cx, cy, radius, Color::White, &mut image);
    assert_eq!(image.width(), width);
    assert_eq!(image.height(), height);
    let mut y: usize = 0;
    while y < height {
        let mut x: usize = 0;
        while x < width {
            if belongs(cx, cy, radius, x, y) {
                assert_eq!(image.get(x, y), 0xFFFFFF);
            } else {
                assert_eq!(image.get(x, y), ground);
            }
            x += 1;
        }
        y += 1;
    }
}

#[test]
fn a_marker_inside_the_image_is_a_disc_in_its_box() {
    check_marker(12, 12, 5, 5, 3);
    check_marker(20, 15, 10, 7, 6);
}

#[test]
fn a_marker_of_radius_three_has_the_expected_pixels() {
    let mut image: Image = Image::new(9, 9, 0);
    fill_circle(4, 4, 3, Color::Red, &mut image);
    let rows: [&str; 9] = [
        ".........",
        "....#....",
        "..#####..",
        "..#####..",
        ".######..",
        "..#####..",
        "..#####..",
        ".........",
        ".........",
    ];
    let mut y: usize = 0;
    while y < 9 {
        let row: &[u8] = rows[y].as_bytes();
        let mut x: usize = 0;
        while x < 9 {
            let expected: u32 = if row[x] == 35 { 0xFF0000 } else { 0 };
            assert_eq!(image.get(x, y), expected);
            x += 1;
        }
        y += 1;
    }
}

#[test]
fn a_marker_near_the_low_edges_is_cut_off_at_zero() {
    check_marker(10, 10, 0, 0, 4);
    check_marker(10, 10, 1, 2, 5);
    check_marker(10, 10, 2, 0, 3);
}

#[test]
fn a_marker_near_the_high_edges_is_cut_off_at_the_size() {
    check_marker(10, 10, 9, 9, 4);
    check_marker(10, 8, 8, 7, 5);
    check_marker(6, 6, 3, 3, 50);
}

#[test]
fn a_marker_centred_outside_the_image_paints_what_reaches_in() {
    check_marker(8, 8, 10, 3, 4);
    check_marker(8, 8, 3, 12, 6);
    check_marker(8, 8, 100, 100, 5);
}

#[test]
fn a_marker_with_a_huge_centre_or_radius_does_not_wrap() {
    check_marker(5, 5, usize::MAX, usize::MAX, usize::MAX);
    check_marker(5, 5, usize::MAX, 2, 3);
    check_marker(5, 5, 2, 2, usize::MAX);
    check_marker(5, 5, 0, 0, usize::MAX);
}

#[test]
fn a_marker_of_radius_zero_paints_nothing() {
    check_marker(5, 5, 2, 2, 0);
}

#[test]
fn a_marker_of_radius_one_paints_its_centre_and_two_neighbours() {
    let mut image: Image = Image::new(5, 5, 0);
    fill_circle(2, 2, 1, Color::Blue, &mut image);
    let mut y: usize = 0;
    while y < 5 {
        let mut x: usize = 0;
        while x < 5 {
            let painted: bool = (x == 2 && y == 2) || (x == 1 && y == 2) || (x == 2 && y == 1);
            let expected: u32 = if painted { 0x0000FF } else { 0 };
            assert_eq!(image.get(x, y), expected);
            x += 1;
        }
        y += 1;
    }
}

#[test]
fn a_marker_on_an_empty_image_does_nothing() {
    let mut image: Image = Image::new(0, 0, 0);
    fill_circle(0, 0, 10, Color::Blue, &mut image);
    assert_eq!(image.width(), 0);
    assert_eq!(image.height(), 0);
}

#[test]
fn every_seed_centre_ends_up_in_the_marker_colour() {
    let seeds: Vec<Point> = vec![
        Point { x: 0, y: 0 },
        Point { x: 19, y: 14 },
        Point { x: 7, y: 3 },
        Point { x: 8, y: 3 },
        Point { x: 19, y: 0 },
    ];
    let mut radius: usize = 1;
    while radius < 6 {
        let mut image: Image = Image::new(20, 15, 0xFB4934);
        render_seed_markers(&mut image, &seeds, radius, Color::Black);
        let mut i: usize = 0;
        while i < seeds.len() {
            assert_eq!(image.get(seeds[i].x, seeds[i].y), 0x000000);
            i += 1;
        }
        radius += 1;
    }
}

#[test]
fn markers_paint_the_pixels_of_any_seed_and_no_others() {
    let seeds: Vec<Point> = vec![Point { x: 3, y: 3 }, Point { x: 5, y: 4 }, Point { x: 11, y: 0 }];
    let mut image: Image = Image::new(12, 9, 0xABCDEF);
    render_seed_markers(&mut image, &seeds, 3, Color::Black);
    let mut y: usize = 0;
    while y < 9 {
        let mut x: usize = 0;
        while x < 12 {
            let mut hit: bool = false;
            let mut i: usize = 0;
            while i < seeds.len() {
                hit = hit || belongs(seeds[i].x, seeds[i].y, 3, x, y);
                i += 1;
            }
            let expected: u32 = if hit { 0 } else { 0xABCDEF };
            assert_eq!(image.get(x, y), expected);
            x += 1;
        }
        y += 1;
    }
}

#[test]
fn markers_without_seeds_leave_the_image_alone() {
    let seeds: Vec<Point> = Vec::new();
    let mut image: Image = Image::new(3, 3, 5);
    render_seed_markers(&mut image, &seeds, 10, Color::Black);
    let mut y: usize = 0;
    while y < 3 {
        let mut x: usize = 0;
        while x < 3 {
            assert_eq!(image.get(x, y), 5);
            x += 1;
        }
        y += 1;
    }
}
