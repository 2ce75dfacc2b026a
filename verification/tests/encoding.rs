use voronoi::color::Color;
use voronoi::geometry::Point;
use voronoi::image::Image;
use voronoi::marker::render_seed_markers;
use voronoi::ppm::{channels, decode_header, encode_ppm, PpmHeader};
use voronoi::voronoi::render_varonoi;

fn bytes_of(text: &str) -> Vec<u8> {
    text.as_bytes().to_vec()
}

#[test]
fn a_packed_colour_splits_into_its_channels() {
    assert_eq!(channels(0xFB4934), (0xFB, 0x49, 0x34));
    assert_eq!(channels(0x000000), (0, 0, 0));
    assert_eq!(channels(0xFFFFFF), (255, 255, 255));
    assert_eq!(channels(0x0000FF), (0, 0, 255));
    assert_eq!(channels(0x00FF00), (0, 255, 0));
    assert_eq!(channels(0xFF0000), (255, 0, 0));
}

#[test]
fn bits_above_the_red_channel_are_cut_off() {
    assert_eq!(channels(0xAB123456), (0x12, 0x34, 0x56));
    assert_eq!(channels(0xFF000000), (0, 0, 0));
}

#[test]
fn the_header_declares_size_and_largest_value() {
    let image: Image = Image::new(800, 600, 0);
    let bytes: Vec<u8> = encode_ppm(&image);
    let header: Vec<u8> = bytes_of("P6\n800 600\n255\n");
    assert_eq!(bytes[..header.len()].to_vec(), header);
    assert_eq!(bytes.len(), header.len() + 3 * 800 * 600);
}

#[test]
fn the_pixels_follow_the_header_row_after_row() {
    let mut image: Image = Image::new(3, 2, 0);
    image.set(0, 0, 0x010203);
    image.set(1, 0, 0x040506);
    image.set(2, 0, 0x070809);
    image.set(0, 1, 0x0A0B0C);
    image.set(1, 1, 0x0D0E0F);
    image.set(2, 1, 0x101112);
    let bytes: Vec<u8> = encode_ppm(&image);
    let mut expected: Vec<u8> = bytes_of("P6\n3 2\n255\n");
    let mut b: u8 = 1;
    while b <= 18 {
        expected.push(b);
        b += 1;
    }
    assert_eq!(bytes, expected);
}

#[test]
fn an_empty_image_encodes_to_its_header() {
    let image: Image = Image::new(0, 0, 0);
    assert_eq!(encode_ppm(&image), bytes_of("P6\n0 0\n255\n"));
    let flat: Image = Image::new(12, 0, 0);
    assert_eq!(encode_ppm(&flat), bytes_of("P6\n12 0\n255\n"));
}

#[test]
fn sizes_of_many_digits_are_written_in_full() {
    let image: Image = Image::new(1, 1234567, 0);
    let bytes: Vec<u8> = encode_ppm(&image);
    let header: Vec<u8> = bytes_of("P6\n1 1234567\n255\n");
    assert_eq!(bytes[..header.len()].to_vec(), header);
    let wide: Image = Image::new(1000, 10, 0);
    let bytes: Vec<u8> = encode_ppm(&wide);
    let header: Vec<u8> = bytes_of("P6\n1000 10\n255\n");
    assert_eq!(bytes[..header.len()].to_vec(), header);
}

#[test]
fn decoding_an_encoded_image_recovers_its_size() {
    let sizes: [(usize, usize); 8] =
        [(0, 0), (1, 1), (4, 4), (9, 10), (10, 9), (100, 7), (800, 800), (1, 1000)];
    let mut i: usize = 0;
    while i < sizes.len() {
        let (width, height) = sizes[i];
        let image: Image = Image::new(width, height, 0x181818);
        let bytes: Vec<u8> = encode_ppm(&image);
        let header: PpmHeader = match decode_header(&bytes) {
            Some(h) => h,
            None => panic!("no header"),
        };
        assert_eq!(header.width, width);
        assert_eq!(header.height, height);
        assert_eq!(bytes.len() - header.data_start, 3 * width * height);
        i += 1;
    }
}

#[test]
fn a_header_is_read_from_plain_bytes() {
    let bytes: Vec<u8> = bytes_of("P6\n800 600\n255\nxyz");
    assert_eq!(decode_header(&bytes), Some(PpmHeader { width: 800, height: 600, data_start: 15 }));
    let bare: Vec<u8> = bytes_of("P6\n7 0\n255\n");
    assert_eq!(decode_header(&bare), Some(PpmHeader { width: 7, height: 0, data_start: 11 }));
}

#[test]
fn pixel_data_that_starts_with_a_digit_is_not_part_of_the_header() {
    let bytes: Vec<u8> = bytes_of("P6\n2 1\n255\n123456");
    assert_eq!(decode_header(&bytes), Some(PpmHeader { width: 2, height: 1, data_start: 11 }));
}

#[test]
fn bytes_without_the_magic_line_have_no_header() {
    assert_eq!(decode_header(&Vec::new()), None);
    assert_eq!(decode_header(&bytes_of("P6")), None);
    assert_eq!(decode_header(&bytes_of("P5\n8 8\n255\n")), None);
    assert_eq!(decode_header(&bytes_of("p6\n8 8\n255\n")), None);
    assert_eq!(decode_header(&bytes_of("P6 8 8\n255\n")), None);
}

#[test]
fn a_size_that_is_not_a_plain_number_is_no_header() {
    assert_eq!(decode_header(&bytes_of("P6\n 8\n255\n")), None);
    assert_eq!(decode_header(&bytes_of("P6\n8 \n255\n")), None);
    assert_eq!(decode_header(&bytes_of("P6\n08 8\n255\n")), None);
    assert_eq!(decode_header(&bytes_of("P6\n8 008\n255\n")), None);
    assert_eq!(decode_header(&bytes_of("P6\n-8 8\n255\n")), None);
    assert_eq!(decode_header(&bytes_of("P6\n8x8\n255\n")), None);
    assert_eq!(decode_header(&bytes_of("P6\n8  8\n255\n")), None);
    assert_eq!(decode_header(&bytes_of("P6\n8\n8\n255\n")), None);
    assert_eq!(decode_header(&bytes_of("P6\n8")), None);
    assert_eq!(decode_header(&bytes_of("P6\n8 8")), None);
}

#[test]
fn a_size_too_large_for_a_machine_word_is_no_header() {
    assert_eq!(decode_header(&bytes_of("P6\n340282366920938463463374607431768211456 1\n255\n")), None);
    assert_eq!(decode_header(&bytes_of("P6\n1 340282366920938463463374607431768211456\n255\n")), None);
    let largest: String = format!("P6\n{} {}\n255\n", usize::MAX, usize::MAX);
    assert_eq!(
        decode_header(&bytes_of(&largest)),
        Some(PpmHeader { width: usize::MAX, height: usize::MAX, data_start: largest.len() })
    );
}

#[test]
fn a_wrong_or_short_last_line_is_no_header() {
    assert_eq!(decode_header(&bytes_of("P6\n8 8\n255")), None);
    assert_eq!(decode_header(&bytes_of("P6\n8 8\n")), None);
    assert_eq!(decode_header(&bytes_of("P6\n8 8\n254\n")), None);
    assert_eq!(decode_header(&bytes_of("P6\n8 8 255\n")), None);
    assert_eq!(decode_header(&bytes_of("P6\n8 8\n2555\n")), None);
    assert_eq!(decode_header(&bytes_of("P6\n8 8\n255 ")), None);
}

#[test]
fn one_seed_in_the_corner_of_a_four_by_four_image() {
    let seeds: Vec<Point> = vec![Point { x: 0, y: 0 }];
    let palette: Vec<Color> = vec![Color::GruvboxBrightRed, Color::GruvboxBrightGreen];
    let mut image: Image = Image::new(4, 4, Color::Background.rgb());
    render_varonoi(&mut image, &seeds, &palette);
    let mut y: usize = 0;
    while y < 4 {
        let mut x: usize = 0;
        while x < 4 {
            assert_eq!(image.get(x, y), 0xFB4934);
            x += 1;
        }
        y += 1;
    }
    let before: Vec<u8> = encode_ppm(&image);
    let header: Vec<u8> = bytes_of("P6\n4 4\n255\n");
    assert_eq!(before.len() - header.len(), 48);
    let mut k: usize = 0;
    while k < 16 {
        assert_eq!(before[header.len() + 3 * k], 0xFB);
        assert_eq!(before[header.len() + 3 * k + 1], 0x49);
        assert_eq!(before[header.len() + 3 * k + 2], 0x34);
        k += 1;
    }

    render_seed_markers(&mut image, &seeds, 1, Color::Black);
    assert_eq!(image.get(0, 0), 0x000000);
    y = 0;
    while y < 4 {
        let mut x: usize = 0;
        while x < 4 {
            if x != 0 || y != 0 {
                assert_eq!(image.get(x, y), 0xFB4934);
            }
            x += 1;
        }
        y += 1;
    }
    let after: Vec<u8> = encode_ppm(&image);
    assert_eq!(after.len() - header.len(), 48);
    assert_eq!(after[..header.len()].to_vec(), header);
    assert_eq!(after[header.len()..header.len() + 3].to_vec(), vec![0u8, 0u8, 0u8]);
    assert_eq!(after[header.len() + 3..].to_vec(), before[header.len() + 3..].to_vec());
}
