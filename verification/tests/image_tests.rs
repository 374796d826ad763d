//! Tests of the image store: construction, pixel writes, the incremental
//! statistics, neighborhood reads and equality.

use rasterops::ppm::{Padding, PpmHeader, PpmImage, PpmType};

#[test]
fn test_new_image_is_black_with_seeded_stats() {
    let img = PpmImage::new(4, 3);
    assert_eq!(img.width(), 4);
    assert_eq!(img.height(), 3);
    assert_eq!(img.get_data().len(), 3 * 4 * 3);
    for i in 0..img.get_data().len() {
        assert_eq!(img.get_data()[i], 0);
    }
    // Before any pixel write the usage table is empty, so the effective
    // maximum is 255, and the dominant color is the seeded black.
    assert_eq!(img.max_value(), 255);
    assert_eq!(img.get_background(), [0, 0, 0]);
}

#[test]
fn test_set_pixel_advances_index_and_updates_stats() {
    let mut img = PpmImage::new(2, 2);
    let mut index: usize = 0;
    img.set_pixel(&mut index, &[10, 20, 30]);
    assert_eq!(index, 3);
    img.set_pixel(&mut index, &[10, 20, 30]);
    img.set_pixel(&mut index, &[1, 2, 3]);
    assert_eq!(index, 9);
    assert_eq!(img.get_pixel_at(0), [10, 20, 30]);
    assert_eq!(img.get_pixel_at(1), [10, 20, 30]);
    assert_eq!(img.get_pixel_at(2), [1, 2, 3]);
    assert_eq!(img.get_pixel_at(3), [0, 0, 0]);
    // (10, 20, 30) appears twice, every other color once.
    assert_eq!(img.get_background(), [10, 20, 30]);
    assert_eq!(img.max_value(), 30);
}

#[test]
fn test_background_tie_breaks_to_smallest_pixel() {
    let mut img = PpmImage::new(2, 1);
    img.set_pixel_by_coord(0, 0, &[5, 0, 0]);
    img.set_pixel_by_coord(1, 0, &[1, 2, 3]);
    // Both colors occur once; the lexicographically smallest wins.
    assert_eq!(img.get_background(), [1, 2, 3]);
}

#[test]
fn test_get_pixel_by_coord_bounds() {
    let mut img = PpmImage::new(3, 2);
    img.set_pixel_by_coord(2, 1, &[9, 8, 7]);
    assert_eq!(img.get_pixel_by_coord(2, 1), Some([9, 8, 7]));
    assert_eq!(img.get_pixel_by_coord(0, 0), Some([0, 0, 0]));
    assert_eq!(img.get_pixel_by_coord(3, 0), None);
    assert_eq!(img.get_pixel_by_coord(0, 2), None);
}

#[test]
fn test_get_matrix_at_zero_padding() {
    let mut img = PpmImage::new(2, 2);
    img.set_pixel_by_coord(0, 0, &[1, 1, 1]);
    img.set_pixel_by_coord(1, 0, &[2, 2, 2]);
    img.set_pixel_by_coord(0, 1, &[3, 3, 3]);
    img.set_pixel_by_coord(1, 1, &[4, 4, 4]);
    let m = img.get_matrix_at(0, 0, 3, Padding::Zero);
    assert_eq!(m.len(), 9);
    // Column-major: entry a * 3 + b holds the neighbor at (x - 1 + a, y - 1 + b).
    assert_eq!(m[0], [0, 0, 0]); // (-1, -1) out of bounds
    assert_eq!(m[4], [1, 1, 1]); // (0, 0)
    assert_eq!(m[5], [3, 3, 3]); // (0, 1)
    assert_eq!(m[7], [2, 2, 2]); // (1, 0)
    assert_eq!(m[8], [4, 4, 4]); // (1, 1)
}

#[test]
fn test_get_matrix_at_repeat_padding() {
    let mut img = PpmImage::new(2, 2);
    img.set_pixel_by_coord(0, 0, &[1, 1, 1]);
    img.set_pixel_by_coord(1, 0, &[2, 2, 2]);
    img.set_pixel_by_coord(0, 1, &[3, 3, 3]);
    img.set_pixel_by_coord(1, 1, &[4, 4, 4]);
    let m = img.get_matrix_at(0, 0, 3, Padding::Repeat);
    // Out-of-bounds coordinates clamp to the nearest edge pixel.
    assert_eq!(m[0], [1, 1, 1]); // (-1, -1) clamps to (0, 0)
    assert_eq!(m[1], [1, 1, 1]); // (-1, 0) clamps to (0, 0)
    assert_eq!(m[2], [3, 3, 3]); // (-1, 1) clamps to (0, 1)
    assert_eq!(m[6], [2, 2, 2]); // (1, -1) clamps to (1, 0)
}

#[test]
fn test_create_color_fills_and_declares_max() {
    let img = PpmImage::create_color(7, 11, 5, 2, 3);
    assert_eq!(img.width(), 3);
    assert_eq!(img.height(), 2);
    for i in 0..6 {
        assert_eq!(img.get_pixel_at(i), [7, 11, 5]);
    }
    assert_eq!(img.get_background(), [7, 11, 5]);
    assert_eq!(img.max_value(), 11);
}

#[test]
fn test_image_equality_ignores_header_tag() {
    let mut a = PpmImage::create_color(1, 2, 3, 2, 2);
    let b = PpmImage::create_color(1, 2, 3, 2, 2);
    assert!(a == b);
    // A different format tag or declared maximum does not break equality.
    a.set_header(PpmHeader { ppm_type: PpmType::P3, width: 2, height: 2, max_value: 99 });
    assert!(a == b);
    let c = PpmImage::create_color(1, 2, 4, 2, 2);
    assert!(a != c);
    let d = PpmImage::create_color(1, 2, 3, 1, 4);
    assert!(a != d);
}

#[test]
fn test_clone_is_pixel_identical() {
    let mut img = PpmImage::new(2, 2);
    img.set_pixel_by_coord(1, 1, &[42, 43, 44]);
    let copy = img.clone();
    assert!(img == copy);
    assert_eq!(copy.get_background(), img.get_background());
}

#[test]
fn test_header_round_trip() {
    let mut img = PpmImage::new(5, 6);
    assert!(matches!(img.ppm_type(), PpmType::P6));
    img.hint_max_value(200);
    let h = PpmHeader::new(5, 6);
    img.set_header(h);
    assert!(matches!(img.ppm_type(), PpmType::P6));
}
