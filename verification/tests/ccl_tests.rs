//! Tests of connected-component labeling: region counts under each
//! connectivity mode, tolerance-driven merging, the color-distance test and
//! the rendered mask.

use rasterops::ccl::{ccl, get_valid_neighbors, make_ccl_mask, Connectivity};
use rasterops::color::{is_neighbor_equivalent, TOLERANCE_SCALE};
use rasterops::ppm::PpmImage;

/// A 4x3 image on a black background (8 of 12 pixels) with one red region
/// in the top-left corner and one blue region in the bottom-right corner,
/// physically separate under every connectivity mode.
fn two_disjoint_regions() -> PpmImage {
    let mut img = PpmImage::new(4, 3);
    img.set_pixel_by_coord(0, 0, &[255, 0, 0]);
    img.set_pixel_by_coord(1, 0, &[255, 0, 0]);
    img.set_pixel_by_coord(2, 2, &[0, 0, 255]);
    img.set_pixel_by_coord(3, 2, &[0, 0, 255]);
    img
}

#[test]
fn test_ccl_two_disjoint_regions_four_connectivity() {
    let img = two_disjoint_regions();
    let (labels, count) = ccl(&img, Connectivity::FOUR, TOLERANCE_SCALE);
    assert_eq!(count, 2);
    // Background pixels keep label 0.
    assert_eq!(labels[2], 0);
    assert_eq!(labels[4], 0);
    // Each region shares one label; the two regions' labels differ.
    assert_ne!(labels[0], 0);
    assert_eq!(labels[0], labels[1]);
    assert_ne!(labels[10], 0);
    assert_eq!(labels[10], labels[11]);
    assert_ne!(labels[0], labels[10]);
}

#[test]
fn test_ccl_two_disjoint_regions_eight_connectivity() {
    let img = two_disjoint_regions();
    let (labels, count) = ccl(&img, Connectivity::EIGHT, TOLERANCE_SCALE);
    assert_eq!(count, 2);
    assert_eq!(labels[0], labels[1]);
    assert_eq!(labels[10], labels[11]);
    assert_ne!(labels[0], labels[10]);
}

#[test]
fn test_ccl_two_disjoint_regions_experimental_connectivity() {
    let img = two_disjoint_regions();
    let (labels, count) = ccl(&img, Connectivity::NOS, TOLERANCE_SCALE);
    assert_eq!(count, 2);
    assert_eq!(labels[0], labels[1]);
    assert_eq!(labels[10], labels[11]);
    assert_ne!(labels[0], labels[10]);
}

#[test]
fn test_ccl_diagonal_regions_differ_by_connectivity() {
    // Two single pixels touching only diagonally: separate under
    // 4-connectivity, one region under 8-connectivity.
    let mut img = PpmImage::new(4, 4);
    img.set_pixel_by_coord(1, 1, &[200, 10, 10]);
    img.set_pixel_by_coord(2, 2, &[200, 10, 10]);
    let (_, count4) = ccl(&img, Connectivity::FOUR, TOLERANCE_SCALE);
    assert_eq!(count4, 2);
    let (_, count8) = ccl(&img, Connectivity::EIGHT, TOLERANCE_SCALE);
    assert_eq!(count8, 1);
}

#[test]
fn test_ccl_tolerance_merges_close_colors() {
    // Two adjacent regions whose colors differ by one red step: distinct
    // under exact matching, merged once the tolerance drops below full.
    let mut img = PpmImage::new(4, 3);
    img.set_pixel_by_coord(0, 0, &[100, 100, 100]);
    img.set_pixel_by_coord(1, 0, &[100, 100, 100]);
    img.set_pixel_by_coord(2, 0, &[101, 100, 100]);
    img.set_pixel_by_coord(3, 0, &[101, 100, 100]);
    let (_, exact_count) = ccl(&img, Connectivity::FOUR, TOLERANCE_SCALE);
    assert_eq!(exact_count, 2);
    let (labels, tolerant_count) = ccl(&img, Connectivity::FOUR, 990000);
    assert_eq!(tolerant_count, 1);
    assert_eq!(labels[0], labels[3]);
}

#[test]
fn test_redmean_distance_decision() {
    // Identical pixels are equivalent at any tolerance.
    assert!(is_neighbor_equivalent(&[5, 5, 5], &[5, 5, 5], TOLERANCE_SCALE));
    assert!(is_neighbor_equivalent(&[5, 5, 5], &[5, 5, 5], 0));
    // At full tolerance only exact matches pass.
    assert!(!is_neighbor_equivalent(&[100, 100, 100], &[101, 100, 100], TOLERANCE_SCALE));
    // A one-step red difference is well within a 1% distance allowance.
    assert!(is_neighbor_equivalent(&[100, 100, 100], &[101, 100, 100], 990000));
    // Black against white is the farthest pair: even a generous allowance
    // short of everything rejects it.
    assert!(!is_neighbor_equivalent(&[0, 0, 0], &[255, 255, 255], 500000));
    // Tolerance zero admits everything.
    assert!(is_neighbor_equivalent(&[0, 0, 0], &[255, 255, 255], 0));
}

#[test]
fn test_valid_neighbors_modes_and_edges() {
    let img = PpmImage::new(5, 5);
    // An interior pixel sees both already-visited neighbors under
    // 4-connectivity and all four under 8-connectivity.
    assert_eq!(get_valid_neighbors(2, 2, &img, Connectivity::FOUR).len(), 2);
    assert_eq!(get_valid_neighbors(2, 2, &img, Connectivity::EIGHT).len(), 4);
    assert_eq!(get_valid_neighbors(2, 2, &img, Connectivity::NOS).len(), 8);
    // The top-left corner has no already-visited neighbors at all.
    assert_eq!(get_valid_neighbors(0, 0, &img, Connectivity::FOUR).len(), 0);
    assert_eq!(get_valid_neighbors(0, 0, &img, Connectivity::EIGHT).len(), 0);
    // In the top row only the west neighbor is available.
    let top_row = get_valid_neighbors(2, 0, &img, Connectivity::FOUR);
    assert_eq!(top_row, vec![(1, 0)]);
}

#[test]
fn test_ccl_mask_colors_background_and_regions() {
    // A white region on a black background: the mask keeps the background
    // black, and the region gets a random color in which no channel is 255
    // (the random draw is over a half-open range), so the mask cannot be
    // the input handed back unchanged.
    let mut img = PpmImage::new(4, 3);
    img.set_pixel_by_coord(0, 0, &[255, 255, 255]);
    img.set_pixel_by_coord(1, 0, &[255, 255, 255]);
    let mask = make_ccl_mask(&img, Connectivity::FOUR, TOLERANCE_SCALE);
    assert_eq!(mask.width(), 4);
    assert_eq!(mask.height(), 3);
    assert_eq!(mask.get_pixel_by_coord(2, 0), Some([0, 0, 0]));
    assert_eq!(mask.get_pixel_by_coord(0, 1), Some([0, 0, 0]));
    let region = mask.get_pixel_by_coord(0, 0).unwrap();
    assert!(region[0] < 255 && region[1] < 255 && region[2] < 255);
    // The two region pixels share a label, so they share a color.
    assert_eq!(mask.get_pixel_by_coord(0, 0), mask.get_pixel_by_coord(1, 0));
}
