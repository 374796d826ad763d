//! Tests of the Sobel gradient filters and the edge map.

use rasterops::filters::{
    apply_sobel, edge_detect, kernel_size_valid, sobel_h, sobel_h_rev, sobel_v, sobel_v_rev,
};
use rasterops::ppm::{Padding, PpmImage};

#[test]
fn test_sobel() {
    // On a uniform image every gradient sum is the pixel value times the
    // kernel's coefficient sum, which is zero: the response is black.
    let flat = PpmImage::create_color(90, 90, 90, 3, 3);
    let h_filtered = apply_sobel(&flat, &sobel_h(), Padding::Repeat);
    let v_filtered = apply_sobel(&flat, &sobel_v(), Padding::Repeat);
    let black = PpmImage::new(3, 3);
    assert_eq!(h_filtered, black);
    assert_eq!(v_filtered, black);

    // A vertical step from a bright left column to a dark rest: walking the
    // neighborhood column by column, the first kernel's leading weights
    // (1, 2, 1) land on the bright column, so the center responds with
    // 255 * 4, clamped to 255.
    let mut step = PpmImage::new(3, 3);
    for y in 0..3u32 {
        step.set_pixel_by_coord(0, y, &[255, 255, 255]);
    }
    let stepped = apply_sobel(&step, &sobel_h(), Padding::Repeat);
    assert_eq!(stepped.get_pixel_by_coord(1, 1), Some([255, 255, 255]));
}

#[test]
fn test_edge_detect_flat_image_is_black() {
    let flat = PpmImage::create_color(123, 45, 67, 4, 4);
    let edges = edge_detect(&flat).unwrap();
    let black = PpmImage::new(4, 4);
    assert_eq!(edges, black);
}

#[test]
fn test_edge_detect_finds_a_step() {
    let mut step = PpmImage::new(4, 4);
    for y in 0..4u32 {
        step.set_pixel_by_coord(0, y, &[200, 200, 200]);
        step.set_pixel_by_coord(1, y, &[200, 200, 200]);
    }
    let edges = edge_detect(&step).unwrap();
    // Some pixel along the boundary responds.
    let mut any_bright = false;
    for i in 0..16 {
        if edges.get_pixel_at(i)[0] > 0 {
            any_bright = true;
        }
    }
    assert!(any_bright);
}

#[test]
fn test_reversed_kernels_mirror_the_forward_ones() {
    let h = sobel_h();
    let h_rev = sobel_h_rev();
    let v = sobel_v();
    let v_rev = sobel_v_rev();
    for i in 0..9 {
        assert_eq!(h[i], -h_rev[i]);
        assert_eq!(v[i], -v_rev[i]);
    }
}

#[test]
fn test_kernel_size_validation() {
    assert!(kernel_size_valid(3));
    assert!(kernel_size_valid(5));
    assert!(!kernel_size_valid(4));
    assert!(!kernel_size_valid(1));
    assert!(!kernel_size_valid(-3));
    assert!(!kernel_size_valid(0));
}
