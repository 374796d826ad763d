//! Tests of the arithmetic combinations, the resampling engine, negation,
//! the lookup-table tonal remapping and the brightness histogram.

use rasterops::operations::{
    add_safe, clamp_color, friendly_scale_match, mult_safe, negate, perform_operation, resize,
    sub_safe, apply_channel_table, Histogram, OpType, ResizeAlgorithm,
};
use rasterops::ppm::PpmImage;

fn test_multiplication_helper(rgb1: u8, rgb2: u8, check: u8) {
    let lhs = PpmImage::create_color(rgb1, rgb1, rgb1, 10, 10);
    let rhs = PpmImage::create_color(rgb2, rgb2, rgb2, 10, 10);
    let check_image = PpmImage::create_color(check, check, check, 10, 10);
    let mult_result = perform_operation(&lhs, &rhs, OpType::Multiply);
    assert!(mult_result.is_ok());
    assert_eq!(mult_result.ok().unwrap(), check_image);
}

#[test]
fn test_multiplication() {
    // tests for "normal" circumstances
    test_multiplication_helper(2, 2, 4);
    test_multiplication_helper(3, 4, 12);
    test_multiplication_helper(4, 3, 12);
    test_multiplication_helper(4, 4, 16);

    // test the zero / zero case
    test_multiplication_helper(0, 0, 0);

    // test the zero / 255 case
    test_multiplication_helper(0, 255, 0);

    // test the one / 255 case
    test_multiplication_helper(1, 255, 255);

    // test the overflow case
    test_multiplication_helper(30, 30, 255);
}

#[test]
fn test_add() {
    let mut lhs = PpmImage::new(2, 2);
    lhs.set_pixel_by_coord(0, 0, &[10, 20, 30]);
    lhs.set_pixel_by_coord(1, 0, &[200, 200, 200]);
    lhs.set_pixel_by_coord(0, 1, &[0, 0, 0]);
    lhs.set_pixel_by_coord(1, 1, &[255, 1, 128]);
    let mut rhs = PpmImage::new(2, 2);
    rhs.set_pixel_by_coord(0, 0, &[5, 6, 7]);
    rhs.set_pixel_by_coord(1, 0, &[100, 55, 56]);
    rhs.set_pixel_by_coord(0, 1, &[0, 255, 3]);
    rhs.set_pixel_by_coord(1, 1, &[9, 254, 127]);
    let sum = perform_operation(&lhs, &rhs, OpType::Add).unwrap();
    // Per channel: plain sums, clamped to 255 on overflow.
    assert_eq!(sum.get_pixel_by_coord(0, 0), Some([15, 26, 37]));
    assert_eq!(sum.get_pixel_by_coord(1, 0), Some([255, 255, 255]));
    assert_eq!(sum.get_pixel_by_coord(0, 1), Some([0, 255, 3]));
    assert_eq!(sum.get_pixel_by_coord(1, 1), Some([255, 255, 255]));
}

#[test]
fn test_subtract() {
    let mut lhs = PpmImage::new(2, 2);
    lhs.set_pixel_by_coord(0, 0, &[10, 20, 30]);
    lhs.set_pixel_by_coord(1, 0, &[200, 5, 255]);
    lhs.set_pixel_by_coord(0, 1, &[0, 0, 0]);
    lhs.set_pixel_by_coord(1, 1, &[128, 128, 128]);
    let mut rhs = PpmImage::new(2, 2);
    rhs.set_pixel_by_coord(0, 0, &[5, 25, 30]);
    rhs.set_pixel_by_coord(1, 0, &[100, 6, 255]);
    rhs.set_pixel_by_coord(0, 1, &[1, 0, 255]);
    rhs.set_pixel_by_coord(1, 1, &[127, 129, 128]);
    let diff = perform_operation(&lhs, &rhs, OpType::Subtract).unwrap();
    // Per channel: differences, clamped to 0 on underflow.
    assert_eq!(diff.get_pixel_by_coord(0, 0), Some([5, 0, 0]));
    assert_eq!(diff.get_pixel_by_coord(1, 0), Some([100, 0, 0]));
    assert_eq!(diff.get_pixel_by_coord(0, 1), Some([0, 0, 0]));
    assert_eq!(diff.get_pixel_by_coord(1, 1), Some([1, 0, 0]));
}

#[test]
fn test_subtract_image_from_itself_is_black() {
    let mut img = PpmImage::new(3, 2);
    img.set_pixel_by_coord(0, 0, &[12, 200, 9]);
    img.set_pixel_by_coord(2, 1, &[255, 255, 255]);
    img.set_pixel_by_coord(1, 1, &[7, 7, 7]);
    let diff = perform_operation(&img, &img, OpType::Subtract).unwrap();
    let black = PpmImage::new(3, 2);
    assert_eq!(diff, black);
}

#[test]
fn test_addition_is_commutative() {
    let mut a = PpmImage::new(2, 2);
    a.set_pixel_by_coord(0, 0, &[200, 10, 99]);
    a.set_pixel_by_coord(1, 1, &[56, 250, 1]);
    let mut b = PpmImage::new(2, 2);
    b.set_pixel_by_coord(0, 1, &[77, 250, 2]);
    b.set_pixel_by_coord(1, 1, &[200, 200, 200]);
    let ab = perform_operation(&a, &b, OpType::Add).unwrap();
    let ba = perform_operation(&b, &a, OpType::Add).unwrap();
    assert_eq!(ab, ba);
}

#[test]
fn test_safe_channel_math() {
    assert_eq!(add_safe(200, 100), 255);
    assert_eq!(add_safe(200, 55), 255);
    assert_eq!(add_safe(200, 54), 254);
    assert_eq!(sub_safe(5, 10), 0);
    assert_eq!(sub_safe(10, 5), 5);
    assert_eq!(mult_safe(16, 16), 255);
    assert_eq!(mult_safe(15, 17), 255);
    assert_eq!(mult_safe(15, 16), 240);
    assert_eq!(clamp_color(300), 255);
    assert_eq!(clamp_color(255), 255);
    assert_eq!(clamp_color(12), 12);
}

#[test]
fn test_friendly_scale_match_means() {
    assert_eq!(friendly_scale_match(4, 4, 4, 4), (4, 4));
    assert_eq!(friendly_scale_match(2, 2, 4, 4), (3, 3));
    assert_eq!(friendly_scale_match(2, 3, 5, 4), (3, 3));
}

#[test]
fn test_operands_of_different_sizes_are_resampled() {
    let a = PpmImage::create_color(10, 10, 10, 2, 2);
    let b = PpmImage::create_color(20, 20, 20, 4, 4);
    let sum = perform_operation(&a, &b, OpType::Add).unwrap();
    // The compromise size is the mean of each dimension.
    assert_eq!(sum.width(), 3);
    assert_eq!(sum.height(), 3);
    // Both operands are uniform, so every resampled pixel mixes to the same
    // value and the sum stays uniform.
    for i in 0..9 {
        assert_eq!(sum.get_pixel_at(i), [30, 30, 30]);
    }
}

#[test]
fn test_resize_to_same_size_returns_identical_copy() {
    let mut img = PpmImage::new(3, 2);
    img.set_pixel_by_coord(1, 0, &[9, 10, 11]);
    img.set_pixel_by_coord(2, 1, &[1, 2, 3]);
    let same = resize(&img, 3, 2, Some(ResizeAlgorithm::BilinearInterpolation)).unwrap();
    assert_eq!(same, img);
    let same_nn = resize(&img, 3, 2, None).unwrap();
    assert_eq!(same_nn, img);
}

#[test]
fn test_degenerate_compromise_size_is_rejected() {
    // A 1-wide and a 0-wide operand average to a 0-wide target, which the
    // resample step rejects.
    let a = PpmImage::create_color(10, 10, 10, 2, 1);
    let b = PpmImage::new(0, 2);
    let r = perform_operation(&a, &b, OpType::Add);
    assert_eq!(r.err().unwrap(), "The image cannot have height or width be zero.");
}

#[test]
fn test_resize_to_zero_is_rejected() {
    let img = PpmImage::new(3, 2);
    let r = resize(&img, 0, 2, None);
    assert_eq!(r.err().unwrap(), "The image cannot have height or width be zero.");
    let r2 = resize(&img, 3, 0, Some(ResizeAlgorithm::BilinearInterpolation));
    assert!(r2.is_err());
}

#[test]
fn test_nearest_neighbor_from_empty_source_is_rejected() {
    // Nearest-neighbor sampling has no source pixel to copy from an empty
    // image, so the degenerate geometry is reported, not silently accepted.
    let empty = PpmImage::new(0, 4);
    let r = resize(&empty, 3, 3, Some(ResizeAlgorithm::NearestNeighbor));
    assert_eq!(r.err().unwrap(), "The image cannot have height or width be zero.");
    // Bilinear resampling zero-pads instead: the result exists and is black.
    let b = resize(&empty, 3, 3, Some(ResizeAlgorithm::BilinearInterpolation)).unwrap();
    assert_eq!(b, PpmImage::new(3, 3));
}

#[test]
fn test_nearest_neighbor_scaling() {
    let mut img = PpmImage::new(2, 2);
    img.set_pixel_by_coord(0, 0, &[1, 1, 1]);
    img.set_pixel_by_coord(1, 0, &[2, 2, 2]);
    img.set_pixel_by_coord(0, 1, &[3, 3, 3]);
    img.set_pixel_by_coord(1, 1, &[4, 4, 4]);
    let up = resize(&img, 4, 4, Some(ResizeAlgorithm::NearestNeighbor)).unwrap();
    assert_eq!(up.width(), 4);
    assert_eq!(up.height(), 4);
    // Each destination pixel copies floor(dest * src / dest) of the source:
    // the image becomes four 2x2 blocks.
    for y in 0..4u32 {
        for x in 0..4u32 {
            let expected = match (x / 2, y / 2) {
                (0, 0) => [1, 1, 1],
                (1, 0) => [2, 2, 2],
                (0, 1) => [3, 3, 3],
                _ => [4, 4, 4],
            };
            assert_eq!(up.get_pixel_by_coord(x, y), Some(expected));
        }
    }
    let down = resize(&img, 1, 1, Some(ResizeAlgorithm::NearestNeighbor)).unwrap();
    assert_eq!(down.get_pixel_at(0), [1, 1, 1]);
}

#[test]
fn test_bilinear_iterpolation_scaling() {
    let mut img = PpmImage::new(2, 2);
    img.set_pixel_by_coord(0, 0, &[0, 0, 0]);
    img.set_pixel_by_coord(1, 0, &[90, 90, 90]);
    img.set_pixel_by_coord(0, 1, &[180, 180, 180]);
    img.set_pixel_by_coord(1, 1, &[90, 90, 90]);
    let up = resize(&img, 3, 3, Some(ResizeAlgorithm::BilinearInterpolation)).unwrap();
    assert_eq!(up.width(), 3);
    assert_eq!(up.height(), 3);
    // Corner (0, 0) maps exactly onto the source corner.
    assert_eq!(up.get_pixel_by_coord(0, 0), Some([0, 0, 0]));
    // The center mixes the four source pixels with fractions 1/3 along each
    // axis: 90 * 2/9 + 180 * 2/9 + 90 * 1/9 = 70.5 rounds (half up) to 70,
    // but as an exact mix (630 * 2 + 9) / 18 = 70.
    assert_eq!(up.get_pixel_by_coord(1, 1), Some([70, 70, 70]));
}

#[test]
fn test_resampling_is_deterministic() {
    let mut img = PpmImage::new(3, 3);
    img.set_pixel_by_coord(0, 0, &[200, 3, 45]);
    img.set_pixel_by_coord(2, 2, &[13, 254, 99]);
    img.set_pixel_by_coord(1, 2, &[88, 77, 66]);
    let a = resize(&img, 7, 5, Some(ResizeAlgorithm::NearestNeighbor)).unwrap();
    let b = resize(&img, 7, 5, Some(ResizeAlgorithm::NearestNeighbor)).unwrap();
    assert_eq!(a, b);
    let c = resize(&img, 5, 7, Some(ResizeAlgorithm::BilinearInterpolation)).unwrap();
    let d = resize(&img, 5, 7, Some(ResizeAlgorithm::BilinearInterpolation)).unwrap();
    assert_eq!(c, d);
}

#[test]
fn test_negatation() {
    let img = PpmImage::create_color(10, 20, 30, 2, 2);
    let negated_result = negate(&img);
    assert!(negated_result.is_ok());
    // The effective maximum channel value is 30, so (10, 20, 30) negates to
    // (20, 10, 0).
    let check = PpmImage::create_color(20, 10, 0, 2, 2);
    assert_eq!(negated_result.unwrap(), check);
}

#[test]
fn test_gamma_of_one_is_identity() {
    // The gamma transfer curve with gamma = 1.0 rounds to the identity
    // table, and applying an identity table changes nothing.
    let mut table: Vec<u8> = Vec::new();
    for v in 0..256u32 {
        let gamma: f64 = 1.0;
        let mapped = 255.0f64 * (v as f64 / 255.0f64).powf(1.0f64 / gamma);
        let clamped = if mapped > 255.0 { 255u8 } else { mapped.round() as u8 };
        table.push(clamped);
    }
    let mut img = PpmImage::new(2, 2);
    img.set_pixel_by_coord(0, 0, &[0, 127, 255]);
    img.set_pixel_by_coord(1, 0, &[13, 200, 99]);
    img.set_pixel_by_coord(0, 1, &[1, 2, 3]);
    img.set_pixel_by_coord(1, 1, &[254, 128, 64]);
    let out = apply_channel_table(&img, &table);
    assert_eq!(out, img);
}

#[test]
fn test_log_transform_endpoints() {
    // The default log transfer curve, c = 255 / log10(256) and base 10,
    // maps 0 to 0 and 255 to 255.
    let c: f64 = 255.0f64 / (1.0f64 + 255.0f64).log10();
    let mut table: Vec<u8> = Vec::new();
    for v in 0..256u32 {
        let mapped = c * (v as f64 + 1.0f64).log(10.0f64);
        let clamped = if mapped > 255.0 { 255u8 } else { mapped.round() as u8 };
        table.push(clamped);
    }
    let mut img = PpmImage::new(2, 2);
    img.set_pixel_by_coord(0, 0, &[0, 0, 0]);
    img.set_pixel_by_coord(1, 0, &[255, 255, 255]);
    img.set_pixel_by_coord(0, 1, &[128, 128, 128]);
    img.set_pixel_by_coord(1, 1, &[64, 64, 64]);
    let out = apply_channel_table(&img, &table);
    assert_eq!(out.get_pixel_by_coord(0, 0), Some([0, 0, 0]));
    assert_eq!(out.get_pixel_by_coord(1, 0), Some([255, 255, 255]));
}

#[test]
fn test_histogram_counts_and_extremes() {
    let mut h = Histogram::new();
    assert_eq!(h.pixel_count(), 0);
    h.add(20);
    h.add(10);
    h.add(20);
    assert_eq!(h.pixel_count(), 3);
    assert_eq!(h.min_value(), 10);
    assert_eq!(h.max_value(), 20);
    assert_eq!(h.intensities(), vec![10, 20]);
}

#[test]
fn test_histogram_equalize_cumulative_mapping() {
    let mut h = Histogram::new();
    h.add(20);
    h.add(10);
    h.add(20);
    let eq = h.equalize();
    // Ascending keys paired with cumulative count times the maximum key;
    // dividing by the total sample count (3) gives the cdf * max mapping.
    assert_eq!(eq, vec![(10, 1 * 20), (20, 3 * 20)]);
}

#[test]
fn test_equalization_keeps_intensity_order() {
    let mut h = Histogram::new();
    let keys = [400u32, 100, 300, 100, 200, 400, 400];
    for k in keys {
        h.add(k);
    }
    let eq = h.equalize();
    // The mapping is monotone in the key, so the ranking of brightness
    // values survives equalization; a second equalization of the mapped
    // values therefore cannot change the ranking either.
    for i in 1..eq.len() {
        assert!(eq[i - 1].0 < eq[i].0);
        assert!(eq[i - 1].1 <= eq[i].1);
    }
}
