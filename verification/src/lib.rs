//! A raster-image processing engine: an in-memory 8-bit RGB image store with
//! incrementally maintained statistics, plus pixel- and neighborhood-level
//! algorithms on it (arithmetic combination, tonal remapping through lookup
//! tables, histogram equalization support, spatial filtering, geometric
//! resampling, and connected-component labeling).

use vstd::prelude::*;

pub mod ccl;
pub mod color;
pub mod cr2;
pub mod filters;
pub mod operations;
pub mod ppm;

verus! {

/// Number of bytes a pixel occupies in a raster buffer.
pub const PIXEL_SIZE: usize = 3;

/// Index of the red channel inside a pixel.
pub const R_CH: usize = 0;

/// Index of the green channel inside a pixel.
pub const G_CH: usize = 1;

/// Index of the blue channel inside a pixel.
pub const B_CH: usize = 2;

/// The larger of two signed values.
pub fn max(a: i32, b: i32) -> (r: i32)
    ensures
        r == if a > b { a } else { b },
{
    if a > b {
        a
    } else {
        b
    }
}

/// The smaller of two signed values.
pub fn min(a: i32, b: i32) -> (r: i32)
    ensures
        r == if a < b { a } else { b },
{
    if a < b {
        a
    } else {
        b
    }
}

} // verus!
