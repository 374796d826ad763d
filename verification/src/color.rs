//! The perceptual color-distance test used by region labeling: the redmean
//! formula, decided exactly over integers. The real-valued distance
//! `sqrt((2 + rm/256) dR^2 + 4 dG^2 + (2 + (255 - rm)/256) dB^2) / 764.834`
//! (with `rm` the mean of the two red channels) is compared against a
//! tolerance threshold by cross-multiplying both sides squared, so no
//! rounding enters the verdict.

use vstd::prelude::*;

use crate::ppm::PixelBytes;

verus! {

/// Tolerances are measured in millionths: this value means "exact match
/// required", 0 means "everything matches".
pub const TOLERANCE_SCALE: u32 = 1000000;

/// The squared redmean distance scaled by 512 (so that the red-channel
/// weights become integers): with `s` the sum of the two red channels, this
/// is `(1024 + s) dR^2 + 2048 dG^2 + (1534 - s) dB^2`, which equals
/// `512 * (2 + (s/2)/256) dR^2 + 512 * 4 dG^2 + 512 * (2 + (255 - s/2)/256) dB^2`.
pub open spec fn redmean_sq_scaled(p: Seq<u8>, q: Seq<u8>) -> int {
    let s = p[0] + q[0];
    let dr = p[0] - q[0];
    let dg = p[1] - q[1];
    let db = p[2] - q[2];
    (1024 + s) * (dr * dr) + 2048 * (dg * dg) + (1534 - s) * (db * db)
}

/// Whether the redmean distance between two pixels, normalized by its
/// maximum 764.834, is at most `(TOLERANCE_SCALE - tol) / TOLERANCE_SCALE`.
/// Squaring both sides and clearing denominators gives this exact integer
/// test: `A / 512 <= ((S - t) / S)^2 * (764834 / 1000)^2` becomes
/// `A * S^2 * 10^6 <= 512 * (S - t)^2 * 764834^2` with `A` the scaled
/// squared distance and `S` the tolerance scale.
pub open spec fn redmean_within(p: Seq<u8>, q: Seq<u8>, tol: u32) -> bool {
    redmean_sq_scaled(p, q) * 1000000000000000000 <= 512 * ((1000000 - tol) * (1000000 - tol)) * (
    764834 * 764834)
}

/// Whether two pixels count as the same region color under the given
/// tolerance: an exact-match comparison at full tolerance, the redmean test
/// below it.
pub open spec fn pixels_equivalent(p: Seq<u8>, q: Seq<u8>, tol: u32) -> bool {
    if tol >= TOLERANCE_SCALE {
        p == q
    } else {
        redmean_within(p, q, tol)
    }
}

/// Decides tolerant color equivalence: exact equality at full tolerance,
/// otherwise the redmean distance test, computed exactly in integers.
pub fn is_neighbor_equivalent(pixel: &PixelBytes, neighbor_pixel: &PixelBytes, tolerance: u32)
    -> (r: bool)
    ensures
        r == pixels_equivalent(pixel@, neighbor_pixel@, tolerance),
{
    if tolerance >= TOLERANCE_SCALE {
        let eq = pixel[0] == neighbor_pixel[0] && pixel[1] == neighbor_pixel[1] && pixel[2]
            == neighbor_pixel[2];
        proof {
            if eq {
                assert(pixel@ =~= neighbor_pixel@);
            }
        }
        eq
    } else {
        let s: i64 = pixel[0] as i64 + neighbor_pixel[0] as i64;
        let dr: i64 = pixel[0] as i64 - neighbor_pixel[0] as i64;
        let dg: i64 = pixel[1] as i64 - neighbor_pixel[1] as i64;
        let db: i64 = pixel[2] as i64 - neighbor_pixel[2] as i64;
        proof {
            assert(0 <= dr * dr <= 65025 && 0 <= dg * dg <= 65025 && 0 <= db * db <= 65025 && (
            1024 + s) * (dr * dr) <= 1534 * 65025 && 0 <= (1024 + s) * (dr * dr) && 2048
                * (dg * dg) <= 2048 * 65025 && 0 <= 2048 * (dg * dg) && (1534 - s) * (db * db)
                <= 1534 * 65025 && 0 <= (1534 - s) * (db * db)) by (nonlinear_arith)
                requires
                    0 <= s <= 510,
                    -255 <= dr <= 255,
                    -255 <= dg <= 255,
                    -255 <= db <= 255,
            ;
        }
        let a: i64 = (1024 + s) * (dr * dr) + 2048 * (dg * dg) + (1534 - s) * (db * db);
        let lhs: u128 = (a as u128) * 1000000000000000000;
        let d: u64 = (1000000 - tolerance) as u64;
        proof {
            assert((d as int) * (d as int) <= 1000000000000) by (nonlinear_arith)
                requires
                    0 <= d as int <= 1000000,
            ;
            assert((a as int) * 1000000000000000000 <= 0x10_0000_0000 * 1000000000000000000)
                by (nonlinear_arith)
                requires
                    0 <= a as int <= 0x10_0000_0000,
            ;
            assert(512 * ((d as int) * (d as int)) * (764834 * 764834) <= 512 * 1000000000000 * (
            764834 * 764834)) by (nonlinear_arith)
                requires
                    0 <= (d as int) * (d as int) <= 1000000000000,
            ;
        }
        let dd: u128 = (d as u128) * (d as u128);
        proof {
            assert(dd as int <= 1000000000000) by (nonlinear_arith)
                requires
                    dd as int == ((d as u128) as int) * ((d as u128) as int),
                    0 <= (d as u128) as int <= 1000000,
            ;
            assert(764834 * 764834 == 584971047556) by (nonlinear_arith);
        }
        let c2: u128 = 764834u128 * 764834u128;
        let s1: u128 = 512 * dd;
        proof {
            assert((s1 as int) * (c2 as int) <= 512 * 1000000000000 * 584971047556 && 0 <= (s1
                as int) * (c2 as int)) by (nonlinear_arith)
                requires
                    0 <= s1 as int <= 512 * 1000000000000,
                    0 <= c2 as int,
                    c2 as int == 584971047556,
            ;
        }
        let rhs: u128 = s1 * c2;
        let r = lhs <= rhs;
        proof {
            assert(a as int == redmean_sq_scaled(pixel@, neighbor_pixel@));
            assert((1000000 - tolerance) as int == 1000000 - (tolerance as int));
        }
        r
    }
}

} // verus!
