//! Arithmetic combination of images (saturating add, subtract, multiply,
//! with an automatic compromise resize when operand sizes differ), the two
//! geometric resampling algorithms, negation, lookup-table tonal remapping,
//! and the brightness histogram used for equalization.

use vstd::prelude::*;

use crate::ppm::{sample, Padding, PixelBytes, PpmImage};

verus! {

/// The outcome of a fallible image operation: a fully built image, or a
/// message describing why none could be produced.
pub type OperationResult = Result<PpmImage, String>;

/// The three per-pixel arithmetic combinations.
#[derive(Debug, PartialEq, Eq, Structural, Clone, Copy)]
pub enum OpType {
    Add,
    Subtract,
    Multiply,
}

/// The two resampling algorithms.
#[derive(Debug, PartialEq, Eq, Structural, Clone, Copy)]
pub enum ResizeAlgorithm {
    NearestNeighbor,
    BilinearInterpolation,
}

/// One saturating channel combination: add and multiply clamp to 255 on
/// overflow, subtract clamps to 0 on underflow.
pub open spec fn op_apply(op: OpType, a: u8, b: u8) -> u8 {
    match op {
        OpType::Add => if a + b > 255 {
            255u8
        } else {
            (a + b) as u8
        },
        OpType::Subtract => if a < b {
            0u8
        } else {
            (a - b) as u8
        },
        OpType::Multiply => if a * b > 255 {
            255u8
        } else {
            (a * b) as u8
        },
    }
}

/// Two equally long buffers combined channel slot by channel slot.
pub open spec fn combine_seq(a: Seq<u8>, b: Seq<u8>, op: OpType) -> Seq<u8> {
    Seq::new(a.len(), |i: int| op_apply(op, a[i], b[i]))
}

/// Multiplies two channel values, clamping the product to 255.
pub fn mult_safe(lhs: u8, rhs: u8) -> (r: u8)
    ensures
        r == op_apply(OpType::Multiply, lhs, rhs),
{
    proof {
        assert((lhs as int) * (rhs as int) <= 255 * 255) by (nonlinear_arith)
            requires
                0 <= lhs as int <= 255,
                0 <= rhs as int <= 255,
        ;
    }
    let temp: u32 = lhs as u32 * rhs as u32;
    if temp > (u8::MAX as u32) {
        return u8::MAX;
    }
    temp as u8
}

/// Adds two channel values, clamping the sum to 255.
pub fn add_safe(lhs: u8, rhs: u8) -> (r: u8)
    ensures
        r == op_apply(OpType::Add, lhs, rhs),
{
    let temp: u32 = lhs as u32 + rhs as u32;
    if temp > (u8::MAX as u32) {
        return u8::MAX;
    }
    temp as u8
}

/// Subtracts one channel value from another, clamping at 0.
pub fn sub_safe(lhs: u8, rhs: u8) -> (r: u8)
    ensures
        r == op_apply(OpType::Subtract, lhs, rhs),
{
    let temp: i32 = lhs as i32 - rhs as i32;
    if temp > (u8::MAX as i32) {
        return u8::MAX;
    }
    if temp < 0 {
        return 0;
    }
    temp as u8
}

/// Applies the chosen combination to one pair of channel values.
pub fn op_exec(op: OpType, a: u8, b: u8) -> (r: u8)
    ensures
        r == op_apply(op, a, b),
{
    match op {
        OpType::Add => add_safe(a, b),
        OpType::Subtract => sub_safe(a, b),
        OpType::Multiply => mult_safe(a, b),
    }
}

/// Clamps a wide color value into the 8-bit channel range.
pub fn clamp_color(num: u32) -> (r: u8)
    ensures
        r == if num > 255 {
            255u8
        } else {
            num as u8
        },
{
    if num > u8::MAX as u32 {
        return u8::MAX;
    }
    num as u8
}

/// The compromise target size for two operand images: each dimension is the
/// truncated arithmetic mean of the operands' dimensions, except that equal
/// dimensions are kept as they are.
pub fn friendly_scale_match(w1: u32, h1: u32, w2: u32, h2: u32) -> (r: (u32, u32))
    requires
        w1 + w2 <= u32::MAX,
        h1 + h2 <= u32::MAX,
    ensures
        r == if w1 == w2 && h1 == h2 {
            (w1, h1)
        } else {
            (((w1 + w2) / 2) as u32, ((h1 + h2) / 2) as u32)
        },
{
    if w1 == w2 && h1 == h2 {
        return (w1, h1);
    }
    let w_new = (w1 + w2) / 2;
    let h_new = (h1 + h2) / 2;
    (w_new, h_new)
}

/// One nearest-neighbor channel read: the destination coordinate is mapped
/// to `floor(dest_coord * source_dim / dest_dim)` in the source and the
/// channel is copied verbatim.
pub open spec fn nn_channel(
    s: Seq<u8>,
    sw: int,
    sh: int,
    dw: int,
    dh: int,
    x: int,
    y: int,
    ch: int,
) -> u8 {
    let px = (x * sw) / dw;
    let py = (y * sh) / dh;
    s[3 * (py * sw + px) + ch]
}

/// The whole buffer a nearest-neighbor resize produces.
pub open spec fn nn_seq(s: Seq<u8>, sw: int, sh: int, dw: int, dh: int) -> Seq<u8> {
    Seq::new(
        (3 * (dw * dh)) as nat,
        |i: int| nn_channel(s, sw, sh, dw, dh, (i / 3) % dw, (i / 3) / dw, i % 3),
    )
}

/// The rounded bilinear mix of four source channel values. The fractions
/// along each axis are `txn / dw` and `tyn / dh`; the mix is computed exactly
/// over a common denominator, rounded half-up, and clamped to 255.
pub open spec fn blerp_round_spec(
    p00: u8,
    p10: u8,
    p01: u8,
    p11: u8,
    txn: int,
    tyn: int,
    dw: int,
    dh: int,
) -> u8 {
    let num = p00 * (dw - txn) * (dh - tyn) + p10 * txn * (dh - tyn) + p01 * (dw - txn) * tyn
        + p11 * txn * tyn;
    let den = dw * dh;
    let rounded = (2 * num + den) / (2 * den);
    if rounded > 255 {
        255u8
    } else {
        rounded as u8
    }
}

/// One bilinearly interpolated destination channel: the destination
/// coordinate maps to the fractional source coordinate
/// `dest_coord / dest_dim * (source_dim - 1)`; the four surrounding integer
/// pixels are sampled with out-of-range neighbors treated as black.
pub open spec fn blerp_channel(
    s: Seq<u8>,
    sw: int,
    sh: int,
    dw: int,
    dh: int,
    x: int,
    y: int,
    ch: int,
) -> u8 {
    let nx = x * (sw - 1);
    let ny = y * (sh - 1);
    let gxi = nx / dw;
    let txn = nx % dw;
    let gyi = ny / dh;
    let tyn = ny % dh;
    blerp_round_spec(
        sample(s, sw, sh, gxi, gyi, Padding::Zero, ch),
        sample(s, sw, sh, gxi + 1, gyi, Padding::Zero, ch),
        sample(s, sw, sh, gxi, gyi + 1, Padding::Zero, ch),
        sample(s, sw, sh, gxi + 1, gyi + 1, Padding::Zero, ch),
        txn,
        tyn,
        dw,
        dh,
    )
}

/// The whole buffer a bilinear resize produces.
pub open spec fn bilinear_seq(s: Seq<u8>, sw: int, sh: int, dw: int, dh: int) -> Seq<u8> {
    Seq::new(
        (3 * (dw * dh)) as nat,
        |i: int| blerp_channel(s, sw, sh, dw, dh, (i / 3) % dw, (i / 3) / dw, i % 3),
    )
}

/// Mixing four black samples yields black, whatever the fractions.
proof fn lemma_blerp_round_zero(txn: int, tyn: int, dw: int, dh: int)
    requires
        1 <= dw,
        1 <= dh,
    ensures
        blerp_round_spec(0u8, 0u8, 0u8, 0u8, txn, tyn, dw, dh) == 0u8,
{
    let num = 0u8 * (dw - txn) * (dh - tyn) + 0u8 * txn * (dh - tyn) + 0u8 * (dw - txn) * tyn
        + 0u8 * txn * tyn;
    let den = dw * dh;
    assert(num == 0) by (nonlinear_arith)
        requires
            num == 0u8 * (dw - txn) * (dh - tyn) + 0u8 * txn * (dh - tyn) + 0u8 * (dw - txn)
                * tyn + 0u8 * txn * tyn,
    ;
    assert(1 <= den && den < 2 * den) by (nonlinear_arith)
        requires
            1 <= dw,
            1 <= dh,
            den == dw * dh,
    ;
    vstd::arithmetic::div_mod::lemma_basic_div(den, 2 * den);
    assert((2 * num + den) / (2 * den) == 0);
}

/// Mixes four channel values bilinearly with the fractions `txn / dw` and
/// `tyn / dh`, rounding half-up and clamping to 255.
fn blerp_round(p00: u8, p10: u8, p01: u8, p11: u8, txn: u64, tyn: u64, dw: u64, dh: u64) -> (r:
    u8)
    requires
        1 <= dw <= u32::MAX,
        1 <= dh <= u32::MAX,
        txn < dw,
        tyn < dh,
    ensures
        r == blerp_round_spec(p00, p10, p01, p11, txn as int, tyn as int, dw as int, dh as int),
{
    proof {
        assert((dw as int) * (dh as int) <= 0x1_0000_0000 * 0x1_0000_0000 && 1 <= (dw as int) * (
        dh as int) && 255 * (dw as int) * (dh as int) <= 255 * (0x1_0000_0000
            * 0x1_0000_0000)) by (nonlinear_arith)
            requires
                1 <= dw as int <= 0x1_0000_0000,
                1 <= dh as int <= 0x1_0000_0000,
        ;
        let wxa = (dw - txn) as int;
        let wya = (dh - tyn) as int;
        assert(p00 * wxa * wya + p10 * (txn as int) * wya + p01 * wxa * (tyn as int) + p11 * (txn
            as int) * (tyn as int) <= 255 * ((dw as int) * (dh as int))) by (nonlinear_arith)
            requires
                0 <= p00 <= 255,
                0 <= p10 <= 255,
                0 <= p01 <= 255,
                0 <= p11 <= 255,
                0 <= txn as int,
                (txn as int) < (dw as int),
                0 <= tyn as int,
                (tyn as int) < (dh as int),
                wxa == dw as int - txn as int,
                wya == dh as int - tyn as int,
        ;
    }
    let wx0: u128 = (dw - txn) as u128;
    let wy0: u128 = (dh - tyn) as u128;
    let tx: u128 = txn as u128;
    let ty: u128 = tyn as u128;
    proof {
        let big: int = 0x1_0000_0000;
        assert((p00 as int) * (wx0 as int) <= 0xFF * big && (p00 as int) * (wx0 as int) * (wy0
            as int) <= 0xFF * big * big && (p10 as int) * (tx as int) <= 0xFF * big && (p10
            as int) * (tx as int) * (wy0 as int) <= 0xFF * big * big && (p01 as int) * (wx0
            as int) <= 0xFF * big && (p01 as int) * (wx0 as int) * (ty as int) <= 0xFF * big
            * big && (p11 as int) * (tx as int) <= 0xFF * big && (p11 as int) * (tx as int) * (
        ty as int) <= 0xFF * big * big) by (nonlinear_arith)
            requires
                big == 0x1_0000_0000,
                0 <= p00 <= 255,
                0 <= p10 <= 255,
                0 <= p01 <= 255,
                0 <= p11 <= 255,
                0 <= wx0 as int <= big,
                0 <= wy0 as int <= big,
                0 <= tx as int,
                (tx as int) < big,
                0 <= ty as int,
                (ty as int) < big,
        ;
    }
    let num: u128 = (p00 as u128) * wx0 * wy0 + (p10 as u128) * tx * wy0 + (p01 as u128) * wx0
        * ty + (p11 as u128) * tx * ty;
    let den: u128 = (dw as u128) * (dh as u128);
    let rounded: u128 = (2 * num + den) / (2 * den);
    if rounded > 255 {
        255u8
    } else {
        rounded as u8
    }
}

/// The bilinearly interpolated destination pixel at (x, y) for a resize of
/// `image` to `dw` by `dh`.
fn blerp_pixel(image: &PpmImage, dw: u32, dh: u32, x: u32, y: u32) -> (p: PixelBytes)
    requires
        image.wf(),
        1 <= dw,
        1 <= dh,
        x < dw,
        y < dh,
    ensures
        p@ == seq![
            blerp_channel(
                image@,
                image.spec_width() as int,
                image.spec_height() as int,
                dw as int,
                dh as int,
                x as int,
                y as int,
                0,
            ),
            blerp_channel(
                image@,
                image.spec_width() as int,
                image.spec_height() as int,
                dw as int,
                dh as int,
                x as int,
                y as int,
                1,
            ),
            blerp_channel(
                image@,
                image.spec_width() as int,
                image.spec_height() as int,
                dw as int,
                dh as int,
                x as int,
                y as int,
                2,
            ),
        ],
{
    let sw = image.width();
    let sh = image.height();
    let ghost swi = sw as int;
    let ghost shi = sh as int;
    if sw == 0 || sh == 0 {
        // Every one of the four neighbors lies outside a degenerate source,
        // so the zero-padded mix is black.
        let p = [0u8, 0u8, 0u8];
        proof {
            assert(p@ =~= seq![0u8, 0u8, 0u8]);
            let den: int = (dw as int) * (dh as int);
            assert(1 <= den && den < 2 * den) by (nonlinear_arith)
                requires
                    1 <= dw as int,
                    1 <= dh as int,
                    den == (dw as int) * (dh as int),
            ;
            vstd::arithmetic::div_mod::lemma_basic_div(den, 2 * den);
            assert forall|ch: int| 0 <= ch < 3 implies blerp_channel(
                image@,
                swi,
                shi,
                dw as int,
                dh as int,
                x as int,
                y as int,
                ch,
            ) == 0u8 by {
                let nx = (x as int) * (swi - 1);
                let ny = (y as int) * (shi - 1);
                let gxi = nx / (dw as int);
                let gyi = ny / (dh as int);
                assert(sample(image@, swi, shi, gxi, gyi, Padding::Zero, ch) == 0);
                assert(sample(image@, swi, shi, gxi + 1, gyi, Padding::Zero, ch) == 0);
                assert(sample(image@, swi, shi, gxi, gyi + 1, Padding::Zero, ch) == 0);
                assert(sample(image@, swi, shi, gxi + 1, gyi + 1, Padding::Zero, ch) == 0);
                lemma_blerp_round_zero(nx % (dw as int), ny % (dh as int), dw as int, dh as int);
            }
        }
        return p;
    }
    proof {
        let big: int = 0xFFFF_FFFF;
        assert((x as int) * ((sw - 1) as int) <= big * big && (y as int) * ((sh - 1) as int)
            <= big * big) by (nonlinear_arith)
            requires
                big == 0xFFFF_FFFF,
                0 <= x as int <= big,
                0 <= y as int <= big,
                0 <= (sw - 1) as int <= big,
                0 <= (sh - 1) as int <= big,
        ;
    }
    let nx: u64 = (x as u64) * ((sw - 1) as u64);
    let ny: u64 = (y as u64) * ((sh - 1) as u64);
    let gxi: u64 = nx / (dw as u64);
    let txn: u64 = nx % (dw as u64);
    let gyi: u64 = ny / (dh as u64);
    let tyn: u64 = ny % (dh as u64);
    proof {
        assert((nx as int) <= ((dw as int) - 1) * ((swi - 1) as int) && ((dw as int) - 1) * (swi
            - 1) <= (dw as int) * (swi - 1)) by (nonlinear_arith)
            requires
                0 <= x as int,
                (x as int) <= (dw as int) - 1,
                1 <= swi,
                nx as int == (x as int) * (swi - 1),
        ;
        vstd::arithmetic::div_mod::lemma_div_is_ordered(
            nx as int,
            (dw as int) * (swi - 1),
            dw as int,
        );
        vstd::arithmetic::div_mod::lemma_div_multiples_vanish(swi - 1, dw as int);
        assert(gxi as int <= swi - 1);
        assert((ny as int) <= ((dh as int) - 1) * ((shi - 1) as int) && ((dh as int) - 1) * (shi
            - 1) <= (dh as int) * (shi - 1)) by (nonlinear_arith)
            requires
                0 <= y as int,
                (y as int) <= (dh as int) - 1,
                1 <= shi,
                ny as int == (y as int) * (shi - 1),
        ;
        vstd::arithmetic::div_mod::lemma_div_is_ordered(
            ny as int,
            (dh as int) * (shi - 1),
            dh as int,
        );
        vstd::arithmetic::div_mod::lemma_div_multiples_vanish(shi - 1, dh as int);
        assert(gyi as int <= shi - 1);
    }
    let p00 = image.sample_at(gxi as i64, gyi as i64, Padding::Zero);
    let p10 = image.sample_at(gxi as i64 + 1, gyi as i64, Padding::Zero);
    let p01 = image.sample_at(gxi as i64, gyi as i64 + 1, Padding::Zero);
    let p11 = image.sample_at(gxi as i64 + 1, gyi as i64 + 1, Padding::Zero);
    let c0 = blerp_round(p00[0], p10[0], p01[0], p11[0], txn, tyn, dw as u64, dh as u64);
    let c1 = blerp_round(p00[1], p10[1], p01[1], p11[1], txn, tyn, dw as u64, dh as u64);
    let c2 = blerp_round(p00[2], p10[2], p01[2], p11[2], txn, tyn, dw as u64, dh as u64);
    let p = [c0, c1, c2];
    proof {
        assert(p@ =~= seq![c0, c1, c2]);
    }
    p
}

/// Unfolds one entry of a raster buffer built slot-wise from a channel rule:
/// the byte at channel `ch` of slot `(x, y)` is that rule's value there.
pub(crate) proof fn lemma_raster_index(i: int, dw: int, x: int, y: int, ch: int)
    requires
        0 <= x < dw,
        0 <= y,
        0 <= ch < 3,
        i == 3 * (y * dw + x) + ch,
    ensures
        i / 3 == y * dw + x,
        i % 3 == ch,
        (i / 3) % dw == x,
        (i / 3) / dw == y,
{
    let slot = y * dw + x;
    vstd::arithmetic::div_mod::lemma_fundamental_div_mod_converse(i, 3, slot, ch);
    vstd::arithmetic::div_mod::lemma_fundamental_div_mod_converse(slot, dw, y, x);
}

/// After writing the three target bytes of one slot, the matched prefix of a
/// raster under construction grows by one slot.
pub(crate) proof fn lemma_raster_write_extends(
    before: Seq<u8>,
    after: Seq<u8>,
    target: Seq<u8>,
    slot: int,
    w: int,
    h: int,
    x: int,
    y: int,
    p: Seq<u8>,
)
    requires
        0 <= x < w,
        0 <= y < h,
        slot == y * w + x,
        3 * slot + 2 < before.len(),
        p.len() == 3,
        before.len() == target.len(),
        after == before.update(3 * (x + y * w), p[0]).update(3 * (x + y * w) + 1, p[1]).update(
            3 * (x + y * w) + 2,
            p[2],
        ),
        forall|m: int| 0 <= m < 3 * slot ==> before[m] == target[m],
        p[0] == target[3 * slot],
        p[1] == target[3 * slot + 1],
        p[2] == target[3 * slot + 2],
    ensures
        forall|m: int| 0 <= m < 3 * (slot + 1) ==> after[m] == target[m],
        after.len() == target.len(),
{
    assert(3 * (x + y * w) == 3 * slot);
    assert forall|m: int| 0 <= m < 3 * (slot + 1) implies after[m] == target[m] by {
        if m < 3 * slot {
            assert(after[m] == before[m]);
        }
    }
}

/// Resizes by bilinear interpolation to `width` by `height`.
fn bilinear_interpolation(image: &PpmImage, width: u32, height: u32) -> (r: OperationResult)
    requires
        image.wf(),
        1 <= width,
        1 <= height,
        3 * (width as int) * (height as int) <= usize::MAX as int,
    ensures
        r matches Ok(img) && img.wf() && img.stats_valid() && img.spec_width() == width
            && img.spec_height() == height && img@ == bilinear_seq(
            image@,
            image.spec_width() as int,
            image.spec_height() as int,
            width as int,
            height as int,
        ),
{
    let ghost target = bilinear_seq(
        image@,
        image.spec_width() as int,
        image.spec_height() as int,
        width as int,
        height as int,
    );
    let mut new_image = PpmImage::new(width, height);
    proof {
        let w = width as int;
        let h = height as int;
        assert(3 * (w * h) == 3 * w * h) by (nonlinear_arith);
        assert(target.len() == new_image@.len());
    }
    let mut y: u32 = 0;
    while y < height
        invariant
            y <= height,
            1 <= width,
            1 <= height,
            image.wf(),
            new_image.wf(),
            new_image.stats_valid(),
            new_image.spec_keep_updated(),
            new_image.spec_width() == width,
            new_image.spec_height() == height,
            target == bilinear_seq(
                image@,
                image.spec_width() as int,
                image.spec_height() as int,
                width as int,
                height as int,
            ),
            target.len() == new_image@.len(),
            forall|m: int| 0 <= m < 3 * (y * width) ==> new_image@[m] == target[m],
        decreases height - y,
    {
        let mut x: u32 = 0;
        while x < width
            invariant
                y < height,
                x <= width,
                1 <= width,
                1 <= height,
                image.wf(),
                new_image.wf(),
                new_image.stats_valid(),
                new_image.spec_keep_updated(),
                new_image.spec_width() == width,
                new_image.spec_height() == height,
                target == bilinear_seq(
                    image@,
                    image.spec_width() as int,
                    image.spec_height() as int,
                    width as int,
                    height as int,
                ),
                target.len() == new_image@.len(),
                forall|m: int| 0 <= m < 3 * (y * width + x) ==> new_image@[m] == target[m],
            decreases width - x,
        {
            let p = blerp_pixel(image, width, height, x, y);
            let ghost before = new_image@;
            new_image.set_pixel_by_coord(x, y, &p);
            proof {
                let slot = (y as int) * (width as int) + (x as int);
                let swi = image.spec_width() as int;
                let shi = image.spec_height() as int;
                let dwi = width as int;
                let dhi = height as int;
                crate::ppm::lemma_index_in_bounds(x as int, y as int, dwi, dhi);
                lemma_raster_index(3 * slot, dwi, x as int, y as int, 0);
                lemma_raster_index(3 * slot + 1, dwi, x as int, y as int, 1);
                lemma_raster_index(3 * slot + 2, dwi, x as int, y as int, 2);
                assert(3 * slot + 2 < 3 * (dwi * dhi)) by (nonlinear_arith)
                    requires
                        0 <= slot,
                        slot < dwi * dhi,
                ;
                assert(target[3 * slot] == blerp_channel(
                    image@,
                    swi,
                    shi,
                    dwi,
                    dhi,
                    x as int,
                    y as int,
                    0,
                ));
                lemma_raster_write_extends(
                    before,
                    new_image@,
                    target,
                    slot,
                    dwi,
                    dhi,
                    x as int,
                    y as int,
                    p@,
                );
            }
            x = x + 1;
        }
        y = y + 1;
        proof {
            assert(((y - 1) as int) * (width as int) + (width as int) == (y as int) * (width
                as int)) by (nonlinear_arith);
        }
    }
    proof {
        assert((y as int) * (width as int) == (width as int) * (height as int))
            by (nonlinear_arith)
            requires
                y as int == height as int,
        ;
        assert(new_image@ =~= target);
    }
    Ok(new_image)
}

/// Resizes by nearest-neighbor sampling to `width` by `height`.
fn nearest_neighbor(image: &PpmImage, width: u32, height: u32) -> (r: OperationResult)
    requires
        image.wf(),
        1 <= image.spec_width(),
        1 <= image.spec_height(),
        1 <= width,
        1 <= height,
        3 * (width as int) * (height as int) <= usize::MAX as int,
    ensures
        r matches Ok(img) && img.wf() && img.stats_valid() && img.spec_width() == width
            && img.spec_height() == height && img@ == nn_seq(
            image@,
            image.spec_width() as int,
            image.spec_height() as int,
            width as int,
            height as int,
        ),
{
    let sw = image.width();
    let sh = image.height();
    let ghost target = nn_seq(image@, sw as int, sh as int, width as int, height as int);
    let mut new_image = PpmImage::new(width, height);
    proof {
        let w = width as int;
        let h = height as int;
        assert(3 * (w * h) == 3 * w * h) by (nonlinear_arith);
        assert(target.len() == new_image@.len());
    }
    let mut i: u32 = 0;
    while i < height
        invariant
            i <= height,
            1 <= width,
            1 <= height,
            1 <= sw,
            1 <= sh,
            sw == image.spec_width(),
            sh == image.spec_height(),
            image.wf(),
            new_image.wf(),
            new_image.stats_valid(),
            new_image.spec_keep_updated(),
            new_image.spec_width() == width,
            new_image.spec_height() == height,
            target == nn_seq(image@, sw as int, sh as int, width as int, height as int),
            target.len() == new_image@.len(),
            forall|m: int| 0 <= m < 3 * (i * width) ==> new_image@[m] == target[m],
        decreases height - i,
    {
        let mut j: u32 = 0;
        while j < width
            invariant
                i < height,
                j <= width,
                1 <= width,
                1 <= height,
                1 <= sw,
                1 <= sh,
                sw == image.spec_width(),
                sh == image.spec_height(),
                image.wf(),
                new_image.wf(),
                new_image.stats_valid(),
                new_image.spec_keep_updated(),
                new_image.spec_width() == width,
                new_image.spec_height() == height,
                target == nn_seq(image@, sw as int, sh as int, width as int, height as int),
                target.len() == new_image@.len(),
                forall|m: int| 0 <= m < 3 * (i * width + j) ==> new_image@[m] == target[m],
            decreases width - j,
        {
            proof {
                let big: int = 0xFFFF_FFFF;
                assert((j as int) * (sw as int) <= big * big && (i as int) * (sh as int) <= big
                    * big) by (nonlinear_arith)
                    requires
                        big == 0xFFFF_FFFF,
                        0 <= j as int <= big,
                        0 <= i as int <= big,
                        0 <= sw as int <= big,
                        0 <= sh as int <= big,
                ;
            }
            let px64: u64 = (j as u64) * (sw as u64) / (width as u64);
            let py64: u64 = (i as u64) * (sh as u64) / (height as u64);
            proof {
                vstd::arithmetic::div_mod::lemma_fundamental_div_mod(
                    (j as int) * (sw as int),
                    width as int,
                );
                assert((px64 as int) < (sw as int)) by (nonlinear_arith)
                    requires
                        (j as int) * (sw as int) == (width as int) * (px64 as int) + ((j as int)
                            * (sw as int)) % (width as int),
                        0 <= ((j as int) * (sw as int)) % (width as int),
                        (j as int) < (width as int),
                        1 <= width as int,
                        1 <= sw as int,
                        0 <= j as int,
                        0 <= px64 as int,
                ;
                vstd::arithmetic::div_mod::lemma_fundamental_div_mod(
                    (i as int) * (sh as int),
                    height as int,
                );
                assert((py64 as int) < (sh as int)) by (nonlinear_arith)
                    requires
                        (i as int) * (sh as int) == (height as int) * (py64 as int) + ((i as int)
                            * (sh as int)) % (height as int),
                        0 <= ((i as int) * (sh as int)) % (height as int),
                        (i as int) < (height as int),
                        1 <= height as int,
                        1 <= sh as int,
                        0 <= i as int,
                        0 <= py64 as int,
                ;
                crate::ppm::lemma_index_in_bounds(px64 as int, py64 as int, sw as int, sh as int);
                assert(3 * ((py64 as int) * (sw as int) + (px64 as int)) + 2 < 3 * ((sw as int)
                    * (sh as int))) by (nonlinear_arith)
                    requires
                        0 <= (py64 as int) * (sw as int) + (px64 as int),
                        (py64 as int) * (sw as int) + (px64 as int) < (sw as int) * (sh as int),
                ;
                let w = sw as int;
                let h = sh as int;
                assert(3 * (w * h) == 3 * w * h) by (nonlinear_arith);
            }
            let px = px64 as u32;
            let py = py64 as u32;
            let src_slot: usize = (py as usize) * (sw as usize) + (px as usize);
            let pixel = image.get_pixel_at(src_slot);
            let ghost before = new_image@;
            new_image.set_pixel_by_coord(j, i, &pixel);
            proof {
                let slot = (i as int) * (width as int) + (j as int);
                let dwi = width as int;
                let dhi = height as int;
                crate::ppm::lemma_index_in_bounds(j as int, i as int, dwi, dhi);
                lemma_raster_index(3 * slot, dwi, j as int, i as int, 0);
                lemma_raster_index(3 * slot + 1, dwi, j as int, i as int, 1);
                lemma_raster_index(3 * slot + 2, dwi, j as int, i as int, 2);
                assert(3 * slot + 2 < 3 * (dwi * dhi)) by (nonlinear_arith)
                    requires
                        0 <= slot,
                        slot < dwi * dhi,
                ;
                assert(target[3 * slot] == nn_channel(
                    image@,
                    sw as int,
                    sh as int,
                    dwi,
                    dhi,
                    j as int,
                    i as int,
                    0,
                ));
                assert(pixel@[0] == image@[3 * (src_slot as int)]);
                lemma_raster_write_extends(
                    before,
                    new_image@,
                    target,
                    slot,
                    dwi,
                    dhi,
                    j as int,
                    i as int,
                    pixel@,
                );
            }
            j = j + 1;
        }
        i = i + 1;
        proof {
            assert(((i - 1) as int) * (width as int) + (width as int) == (i as int) * (width
                as int)) by (nonlinear_arith);
        }
    }
    proof {
        assert((i as int) * (width as int) == (width as int) * (height as int))
            by (nonlinear_arith)
            requires
                i as int == height as int,
        ;
        assert(new_image@ =~= target);
    }
    Ok(new_image)
}

/// The algorithm a caller's choice resolves to: nearest-neighbor when none
/// was named.
pub open spec fn effective_algo(a: Option<ResizeAlgorithm>) -> ResizeAlgorithm {
    match a {
        Some(algo) => algo,
        None => ResizeAlgorithm::NearestNeighbor,
    }
}

/// Resizes an image to the given dimensions with the chosen algorithm
/// (nearest-neighbor when none is chosen). A target that matches the source
/// is returned as an identical copy without resampling; degenerate geometry
/// — a zero target dimension, or a zero source dimension that
/// nearest-neighbor sampling cannot read from — is rejected with a
/// descriptive error. (Bilinear resampling accepts an empty source: all its
/// zero-padded reads come back black.)
pub fn resize(image: &PpmImage, width: u32, height: u32, resize_algo: Option<ResizeAlgorithm>)
    -> (r: OperationResult)
    requires
        image.wf(),
        3 * (width as int) * (height as int) <= usize::MAX as int,
    ensures
        ({
            let sw = image.spec_width() as int;
            let sh = image.spec_height() as int;
            if image.spec_width() == width && image.spec_height() == height {
                r matches Ok(img) && img@ == image@ && img.spec_header() == image.spec_header()
                    && img.wf()
            } else if width == 0 || height == 0 || (effective_algo(resize_algo)
                == ResizeAlgorithm::NearestNeighbor && (image.spec_width() == 0
                || image.spec_height() == 0)) {
                r matches Err(m) && m@ == "The image cannot have height or width be zero."@
            } else {
                r matches Ok(img) && img.wf() && img.stats_valid() && img.spec_width() == width
                    && img.spec_height() == height && img@ == (if effective_algo(resize_algo)
                    == ResizeAlgorithm::NearestNeighbor {
                    nn_seq(image@, sw, sh, width as int, height as int)
                } else {
                    bilinear_seq(image@, sw, sh, width as int, height as int)
                })
            }
        }),
{
    let resize_algorithm = match resize_algo {
        Some(algo) => algo,
        None => ResizeAlgorithm::NearestNeighbor,
    };
    if image.width() == width && image.height() == height {
        return Ok(image.clone());
    }
    if width == 0 || height == 0 {
        return Err(String::from_str("The image cannot have height or width be zero."));
    }
    match resize_algorithm {
        ResizeAlgorithm::NearestNeighbor => {
            if image.width() == 0 || image.height() == 0 {
                return Err(String::from_str("The image cannot have height or width be zero."));
            }
            nearest_neighbor(image, width, height)
        },
        ResizeAlgorithm::BilinearInterpolation => bilinear_interpolation(image, width, height),
    }
}

/// Combines two same-sized images channel slot by channel slot.
fn combine_equal(lhs: &PpmImage, rhs: &PpmImage, optype: OpType) -> (img: PpmImage)
    requires
        lhs.wf(),
        rhs.wf(),
        lhs.spec_width() == rhs.spec_width(),
        lhs.spec_height() == rhs.spec_height(),
    ensures
        img.wf(),
        img.stats_valid(),
        img.spec_width() == lhs.spec_width(),
        img.spec_height() == lhs.spec_height(),
        img@ == combine_seq(lhs@, rhs@, optype),
{
    let width = lhs.width();
    let height = lhs.height();
    let ghost target = combine_seq(lhs@, rhs@, optype);
    let mut new_image = PpmImage::new(width, height);
    proof {
        let w = width as int;
        let h = height as int;
        assert(3 * (w * h) == 3 * w * h) by (nonlinear_arith);
        assert(target.len() == new_image@.len());
    }
    let total: usize = (width as usize) * (height as usize);
    let mut pixel_index: usize = 0;
    let mut i: usize = 0;
    while i < total
        invariant
            i <= total,
            pixel_index == 3 * i,
            total == (lhs.spec_width() as int) * (lhs.spec_height() as int),
            lhs.wf(),
            rhs.wf(),
            lhs.spec_width() == rhs.spec_width(),
            lhs.spec_height() == rhs.spec_height(),
            new_image.wf(),
            new_image.stats_valid(),
            new_image.spec_keep_updated(),
            new_image.spec_width() == lhs.spec_width(),
            new_image.spec_height() == lhs.spec_height(),
            target == combine_seq(lhs@, rhs@, optype),
            target.len() == new_image@.len(),
            3 * total == new_image@.len(),
            forall|m: int| 0 <= m < 3 * i ==> new_image@[m] == target[m],
        decreases total - i,
    {
        proof {
            assert(3 * i + 2 < 3 * total);
        }
        let a = lhs.get_pixel_at(i);
        let b = rhs.get_pixel_at(i);
        let output_pixel = [
            op_exec(optype, a[0], b[0]),
            op_exec(optype, a[1], b[1]),
            op_exec(optype, a[2], b[2]),
        ];
        let ghost before = new_image@;
        new_image.set_pixel(&mut pixel_index, &output_pixel);
        proof {
            assert(output_pixel@ =~= seq![output_pixel[0], output_pixel[1], output_pixel[2]]);
            assert forall|m: int| 0 <= m < 3 * (i + 1) implies new_image@[m] == target[m] by {
                if m < 3 * i {
                    assert(new_image@[m] == before[m]);
                } else {
                    assert(target[m] == op_apply(optype, lhs@[m], rhs@[m]));
                }
            }
        }
        i = i + 1;
    }
    proof {
        assert(new_image@ =~= target);
    }
    new_image
}

/// What an operand looks like after being brought to the compromise size: an
/// operand already at that size is kept verbatim (the resize engine returns
/// an identical copy), any other is resampled bilinearly.
pub open spec fn resized_view(s: Seq<u8>, sw: int, sh: int, dw: int, dh: int) -> Seq<u8> {
    if sw == dw && sh == dh {
        s
    } else {
        bilinear_seq(s, sw, sh, dw, dh)
    }
}

/// Combines two images with the chosen arithmetic operation. Operands of
/// different sizes are first both resampled bilinearly to the compromise
/// size; a degenerate compromise size is rejected.
pub fn perform_operation(lhs: &PpmImage, rhs: &PpmImage, optype: OpType) -> (r: OperationResult)
    requires
        lhs.wf(),
        rhs.wf(),
        lhs.spec_width() + rhs.spec_width() <= u32::MAX,
        lhs.spec_height() + rhs.spec_height() <= u32::MAX,
        3 * (((lhs.spec_width() + rhs.spec_width()) / 2) as int) * (((lhs.spec_height()
            + rhs.spec_height()) / 2) as int) <= usize::MAX as int,
    ensures
        ({
            let w1 = lhs.spec_width() as int;
            let h1 = lhs.spec_height() as int;
            let w2 = rhs.spec_width() as int;
            let h2 = rhs.spec_height() as int;
            let w = (w1 + w2) / 2;
            let h = (h1 + h2) / 2;
            if w1 == w2 && h1 == h2 {
                r matches Ok(img) && img.wf() && img.stats_valid() && img.spec_width() == w1
                    && img.spec_height() == h1 && img@ == combine_seq(lhs@, rhs@, optype)
            } else if w == 0 || h == 0 {
                r matches Err(m) && m@ == "The image cannot have height or width be zero."@
            } else {
                r matches Ok(img) && img.wf() && img.stats_valid() && img.spec_width() == w
                    && img.spec_height() == h && img@ == combine_seq(
                    resized_view(lhs@, w1, h1, w, h),
                    resized_view(rhs@, w2, h2, w, h),
                    optype,
                )
            }
        }),
{
    let (w, h) = friendly_scale_match(lhs.width(), lhs.height(), rhs.width(), rhs.height());
    if lhs.width() != rhs.width() || lhs.height() != rhs.height() {
        let left_resize = resize(lhs, w, h, Some(ResizeAlgorithm::BilinearInterpolation));
        let right_resize = resize(rhs, w, h, Some(ResizeAlgorithm::BilinearInterpolation));
        match (left_resize, right_resize) {
            (Ok(lhs_resized), Ok(rhs_resized)) => Ok(
                combine_equal(&lhs_resized, &rhs_resized, optype),
            ),
            (Err(msg), _) => Err(msg),
            (_, Err(msg)) => Err(msg),
        }
    } else {
        Ok(combine_equal(lhs, rhs, optype))
    }
}

/// Negates an image against its effective maximum channel value: every
/// channel byte v becomes `max_value - v`. The result's header declares that
/// maximum.
pub fn negate(image: &PpmImage) -> (r: OperationResult)
    requires
        image.wf(),
        image.stats_valid(),
    ensures
        r matches Ok(img) && img.wf() && img.stats_valid() && img.spec_width()
            == image.spec_width() && img.spec_height() == image.spec_height() && img@ == Seq::new(
            image@.len(),
            |i: int| (image.spec_max_value() - image@[i]) as u8,
        ) && img.spec_header().max_value == image.spec_max_value() as u16,
{
    let max_value = image.max_value();
    let ghost target = Seq::new(image@.len(), |i: int| (image.spec_max_value() - image@[i]) as u8);
    let width = image.width();
    let height = image.height();
    let mut negated_image = PpmImage::new(width, height);
    negated_image.hint_max_value(max_value as u16);
    proof {
        let w = width as int;
        let h = height as int;
        assert(3 * (w * h) == 3 * w * h) by (nonlinear_arith);
        assert(target.len() == negated_image@.len());
    }
    let total: usize = (width as usize) * (height as usize);
    let mut pixel_index: usize = 0;
    let mut i: usize = 0;
    while i < total
        invariant
            i <= total,
            pixel_index == 3 * i,
            max_value == image.spec_max_value(),
            image.wf(),
            image.stats_valid(),
            forall|m: int| 0 <= m < image@.len() ==> image@[m] <= max_value,
            negated_image.wf(),
            negated_image.stats_valid(),
            negated_image.spec_keep_updated(),
            negated_image.spec_width() == image.spec_width(),
            negated_image.spec_height() == image.spec_height(),
            negated_image.spec_header().max_value == max_value as u16,
            target == Seq::new(
                image@.len(),
                |m: int| (image.spec_max_value() - image@[m]) as u8,
            ),
            target.len() == negated_image@.len(),
            3 * total == negated_image@.len(),
            image@.len() == negated_image@.len(),
            forall|m: int| 0 <= m < 3 * i ==> negated_image@[m] == target[m],
        decreases total - i,
    {
        proof {
            assert(3 * i + 2 < 3 * total);
        }
        let bytes = image.get_pixel_at(i);
        let negated_pixel = [max_value - bytes[0], max_value - bytes[1], max_value - bytes[2]];
        let ghost before = negated_image@;
        negated_image.set_pixel(&mut pixel_index, &negated_pixel);
        proof {
            assert(negated_pixel@ =~= seq![negated_pixel[0], negated_pixel[1], negated_pixel[2]]);
            assert forall|m: int| 0 <= m < 3 * (i + 1) implies negated_image@[m] == target[m] by {
                if m < 3 * i {
                    assert(negated_image@[m] == before[m]);
                }
            }
        }
        i = i + 1;
    }
    proof {
        assert(negated_image@ =~= target);
    }
    Ok(negated_image)
}

/// Remaps every channel byte through a 256-entry lookup table. This is the
/// engine behind the tonal transforms: a caller derives the table from its
/// transfer curve and the engine applies it uniformly.
pub fn apply_channel_table(image: &PpmImage, table: &Vec<u8>) -> (img: PpmImage)
    requires
        image.wf(),
        table@.len() == 256,
    ensures
        img.wf(),
        img.stats_valid(),
        img.spec_width() == image.spec_width(),
        img.spec_height() == image.spec_height(),
        img@ == Seq::new(image@.len(), |i: int| table@[image@[i] as int]),
{
    let ghost target = Seq::new(image@.len(), |i: int| table@[image@[i] as int]);
    let width = image.width();
    let height = image.height();
    let mut new_image = PpmImage::new(width, height);
    proof {
        let w = width as int;
        let h = height as int;
        assert(3 * (w * h) == 3 * w * h) by (nonlinear_arith);
        assert(target.len() == new_image@.len());
    }
    let total: usize = (width as usize) * (height as usize);
    let mut pixel_index: usize = 0;
    let mut i: usize = 0;
    while i < total
        invariant
            i <= total,
            pixel_index == 3 * i,
            image.wf(),
            table@.len() == 256,
            new_image.wf(),
            new_image.stats_valid(),
            new_image.spec_keep_updated(),
            new_image.spec_width() == image.spec_width(),
            new_image.spec_height() == image.spec_height(),
            target == Seq::new(image@.len(), |m: int| table@[image@[m] as int]),
            target.len() == new_image@.len(),
            3 * total == new_image@.len(),
            image@.len() == new_image@.len(),
            forall|m: int| 0 <= m < 3 * i ==> new_image@[m] == target[m],
        decreases total - i,
    {
        proof {
            assert(3 * i + 2 < 3 * total);
        }
        let bytes = image.get_pixel_at(i);
        let mapped = [
            table[bytes[0] as usize],
            table[bytes[1] as usize],
            table[bytes[2] as usize],
        ];
        let ghost before = new_image@;
        new_image.set_pixel(&mut pixel_index, &mapped);
        proof {
            assert(mapped@ =~= seq![mapped[0], mapped[1], mapped[2]]);
            assert forall|m: int| 0 <= m < 3 * (i + 1) implies new_image@[m] == target[m] by {
                if m < 3 * i {
                    assert(new_image@[m] == before[m]);
                }
            }
        }
        i = i + 1;
    }
    proof {
        assert(new_image@ =~= target);
    }
    new_image
}

/// The total count recorded in the first `n` entries of a histogram list.
pub open spec fn psum(h: Seq<(u32, usize)>, n: int) -> nat
    decreases n,
{
    if n <= 0 {
        0
    } else {
        (psum(h, n - 1) + h[n - 1].1) as nat
    }
}

/// Prefix totals only grow.
pub proof fn lemma_psum_mono(h: Seq<(u32, usize)>, n1: int, n2: int)
    requires
        n1 <= n2,
    ensures
        psum(h, n1) <= psum(h, n2),
    decreases n2 - n1,
{
    if n1 < n2 {
        lemma_psum_mono(h, n1, n2 - 1);
    }
}

/// Each entry's count is part of any prefix total that covers it.
pub proof fn lemma_psum_ge_entry(h: Seq<(u32, usize)>, i: int, n: int)
    requires
        0 <= i < n,
    ensures
        psum(h, n) >= h[i].1,
{
    assert(psum(h, i + 1) == psum(h, i) + h[i].1);
    lemma_psum_mono(h, i + 1, n);
}

/// Raising the count of entry `i` by one raises every covering prefix total
/// by one and leaves the rest alone.
pub proof fn lemma_psum_bump(h: Seq<(u32, usize)>, i: int, c: usize, n: int)
    requires
        0 <= i < h.len(),
        n <= h.len(),
    ensures
        psum(h.update(i, (h[i].0, c)), n) == if i < n {
            psum(h, n) - h[i].1 + c
        } else {
            psum(h, n) as int
        },
    decreases n,
{
    if n > 0 {
        lemma_psum_bump(h, i, c, n - 1);
        let h2 = h.update(i, (h[i].0, c));
        assert(psum(h2, n) == psum(h2, n - 1) + h2[n - 1].1);
        assert(psum(h, n) == psum(h, n - 1) + h[n - 1].1);
        if n - 1 == i {
            assert(h2[n - 1].1 == c);
        } else {
            assert(h2[n - 1] == h[n - 1]);
        }
    }
}

/// Inserting an entry adds its count to every prefix total that covers it.
pub proof fn lemma_psum_insert(h: Seq<(u32, usize)>, i: int, e: (u32, usize), n: int)
    requires
        0 <= i <= h.len(),
        n <= h.len() + 1,
    ensures
        psum(h.insert(i, e), n) == if i < n {
            psum(h, n - 1) + e.1
        } else {
            psum(h, n) as int
        },
    decreases n,
{
    if n > 0 {
        lemma_psum_insert(h, i, e, n - 1);
        let h2 = h.insert(i, e);
        if n - 1 < i {
            assert(h2[n - 1] == h[n - 1]);
        } else if n - 1 == i {
            assert(h2[n - 1] == e);
        } else {
            assert(h2[n - 1] == h[n - 2]);
        }
    }
}

/// Finds the entry for `key` in a sorted entry list, or the position where
/// an entry for it would keep the list sorted.
fn locate_entry(data: &Vec<(u32, usize)>, key: u32) -> (r: Result<usize, usize>)
    requires
        crate::ppm::hist_wf(data@),
    ensures
        match r {
            Ok(i) => i < data@.len() && data@[i as int].0 == key,
            Err(i) => {
                &&& i <= data@.len()
                &&& forall|j: int| 0 <= j < data@.len() ==> (#[trigger] data@[j]).0 != key
                &&& forall|j: int| 0 <= j < i ==> (#[trigger] data@[j]).0 < key
                &&& forall|j: int| i <= j < data@.len() ==> (#[trigger] data@[j]).0 > key
            },
        },
{
    let n = data.len();
    let mut i: usize = 0;
    while i < n
        invariant
            i <= n,
            n == data@.len(),
            crate::ppm::hist_wf(data@),
            forall|j: int| 0 <= j < i ==> (#[trigger] data@[j]).0 < key,
        decreases n - i,
    {
        let k = data[i].0;
        if k == key {
            return Ok(i);
        }
        if k > key {
            return Err(i);
        }
        i = i + 1;
    }
    Err(n)
}

/// The ordered brightness histogram used by equalization: a mapping from
/// quantized brightness keys to occurrence counts, with the running minimum
/// and maximum key and the total sample count. Keys quantize the value
/// channel of a pixel (a fraction of full brightness scaled to an integer by
/// the caller).
pub struct Histogram {
    data: Vec<(u32, usize)>,
    max_value: u32,
    min_value: u32,
    pixel_count: u32,
}

impl Histogram {
    /// The entry list, in ghost form.
    pub closed spec fn spec_data(&self) -> Seq<(u32, usize)> {
        self.data@
    }

    /// The total sample count, in ghost form.
    pub closed spec fn spec_pixel_count(&self) -> u32 {
        self.pixel_count
    }

    /// The largest key seen, in ghost form (meaningful once a sample is in).
    pub closed spec fn spec_max_value(&self) -> u32 {
        self.max_value
    }

    /// The smallest key seen, in ghost form (meaningful once a sample is in).
    pub closed spec fn spec_min_value(&self) -> u32 {
        self.min_value
    }

    /// Well-formedness: entries are sorted by key with positive counts, the
    /// sample count is their total, and the running minimum and maximum are
    /// the first and last keys.
    pub open spec fn wf(&self) -> bool {
        &&& crate::ppm::hist_wf(self.spec_data())
        &&& forall|i: int|
            0 <= i < self.spec_data().len() ==> (#[trigger] self.spec_data()[i]).1 >= 1
        &&& self.spec_pixel_count() == psum(self.spec_data(), self.spec_data().len() as int)
        &&& self.spec_data().len() > 0 ==> self.spec_min_value() == self.spec_data()[0].0
            && self.spec_max_value() == self.spec_data()[self.spec_data().len() - 1].0
    }

    /// An empty histogram.
    pub fn new() -> (h: Histogram)
        ensures
            h.wf(),
            h.spec_data().len() == 0,
            h.spec_pixel_count() == 0,
    {
        Histogram { data: Vec::new(), max_value: 0, min_value: u32::MAX, pixel_count: 0 }
    }

    /// The number of samples recorded.
    pub fn pixel_count(&self) -> (r: u32)
        ensures
            r == self.spec_pixel_count(),
    {
        self.pixel_count
    }

    /// The largest key recorded, meaningful once a sample is in.
    pub fn max_value(&self) -> (r: u32)
        ensures
            r == self.spec_max_value(),
    {
        self.max_value
    }

    /// The smallest key recorded, meaningful once a sample is in.
    pub fn min_value(&self) -> (r: u32)
        ensures
            r == self.spec_min_value(),
    {
        self.min_value
    }

    /// Records one sample of the quantized brightness `key`: its count (and
    /// the total) rises by one, and the running extremes take it in.
    pub fn add(&mut self, key: u32)
        requires
            old(self).wf(),
            old(self).spec_pixel_count() < u32::MAX,
        ensures
            final(self).wf(),
            final(self).spec_pixel_count() == old(self).spec_pixel_count() + 1,
            forall|k: int|
                #[trigger] crate::ppm::hist_count(final(self).spec_data(), k)
                    == crate::ppm::hist_count(old(self).spec_data(), k) + (if k == key {
                    1nat
                } else {
                    0nat
                }),
            final(self).spec_max_value() == if old(self).spec_data().len() == 0 || key > old(
                self,
            ).spec_max_value() {
                key
            } else {
                old(self).spec_max_value()
            },
            final(self).spec_min_value() == if old(self).spec_data().len() == 0 || key < old(
                self,
            ).spec_min_value() {
                key
            } else {
                old(self).spec_min_value()
            },
    {
        let was_empty = self.data.len() == 0;
        let ghost h0 = self.data@;
        match locate_entry(&self.data, key) {
            Ok(idx) => {
                let count = self.data[idx].1;
                proof {
                    crate::ppm::lemma_hist_count_entry(self.data@, idx as int);
                    lemma_psum_ge_entry(self.data@, idx as int, self.data@.len() as int);
                }
                self.data.set(idx, (key, count + 1));
                proof {
                    crate::ppm::lemma_hist_count_set(h0, idx as int, (count + 1) as usize);
                    lemma_psum_bump(h0, idx as int, (count + 1) as usize, h0.len() as int);
                    assert(self.data@ =~= h0.update(idx as int, (key, (count + 1) as usize)));
                    assert(h0[0].0 <= key && key <= h0[h0.len() - 1].0);
                    assert(self.data@[0].0 == h0[0].0);
                    assert(self.data@[h0.len() - 1].0 == h0[h0.len() - 1].0);
                }
            },
            Err(idx) => {
                proof {
                    crate::ppm::lemma_hist_count_absent(h0, key as int);
                }
                self.data.insert(idx, (key, 1));
                proof {
                    crate::ppm::lemma_hist_count_insert(h0, idx as int, (key, 1usize));
                    lemma_psum_insert(h0, idx as int, (key, 1usize), h0.len() as int + 1);
                    assert(self.data@ =~= h0.insert(idx as int, (key, 1usize)));
                    let h2 = self.data@;
                    assert forall|m1: int, m2: int| 0 <= m1 < m2 < h2.len() implies (
                    #[trigger] h2[m1]).0 < (#[trigger] h2[m2]).0 by {
                        let p = idx as int;
                        if m1 < p {
                            assert(h2[m1] == h0[m1]);
                        }
                        if m2 < p {
                            assert(h2[m2] == h0[m2]);
                        }
                        if m1 > p {
                            assert(h2[m1] == h0[m1 - 1]);
                        }
                        if m2 > p {
                            assert(h2[m2] == h0[m2 - 1]);
                        }
                    }
                    if idx == 0 {
                        assert(h2[0] == (key, 1usize));
                        if h0.len() > 0 {
                            assert(key < h0[0].0);
                        }
                    } else {
                        assert(h2[0] == h0[0]);
                        assert(h0[0].0 < key);
                    }
                    if idx == h0.len() {
                        assert(h2[h2.len() - 1] == (key, 1usize));
                        if h0.len() > 0 {
                            assert(key > h0[h0.len() - 1].0);
                        }
                    } else {
                        assert(h2[h2.len() - 1] == h0[h0.len() - 1]);
                        assert(h0[h0.len() - 1].0 > key);
                    }
                }
            },
        }
        if was_empty {
            self.max_value = key;
            self.min_value = key;
        } else {
            if key > self.max_value {
                self.max_value = key;
            }
            if key < self.min_value {
                self.min_value = key;
            }
        }
        self.pixel_count = self.pixel_count + 1;
    }

    /// The recorded keys, in ascending order.
    pub fn intensities(&self) -> (r: Vec<u32>)
        ensures
            r@.len() == self.spec_data().len(),
            forall|i: int| 0 <= i < r@.len() ==> r@[i] == (#[trigger] self.spec_data()[i]).0,
    {
        let mut r: Vec<u32> = Vec::new();
        let mut i: usize = 0;
        while i < self.data.len()
            invariant
                i <= self.data@.len(),
                r@.len() == i,
                forall|j: int| 0 <= j < i ==> r@[j] == (#[trigger] self.data@[j]).0,
            decreases self.data@.len() - i,
        {
            r.push(self.data[i].0);
            i = i + 1;
        }
        r
    }

    /// The cumulative-distribution equalization mapping: walking the keys in
    /// ascending order, each key is paired with its running cumulative count
    /// scaled by the maximum key. (Dividing that product by the total sample
    /// count yields the classical `cdf * max_key` mapping; the division is
    /// left to the caller so the mapping here stays exact.)
    pub fn equalize(&self) -> (r: Vec<(u32, u64)>)
        requires
            self.wf(),
        ensures
            r@.len() == self.spec_data().len(),
            forall|i: int|
                0 <= i < r@.len() ==> (#[trigger] r@[i]).0 == self.spec_data()[i].0 && r@[i].1
                    == psum(self.spec_data(), i + 1) * self.spec_max_value(),
    {
        let mut r: Vec<(u32, u64)> = Vec::new();
        let mut running: u64 = 0;
        let mut i: usize = 0;
        while i < self.data.len()
            invariant
                self.wf(),
                i <= self.data@.len(),
                r@.len() == i,
                running == psum(self.spec_data(), i as int),
                forall|j: int|
                    0 <= j < i ==> (#[trigger] r@[j]).0 == self.spec_data()[j].0 && r@[j].1
                        == psum(self.spec_data(), j + 1) * self.spec_max_value(),
            decreases self.data@.len() - i,
        {
            let count = self.data[i].1;
            proof {
                assert(psum(self.spec_data(), i + 1) == psum(self.spec_data(), i as int)
                    + self.spec_data()[i as int].1);
                lemma_psum_mono(self.spec_data(), i + 1, self.spec_data().len() as int);
                assert(running + count <= self.spec_pixel_count());
                let big: int = 0xFFFF_FFFF;
                assert((running as int + count) * (self.spec_max_value() as int) <= big * big)
                    by (nonlinear_arith)
                    requires
                        big == 0xFFFF_FFFF,
                        0 <= running as int + count <= big,
                        0 <= self.spec_max_value() as int <= big,
                ;
            }
            let cum: u64 = running + (count as u64);
            let entry = (self.data[i].0, cum * (self.max_value as u64));
            r.push(entry);
            running = cum;
            i = i + 1;
        }
        r
    }
}

/// Subtracting an image from itself blacks it out: every channel of the
/// combination of a buffer with itself under `Subtract` is zero.
pub proof fn lemma_subtract_self_is_black(s: Seq<u8>)
    ensures
        combine_seq(s, s, OpType::Subtract) == Seq::new(s.len(), |i: int| 0u8),
{
    assert(combine_seq(s, s, OpType::Subtract) =~= Seq::new(s.len(), |i: int| 0u8));
}

/// Saturating addition of images is commutative: combining under `Add` gives
/// the same buffer in either operand order.
pub proof fn lemma_add_commutative(a: Seq<u8>, b: Seq<u8>)
    requires
        a.len() == b.len(),
    ensures
        combine_seq(a, b, OpType::Add) == combine_seq(b, a, OpType::Add),
{
    assert(combine_seq(a, b, OpType::Add) =~= combine_seq(b, a, OpType::Add));
}

/// A lookup table that maps every channel value to itself leaves a buffer
/// unchanged; in particular a tonal transform whose transfer curve rounds to
/// the identity is the identity.
pub proof fn lemma_identity_table(s: Seq<u8>, t: Seq<u8>)
    requires
        t.len() == 256,
        forall|v: int| 0 <= v < 256 ==> t[v] == v,
    ensures
        Seq::new(s.len(), |i: int| t[s[i] as int]) == s,
{
    assert(Seq::new(s.len(), |i: int| t[s[i] as int]) =~= s);
}

/// Both resampling algorithms are deterministic: two calls on equal source
/// buffers and equal dimensions produce equal buffers, because each output
/// is a function of its inputs alone.
pub proof fn lemma_resample_deterministic(
    s1: Seq<u8>,
    s2: Seq<u8>,
    sw: int,
    sh: int,
    dw: int,
    dh: int,
)
    requires
        s1 == s2,
    ensures
        nn_seq(s1, sw, sh, dw, dh) == nn_seq(s2, sw, sh, dw, dh),
        bilinear_seq(s1, sw, sh, dw, dh) == bilinear_seq(s2, sw, sh, dw, dh),
{
}

/// The equalization mapping never reorders brightness: a key that comes
/// later in ascending order is paired with at least as large a cumulative
/// value, so the CDF-derived ranking of brightness values is preserved, and
/// a second equalization, applied to the already-monotone mapping, preserves
/// it again.
pub proof fn lemma_equalization_preserves_order(h: Seq<(u32, usize)>, mv: int, i: int, j: int)
    requires
        0 <= i <= j < h.len(),
        0 <= mv,
    ensures
        psum(h, i + 1) * mv <= psum(h, j + 1) * mv,
{
    lemma_psum_mono(h, i + 1, j + 1);
    assert(psum(h, i + 1) * mv <= psum(h, j + 1) * mv) by (nonlinear_arith)
        requires
            psum(h, i + 1) <= psum(h, j + 1),
            0 <= mv,
    ;
}

} // verus!
