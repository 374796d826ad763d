//! The spatial filter engine's integer core: 3x3 gradient convolution with
//! per-channel saturation (the Sobel filters) and the edge map built from
//! the two gradient directions. Kernel-size validation for the blur filters
//! lives here too.

use vstd::prelude::*;

use crate::operations::{combine_seq, perform_operation, OperationResult, OpType};
use crate::ppm::{sample, Padding, PpmImage};

verus! {

/// The horizontal Sobel gradient kernel.
pub fn sobel_h() -> (r: [i32; 9])
    ensures
        r@ == seq![1i32, 2i32, 1i32, 0i32, 0i32, 0i32, -1i32, -2i32, -1i32],
{
    let r = [1i32, 2i32, 1i32, 0i32, 0i32, 0i32, -1i32, -2i32, -1i32];
    proof {
        assert(r@ =~= seq![1i32, 2i32, 1i32, 0i32, 0i32, 0i32, -1i32, -2i32, -1i32]);
    }
    r
}

/// The horizontal Sobel kernel with its sign flipped.
pub fn sobel_h_rev() -> (r: [i32; 9])
    ensures
        r@ == seq![-1i32, -2i32, -1i32, 0i32, 0i32, 0i32, 1i32, 2i32, 1i32],
{
    let r = [-1i32, -2i32, -1i32, 0i32, 0i32, 0i32, 1i32, 2i32, 1i32];
    proof {
        assert(r@ =~= seq![-1i32, -2i32, -1i32, 0i32, 0i32, 0i32, 1i32, 2i32, 1i32]);
    }
    r
}

/// The vertical Sobel gradient kernel.
pub fn sobel_v() -> (r: [i32; 9])
    ensures
        r@ == seq![1i32, 0i32, -1i32, 2i32, 0i32, -2i32, 1i32, 0i32, -1i32],
{
    let r = [1i32, 0i32, -1i32, 2i32, 0i32, -2i32, 1i32, 0i32, -1i32];
    proof {
        assert(r@ =~= seq![1i32, 0i32, -1i32, 2i32, 0i32, -2i32, 1i32, 0i32, -1i32]);
    }
    r
}

/// The vertical Sobel kernel with its sign flipped.
pub fn sobel_v_rev() -> (r: [i32; 9])
    ensures
        r@ == seq![-1i32, 0i32, 1i32, -2i32, 0i32, 2i32, -1i32, 0i32, 1i32],
{
    let r = [-1i32, 0i32, 1i32, -2i32, 0i32, 2i32, -1i32, 0i32, 1i32];
    proof {
        assert(r@ =~= seq![-1i32, 0i32, 1i32, -2i32, 0i32, 2i32, -1i32, 0i32, 1i32]);
    }
    r
}

/// Whether a convolution kernel size is acceptable: odd, so that the kernel
/// can be centered on a pixel, and at least 3.
pub fn kernel_size_valid(kernel_size: i32) -> (r: bool)
    ensures
        r <==> (kernel_size % 2 == 1 && kernel_size >= 3),
{
    kernel_size % 2 == 1 && kernel_size >= 3
}

/// The raw 3x3 convolution sum for one channel of the pixel at (x, y): the
/// first `n` kernel entries, each multiplied with the padded neighborhood
/// sample it is paired with (the neighborhood is walked column by column).
pub open spec fn sobel_acc(
    s: Seq<u8>,
    w: int,
    h: int,
    kernel: Seq<i32>,
    padding: Padding,
    x: int,
    y: int,
    ch: int,
    n: int,
) -> int
    decreases n,
{
    if n <= 0 {
        0
    } else {
        sobel_acc(s, w, h, kernel, padding, x, y, ch, n - 1) + sample(
            s,
            w,
            h,
            x - 1 + (n - 1) / 3,
            y - 1 + (n - 1) % 3,
            padding,
            ch,
        ) * kernel[n - 1]
    }
}

/// An intermediate convolution result clamped into the 8-bit channel range.
pub open spec fn clamp_i32(v: int) -> u8 {
    if v > 255 {
        255u8
    } else if v < 0 {
        0u8
    } else {
        v as u8
    }
}

/// One channel of the convolved pixel at (x, y): the full kernel sum,
/// saturated to [0, 255].
pub open spec fn sobel_channel(
    s: Seq<u8>,
    w: int,
    h: int,
    kernel: Seq<i32>,
    padding: Padding,
    x: int,
    y: int,
    ch: int,
) -> u8 {
    clamp_i32(sobel_acc(s, w, h, kernel, padding, x, y, ch, 9))
}

/// The whole buffer a 3x3 saturating convolution produces.
pub open spec fn sobel_seq(
    s: Seq<u8>,
    w: int,
    h: int,
    kernel: Seq<i32>,
    padding: Padding,
) -> Seq<u8> {
    Seq::new(
        (3 * (w * h)) as nat,
        |i: int| sobel_channel(s, w, h, kernel, padding, (i / 3) % w, (i / 3) / w, i % 3),
    )
}

/// Applies one 3x3 gradient kernel to every pixel, saturating each channel
/// sum into [0, 255] (unlike the generic floating-point convolution path,
/// the gradient filters clamp explicitly).
pub fn apply_sobel(image: &PpmImage, sobel: &[i32; 9], padding: Padding) -> (img: PpmImage)
    requires
        image.wf(),
        1 <= image.spec_width(),
        1 <= image.spec_height(),
        forall|k: int| 0 <= k < 9 ==> -900000 <= #[trigger] sobel@[k] <= 900000,
    ensures
        img.wf(),
        img.stats_valid(),
        img.spec_width() == image.spec_width(),
        img.spec_height() == image.spec_height(),
        img@ == sobel_seq(
            image@,
            image.spec_width() as int,
            image.spec_height() as int,
            sobel@,
            padding,
        ),
{
    let width = image.width();
    let height = image.height();
    let ghost target = sobel_seq(image@, width as int, height as int, sobel@, padding);
    let mut result_image = PpmImage::new(width, height);
    proof {
        let w = width as int;
        let h = height as int;
        assert(3 * (w * h) == 3 * w * h) by (nonlinear_arith);
        assert(target.len() == result_image@.len());
    }
    let mut y: u32 = 0;
    while y < height
        invariant
            y <= height,
            1 <= width,
            1 <= height,
            width == image.spec_width(),
            height == image.spec_height(),
            image.wf(),
            forall|k: int| 0 <= k < 9 ==> -900000 <= #[trigger] sobel@[k] <= 900000,
            result_image.wf(),
            result_image.stats_valid(),
            result_image.spec_keep_updated(),
            result_image.spec_width() == width,
            result_image.spec_height() == height,
            target == sobel_seq(image@, width as int, height as int, sobel@, padding),
            target.len() == result_image@.len(),
            forall|m: int| 0 <= m < 3 * (y * width) ==> result_image@[m] == target[m],
        decreases height - y,
    {
        let mut x: u32 = 0;
        while x < width
            invariant
                y < height,
                x <= width,
                1 <= width,
                1 <= height,
                width == image.spec_width(),
                height == image.spec_height(),
                image.wf(),
                forall|k: int| 0 <= k < 9 ==> -900000 <= #[trigger] sobel@[k] <= 900000,
                result_image.wf(),
                result_image.stats_valid(),
                result_image.spec_keep_updated(),
                result_image.spec_width() == width,
                result_image.spec_height() == height,
                target == sobel_seq(image@, width as int, height as int, sobel@, padding),
                target.len() == result_image@.len(),
                forall|m: int| 0 <= m < 3 * (y * width + x) ==> result_image@[m] == target[m],
            decreases width - x,
        {
            let matrix = image.get_matrix_at(x, y, 3, padding);
            let mut acc0: i32 = 0;
            let mut acc1: i32 = 0;
            let mut acc2: i32 = 0;
            let mut i: usize = 0;
            while i < 9
                invariant
                    i <= 9,
                    matrix@.len() == 9,
                    forall|k: int| 0 <= k < 9 ==> -900000 <= #[trigger] sobel@[k] <= 900000,
                    forall|a: int, b: int|
                        0 <= a < 3 && 0 <= b < 3 ==> (#[trigger] matrix@[a * 3 + b])@ == seq![
                            sample(
                                image@,
                                image.spec_width() as int,
                                image.spec_height() as int,
                                x - 1 + a,
                                y - 1 + b,
                                padding,
                                0,
                            ),
                            sample(
                                image@,
                                image.spec_width() as int,
                                image.spec_height() as int,
                                x - 1 + a,
                                y - 1 + b,
                                padding,
                                1,
                            ),
                            sample(
                                image@,
                                image.spec_width() as int,
                                image.spec_height() as int,
                                x - 1 + a,
                                y - 1 + b,
                                padding,
                                2,
                            ),
                        ],
                    -(255 * 900000 * (i as int)) <= acc0 <= 255 * 900000 * (i as int),
                    -(255 * 900000 * (i as int)) <= acc1 <= 255 * 900000 * (i as int),
                    -(255 * 900000 * (i as int)) <= acc2 <= 255 * 900000 * (i as int),
                    acc0 == sobel_acc(
                        image@,
                        image.spec_width() as int,
                        image.spec_height() as int,
                        sobel@,
                        padding,
                        x as int,
                        y as int,
                        0,
                        i as int,
                    ),
                    acc1 == sobel_acc(
                        image@,
                        image.spec_width() as int,
                        image.spec_height() as int,
                        sobel@,
                        padding,
                        x as int,
                        y as int,
                        1,
                        i as int,
                    ),
                    acc2 == sobel_acc(
                        image@,
                        image.spec_width() as int,
                        image.spec_height() as int,
                        sobel@,
                        padding,
                        x as int,
                        y as int,
                        2,
                        i as int,
                    ),
                decreases 9 - i,
            {
                proof {
                    let a = (i as int) / 3;
                    let b = (i as int) % 3;
                    assert(0 <= a < 3 && 0 <= b < 3);
                    assert(a * 3 + b == i);
                    assert((matrix@[i as int])@ == seq![
                        sample(
                            image@,
                            image.spec_width() as int,
                            image.spec_height() as int,
                            x - 1 + a,
                            y - 1 + b,
                            padding,
                            0,
                        ),
                        sample(
                            image@,
                            image.spec_width() as int,
                            image.spec_height() as int,
                            x - 1 + a,
                            y - 1 + b,
                            padding,
                            1,
                        ),
                        sample(
                            image@,
                            image.spec_width() as int,
                            image.spec_height() as int,
                            x - 1 + a,
                            y - 1 + b,
                            padding,
                            2,
                        ),
                    ]);
                }
                let pix = matrix[i];
                let coeff = sobel[i];
                let p0 = pix[0];
                let p1 = pix[1];
                let p2 = pix[2];
                // Each product stays within 255 times the kernel bound, and
                // eight such terms keep the running sums well inside i32.
                proof {
                    let big: int = 900000;
                    assert(-255 * big <= (p0 as int) * (coeff as int) <= 255 * big && -255 * big
                        <= (p1 as int) * (coeff as int) <= 255 * big && -255 * big <= (p2 as int)
                        * (coeff as int) <= 255 * big) by (nonlinear_arith)
                        requires
                            big == 900000,
                            0 <= p0 as int <= 255,
                            0 <= p1 as int <= 255,
                            0 <= p2 as int <= 255,
                            -big <= coeff as int <= big,
                    ;
                    assert(255 * 900000 * (i as int) <= 1836000000 && -(255 * 900000 * (i
                        as int)) >= -1836000000 && 255 * 900000 * ((i as int) + 1) == 255
                        * 900000 * (i as int) + 229500000) by (nonlinear_arith)
                        requires
                            0 <= i as int <= 8,
                    ;
                    assert(acc0 <= 1836000000 && acc0 >= -1836000000);
                    assert(acc1 <= 1836000000 && acc1 >= -1836000000);
                    assert(acc2 <= 1836000000 && acc2 >= -1836000000);
                }
                let prod0: i32 = (p0 as i32) * coeff;
                let prod1: i32 = (p1 as i32) * coeff;
                let prod2: i32 = (p2 as i32) * coeff;
                acc0 = acc0 + prod0;
                acc1 = acc1 + prod1;
                acc2 = acc2 + prod2;
                i = i + 1;
            }
            let c0 = clamp_channel(acc0);
            let c1 = clamp_channel(acc1);
            let c2 = clamp_channel(acc2);
            let out = [c0, c1, c2];
            let ghost before = result_image@;
            result_image.set_pixel_by_coord(x, y, &out);
            proof {
                assert(out@ =~= seq![c0, c1, c2]);
                let slot = (y as int) * (width as int) + (x as int);
                let dwi = width as int;
                let dhi = height as int;
                crate::ppm::lemma_index_in_bounds(x as int, y as int, dwi, dhi);
                crate::operations::lemma_raster_index(3 * slot, dwi, x as int, y as int, 0);
                crate::operations::lemma_raster_index(3 * slot + 1, dwi, x as int, y as int, 1);
                crate::operations::lemma_raster_index(3 * slot + 2, dwi, x as int, y as int, 2);
                assert(3 * slot + 2 < 3 * (dwi * dhi)) by (nonlinear_arith)
                    requires
                        0 <= slot,
                        slot < dwi * dhi,
                ;
                assert(target[3 * slot] == sobel_channel(
                    image@,
                    dwi,
                    dhi,
                    sobel@,
                    padding,
                    x as int,
                    y as int,
                    0,
                ));
                crate::operations::lemma_raster_write_extends(
                    before,
                    result_image@,
                    target,
                    slot,
                    dwi,
                    dhi,
                    x as int,
                    y as int,
                    out@,
                );
            }
            x = x + 1;
        }
        y = y + 1;
        proof {
            assert(((y - 1) as int) * (width as int) + (width as int) == (y as int) * (width
                as int)) by (nonlinear_arith);
        }
    }
    proof {
        assert((y as int) * (width as int) == (width as int) * (height as int))
            by (nonlinear_arith)
            requires
                y as int == height as int,
        ;
        assert(result_image@ =~= target);
    }
    result_image
}

/// Saturates a convolution sum into the 8-bit channel range.
fn clamp_channel(v: i32) -> (r: u8)
    ensures
        r == clamp_i32(v as int),
{
    if v > 255 {
        255
    } else if v < 0 {
        0
    } else {
        v as u8
    }
}

/// The Sobel edge map: the horizontal and vertical gradient filters applied
/// independently with edge-repeat padding, then combined with saturating
/// addition.
pub fn edge_detect(image: &PpmImage) -> (r: OperationResult)
    requires
        image.wf(),
        1 <= image.spec_width(),
        1 <= image.spec_height(),
        2 * image.spec_width() <= u32::MAX,
        2 * image.spec_height() <= u32::MAX,
    ensures
        r matches Ok(img) && img.wf() && img.stats_valid() && img.spec_width()
            == image.spec_width() && img.spec_height() == image.spec_height() && img@
            == combine_seq(
            sobel_seq(
                image@,
                image.spec_width() as int,
                image.spec_height() as int,
                seq![1i32, 2i32, 1i32, 0i32, 0i32, 0i32, -1i32, -2i32, -1i32],
                Padding::Repeat,
            ),
            sobel_seq(
                image@,
                image.spec_width() as int,
                image.spec_height() as int,
                seq![1i32, 0i32, -1i32, 2i32, 0i32, -2i32, 1i32, 0i32, -1i32],
                Padding::Repeat,
            ),
            OpType::Add,
        ),
{
    let h_kernel = sobel_h();
    let v_kernel = sobel_v();
    let h_filtered = apply_sobel(image, &h_kernel, Padding::Repeat);
    let v_filtered = apply_sobel(image, &v_kernel, Padding::Repeat);
    perform_operation(&h_filtered, &v_filtered, OpType::Add)
}

} // verus!
