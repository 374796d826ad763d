//! The image store: a fixed-size grid of 3-byte RGB pixels held in a flat,
//! row-major buffer, together with incrementally maintained statistics:
//! a histogram of pixel values and a per-channel-value usage count, which
//! answer "what is the dominant color" and "what is the effective maximum
//! channel value" without a full scan.

use vstd::prelude::*;

verus! {

/// Rule for synthesizing neighbor values beyond the image bounds during
/// neighborhood reads: fill with black, or repeat the nearest edge pixel.
#[derive(PartialEq, Eq, Structural, Clone, Copy)]
pub enum Padding {
    Zero,
    Repeat,
}

/// The raster format variants of the on-disk container this store round-trips
/// with. Only the tag is carried here; the processing algorithms always work
/// on 8-bit, 3-channel samples.
#[derive(Debug, Clone, Copy, PartialEq, Eq, Structural)]
pub enum PpmType {
    /// Bitmap data in ASCII
    P1,
    /// Grayscale data in ASCII
    P2,
    /// RGB image data in ASCII
    P3,
    /// Bitmap data in binary format
    P4,
    /// Grayscale data in binary format
    P5,
    /// RGB image data in binary format
    P6,
    /// Not a valid raster file format
    P0,
}

/// Format metadata carried alongside the pixel buffer for round-trip fidelity
/// with the on-disk format; the processing algorithms do not consult it.
#[derive(Debug, Clone, Copy)]
pub struct PpmHeader {
    pub ppm_type: PpmType,
    pub width: u32,
    pub height: u32,
    pub max_value: u16,
}

impl PpmHeader {
    /// A fresh header for a binary RGB image of the given dimensions.
    pub fn new(width: u32, height: u32) -> (h: PpmHeader)
        ensures
            h.ppm_type == PpmType::P6,
            h.width == width,
            h.height == height,
            h.max_value == 0,
    {
        PpmHeader { ppm_type: PpmType::P6, width, height, max_value: 0 }
    }
}

/// Header equality deliberately compares the dimensions only: two images are
/// considered equivalent even when their format tags or declared maxima
/// differ.
impl PartialEq for PpmHeader {
    fn eq(&self, other: &PpmHeader) -> bool {
        self.height == other.height && self.width == other.width
    }
}

impl vstd::std_specs::cmp::PartialEqSpecImpl for PpmHeader {
    open spec fn obeys_eq_spec() -> bool {
        true
    }

    open spec fn eq_spec(&self, other: &PpmHeader) -> bool {
        self.height == other.height && self.width == other.width
    }
}

/// A pixel as it sits in a buffer: red, green, blue.
pub type PixelBytes = [u8; 3];

/// The histogram key of a pixel: the three channels packed into one integer,
/// so that key order is the lexicographic order of (r, g, b).
pub open spec fn pix_key(r: u8, g: u8, b: u8) -> int {
    r * 0x10000 + g * 0x100 + b
}

/// The key of the pixel stored in slot `i` of a flat buffer.
pub open spec fn slot_key(s: Seq<u8>, i: int) -> int {
    pix_key(s[3 * i], s[3 * i + 1], s[3 * i + 2])
}

/// The pixel stored in slot `i` of a flat buffer, as its three channels.
pub open spec fn slot_pixel(s: Seq<u8>, i: int) -> Seq<u8> {
    seq![s[3 * i], s[3 * i + 1], s[3 * i + 2]]
}

/// How many of the first `n` pixel slots of `s` hold the pixel with key `k`.
pub open spec fn key_count(s: Seq<u8>, k: int, n: int) -> nat
    decreases n,
{
    if n <= 0 {
        0
    } else {
        key_count(s, k, n - 1) + (if slot_key(s, n - 1) == k {
            1nat
        } else {
            0nat
        })
    }
}

/// How many of the first `n` bytes of `s` (channel slots) hold the value `v`.
pub open spec fn ch_count(s: Seq<u8>, v: u8, n: int) -> nat
    decreases n,
{
    if n <= 0 {
        0
    } else {
        ch_count(s, v, n - 1) + (if s[n - 1] == v {
            1nat
        } else {
            0nat
        })
    }
}

/// Total count recorded for key `k` in a histogram entry list.
pub open spec fn hist_count(h: Seq<(u32, usize)>, k: int) -> nat
    decreases h.len(),
{
    if h.len() == 0 {
        0
    } else {
        hist_count(h.drop_last(), k) + (if h.last().0 == k {
            h.last().1 as nat
        } else {
            0nat
        })
    }
}

/// A well-formed histogram entry list: keys strictly ascending, hence unique.
/// (An entry whose count has dropped back to zero may linger; it records the
/// same fact as an absent key.)
pub open spec fn hist_wf(h: Seq<(u32, usize)>) -> bool {
    forall|i: int, j: int| 0 <= i < j < h.len() ==> (#[trigger] h[i]).0 < (#[trigger] h[j]).0
}

/// Every key in the list packs three channel bytes, so it stays below 2^24.
pub open spec fn hist_keys_bounded(h: Seq<(u32, usize)>) -> bool {
    forall|i: int| 0 <= i < h.len() ==> (#[trigger] h[i]).0 < 0x1000000
}

/// Whether `k` is a histogram key with the greatest recorded count, the
/// smallest such key when counts tie: the key of the background color.
pub open spec fn is_dominant_key(h: Seq<(u32, usize)>, k: int) -> bool {
    exists|i: int|
        0 <= i < h.len() && (#[trigger] h[i]).0 == k && (forall|j: int|
            0 <= j < h.len() ==> ((#[trigger] h[j]).1 <= h[i].1 && (h[j].1 == h[i].1 ==> h[i].0
                <= h[j].0)))
}

/// At most one key can dominate a histogram with unique keys.
pub proof fn lemma_dominant_unique(h: Seq<(u32, usize)>, k1: int, k2: int)
    requires
        hist_wf(h),
        is_dominant_key(h, k1),
        is_dominant_key(h, k2),
    ensures
        k1 == k2,
{
    let i1 = choose|i: int|
        0 <= i < h.len() && (#[trigger] h[i]).0 == k1 && (forall|j: int|
            0 <= j < h.len() ==> ((#[trigger] h[j]).1 <= h[i].1 && (h[j].1 == h[i].1 ==> h[i].0
                <= h[j].0)));
    let i2 = choose|i: int|
        0 <= i < h.len() && (#[trigger] h[i]).0 == k2 && (forall|j: int|
            0 <= j < h.len() ==> ((#[trigger] h[j]).1 <= h[i].1 && (h[j].1 == h[i].1 ==> h[i].0
                <= h[j].0)));
    assert(h[i1].1 <= h[i2].1);
    assert(h[i2].1 <= h[i1].1);
    assert(h[i1].0 <= h[i2].0);
    assert(h[i2].0 <= h[i1].0);
}

/// Distinct pixels pack to distinct keys.
pub proof fn lemma_pix_key_injective(a: u8, b: u8, c: u8, d: u8, e: u8, f: u8)
    ensures
        (pix_key(a, b, c) == pix_key(d, e, f)) <==> (a == d && b == e && c == f),
{
}

/// Packs a pixel's channels into its histogram key.
pub fn pack_key(r: u8, g: u8, b: u8) -> (k: u32)
    ensures
        k == pix_key(r, g, b),
        k < 0x1000000,
{
    (r as u32) * 0x10000 + (g as u32) * 0x100 + (b as u32)
}

/// Recovers a pixel from its histogram key.
pub fn unpack_key(key: u32) -> (r: PixelBytes)
    requires
        key < 0x1000000,
    ensures
        pix_key(r@[0], r@[1], r@[2]) == key,
{
    let a = (key / 0x10000) as u8;
    let g = ((key / 0x100) % 0x100) as u8;
    let b = (key % 0x100) as u8;
    let r = [a, g, b];
    proof {
        assert(r@ =~= seq![a, g, b]);
        assert(key == (key / 0x10000) * 0x10000 + ((key / 0x100) % 0x100) * 0x100 + (key
            % 0x100)) by (bit_vector)
            requires
                key < 0x1000000u32,
        ;
    }
    r
}

/// The index of the greatest channel value with a positive usage count among
/// the first `n` table entries, or -1 when every count there is zero.
pub open spec fn max_used(u: Seq<usize>, n: int) -> int
    decreases n,
{
    if n <= 0 {
        -1
    } else if u[n - 1] > 0 {
        n - 1
    } else {
        max_used(u, n - 1)
    }
}

/// `max_used` stays within the scanned range.
pub proof fn lemma_max_used_bounds(u: Seq<usize>, n: int)
    requires
        n >= 0,
    ensures
        -1 <= max_used(u, n) < n,
    decreases n,
{
    if n > 0 {
        lemma_max_used_bounds(u, n - 1);
    }
}

/// A usage table with no positive count has no maximum in use.
pub proof fn lemma_max_used_empty(u: Seq<usize>, n: int)
    requires
        forall|v: int| 0 <= v < n ==> u[v] == 0,
    ensures
        max_used(u, n) == -1,
    decreases n,
{
    if n > 0 {
        lemma_max_used_empty(u, n - 1);
    }
}

/// `max_used` dominates every index with a positive count.
pub proof fn lemma_max_used_ge(u: Seq<usize>, v: int, n: int)
    requires
        0 <= v < n,
        u[v] > 0,
    ensures
        max_used(u, n) >= v,
    decreases n,
{
    if v < n - 1 && u[n - 1] == 0 {
        lemma_max_used_ge(u, v, n - 1);
    }
}

/// The image store. Pixels live in a flat, row-major, top-left-origin buffer
/// of `3 * width * height` bytes. Alongside it the store keeps a histogram
/// (pixel value -> occurrence count) and a usage count for each channel value,
/// both maintained incrementally by the single pixel-write primitive while
/// `keep_histogram_updated` is set.
#[derive(Debug)]
pub struct PpmImage {
    header: PpmHeader,
    pixels: Vec<u8>,
    hist: Vec<(u32, usize)>,
    used: Vec<usize>,
    /// Whether the write primitive maintains the statistics; switching this
    /// off is a performance escape hatch for operations that overwrite every
    /// pixel and have no further use for them.
    pub keep_histogram_updated: bool,
}

impl View for PpmImage {
    type V = Seq<u8>;

    closed spec fn view(&self) -> Seq<u8> {
        self.pixels@
    }
}

impl Clone for PpmImage {
    /// A deep copy: the clone carries the same header, pixels, statistics and
    /// maintenance flag.
    fn clone(&self) -> (r: Self)
        ensures
            r@ == self@,
            r.spec_header() == self.spec_header(),
            r.spec_hist() == self.spec_hist(),
            r.spec_used() == self.spec_used(),
            r.spec_keep_updated() == self.spec_keep_updated(),
    {
        let mut hist: Vec<(u32, usize)> = Vec::new();
        let mut i: usize = 0;
        while i < self.hist.len()
            invariant
                i <= self.hist@.len(),
                hist@ == self.hist@.subrange(0, i as int),
            decreases self.hist@.len() - i,
        {
            let entry = (self.hist[i].0, self.hist[i].1);
            hist.push(entry);
            proof {
                assert(hist@ =~= self.hist@.subrange(0, i + 1));
            }
            i = i + 1;
        }
        proof {
            assert(hist@ =~= self.hist@);
        }
        let r = PpmImage {
            header: self.header,
            pixels: self.pixels.clone(),
            hist,
            used: self.used.clone(),
            keep_histogram_updated: self.keep_histogram_updated,
        };
        proof {
            assert(r.pixels@ =~= self.pixels@);
            assert(r.used@ =~= self.used@);
        }
        r
    }
}

impl PpmImage {
    /// Whether the statistics are being maintained, in ghost form.
    pub closed spec fn spec_keep_updated(&self) -> bool {
        self.keep_histogram_updated
    }

    /// The image width, in ghost form.
    pub open spec fn spec_width(&self) -> u32 {
        self.spec_header().width
    }

    /// The image height, in ghost form.
    pub open spec fn spec_height(&self) -> u32 {
        self.spec_header().height
    }

    /// The header carried with the buffer, in ghost form.
    pub closed spec fn spec_header(&self) -> PpmHeader {
        self.header
    }

    /// The histogram entry list, in ghost form.
    pub closed spec fn spec_hist(&self) -> Seq<(u32, usize)> {
        self.hist@
    }

    /// The effective maximum channel value, in ghost form: the greatest
    /// channel value in use, or 255 when the usage table is empty.
    pub open spec fn spec_max_value(&self) -> u8 {
        if max_used(self.spec_used(), 256) < 0 {
            255
        } else {
            max_used(self.spec_used(), 256) as u8
        }
    }

    /// The channel-value usage counts, in ghost form.
    pub closed spec fn spec_used(&self) -> Seq<usize> {
        self.used@
    }

    /// Structural well-formedness: the buffer holds exactly `3 * w * h`
    /// bytes, the usage table has one slot per channel value, and the
    /// histogram entry list is sorted with positive counts.
    pub open spec fn wf(&self) -> bool {
        &&& self@.len() == 3 * self.spec_width() * self.spec_height()
        &&& 3 * self.spec_width() * self.spec_height() <= usize::MAX
        &&& self.spec_used().len() == 256
        &&& hist_wf(self.spec_hist())
        &&& hist_keys_bounded(self.spec_hist())
    }

    /// The statistics agree with the buffer: the histogram records exactly
    /// the pixels present, and for every nonzero channel value the usage
    /// count equals the number of channel slots holding it. (Channel value 0
    /// is special: the all-black pixels an image is born with are seeded into
    /// the histogram but not into the usage table, which starts empty.)
    pub open spec fn stats_valid(&self) -> bool {
        &&& forall|k: int|
            #[trigger] hist_count(self.spec_hist(), k) == key_count(
                self@,
                k,
                self.spec_width() * self.spec_height(),
            )
        &&& forall|v: u8| v != 0 ==> #[trigger] self.spec_used()[v as int] == ch_count(
            self@,
            v,
            self@.len() as int,
        )
    }

    /// A fresh, all-black image of the given dimensions: the histogram is
    /// seeded with every pixel classified as black, the usage table is empty,
    /// and statistics maintenance is on.
    pub fn new(width: u32, height: u32) -> (img: PpmImage)
        requires
            3 * (width as int) * (height as int) <= usize::MAX as int,
        ensures
            img.wf(),
            img.stats_valid(),
            img.spec_width() == width,
            img.spec_height() == height,
            img.spec_header() == (PpmHeader {
                ppm_type: PpmType::P6,
                width,
                height,
                max_value: 0,
            }),
            img@.len() == 3 * width * height,
            forall|i: int| 0 <= i < img@.len() ==> img@[i] == 0,
            forall|v: int| 0 <= v < 256 ==> img.spec_used()[v] == 0,
            img.spec_max_value() == 255,
            img.spec_hist() == seq![(0u32, (width * height) as usize)],
            img.spec_keep_updated(),
    {
        proof {
            assert((width as int) * (height as int) >= 0 && 3 * ((width as int) * (height
                as int)) == 3 * (width as int) * (height as int)) by (nonlinear_arith);
        }
        let wh: usize = (width as usize) * (height as usize);
        let capacity: usize = 3 * wh;

        let mut pixels: Vec<u8> = Vec::new();
        let mut i: usize = 0;
        while i < capacity
            invariant
                i <= capacity,
                pixels@.len() == i,
                forall|j: int| 0 <= j < i ==> pixels@[j] == 0,
            decreases capacity - i,
        {
            pixels.push(0);
            i = i + 1;
        }

        let mut hist: Vec<(u32, usize)> = Vec::new();
        hist.push((0u32, wh));

        let mut used: Vec<usize> = Vec::new();
        let mut v: usize = 0;
        while v < 256
            invariant
                v <= 256,
                used@.len() == v,
                forall|j: int| 0 <= j < v ==> used@[j] == 0,
            decreases 256 - v,
        {
            used.push(0);
            v = v + 1;
        }

        let img = PpmImage {
            header: PpmHeader::new(width, height),
            pixels,
            hist,
            used,
            keep_histogram_updated: true,
        };
        proof {
            lemma_key_count_all_zero(img@, width * height);
            lemma_ch_count_all_zero(img@, img@.len() as int);
            lemma_max_used_empty(img.spec_used(), 256);
            assert(img.spec_hist() =~= seq![(0u32, wh)]);
            assert(img.spec_hist().drop_last() =~= Seq::<(u32, usize)>::empty());
            assert forall|k: int| #[trigger]
                hist_count(img.spec_hist(), k) == key_count(
                    img@,
                    k,
                    img.spec_width() * img.spec_height(),
                ) by {
                assert(pix_key(0, 0, 0) == 0);
                assert(hist_count(img.spec_hist().drop_last(), k) == 0);
                assert(hist_count(img.spec_hist(), k) == if k == 0 {
                    wh as nat
                } else {
                    0nat
                });
            }
        }
        img
    }
}

/// Image equality compares the dimensions and the pixels, nothing else: two
/// images with the same raster are equal even when their format tags or
/// statistics histories differ.
impl PartialEq for PpmImage {
    fn eq(&self, other: &PpmImage) -> (r: bool) {
        let mut is_equal = true;
        if !(self.header == other.header) {
            is_equal = false;
        } else {
            if self.pixels.len() != other.pixels.len() {
                is_equal = false;
            } else {
                let mut i: usize = 0;
                while i < self.pixels.len()
                    invariant
                        i <= self.pixels@.len(),
                        self.pixels@.len() == other.pixels@.len(),
                        is_equal <==> (forall|j: int|
                            0 <= j < i ==> self.pixels@[j] == other.pixels@[j]),
                    decreases self.pixels@.len() - i,
                {
                    if self.pixels[i] != other.pixels[i] {
                        is_equal = false;
                    }
                    i = i + 1;
                }
                proof {
                    if is_equal {
                        assert(self.pixels@ =~= other.pixels@);
                    }
                }
            }
        }
        is_equal
    }
}

impl vstd::std_specs::cmp::PartialEqSpecImpl for PpmImage {
    open spec fn obeys_eq_spec() -> bool {
        true
    }

    open spec fn eq_spec(&self, other: &PpmImage) -> bool {
        self.spec_height() == other.spec_height() && self.spec_width() == other.spec_width()
            && self@ == other@
    }
}

/// Converts coordinates to the byte index of the pixel's red channel in the
/// flat buffer: pixels are stored row by row from the top-left corner, three
/// bytes each.
pub fn get_index(x: u32, y: u32, w: u32) -> (r: usize)
    requires
        3 * (x + y * w) <= usize::MAX,
    ensures
        r == 3 * (x + y * w),
{
    proof {
        assert((y as int) * (w as int) >= 0 && 3 * ((x as int) + (y as int) * (w as int)) == 3 * (
        x as int) + 3 * ((y as int) * (w as int))) by (nonlinear_arith);
    }
    let index: usize = (x as usize) + (y as usize) * (w as usize);
    3 * index
}

/// Indices strictly inside the grid land strictly inside the slot range.
pub proof fn lemma_index_in_bounds(x: int, y: int, w: int, h: int)
    by (nonlinear_arith)
    requires
        0 <= x < w,
        0 <= y < h,
    ensures
        0 <= x + y * w,
        x + y * w < w * h,
{
}

impl PpmImage {
    /// The image width.
    pub fn width(&self) -> (r: u32)
        ensures
            r == self.spec_width(),
    {
        self.header.width
    }

    /// The image height.
    pub fn height(&self) -> (r: u32)
        ensures
            r == self.spec_height(),
    {
        self.header.height
    }

    /// The format tag carried in the header.
    pub fn ppm_type(&self) -> (r: PpmType)
        ensures
            r == self.spec_header().ppm_type,
    {
        self.header.ppm_type
    }

    /// Records a declared maximum sample value in the header; the buffer and
    /// statistics are untouched.
    pub fn hint_max_value(&mut self, max_value: u16)
        ensures
            final(self).spec_header() == (PpmHeader {
                max_value,
                ..old(self).spec_header()
            }),
            final(self)@ == old(self)@,
            final(self).spec_hist() == old(self).spec_hist(),
            final(self).spec_used() == old(self).spec_used(),
            final(self).spec_keep_updated() == old(self).spec_keep_updated(),
    {
        self.header.max_value = max_value
    }

    /// Replaces the carried header. The new header must agree with the
    /// buffer's dimensions, which never change after construction.
    pub fn set_header(&mut self, header: PpmHeader)
        requires
            header.width == old(self).spec_width(),
            header.height == old(self).spec_height(),
        ensures
            final(self).spec_header() == header,
            final(self)@ == old(self)@,
            final(self).spec_hist() == old(self).spec_hist(),
            final(self).spec_used() == old(self).spec_used(),
            final(self).spec_keep_updated() == old(self).spec_keep_updated(),
    {
        self.header = header
    }

    /// Switches the incremental maintenance of the statistics on or off.
    pub fn set_keep_histogram_updated(&mut self, keep: bool)
        ensures
            final(self).spec_keep_updated() == keep,
            final(self)@ == old(self)@,
            final(self).spec_header() == old(self).spec_header(),
            final(self).spec_hist() == old(self).spec_hist(),
            final(self).spec_used() == old(self).spec_used(),
    {
        self.keep_histogram_updated = keep
    }

    /// A read-only view of the raw buffer.
    pub fn get_data(&self) -> (r: &Vec<u8>)
        ensures
            r@ == self@,
    {
        &self.pixels
    }

    /// The pixel whose red channel sits at byte index `index`; the following
    /// two bytes hold green and blue.
    pub fn get_bytes_at(&self, index: usize) -> (r: PixelBytes)
        requires
            index + 2 < self@.len(),
        ensures
            r@ == seq![self@[index as int], self@[index as int + 1], self@[index as int + 2]],
    {
        let n = self.pixels.len();
        proof {
            assert(index + 2 < n);
        }
        let r = [self.pixels[index], self.pixels[index + 1], self.pixels[index + 2]];
        proof {
            assert(r@ =~= seq![
                self@[index as int],
                self@[index as int + 1],
                self@[index as int + 2],
            ]);
        }
        r
    }

    /// The pixel in slot `index` (slots count whole pixels, not bytes).
    pub fn get_pixel_at(&self, index: usize) -> (r: PixelBytes)
        requires
            3 * index + 2 < self@.len(),
        ensures
            r@ == seq![
                self@[3 * index as int],
                self@[3 * index as int + 1],
                self@[3 * index as int + 2],
            ],
    {
        let n = self.pixels.len();
        proof {
            assert(3 * index + 2 < n);
        }
        self.get_bytes_at(index * 3)
    }

    /// A uniform image of the given color: every slot holds (r, g, b), the
    /// statistics reflect that, and the header declares the largest channel
    /// as its maximum sample value.
    pub fn create_color(r: u8, g: u8, b: u8, height: u32, width: u32) -> (img: PpmImage)
        requires
            3 * (width as int) * (height as int) <= usize::MAX as int,
        ensures
            img.wf(),
            img.stats_valid(),
            img.spec_width() == width,
            img.spec_height() == height,
            img@.len() == 3 * width * height,
            forall|i: int|
                0 <= i < img@.len() ==> img@[i] == (if i % 3 == 0 {
                    r
                } else if i % 3 == 1 {
                    g
                } else {
                    b
                }),
            img.spec_header() == (PpmHeader {
                ppm_type: PpmType::P6,
                width,
                height,
                max_value: (if r >= g && r >= b {
                    r
                } else if g >= b {
                    g
                } else {
                    b
                }) as u16,
            }),
            img.spec_keep_updated(),
    {
        let mut img = PpmImage::new(width, height);
        let mut max_channel = r;
        if g > max_channel {
            max_channel = g;
        }
        if b > max_channel {
            max_channel = b;
        }
        img.hint_max_value(max_channel as u16);
        proof {
            let w = width as int;
            let h = height as int;
            assert(3 * (w * h) == 3 * w * h) by (nonlinear_arith);
        }
        let pixel_count: usize = (width as usize) * (height as usize);
        let pixel = [r, g, b];
        proof {
            assert(pixel@ =~= seq![r, g, b]);
        }
        let mut pixel_index: usize = 0;
        let mut i: usize = 0;
        while i < pixel_count
            invariant
                i <= pixel_count,
                pixel_index == 3 * i,
                3 * pixel_count == img@.len(),
                pixel@ == seq![r, g, b],
                img.wf(),
                img.stats_valid(),
                img.spec_keep_updated(),
                img.spec_width() == width,
                img.spec_height() == height,
                img.spec_header() == (PpmHeader {
                    ppm_type: PpmType::P6,
                    width,
                    height,
                    max_value: max_channel as u16,
                }),
                forall|m: int|
                    0 <= m < 3 * i ==> img@[m] == (if m % 3 == 0 {
                        r
                    } else if m % 3 == 1 {
                        g
                    } else {
                        b
                    }),
            decreases pixel_count - i,
        {
            img.set_pixel(&mut pixel_index, &pixel);
            i = i + 1;
        }
        img
    }

    /// Finds the histogram entry for `key`, or the position where an entry
    /// for it would keep the list sorted.
    fn locate_hist(&self, key: u32) -> (r: Result<usize, usize>)
        requires
            hist_wf(self.spec_hist()),
        ensures
            match r {
                Ok(i) => i < self.spec_hist().len() && self.spec_hist()[i as int].0 == key,
                Err(i) => {
                    &&& i <= self.spec_hist().len()
                    &&& forall|j: int|
                        0 <= j < self.spec_hist().len() ==> (#[trigger] self.spec_hist()[j]).0
                            != key
                    &&& forall|j: int| 0 <= j < i ==> (#[trigger] self.spec_hist()[j]).0 < key
                    &&& forall|j: int|
                        i <= j < self.spec_hist().len() ==> (#[trigger] self.spec_hist()[j]).0
                            > key
                },
            },
    {
        let n = self.hist.len();
        let mut i: usize = 0;
        while i < n
            invariant
                i <= n,
                n == self.spec_hist().len(),
                hist_wf(self.spec_hist()),
                forall|j: int| 0 <= j < i ==> (#[trigger] self.spec_hist()[j]).0 < key,
            decreases n - i,
        {
            let k = self.hist[i].0;
            if k == key {
                return Ok(i);
            }
            if k > key {
                return Err(i);
            }
            i = i + 1;
        }
        Err(n)
    }

    /// Takes one occurrence of the channel value `c` out of the usage table.
    fn dec_used_at(&mut self, c: u8)
        requires
            old(self).spec_used().len() == 256,
        ensures
            final(self).spec_used() == dec_used(old(self).spec_used(), c),
            final(self)@ == old(self)@,
            final(self).spec_header() == old(self).spec_header(),
            final(self).spec_hist() == old(self).spec_hist(),
            final(self).spec_keep_updated() == old(self).spec_keep_updated(),
    {
        let count = self.used[c as usize];
        if count > 0 {
            self.used.set(c as usize, count - 1);
        }
    }

    /// Puts one occurrence of the channel value `c` into the usage table.
    fn inc_used_at(&mut self, c: u8)
        requires
            old(self).spec_used().len() == 256,
        ensures
            final(self).spec_used() == inc_used(old(self).spec_used(), c),
            final(self)@ == old(self)@,
            final(self).spec_header() == old(self).spec_header(),
            final(self).spec_hist() == old(self).spec_hist(),
            final(self).spec_keep_updated() == old(self).spec_keep_updated(),
    {
        let count = self.used[c as usize];
        if count < usize::MAX {
            self.used.set(c as usize, count + 1);
        }
    }

    /// Removes one pixel's contribution from the statistics: its histogram
    /// count drops by one and each of its channels loses one usage
    /// occurrence. A pixel the histogram does not know (the seeded black of a
    /// fresh buffer is the one expected case) leaves everything untouched.
    fn remove_pixel_stats(&mut self, r: u8, g: u8, b: u8)
        requires
            old(self).spec_used().len() == 256,
            hist_wf(old(self).spec_hist()),
        ensures
            final(self)@ == old(self)@,
            final(self).spec_header() == old(self).spec_header(),
            final(self).spec_keep_updated() == old(self).spec_keep_updated(),
            final(self).spec_used().len() == 256,
            hist_wf(final(self).spec_hist()),
            hist_keys_bounded(old(self).spec_hist()) ==> hist_keys_bounded(
                final(self).spec_hist(),
            ),
            hist_count(old(self).spec_hist(), pix_key(r, g, b)) == 0 ==> final(self).spec_hist()
                == old(self).spec_hist() && final(self).spec_used() == old(self).spec_used(),
            hist_count(old(self).spec_hist(), pix_key(r, g, b)) > 0 ==> {
                &&& forall|k: int|
                    #[trigger] hist_count(final(self).spec_hist(), k) == hist_count(
                        old(self).spec_hist(),
                        k,
                    ) - (if k == pix_key(r, g, b) {
                        1nat
                    } else {
                        0nat
                    })
                &&& final(self).spec_used() == dec_used(
                    dec_used(dec_used(old(self).spec_used(), r), g),
                    b,
                )
            },
    {
        let key = pack_key(r, g, b);
        match self.locate_hist(key) {
            Ok(i) => {
                let count = self.hist[i].1;
                proof {
                    lemma_hist_count_entry(self.spec_hist(), i as int);
                }
                if count > 0 {
                    self.hist.set(i, (key, count - 1));
                    proof {
                        lemma_hist_count_set(old(self).spec_hist(), i as int, (count - 1) as usize);
                        assert(self.spec_hist() =~= old(self).spec_hist().update(
                            i as int,
                            (key, (count - 1) as usize),
                        ));
                    }
                    self.dec_used_at(r);
                    self.dec_used_at(g);
                    self.dec_used_at(b);
                }
            },
            Err(_) => {
                proof {
                    lemma_hist_count_absent(self.spec_hist(), key as int);
                }
            },
        }
    }

    /// Adds one pixel's contribution to the statistics: its histogram count
    /// rises by one (a fresh entry is filed in key order) and each of its
    /// channels gains one usage occurrence.
    fn add_pixel_stats(&mut self, r: u8, g: u8, b: u8)
        requires
            old(self).spec_used().len() == 256,
            hist_wf(old(self).spec_hist()),
            hist_keys_bounded(old(self).spec_hist()),
        ensures
            final(self)@ == old(self)@,
            final(self).spec_header() == old(self).spec_header(),
            final(self).spec_keep_updated() == old(self).spec_keep_updated(),
            final(self).spec_used().len() == 256,
            hist_wf(final(self).spec_hist()),
            hist_keys_bounded(final(self).spec_hist()),
            hist_count(old(self).spec_hist(), pix_key(r, g, b)) < usize::MAX ==> forall|k: int|
                #[trigger] hist_count(final(self).spec_hist(), k) == hist_count(
                    old(self).spec_hist(),
                    k,
                ) + (if k == pix_key(r, g, b) {
                    1nat
                } else {
                    0nat
                }),
            hist_count(old(self).spec_hist(), pix_key(r, g, b)) >= usize::MAX
                ==> final(self).spec_hist() == old(self).spec_hist(),
            final(self).spec_used() == inc_used(
                inc_used(inc_used(old(self).spec_used(), r), g),
                b,
            ),
    {
        let key = pack_key(r, g, b);
        match self.locate_hist(key) {
            Ok(i) => {
                let count = self.hist[i].1;
                proof {
                    lemma_hist_count_entry(self.spec_hist(), i as int);
                }
                if count < usize::MAX {
                    self.hist.set(i, (key, count + 1));
                    proof {
                        lemma_hist_count_set(old(self).spec_hist(), i as int, (count + 1) as usize);
                        assert(self.spec_hist() =~= old(self).spec_hist().update(
                            i as int,
                            (key, (count + 1) as usize),
                        ));
                    }
                }
            },
            Err(pos) => {
                proof {
                    lemma_hist_count_absent(self.spec_hist(), key as int);
                }
                self.hist.insert(pos, (key, 1));
                proof {
                    lemma_hist_count_insert(old(self).spec_hist(), pos as int, (key, 1usize));
                    assert(self.spec_hist() =~= old(self).spec_hist().insert(
                        pos as int,
                        (key, 1usize),
                    ));
                    assert forall|m1: int, m2: int|
                        0 <= m1 < m2 < self.spec_hist().len() implies (
                    #[trigger] self.spec_hist()[m1]).0 < (#[trigger] self.spec_hist()[m2]).0 by {
                        let h = old(self).spec_hist();
                        let p = pos as int;
                        assert(self.spec_hist()[p] == (key, 1usize));
                        if m1 < p {
                            assert(self.spec_hist()[m1] == h[m1]);
                        }
                        if m2 < p {
                            assert(self.spec_hist()[m2] == h[m2]);
                        }
                        if m1 > p {
                            assert(self.spec_hist()[m1] == h[m1 - 1]);
                        }
                        if m2 > p {
                            assert(self.spec_hist()[m2] == h[m2 - 1]);
                        }
                    }
                }
            },
        }
        self.inc_used_at(r);
        self.inc_used_at(g);
        self.inc_used_at(b);
    }

    /// The single mutation primitive: writes `pixel` at the byte index
    /// `*index` (which must point at the red channel of a slot) and advances
    /// the index by one pixel. While maintenance is on, the write first
    /// removes the old pixel's contribution from the statistics and then adds
    /// the new pixel's, so valid statistics stay valid.
    #[verifier::rlimit(100)]
    #[verifier::spinoff_prover]
    pub fn set_pixel(&mut self, index: &mut usize, pixel: &PixelBytes)
        requires
            old(self).wf(),
            *old(index) % 3 == 0,
            *old(index) + 2 < old(self)@.len(),
        ensures
            final(self).wf(),
            *final(index) == *old(index) + 3,
            final(self)@ == old(self)@.update(*old(index) as int, pixel@[0]).update(
                *old(index) + 1,
                pixel@[1],
            ).update(*old(index) + 2, pixel@[2]),
            final(self).spec_header() == old(self).spec_header(),
            final(self).spec_keep_updated() == old(self).spec_keep_updated(),
            old(self).spec_keep_updated() && old(self).stats_valid()
                ==> final(self).stats_valid(),
            !old(self).spec_keep_updated() ==> final(self).spec_hist() == old(self).spec_hist()
                && final(self).spec_used() == old(self).spec_used(),
    {
        let j = *index;
        let removed_pixel = self.get_bytes_at(j);
        let keep = self.keep_histogram_updated;
        let ghost s0 = self@;
        let ghost n = (self.spec_width() * self.spec_height()) as int;
        let ghost t = (*index as int) / 3;
        let ghost k_old = slot_key(s0, t);
        let ghost k_new = pix_key(pixel@[0], pixel@[1], pixel@[2]);
        proof {
            let w = old(self).spec_width() as int;
            let h = old(self).spec_height() as int;
            assert(3 * (w * h) == 3 * w * h) by (nonlinear_arith);
            assert(3 * n == s0.len());
            assert(3 * t == j);
            assert(t < n);
            if keep && old(self).stats_valid() {
                lemma_key_count_ge_one(s0, t, n);
                assert(hist_count(self.spec_hist(), k_old) == key_count(s0, k_old, n));
            }
        }
        if keep {
            self.remove_pixel_stats(removed_pixel[0], removed_pixel[1], removed_pixel[2]);
        }
        let ghost hist1 = self.spec_hist();
        let ghost used1 = self.spec_used();
        self.pixels.set(j, pixel[0]);
        self.pixels.set(j + 1, pixel[1]);
        self.pixels.set(j + 2, pixel[2]);
        let ghost s3 = self@;
        proof {
            assert(s3 =~= s0.update(j as int, pixel@[0]).update(j + 1, pixel@[1]).update(
                j + 2,
                pixel@[2],
            ));
            assert(slot_key(s3, t) == k_new);
            if keep && old(self).stats_valid() {
                lemma_key_count_set_slot(s0, s3, t, n);
                lemma_key_count_le(s0, k_new, n);
                assert(n < usize::MAX);
                assert(hist_count(hist1, k_new) < usize::MAX);
            }
        }
        if keep {
            self.add_pixel_stats(pixel[0], pixel[1], pixel[2]);
        }
        *index = j + 3;
        proof {
            if keep && old(self).stats_valid() {
                let o0 = removed_pixel@[0];
                let o1 = removed_pixel@[1];
                let o2 = removed_pixel@[2];
                let p0 = pixel@[0];
                let p1 = pixel@[1];
                let p2 = pixel@[2];
                let len = s0.len() as int;
                assert(len == 3 * n);
                // The histogram tracks the buffer's pixel counts through the
                // removal, the write and the addition.
                assert forall|k: int| #[trigger]
                    hist_count(self.spec_hist(), k) == key_count(self@, k, n) by {
                    assert(hist_count(hist1, k) == hist_count(old(self).spec_hist(), k) - (if k
                        == k_old {
                        1nat
                    } else {
                        0nat
                    }));
                    assert(key_count(s3, k, n) + (if slot_key(s0, t) == k {
                        1nat
                    } else {
                        0nat
                    }) == key_count(s0, k, n) + (if slot_key(s3, t) == k {
                        1nat
                    } else {
                        0nat
                    }));
                }
                // The usage table tracks the buffer's channel counts.
                lemma_used_after_write(s0, t, n, p0, p1, p2, old(self).spec_used());
                assert(s0[3 * t] == o0 && s0[3 * t + 1] == o1 && s0[3 * t + 2] == o2);
                assert(self.spec_used() == inc_used(
                    inc_used(inc_used(dec_used(dec_used(dec_used(old(self).spec_used(), o0), o1), o2), p0), p1),
                    p2,
                ));
                assert(self@ == s0.update(3 * t, p0).update(3 * t + 1, p1).update(3 * t + 2, p2));
                assert forall|v: u8| v != 0 implies #[trigger] self.spec_used()[v as int]
                    == ch_count(self@, v, self@.len() as int) by {
                    assert(self.spec_used()[v as int] == ch_count(self@, v, len));
                }
            }
        }
    }

    /// Writes `pixel` at a coordinate; same maintenance as `set_pixel`.
    pub fn set_pixel_by_coord(&mut self, x: u32, y: u32, pixel: &PixelBytes)
        requires
            old(self).wf(),
            x < old(self).spec_width(),
            y < old(self).spec_height(),
        ensures
            final(self).wf(),
            final(self)@ == old(self)@.update(
                3 * (x + y * old(self).spec_width()),
                pixel@[0],
            ).update(3 * (x + y * old(self).spec_width()) + 1, pixel@[1]).update(
                3 * (x + y * old(self).spec_width()) + 2,
                pixel@[2],
            ),
            final(self).spec_header() == old(self).spec_header(),
            final(self).spec_keep_updated() == old(self).spec_keep_updated(),
            old(self).spec_keep_updated() && old(self).stats_valid()
                ==> final(self).stats_valid(),
            !old(self).spec_keep_updated() ==> final(self).spec_hist() == old(self).spec_hist()
                && final(self).spec_used() == old(self).spec_used(),
    {
        proof {
            lemma_index_in_bounds(
                x as int,
                y as int,
                self.spec_width() as int,
                self.spec_height() as int,
            );
            assert(3 * ((x as int) + (y as int) * (self.spec_width() as int)) + 2 < 3 * (
            self.spec_width() as int) * (self.spec_height() as int)) by (nonlinear_arith)
                requires
                    (x as int) + (y as int) * (self.spec_width() as int) < (self.spec_width()
                        as int) * (self.spec_height() as int),
            ;
        }
        let mut index = get_index(x, y, self.header.width);
        self.set_pixel(&mut index, pixel);
    }

    /// The background (dominant) color: the pixel value with the highest
    /// histogram count. Ties go to the lexicographically smallest pixel, so
    /// the answer is deterministic.
    pub fn get_background(&self) -> (r: PixelBytes)
        requires
            self.wf(),
            self.spec_hist().len() > 0,
        ensures
            exists|i: int|
                {
                    &&& 0 <= i < self.spec_hist().len()
                    &&& (#[trigger] self.spec_hist()[i]).0 == pix_key(r@[0], r@[1], r@[2])
                    &&& forall|j: int|
                        0 <= j < self.spec_hist().len() ==> (#[trigger] self.spec_hist()[j]).1
                            <= self.spec_hist()[i].1 && (self.spec_hist()[j].1
                            == self.spec_hist()[i].1 ==> self.spec_hist()[i].0
                            <= self.spec_hist()[j].0)
                },
            is_dominant_key(self.spec_hist(), pix_key(r@[0], r@[1], r@[2])),
            self.stats_valid() ==> forall|k: int|
                #[trigger] key_count(self@, k, self.spec_width() * self.spec_height())
                    <= key_count(
                    self@,
                    pix_key(r@[0], r@[1], r@[2]),
                    self.spec_width() * self.spec_height(),
                ),
    {
        let n = self.hist.len();
        let mut best: usize = 0;
        let mut i: usize = 1;
        while i < n
            invariant
                1 <= i <= n,
                best < i,
                n == self.spec_hist().len(),
                self.wf(),
                forall|j: int|
                    0 <= j < i ==> ((#[trigger] self.spec_hist()[j]).1 <= self.spec_hist()[best as int].1
                        && (self.spec_hist()[j].1 == self.spec_hist()[best as int].1
                        ==> self.spec_hist()[best as int].0 <= self.spec_hist()[j].0)),
            decreases n - i,
        {
            if self.hist[i].1 > self.hist[best].1 {
                best = i;
            }
            i = i + 1;
        }
        let key = self.hist[best].0;
        let r = unpack_key(key);
        proof {
            let hist = self.spec_hist();
            let bi = best as int;
            assert(hist[bi].0 == pix_key(r@[0], r@[1], r@[2]));
            if self.stats_valid() {
                let wh = self.spec_width() * self.spec_height();
                lemma_hist_count_entry(hist, bi);
                assert forall|k: int| #[trigger]
                    key_count(self@, k, wh) <= key_count(self@, hist[bi].0 as int, wh) by {
                    assert(key_count(self@, k, wh) == hist_count(hist, k));
                    assert(key_count(self@, hist[bi].0 as int, wh) == hist_count(
                        hist,
                        hist[bi].0 as int,
                    ));
                    if exists|j: int| 0 <= j < hist.len() && (#[trigger] hist[j]).0 == k {
                        let j = choose|j: int| 0 <= j < hist.len() && (#[trigger] hist[j]).0 == k;
                        lemma_hist_count_entry(hist, j);
                        assert(hist[j].1 <= hist[bi].1);
                    } else {
                        lemma_hist_count_absent(hist, k);
                    }
                }
            }
        }
        r
    }

    /// The greatest channel value with a nonzero usage count, or 255 for an
    /// image whose usage table is still empty (no pixel has been written
    /// since construction).
    pub fn max_value(&self) -> (r: u8)
        requires
            self.wf(),
        ensures
            r == self.spec_max_value(),
            self.stats_valid() ==> forall|i: int| 0 <= i < self@.len() ==> self@[i] <= r,
    {
        let mut v: usize = 256;
        while v > 0
            invariant
                v <= 256,
                self.wf(),
                max_used(self.spec_used(), 256) == max_used(self.spec_used(), v as int),
            decreases v,
        {
            if self.used[v - 1] > 0 {
                proof {
                    assert(max_used(self.spec_used(), v as int) == v - 1);
                    if self.stats_valid() {
                        self.lemma_bytes_le_max_value();
                    }
                }
                return (v - 1) as u8;
            }
            v = v - 1;
        }
        proof {
            if self.stats_valid() {
                self.lemma_bytes_le_max_value();
            }
        }
        255
    }

    /// While the statistics are in step with the buffer, no channel byte
    /// exceeds the effective maximum channel value.
    pub proof fn lemma_bytes_le_max_value(&self)
        requires
            self.wf(),
            self.stats_valid(),
        ensures
            forall|i: int| 0 <= i < self@.len() ==> self@[i] <= self.spec_max_value(),
    {
        let s = self@;
        let u = self.spec_used();
        assert forall|i: int| 0 <= i < s.len() implies s[i] <= self.spec_max_value() by {
            let b = s[i];
            if b != 0 {
                assert(ch_count(s, b, i + 1) == ch_count(s, b, i) + 1);
                lemma_ch_count_mono(s, b, i + 1, s.len() as int);
                assert(u[b as int] == ch_count(s, b, s.len() as int));
                assert(u[b as int] >= 1);
                lemma_max_used_ge(u, b as int, 256);
                lemma_max_used_bounds(u, 256);
            }
        }
    }

    /// A read-only copy of the square neighborhood of odd side `size`
    /// centered on (x, y), in column-major order (x varies in the outer
    /// position), with out-of-bounds neighbors synthesized per the padding
    /// policy.
    pub fn get_matrix_at(&self, x: u32, y: u32, size: usize, padding: Padding) -> (m: Vec<
        PixelBytes,
    >)
        requires
            self.wf(),
            self.spec_width() >= 1,
            self.spec_height() >= 1,
            x < self.spec_width(),
            y < self.spec_height(),
            size % 2 == 1,
            size < 0x8000_0000,
            size * size <= usize::MAX,
        ensures
            m@.len() == size * size,
            forall|a: int, b: int|
                0 <= a < size && 0 <= b < size ==> (#[trigger] m@[a * size + b])@ == seq![
                    sample(
                        self@,
                        self.spec_width() as int,
                        self.spec_height() as int,
                        x - (size - 1) / 2 + a,
                        y - (size - 1) / 2 + b,
                        padding,
                        0,
                    ),
                    sample(
                        self@,
                        self.spec_width() as int,
                        self.spec_height() as int,
                        x - (size - 1) / 2 + a,
                        y - (size - 1) / 2 + b,
                        padding,
                        1,
                    ),
                    sample(
                        self@,
                        self.spec_width() as int,
                        self.spec_height() as int,
                        x - (size - 1) / 2 + a,
                        y - (size - 1) / 2 + b,
                        padding,
                        2,
                    ),
                ],
    {
        let w = self.header.width;
        let h = self.header.height;
        let d = (size - 1) / 2;
        let mut m: Vec<PixelBytes> = Vec::new();
        let mut a: usize = 0;
        while a < size
            invariant
                a <= size,
                size < 0x8000_0000,
                size * size <= usize::MAX,
                w == self.spec_width(),
                h == self.spec_height(),
                w >= 1,
                h >= 1,
                x < w,
                y < h,
                d == (size - 1) / 2,
                self.wf(),
                m@.len() == a * size,
                forall|p: int, q: int|
                    0 <= p < a && 0 <= q < size ==> (#[trigger] m@[p * size + q])@ == seq![
                        sample(
                            self@,
                            w as int,
                            h as int,
                            x - d + p,
                            y - d + q,
                            padding,
                            0,
                        ),
                        sample(self@, w as int, h as int, x - d + p, y - d + q, padding, 1),
                        sample(self@, w as int, h as int, x - d + p, y - d + q, padding, 2),
                    ],
            decreases size - a,
        {
            let mut b: usize = 0;
            while b < size
                invariant
                    a < size,
                    b <= size,
                    size < 0x8000_0000,
                    size * size <= usize::MAX,
                    w == self.spec_width(),
                    h == self.spec_height(),
                    w >= 1,
                    h >= 1,
                    x < w,
                    y < h,
                    d == (size - 1) / 2,
                    self.wf(),
                    m@.len() == a * size + b,
                    forall|p: int, q: int|
                        (0 <= p < a && 0 <= q < size) || (p == a && 0 <= q < b) ==> (
                        #[trigger] m@[p * size + q])@ == seq![
                            sample(
                                self@,
                                w as int,
                                h as int,
                                x - d + p,
                                y - d + q,
                                padding,
                                0,
                            ),
                            sample(self@, w as int, h as int, x - d + p, y - d + q, padding, 1),
                            sample(self@, w as int, h as int, x - d + p, y - d + q, padding, 2),
                        ],
                decreases size - b,
            {
                proof {
                    assert((a as int) * (size as int) + size <= (size as int) * (size as int))
                        by (nonlinear_arith)
                        requires
                            0 <= a as int,
                            (a as int) < (size as int),
                    ;
                }
                let cx: i64 = x as i64 - d as i64 + a as i64;
                let cy: i64 = y as i64 - d as i64 + b as i64;
                let pix = self.sample_at(cx, cy, padding);
                let ghost m_pre = m@;
                m.push(pix);
                proof {
                    assert(m@.len() == a * size + b + 1);
                    assert(m@[a as int * size + b] == pix);
                    assert forall|p: int, q: int|
                        (0 <= p < a && 0 <= q < size) || (p == a && 0 <= q <= b) implies (
                    #[trigger] m@[p * size + q])@ == seq![
                        sample(
                            self@,
                            w as int,
                            h as int,
                            x - d + p,
                            y - d + q,
                            padding,
                            0,
                        ),
                        sample(self@, w as int, h as int, x - d + p, y - d + q, padding, 1),
                        sample(self@, w as int, h as int, x - d + p, y - d + q, padding, 2),
                    ] by {
                        if p < a || q < b {
                            assert(p * size + q < a * size + b) by (nonlinear_arith)
                                requires
                                    0 <= q < size as int,
                                    0 <= p,
                                    (p < a as int && q < size as int) || (p == a as int && q < b
                                        as int),
                            ;
                            assert(m@[p * size + q] == m_pre[p * size + q]);
                        }
                    }
                }
                b = b + 1;
            }
            a = a + 1;
            proof {
                assert((a - 1) * size + size == a * size) by (nonlinear_arith)
                    requires
                        a >= 1,
                ;
            }
        }
        proof {
            assert(m@.len() == size * size);
        }
        m
    }

    /// One padded neighborhood read: the pixel at a possibly out-of-bounds
    /// coordinate under the given policy.
    pub(crate) fn sample_at(&self, cx: i64, cy: i64, padding: Padding) -> (r: PixelBytes)
        requires
            self.wf(),
            self.spec_width() >= 1,
            self.spec_height() >= 1,
        ensures
            r@ == seq![
                sample(
                    self@,
                    self.spec_width() as int,
                    self.spec_height() as int,
                    cx as int,
                    cy as int,
                    padding,
                    0,
                ),
                sample(
                    self@,
                    self.spec_width() as int,
                    self.spec_height() as int,
                    cx as int,
                    cy as int,
                    padding,
                    1,
                ),
                sample(
                    self@,
                    self.spec_width() as int,
                    self.spec_height() as int,
                    cx as int,
                    cy as int,
                    padding,
                    2,
                ),
            ],
    {
        let w = self.header.width;
        let h = self.header.height;
        match padding {
            Padding::Repeat => {
                let xx: i64 = if cx < 0 {
                    0
                } else if cx > w as i64 - 1 {
                    w as i64 - 1
                } else {
                    cx
                };
                let yy: i64 = if cy < 0 {
                    0
                } else if cy > h as i64 - 1 {
                    h as i64 - 1
                } else {
                    cy
                };
                proof {
                    lemma_index_in_bounds(xx as int, yy as int, w as int, h as int);
                    assert(3 * ((xx as int) + (yy as int) * (w as int)) + 2 < 3 * (w as int) * (h
                        as int)) by (nonlinear_arith)
                        requires
                            (xx as int) + (yy as int) * (w as int) < (w as int) * (h as int),
                    ;
                }
                let index = get_index(xx as u32, yy as u32, w);
                self.get_bytes_at(index)
            },
            Padding::Zero => {
                if 0 <= cx && cx < w as i64 && 0 <= cy && cy < h as i64 {
                    proof {
                        lemma_index_in_bounds(cx as int, cy as int, w as int, h as int);
                        assert(3 * ((cx as int) + (cy as int) * (w as int)) + 2 < 3 * (w as int)
                            * (h as int)) by (nonlinear_arith)
                            requires
                                (cx as int) + (cy as int) * (w as int) < (w as int) * (h as int),
                        ;
                    }
                    let index = get_index(cx as u32, cy as u32, w);
                    self.get_bytes_at(index)
                } else {
                    let z = [0u8, 0u8, 0u8];
                    proof {
                        assert(z@ =~= seq![0u8, 0u8, 0u8]);
                    }
                    z
                }
            },
        }
    }

    /// The pixel at a coordinate, with (0, 0) the upper-left corner of the
    /// image; absent exactly when the coordinate lies out of bounds.
    pub fn get_pixel_by_coord(&self, x: u32, y: u32) -> (r: Option<PixelBytes>)
        requires
            self.wf(),
        ensures
            (x < self.spec_width() && y < self.spec_height()) <==> r is Some,
            r matches Some(p) ==> p@ == seq![
                self@[3 * (x + y * self.spec_width())],
                self@[3 * (x + y * self.spec_width()) + 1],
                self@[3 * (x + y * self.spec_width()) + 2],
            ],
    {
        if x < self.header.width && y < self.header.height {
            proof {
                lemma_index_in_bounds(
                    x as int,
                    y as int,
                    self.spec_width() as int,
                    self.spec_height() as int,
                );
                assert(3 * ((x as int) + (y as int) * (self.spec_width() as int)) + 2 < 3 * (
                self.spec_width() as int) * (self.spec_height() as int)) by (nonlinear_arith)
                    requires
                        (x as int) + (y as int) * (self.spec_width() as int) < (self.spec_width()
                            as int) * (self.spec_height() as int),
                ;
            }
            let index = get_index(x, y, self.header.width);
            Some(self.get_bytes_at(index))
        } else {
            None
        }
    }
}

/// Removing one channel occurrence from the usage table: decrement the
/// value's count if it is positive, and leave an exhausted entry alone (the
/// black pixels an image is born with were never added, so their removal
/// finds nothing to subtract).
pub open spec fn dec_used(u: Seq<usize>, c: u8) -> Seq<usize> {
    if u[c as int] > 0 {
        u.update(c as int, (u[c as int] - 1) as usize)
    } else {
        u
    }
}

/// Adding one channel occurrence to the usage table; a counter that has hit
/// the machine maximum stays put rather than wrapping.
pub open spec fn inc_used(u: Seq<usize>, c: u8) -> Seq<usize> {
    if u[c as int] < usize::MAX {
        u.update(c as int, (u[c as int] + 1) as usize)
    } else {
        u
    }
}

/// How often the value `v` occurs among three channel bytes.
pub open spec fn occ3(a: u8, b: u8, c: u8, v: u8) -> nat {
    (if a == v {
        1nat
    } else {
        0nat
    }) + (if b == v {
        1nat
    } else {
        0nat
    }) + (if c == v {
        1nat
    } else {
        0nat
    })
}

/// Counting over a longer prefix never loses occurrences.
pub proof fn lemma_ch_count_mono(s: Seq<u8>, v: u8, n1: int, n2: int)
    requires
        n1 <= n2,
    ensures
        ch_count(s, v, n1) <= ch_count(s, v, n2),
    decreases n2 - n1,
{
    if n1 < n2 {
        lemma_ch_count_mono(s, v, n1, n2 - 1);
    }
}

/// No channel value occurs more often than there are bytes.
pub proof fn lemma_ch_count_le(s: Seq<u8>, v: u8, n: int)
    ensures
        ch_count(s, v, n) <= if n >= 0 {
            n as nat
        } else {
            0nat
        },
    decreases n,
{
    if n > 0 {
        lemma_ch_count_le(s, v, n - 1);
    }
}

/// A channel value occurs at least as often as it occurs within one slot.
pub proof fn lemma_ch_count_ge_slot(s: Seq<u8>, t: int, n: int, v: u8)
    requires
        0 <= t < n,
        3 * n <= s.len(),
    ensures
        ch_count(s, v, 3 * n) >= occ3(s[3 * t], s[3 * t + 1], s[3 * t + 2], v),
{
    assert(ch_count(s, v, 3 * t + 1) == ch_count(s, v, 3 * t) + (if s[3 * t] == v {
        1nat
    } else {
        0nat
    }));
    assert(ch_count(s, v, 3 * t + 2) == ch_count(s, v, 3 * t + 1) + (if s[3 * t + 1] == v {
        1nat
    } else {
        0nat
    }));
    assert(ch_count(s, v, 3 * t + 3) == ch_count(s, v, 3 * t + 2) + (if s[3 * t + 2] == v {
        1nat
    } else {
        0nat
    }));
    lemma_ch_count_mono(s, v, 3 * t + 3, 3 * n);
}

/// Counting over a longer prefix never loses pixels.
pub proof fn lemma_key_count_mono(s: Seq<u8>, k: int, n1: int, n2: int)
    requires
        n1 <= n2,
    ensures
        key_count(s, k, n1) <= key_count(s, k, n2),
    decreases n2 - n1,
{
    if n1 < n2 {
        lemma_key_count_mono(s, k, n1, n2 - 1);
    }
}

/// No pixel value occurs more often than there are slots.
pub proof fn lemma_key_count_le(s: Seq<u8>, k: int, n: int)
    ensures
        key_count(s, k, n) <= if n >= 0 {
            n as nat
        } else {
            0nat
        },
    decreases n,
{
    if n > 0 {
        lemma_key_count_le(s, k, n - 1);
    }
}

/// Through a remove-then-add of one slot's three bytes, a usage table that
/// matched the buffer's channel counts matches them again: no decrement
/// bottoms out, because each removed channel had been counted, and no
/// increment can reach the machine maximum, because counts never exceed the
/// buffer length.
#[verifier::rlimit(60)]
pub proof fn lemma_used_after_write(
    s0: Seq<u8>,
    t: int,
    n: int,
    p0: u8,
    p1: u8,
    p2: u8,
    u0: Seq<usize>,
)
    requires
        u0.len() == 256,
        0 <= t < n,
        3 * n == s0.len(),
        s0.len() <= usize::MAX,
        forall|v: u8| v != 0 ==> #[trigger] u0[v as int] == ch_count(s0, v, s0.len() as int),
    ensures
        forall|v: u8|
            v != 0 ==> #[trigger] inc_used(
                inc_used(
                    inc_used(
                        dec_used(dec_used(dec_used(u0, s0[3 * t]), s0[3 * t + 1]), s0[3 * t + 2]),
                        p0,
                    ),
                    p1,
                ),
                p2,
            )[v as int] == ch_count(
                s0.update(3 * t, p0).update(3 * t + 1, p1).update(3 * t + 2, p2),
                v,
                s0.len() as int,
            ),
{
    let len = s0.len() as int;
    let j = 3 * t;
    let o0 = s0[j];
    let o1 = s0[j + 1];
    let o2 = s0[j + 2];
    let sa = s0.update(j, p0);
    let sb = sa.update(j + 1, p1);
    let s3 = sb.update(j + 2, p2);
    let u1 = dec_used(u0, o0);
    let u2 = dec_used(u1, o1);
    let u3 = dec_used(u2, o2);
    let u4 = inc_used(u3, p0);
    let u5 = inc_used(u4, p1);
    let u6 = inc_used(u5, p2);
    lemma_ch_count_update(s0, j, p0, len);
    lemma_ch_count_update(sa, j + 1, p1, len);
    lemma_ch_count_update(sb, j + 2, p2, len);
    assert forall|v: u8| v != 0 implies #[trigger] u6[v as int] == ch_count(s3, v, len) by {
        let c0 = ch_count(s0, v, len);
        let c3 = ch_count(s3, v, len);
        lemma_ch_count_ge_slot(s0, t, n, v);
        assert(c0 >= occ3(o0, o1, o2, v));
        assert(u0[v as int] == c0);
        assert(u1[v as int] + (if o0 == v {
            1nat
        } else {
            0nat
        }) == u0[v as int]);
        assert(u2[v as int] + (if o1 == v {
            1nat
        } else {
            0nat
        }) == u1[v as int]);
        assert(u3[v as int] + (if o2 == v {
            1nat
        } else {
            0nat
        }) == u2[v as int]);
        assert(ch_count(sa, v, len) + (if o0 == v {
            1nat
        } else {
            0nat
        }) == c0 + (if p0 == v {
            1nat
        } else {
            0nat
        }));
        assert(ch_count(sb, v, len) + (if o1 == v {
            1nat
        } else {
            0nat
        }) == ch_count(sa, v, len) + (if p1 == v {
            1nat
        } else {
            0nat
        }));
        assert(c3 + (if o2 == v {
            1nat
        } else {
            0nat
        }) == ch_count(sb, v, len) + (if p2 == v {
            1nat
        } else {
            0nat
        }));
        lemma_ch_count_le(s3, v, len);
        assert(c3 <= len);
        assert(u3[v as int] + occ3(p0, p1, p2, v) == c3);
        assert(u4[v as int] + (if p1 == v {
            1nat
        } else {
            0nat
        }) + (if p2 == v {
            1nat
        } else {
            0nat
        }) == c3);
        assert(u5[v as int] + (if p2 == v {
            1nat
        } else {
            0nat
        }) == c3);
        assert(u6[v as int] == c3);
    }
}

/// The pixel sitting in slot `t` is counted.
pub proof fn lemma_key_count_ge_one(s: Seq<u8>, t: int, n: int)
    requires
        0 <= t < n,
    ensures
        key_count(s, slot_key(s, t), n) >= 1,
{
    assert(key_count(s, slot_key(s, t), t + 1) == key_count(s, slot_key(s, t), t) + 1);
    lemma_key_count_mono(s, slot_key(s, t), t + 1, n);
}

/// The channel byte a neighborhood read yields at a (possibly out-of-bounds)
/// coordinate: out-of-range coordinates are either clamped to the nearest
/// edge pixel or treated as black, per the padding policy.
pub open spec fn sample(
    s: Seq<u8>,
    w: int,
    h: int,
    cx: int,
    cy: int,
    padding: Padding,
    ch: int,
) -> u8 {
    if padding == Padding::Repeat {
        let xx = if cx < 0 {
            0
        } else if cx > w - 1 {
            w - 1
        } else {
            cx
        };
        let yy = if cy < 0 {
            0
        } else if cy > h - 1 {
            h - 1
        } else {
            cy
        };
        s[3 * (xx + yy * w) + ch]
    } else {
        if 0 <= cx < w && 0 <= cy < h {
            s[3 * (cx + cy * w) + ch]
        } else {
            0
        }
    }
}

/// In an all-zero buffer every slot holds the black pixel, so every key but
/// black counts zero and black counts once per slot.
pub proof fn lemma_key_count_all_zero(s: Seq<u8>, n: int)
    requires
        forall|i: int| 0 <= i < s.len() ==> s[i] == 0,
        0 <= n,
        3 * n <= s.len(),
    ensures
        forall|k: int| #[trigger] key_count(s, k, n) == if k == pix_key(0, 0, 0) {
            n as nat
        } else {
            0nat
        },
    decreases n,
{
    if n > 0 {
        lemma_key_count_all_zero(s, n - 1);
        assert(slot_key(s, n - 1) == pix_key(0, 0, 0));
        assert forall|k: int| #[trigger] key_count(s, k, n) == if k == pix_key(0, 0, 0) {
            n as nat
        } else {
            0nat
        } by {
            assert(key_count(s, k, n) == key_count(s, k, n - 1) + (if slot_key(s, n - 1) == k {
                1nat
            } else {
                0nat
            }));
        }
    }
}

/// Two buffers whose first `n` slots agree key for key count every key
/// equally often there.
pub proof fn lemma_key_count_congruent(s1: Seq<u8>, s2: Seq<u8>, n: int)
    requires
        forall|i: int| 0 <= i < n ==> slot_key(s1, i) == slot_key(s2, i),
    ensures
        forall|k: int| #[trigger] key_count(s1, k, n) == key_count(s2, k, n),
    decreases n,
{
    if n > 0 {
        lemma_key_count_congruent(s1, s2, n - 1);
        assert forall|k: int| #[trigger] key_count(s1, k, n) == key_count(s2, k, n) by {
            assert(key_count(s1, k, n - 1) == key_count(s2, k, n - 1));
            assert(slot_key(s1, n - 1) == slot_key(s2, n - 1));
        }
    }
}

/// Rewriting the three bytes of slot `t` moves one unit of count from the
/// slot's old key to its new key and leaves every other key untouched.
pub proof fn lemma_key_count_set_slot(s1: Seq<u8>, s2: Seq<u8>, t: int, n: int)
    requires
        0 <= t < n,
        s1.len() == s2.len(),
        3 * n <= s1.len(),
        forall|i: int| 0 <= i < s1.len() && !(3 * t <= i < 3 * t + 3) ==> s1[i] == s2[i],
    ensures
        forall|k: int| #[trigger] key_count(s2, k, n) + (if slot_key(s1, t) == k {
            1nat
        } else {
            0nat
        }) == key_count(s1, k, n) + (if slot_key(s2, t) == k {
            1nat
        } else {
            0nat
        }),
    decreases n,
{
    if t == n - 1 {
        assert forall|i: int| 0 <= i < n - 1 implies slot_key(s1, i) == slot_key(s2, i) by {
            assert(s1[3 * i] == s2[3 * i]);
            assert(s1[3 * i + 1] == s2[3 * i + 1]);
            assert(s1[3 * i + 2] == s2[3 * i + 2]);
        }
        lemma_key_count_congruent(s1, s2, n - 1);
        assert forall|k: int| #[trigger] key_count(s2, k, n) + (if slot_key(s1, t) == k {
            1nat
        } else {
            0nat
        }) == key_count(s1, k, n) + (if slot_key(s2, t) == k {
            1nat
        } else {
            0nat
        }) by {
            assert(key_count(s1, k, n - 1) == key_count(s2, k, n - 1));
            assert(key_count(s1, k, n) == key_count(s1, k, n - 1) + (if slot_key(s1, n - 1) == k {
                1nat
            } else {
                0nat
            }));
            assert(key_count(s2, k, n) == key_count(s2, k, n - 1) + (if slot_key(s2, n - 1) == k {
                1nat
            } else {
                0nat
            }));
        }
    } else {
        lemma_key_count_set_slot(s1, s2, t, n - 1);
        assert(s1[3 * (n - 1)] == s2[3 * (n - 1)]);
        assert(s1[3 * (n - 1) + 1] == s2[3 * (n - 1) + 1]);
        assert(s1[3 * (n - 1) + 2] == s2[3 * (n - 1) + 2]);
        assert(slot_key(s1, n - 1) == slot_key(s2, n - 1));
        assert forall|k: int| #[trigger] key_count(s2, k, n) + (if slot_key(s1, t) == k {
            1nat
        } else {
            0nat
        }) == key_count(s1, k, n) + (if slot_key(s2, t) == k {
            1nat
        } else {
            0nat
        }) by {
            assert(key_count(s2, k, n - 1) + (if slot_key(s1, t) == k {
                1nat
            } else {
                0nat
            }) == key_count(s1, k, n - 1) + (if slot_key(s2, t) == k {
                1nat
            } else {
                0nat
            }));
            assert(key_count(s1, k, n) == key_count(s1, k, n - 1) + (if slot_key(s1, n - 1) == k {
                1nat
            } else {
                0nat
            }));
            assert(key_count(s2, k, n) == key_count(s2, k, n - 1) + (if slot_key(s2, n - 1) == k {
                1nat
            } else {
                0nat
            }));
        }
    }
}

/// Updating one byte moves one unit of channel usage from the old value to
/// the new one and leaves every other value untouched.
pub proof fn lemma_ch_count_update(s: Seq<u8>, p: int, b: u8, n: int)
    requires
        0 <= p < n <= s.len(),
    ensures
        forall|v: u8| #[trigger] ch_count(s.update(p, b), v, n) + (if s[p] == v {
            1nat
        } else {
            0nat
        }) == ch_count(s, v, n) + (if b == v {
            1nat
        } else {
            0nat
        }),
    decreases n,
{
    let s2 = s.update(p, b);
    if p == n - 1 {
        lemma_ch_count_congruent(s2, s, n - 1);
        assert forall|v: u8| #[trigger] ch_count(s2, v, n) + (if s[p] == v {
            1nat
        } else {
            0nat
        }) == ch_count(s, v, n) + (if b == v {
            1nat
        } else {
            0nat
        }) by {
            assert(ch_count(s2, v, n - 1) == ch_count(s, v, n - 1));
            assert(ch_count(s2, v, n) == ch_count(s2, v, n - 1) + (if s2[n - 1] == v {
                1nat
            } else {
                0nat
            }));
            assert(ch_count(s, v, n) == ch_count(s, v, n - 1) + (if s[n - 1] == v {
                1nat
            } else {
                0nat
            }));
            assert(s2[n - 1] == b);
        }
    } else {
        lemma_ch_count_update(s, p, b, n - 1);
        assert forall|v: u8| #[trigger] ch_count(s2, v, n) + (if s[p] == v {
            1nat
        } else {
            0nat
        }) == ch_count(s, v, n) + (if b == v {
            1nat
        } else {
            0nat
        }) by {
            assert(ch_count(s2, v, n - 1) + (if s[p] == v {
                1nat
            } else {
                0nat
            }) == ch_count(s, v, n - 1) + (if b == v {
                1nat
            } else {
                0nat
            }));
            assert(ch_count(s2, v, n) == ch_count(s2, v, n - 1) + (if s2[n - 1] == v {
                1nat
            } else {
                0nat
            }));
            assert(ch_count(s, v, n) == ch_count(s, v, n - 1) + (if s[n - 1] == v {
                1nat
            } else {
                0nat
            }));
            assert(s2[n - 1] == s[n - 1]);
        }
    }
}

/// Two buffers that agree on their first `n` bytes use every channel value
/// equally often there.
pub proof fn lemma_ch_count_congruent(s1: Seq<u8>, s2: Seq<u8>, n: int)
    requires
        forall|i: int| 0 <= i < n ==> s1[i] == s2[i],
    ensures
        forall|v: u8| #[trigger] ch_count(s1, v, n) == ch_count(s2, v, n),
    decreases n,
{
    if n > 0 {
        lemma_ch_count_congruent(s1, s2, n - 1);
        assert forall|v: u8| #[trigger] ch_count(s1, v, n) == ch_count(s2, v, n) by {
            assert(ch_count(s1, v, n - 1) == ch_count(s2, v, n - 1));
            assert(s1[n - 1] == s2[n - 1]);
        }
    }
}

/// A key that labels no entry of a histogram list counts zero there.
pub proof fn lemma_hist_count_absent(h: Seq<(u32, usize)>, k: int)
    requires
        forall|i: int| 0 <= i < h.len() ==> (#[trigger] h[i]).0 != k,
    ensures
        hist_count(h, k) == 0,
    decreases h.len(),
{
    if h.len() > 0 {
        lemma_hist_count_absent(h.drop_last(), k);
    }
}

/// With unique keys, the count a histogram list records for an entry's key
/// is exactly that entry's count.
pub proof fn lemma_hist_count_entry(h: Seq<(u32, usize)>, i: int)
    requires
        hist_wf(h),
        0 <= i < h.len(),
    ensures
        hist_count(h, h[i].0 as int) == h[i].1,
    decreases h.len(),
{
    if i == h.len() - 1 {
        assert forall|j: int| 0 <= j < h.drop_last().len() implies (#[trigger] h.drop_last()[j]).0
            != h[i].0 as int by {
            assert(h[j].0 < h[i].0);
        }
        lemma_hist_count_absent(h.drop_last(), h[i].0 as int);
    } else {
        assert(hist_wf(h.drop_last()));
        assert(h.drop_last()[i] == h[i]);
        lemma_hist_count_entry(h.drop_last(), i);
        assert(h.last().0 != h[i].0);
    }
}

/// Replacing the count in entry `i` adjusts the recorded total for that
/// entry's key by the difference and leaves every other key untouched.
pub proof fn lemma_hist_count_set(h: Seq<(u32, usize)>, i: int, c: usize)
    requires
        0 <= i < h.len(),
    ensures
        forall|k: int| #[trigger] hist_count(h.update(i, (h[i].0, c)), k) + (if h[i].0 == k {
            h[i].1 as nat
        } else {
            0nat
        }) == hist_count(h, k) + (if h[i].0 == k {
            c as nat
        } else {
            0nat
        }),
    decreases h.len(),
{
    let h2 = h.update(i, (h[i].0, c));
    if i == h.len() - 1 {
        assert(h2.drop_last() =~= h.drop_last());
        assert forall|k: int| #[trigger] hist_count(h2, k) + (if h[i].0 == k {
            h[i].1 as nat
        } else {
            0nat
        }) == hist_count(h, k) + (if h[i].0 == k {
            c as nat
        } else {
            0nat
        }) by {
            assert(hist_count(h2, k) == hist_count(h2.drop_last(), k) + (if h2.last().0 == k {
                h2.last().1 as nat
            } else {
                0nat
            }));
            assert(hist_count(h, k) == hist_count(h.drop_last(), k) + (if h.last().0 == k {
                h.last().1 as nat
            } else {
                0nat
            }));
        }
    } else {
        lemma_hist_count_set(h.drop_last(), i, c);
        assert(h2.drop_last() =~= h.drop_last().update(i, (h[i].0, c)));
        assert(h2.last() == h.last());
        assert forall|k: int| #[trigger] hist_count(h2, k) + (if h[i].0 == k {
            h[i].1 as nat
        } else {
            0nat
        }) == hist_count(h, k) + (if h[i].0 == k {
            c as nat
        } else {
            0nat
        }) by {
            assert(hist_count(h.drop_last().update(i, (h[i].0, c)), k) + (if h.drop_last()[i].0
                == k {
                h.drop_last()[i].1 as nat
            } else {
                0nat
            }) == hist_count(h.drop_last(), k) + (if h.drop_last()[i].0 == k {
                c as nat
            } else {
                0nat
            }));
            assert(h.drop_last()[i] == h[i]);
            assert(hist_count(h2, k) == hist_count(h2.drop_last(), k) + (if h2.last().0 == k {
                h2.last().1 as nat
            } else {
                0nat
            }));
            assert(hist_count(h, k) == hist_count(h.drop_last(), k) + (if h.last().0 == k {
                h.last().1 as nat
            } else {
                0nat
            }));
        }
    }
}

/// Inserting a fresh entry adds its count to its key and leaves every other
/// key untouched.
pub proof fn lemma_hist_count_insert(h: Seq<(u32, usize)>, i: int, e: (u32, usize))
    requires
        0 <= i <= h.len(),
    ensures
        forall|k: int| #[trigger] hist_count(h.insert(i, e), k) == hist_count(h, k) + (if e.0
            == k {
            e.1 as nat
        } else {
            0nat
        }),
    decreases h.len(),
{
    let h2 = h.insert(i, e);
    if i == h.len() {
        assert(h2.drop_last() =~= h);
        assert(h2.last() == e);
        assert forall|k: int| #[trigger] hist_count(h2, k) == hist_count(h, k) + (if e.0 == k {
            e.1 as nat
        } else {
            0nat
        }) by {
            assert(hist_count(h2, k) == hist_count(h2.drop_last(), k) + (if h2.last().0 == k {
                h2.last().1 as nat
            } else {
                0nat
            }));
        }
    } else {
        lemma_hist_count_insert(h.drop_last(), i, e);
        assert(h2.drop_last() =~= h.drop_last().insert(i, e));
        assert(h2.last() == h.last());
        assert forall|k: int| #[trigger] hist_count(h2, k) == hist_count(h, k) + (if e.0 == k {
            e.1 as nat
        } else {
            0nat
        }) by {
            assert(hist_count(h.drop_last().insert(i, e), k) == hist_count(h.drop_last(), k) + (
            if e.0 == k {
                e.1 as nat
            } else {
                0nat
            }));
            assert(hist_count(h2, k) == hist_count(h2.drop_last(), k) + (if h2.last().0 == k {
                h2.last().1 as nat
            } else {
                0nat
            }));
            assert(hist_count(h, k) == hist_count(h.drop_last(), k) + (if h.last().0 == k {
                h.last().1 as nat
            } else {
                0nat
            }));
        }
    }
}

/// In an all-zero buffer no nonzero channel value occurs.
pub proof fn lemma_ch_count_all_zero(s: Seq<u8>, n: int)
    requires
        forall|i: int| 0 <= i < s.len() ==> s[i] == 0,
        0 <= n <= s.len(),
    ensures
        forall|v: u8| v != 0 ==> #[trigger] ch_count(s, v, n) == 0,
        ch_count(s, 0, n) == if n >= 0 {
            n as nat
        } else {
            0nat
        },
    decreases n,
{
    if n > 0 {
        lemma_ch_count_all_zero(s, n - 1);
        assert forall|v: u8| v != 0 implies #[trigger] ch_count(s, v, n) == 0 by {
            assert(ch_count(s, v, n) == ch_count(s, v, n - 1) + (if s[n - 1] == v {
                1nat
            } else {
                0nat
            }));
        }
    }
}

} // verus!
