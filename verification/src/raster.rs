use vstd::prelude::*;
use vstd::relations::{sorted_by, total_ordering};
use vstd::seq_lib::lemma_sorted_unique;
use crate::blueprint::ImageBoundingBox;

verus! {

/// The order by which sample values are sorted.
pub open spec fn u32_leq() -> spec_fn(u32, u32) -> bool {
    |a: u32, b: u32| a <= b
}

/// `s` in ascending order.
pub open spec fn sorted_u32(s: Seq<u32>) -> Seq<u32> {
    s.sort_by(u32_leq())
}

/// The element at index `k` of `s` sorted ascending (the k-th smallest value).
pub open spec fn kth_smallest(s: Seq<u32>, k: int) -> u32 {
    sorted_u32(s)[k]
}

proof fn lemma_u32_leq_total()
    ensures
        total_ordering(u32_leq()),
{
}

/// Sorts a vector ascending in place (std `slice::sort_unstable`): the result holds the
/// same values, each as often as before, in ascending order.
#[verifier::external_body]
fn sort_u32s(v: &mut Vec<u32>)
    ensures
        final(v)@.to_multiset() == old(v)@.to_multiset(),
        sorted_by(final(v)@, u32_leq()),
{
    v.sort_unstable();
}

/// Sorts `v` ascending and returns the sorted vector, equal to `sorted_u32` of the input.
pub fn sort_ascending(v: Vec<u32>) -> (r: Vec<u32>)
    ensures
        r@ == sorted_u32(v@),
        r@.len() == v@.len(),
{
    let mut w = v;
    let ghost before = w@;
    sort_u32s(&mut w);
    proof {
        lemma_u32_leq_total();
        before.lemma_sort_by_ensures(u32_leq());
        lemma_sorted_unique(w@, before.sort_by(u32_leq()), u32_leq());
        w@.to_multiset_ensures();
        before.to_multiset_ensures();
    }
    w
}

/// An RGBA raster, row-major, four bytes per pixel.
#[derive(Debug, Clone, PartialEq, Eq)]
pub struct RgbaRaster {
    pub width: u32,
    pub height: u32,
    pub data: Vec<u8>,
}

/// A single-channel (luminance) raster, row-major, one byte per pixel.
#[derive(Debug, Clone, PartialEq, Eq)]
pub struct GrayRaster {
    pub width: u32,
    pub height: u32,
    pub data: Vec<u8>,
}

/// A grey raster seen as its width, height and row-major bytes.
pub type GrayView = (u32, u32, Seq<u8>);

impl View for GrayRaster {
    type V = GrayView;

    open spec fn view(&self) -> GrayView {
        (self.width, self.height, self.data@)
    }
}

/// An RGBA pixel value.
pub type Rgba = (u8, u8, u8, u8);

/// Pixel `(x, y)` of row-major RGBA bytes `data` with row width `w`.
pub open spec fn rgba_at(data: Seq<u8>, w: int, x: int, y: int) -> Rgba {
    let i = 4 * (y * w + x);
    (data[i], data[i + 1], data[i + 2], data[i + 3])
}

/// Pixel `(x, y)` of row-major grey bytes `data` with row width `w`.
pub open spec fn gray_at(data: Seq<u8>, w: int, x: int, y: int) -> u8 {
    data[y * w + x]
}

proof fn lemma_pixel_index(x: int, y: int, w: int, h: int)
    requires
        0 <= x < w,
        0 <= y < h,
    ensures
        0 <= y * w + x < w * h,
        0 <= 4 * (y * w + x) + 3 < 4 * (w * h),
{
    assert(0 <= y * w) by (nonlinear_arith)
        requires
            0 <= y,
            0 <= w,
    ;
    assert(y * w + x < w * h) by (nonlinear_arith)
        requires
            0 <= x < w,
            0 <= y < h,
    ;
}

fn rgba_index(x: u32, y: u32, w: u32, h: u32, len: usize) -> (i: usize)
    requires
        x < w,
        y < h,
        len == 4 * ((w as int) * (h as int)),
    ensures
        i == 4 * ((y as int) * (w as int) + (x as int)),
        i + 3 < len,
{
    proof {
        lemma_pixel_index(x as int, y as int, w as int, h as int);
    }
    let yy = y as usize;
    let ww = w as usize;
    assert(yy * ww + x < len);
    4 * (yy * ww + (x as usize))
}

impl RgbaRaster {
    /// The data holds exactly four bytes for each of the `width * height` pixels.
    pub open spec fn wf(&self) -> bool {
        self.data@.len() == 4 * ((self.width as int) * (self.height as int))
    }

    /// Pixel `(x, y)`.
    pub open spec fn pixel(&self, x: int, y: int) -> Rgba {
        rgba_at(self.data@, self.width as int, x, y)
    }

    /// A raster of the given size with every pixel set to `fill`.
    pub fn filled(width: u32, height: u32, fill: Rgba) -> (r: RgbaRaster)
        requires
            4 * ((width as int) * (height as int)) <= usize::MAX,
        ensures
            r.wf(),
            r.width == width,
            r.height == height,
            forall|x: int, y: int| 0 <= x < width && 0 <= y < height ==> #[trigger] r.pixel(x, y) == fill,
    {
        let n: usize = (width as usize) * (height as usize);
        let mut data: Vec<u8> = Vec::new();
        let ghost before: Seq<u8> = data@;
        let mut k: usize = 0;
        while k < n
            invariant
                n == (width as int) * (height as int),
                4 * n <= usize::MAX,
                k <= n,
                data@.len() == 4 * k,
                forall|j: int| 0 <= j < k ==> #[trigger] data@[4 * j] == fill.0 && data@[4 * j + 1] == fill.1
                    && data@[4 * j + 2] == fill.2 && data@[4 * j + 3] == fill.3,
            decreases n - k,
        {
            let ghost prev = data@;
            data.push(fill.0);
            data.push(fill.1);
            data.push(fill.2);
            data.push(fill.3);
            assert(data@ =~= prev + seq![fill.0, fill.1, fill.2, fill.3]);
            assert forall|j: int| 0 <= j < k + 1 implies #[trigger] data@[4 * j] == fill.0 && data@[4 * j + 1] == fill.1
                && data@[4 * j + 2] == fill.2 && data@[4 * j + 3] == fill.3 by {
                if j < k {
                    assert(data@[4 * j] == prev[4 * j]);
                    assert(data@[4 * j + 1] == prev[4 * j + 1]);
                    assert(data@[4 * j + 2] == prev[4 * j + 2]);
                    assert(data@[4 * j + 3] == prev[4 * j + 3]);
                }
            }
            k += 1;
        }
        let r = RgbaRaster { width, height, data };
        assert forall|x: int, y: int| 0 <= x < width && 0 <= y < height implies #[trigger] r.pixel(x, y) == fill by {
            lemma_pixel_index(x, y, width as int, height as int);
            let j = y * width + x;
            assert(data@[4 * j] == fill.0);
        }
        r
    }

    /// A fully transparent black raster of the given size.
    pub fn new(width: u32, height: u32) -> (r: RgbaRaster)
        requires
            4 * ((width as int) * (height as int)) <= usize::MAX,
        ensures
            r.wf(),
            r.width == width,
            r.height == height,
            forall|x: int, y: int| 0 <= x < width && 0 <= y < height ==> #[trigger] r.pixel(x, y) == (0u8, 0u8, 0u8, 0u8),
    {
        Self::filled(width, height, (0, 0, 0, 0))
    }

    /// Pixel `(x, y)`.
    pub fn get_pixel(&self, x: u32, y: u32) -> (r: Rgba)
        requires
            self.wf(),
            x < self.width,
            y < self.height,
        ensures
            r == self.pixel(x as int, y as int),
    {
        proof {
            lemma_pixel_index(x as int, y as int, self.width as int, self.height as int);
        }
        let i = rgba_index(x, y, self.width, self.height, self.data.len());
        (self.data[i], self.data[i + 1], self.data[i + 2], self.data[i + 3])
    }

    /// Set pixel `(x, y)` to `p`, leaving every other pixel as it was.
    pub fn put_pixel(&mut self, x: u32, y: u32, p: Rgba)
        requires
            old(self).wf(),
            x < old(self).width,
            y < old(self).height,
        ensures
            final(self).wf(),
            final(self).width == old(self).width,
            final(self).height == old(self).height,
            final(self).pixel(x as int, y as int) == p,
            forall|a: int, b: int|
                0 <= a < old(self).width && 0 <= b < old(self).height && (a != x || b != y)
                    ==> #[trigger] final(self).pixel(a, b) == old(self).pixel(a, b),
    {
        let ghost w = self.width as int;
        let ghost h = self.height as int;
        proof {
            lemma_pixel_index(x as int, y as int, w, h);
        }
        let i = rgba_index(x, y, self.width, self.height, self.data.len());
        self.data.set(i, p.0);
        self.data.set(i + 1, p.1);
        self.data.set(i + 2, p.2);
        self.data.set(i + 3, p.3);
        proof {
            assert forall|a: int, b: int|
                0 <= a < w && 0 <= b < h && (a != x || b != y)
                    implies #[trigger] self.pixel(a, b) == old(self).pixel(a, b) by {
                lemma_pixel_index(a, b, w, h);
                lemma_distinct_pixels(a, b, x as int, y as int, w);
            }
        }
    }
}

proof fn lemma_distinct_pixels(a: int, b: int, x: int, y: int, w: int)
    requires
        0 <= a < w,
        0 <= x < w,
        0 <= b,
        0 <= y,
        a != x || b != y,
    ensures
        b * w + a != y * w + x,
{
    if b == y {
    } else if b < y {
        assert(b * w + a < y * w + x) by (nonlinear_arith)
            requires
                0 <= a < w,
                0 <= x,
                b < y,
        ;
    } else {
        assert(y * w + x < b * w + a) by (nonlinear_arith)
            requires
                0 <= x < w,
                0 <= a,
                y < b,
        ;
    }
}

impl GrayRaster {
    /// The data holds exactly one byte for each of the `width * height` pixels.
    pub open spec fn wf(&self) -> bool {
        self.data@.len() == (self.width as int) * (self.height as int)
    }

    /// Luminance of pixel `(x, y)`.
    pub open spec fn pixel(&self, x: int, y: int) -> u8 {
        gray_at(self.data@, self.width as int, x, y)
    }

    /// Luminance of pixel `(x, y)`.
    pub fn get_pixel(&self, x: u32, y: u32) -> (r: u8)
        requires
            self.wf(),
            x < self.width,
            y < self.height,
        ensures
            r == self.pixel(x as int, y as int),
    {
        proof {
            lemma_pixel_index(x as int, y as int, self.width as int, self.height as int);
        }
        let yy = y as usize;
        let ww = self.width as usize;
        assert(yy * ww + x < self.data.len());
        self.data[yy * ww + (x as usize)]
    }
}

/// Luminance of an RGB colour with integer weights 299/587/114 per mille.
pub open spec fn luma(p: Rgba) -> u32 {
    ((p.0 as int * 299 + p.1 as int * 587 + p.2 as int * 114) / 1000) as u32
}

/// Luminance of an RGBA pixel (alpha ignored), rounded down.
pub fn luma_of_rgba(p: Rgba) -> (r: u8)
    ensures
        r as u32 == luma(p),
{
    let r = p.0 as u32;
    let g = p.1 as u32;
    let b = p.2 as u32;
    let v = (r * 299 + g * 587 + b * 114) / 1000;
    assert(v <= 255);
    v as u8
}

/// Squared gradient magnitude at interior pixel `(x, y)` from central differences.
pub open spec fn grad_sq(img: GrayRaster, x: int, y: int) -> u32 {
    let gx = img.pixel(x + 1, y) as int - img.pixel(x - 1, y) as int;
    let gy = img.pixel(x, y + 1) as int - img.pixel(x, y - 1) as int;
    (gx * gx + gy * gy) as u32
}

/// Squared gradient magnitudes of row `y`, for `x` in `1..width-1`.
pub open spec fn row_gradients(img: GrayRaster, y: int) -> Seq<u32> {
    Seq::new((img.width - 2) as nat, |i: int| grad_sq(img, i + 1, y))
}

/// Squared gradient magnitudes of rows `1..y_end`, row after row.
pub open spec fn gradients_upto(img: GrayRaster, y_end: int) -> Seq<u32>
    decreases y_end,
{
    if y_end <= 1 {
        Seq::empty()
    } else {
        gradients_upto(img, y_end - 1) + row_gradients(img, y_end - 1)
    }
}

/// All interior squared gradient magnitudes of `img`.
pub open spec fn all_gradients(img: GrayRaster) -> Seq<u32> {
    gradients_upto(img, img.height - 1)
}

/// Index of the `pct`-th percentile in `n` sorted samples, clamped to the last one.
pub open spec fn percentile_index(n: int, pct: int) -> int {
    if n * pct / 100 < n - 1 { n * pct / 100 } else { n - 1 }
}

proof fn lemma_gradients_len(img: GrayRaster, y_end: int)
    requires
        img.width >= 3,
    ensures
        y_end >= 1 ==> gradients_upto(img, y_end).len() == (y_end - 1) * (img.width - 2),
    decreases y_end,
{
    let c = img.width - 2;
    if y_end > 1 {
        lemma_gradients_len(img, y_end - 1);
        assert((y_end - 2) * c + c == (y_end - 1) * c) by (nonlinear_arith);
        assert(row_gradients(img, y_end - 1).len() == c);
    } else if y_end == 1 {
        assert((y_end - 1) * c == 0) by (nonlinear_arith)
            requires
                y_end == 1,
        ;
    }
}

fn percentile_position(n: usize, pct: usize) -> (r: usize)
    requires
        n >= 1,
        pct <= 100,
    ensures
        r == percentile_index(n as int, pct as int),
{
    let q = n / 100;
    let rem = n % 100;
    assert(q * pct <= n) by (nonlinear_arith)
        requires
            q == n / 100,
            pct <= 100,
    ;
    assert(rem * pct <= 9900) by (nonlinear_arith)
        requires
            rem < 100,
            pct <= 100,
    ;
    assert(q * pct + rem * pct / 100 <= n) by (nonlinear_arith)
        requires
            q == n / 100,
            rem == n % 100,
            pct <= 100,
    ;
    let p = q * pct + rem * pct / 100;
    assert(p == (n as int) * (pct as int) / 100) by (nonlinear_arith)
        requires
            q == n / 100,
            rem == n % 100,
            p == q * pct + rem * pct / 100,
            pct <= 100,
            n >= 1,
    ;
    if p < n - 1 { p } else { n - 1 }
}

/// Squared gradient magnitudes at the 70th and 90th percentile of all interior pixels
/// (the squares of the thresholds used for adaptive edge detection); `None` when the
/// image is too small to have interior pixels (narrower or shorter than 3).
pub fn gradient_percentiles(img: &GrayRaster) -> (r: Option<(u32, u32)>)
    requires
        img.wf(),
    ensures
        r is None <==> img.width < 3 || img.height < 3,
        r matches Some((lo, hi)) ==> {
            let g = all_gradients(*img);
            &&& g.len() >= 1
            &&& lo == kth_smallest(g, percentile_index(g.len() as int, 70))
            &&& hi == kth_smallest(g, percentile_index(g.len() as int, 90))
        },
{
    let w = img.width;
    let h = img.height;
    if w < 3 || h < 3 {
        return None;
    }
    let mut mags: Vec<u32> = Vec::new();
    let mut y: u32 = 1;
    while y < h - 1
        invariant
            img.wf(),
            w == img.width,
            h == img.height,
            w >= 3,
            h >= 3,
            1 <= y <= h - 1,
            mags@ == gradients_upto(*img, y as int),
        decreases h - y,
    {
        let mut x: u32 = 1;
        while x < w - 1
            invariant
                img.wf(),
                w == img.width,
                h == img.height,
                w >= 3,
                1 <= y < h - 1,
                1 <= x <= w - 1,
                mags@ == gradients_upto(*img, y as int) + row_gradients(*img, y as int).take(x - 1),
            decreases w - x,
        {
            let left = img.get_pixel(x - 1, y) as i32;
            let right = img.get_pixel(x + 1, y) as i32;
            let up = img.get_pixel(x, y - 1) as i32;
            let down = img.get_pixel(x, y + 1) as i32;
            let gx = right - left;
            let gy = down - up;
            assert(gx * gx <= 65025) by (nonlinear_arith)
                requires
                    -255 <= gx <= 255,
            ;
            assert(gy * gy <= 65025) by (nonlinear_arith)
                requires
                    -255 <= gy <= 255,
            ;
            assert(gx * gx >= 0 && gy * gy >= 0) by (nonlinear_arith);
            let m = (gx * gx + gy * gy) as u32;
            proof {
                assert(row_gradients(*img, y as int).take(x as int) =~= row_gradients(*img, y as int).take(
                    x - 1,
                ).push(m));
            }
            mags.push(m);
            x += 1;
        }
        assert(row_gradients(*img, y as int).take(w - 2) =~= row_gradients(*img, y as int));
        y += 1;
    }
    proof {
        lemma_gradients_len(*img, h - 1);
        assert((h - 2) * (w - 2) >= 1) by (nonlinear_arith)
            requires
                h >= 3,
                w >= 3,
        ;
    }
    let n = mags.len();
    let sorted = sort_ascending(mags);
    let lo = sorted[percentile_position(n, 70)];
    let hi = sorted[percentile_position(n, 90)];
    Some((lo, hi))
}

/// Number of entries of `s` equal to `v`.
pub open spec fn count_equal(s: Seq<u8>, v: int) -> nat
    decreases s.len(),
{
    if s.len() == 0 {
        0
    } else {
        count_equal(s.drop_last(), v) + if s.last() as int == v { 1nat } else { 0nat }
    }
}

/// Number of entries of `s` that are at most `v`.
pub open spec fn count_at_most(s: Seq<u8>, v: int) -> nat
    decreases s.len(),
{
    if s.len() == 0 {
        0
    } else {
        count_at_most(s.drop_last(), v) + if s.last() as int <= v { 1nat } else { 0nat }
    }
}

proof fn lemma_count_bounds(s: Seq<u8>, v: int)
    ensures
        count_equal(s, v) <= s.len(),
        count_at_most(s, v) <= s.len(),
    decreases s.len(),
{
    if s.len() > 0 {
        lemma_count_bounds(s.drop_last(), v);
    }
}

proof fn lemma_count_at_most_step(s: Seq<u8>, v: int)
    ensures
        count_at_most(s, v) == count_at_most(s, v - 1) + count_equal(s, v),
    decreases s.len(),
{
    if s.len() > 0 {
        lemma_count_at_most_step(s.drop_last(), v);
    }
}

proof fn lemma_count_at_most_all(s: Seq<u8>)
    ensures
        count_at_most(s, 255) == s.len(),
    decreases s.len(),
{
    if s.len() > 0 {
        lemma_count_at_most_all(s.drop_last());
    }
}

proof fn lemma_count_at_most_none(s: Seq<u8>)
    ensures
        count_at_most(s, -1) == 0,
    decreases s.len(),
{
    if s.len() > 0 {
        lemma_count_at_most_none(s.drop_last());
    }
}

/// Cumulative histogram of the grey levels: entry `v` (for `v` in `0..256`) counts the
/// pixels whose level is at most `v`; the last entry is the pixel count.
pub fn cumulative_histogram(gray: &GrayRaster) -> (r: Vec<usize>)
    ensures
        r@.len() == 256,
        forall|v: int| 0 <= v < 256 ==> #[trigger] r@[v] == count_at_most(gray.data@, v),
        r@[255] == gray.data@.len(),
{
    let ghost d = gray.data@;
    let mut hist: Vec<usize> = Vec::new();
    let mut v: usize = 0;
    while v < 256
        invariant
            v <= 256,
            hist@.len() == v,
            forall|u: int| 0 <= u < v ==> hist@[u] == 0,
        decreases 256 - v,
    {
        hist.push(0);
        v = v + 1;
    }
    let mut i: usize = 0;
    while i < gray.data.len()
        invariant
            d == gray.data@,
            i <= d.len(),
            hist@.len() == 256,
            forall|u: int| 0 <= u < 256 ==> #[trigger] hist@[u] == count_equal(d.take(i as int), u),
        decreases d.len() - i,
    {
        let p = gray.data[i];
        proof {
            assert(d.take(i as int + 1).drop_last() == d.take(i as int));
            assert(d.take(i as int + 1).last() == p);
            lemma_count_bounds(d.take(i as int), p as int);
        }
        let c = hist[p as usize];
        hist.set(p as usize, c + 1);
        i = i + 1;
    }
    assert(d.take(d.len() as int) == d);
    let n = gray.data.len();
    let mut cum: Vec<usize> = Vec::new();
    let mut total: usize = 0;
    let mut v: usize = 0;
    proof {
        lemma_count_at_most_none(d);
    }
    while v < 256
        invariant
            v <= 256,
            hist@.len() == 256,
            forall|u: int| 0 <= u < 256 ==> #[trigger] hist@[u] == count_equal(d, u),
            cum@.len() == v,
            total == count_at_most(d, v - 1),
            d.len() == n,
            forall|u: int| 0 <= u < v ==> #[trigger] cum@[u] == count_at_most(d, u),
        decreases 256 - v,
    {
        proof {
            lemma_count_at_most_step(d, v as int);
            lemma_count_bounds(d, v as int);
        }
        total = total + hist[v];
        cum.push(total);
        v = v + 1;
    }
    proof {
        lemma_count_at_most_all(d);
    }
    cum
}

/// Number of row bands the denoiser splits an image of `height` rows into for
/// `threads` worker threads: one per thread, at least one, at most one per row.
pub open spec fn band_count(height: int, threads: int) -> int {
    let t = if threads >= 1 { threads } else { 1 };
    if t <= height {
        t
    } else {
        height
    }
}

/// Rows per band: the height divided by the band count, rounded up.
pub open spec fn rows_per_band(height: int, threads: int) -> int {
    (height + band_count(height, threads) - 1) / band_count(height, threads)
}

/// Splits rows `0..height` into consecutive bands for parallel denoising: band `t`
/// covers rows `t * rows_per_band` up to (excluding) `(t + 1) * rows_per_band`, the last
/// band ending at `height`; bands that would start past the last row are left out.
pub fn row_bands(height: u32, threads: usize) -> (r: Vec<(u32, u32)>)
    requires
        height > 0,
    ensures
        r@.len() >= 1,
        r@.len() <= band_count(height as int, threads as int),
        forall|t: int|
            0 <= t < r@.len() ==> {
                let b = #[trigger] r@[t];
                let per = rows_per_band(height as int, threads as int);
                &&& b.0 == t * per
                &&& b.1 == if (t + 1) * per <= height { (t + 1) * per } else { height as int }
                &&& b.0 < b.1
            },
        r@[r@.len() - 1].1 == height,
{
    let t0: u64 = if threads >= 1 { threads as u64 } else { 1 };
    let bc: u64 = if t0 <= height as u64 { t0 } else { height as u64 };
    let h: u64 = height as u64;
    let per: u64 = (h + bc - 1) / bc;
    let ghost gper = rows_per_band(height as int, threads as int);
    assert(per == gper);
    assert(bc * per >= h && per >= 1 && per <= h) by (nonlinear_arith)
        requires
            per as int == (h as int + bc as int - 1) / (bc as int),
            1 <= bc <= h,
    ;
    assert(bc * per <= h * h && h * h <= 0xffff_fffe_0000_0001) by (nonlinear_arith)
        requires
            1 <= bc <= h,
            1 <= per <= h,
            h <= 0xffff_ffff,
    ;
    let mut out: Vec<(u32, u32)> = Vec::new();
    let mut t: u64 = 0;
    while t < bc && t * per < h
        invariant
            t * per <= bc * per,
            bc * per <= 0xffff_fffe_0000_0001,
            1 <= bc <= h,
            h == height as u64,
            h <= u32::MAX,
            per == gper,
            1 <= per <= h,
            bc * per >= h,
            bc as int == band_count(height as int, threads as int),
            t <= bc,
            out@.len() == t,
            t >= 1 ==> out@[t - 1].1 == if t * per <= h { t * per } else { h as int },
            forall|u: int|
                0 <= u < out@.len() ==> {
                    let b = #[trigger] out@[u];
                    &&& b.0 == u * per
                    &&& b.1 == if (u + 1) * per <= height { (u + 1) * per } else { height as int }
                    &&& b.0 < b.1
                },
        decreases bc - t,
    {
        assert((t + 1) * per <= bc * per) by (nonlinear_arith)
            requires
                t < bc,
                per >= 1,
        ;
        assert((t + 1) * per == t * per + per) by (nonlinear_arith);
        let start = t * per;
        let stop = (t + 1) * per;
        let end = if stop <= h { stop } else { h };
        out.push((start as u32, end as u32));
        t = t + 1;
    }
    proof {
        if t == bc {
            assert(out@[t - 1].1 == height);
        } else {
            assert(out@[t - 1].1 == height);
        }
    }
    out
}

} // verus!

verus! {

/// An image seen as a function from pixel coordinates to pixel values.
pub open spec fn raster_fn(img: RgbaRaster) -> spec_fn(int, int) -> Rgba {
    |x: int, y: int| img.pixel(x, y)
}

/// `a + b`, saturating at `u32::MAX`.
pub open spec fn sat_add(a: u32, b: u32) -> u32 {
    if a as int + b as int > u32::MAX as int { u32::MAX } else { (a + b) as u32 }
}

/// `a - b`, saturating at zero.
pub open spec fn sat_sub(a: u32, b: u32) -> u32 {
    if a >= b { (a - b) as u32 } else { 0 }
}

/// The smaller of two values.
pub open spec fn min_u32(a: u32, b: u32) -> u32 {
    if a <= b { a } else { b }
}

/// Heights of the text boxes that have a non-zero height, in order.
pub open spec fn nonzero_heights(boxes: Seq<ImageBoundingBox>) -> Seq<u32>
    decreases boxes.len(),
{
    if boxes.len() == 0 {
        Seq::empty()
    } else {
        let rest = nonzero_heights(boxes.drop_last());
        if boxes.last().height > 0 {
            rest.push(boxes.last().height)
        } else {
            rest
        }
    }
}

/// Median of `s` (its element at index `len / 2` once sorted), or `default` when empty.
pub open spec fn median_or(s: Seq<u32>, default: u32) -> u32 {
    if s.len() == 0 { default } else { kth_smallest(s, (s.len() / 2) as int) }
}

/// Padding added around every text box: half the median character height, at least 1.
pub open spec fn text_pad(boxes: Seq<ImageBoundingBox>) -> u32 {
    let m = median_or(nonzero_heights(boxes), 0);
    if m / 2 >= 1 { (m / 2) as u32 } else { 1 }
}

/// Box `b` grown by `pad` on every side and clipped to the `w` x `h` image, as
/// `(x0, y0, x1, y1)` with exclusive upper corners.
pub open spec fn padded_rect(b: ImageBoundingBox, pad: u32, w: u32, h: u32) -> (u32, u32, u32, u32) {
    (
        sat_sub(b.x, pad),
        sat_sub(b.y, pad),
        min_u32(sat_add(sat_add(b.x, b.width), pad), w),
        min_u32(sat_add(sat_add(b.y, b.height), pad), h),
    )
}

/// Luminances along row `y` for `x` in `x0..x1`.
pub open spec fn row_lumas(img: spec_fn(int, int) -> Rgba, y: int, x0: int, x1: int) -> Seq<u32> {
    Seq::new(if x1 > x0 { (x1 - x0) as nat } else { 0 }, |i: int| luma(img(x0 + i, y)))
}

/// Luminances down column `x` for `y` in `y0..y1`.
pub open spec fn col_lumas(img: spec_fn(int, int) -> Rgba, x: int, y0: int, y1: int) -> Seq<u32> {
    Seq::new(if y1 > y0 { (y1 - y0) as nat } else { 0 }, |i: int| luma(img(x, y0 + i)))
}

/// Luminances of the one-pixel border of the rectangle `[x0, x1) x [y0, y1)`: top row,
/// bottom row, then the left and right columns without their corners, each border
/// pixel once.
pub open spec fn border_lumas(img: spec_fn(int, int) -> Rgba, x0: int, y0: int, x1: int, y1: int) -> Seq<u32> {
    row_lumas(img, y0, x0, x1) + (if y1 - 1 != y0 { row_lumas(img, y1 - 1, x0, x1) } else { Seq::empty() })
        + col_lumas(img, x0, y0 + 1, y1 - 1) + (if x1 - 1 != x0 {
        col_lumas(img, x1 - 1, y0 + 1, y1 - 1)
    } else {
        Seq::empty()
    })
}

/// The grey level a text box is filled with: the median border luminance, white when
/// the border is empty.
pub open spec fn border_fill(img: spec_fn(int, int) -> Rgba, x0: int, y0: int, x1: int, y1: int) -> u8 {
    median_or(border_lumas(img, x0, y0, x1, y1), 255) as u8
}

/// `img` with the rectangle `[x0, x1) x [y0, y1)` painted with `p`.
pub open spec fn painted(img: spec_fn(int, int) -> Rgba, x0: int, y0: int, x1: int, y1: int, p: Rgba) -> spec_fn(int, int) -> Rgba {
    |x: int, y: int| if x0 <= x < x1 && y0 <= y < y1 { p } else { img(x, y) }
}

/// Masks one text box: a box with no area is skipped; otherwise its padded, clipped
/// rectangle (if not empty) is painted opaque grey with the median luminance of the
/// rectangle's border in the current image.
pub open spec fn mask_box(img: spec_fn(int, int) -> Rgba, w: u32, h: u32, b: ImageBoundingBox, pad: u32) -> spec_fn(int, int) -> Rgba {
    let (x0, y0, x1, y1) = padded_rect(b, pad, w, h);
    if b.width == 0 || b.height == 0 || x0 >= x1 || y0 >= y1 {
        img
    } else {
        let f = border_fill(img, x0 as int, y0 as int, x1 as int, y1 as int);
        painted(img, x0 as int, y0 as int, x1 as int, y1 as int, (f, f, f, 255u8))
    }
}

/// The image after masking the first `k` text boxes in order.
pub open spec fn masked(img: spec_fn(int, int) -> Rgba, w: u32, h: u32, boxes: Seq<ImageBoundingBox>, pad: u32, k: int) -> spec_fn(int, int) -> Rgba
    decreases k,
{
    if k <= 0 {
        img
    } else {
        mask_box(masked(img, w, h, boxes, pad, k - 1), w, h, boxes[k - 1], pad)
    }
}

/// Two images that agree on every pixel of a `w` x `h` raster have the same border
/// samples for any rectangle inside it.
proof fn lemma_border_lumas_agree(
    f: spec_fn(int, int) -> Rgba,
    g: spec_fn(int, int) -> Rgba,
    w: int,
    h: int,
    x0: int,
    y0: int,
    x1: int,
    y1: int,
)
    requires
        0 <= x0 < x1 <= w,
        0 <= y0 < y1 <= h,
        forall|x: int, y: int| 0 <= x < w && 0 <= y < h ==> #[trigger] f(x, y) == g(x, y),
    ensures
        border_lumas(f, x0, y0, x1, y1) == border_lumas(g, x0, y0, x1, y1),
{
    assert(row_lumas(f, y0, x0, x1) =~= row_lumas(g, y0, x0, x1));
    assert(row_lumas(f, y1 - 1, x0, x1) =~= row_lumas(g, y1 - 1, x0, x1));
    assert(col_lumas(f, x0, y0 + 1, y1 - 1) =~= col_lumas(g, x0, y0 + 1, y1 - 1));
    assert(col_lumas(f, x1 - 1, y0 + 1, y1 - 1) =~= col_lumas(g, x1 - 1, y0 + 1, y1 - 1));
}

fn push_row_lumas(img: &RgbaRaster, samples: &mut Vec<u32>, y: u32, x0: u32, x1: u32)
    requires
        img.wf(),
        x0 <= x1 <= img.width,
        y < img.height,
        forall|i: int| 0 <= i < old(samples)@.len() ==> #[trigger] old(samples)@[i] <= 255,
    ensures
        final(samples)@ == old(samples)@ + row_lumas(raster_fn(*img), y as int, x0 as int, x1 as int),
        forall|i: int| 0 <= i < final(samples)@.len() ==> #[trigger] final(samples)@[i] <= 255,
{
    let ghost start = samples@;
    let mut x = x0;
    while x < x1
        invariant
            img.wf(),
            x0 <= x <= x1 <= img.width,
            y < img.height,
            samples@ == start + row_lumas(raster_fn(*img), y as int, x0 as int, x1 as int).take(x - x0),
            forall|i: int| 0 <= i < samples@.len() ==> #[trigger] samples@[i] <= 255,
        decreases x1 - x,
    {
        let v = luma_of_rgba(img.get_pixel(x, y));
        proof {
            assert(row_lumas(raster_fn(*img), y as int, x0 as int, x1 as int).take(x - x0 + 1)
                =~= row_lumas(raster_fn(*img), y as int, x0 as int, x1 as int).take(x - x0).push(v as u32));
        }
        samples.push(v as u32);
        x += 1;
    }
    assert(row_lumas(raster_fn(*img), y as int, x0 as int, x1 as int).take(x1 - x0)
        =~= row_lumas(raster_fn(*img), y as int, x0 as int, x1 as int));
}

fn push_col_lumas(img: &RgbaRaster, samples: &mut Vec<u32>, x: u32, y0: u32, y1: u32)
    requires
        img.wf(),
        y1 <= img.height,
        x < img.width,
        forall|i: int| 0 <= i < old(samples)@.len() ==> #[trigger] old(samples)@[i] <= 255,
    ensures
        final(samples)@ == old(samples)@ + col_lumas(raster_fn(*img), x as int, y0 as int, y1 as int),
        forall|i: int| 0 <= i < final(samples)@.len() ==> #[trigger] final(samples)@[i] <= 255,
{
    let ghost start = samples@;
    if y0 >= y1 {
        assert(col_lumas(raster_fn(*img), x as int, y0 as int, y1 as int) =~= Seq::<u32>::empty());
        assert(samples@ =~= start + Seq::<u32>::empty());
        return;
    }
    let mut y = y0;
    while y < y1
        invariant
            img.wf(),
            y0 <= y <= y1 <= img.height,
            x < img.width,
            samples@ == start + col_lumas(raster_fn(*img), x as int, y0 as int, y1 as int).take(y - y0),
            forall|i: int| 0 <= i < samples@.len() ==> #[trigger] samples@[i] <= 255,
        decreases y1 - y,
    {
        let v = luma_of_rgba(img.get_pixel(x, y));
        proof {
            assert(col_lumas(raster_fn(*img), x as int, y0 as int, y1 as int).take(y - y0 + 1)
                =~= col_lumas(raster_fn(*img), x as int, y0 as int, y1 as int).take(y - y0).push(v as u32));
        }
        samples.push(v as u32);
        y += 1;
    }
    assert(col_lumas(raster_fn(*img), x as int, y0 as int, y1 as int).take(y1 - y0)
        =~= col_lumas(raster_fn(*img), x as int, y0 as int, y1 as int));
}

/// Median luminance of the one-pixel border of `[x0, x1) x [y0, y1)`.
fn sample_border_median(img: &RgbaRaster, x0: u32, y0: u32, x1: u32, y1: u32) -> (r: u8)
    requires
        img.wf(),
        x0 < x1 <= img.width,
        y0 < y1 <= img.height,
    ensures
        r == border_fill(raster_fn(*img), x0 as int, y0 as int, x1 as int, y1 as int),
{
    let mut samples: Vec<u32> = Vec::new();
    let yb = y1 - 1;
    let xr = x1 - 1;
    push_row_lumas(img, &mut samples, y0, x0, x1);
    if yb != y0 {
        push_row_lumas(img, &mut samples, yb, x0, x1);
    }
    push_col_lumas(img, &mut samples, x0, y0 + 1, yb);
    if xr != x0 {
        push_col_lumas(img, &mut samples, xr, y0 + 1, yb);
    }
    let ghost all = samples@;
    assert(all =~= border_lumas(raster_fn(*img), x0 as int, y0 as int, x1 as int, y1 as int));
    if samples.len() == 0 {
        return 255;
    }
    let n = samples.len();
    let sorted = sort_ascending(samples);
    let m = sorted[n / 2];
    proof {
        lemma_sorted_bounded(all);
    }
    m as u8
}

/// Every value of the sorted sequence occurs in the input sequence.
/// A value held by more than half of the samples is their median: after sorting, the
/// middle element (index `len / 2`) is that value.
pub proof fn lemma_majority_is_median(s: Seq<u32>, v: u32)
    requires
        s.to_multiset().count(v) * 2 > s.len(),
    ensures
        s.len() > 0,
        kth_smallest(s, (s.len() / 2) as int) == v,
{
    broadcast use vstd::multiset::group_multiset_axioms;

    vstd::seq_lib::to_multiset_len(s);
    assert(s.to_multiset().count(v) <= s.to_multiset().len());
    lemma_u32_leq_total();
    s.lemma_sort_by_ensures(u32_leq());
    let t = sorted_u32(s);
    let n = s.len() as int;
    let m = n / 2;
    vstd::seq_lib::to_multiset_len(t);
    assert(t.len() == n);
    assert(t.to_multiset().count(v) == s.to_multiset().count(v));
    if t[m] < v {
        let a = t.take(m + 1);
        let b = t.skip(m + 1);
        assert(t == a + b);
        vstd::seq_lib::lemma_multiset_commutative(a, b);
        assert forall|k: int| 0 <= k < a.len() implies a[k] != v by {
            if k < m {
                assert(u32_leq()(t[k], t[m]));
            }
        }
        vstd::seq_lib::to_multiset_contains(a, v);
        vstd::seq_lib::to_multiset_len(b);
        assert(b.to_multiset().count(v) <= b.to_multiset().len());
        assert(false);
    } else if t[m] > v {
        let a = t.take(m);
        let b = t.skip(m);
        assert(t == a + b);
        vstd::seq_lib::lemma_multiset_commutative(a, b);
        assert forall|k: int| 0 <= k < b.len() implies b[k] != v by {
            if k > 0 {
                assert(u32_leq()(t[m], t[m + k]));
            }
        }
        vstd::seq_lib::to_multiset_contains(b, v);
        vstd::seq_lib::to_multiset_len(a);
        assert(a.to_multiset().count(v) <= a.to_multiset().len());
        assert(false);
    }
}

/// A masked text box is filled with the luminance that more than half of its border
/// pixels have: the median of the border, not its darkest or brightest value.
pub proof fn lemma_border_fill_majority(img: spec_fn(int, int) -> Rgba, x0: int, y0: int, x1: int, y1: int, v: u32)
    requires
        border_lumas(img, x0, y0, x1, y1).to_multiset().count(v) * 2 > border_lumas(img, x0, y0, x1, y1).len(),
    ensures
        border_fill(img, x0, y0, x1, y1) == v as u8,
{
    lemma_majority_is_median(border_lumas(img, x0, y0, x1, y1), v);
}

proof fn lemma_luma_at_most_255(p: Rgba)
    ensures
        luma(p) <= 255,
{
    let t = p.0 as int * 299 + p.1 as int * 587 + p.2 as int * 114;
    assert(0 <= t <= 255000);
    assert(t / 1000 <= 255) by (nonlinear_arith)
        requires
            0 <= t <= 255000,
    ;
}

proof fn lemma_border_lumas_at_most_255(img: spec_fn(int, int) -> Rgba, x0: int, y0: int, x1: int, y1: int)
    ensures
        forall|k: int|
            0 <= k < border_lumas(img, x0, y0, x1, y1).len() ==> #[trigger] border_lumas(img, x0, y0, x1, y1)[k]
                <= 255,
{
    assert forall|x: int, y: int| #[trigger] luma(img(x, y)) <= 255 by {
        lemma_luma_at_most_255(img(x, y));
    }
}

/// A masked text box is filled with the median of its border luminances: at most half
/// of the border pixels are darker than the fill, and more than half are no brighter
/// (for an even count, the brighter of the two middle values).
pub proof fn lemma_border_fill_is_median(img: spec_fn(int, int) -> Rgba, x0: int, y0: int, x1: int, y1: int)
    requires
        border_lumas(img, x0, y0, x1, y1).len() > 0,
    ensures
        ({
            let s = border_lumas(img, x0, y0, x1, y1);
            let f = border_fill(img, x0, y0, x1, y1) as u32;
            &&& s.filter(|l: u32| l < f).len() <= s.len() / 2
            &&& s.filter(|l: u32| l <= f).len() > s.len() / 2
        }),
{
    let s = border_lumas(img, x0, y0, x1, y1);
    lemma_border_lumas_at_most_255(img, x0, y0, x1, y1);
    lemma_sorted_bounded(s);
    lemma_median_rank(s);
    let m = kth_smallest(s, (s.len() / 2) as int);
    assert(m <= 255);
    assert((m as u8) as u32 == m);
}

/// When more than half of the border pixels of a text box's padded rectangle have
/// luminance `v`, masking the box turns every pixel of that rectangle into opaque grey
/// `(v, v, v, 255)` and leaves every pixel outside it unchanged.
pub proof fn lemma_mask_box_majority_fill(
    img: spec_fn(int, int) -> Rgba,
    w: u32,
    h: u32,
    b: ImageBoundingBox,
    pad: u32,
    v: u32,
    x: int,
    y: int,
)
    requires
        b.width > 0,
        b.height > 0,
        ({
            let (x0, y0, x1, y1) = padded_rect(b, pad, w, h);
            border_lumas(img, x0 as int, y0 as int, x1 as int, y1 as int).to_multiset().count(v) * 2
                > border_lumas(img, x0 as int, y0 as int, x1 as int, y1 as int).len()
        }),
    ensures
        ({
            let (x0, y0, x1, y1) = padded_rect(b, pad, w, h);
            &&& (x0 <= x < x1 && y0 <= y < y1) ==> mask_box(img, w, h, b, pad)(x, y) == (
                v as u8,
                v as u8,
                v as u8,
                255u8,
            )
            &&& !(x0 <= x < x1 && y0 <= y < y1) ==> mask_box(img, w, h, b, pad)(x, y) == img(x, y)
        }),
{
    let (x0, y0, x1, y1) = padded_rect(b, pad, w, h);
    lemma_border_fill_majority(img, x0 as int, y0 as int, x1 as int, y1 as int, v);
}

proof fn lemma_filter_count_bounds(s: Seq<u32>, p: spec_fn(u32) -> bool)
    ensures
        (forall|k: int| 0 <= k < s.len() ==> p(#[trigger] s[k])) ==> s.filter(p).len() == s.len(),
        (forall|k: int| 0 <= k < s.len() ==> !p(#[trigger] s[k])) ==> s.filter(p).len() == 0,
        s.filter(p).len() <= s.len(),
    decreases s.len(),
{
    reveal(Seq::filter);
    if s.len() > 0 {
        lemma_filter_count_bounds(s.drop_last(), p);
        assert(forall|k: int| 0 <= k < s.len() - 1 ==> s.drop_last()[k] == #[trigger] s[k]);
    }
}

proof fn lemma_filter_len_remove(s: Seq<u32>, p: spec_fn(u32) -> bool, j: int)
    requires
        0 <= j < s.len(),
    ensures
        s.filter(p).len() == s.remove(j).filter(p).len() + if p(s[j]) { 1int } else { 0int },
{
    let a = s.take(j);
    let b = s.skip(j + 1);
    let x = seq![s[j]];
    assert(s == a + x + b);
    assert(s.remove(j) == a + b);
    Seq::filter_distributes_over_add(a + x, b, p);
    Seq::filter_distributes_over_add(a, x, p);
    Seq::filter_distributes_over_add(a, b, p);
    reveal(Seq::filter);
    assert(x.drop_last() =~= Seq::<u32>::empty());
    assert(x.drop_last().filter(p) =~= Seq::<u32>::empty());
}

/// Two samples holding the same values, each as often, have equally many values with
/// any property `p`.
proof fn lemma_filter_len_permutation(s1: Seq<u32>, s2: Seq<u32>, p: spec_fn(u32) -> bool)
    requires
        s1.to_multiset() == s2.to_multiset(),
    ensures
        s1.filter(p).len() == s2.filter(p).len(),
    decreases s1.len(),
{
    broadcast use vstd::multiset::group_multiset_axioms;

    vstd::seq_lib::to_multiset_len(s1);
    vstd::seq_lib::to_multiset_len(s2);
    if s1.len() == 0 {
        reveal(Seq::filter);
    } else {
        let x = s1.last();
        let r1 = s1.drop_last();
        assert(r1.push(x) == s1);
        vstd::seq_lib::to_multiset_build(r1, x);
        vstd::seq_lib::to_multiset_contains(s2, x);
        let j = choose|j: int| 0 <= j < s2.len() && s2[j] == x;
        vstd::seq_lib::to_multiset_remove(s2, j);
        assert(s2.remove(j).to_multiset() =~= r1.to_multiset());
        lemma_filter_len_permutation(r1, s2.remove(j), p);
        lemma_filter_len_remove(s2, p, j);
        lemma_filter_len_remove(s1, p, s1.len() - 1);
        assert(s1.remove(s1.len() - 1) == r1);
    }
}

/// The median `kth_smallest(s, len / 2)` of a non-empty sample is the value `m` with at
/// most `len / 2` samples below it and more than `len / 2` samples at or below it (the
/// upper median: for an even count, the larger of the two middle values).
pub proof fn lemma_median_rank(s: Seq<u32>)
    requires
        s.len() > 0,
    ensures
        ({
            let m = kth_smallest(s, (s.len() / 2) as int);
            &&& s.filter(|l: u32| l < m).len() <= s.len() / 2
            &&& s.filter(|l: u32| l <= m).len() > s.len() / 2
        }),
{
    lemma_u32_leq_total();
    s.lemma_sort_by_ensures(u32_leq());
    let t = sorted_u32(s);
    vstd::seq_lib::to_multiset_len(s);
    vstd::seq_lib::to_multiset_len(t);
    let n = s.len() as int;
    let h = n / 2;
    let m = t[h];
    let below = |l: u32| l < m;
    let upto = |l: u32| l <= m;
    lemma_filter_len_permutation(s, t, below);
    lemma_filter_len_permutation(s, t, upto);
    let a = t.take(h);
    let b = t.skip(h);
    assert(t == a + b);
    Seq::filter_distributes_over_add(a, b, below);
    assert forall|k: int| 0 <= k < b.len() implies !below(#[trigger] b[k]) by {
        if k > 0 {
            assert(u32_leq()(t[h], t[h + k]));
        }
    }
    lemma_filter_count_bounds(a, below);
    lemma_filter_count_bounds(b, below);
    let c = t.take(h + 1);
    let d = t.skip(h + 1);
    assert(t == c + d);
    Seq::filter_distributes_over_add(c, d, upto);
    assert forall|k: int| 0 <= k < c.len() implies upto(#[trigger] c[k]) by {
        if k < h {
            assert(u32_leq()(t[k], t[h]));
        }
    }
    lemma_filter_count_bounds(c, upto);
}

proof fn lemma_sorted_bounded(s: Seq<u32>)
    requires
        forall|i: int| 0 <= i < s.len() ==> #[trigger] s[i] <= 255,
    ensures
        forall|i: int| 0 <= i < s.len() ==> #[trigger] sorted_u32(s)[i] <= 255,
{
    lemma_u32_leq_total();
    s.lemma_sort_by_ensures(u32_leq());
    assert forall|i: int| 0 <= i < s.len() implies #[trigger] sorted_u32(s)[i] <= 255 by {
        let t = sorted_u32(s);
        s.to_multiset_ensures();
        t.to_multiset_ensures();
        assert(t.len() == s.len());
        assert(t.contains(t[i]));
        assert(s.contains(t[i]));
    }
}

} // verus!

verus! {

/// Paints the rectangle `[x0, x1) x [y0, y1)` of `img` with `p`.
fn fill_rect(img: &mut RgbaRaster, x0: u32, y0: u32, x1: u32, y1: u32, p: Rgba)
    requires
        old(img).wf(),
        x0 <= x1 <= old(img).width,
        y0 <= y1 <= old(img).height,
    ensures
        final(img).wf(),
        final(img).width == old(img).width,
        final(img).height == old(img).height,
        forall|x: int, y: int| 0 <= x < old(img).width && 0 <= y < old(img).height ==> #[trigger] final(img).pixel(x, y)
            == painted(raster_fn(*old(img)), x0 as int, y0 as int, x1 as int, y1 as int, p)(x, y),
{
    let ghost orig = raster_fn(*img);
    let ghost w = img.width as int;
    let ghost h = img.height as int;
    let mut y = y0;
    while y < y1
        invariant
            img.wf(),
            img.width == w,
            img.height == h,
            x0 <= x1 <= w,
            y0 <= y <= y1 <= h,
            forall|a: int, b: int| 0 <= a < w && 0 <= b < h ==> #[trigger] img.pixel(a, b)
                == (if x0 <= a < x1 && y0 <= b < y { p } else { orig(a, b) }),
        decreases y1 - y,
    {
        let mut x = x0;
        while x < x1
            invariant
                img.wf(),
                img.width == w,
                img.height == h,
                x0 <= x <= x1 <= w,
                y0 <= y < y1 <= h,
                forall|a: int, b: int| 0 <= a < w && 0 <= b < h ==> #[trigger] img.pixel(a, b)
                    == (if x0 <= a < x1 && y0 <= b < y { p } else if b == y && x0 <= a < x { p } else { orig(a, b) }),
            decreases x1 - x,
        {
            img.put_pixel(x, y, p);
            x += 1;
        }
        y += 1;
    }
}

/// Mask OCR text regions in `img` so that text strokes are not traced as lines.
///
/// For each text box, in order: the box is grown by an adaptive padding of half the
/// median character height (at least 1 pixel) on every side and clipped to the image,
/// and the grown rectangle is filled, fully opaque, with the median luminance of its
/// one-pixel border, matching the local background rather than assuming white. Boxes of
/// zero width or height are skipped. Pixels outside every grown box keep their value.
pub fn mask_text_regions(img: RgbaRaster, boxes: &Vec<ImageBoundingBox>) -> (r: RgbaRaster)
    requires
        img.wf(),
    ensures
        r.wf(),
        r.width == img.width,
        r.height == img.height,
        forall|x: int, y: int| 0 <= x < img.width && 0 <= y < img.height ==> #[trigger] r.pixel(x, y)
            == masked(raster_fn(img), img.width, img.height, boxes@, text_pad(boxes@), boxes@.len() as int)(x, y),
{
    let ghost init = raster_fn(img);
    if boxes.len() == 0 {
        return img;
    }
    let mut heights: Vec<u32> = Vec::new();
    let mut k: usize = 0;
    while k < boxes.len()
        invariant
            k <= boxes.len(),
            heights@ == nonzero_heights(boxes@.take(k as int)),
        decreases boxes.len() - k,
    {
        proof {
            assert(boxes@.take(k + 1).drop_last() =~= boxes@.take(k as int));
        }
        if boxes[k].height > 0 {
            heights.push(boxes[k].height);
        }
        k += 1;
    }
    assert(boxes@.take(boxes.len() as int) =~= boxes@);
    let n = heights.len();
    let sorted = sort_ascending(heights);
    let median: u32 = if n == 0 { 0 } else { sorted[n / 2] };
    let pad: u32 = if median / 2 >= 1 { median / 2 } else { 1 };
    assert(pad == text_pad(boxes@));

    let w = img.width;
    let h = img.height;
    let mut out = img;
    let mut i: usize = 0;
    while i < boxes.len()
        invariant
            out.wf(),
            out.width == w,
            out.height == h,
            i <= boxes.len(),
            pad == text_pad(boxes@),
            forall|x: int, y: int| 0 <= x < w && 0 <= y < h ==> #[trigger] out.pixel(x, y)
                == masked(init, w, h, boxes@, pad, i as int)(x, y),
        decreases boxes.len() - i,
    {
        let b = boxes[i];
        let ghost before = masked(init, w, h, boxes@, pad, i as int);
        let ghost after = masked(init, w, h, boxes@, pad, i + 1);
        assert(after == mask_box(before, w, h, b, pad));
        if b.width == 0 || b.height == 0 {
            i += 1;
            continue;
        }
        let x0 = b.x.saturating_sub(pad);
        let y0 = b.y.saturating_sub(pad);
        let xe = b.x.saturating_add(b.width).saturating_add(pad);
        let ye = b.y.saturating_add(b.height).saturating_add(pad);
        let x1 = if xe <= w { xe } else { w };
        let y1 = if ye <= h { ye } else { h };
        assert((x0, y0, x1, y1) == padded_rect(b, pad, w, h));
        if x0 >= x1 || y0 >= y1 {
            i += 1;
            continue;
        }
        let fill = sample_border_median(&out, x0, y0, x1, y1);
        proof {
            lemma_border_lumas_agree(raster_fn(out), before, w as int, h as int, x0 as int, y0 as int, x1 as int, y1 as int);
        }
        let ghost mid = raster_fn(out);
        fill_rect(&mut out, x0, y0, x1, y1, (fill, fill, fill, 255));
        proof {
            assert forall|x: int, y: int| 0 <= x < w && 0 <= y < h implies #[trigger] out.pixel(x, y)
                == after(x, y) by {
                assert(mid(x, y) == before(x, y));
            }
        }
        i += 1;
    }
    out
}

} // verus!
