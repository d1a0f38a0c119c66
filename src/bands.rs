//! Partition of an image's rows, and of its row-major buffer, into
//! contiguous horizontal bands that separate workers render.
use vstd::prelude::*;
use crate::grid::{col_at, index_of, row_at, PixelPt, PxWindow};

verus! {

/// Rounded-up integer division.
pub open spec fn ceil_div(a: int, b: int) -> int {
    (a + b - 1) / b
}

/// The smaller of two integers.
pub open spec fn min_int(a: int, b: int) -> int {
    if a <= b { a } else { b }
}

/// Rows given to every band but possibly the last one, for `height` rows
/// shared among `workers` workers.
pub open spec fn rows_per_band_spec(height: int, workers: int) -> int {
    ceil_div(height, workers)
}

/// How many bands `height` rows make when cut into chunks of `rpb` rows.
pub open spec fn band_count_spec(height: int, rpb: int) -> int {
    ceil_div(height, rpb)
}

/// Top row of band `i`.
pub open spec fn band_top(i: int, rpb: int) -> int {
    i * rpb
}

/// Row count of band `i`: a full chunk, or what is left for the last band.
pub open spec fn band_rows(i: int, rpb: int, height: int) -> int {
    min_int(rpb, height - i * rpb)
}

/// One horizontal strip of an image: its rows and the range of the
/// row-major buffer that holds them.
#[derive(Debug, Copy, Clone, PartialEq, Eq, Structural)]
pub struct Band {
    /// Index of the band's top row in the full image.
    pub top: usize,
    /// Number of rows in the band.
    pub rows: usize,
    /// Buffer index of the band's first pixel.
    pub start: usize,
    /// Number of pixels in the band.
    pub len: usize,
}

impl Band {
    /// The band is band `i` of an image with window `win` cut into chunks
    /// of `rpb` rows.
    pub open spec fn is_band(&self, i: int, rpb: int, win: PxWindow) -> bool {
        &&& self.top == band_top(i, rpb)
        &&& self.rows == band_rows(i, rpb, win.height as int)
        &&& self.start == self.top * win.width
        &&& self.len == self.rows * win.width
    }

    /// The band's own pixel grid: the full width, and its own rows.
    pub fn px_window(&self, width: usize) -> (r: PxWindow)
        ensures
            r.width == width,
            r.height == self.rows,
    {
        PxWindow { width, height: self.rows }
    }

    /// The band's upper-left pixel corner, in the full image.
    pub fn upper_left_px(&self) -> (r: PixelPt)
        ensures
            r.col == 0,
            r.row == self.top,
    {
        PixelPt::new(0, self.top)
    }

    /// The band's lower-right pixel corner (one past its last column and
    /// row), in the full image.
    pub fn lower_right_px(&self, width: usize) -> (r: PixelPt)
        requires
            self.top + self.rows <= usize::MAX,
        ensures
            r.col == width,
            r.row == self.top + self.rows,
    {
        PixelPt::new(width, self.top + self.rows)
    }
}

proof fn lemma_rows_per_band_bounds(height: int, workers: int)
    requires
        height >= 1,
        workers >= 1,
    ensures
        1 <= rows_per_band_spec(height, workers) <= height,
        rows_per_band_spec(height, workers) * workers >= height,
{
    let r = rows_per_band_spec(height, workers);
    assert(1 <= r <= height && r * workers >= height) by (nonlinear_arith)
        requires height >= 1, workers >= 1, r == (height + workers - 1) / workers;
}

proof fn lemma_band_count_bounds(height: int, rpb: int)
    requires
        height >= 1,
        rpb >= 1,
    ensures
        band_count_spec(height, rpb) == (height - 1) / rpb + 1,
        band_count_spec(height, rpb) >= 1,
        (band_count_spec(height, rpb) - 1) * rpb < height,
        band_count_spec(height, rpb) * rpb >= height,
{
    let c = band_count_spec(height, rpb);
    assert(c == (height - 1) / rpb + 1) by (nonlinear_arith)
        requires height >= 1, rpb >= 1, c == (height + rpb - 1) / rpb;
    assert(c >= 1 && (c - 1) * rpb < height && c * rpb >= height) by (nonlinear_arith)
        requires height >= 1, rpb >= 1, c == (height - 1) / rpb + 1;
}

/// Rows per band for `height` rows and `workers` workers, rounded up so that
/// at most the last band is short.
pub fn rows_per_band(height: usize, workers: usize) -> (r: usize)
    requires
        workers >= 1,
    ensures
        r == rows_per_band_spec(height as int, workers as int),
{
    let q = height / workers;
    let extra: usize = if height % workers != 0 { 1 } else { 0 };
    proof {
        let (h, n) = (height as int, workers as int);
        assert((h + n - 1) / n == h / n + (if h % n != 0 { 1int } else { 0 })) by (nonlinear_arith)
            requires h >= 0, n >= 1;
        if extra == 1 {
            assert(n >= 2 && h >= 1) by (nonlinear_arith)
                requires h % n != 0, n >= 1, h >= 0;
            assert(q + 1 <= h) by (nonlinear_arith)
                requires h >= 1, n >= 2, q == h / n;
        }
    }
    q + extra
}

/// Cuts an image's rows into bands for `workers` workers: chunks of
/// `rows_per_band` rows from the top, the last one possibly shorter.
pub fn band_layout(win: PxWindow, workers: usize) -> (r: Vec<Band>)
    requires
        win.wf(),
        workers >= 1,
    ensures
        r.len() == band_count_spec(
            win.height as int,
            rows_per_band_spec(win.height as int, workers as int),
        ),
        1 <= r.len() <= workers,
        forall|i: int|
            0 <= i < r.len() ==> #[trigger] r[i].is_band(
                i,
                rows_per_band_spec(win.height as int, workers as int),
                win,
            ),
{
    let rpb = rows_per_band(win.height, workers);
    let ghost h = win.height as int;
    let ghost w = win.width as int;
    proof {
        lemma_rows_per_band_bounds(h, workers as int);
        lemma_band_count_bounds(h, rpb as int);
        let c = band_count_spec(h, rpb as int);
        assert(c <= workers) by (nonlinear_arith)
            requires (c - 1) * rpb < h, rpb * workers >= h, rpb >= 1, workers >= 1;
    }
    let mut bands: Vec<Band> = Vec::new();
    let mut top: usize = 0;
    assert(top == bands.len() * rpb) by (nonlinear_arith)
        requires top == 0, bands.len() == 0;
    loop
        invariant_except_break
            top == bands.len() * rpb,
            top < h,
            bands.len() < band_count_spec(h, rpb as int),
        invariant
            1 <= rpb <= h,
            h == win.height,
            w == win.width,
            win.wf(),
            forall|i: int| 0 <= i < bands.len() ==> #[trigger] bands[i].is_band(i, rpb as int, win),
        ensures
            bands.len() == band_count_spec(h, rpb as int),
        decreases h - top,
    {
        let ghost k = bands.len() as int;
        let remaining = win.height - top;
        let rows = if remaining < rpb { remaining } else { rpb };
        proof {
            assert(top * w <= h * w - rows * w && h * w <= usize::MAX) by (nonlinear_arith)
                requires 0 <= top, top + rows <= h, w >= 1, rows >= 0, h * w <= usize::MAX, w * h == h * w;
        }
        let band = Band { top, rows, start: top * win.width, len: rows * win.width };
        bands.push(band);
        proof {
            lemma_band_count_bounds(h, rpb as int);
            let c = band_count_spec(h, rpb as int);
            assert(k + 1 <= c);
            assert((k + 1) * rpb == top + rpb) by (nonlinear_arith)
                requires top == k * rpb;
            if top + rpb < h {
                assert(k + 1 < c) by (nonlinear_arith)
                    requires (k + 1) * rpb < h, c * rpb >= h, rpb >= 1, c == (h - 1) / (rpb as int) + 1;
            } else {
                assert(k + 1 == c) by (nonlinear_arith)
                    requires (k + 1) * rpb >= h, top < h, top == k * rpb, rpb >= 1, c == (h - 1) / (rpb as int) + 1,
                    (c - 1) * rpb < h;
            }
            assert(bands[k].is_band(k, rpb as int, win));
        }
        if remaining <= rpb {
            break;
        }
        top = top + rpb;
    }
    bands
}

/// Band `j` holds row `row`.
pub open spec fn band_holds_row(j: int, rpb: int, height: int, row: int) -> bool {
    band_top(j, rpb) <= row < band_top(j, rpb) + band_rows(j, rpb, height)
}

/// Band `j` holds buffer index `idx` of an image `width` pixels wide.
pub open spec fn band_holds_index(j: int, rpb: int, height: int, width: int, idx: int) -> bool {
    band_top(j, rpb) * width <= idx < band_top(j, rpb) * width + band_rows(j, rpb, height) * width
}

/// Band `j` is non-empty and lies inside the image's rows.
pub open spec fn band_within(j: int, rpb: int, height: int) -> bool {
    &&& band_rows(j, rpb, height) >= 1
    &&& band_top(j, rpb) >= 0
    &&& band_top(j, rpb) + band_rows(j, rpb, height) <= height
}

proof fn lemma_row_in_chunk(row: int, j: int, rpb: int)
    requires
        rpb >= 1,
        0 <= row,
        j * rpb <= row < j * rpb + rpb,
    ensures
        j == row / rpb,
{
    assert(j == row / rpb) by (nonlinear_arith)
        requires rpb >= 1, 0 <= row, j * rpb <= row < j * rpb + rpb;
}

/// The bands of an image with `height >= 1` rows, cut for `workers >= 1`
/// workers, are each non-empty and inside the image, and every row of the
/// image lies in exactly one of them: the band `row / rows_per_band`.
pub proof fn lemma_bands_cover_rows(height: int, workers: int, row: int)
    requires
        height >= 1,
        workers >= 1,
        0 <= row < height,
    ensures
        forall|j: int|
            0 <= j < band_count_spec(height, rows_per_band_spec(height, workers))
                ==> #[trigger] band_within(j, rows_per_band_spec(height, workers), height),
        0 <= row / rows_per_band_spec(height, workers) < band_count_spec(
            height,
            rows_per_band_spec(height, workers),
        ),
        band_holds_row(
            row / rows_per_band_spec(height, workers),
            rows_per_band_spec(height, workers),
            height,
            row,
        ),
        forall|j: int|
            0 <= j < band_count_spec(height, rows_per_band_spec(height, workers))
                && #[trigger] band_holds_row(j, rows_per_band_spec(height, workers), height, row)
                ==> j == row / rows_per_band_spec(height, workers),
{
    let rpb = rows_per_band_spec(height, workers);
    lemma_rows_per_band_bounds(height, workers);
    lemma_band_count_bounds(height, rpb);
    let c = band_count_spec(height, rpb);
    assert forall|j: int| 0 <= j < c implies #[trigger] band_within(j, rpb, height) by {
        assert(j * rpb < height && j * rpb >= 0) by (nonlinear_arith)
            requires 0 <= j < c, (c - 1) * rpb < height, rpb >= 1;
    }
    let i = row / rpb;
    assert(0 <= i < c && i * rpb <= row < i * rpb + rpb) by (nonlinear_arith)
        requires 0 <= row < height, rpb >= 1, i == row / rpb, c == (height - 1) / rpb + 1;
    assert forall|j: int|
        0 <= j < c && #[trigger] band_holds_row(j, rpb, height, row) implies j == i by {
        lemma_row_in_chunk(row, j, rpb);
    }
}

/// Every buffer index of an image `width` pixels wide and `height >= 1` rows,
/// cut for `workers >= 1` workers, lies in exactly one band's buffer range,
/// and inside that band it is the pixel of the same column on the row
/// `row - top` of the band.
pub proof fn lemma_bands_cover_buffer(width: int, height: int, workers: int, idx: int)
    requires
        width >= 1,
        height >= 1,
        workers >= 1,
        0 <= idx < width * height,
    ensures
        ({
            let rpb = rows_per_band_spec(height, workers);
            let j = (idx / width) / rpb;
            &&& 0 <= j < band_count_spec(height, rpb)
            &&& band_holds_index(j, rpb, height, width, idx)
            &&& index_of(idx % width, idx / width - band_top(j, rpb), width)
                == idx - band_top(j, rpb) * width
            &&& forall|k: int|
                0 <= k < band_count_spec(height, rpb) && #[trigger] band_holds_index(
                    k,
                    rpb,
                    height,
                    width,
                    idx,
                ) ==> k == j
        }),
{
    let rpb = rows_per_band_spec(height, workers);
    let row = idx / width;
    let col = idx % width;
    assert(0 <= row < height && 0 <= col < width && idx == col + row * width) by (nonlinear_arith)
        requires width >= 1, 0 <= idx < width * height, row == idx / width, col == idx % width;
    lemma_bands_cover_rows(height, workers, row);
    let j = row / rpb;
    let t = band_top(j, rpb);
    let n = band_rows(j, rpb, height);
    assert(t * width <= idx < t * width + n * width) by (nonlinear_arith)
        requires t <= row < t + n, idx == col + row * width, 0 <= col < width;
    assert(index_of(col, row - t, width) == idx - t * width) by (nonlinear_arith)
        requires idx == col + row * width;
    assert forall|k: int|
        0 <= k < band_count_spec(height, rpb) && #[trigger] band_holds_index(k, rpb, height, width, idx)
        implies k == j by {
        let tk = band_top(k, rpb);
        let nk = band_rows(k, rpb, height);
        assert(tk <= row < tk + nk) by (nonlinear_arith)
            requires tk * width <= idx < tk * width + nk * width, idx == col + row * width,
            0 <= col < width;
        assert(band_holds_row(k, rpb, height, row));
    }
}

/// Rendering a band as an image of its own puts each pixel where the whole
/// image has it: local index `l` of band `j` holds the pixel of column
/// `col_at(l)` and band row `row_at(l)`, which is the pixel at buffer index
/// `start + l` of the whole image, on image row `top + row_at(l)`. So a
/// band-by-band render equals a whole-image render wherever both give each
/// pixel the same value, whatever the number of workers.
pub proof fn lemma_band_pixels_match_image(width: int, height: int, workers: int, j: int, l: int)
    requires
        width >= 1,
        height >= 1,
        workers >= 1,
        0 <= j < band_count_spec(height, rows_per_band_spec(height, workers)),
        0 <= l < band_rows(j, rows_per_band_spec(height, workers), height) * width,
    ensures
        ({
            let rpb = rows_per_band_spec(height, workers);
            let g = band_top(j, rpb) * width + l;
            &&& 0 <= g < width * height
            &&& col_at(g, width) == col_at(l, width)
            &&& row_at(g, width) == band_top(j, rpb) + row_at(l, width)
            &&& 0 <= row_at(l, width) < band_rows(j, rpb, height)
        }),
{
    let rpb = rows_per_band_spec(height, workers);
    lemma_bands_cover_rows(height, workers, 0);
    assert(band_within(j, rpb, height));
    let t = band_top(j, rpb);
    let n = band_rows(j, rpb, height);
    let g = t * width + l;
    assert(0 <= g < width * height) by (nonlinear_arith)
        requires t >= 0, t + n <= height, 0 <= l < n * width, width >= 1, g == t * width + l;
    assert(col_at(g, width) == col_at(l, width) && row_at(g, width) == t + row_at(l, width))
        by (nonlinear_arith)
        requires width >= 1, t >= 0, l >= 0, g == t * width + l;
    assert(0 <= row_at(l, width) < n) by (nonlinear_arith)
        requires width >= 1, 0 <= l < n * width;
}

} // verus!
