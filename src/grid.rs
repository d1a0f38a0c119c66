//! Pixel locations and pixel-grid dimensions.
use vstd::prelude::*;

verus! {

/// A zero-indexed pixel location: column and row.
#[derive(Debug, Copy, Clone, PartialEq, Eq, Structural)]
pub struct PixelPt {
    pub col: usize,
    pub row: usize,
}

/// The dimensions of a pixel grid, in pixels.
#[derive(Debug, Copy, Clone, PartialEq, Eq, Structural)]
pub struct PxWindow {
    pub width: usize,
    pub height: usize,
}

impl PxWindow {
    /// Both dimensions are positive and the pixel count fits in a `usize`.
    pub open spec fn wf(&self) -> bool {
        &&& self.width > 0
        &&& self.height > 0
        &&& self.width * self.height <= usize::MAX
    }

    /// The number of pixels in the grid.
    pub open spec fn area(&self) -> nat {
        (self.width * self.height) as nat
    }

    /// The pixel's position lies inside the grid.
    pub open spec fn contains(&self, p: PixelPt) -> bool {
        p.col < self.width && p.row < self.height
    }
}

impl PixelPt {
    pub fn new(col: usize, row: usize) -> (r: PixelPt)
        ensures
            r.col == col,
            r.row == row,
    {
        PixelPt { col, row }
    }
}

/// The row-major buffer index of a pixel.
pub open spec fn index_of(col: int, row: int, width: int) -> int {
    col + row * width
}

/// The column of the pixel stored at a row-major buffer index.
pub open spec fn col_at(i: int, width: int) -> int {
    i % width
}

/// The row of the pixel stored at a row-major buffer index.
pub open spec fn row_at(i: int, width: int) -> int {
    i / width
}

/// A buffer index and the pixel stored there determine each other.
pub proof fn lemma_index_round_trip(i: int, width: int, height: int)
    requires
        width > 0,
        0 <= i < width * height,
    ensures
        index_of(col_at(i, width), row_at(i, width), width) == i,
        0 <= col_at(i, width) < width,
        0 <= row_at(i, width) < height,
{
    assert(i == i % width + (i / width) * width) by (nonlinear_arith)
        requires width > 0;
    assert(0 <= i / width < height) by (nonlinear_arith)
        requires width > 0, 0 <= i < width * height;
}

pub fn px_to_index(pixel: PixelPt, window: PxWindow) -> (r: usize)
    requires
        window.wf(),
        window.contains(pixel),
    ensures
        r == index_of(pixel.col as int, pixel.row as int, window.width as int),
        r < window.area(),
{
    proof {
        let (c, w, rr, h) = (pixel.col as int, window.width as int, pixel.row as int, window.height as int);
        assert(c + rr * w < w * h) by (nonlinear_arith)
            requires 0 <= c < w, 0 <= rr < h;
    }
    pixel.col + pixel.row * window.width
}

} // verus!
