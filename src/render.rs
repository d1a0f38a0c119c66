//! Filling a pixel buffer: every pixel of a grid gets the intensity of its
//! escape count.
use vstd::prelude::*;
use crate::grid::{col_at, index_of, row_at, PixelPt, PxWindow};

verus! {

/// The iteration budget of the escape test, and the intensity of a point
/// that never escaped.
pub const COLOR_DEPTH: usize = 255;


/// The intensity of a pixel whose escape count is `escape`: what `color`
/// may return for the count when the point escaped, `COLOR_DEPTH` when it
/// never did.
pub open spec fn intensity_of<C: Fn(usize) -> u8>(color: C, escape: Option<usize>, v: u8) -> bool {
    match escape {
        Some(n) => color.ensures((n,), v),
        None => v == COLOR_DEPTH as u8,
    }
}

/// `v` is an intensity that rendering pixel `p` can produce: `escape`
/// may return some count for `p`, and `v` is the intensity of that count.
pub open spec fn rendered_as<E: Fn(PixelPt) -> Option<usize>, C: Fn(usize) -> u8>(
    escape: E,
    color: C,
    p: PixelPt,
    v: u8,
) -> bool {
    exists|e: Option<usize>| #[trigger] escape.ensures((p,), e) && intensity_of(color, e, v)
}

/// Maps an escape count to an intensity: `color` of the count for a point
/// that escaped, `COLOR_DEPTH` for one that did not.
pub fn intensity<C: Fn(usize) -> u8>(escape: Option<usize>, color: &C) -> (r: u8)
    requires
        forall|n: usize| color.requires((n,)),
    ensures
        intensity_of(*color, escape, r),
{
    match escape {
        Some(n) => color(n),
        None => COLOR_DEPTH as u8,
    }
}

/// Renders every pixel of the grid `px_win` into the row-major buffer
/// `pixels`: the pixel (col, row) gets, at index `col + row * width`, the
/// intensity of the escape count that `escape` gives for it.
pub fn render<E, C>(pixels: &mut [u8], px_win: PxWindow, escape: &E, color: &C)
    where
        E: Fn(PixelPt) -> Option<usize>,
        C: Fn(usize) -> u8,
    requires
        px_win.wf(),
        old(pixels)@.len() == px_win.area(),
        forall|p: PixelPt| px_win.contains(p) ==> escape.requires((p,)),
        forall|n: usize| color.requires((n,)),
    ensures
        final(pixels)@.len() == old(pixels)@.len(),
        forall|i: int|
            0 <= i < final(pixels)@.len() ==> rendered_as(
                *escape,
                *color,
                PixelPt {
                    col: col_at(i, px_win.width as int) as usize,
                    row: row_at(i, px_win.width as int) as usize,
                },
                #[trigger] final(pixels)@[i],
            ),
{
    let ghost w = px_win.width as int;
    let len = pixels.len();
    let mut i: usize = 0;
    let mut col: usize = 0;
    let mut row: usize = 0;
    assert(i == index_of(col as int, row as int, w)) by (nonlinear_arith)
        requires i == 0, col == 0, row == 0;
    while i < len
        invariant
            px_win.wf(),
            w == px_win.width,
            len == pixels@.len(),
            len == px_win.area(),
            i <= len,
            col < w,
            i == index_of(col as int, row as int, w),
            forall|p: PixelPt| px_win.contains(p) ==> escape.requires((p,)),
            forall|n: usize| color.requires((n,)),
            forall|j: int|
                0 <= j < i ==> rendered_as(
                    *escape,
                    *color,
                    PixelPt { col: col_at(j, w) as usize, row: row_at(j, w) as usize },
                    #[trigger] pixels@[j],
                ),
        decreases len - i,
    {
        proof {
            assert(col_at(i as int, w) == col && row_at(i as int, w) == row) by (nonlinear_arith)
                requires i == col + row * w, 0 <= col < w, row >= 0;
            assert(row < px_win.height) by (nonlinear_arith)
                requires i == col + row * w, 0 <= col < w, row >= 0, i < w * px_win.height;
        }
        let p = PixelPt::new(col, row);
        assert(px_win.contains(p));
        let e = escape(p);
        let v = intensity(e, color);
        assert(rendered_as(*escape, *color, p, v));
        pixels[i] = v;
        let ghost (c0, r0) = (col as int, row as int);
        i = i + 1;
        if col + 1 == px_win.width {
            col = 0;
            row = row + 1;
        } else {
            col = col + 1;
        }
        assert(i == index_of(col as int, row as int, w)) by (nonlinear_arith)
            requires
                i == c0 + r0 * w + 1,
                (col == 0 && row == r0 + 1 && c0 + 1 == w) || (col == c0 + 1 && row == r0);
    }
}

} // verus!
