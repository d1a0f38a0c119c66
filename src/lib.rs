//! Band-parallel Mandelbrot rendering: pixel grids, the partition of the
//! output buffer into horizontal bands for separate workers, the per-pixel
//! render loop with its intensity mapping, the escape-time iteration, and
//! parsing of image sizes and number pairs. Complex-plane geometry and
//! complex arithmetic are supplied by the caller as functions.
use vstd::prelude::*;

pub mod bands;
pub mod escape;
pub mod grid;
pub mod parse;
pub mod render;

pub use bands::{band_layout, rows_per_band, Band};
pub use escape::escape_time;
pub use grid::{px_to_index, PixelPt, PxWindow};
pub use parse::{join_pair, parse_pair, parse_px_window, split_pair};
pub use render::{intensity, render, COLOR_DEPTH};

verus! {

} // verus!
