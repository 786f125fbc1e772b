use vstd::prelude::*;
use crate::array2d::Array2D;

verus! {

pub const DISPLAY_WIDTH: usize = 64;

pub const DISPLAY_HEIGHT: usize = 32;

/// A bare monochrome pixel grid, 64 wide and 32 tall, with no derived color
/// buffer attached.
pub struct Display {
    pub pixels: Array2D<bool>,
}

impl Default for Display {
    /// A grid with every pixel off.
    fn default() -> (r: Self)
        ensures
            r.pixels.wf(),
            r.pixels.spec_rows() == DISPLAY_HEIGHT,
            r.pixels.spec_cols() == DISPLAY_WIDTH,
            forall|i: int| 0 <= i < r.pixels@.len() ==> r.pixels@[i] == false,
    {
        Display { pixels: Array2D::new(DISPLAY_HEIGHT, DISPLAY_WIDTH, false) }
    }
}

} // verus!
