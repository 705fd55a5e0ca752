//! An 8-bit grayscale raster, row-major, one byte per pixel.

use vstd::prelude::*;

use crate::mask::{lemma_offset_in_bounds, pixel_offset};

verus! {

#[derive(Debug, Clone, PartialEq, Eq)]
pub struct GrayPixels {
    pub width: u32,
    pub height: u32,
    pub pixels: Vec<u8>,
}

impl GrayPixels {
    /// The buffer holds exactly `width * height` pixels.
    pub open spec fn wf(&self) -> bool {
        self.pixels@.len() == self.width * self.height
    }

    /// The value of pixel `(x, y)`.
    pub open spec fn at(&self, x: int, y: int) -> u8 {
        self.pixels@[pixel_offset(self.width, x, y)]
    }

    /// Whether `(x, y)` lies on the raster.
    pub open spec fn on(&self, x: int, y: int) -> bool {
        0 <= x < self.width && 0 <= y < self.height
    }

    pub fn get(&self, x: u32, y: u32) -> (value: u8)
        requires
            self.wf(),
            x < self.width,
            y < self.height,
        ensures
            value == self.at(x as int, y as int),
    {
        let n = self.pixels.len();
        proof {
            lemma_offset_in_bounds(self.width, self.height, x as int, y as int);
        }
        self.pixels[(y as usize) * (self.width as usize) + (x as usize)]
    }
}

} // verus!
