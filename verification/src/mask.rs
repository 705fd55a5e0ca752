//! One-bit page masks: `true` is black / foreground / ink, `false` is
//! white / background.

use vstd::prelude::*;

verus! {

/// A row-major bilevel raster.
#[derive(Debug, Clone, PartialEq, Eq)]
pub struct BinaryMask {
    pub width: u32,
    pub height: u32,
    pub pixels: Vec<bool>,
}

/// Offset of pixel `(x, y)` in a row-major raster of the given width.
pub open spec fn pixel_offset(width: u32, x: int, y: int) -> int {
    y * width + x
}

pub proof fn lemma_offset_in_bounds(width: u32, height: u32, x: int, y: int)
    requires
        0 <= x < width,
        0 <= y < height,
    ensures
        0 <= pixel_offset(width, x, y) < width * height,
        0 <= y * width <= pixel_offset(width, x, y),
        pixel_offset(width, x, y) < height * width,
{
    assert(height * width == width * height) by (nonlinear_arith);
    assert(0 <= y * width + x < width * height) by (nonlinear_arith)
        requires
            0 <= x < width,
            0 <= y < height,
    ;
}

impl BinaryMask {
    /// The pixel buffer holds exactly `width * height` pixels.
    pub open spec fn wf(&self) -> bool {
        self.pixels@.len() == self.width * self.height
    }

    /// The value of pixel `(x, y)`.
    pub open spec fn at(&self, x: int, y: int) -> bool {
        self.pixels@[pixel_offset(self.width, x, y)]
    }

    /// An all-white mask of the given size.
    pub fn new(width: u32, height: u32) -> (mask: Self)
        requires
            width * height <= usize::MAX,
        ensures
            mask.wf(),
            mask.width == width,
            mask.height == height,
            forall|i: int| 0 <= i < mask.pixels@.len() ==> !#[trigger] mask.pixels@[i],
    {
        let n = (width as usize) * (height as usize);
        let pixels = vec![false; n];
        BinaryMask { width, height, pixels }
    }

    pub fn get(&self, x: u32, y: u32) -> (value: bool)
        requires
            self.wf(),
            x < self.width,
            y < self.height,
        ensures
            value == self.at(x as int, y as int),
    {
        let n = self.pixels.len();
        proof {
            lemma_offset_in_bounds(self.width, self.height, x as int, y as int);
        }
        self.pixels[(y as usize) * (self.width as usize) + (x as usize)]
    }

    pub fn set(&mut self, x: u32, y: u32, value: bool)
        requires
            old(self).wf(),
            x < old(self).width,
            y < old(self).height,
        ensures
            final(self).wf(),
            final(self).width == old(self).width,
            final(self).height == old(self).height,
            final(self).pixels@ == old(self).pixels@.update(
                pixel_offset(old(self).width, x as int, y as int),
                value,
            ),
    {
        let n = self.pixels.len();
        proof {
            lemma_offset_in_bounds(self.width, self.height, x as int, y as int);
        }
        let i = (y as usize) * (self.width as usize) + (x as usize);
        self.pixels.set(i, value);
    }
}

} // verus!

verus! {

/// Distinct in-bounds pixels have distinct offsets.
pub proof fn lemma_offset_injective(width: u32, x1: int, y1: int, x2: int, y2: int)
    requires
        0 <= x1 < width,
        0 <= x2 < width,
        0 <= y1,
        0 <= y2,
        pixel_offset(width, x1, y1) == pixel_offset(width, x2, y2),
    ensures
        x1 == x2,
        y1 == y2,
{
    assert(x1 == x2 && y1 == y2) by (nonlinear_arith)
        requires
            0 <= x1 < width,
            0 <= x2 < width,
            0 <= y1,
            0 <= y2,
            y1 * width + x1 == y2 * width + x2,
    ;
}

impl BinaryMask {
    /// Whether `(x, y)` lies on the mask.
    pub open spec fn on(&self, x: int, y: int) -> bool {
        0 <= x < self.width && 0 <= y < self.height
    }

    /// `self` is `old` with pixel `(x, y)` set to `value` and every other
    /// pixel unchanged.
    pub open spec fn one_changed(&self, old: BinaryMask, x: int, y: int, value: bool) -> bool {
        &&& self.wf()
        &&& self.width == old.width
        &&& self.height == old.height
        &&& forall|qx: int, qy: int|
            self.on(qx, qy) ==> #[trigger] self.at(qx, qy) == if qx == x && qy == y {
                value
            } else {
                old.at(qx, qy)
            }
    }

    /// Sets one pixel, as pixel coordinates.
    pub fn paint(&mut self, x: u32, y: u32, value: bool)
        requires
            old(self).wf(),
            x < old(self).width,
            y < old(self).height,
        ensures
            final(self).one_changed(*old(self), x as int, y as int, value),
    {
        let ghost before = *self;
        self.set(x, y, value);
        proof {
            assert forall|qx: int, qy: int| self.on(qx, qy) implies #[trigger] self.at(qx, qy) == if qx
                == x && qy == y {
                value
            } else {
                before.at(qx, qy)
            } by {
                lemma_offset_in_bounds(self.width, self.height, qx, qy);
                lemma_offset_in_bounds(self.width, self.height, x as int, y as int);
                if pixel_offset(self.width, qx, qy) == pixel_offset(self.width, x as int, y as int) {
                    lemma_offset_injective(self.width, qx, qy, x as int, y as int);
                }
            }
        }
    }
}

} // verus!
