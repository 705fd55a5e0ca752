//! Region-of-interest (ROI) definitions: a small tagged rectangle of a page
//! whose metrics are reported separately from the whole-page score.

use vstd::prelude::*;

use crate::error::{CoreError, Result};
use crate::mask::{pixel_offset, BinaryMask};

verus! {

/// One rectangular region of interest, in pixel coordinates of its page
/// (top-left origin, the same system as [`BinaryMask`]).
#[derive(Debug, Clone, PartialEq, Eq)]
pub struct Roi {
    pub id: String,
    pub x: u32,
    pub y: u32,
    pub width: u32,
    pub height: u32,
    /// Free-text tag used for aggregation across ROIs.
    pub tag: Option<String>,
}

impl Roi {
    /// The ROI is non-degenerate and lies entirely inside an image of the
    /// given size.
    pub open spec fn fits(&self, image_width: u32, image_height: u32) -> bool {
        &&& self.width > 0
        &&& self.height > 0
        &&& self.x + self.width <= image_width
        &&& self.y + self.height <= image_height
    }

    /// Validates that this ROI is non-degenerate and fits entirely within an
    /// image of the given dimensions. Never clamps or crops silently.
    pub fn validate(&self, image_width: u32, image_height: u32) -> (r: Result<()>)
        ensures
            r is Ok <==> self.fits(image_width, image_height),
            r is Err ==> r->Err_0 is InvalidRoi,
    {
        if self.width == 0 || self.height == 0 {
            return Err(CoreError::InvalidRoi("ROI has zero width or height".to_owned()));
        }
        let right = match self.x.checked_add(self.width) {
            Some(v) => v,
            None => {
                return Err(CoreError::InvalidRoi("ROI x+width overflowed".to_owned()));
            },
        };
        let bottom = match self.y.checked_add(self.height) {
            Some(v) => v,
            None => {
                return Err(CoreError::InvalidRoi("ROI y+height overflowed".to_owned()));
            },
        };
        if right > image_width || bottom > image_height {
            return Err(CoreError::InvalidRoi("ROI exceeds the page bounds".to_owned()));
        }
        Ok(())
    }

    /// Crops `mask` to exactly this ROI, which must already be validated
    /// against the mask's dimensions.
    pub fn crop(&self, mask: &BinaryMask) -> (cropped: BinaryMask)
        requires
            mask.wf(),
            self.fits(mask.width, mask.height),
        ensures
            cropped.wf(),
            cropped.width == self.width,
            cropped.height == self.height,
            forall|px: int, py: int|
                0 <= px < self.width && 0 <= py < self.height ==> #[trigger] cropped.at(px, py)
                    == mask.at(self.x + px, self.y + py),
    {
        let w = self.width;
        let h = self.height;
        let mut pixels: Vec<bool> = Vec::new();
        let mut y: u32 = 0;
        proof {
            crate::mask::lemma_offset_in_bounds(mask.width, mask.height, 0, 0);
            assert(w * h <= mask.width * mask.height) by (nonlinear_arith)
                requires
                    w <= mask.width,
                    h <= mask.height,
            ;
        }
        while y < h
            invariant
                mask.wf(),
                self.fits(mask.width, mask.height),
                w == self.width,
                h == self.height,
                y <= h,
                pixels@.len() == y * w,
                w * h <= mask.width * mask.height,
                forall|px: int, py: int|
                    0 <= px < w && 0 <= py < y ==> #[trigger] pixels@[pixel_offset(w, px, py)]
                        == mask.at(self.x + px, self.y + py),
            decreases h - y,
        {
            let mut x: u32 = 0;
            while x < w
                invariant
                    mask.wf(),
                    self.fits(mask.width, mask.height),
                    w == self.width,
                    h == self.height,
                    y < h,
                    x <= w,
                    pixels@.len() == y * w + x,
                    forall|px: int, py: int|
                        0 <= px < w && 0 <= py < y ==> #[trigger] pixels@[pixel_offset(w, px, py)]
                            == mask.at(self.x + px, self.y + py),
                    forall|px: int|
                        0 <= px < x ==> #[trigger] pixels@[pixel_offset(w, px, y as int)]
                            == mask.at(self.x + px, self.y + y),
                decreases w - x,
            {
                let v = mask.get(self.x + x, self.y + y);
                proof {
                    assert forall|px: int, py: int|
                        0 <= px < w && 0 <= py < y implies pixel_offset(w, px, py) < y * w by {
                        crate::mask::lemma_offset_in_bounds(w, y, px, py);
                    }
                }
                pixels.push(v);
                x = x + 1;
            }
            assert((y + 1) * w == y * w + w) by (nonlinear_arith);
            y = y + 1;
        }
        assert(h * w == w * h) by (nonlinear_arith);
        BinaryMask { width: w, height: h, pixels }
    }
}

} // verus!
