//! Summed-area tables (integral images) of a grayscale raster and of its
//! squared values, and constant-time sums over any rectangle of it: the
//! integer core of local (Sauvola) thresholding.

use vstd::prelude::*;

use crate::gray::GrayPixels;
use crate::mask::{lemma_offset_injective, pixel_offset};

verus! {

/// A pixel's value, or its square.
pub open spec fn sample(img: GrayPixels, x: int, y: int, squared: bool) -> int {
    let p = img.at(x, y) as int;
    if squared {
        p * p
    } else {
        p
    }
}

/// Sum of row `y` over columns `x0..=x1`.
pub open spec fn span_sum(img: GrayPixels, y: int, x0: int, x1: int, squared: bool) -> int
    decreases x1 + 1 - x0,
{
    if x1 < x0 {
        0
    } else {
        span_sum(img, y, x0, x1 - 1, squared) + sample(img, x1, y, squared)
    }
}

/// Sum over the inclusive rectangle `[x0, x1] x [y0, y1]`.
pub open spec fn rect_sum(img: GrayPixels, x0: int, y0: int, x1: int, y1: int, squared: bool) -> int
    decreases y1 + 1 - y0,
{
    if y1 < y0 {
        0
    } else {
        rect_sum(img, x0, y0, x1, y1 - 1, squared) + span_sum(img, y1, x0, x1, squared)
    }
}

/// The integral image at `(xe, ye)`: the sum over columns `0..xe` of rows
/// `0..ye`.
pub open spec fn block_sum(img: GrayPixels, xe: int, ye: int, squared: bool) -> int {
    rect_sum(img, 0, 0, xe - 1, ye - 1, squared)
}

/// The two summed-area tables of a raster, each `(width + 1) * (height + 1)`
/// entries, row-major, with a zero first row and column.
#[derive(Debug, Clone)]
pub struct IntegralImages {
    pub width: u32,
    pub height: u32,
    pub sum: Vec<u64>,
    pub sq_sum: Vec<u64>,
}

impl IntegralImages {
    /// Both tables hold the block sums of `img`.
    pub open spec fn of(&self, img: GrayPixels) -> bool {
        &&& self.width == img.width
        &&& self.height == img.height
        &&& self.width < u32::MAX
        &&& self.sum@.len() == (self.width + 1) * (self.height + 1)
        &&& self.sq_sum@.len() == (self.width + 1) * (self.height + 1)
        &&& forall|x: int, y: int|
            0 <= x <= self.width && 0 <= y <= self.height ==> #[trigger] self.sum@[pixel_offset(
                (self.width + 1) as u32,
                x,
                y,
            )] == block_sum(img, x, y, false) && self.sq_sum@[pixel_offset((self.width + 1) as u32, x, y)]
                == block_sum(img, x, y, true)
    }
}

proof fn lemma_span_split(img: GrayPixels, y: int, x0: int, x1: int, squared: bool)
    requires
        0 <= x0 <= x1 + 1,
    ensures
        span_sum(img, y, x0, x1, squared) == span_sum(img, y, 0, x1, squared) - span_sum(img, y, 0, x0 - 1, squared),
    decreases x1 + 1 - x0,
{
    if x1 >= x0 {
        lemma_span_split(img, y, x0, x1 - 1, squared);
    }
}

/// The inclusion-exclusion identity of summed-area tables.
pub proof fn lemma_rect_from_blocks(img: GrayPixels, x0: int, y0: int, x1: int, y1: int, squared: bool)
    requires
        0 <= x0 <= x1 + 1,
        0 <= y0 <= y1 + 1,
    ensures
        rect_sum(img, x0, y0, x1, y1, squared) == block_sum(img, x1 + 1, y1 + 1, squared) - block_sum(
            img,
            x0,
            y1 + 1,
            squared,
        ) - block_sum(img, x1 + 1, y0, squared) + block_sum(img, x0, y0, squared),
    decreases y1 + 1 - y0,
{
    if y1 >= y0 {
        lemma_rect_from_blocks(img, x0, y0, x1, y1 - 1, squared);
        lemma_span_split(img, y1, x0, x1, squared);
        lemma_rect_prefix(img, x0 - 1, y1, squared);
        lemma_rect_prefix(img, x1, y1, squared);
        lemma_rect_prefix(img, x0 - 1, y0 - 1, squared);
        lemma_rect_prefix(img, x1, y0 - 1, squared);
    } else {
        assert(y1 + 1 == y0);
    }
}

/// A block sum grows by one row prefix per row.
proof fn lemma_rect_prefix(img: GrayPixels, x1: int, y1: int, squared: bool)
    ensures
        y1 >= 0 ==> rect_sum(img, 0, 0, x1, y1, squared) == rect_sum(img, 0, 0, x1, y1 - 1, squared)
            + span_sum(img, y1, 0, x1, squared),
{
}

/// Every sample is at most 255 * 255, so a block sum is bounded by its area.
proof fn lemma_block_bounds(img: GrayPixels, xe: int, ye: int, squared: bool)
    requires
        0 <= xe,
        0 <= ye,
    ensures
        0 <= block_sum(img, xe, ye, squared) <= 65025 * xe * ye,
    decreases ye,
{
    if ye > 0 {
        lemma_block_bounds(img, xe, ye - 1, squared);
        lemma_span_bounds(img, ye - 1, xe - 1, squared);
        assert(65025 * xe * (ye - 1) + 65025 * xe == 65025 * xe * ye) by (nonlinear_arith);
    }
}

proof fn lemma_span_bounds(img: GrayPixels, y: int, x1: int, squared: bool)
    requires
        -1 <= x1,
    ensures
        0 <= span_sum(img, y, 0, x1, squared) <= 65025 * (x1 + 1),
    decreases x1 + 1,
{
    if x1 >= 0 {
        lemma_span_bounds(img, y, x1 - 1, squared);
        let p = img.at(x1, y) as int;
        assert(0 <= p * p <= 65025) by (nonlinear_arith)
            requires
                0 <= p <= 255,
        ;
    }
}

proof fn lemma_cell(stride: u32, rows: int, x: int, y: int)
    requires
        0 <= x < stride,
        0 <= y < rows,
    ensures
        0 <= pixel_offset(stride, x, y) < stride * rows,
{
    assert(0 <= y * stride + x < stride * rows) by (nonlinear_arith)
        requires
            0 <= x < stride,
            0 <= y < rows,
    ;
}

proof fn lemma_block_first_column(img: GrayPixels, ye: int, squared: bool)
    ensures
        block_sum(img, 0, ye, squared) == 0,
    decreases ye,
{
    if ye > 0 {
        lemma_block_first_column(img, ye - 1, squared);
    }
}

/// Builds the summed-area tables of `img` and of its squared values.
#[verifier::loop_isolation(false)]
#[verifier::rlimit(40)]
pub fn integral_images(img: &GrayPixels) -> (t: IntegralImages)
    requires
        img.wf(),
        img.width < u32::MAX,
        (img.width + 1) * (img.height + 1) <= usize::MAX,
        65025 * img.width * img.height <= u64::MAX,
    ensures
        t.of(*img),
{
    let w = img.width;
    let h = img.height;
    let stride = w + 1;
    assert(h + 1 <= (w + 1) * (h + 1)) by (nonlinear_arith)
        requires
            0 <= w,
            0 <= h,
    ;
    let n: usize = (stride as usize) * (h as usize + 1);
    let mut sum: Vec<u64> = vec![0u64; n];
    let mut sq: Vec<u64> = vec![0u64; n];
    proof {
        assert forall|x: int, yy: int| 0 <= x <= w && 0 <= yy <= h implies #[trigger] sum@[pixel_offset(stride, x, yy)] == 0
            && sq@[pixel_offset(stride, x, yy)] == 0 by {
            lemma_cell(stride, h + 1, x, yy);
        }
        assert forall|x: int, yy: int| 0 <= x <= w && 0 <= yy <= 0 implies #[trigger] sum@[pixel_offset(stride, x, yy)] == block_sum(*img, x, yy, false)
            && sq@[pixel_offset(stride, x, yy)] == block_sum(*img, x, yy, true) by {
            lemma_cell(stride, h + 1, x, yy);
        }
    }
    let mut y: u32 = 0;
    while y < h
        invariant
            y <= h,
            sum@.len() == n,
            sq@.len() == n,
            n == stride * (h + 1),
            forall|x: int, yy: int|
                0 <= x <= w && 0 <= yy <= y ==> #[trigger] sum@[pixel_offset(stride, x, yy)] == block_sum(*img, x, yy, false)
                    && sq@[pixel_offset(stride, x, yy)] == block_sum(*img, x, yy, true),
            forall|x: int, yy: int|
                0 <= x <= w && y < yy <= h ==> #[trigger] sum@[pixel_offset(stride, x, yy)] == 0
                    && sq@[pixel_offset(stride, x, yy)] == 0,
        decreases h - y,
    {
        let mut row_sum: u64 = 0;
        let mut row_sq: u64 = 0;
        proof {
            lemma_block_first_column(*img, y + 1, false);
            lemma_block_first_column(*img, y + 1, true);
        }
        proof {
            lemma_cell(stride, h + 1, 0, y + 1);
            assert(sum@[pixel_offset(stride, 0, y + 1)] == 0 && sq@[pixel_offset(stride, 0, y + 1)] == 0);
        }
        let mut x: u32 = 0;
        while x < w
            invariant
                y < h,
                x <= w,
                sum@.len() == n,
                sq@.len() == n,
                row_sum == span_sum(*img, y as int, 0, x - 1, false),
                row_sq == span_sum(*img, y as int, 0, x - 1, true),
                forall|xx: int, yy: int|
                    0 <= xx <= w && 0 <= yy <= y ==> #[trigger] sum@[pixel_offset(stride, xx, yy)] == block_sum(*img, xx, yy, false)
                        && sq@[pixel_offset(stride, xx, yy)] == block_sum(*img, xx, yy, true),
                forall|xx: int| 0 <= xx <= x ==> #[trigger] sum@[pixel_offset(stride, xx, y + 1)] == block_sum(*img, xx, y + 1, false)
                    && sq@[pixel_offset(stride, xx, y + 1)] == block_sum(*img, xx, y + 1, true),
                forall|xx: int, yy: int|
                    0 <= xx <= w && y + 1 < yy <= h ==> #[trigger] sum@[pixel_offset(stride, xx, yy)] == 0
                        && sq@[pixel_offset(stride, xx, yy)] == 0,
                forall|xx: int| x < xx <= w ==> #[trigger] sum@[pixel_offset(stride, xx, y + 1)] == 0
                    && sq@[pixel_offset(stride, xx, y + 1)] == 0,
            decreases w - x,
        {
            let p = img.get(x, y) as u64;
            proof {
                lemma_span_bounds(*img, y as int, x as int, false);
                lemma_span_bounds(*img, y as int, x as int, true);
                lemma_block_bounds(*img, x + 1, y as int, false);
                lemma_block_bounds(*img, x + 1, y as int, true);
                lemma_block_bounds(*img, x + 1, y + 1, false);
                lemma_block_bounds(*img, x + 1, y + 1, true);
                assert(65025 * (x + 1) * (y + 1) <= 65025 * w * h) by (nonlinear_arith)
                    requires
                        x + 1 <= w,
                        y + 1 <= h,
                ;
                assert(65025 * (x + 1) <= 65025 * w * h) by (nonlinear_arith)
                    requires
                        x + 1 <= w,
                        1 <= h,
                ;
                assert(p * p <= 65025) by (nonlinear_arith)
                    requires
                        p <= 255,
                ;
            }
            row_sum = row_sum + p;
            row_sq = row_sq + p * p;
            proof {
                lemma_cell(stride, h + 1, x + 1, y + 1);
                lemma_cell(stride, h + 1, x + 1, y as int);
                assert(pixel_offset(stride, x + 1, y + 1) == pixel_offset(stride, x + 1, y as int) + stride) by (nonlinear_arith);
            }
            let idx: usize = (y as usize + 1) * (stride as usize) + (x as usize + 1);
            let above: usize = idx - stride as usize;
            let ghost before_sum = sum@;
            let ghost before_sq = sq@;
            let s_val = sum[above] + row_sum;
            let q_val = sq[above] + row_sq;
            sum.set(idx, s_val);
            sq.set(idx, q_val);
            proof {
                assert(s_val == block_sum(*img, x + 1, y + 1, false));
                assert(q_val == block_sum(*img, x + 1, y + 1, true));
                assert(idx == pixel_offset(stride, x + 1, y + 1));
                assert forall|xx: int, yy: int| 0 <= xx <= w && 0 <= yy <= h && (xx != x + 1 || yy != y + 1) implies
                    #[trigger] sum@[pixel_offset(stride, xx, yy)] == before_sum[pixel_offset(stride, xx, yy)]
                        && sq@[pixel_offset(stride, xx, yy)] == before_sq[pixel_offset(stride, xx, yy)] by {
                    lemma_cell(stride, h + 1, xx, yy);
                    if pixel_offset(stride, xx, yy) == pixel_offset(stride, x + 1, y + 1) {
                        lemma_offset_injective(stride, xx, yy, x + 1, y + 1);
                    }
                }
                assert forall|xx: int, yy: int| 0 <= xx <= w && y + 1 < yy <= h implies #[trigger] sum@[pixel_offset(stride, xx, yy)] == 0
                    && sq@[pixel_offset(stride, xx, yy)] == 0 by {
                    assert(sum@[pixel_offset(stride, xx, yy)] == before_sum[pixel_offset(stride, xx, yy)]);
                }
                assert forall|xx: int| x + 1 < xx <= w implies #[trigger] sum@[pixel_offset(stride, xx, y + 1)] == 0
                    && sq@[pixel_offset(stride, xx, y + 1)] == 0 by {
                    assert(sum@[pixel_offset(stride, xx, y + 1)] == before_sum[pixel_offset(stride, xx, y + 1)]);
                }
                assert forall|xx: int| 0 <= xx <= x + 1 implies #[trigger] sum@[pixel_offset(stride, xx, y + 1)] == block_sum(*img, xx, y + 1, false)
                    && sq@[pixel_offset(stride, xx, y + 1)] == block_sum(*img, xx, y + 1, true) by {
                    if xx <= x {
                        assert(sum@[pixel_offset(stride, xx, y + 1)] == before_sum[pixel_offset(stride, xx, y + 1)]);
                    }
                }
                assert forall|xx: int, yy: int| 0 <= xx <= w && 0 <= yy <= y implies #[trigger] sum@[pixel_offset(stride, xx, yy)] == block_sum(*img, xx, yy, false)
                    && sq@[pixel_offset(stride, xx, yy)] == block_sum(*img, xx, yy, true) by {
                    assert(sum@[pixel_offset(stride, xx, yy)] == before_sum[pixel_offset(stride, xx, yy)]);
                }
            }
            x = x + 1;
        }
        y = y + 1;
    }
    assert(stride == (w + 1) as u32);
    let t = IntegralImages { width: w, height: h, sum, sq_sum: sq };
    assert forall|x: int, yy: int| 0 <= x <= t.width && 0 <= yy <= t.height implies #[trigger] t.sum@[pixel_offset(
        (t.width + 1) as u32,
        x,
        yy,
    )] == block_sum(*img, x, yy, false) && t.sq_sum@[pixel_offset((t.width + 1) as u32, x, yy)] == block_sum(*img, x, yy, true) by {
        assert(t.sum@[pixel_offset(stride, x, yy)] == block_sum(*img, x, yy, false));
        assert(t.sq_sum@[pixel_offset(stride, x, yy)] == block_sum(*img, x, yy, true));
    }
    t
}

impl IntegralImages {
    /// The sum of `img` (or of its squares) over the inclusive rectangle
    /// `[x0, x1] x [y0, y1]`, in constant time. `img` is the raster the
    /// tables were built from.
    pub fn region_sum(&self, img: &GrayPixels, x0: u32, y0: u32, x1: u32, y1: u32, squared: bool) -> (r: u64)
        requires
            self.of(*img),
            x0 <= x1 < self.width,
            y0 <= y1 < self.height,
            65025 * img.width * img.height <= u64::MAX,
        ensures
            r == rect_sum(*img, x0 as int, y0 as int, x1 as int, y1 as int, squared),
    {
        let table = if squared { &self.sq_sum } else { &self.sum };
        let stride = self.width + 1;
        proof {
            lemma_cell(stride, self.height + 1, x0 as int, y0 as int);
            lemma_cell(stride, self.height + 1, x1 + 1, y0 as int);
            lemma_cell(stride, self.height + 1, x0 as int, y1 + 1);
            lemma_cell(stride, self.height + 1, x1 + 1, y1 + 1);
            lemma_rect_from_blocks(*img, x0 as int, y0 as int, x1 as int, y1 as int, squared);
            lemma_block_bounds(*img, x1 + 1, y1 + 1, squared);
            lemma_block_bounds(*img, x0 as int, y1 + 1, squared);
            lemma_block_bounds(*img, x1 + 1, y0 as int, squared);
            lemma_block_bounds(*img, x0 as int, y0 as int, squared);
            lemma_rect_nonneg(*img, x0 as int, y0 as int, x1 as int, y1 as int, squared);
        }
        let len = table.len();
        proof {
            assert(stride == (self.width + 1) as u32);
            assert(self.sum@[pixel_offset(stride, x0 as int, y0 as int)] == block_sum(*img, x0 as int, y0 as int, false));
            assert(self.sq_sum@[pixel_offset(stride, x0 as int, y0 as int)] == block_sum(*img, x0 as int, y0 as int, true));
            assert(self.sum@[pixel_offset(stride, x1 + 1, y0 as int)] == block_sum(*img, x1 + 1, y0 as int, false));
            assert(self.sq_sum@[pixel_offset(stride, x1 + 1, y0 as int)] == block_sum(*img, x1 + 1, y0 as int, true));
            assert(self.sum@[pixel_offset(stride, x0 as int, y1 + 1)] == block_sum(*img, x0 as int, y1 + 1, false));
            assert(self.sq_sum@[pixel_offset(stride, x0 as int, y1 + 1)] == block_sum(*img, x0 as int, y1 + 1, true));
            assert(self.sum@[pixel_offset(stride, x1 + 1, y1 + 1)] == block_sum(*img, x1 + 1, y1 + 1, false));
            assert(self.sq_sum@[pixel_offset(stride, x1 + 1, y1 + 1)] == block_sum(*img, x1 + 1, y1 + 1, true));
            assert(table@[pixel_offset(stride, x0 as int, y0 as int)] == block_sum(*img, x0 as int, y0 as int, squared));
            assert(table@[pixel_offset(stride, x1 + 1, y0 as int)] == block_sum(*img, x1 + 1, y0 as int, squared));
            assert(table@[pixel_offset(stride, x0 as int, y1 + 1)] == block_sum(*img, x0 as int, y1 + 1, squared));
            assert(table@[pixel_offset(stride, x1 + 1, y1 + 1)] == block_sum(*img, x1 + 1, y1 + 1, squared));
        }
        let s = stride as usize;
        let a = table[(y0 as usize) * s + (x0 as usize)] as u128;
        let b = table[(y0 as usize) * s + (x1 as usize + 1)] as u128;
        let c = table[(y1 as usize + 1) * s + (x0 as usize)] as u128;
        let d = table[(y1 as usize + 1) * s + (x1 as usize + 1)] as u128;
        proof {
            assert(65025 * (x1 + 1) * (y1 + 1) <= 65025 * img.width * img.height) by (nonlinear_arith)
                requires
                    x1 + 1 <= img.width,
                    y1 + 1 <= img.height,
            ;
            assert(0 <= rect_sum(*img, x0 as int, y0 as int, x1 as int, y1 as int, squared) <= block_sum(*img, x1 + 1, y1 + 1, squared)) by {
                lemma_rect_within_block(*img, x0 as int, y0 as int, x1 as int, y1 as int, squared);
            }
        }
        (d + a - b - c) as u64
    }
}

proof fn lemma_span_nonneg(img: GrayPixels, y: int, x0: int, x1: int, squared: bool)
    ensures
        span_sum(img, y, x0, x1, squared) >= 0,
    decreases x1 + 1 - x0,
{
    if x1 >= x0 {
        lemma_span_nonneg(img, y, x0, x1 - 1, squared);
        let p = img.at(x1, y) as int;
        assert(p * p >= 0) by (nonlinear_arith);
    }
}

proof fn lemma_rect_nonneg(img: GrayPixels, x0: int, y0: int, x1: int, y1: int, squared: bool)
    ensures
        rect_sum(img, x0, y0, x1, y1, squared) >= 0,
    decreases y1 + 1 - y0,
{
    if y1 >= y0 {
        lemma_rect_nonneg(img, x0, y0, x1, y1 - 1, squared);
        lemma_span_nonneg(img, y1, x0, x1, squared);
    }
}

/// A rectangle's sum is at most the block sum that contains it.
proof fn lemma_rect_within_block(img: GrayPixels, x0: int, y0: int, x1: int, y1: int, squared: bool)
    requires
        0 <= x0 <= x1 + 1,
        0 <= y0 <= y1 + 1,
    ensures
        rect_sum(img, x0, y0, x1, y1, squared) <= block_sum(img, x1 + 1, y1 + 1, squared),
{
    lemma_rect_from_blocks(img, x0, y0, x1, y1, squared);
    lemma_rect_from_blocks(img, 0, y0, x0 - 1, y1, squared);
    lemma_rect_nonneg(img, 0, y0, x0 - 1, y1, squared);
    lemma_block_first_column(img, y1 + 1, squared);
    lemma_block_first_column(img, y0, squared);
    lemma_rect_nonneg(img, 0, 0, x1, y0 - 1, squared);
}

} // verus!
