//! Pixel-fidelity metrics for binarization benchmarking.
//!
//! Every function here is a pure function of two [`BinaryMask`]s. Masks
//! must have identical dimensions: a mismatch is an error, never a silent
//! crop or resample.

use vstd::prelude::*;

use crate::error::{CoreError, Result};
use crate::mask::{pixel_offset, BinaryMask};

verus! {

/// Whether two masks have the same width and height.
pub open spec fn same_dimensions(a: &BinaryMask, b: &BinaryMask) -> bool {
    a.width == b.width && a.height == b.height
}

pub fn require_same_dimensions(output: &BinaryMask, ground_truth: &BinaryMask) -> (r: Result<()>)
    ensures
        r is Ok <==> same_dimensions(output, ground_truth),
        r is Err ==> r->Err_0 is BenchmarkDimensionMismatch,
{
    if output.width != ground_truth.width || output.height != ground_truth.height {
        return Err(
            CoreError::BenchmarkDimensionMismatch(
                "output and ground truth dimensions differ".to_owned(),
            ),
        );
    }
    Ok(())
}

/// Foreground-pixel confusion matrix (black is foreground).
#[derive(Debug, Clone, Copy, PartialEq, Eq)]
pub struct ConfusionMatrix {
    pub true_positive: u64,
    pub false_positive: u64,
    pub false_negative: u64,
    pub true_negative: u64,
}

impl ConfusionMatrix {
    pub open spec fn spec_total(&self) -> int {
        self.true_positive + self.false_positive + self.false_negative + self.true_negative
    }

    /// Total pixel count this matrix was computed over.
    pub fn total(&self) -> (t: u64)
        requires
            self.spec_total() <= u64::MAX,
        ensures
            t == self.spec_total(),
    {
        self.true_positive + self.false_positive + self.false_negative + self.true_negative
    }
}

/// Number of indices `i < n` where `out[i] == a` and `gt[i] == b`.
pub open spec fn count_pairs(out: Seq<bool>, gt: Seq<bool>, a: bool, b: bool, n: nat) -> nat
    decreases n,
{
    if n == 0 {
        0
    } else {
        count_pairs(out, gt, a, b, (n - 1) as nat) + if out[n - 1] == a && gt[n - 1] == b {
            1nat
        } else {
            0nat
        }
    }
}

/// The four cells of the confusion matrix partition the first `n` pixels.
pub proof fn lemma_count_pairs_partition(out: Seq<bool>, gt: Seq<bool>, n: nat)
    ensures
        count_pairs(out, gt, true, true, n) + count_pairs(out, gt, true, false, n) + count_pairs(
            out,
            gt,
            false,
            true,
            n,
        ) + count_pairs(out, gt, false, false, n) == n,
        count_pairs(out, gt, true, true, n) <= n,
        count_pairs(out, gt, true, false, n) <= n,
        count_pairs(out, gt, false, true, n) <= n,
        count_pairs(out, gt, false, false, n) <= n,
    decreases n,
{
    if n > 0 {
        lemma_count_pairs_partition(out, gt, (n - 1) as nat);
    }
}

/// The confusion matrix of `output` against `ground_truth` over all pixels.
pub open spec fn spec_confusion(output: &BinaryMask, ground_truth: &BinaryMask) -> ConfusionMatrix {
    let o = output.pixels@;
    let g = ground_truth.pixels@;
    let n = o.len();
    ConfusionMatrix {
        true_positive: count_pairs(o, g, true, true, n) as u64,
        false_positive: count_pairs(o, g, true, false, n) as u64,
        false_negative: count_pairs(o, g, false, true, n) as u64,
        true_negative: count_pairs(o, g, false, false, n) as u64,
    }
}

/// Computes the confusion matrix of `output` against `ground_truth`.
/// Fails exactly when the dimensions differ.
pub fn confusion_matrix(output: &BinaryMask, ground_truth: &BinaryMask) -> (r: Result<
    ConfusionMatrix,
>)
    requires
        output.wf(),
        ground_truth.wf(),
    ensures
        r is Ok <==> same_dimensions(output, ground_truth),
        r is Err ==> r->Err_0 is BenchmarkDimensionMismatch,
        r matches Ok(m) ==> m == spec_confusion(output, ground_truth) && m.spec_total()
            == output.width * output.height,
{
    require_same_dimensions(output, ground_truth)?;
    let n = output.pixels.len();
    let mut true_positive: u64 = 0;
    let mut false_positive: u64 = 0;
    let mut false_negative: u64 = 0;
    let mut true_negative: u64 = 0;
    let ghost o = output.pixels@;
    let ghost g = ground_truth.pixels@;
    let mut i: usize = 0;
    while i < n
        invariant
            n == o.len(),
            o.len() == g.len(),
            o == output.pixels@,
            g == ground_truth.pixels@,
            i <= n,
            true_positive == count_pairs(o, g, true, true, i as nat),
            false_positive == count_pairs(o, g, true, false, i as nat),
            false_negative == count_pairs(o, g, false, true, i as nat),
            true_negative == count_pairs(o, g, false, false, i as nat),
        decreases n - i,
    {
        proof {
            lemma_count_pairs_partition(o, g, i as nat);
        }
        let out_pixel = output.pixels[i];
        let gt_pixel = ground_truth.pixels[i];
        if out_pixel && gt_pixel {
            true_positive = true_positive + 1;
        } else if out_pixel && !gt_pixel {
            false_positive = false_positive + 1;
        } else if !out_pixel && gt_pixel {
            false_negative = false_negative + 1;
        } else {
            true_negative = true_negative + 1;
        }
        i = i + 1;
    }
    proof {
        lemma_count_pairs_partition(o, g, n as nat);
    }
    Ok(ConfusionMatrix { true_positive, false_positive, false_negative, true_negative })
}

/// Mismatched pixels: false positives plus false negatives.
pub open spec fn mismatched(m: ConfusionMatrix) -> int {
    m.false_positive + m.false_negative
}

/// Whether the 8x8 block `(bx, by)` of `mask` (clipped to the image) holds a
/// pixel of value `v`.
pub open spec fn block_has(mask: &BinaryMask, bx: int, by: int, v: bool) -> bool {
    exists|x: int, y: int|
        8 * bx <= x < 8 * bx + 8 && x < mask.width && 8 * by <= y < 8 * by + 8 && y < mask.height
            && #[trigger] mask.at(x, y) == v
}

/// A block is non-uniform when it holds both a black and a white pixel.
pub open spec fn block_non_uniform(mask: &BinaryMask, bx: int, by: int) -> bool {
    block_has(mask, bx, by, true) && block_has(mask, bx, by, false)
}

/// Non-uniform blocks among the first `nbx` blocks of block row `by`.
pub open spec fn count_row_blocks(mask: &BinaryMask, by: int, nbx: nat) -> nat
    decreases nbx,
{
    if nbx == 0 {
        0
    } else {
        count_row_blocks(mask, by, (nbx - 1) as nat) + if block_non_uniform(
            mask,
            nbx - 1,
            by,
        ) {
            1nat
        } else {
            0nat
        }
    }
}

/// Non-uniform blocks among the first `nby` block rows, each `nbx` blocks wide.
pub open spec fn count_blocks(mask: &BinaryMask, nbx: nat, nby: nat) -> nat
    decreases nby,
{
    if nby == 0 {
        0
    } else {
        count_blocks(mask, nbx, (nby - 1) as nat) + count_row_blocks(mask, nby - 1, nbx)
    }
}

/// Number of 8-pixel blocks needed to cover `n` pixels.
pub open spec fn blocks_for(n: u32) -> nat {
    ((n as int + 7) / 8) as nat
}

/// Whether block `(bx, by)` is non-uniform.
fn block_is_non_uniform(mask: &BinaryMask, bx: u32, by: u32) -> (r: bool)
    requires
        mask.wf(),
        8 * bx < mask.width,
        8 * by < mask.height,
    ensures
        r == block_non_uniform(mask, bx as int, by as int),
{
    let x_end = if mask.width - 8 * bx < 8 { mask.width } else { 8 * bx + 8 };
    let y_end = if mask.height - 8 * by < 8 { mask.height } else { 8 * by + 8 };
    let mut saw_black = false;
    let mut saw_white = false;
    let mut y = 8 * by;
    while y < y_end
        invariant
            mask.wf(),
            8 * by <= y <= y_end,
            y_end <= mask.height,
            y_end == 8 * by + 8 || y_end == mask.height,
            y_end <= 8 * by + 8,
            x_end <= mask.width,
            x_end == 8 * bx + 8 || x_end == mask.width,
            x_end <= 8 * bx + 8,
            8 * bx < x_end,
            saw_black <==> exists|px: int, py: int|
                8 * bx <= px < x_end && 8 * by <= py < y && #[trigger] mask.at(px, py) == true,
            saw_white <==> exists|px: int, py: int|
                8 * bx <= px < x_end && 8 * by <= py < y && #[trigger] mask.at(px, py) == false,
        decreases y_end - y,
    {
        let mut x = 8 * bx;
        while x < x_end
            invariant
                mask.wf(),
                8 * by <= y < y_end,
                y_end <= mask.height,
                x_end <= mask.width,
                8 * bx <= x <= x_end,
                saw_black <==> (exists|px: int, py: int|
                    8 * bx <= px < x_end && 8 * by <= py < y && #[trigger] mask.at(px, py)
                        == true) || (exists|px: int|
                    8 * bx <= px < x && #[trigger] mask.at(px, y as int) == true),
                saw_white <==> (exists|px: int, py: int|
                    8 * bx <= px < x_end && 8 * by <= py < y && #[trigger] mask.at(px, py)
                        == false) || (exists|px: int|
                    8 * bx <= px < x && #[trigger] mask.at(px, y as int) == false),
            decreases x_end - x,
        {
            if mask.get(x, y) {
                saw_black = true;
            } else {
                saw_white = true;
            }
            x = x + 1;
        }
        y = y + 1;
    }
    saw_black && saw_white
}

/// Counts non-overlapping 8x8 blocks of `mask` that contain both black and
/// white pixels. A partial block at the right/bottom edge is checked over
/// its in-bounds pixels only.
pub fn count_non_uniform_blocks(mask: &BinaryMask) -> (count: u64)
    requires
        mask.wf(),
    ensures
        count == count_blocks(mask, blocks_for(mask.width), blocks_for(mask.height)),
{
    let mut count: u64 = 0;
    let mut by: u32 = 0;
    let nby: u32 = mask.height / 8 + if mask.height % 8 == 0 { 0 } else { 1 };
    let nbx: u32 = mask.width / 8 + if mask.width % 8 == 0 { 0 } else { 1 };
    assert(nby == blocks_for(mask.height));
    assert(nbx == blocks_for(mask.width));
    while by < nby
        invariant
            mask.wf(),
            by <= nby,
            nby == blocks_for(mask.height),
            nbx == blocks_for(mask.width),
            count == count_blocks(mask, nbx as nat, by as nat),
            count <= by * nbx,
        decreases nby - by,
    {
        let mut bx: u32 = 0;
        let ghost row_base = count;
        while bx < nbx
            invariant
                mask.wf(),
                by < nby,
                bx <= nbx,
                nby == blocks_for(mask.height),
                nbx == blocks_for(mask.width),
                row_base == count_blocks(mask, nbx as nat, by as nat),
                row_base <= by * nbx,
                count == row_base + count_row_blocks(mask, by as int, bx as nat),
                count <= row_base + bx,
            decreases nbx - bx,
        {
            assert(row_base <= 0x2000_0000 * 0x2000_0000) by (nonlinear_arith)
                requires
                    row_base <= by * nbx,
                    by <= 0x2000_0000,
                    nbx <= 0x2000_0000,
            ;
            if block_is_non_uniform(mask, bx, by) {
                count = count + 1;
            }
            bx = bx + 1;
        }
        assert(count <= (by + 1) * nbx) by (nonlinear_arith)
            requires
                count <= row_base + nbx,
                row_base <= by * nbx,
        ;
        by = by + 1;
    }
    count
}

} // verus!
