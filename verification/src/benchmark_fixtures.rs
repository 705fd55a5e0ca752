//! Deterministic synthetic benchmark fixtures: the categories, the
//! seeded generator, and the glyph-like shapes drawn into the ground
//! truth. Everything is a pure function of its inputs and a fixed seed.

use vstd::prelude::*;

use crate::digest::{decimal, push_decimal};
use crate::gray::GrayPixels;
use crate::mask::{pixel_offset, BinaryMask};

verus! {

pub const CANVAS_WIDTH: u32 = 160;
pub const CANVAS_HEIGHT: u32 = 200;

/// A category of synthetic content, named after what it stresses.
#[derive(Debug, Clone, Copy, PartialEq, Eq, Structural)]
pub enum FixtureCategory {
    CleanText,
    FaintText,
    SmallText,
    UnevenBackground,
    SaltPepperNoise,
    Blur,
    LowContrast,
    BrokenStrokes,
    ThickStrokes,
    MixedTextAndLines,
    DenseApparatusLikeText,
    PolytonicLikeDiacriticShapes,
}

pub open spec fn category_id(c: FixtureCategory) -> Seq<char> {
    match c {
        FixtureCategory::CleanText => "clean_text"@,
        FixtureCategory::FaintText => "faint_text"@,
        FixtureCategory::SmallText => "small_text"@,
        FixtureCategory::UnevenBackground => "uneven_background"@,
        FixtureCategory::SaltPepperNoise => "salt_pepper_noise"@,
        FixtureCategory::Blur => "blur"@,
        FixtureCategory::LowContrast => "low_contrast"@,
        FixtureCategory::BrokenStrokes => "broken_strokes"@,
        FixtureCategory::ThickStrokes => "thick_strokes"@,
        FixtureCategory::MixedTextAndLines => "mixed_text_and_lines"@,
        FixtureCategory::DenseApparatusLikeText => "dense_apparatus_density"@,
        FixtureCategory::PolytonicLikeDiacriticShapes => "synthetic_diacritic_detail"@,
    }
}

impl FixtureCategory {
    /// The stable identifier of the category, used in fixture paths.
    pub fn id(self) -> (s: &'static str)
        ensures
            s@ == category_id(self),
    {
        match self {
            FixtureCategory::CleanText => "clean_text",
            FixtureCategory::FaintText => "faint_text",
            FixtureCategory::SmallText => "small_text",
            FixtureCategory::UnevenBackground => "uneven_background",
            FixtureCategory::SaltPepperNoise => "salt_pepper_noise",
            FixtureCategory::Blur => "blur",
            FixtureCategory::LowContrast => "low_contrast",
            FixtureCategory::BrokenStrokes => "broken_strokes",
            FixtureCategory::ThickStrokes => "thick_strokes",
            FixtureCategory::MixedTextAndLines => "mixed_text_and_lines",
            FixtureCategory::DenseApparatusLikeText => "dense_apparatus_density",
            FixtureCategory::PolytonicLikeDiacriticShapes => "synthetic_diacritic_detail",
        }
    }
}

/// Every category, in suite order.
pub fn all_categories() -> (v: Vec<FixtureCategory>)
    ensures
        v@ == seq![
            FixtureCategory::CleanText,
            FixtureCategory::FaintText,
            FixtureCategory::SmallText,
            FixtureCategory::UnevenBackground,
            FixtureCategory::SaltPepperNoise,
            FixtureCategory::Blur,
            FixtureCategory::LowContrast,
            FixtureCategory::BrokenStrokes,
            FixtureCategory::ThickStrokes,
            FixtureCategory::MixedTextAndLines,
            FixtureCategory::DenseApparatusLikeText,
            FixtureCategory::PolytonicLikeDiacriticShapes,
        ],
{
    let v = vec![
        FixtureCategory::CleanText,
        FixtureCategory::FaintText,
        FixtureCategory::SmallText,
        FixtureCategory::UnevenBackground,
        FixtureCategory::SaltPepperNoise,
        FixtureCategory::Blur,
        FixtureCategory::LowContrast,
        FixtureCategory::BrokenStrokes,
        FixtureCategory::ThickStrokes,
        FixtureCategory::MixedTextAndLines,
        FixtureCategory::DenseApparatusLikeText,
        FixtureCategory::PolytonicLikeDiacriticShapes,
    ];
    assert(v@ =~= seq![
        FixtureCategory::CleanText,
        FixtureCategory::FaintText,
        FixtureCategory::SmallText,
        FixtureCategory::UnevenBackground,
        FixtureCategory::SaltPepperNoise,
        FixtureCategory::Blur,
        FixtureCategory::LowContrast,
        FixtureCategory::BrokenStrokes,
        FixtureCategory::ThickStrokes,
        FixtureCategory::MixedTextAndLines,
        FixtureCategory::DenseApparatusLikeText,
        FixtureCategory::PolytonicLikeDiacriticShapes,
    ]);
    v
}

/// One xorshift64 step (shifts 13, 7, 17).
pub open spec fn xorshift(x: u64) -> u64 {
    let a = x ^ (x << 13u64);
    let b = a ^ (a >> 7u64);
    b ^ (b << 17u64)
}

/// A small, reproducible pseudo-random generator (xorshift64), used only
/// for the noise categories.
#[derive(Debug, Clone, Copy, PartialEq, Eq, Structural)]
pub struct DeterministicRng {
    pub state: u64,
}

impl DeterministicRng {
    /// A generator seeded with `seed`; xorshift needs a non-zero state, so
    /// the lowest bit is set.
    pub fn new(seed: u64) -> (r: Self)
        ensures
            r.state == seed | 1u64,
            r.state != 0,
    {
        assert((seed | 1u64) != 0u64) by (bit_vector);
        DeterministicRng { state: seed | 1 }
    }

    /// Advances the generator and returns its new state.
    pub fn next_u64(&mut self) -> (x: u64)
        ensures
            x == xorshift(old(self).state),
            final(self).state == x,
    {
        let mut x = self.state;
        x = x ^ (x << 13u64);
        x = x ^ (x >> 7u64);
        x = x ^ (x << 17u64);
        self.state = x;
        x
    }
}

// ---------------------------------------------------------------------------
// Glyph-like shapes
// ---------------------------------------------------------------------------

/// Whether `(px, py)` lies in the `w` by `h` rectangle at `(x, y)`.
pub open spec fn in_rect(px: int, py: int, x: int, y: int, w: int, h: int) -> bool {
    x <= px < x + w && y <= py < y + h
}

/// `new` is `old` with the pixels that `covered` names painted `value`.
pub open spec fn painted(new: BinaryMask, old: BinaryMask, covered: spec_fn(int, int) -> bool, value: bool) -> bool {
    &&& new.wf()
    &&& new.width == old.width
    &&& new.height == old.height
    &&& forall|qx: int, qy: int|
        new.on(qx, qy) ==> #[trigger] new.at(qx, qy) == if covered(qx, qy) {
            value
        } else {
            old.at(qx, qy)
        }
}

/// Draws one horizontal glyph stroke: the `width` by `height` rectangle at
/// `(x, y)`, as far as it lies on the mask.
#[verifier::loop_isolation(false)]
pub fn draw_glyph_stroke(mask: &mut BinaryMask, x: u32, y: u32, width: u32, height: u32)
    requires
        old(mask).wf(),
        x + width <= u32::MAX + 1,
        y + height <= u32::MAX + 1,
    ensures
        painted(*final(mask), *old(mask), |px: int, py: int| in_rect(px, py, x as int, y as int, width as int, height as int), true),
{
    let ghost m0 = *mask;
    let mut dy: u32 = 0;
    while dy < height
        invariant
            dy <= height,
            painted(*mask, m0, |px: int, py: int| in_rect(px, py, x as int, y as int, width as int, dy as int), true),
        decreases height - dy,
    {
        let mut dx: u32 = 0;
        while dx < width
            invariant
                dy < height,
                dx <= width,
                painted(
                    *mask,
                    m0,
                    |px: int, py: int|
                        in_rect(px, py, x as int, y as int, width as int, dy as int) || (py == y + dy && x
                            <= px < x + dx),
                    true,
                ),
            decreases width - dx,
        {
            let px = x + dx;
            let py = y + dy;
            if px < mask.width && py < mask.height {
                mask.paint(px, py, true);
            }
            dx = dx + 1;
        }
        dy = dy + 1;
    }
}

/// Draws a dot mark: a `size` by `size` square.
pub fn draw_dot_mark(mask: &mut BinaryMask, x: u32, y: u32, size: u32)
    requires
        old(mask).wf(),
        x + size <= u32::MAX + 1,
        y + size <= u32::MAX + 1,
    ensures
        painted(*final(mask), *old(mask), |px: int, py: int| in_rect(px, py, x as int, y as int, size as int, size as int), true),
{
    draw_glyph_stroke(mask, x, y, size, size);
}

/// The row of the `i`-th pixel of an accent mark.
pub open spec fn accent_row(y: u32, i: int, rising: bool) -> int {
    if rising {
        if y >= i {
            y - i
        } else {
            0
        }
    } else {
        y + i
    }
}

/// The pixels of an accent mark of `length` steps: each step is two
/// pixels wide, one column to the right of the last, and one row up
/// (rising, stopping at the top edge) or down.
pub open spec fn in_accent(px: int, py: int, x: u32, y: u32, length: int, rising: bool) -> bool {
    exists|i: int| 0 <= i < length && py == accent_row(y, i, rising) && (px == x + i || px == x + i + 1)
}

/// Draws a short diagonal stroke standing in for an accent mark, anchored
/// at its bottom-left corner.
#[verifier::loop_isolation(false)]
pub fn draw_accent_mark(mask: &mut BinaryMask, x: u32, y: u32, length: u32, rising: bool)
    requires
        old(mask).wf(),
        x + length <= u32::MAX + 1,
        !rising ==> y + length <= u32::MAX + 1,
    ensures
        painted(*final(mask), *old(mask), |px: int, py: int| in_accent(px, py, x, y, length as int, rising), true),
{
    let ghost m0 = *mask;
    let mut i: u32 = 0;
    while i < length
        invariant
            i <= length,
            painted(*mask, m0, |px: int, py: int| in_accent(px, py, x, y, i as int, rising), true),
        decreases length - i,
    {
        let px = x + i;
        let py = if rising {
            y.saturating_sub(i)
        } else {
            y + i
        };
        assert(py == accent_row(y, i as int, rising));
        let ghost before = *mask;
        if px < mask.width && py < mask.height {
            mask.paint(px, py, true);
            if px + 1 < mask.width {
                mask.paint(px + 1, py, true);
            }
        }
        proof {
            assert forall|qx: int, qy: int| mask.on(qx, qy) implies #[trigger] mask.at(qx, qy) == if in_accent(
                qx,
                qy,
                x,
                y,
                (i + 1) as int,
                rising,
            ) {
                true
            } else {
                m0.at(qx, qy)
            } by {
                if in_accent(qx, qy, x, y, (i + 1) as int, rising) && !in_accent(qx, qy, x, y, i as int, rising) {
                    let k = choose|k: int|
                        0 <= k < i + 1 && qy == accent_row(y, k, rising) && (qx == x + k || qx == x + k
                            + 1);
                    assert(k == i);
                }
                if in_accent(qx, qy, x, y, i as int, rising) {
                    let k = choose|k: int|
                        0 <= k < i && qy == accent_row(y, k, rising) && (qx == x + k || qx == x + k + 1);
                    assert(0 <= k < i + 1 && qy == accent_row(y, k, rising) && (qx == x + k || qx == x
                        + k + 1));
                }
            }
        }
        i = i + 1;
    }
}

/// The offsets of the five pixels of a breathing mark.
pub open spec fn breathing_offset(k: int) -> (int, int) {
    if k == 0 {
        (0, 2)
    } else if k == 1 {
        (1, 1)
    } else if k == 2 {
        (2, 0)
    } else if k == 3 {
        (3, 1)
    } else {
        (4, 2)
    }
}

/// A coordinate read as a 32-bit signed value.
pub open spec fn signed(v: u32) -> int {
    if v <= 0x7fff_ffff {
        v as int
    } else {
        v as int - 0x1_0000_0000
    }
}

/// The pixels of a breathing mark at `(x, y)`, with coordinates read as
/// signed 32-bit values.
pub open spec fn in_breathing(px: int, py: int, x: u32, y: u32) -> bool {
    exists|k: int| 0 <= k < 5 && px == signed(x) + breathing_offset(k).0 && py == signed(y) + breathing_offset(k).1
}

/// Draws a small arc-like breathing mark as a short curved run of pixels.
pub fn draw_breathing_mark(mask: &mut BinaryMask, x: u32, y: u32)
    requires
        old(mask).wf(),
        signed(x) + 4 <= i32::MAX,
        signed(y) + 2 <= i32::MAX,
    ensures
        painted(*final(mask), *old(mask), |px: int, py: int| in_breathing(px, py, x, y), true),
{
    let ghost m0 = *mask;
    let sx = x as i32;
    let sy = y as i32;
    assert(sx as int == signed(x)) by (bit_vector)
        requires
            sx == x as i32,
    ;
    assert(sy as int == signed(y)) by (bit_vector)
        requires
            sy == y as i32,
    ;
    let mut k: usize = 0;
    while k < 5
        invariant
            k <= 5,
            signed(x) + 4 <= i32::MAX,
            signed(y) + 2 <= i32::MAX,
            sx as int == signed(x),
            sy as int == signed(y),
            painted(
                *mask,
                m0,
                |px: int, py: int|
                    exists|j: int|
                        0 <= j < k && px == signed(x) + breathing_offset(j).0 && py == signed(y)
                            + breathing_offset(j).1,
                true,
            ),
        decreases 5 - k,
    {
        let (dx, dy): (i32, i32) = if k == 0 {
            (0, 2)
        } else if k == 1 {
            (1, 1)
        } else if k == 2 {
            (2, 0)
        } else if k == 3 {
            (3, 1)
        } else {
            (4, 2)
        };
        assert((dx as int, dy as int) == breathing_offset(k as int));
        let px = sx + dx;
        let py = sy + dy;
        let ghost before = *mask;
        if px >= 0 && py >= 0 && (px as u32) < mask.width && (py as u32) < mask.height {
            mask.paint(px as u32, py as u32, true);
        }
        proof {
            assert forall|qx: int, qy: int| mask.on(qx, qy) implies #[trigger] mask.at(qx, qy) == if (exists|j: int|
                0 <= j < k + 1 && qx == signed(x) + breathing_offset(j).0 && qy == signed(y)
                    + breathing_offset(j).1) {
                true
            } else {
                m0.at(qx, qy)
            } by {
                if exists|j: int|
                    0 <= j < k && qx == signed(x) + breathing_offset(j).0 && qy == signed(y)
                        + breathing_offset(j).1 {
                    let j = choose|j: int|
                        0 <= j < k && qx == signed(x) + breathing_offset(j).0 && qy == signed(y)
                            + breathing_offset(j).1;
                    assert(0 <= j < k + 1);
                }
                if qx == px && qy == py {
                    assert(0 <= k < k + 1 && qx == signed(x) + breathing_offset(k as int).0 && qy
                        == signed(y) + breathing_offset(k as int).1);
                }
            }
        }
        k = k + 1;
    }
    assert forall|px: int, py: int| #![auto] in_breathing(px, py, x, y) == (exists|j: int|
        0 <= j < 5 && px == signed(x) + breathing_offset(j).0 && py == signed(y) + breathing_offset(j).1) by {
    }
}

/// Painting `c1` and then `c2` with the same value paints their union.
pub proof fn lemma_paint_compose(
    m0: BinaryMask,
    m1: BinaryMask,
    m2: BinaryMask,
    c1: spec_fn(int, int) -> bool,
    c2: spec_fn(int, int) -> bool,
    c: spec_fn(int, int) -> bool,
    value: bool,
)
    requires
        painted(m1, m0, c1, value),
        painted(m2, m1, c2, value),
        forall|qx: int, qy: int| #[trigger] c(qx, qy) == (c1(qx, qy) || c2(qx, qy)),
    ensures
        painted(m2, m0, c, value),
{
    assert forall|qx: int, qy: int| m2.on(qx, qy) implies #[trigger] m2.at(qx, qy) == if c(qx, qy) {
        value
    } else {
        m0.at(qx, qy)
    } by {
        assert(m1.on(qx, qy));
        assert(m2.at(qx, qy) == if c2(qx, qy) { value } else { m1.at(qx, qy) });
        assert(m1.at(qx, qy) == if c1(qx, qy) { value } else { m0.at(qx, qy) });
        assert(c(qx, qy) == (c1(qx, qy) || c2(qx, qy)));
    }
}

/// The pixels of a row of `count` glyph strokes whose left edges are
/// `step` apart, starting at `(x0, y0)`.
pub open spec fn in_glyph_row(px: int, py: int, x0: int, y0: int, count: int, gw: int, gh: int, step: int) -> bool {
    exists|i: int| 0 <= i < count && #[trigger] in_rect(px, py, x0 + i * step, y0, gw, gh)
}

/// Draws a row of `count` evenly spaced glyph strokes starting at
/// `(x0, y0)`, and returns the left edge of each.
#[verifier::loop_isolation(false)]
pub fn draw_glyph_row(
    mask: &mut BinaryMask,
    x0: u32,
    y0: u32,
    count: u32,
    glyph_width: u32,
    glyph_height: u32,
    spacing: u32,
) -> (positions: Vec<u32>)
    requires
        old(mask).wf(),
        glyph_width + spacing <= u32::MAX,
        x0 + count * (glyph_width + spacing) <= u32::MAX,
        y0 + glyph_height <= u32::MAX + 1,
    ensures
        positions@.len() == count,
        forall|i: int| 0 <= i < count ==> #[trigger] positions@[i] == x0 + i * (glyph_width + spacing),
        painted(
            *final(mask),
            *old(mask),
            |px: int, py: int|
                in_glyph_row(px, py, x0 as int, y0 as int, count as int, glyph_width as int, glyph_height as int, (glyph_width + spacing) as int),
            true,
        ),
{
    let ghost m0 = *mask;
    let step = glyph_width + spacing;
    let mut positions: Vec<u32> = Vec::new();
    let mut x = x0;
    let mut i: u32 = 0;
    while i < count
        invariant
            i <= count,
            x == x0 + i * step,
            positions@.len() == i,
            forall|k: int| 0 <= k < i ==> #[trigger] positions@[k] == x0 + k * step,
            painted(
                *mask,
                m0,
                |px: int, py: int| in_glyph_row(px, py, x0 as int, y0 as int, i as int, glyph_width as int, glyph_height as int, step as int),
                true,
            ),
        decreases count - i,
    {
        assert(x0 + (i + 1) * step <= x0 + count * step) by (nonlinear_arith)
            requires
                i + 1 <= count,
                step >= 0,
        ;
        assert((i + 1) * step == i * step + step) by (nonlinear_arith);
        let ghost before = *mask;
        draw_glyph_stroke(mask, x, y0, glyph_width, glyph_height);
        proof {
            let c1 = |px: int, py: int| in_glyph_row(px, py, x0 as int, y0 as int, i as int, glyph_width as int, glyph_height as int, step as int);
            let c2 = |px: int, py: int| in_rect(px, py, x as int, y0 as int, glyph_width as int, glyph_height as int);
            let c = |px: int, py: int| in_glyph_row(px, py, x0 as int, y0 as int, (i + 1) as int, glyph_width as int, glyph_height as int, step as int);
            assert forall|qx: int, qy: int| #[trigger] c(qx, qy) == (c1(qx, qy) || c2(qx, qy)) by {
                if c(qx, qy) {
                    let k = choose|k: int| 0 <= k < i + 1 && #[trigger] in_rect(qx, qy, x0 + k * step, y0 as int, glyph_width as int, glyph_height as int);
                    if k < i {
                        assert(c1(qx, qy));
                    }
                }
                if c2(qx, qy) {
                    assert(in_rect(qx, qy, x0 + i * step, y0 as int, glyph_width as int, glyph_height as int));
                }
                if c1(qx, qy) {
                    let k = choose|k: int| 0 <= k < i && #[trigger] in_rect(qx, qy, x0 + k * step, y0 as int, glyph_width as int, glyph_height as int);
                    assert(0 <= k < i + 1);
                }
            }
            lemma_paint_compose(m0, before, *mask, c1, c2, c, true);
        }
        positions.push(x);
        x = x + step;
        i = i + 1;
    }
    positions
}

/// The pixels of the synthetic text block: `rows` rows of `per_row`
/// glyphs, starting 10 pixels from the top-left corner.
pub open spec fn in_text_block(px: int, py: int, gw: int, gh: int, spacing: int, row_spacing: int) -> bool {
    let rows = (CANVAS_HEIGHT - 20) / (gh + row_spacing);
    let per_row = (CANVAS_WIDTH - 20) / (gw + spacing);
    exists|r: int|
        0 <= r < rows && #[trigger] in_glyph_row(px, py, 10, 10 + r * (gh + row_spacing), per_row, gw, gh, gw + spacing)
}

/// A blank canvas covered with rows of evenly spaced glyph strokes.
#[verifier::loop_isolation(false)]
pub fn base_text_block(glyph_width: u32, glyph_height: u32, spacing: u32, row_spacing: u32) -> (mask: BinaryMask)
    requires
        0 < glyph_width + spacing <= u32::MAX,
        0 < glyph_height + row_spacing <= u32::MAX,
    ensures
        mask.wf(),
        mask.width == CANVAS_WIDTH,
        mask.height == CANVAS_HEIGHT,
        forall|px: int, py: int|
            mask.on(px, py) ==> #[trigger] mask.at(px, py) == in_text_block(
                px,
                py,
                glyph_width as int,
                glyph_height as int,
                spacing as int,
                row_spacing as int,
            ),
{
    let mut mask = BinaryMask::new(CANVAS_WIDTH, CANVAS_HEIGHT);
    let ghost m0 = mask;
    let rstep = glyph_height + row_spacing;
    let step = glyph_width + spacing;
    let rows = (CANVAS_HEIGHT - 20) / rstep;
    let glyphs_per_row = (CANVAS_WIDTH - 20) / step;
    assert(glyphs_per_row * step <= 140) by (nonlinear_arith)
        requires
            glyphs_per_row == 140u32 / step,
            step > 0,
    ;
    assert(rows * rstep <= 180) by (nonlinear_arith)
        requires
            rows == 180u32 / rstep,
            rstep > 0,
    ;
    let mut y: u32 = 10;
    let mut r: u32 = 0;
    while r < rows
        invariant
            r <= rows,
            y == 10 + r * rstep,
            painted(
                mask,
                m0,
                |px: int, py: int|
                    exists|k: int|
                        0 <= k < r && #[trigger] in_glyph_row(px, py, 10, 10 + k * rstep, glyphs_per_row as int, glyph_width as int, glyph_height as int, step as int),
                true,
            ),
        decreases rows - r,
    {
        assert(10 + (r + 1) * rstep <= 10 + rows * rstep) by (nonlinear_arith)
            requires
                r + 1 <= rows,
                rstep >= 0,
        ;
        assert((r + 1) * rstep == r * rstep + rstep) by (nonlinear_arith);
        let ghost before = mask;
        let _positions = draw_glyph_row(&mut mask, 10, y, glyphs_per_row, glyph_width, glyph_height, spacing);
        proof {
            let c1 = |px: int, py: int|
                exists|k: int|
                    0 <= k < r && #[trigger] in_glyph_row(px, py, 10, 10 + k * rstep, glyphs_per_row as int, glyph_width as int, glyph_height as int, step as int);
            let c2 = |px: int, py: int| in_glyph_row(px, py, 10, y as int, glyphs_per_row as int, glyph_width as int, glyph_height as int, step as int);
            let c = |px: int, py: int|
                exists|k: int|
                    0 <= k < r + 1 && #[trigger] in_glyph_row(px, py, 10, 10 + k * rstep, glyphs_per_row as int, glyph_width as int, glyph_height as int, step as int);
            assert forall|qx: int, qy: int| #[trigger] c(qx, qy) == (c1(qx, qy) || c2(qx, qy)) by {
                if c(qx, qy) {
                    let k = choose|k: int|
                        0 <= k < r + 1 && #[trigger] in_glyph_row(qx, qy, 10, 10 + k * rstep, glyphs_per_row as int, glyph_width as int, glyph_height as int, step as int);
                    if k < r {
                        assert(c1(qx, qy));
                    }
                }
                if c2(qx, qy) {
                    assert(in_glyph_row(qx, qy, 10, 10 + r * rstep, glyphs_per_row as int, glyph_width as int, glyph_height as int, step as int));
                }
                if c1(qx, qy) {
                    let k = choose|k: int|
                        0 <= k < r && #[trigger] in_glyph_row(qx, qy, 10, 10 + k * rstep, glyphs_per_row as int, glyph_width as int, glyph_height as int, step as int);
                    assert(0 <= k < r + 1);
                }
            }
            lemma_paint_compose(m0, before, mask, c1, c2, c, true);
        }
        y = y + rstep;
        r = r + 1;
    }
    assert forall|px: int, py: int| mask.on(px, py) implies #[trigger] mask.at(px, py) == in_text_block(
        px,
        py,
        glyph_width as int,
        glyph_height as int,
        spacing as int,
        row_spacing as int,
    ) by {
        crate::mask::lemma_offset_in_bounds(m0.width, m0.height, px, py);
        assert(!m0.pixels@[crate::mask::pixel_offset(m0.width, px, py)]);
    }
    mask
}

/// The gaps punched into every other glyph: a one-pixel column through
/// the middle of glyphs 0, 2, 4, ...
pub open spec fn in_gap(px: int, py: int, positions: Seq<u32>, y0: int, gw: int, gh: int) -> bool {
    exists|i: int|
        0 <= i < positions.len() && i % 2 == 0 && px == #[trigger] positions[i] + gw / 2 && y0 <= py < y0 + gh
}

/// Punches deterministic one-pixel gaps into every other glyph stroke,
/// standing in for broken ink in the source itself.
#[verifier::loop_isolation(false)]
pub fn punch_gaps(mask: &mut BinaryMask, positions: &[u32], y0: u32, glyph_width: u32, glyph_height: u32)
    requires
        old(mask).wf(),
        forall|i: int| 0 <= i < positions@.len() && i % 2 == 0 ==> #[trigger] positions@[i] + glyph_width / 2 <= u32::MAX,
        positions@.len() > 0 ==> y0 + glyph_height <= u32::MAX + 1,
    ensures
        painted(
            *final(mask),
            *old(mask),
            |px: int, py: int| in_gap(px, py, positions@, y0 as int, glyph_width as int, glyph_height as int),
            false,
        ),
{
    let ghost m0 = *mask;
    let mut i: usize = 0;
    while i < positions.len()
        invariant
            i <= positions@.len(),
            painted(
                *mask,
                m0,
                |px: int, py: int| in_gap(px, py, positions@.take(i as int), y0 as int, glyph_width as int, glyph_height as int),
                false,
            ),
        decreases positions.len() - i,
    {
        let ghost before = *mask;
        if i % 2 == 0 {
            let gap_x = positions[i] + glyph_width / 2;
            let mut dy: u32 = 0;
            while dy < glyph_height
                invariant
                    dy <= glyph_height,
                    painted(
                        *mask,
                        before,
                        |px: int, py: int| px == gap_x && y0 <= py < y0 + dy,
                        false,
                    ),
                decreases glyph_height - dy,
            {
                if gap_x < mask.width && y0 + dy < mask.height {
                    mask.paint(gap_x, y0 + dy, false);
                }
                dy = dy + 1;
            }
            proof {
                let c1 = |px: int, py: int| in_gap(px, py, positions@.take(i as int), y0 as int, glyph_width as int, glyph_height as int);
                let c2 = |px: int, py: int| px == gap_x && y0 <= py < y0 + glyph_height;
                let c = |px: int, py: int| in_gap(px, py, positions@.take(i + 1 as int), y0 as int, glyph_width as int, glyph_height as int);
                assert forall|qx: int, qy: int| #[trigger] c(qx, qy) == (c1(qx, qy) || c2(qx, qy)) by {
                    let t1 = positions@.take(i + 1 as int);
                    let t0 = positions@.take(i as int);
                    if c(qx, qy) {
                        let k = choose|k: int|
                            0 <= k < t1.len() && k % 2 == 0 && qx == #[trigger] t1[k] + glyph_width / 2 && y0 <= qy < y0 + glyph_height;
                        if k < i {
                            assert(t0[k] == t1[k]);
                            assert(c1(qx, qy));
                        }
                    }
                    if c2(qx, qy) {
                        assert(t1[i as int] == positions@[i as int]);
                    }
                    if c1(qx, qy) {
                        let k = choose|k: int|
                            0 <= k < t0.len() && k % 2 == 0 && qx == #[trigger] t0[k] + glyph_width / 2 && y0 <= qy < y0 + glyph_height;
                        assert(t0[k] == t1[k]);
                    }
                }
                lemma_paint_compose(m0, before, *mask, c1, c2, c, false);
            }
        } else {
            proof {
                assert forall|qx: int, qy: int| mask.on(qx, qy) implies #[trigger] mask.at(qx, qy) == if in_gap(qx, qy, positions@.take(i + 1 as int), y0 as int, glyph_width as int, glyph_height as int) {
                    false
                } else {
                    m0.at(qx, qy)
                } by {
                    let t1 = positions@.take(i + 1 as int);
                    let t0 = positions@.take(i as int);
                    if in_gap(qx, qy, t1, y0 as int, glyph_width as int, glyph_height as int) {
                        let k = choose|k: int|
                            0 <= k < t1.len() && k % 2 == 0 && qx == #[trigger] t1[k] + glyph_width / 2 && y0 <= qy < y0 + glyph_height;
                        assert(k != i);
                        assert(t0[k] == t1[k]);
                        assert(in_gap(qx, qy, t0, y0 as int, glyph_width as int, glyph_height as int));
                    }
                    if in_gap(qx, qy, t0, y0 as int, glyph_width as int, glyph_height as int) {
                        let k = choose|k: int|
                            0 <= k < t0.len() && k % 2 == 0 && qx == #[trigger] t0[k] + glyph_width / 2 && y0 <= qy < y0 + glyph_height;
                        assert(t0[k] == t1[k]);
                    }
                }
            }
        }
        i = i + 1;
    }
    assert(positions@.take(positions@.len() as int) == positions@);
}

} // verus!

verus! {

// ---------------------------------------------------------------------------
// Ground truth of each category
// ---------------------------------------------------------------------------

/// `m` is a canvas-sized mask whose ink is exactly `ink`.
pub open spec fn shows(m: BinaryMask, ink: spec_fn(int, int) -> bool) -> bool {
    &&& m.wf()
    &&& m.width == CANVAS_WIDTH
    &&& m.height == CANVAS_HEIGHT
    &&& forall|px: int, py: int| m.on(px, py) ==> #[trigger] m.at(px, py) == ink(px, py)
}

/// Painting over a mask that shows `f` shows the painted picture.
pub proof fn lemma_shows_after(
    m1: BinaryMask,
    m2: BinaryMask,
    f: spec_fn(int, int) -> bool,
    c: spec_fn(int, int) -> bool,
    value: bool,
    g: spec_fn(int, int) -> bool,
)
    requires
        shows(m1, f),
        painted(m2, m1, c, value),
        forall|px: int, py: int| #[trigger] g(px, py) == if c(px, py) { value } else { f(px, py) },
    ensures
        shows(m2, g),
{
    assert forall|px: int, py: int| m2.on(px, py) implies #[trigger] m2.at(px, py) == g(px, py) by {
        assert(m1.on(px, py));
        assert(m1.at(px, py) == f(px, py));
        assert(g(px, py) == if c(px, py) { value } else { f(px, py) });
    }
}

/// A blank canvas.
fn blank_canvas() -> (m: BinaryMask)
    ensures
        shows(m, |px: int, py: int| false),
{
    let m = BinaryMask::new(CANVAS_WIDTH, CANVAS_HEIGHT);
    assert forall|px: int, py: int| m.on(px, py) implies #[trigger] m.at(px, py) == false by {
        crate::mask::lemma_offset_in_bounds(m.width, m.height, px, py);
    }
    m
}

/// Rows of the text-block categories: glyph width, glyph height, spacing
/// and row spacing.
pub open spec fn text_block_of(c: FixtureCategory) -> (int, int, int, int) {
    match c {
        FixtureCategory::SmallText => (2, 3, 2, 3),
        FixtureCategory::ThickStrokes => (10, 12, 3, 8),
        _ => (6, 10, 4, 8),
    }
}

/// The three long rules of the mixed category, one pixel high.
pub open spec fn in_rule_line(px: int, py: int) -> bool {
    ||| in_rect(px, py, 5, 30, 150, 1)
    ||| in_rect(px, py, 5, 90, 150, 1)
    ||| in_rect(px, py, 5, 150, 150, 1)
}

/// Left edges of the fifteen glyphs of a broken-strokes row.
pub open spec fn broken_positions() -> Seq<u32> {
    Seq::new(15, |i: int| (10 + 10 * i) as u32)
}

/// Top edge of broken-strokes row `r`.
pub open spec fn broken_row_y(r: int) -> int {
    10 + 18 * r
}

/// The ink of broken-strokes row `r`: its glyphs less the punched gaps.
pub open spec fn broken_row_ink(px: int, py: int, r: int) -> bool {
    &&& in_glyph_row(px, py, 10, broken_row_y(r), 15, 6, 10, 10)
    &&& !in_gap(px, py, broken_positions(), broken_row_y(r), 6, 10)
}

/// The ink of the broken-strokes ground truth: ten rows.
pub open spec fn broken_ink(px: int, py: int) -> bool {
    exists|r: int| 0 <= r < 10 && #[trigger] broken_row_ink(px, py, r)
}

/// Rows of glyph strokes, each with every other glyph cut by a gap.
#[verifier::loop_isolation(false)]
fn broken_strokes() -> (m: BinaryMask)
    ensures
        shows(m, |px: int, py: int| broken_ink(px, py)),
{
    let mut m = blank_canvas();
    let glyph_width: u32 = 6;
    let glyph_height: u32 = 10;
    let mut y: u32 = 10;
    let ghost mut r: int = 0;
    assert forall|px: int, py: int| m.on(px, py) implies #[trigger] m.at(px, py) == (exists|k: int|
        0 <= k < 0 && #[trigger] broken_row_ink(px, py, k)) by {}
    assert(shows(m, |px: int, py: int| exists|k: int| 0 <= k < r && #[trigger] broken_row_ink(px, py, k)));
    while y + glyph_height < CANVAS_HEIGHT - 10
        invariant
            0 <= r <= 10,
            y == broken_row_y(r),
            shows(m, |px: int, py: int| exists|k: int| 0 <= k < r && #[trigger] broken_row_ink(px, py, k)),
        decreases 190 - y,
    {
        let ghost f = |px: int, py: int| exists|k: int| 0 <= k < r && #[trigger] broken_row_ink(px, py, k);
        let ghost m_a = m;
        let positions = draw_glyph_row(&mut m, 10, y, 15, glyph_width, glyph_height, 4);
        assert(positions@ =~= broken_positions());
        let ghost m_b = m;
        let ghost c_row = |px: int, py: int| in_glyph_row(px, py, 10, y as int, 15, 6, 10, 10);
        let ghost g1 = |px: int, py: int| c_row(px, py) || f(px, py);
        proof {
            lemma_shows_after(m_a, m_b, f, c_row, true, g1);
        }
        punch_gaps(&mut m, positions.as_slice(), y, glyph_width, glyph_height);
        let ghost c_gap = |px: int, py: int| in_gap(px, py, broken_positions(), y as int, 6, 10);
        let ghost next = |px: int, py: int| exists|k: int| 0 <= k < r + 1 && #[trigger] broken_row_ink(px, py, k);
        proof {
            assert forall|px: int, py: int| #[trigger] next(px, py) == if c_gap(px, py) { false } else { g1(px, py) } by {
                if c_gap(px, py) {
                    if next(px, py) {
                        let k = choose|k: int| 0 <= k < r + 1 && #[trigger] broken_row_ink(px, py, k);
                        if k < r {
                            let i = choose|i: int| 0 <= i < 15 && #[trigger] in_rect(px, py, 10 + i * 10, broken_row_y(k), 6, 10);
                        }
                    }
                } else {
                    if c_row(px, py) {
                        assert(broken_row_ink(px, py, r));
                    }
                    if f(px, py) {
                        let k = choose|k: int| 0 <= k < r && #[trigger] broken_row_ink(px, py, k);
                        assert(0 <= k < r + 1);
                    }
                    if next(px, py) {
                        let k = choose|k: int| 0 <= k < r + 1 && #[trigger] broken_row_ink(px, py, k);
                        if k < r {
                            assert(f(px, py));
                        }
                    }
                }
            }
            lemma_shows_after(m_b, m, g1, c_gap, false, next);
            r = r + 1;
        }
        y = y + 18;
    }
    m
}

/// A region of interest declared by a fixture: an ID, a rectangle, and an
/// optional tag naming what it isolates.
#[derive(Debug, Clone)]
pub struct FixtureRoi {
    pub id: String,
    pub x: u32,
    pub y: u32,
    pub width: u32,
    pub height: u32,
    pub tag: Option<String>,
}

/// The plain value of a region.
pub open spec fn roi_view(r: FixtureRoi) -> (Seq<char>, int, int, int, int, Option<Seq<char>>) {
    (
        r.id@,
        r.x as int,
        r.y as int,
        r.width as int,
        r.height as int,
        match r.tag {
            Some(t) => Some(t@),
            None => None,
        },
    )
}

/// `prefix` followed by the decimal text of `n`.
fn numbered(prefix: &str, n: u32) -> (s: String)
    ensures
        s@ == prefix@ + decimal(n as nat),
{
    let mut s = prefix.to_owned();
    push_decimal(&mut s, n as u64);
    s
}

/// Top edge of dense-apparatus row `r`.
pub open spec fn dense_row_y(r: int) -> int {
    10 + 7 * r
}

/// The dots between the glyphs of every third dense-apparatus row.
pub open spec fn dense_dots(px: int, py: int, r: int) -> bool {
    &&& r % 3 == 0
    &&& exists|m: int| 0 <= m < 8 && #[trigger] in_rect(px, py, 13 + 12 * m, dense_row_y(r) + 4, 1, 1)
}

/// The ink of dense-apparatus row `r`: thirty small glyphs, and dots on
/// every third row.
pub open spec fn dense_row_ink(px: int, py: int, r: int) -> bool {
    in_glyph_row(px, py, 10, dense_row_y(r), 30, 2, 4, 3) || dense_dots(px, py, r)
}

/// The ink of the dense-apparatus ground truth: twenty-six rows.
pub open spec fn dense_ink(px: int, py: int) -> bool {
    exists|r: int| 0 <= r < 26 && #[trigger] dense_row_ink(px, py, r)
}

/// The region of the `k`-th dotted row (row `3 * k`).
pub open spec fn dense_roi(k: int) -> (Seq<char>, int, int, int, int, Option<Seq<char>>) {
    ("apparatus-row-"@ + decimal((3 * k) as nat), 8, dense_row_y(3 * k) - 1, 144, 7, Some("apparatus"@))
}

/// Dense rows of small glyphs; every third row carries dots and is declared
/// as an apparatus region.
#[verifier::loop_isolation(false)]
fn dense_apparatus() -> (r: (BinaryMask, Vec<FixtureRoi>))
    ensures
        shows(r.0, |px: int, py: int| dense_ink(px, py)),
        r.1@.len() == 9,
        forall|k: int| 0 <= k < 9 ==> #[trigger] roi_view(r.1@[k]) == dense_roi(k),
{
    let mut m = blank_canvas();
    let mut rois: Vec<FixtureRoi> = Vec::new();
    let glyph_width: u32 = 2;
    let glyph_height: u32 = 4;
    let mut y: u32 = 10;
    let mut row_index: u32 = 0;
    assert forall|px: int, py: int| m.on(px, py) implies #[trigger] m.at(px, py) == (exists|k: int|
        0 <= k < 0 && #[trigger] dense_row_ink(px, py, k)) by {}
    while y + glyph_height < CANVAS_HEIGHT - 10
        invariant
            0 <= row_index <= 26,
            y == dense_row_y(row_index as int),
            shows(m, |px: int, py: int| exists|k: int| 0 <= k < row_index && #[trigger] dense_row_ink(px, py, k)),
            rois@.len() == (row_index + 2) / 3,
            forall|k: int| 0 <= k < rois@.len() ==> #[trigger] roi_view(rois@[k]) == dense_roi(k),
        decreases 26 - row_index,
    {
        let ghost r = row_index as int;
        let ghost f = |px: int, py: int| exists|k: int| 0 <= k < r && #[trigger] dense_row_ink(px, py, k);
        let ghost m_a = m;
        let positions = draw_glyph_row(&mut m, 10, y, 30, glyph_width, glyph_height, 1);
        let ghost c_row = |px: int, py: int| in_glyph_row(px, py, 10, y as int, 30, 2, 4, 3);
        let ghost g1 = |px: int, py: int| c_row(px, py) || f(px, py);
        proof {
            lemma_shows_after(m_a, m, f, c_row, true, g1);
        }
        let ghost after_row = m;
        if row_index % 3 == 0 {
            let mut j: usize = 0;
            let ghost mut n: int = 0;
            while j < positions.len()
                invariant
                    positions@.len() == 30,
                    forall|i: int| 0 <= i < 30 ==> #[trigger] positions@[i] == 10 + i * 3,
                    0 <= n <= 8,
                    j == 4 * n,
                    shows(m, |px: int, py: int| g1(px, py) || exists|q: int| 0 <= q < n && #[trigger] in_rect(px, py, 13 + 12 * q, y + 4, 1, 1)),
                decreases 32 - j,
            {
                let ghost before = m;
                let ghost h = |px: int, py: int| g1(px, py) || exists|q: int| 0 <= q < n && #[trigger] in_rect(px, py, 13 + 12 * q, y + 4, 1, 1);
                draw_dot_mark(&mut m, positions[j] + glyph_width + 1, y + glyph_height, 1);
                proof {
                    let c_dot = |px: int, py: int| in_rect(px, py, positions@[j as int] + 3, y + 4, 1, 1);
                    let h2 = |px: int, py: int| g1(px, py) || exists|q: int| 0 <= q < n + 1 && #[trigger] in_rect(px, py, 13 + 12 * q, y + 4, 1, 1);
                    assert forall|px: int, py: int| #[trigger] h2(px, py) == if c_dot(px, py) { true } else { h(px, py) } by {
                        if c_dot(px, py) {
                            assert(in_rect(px, py, 13 + 12 * n, y + 4, 1, 1));
                        }
                        if exists|q: int| 0 <= q < n + 1 && #[trigger] in_rect(px, py, 13 + 12 * q, y + 4, 1, 1) {
                            let q = choose|q: int| 0 <= q < n + 1 && #[trigger] in_rect(px, py, 13 + 12 * q, y + 4, 1, 1);
                            if q < n {
                                assert(h(px, py));
                            }
                        }
                        if exists|q: int| 0 <= q < n && #[trigger] in_rect(px, py, 13 + 12 * q, y + 4, 1, 1) {
                            let q = choose|q: int| 0 <= q < n && #[trigger] in_rect(px, py, 13 + 12 * q, y + 4, 1, 1);
                            assert(0 <= q < n + 1);
                        }
                    }
                    lemma_shows_after(before, m, h, c_dot, true, h2);
                    n = n + 1;
                }
                j = j + 4;
            }
            let id = numbered("apparatus-row-", row_index);
            rois.push(FixtureRoi {
                id,
                x: 8,
                y: y - 1,
                width: CANVAS_WIDTH - 16,
                height: glyph_height + 3,
                tag: Some("apparatus".to_owned()),
            });
            assert(row_index == 3 * ((row_index + 2) / 3));
        }
        proof {
            let next = |px: int, py: int| exists|k: int| 0 <= k < r + 1 && #[trigger] dense_row_ink(px, py, k);
            assert forall|px: int, py: int| m.on(px, py) implies #[trigger] m.at(px, py) == next(px, py) by {
                let dots = exists|q: int| 0 <= q < 8 && #[trigger] in_rect(px, py, 13 + 12 * q, y + 4, 1, 1);
                assert(dense_row_ink(px, py, r) == (c_row(px, py) || (r % 3 == 0 && dots)));
                if next(px, py) {
                    let k = choose|k: int| 0 <= k < r + 1 && #[trigger] dense_row_ink(px, py, k);
                    if k < r {
                        assert(f(px, py));
                    }
                }
                if f(px, py) {
                    let k = choose|k: int| 0 <= k < r && #[trigger] dense_row_ink(px, py, k);
                    assert(0 <= k < r + 1);
                }
            }
        }
        y = y + glyph_height + 3;
        row_index = row_index + 1;
    }
    (m, rois)
}

/// The marks drawn on a glyph whose left edge is `x`, on a row whose top is
/// `y`, by kind: an acute accent, a breathing arc, a dot below, or an
/// accent stacked over a breathing arc.
pub open spec fn in_diacritic(px: int, py: int, x: int, y: int, kind: int) -> bool {
    if kind == 0 {
        in_accent(px, py, x as u32, (y - 1) as u32, 4, true)
    } else if kind == 1 {
        in_breathing(px, py, x as u32, (y - 6) as u32)
    } else if kind == 2 {
        in_rect(px, py, x + 1, y + 11, 1, 1)
    } else {
        in_accent(px, py, x as u32, (y - 4) as u32, 3, true) || in_breathing(px, py, x as u32, (y - 6) as u32)
    }
}

/// Draws the diacritic of the given kind on one glyph.
fn draw_diacritic(mask: &mut BinaryMask, x: u32, y: u32, kind: u32)
    requires
        old(mask).wf(),
        x <= 1000,
        20 <= y <= 1000,
        kind < 4,
    ensures
        painted(*final(mask), *old(mask), |px: int, py: int| in_diacritic(px, py, x as int, y as int, kind as int), true),
{
    let mark_y = y - 6;
    if kind == 0 {
        draw_accent_mark(mask, x, y - 1, 4, true);
    } else if kind == 1 {
        draw_breathing_mark(mask, x, mark_y);
    } else if kind == 2 {
        draw_dot_mark(mask, x + 1, y + 11, 1);
    } else {
        let ghost m0 = *mask;
        draw_accent_mark(mask, x, y - 4, 3, true);
        let ghost m1 = *mask;
        draw_breathing_mark(mask, x, mark_y);
        proof {
            lemma_paint_compose(
                m0,
                m1,
                *mask,
                |px: int, py: int| in_accent(px, py, x, (y - 4) as u32, 3, true),
                |px: int, py: int| in_breathing(px, py, x, mark_y),
                |px: int, py: int| in_diacritic(px, py, x as int, y as int, kind as int),
                true,
            );
        }
    }
}

/// The region declared around a diacritic: x, y, width and height.
pub open spec fn diacritic_region(x: int, y: int, kind: int) -> (int, int, int, int) {
    if kind == 0 {
        (x, y - 6, 8, 7)
    } else if kind == 1 {
        (x, y - 6, 6, 4)
    } else if kind == 2 {
        (x, y + 10, 4, 3)
    } else {
        (x, y - 10, 6, 11)
    }
}

/// Top edge of polytonic row `r`.
pub open spec fn poly_row_y(r: int) -> int {
    20 + 24 * r
}

/// Left edge of glyph `i` of a polytonic row.
pub open spec fn poly_x(i: int) -> int {
    10 + 12 * i
}

/// The ink of polytonic row `r`: nine glyphs, each with its diacritic.
pub open spec fn poly_row_ink(px: int, py: int, r: int) -> bool {
    ||| in_glyph_row(px, py, 10, poly_row_y(r), 9, 6, 10, 12)
    ||| exists|i: int| 0 <= i < 9 && #[trigger] in_diacritic(px, py, poly_x(i), poly_row_y(r), i % 4)
}

/// The ink of the polytonic ground truth: seven rows.
pub open spec fn poly_ink(px: int, py: int) -> bool {
    exists|r: int| 0 <= r < 7 && #[trigger] poly_row_ink(px, py, r)
}

/// The region of the diacritic on glyph `i` of row `r`.
pub open spec fn poly_roi(r: int, i: int) -> (Seq<char>, int, int, int, int, Option<Seq<char>>) {
    let (x, y, w, h) = diacritic_region(poly_x(i), poly_row_y(r), i % 4);
    ("diacritic-"@ + decimal(r as nat) + "-"@ + decimal(i as nat), x, y, w, h, Some("diacritic"@))
}

/// Rows of glyphs carrying accent-, breathing- and dot-like marks, each
/// declared as a diacritic region.
#[verifier::loop_isolation(false)]
#[verifier::rlimit(30)]
fn polytonic_marks() -> (r: (BinaryMask, Vec<FixtureRoi>))
    ensures
        shows(r.0, |px: int, py: int| poly_ink(px, py)),
        r.1@.len() == 63,
        forall|row: int, i: int| 0 <= row < 7 && 0 <= i < 9 ==> #[trigger] poly_roi(row, i) == roi_view(r.1@[9 * row + i]),
{
    let mut m = blank_canvas();
    let mut rois: Vec<FixtureRoi> = Vec::new();
    let glyph_width: u32 = 6;
    let glyph_height: u32 = 10;
    let mut y: u32 = 20;
    let mut row_index: u32 = 0;
    assert forall|px: int, py: int| m.on(px, py) implies #[trigger] m.at(px, py) == (exists|k: int|
        0 <= k < 0 && #[trigger] poly_row_ink(px, py, k)) by {}
    while y + glyph_height + 8 < CANVAS_HEIGHT - 10
        invariant
            0 <= row_index <= 7,
            y == poly_row_y(row_index as int),
            shows(m, |px: int, py: int| exists|k: int| 0 <= k < row_index && #[trigger] poly_row_ink(px, py, k)),
            rois@.len() == 9 * row_index,
            forall|rr: int, ii: int| 0 <= rr < row_index && 0 <= ii < 9 ==> #[trigger] poly_roi(rr, ii) == roi_view(rois@[9 * rr + ii]),
        decreases 7 - row_index,
    {
        let ghost r = row_index as int;
        let ghost f = |px: int, py: int| exists|k: int| 0 <= k < r && #[trigger] poly_row_ink(px, py, k);
        let ghost m_a = m;
        let positions = draw_glyph_row(&mut m, 10, y, 9, glyph_width, glyph_height, 6);
        let ghost c_row = |px: int, py: int| in_glyph_row(px, py, 10, y as int, 9, 6, 10, 12);
        let ghost g1 = |px: int, py: int| c_row(px, py) || f(px, py);
        proof {
            lemma_shows_after(m_a, m, f, c_row, true, g1);
        }
        let mut i: usize = 0;
        while i < positions.len()
            invariant
                positions@.len() == 9,
                forall|k: int| 0 <= k < 9 ==> #[trigger] positions@[k] == 10 + k * 12,
                i <= 9,
                shows(m, |px: int, py: int| g1(px, py) || exists|q: int| 0 <= q < i && #[trigger] in_diacritic(px, py, poly_x(q), y as int, q % 4)),
                rois@.len() == 9 * row_index + i,
                forall|rr: int, ii: int| 0 <= rr < row_index && 0 <= ii < 9 ==> #[trigger] poly_roi(rr, ii) == roi_view(rois@[9 * rr + ii]),
                forall|ii: int| 0 <= ii < i ==> #[trigger] poly_roi(r, ii) == roi_view(rois@[9 * r + ii]),
            decreases 9 - i,
        {
            let x = positions[i];
            let kind = (i % 4) as u32;
            let ghost before = m;
            let ghost h = |px: int, py: int| g1(px, py) || exists|q: int| 0 <= q < i && #[trigger] in_diacritic(px, py, poly_x(q), y as int, q % 4);
            draw_diacritic(&mut m, x, y, kind);
            proof {
                let c = |px: int, py: int| in_diacritic(px, py, x as int, y as int, kind as int);
                let h2 = |px: int, py: int| g1(px, py) || exists|q: int| 0 <= q < i + 1 && #[trigger] in_diacritic(px, py, poly_x(q), y as int, q % 4);
                assert(x as int == poly_x(i as int));
                assert forall|px: int, py: int| #[trigger] h2(px, py) == if c(px, py) { true } else { h(px, py) } by {
                    if c(px, py) {
                        assert(in_diacritic(px, py, poly_x(i as int), y as int, i as int % 4));
                    }
                    if exists|q: int| 0 <= q < i + 1 && #[trigger] in_diacritic(px, py, poly_x(q), y as int, q % 4) {
                        let q = choose|q: int| 0 <= q < i + 1 && #[trigger] in_diacritic(px, py, poly_x(q), y as int, q % 4);
                        if q < i {
                            assert(h(px, py));
                        }
                    }
                    if exists|q: int| 0 <= q < i && #[trigger] in_diacritic(px, py, poly_x(q), y as int, q % 4) {
                        let q = choose|q: int| 0 <= q < i && #[trigger] in_diacritic(px, py, poly_x(q), y as int, q % 4);
                        assert(0 <= q < i + 1);
                    }
                }
                lemma_shows_after(before, m, h, c, true, h2);
            }
            let mut id = numbered("diacritic-", row_index);
            crate::text::push_str(&mut id, "-");
            push_decimal(&mut id, i as u64);
            let (rx, ry, rw, rh) = if kind == 0 {
                (x, y - 6, glyph_width + 2, 7u32)
            } else if kind == 1 {
                (x, y - 6, 6u32, 4u32)
            } else if kind == 2 {
                (x, y + glyph_height, 4u32, 3u32)
            } else {
                (x, y - 10, 6u32, 11u32)
            };
            rois.push(FixtureRoi { id, x: rx, y: ry, width: rw, height: rh, tag: Some("diacritic".to_owned()) });
            proof {
                assert(roi_view(rois@[9 * r + i]) == poly_roi(r, i as int));
                assert forall|rr: int, ii: int| 0 <= rr < row_index && 0 <= ii < 9 implies #[trigger] poly_roi(rr, ii) == roi_view(rois@[9 * rr + ii]) by {
                    assert(9 * rr + ii < 9 * r) by (nonlinear_arith)
                        requires
                            0 <= rr < r,
                            0 <= ii < 9,
                    ;
                }
            }
            i = i + 1;
        }
        proof {
            let next = |px: int, py: int| exists|k: int| 0 <= k < r + 1 && #[trigger] poly_row_ink(px, py, k);
            assert forall|px: int, py: int| m.on(px, py) implies #[trigger] m.at(px, py) == next(px, py) by {
                let marks = exists|q: int| 0 <= q < 9 && #[trigger] in_diacritic(px, py, poly_x(q), y as int, q % 4);
                assert(m.at(px, py) == (g1(px, py) || marks));
                assert(poly_row_ink(px, py, r) == (c_row(px, py) || marks));
                if next(px, py) {
                    let k = choose|k: int| 0 <= k < r + 1 && #[trigger] poly_row_ink(px, py, k);
                    if k < r {
                        assert(f(px, py));
                    }
                }
                if f(px, py) {
                    let k = choose|k: int| 0 <= k < r && #[trigger] poly_row_ink(px, py, k);
                    assert(0 <= k < r + 1);
                }
            }
        }
        y = y + glyph_height + 14;
        row_index = row_index + 1;
    }
    (m, rois)
}

/// The ground truth of a fixture, with the regions it declares.
#[derive(Debug, Clone)]
pub struct FixtureGroundTruth {
    pub ground_truth: BinaryMask,
    pub rois: Vec<FixtureRoi>,
}

/// The ink of a category's ground truth.
pub open spec fn ground_truth_ink(c: FixtureCategory, px: int, py: int) -> bool {
    match c {
        FixtureCategory::BrokenStrokes => broken_ink(px, py),
        FixtureCategory::DenseApparatusLikeText => dense_ink(px, py),
        FixtureCategory::PolytonicLikeDiacriticShapes => poly_ink(px, py),
        FixtureCategory::MixedTextAndLines => in_text_block(px, py, 6, 10, 4, 8) || in_rule_line(px, py),
        _ => {
            let (gw, gh, sp, rs) = text_block_of(c);
            in_text_block(px, py, gw, gh, sp, rs)
        },
    }
}

/// The regions a category declares, in order.
pub open spec fn ground_truth_rois(c: FixtureCategory) -> Seq<(Seq<char>, int, int, int, int, Option<Seq<char>>)> {
    match c {
        FixtureCategory::DenseApparatusLikeText => Seq::new(9, |k: int| dense_roi(k)),
        FixtureCategory::PolytonicLikeDiacriticShapes => Seq::new(63, |n: int| poly_roi(n / 9, n % 9)),
        _ => Seq::empty(),
    }
}

fn text_block(glyph_width: u32, glyph_height: u32, spacing: u32, row_spacing: u32) -> (m: BinaryMask)
    requires
        0 < glyph_width + spacing <= 100,
        0 < glyph_height + row_spacing <= 100,
    ensures
        shows(m, |px: int, py: int| in_text_block(px, py, glyph_width as int, glyph_height as int, spacing as int, row_spacing as int)),
{
    base_text_block(glyph_width, glyph_height, spacing, row_spacing)
}

/// The ground truth of the mixed category: running text crossed by three
/// long thin rules.
fn text_and_rules() -> (m: BinaryMask)
    ensures
        shows(m, |px: int, py: int| in_text_block(px, py, 6, 10, 4, 8) || in_rule_line(px, py)),
{
    let mut m = text_block(6, 10, 4, 8);
    let ghost f0 = |px: int, py: int| in_text_block(px, py, 6, 10, 4, 8);
    let ghost m0 = m;
    draw_glyph_stroke(&mut m, 5, 30, CANVAS_WIDTH - 10, 1);
    let ghost f1 = |px: int, py: int| in_rect(px, py, 5, 30, 150, 1) || f0(px, py);
    proof {
        lemma_shows_after(m0, m, f0, |px: int, py: int| in_rect(px, py, 5, 30, 150, 1), true, f1);
    }
    let ghost m1 = m;
    draw_glyph_stroke(&mut m, 5, 90, CANVAS_WIDTH - 10, 1);
    let ghost f2 = |px: int, py: int| in_rect(px, py, 5, 90, 150, 1) || f1(px, py);
    proof {
        lemma_shows_after(m1, m, f1, |px: int, py: int| in_rect(px, py, 5, 90, 150, 1), true, f2);
    }
    let ghost m2 = m;
    draw_glyph_stroke(&mut m, 5, 150, CANVAS_WIDTH - 10, 1);
    proof {
        let f3 = |px: int, py: int| in_rect(px, py, 5, 150, 150, 1) || f2(px, py);
        lemma_shows_after(m2, m, f2, |px: int, py: int| in_rect(px, py, 5, 150, 150, 1), true, f3);
        assert forall|px: int, py: int| m.on(px, py) implies #[trigger] m.at(px, py) == (in_text_block(px, py, 6, 10, 4, 8) || in_rule_line(px, py)) by {
            assert(m.at(px, py) == f3(px, py));
        }
    }
    m
}

/// The ground truth of a category and the regions it declares. It is built
/// from shapes alone, never by binarizing an image.
pub fn ground_truth(category: FixtureCategory) -> (r: FixtureGroundTruth)
    ensures
        shows(r.ground_truth, |px: int, py: int| ground_truth_ink(category, px, py)),
        r.rois@.len() == ground_truth_rois(category).len(),
        forall|k: int| 0 <= k < r.rois@.len() ==> #[trigger] roi_view(r.rois@[k]) == ground_truth_rois(category)[k],
{
    match category {
        FixtureCategory::BrokenStrokes => FixtureGroundTruth { ground_truth: broken_strokes(), rois: Vec::new() },
        FixtureCategory::MixedTextAndLines => FixtureGroundTruth { ground_truth: text_and_rules(), rois: Vec::new() },
        FixtureCategory::DenseApparatusLikeText => {
            let (m, rois) = dense_apparatus();
            FixtureGroundTruth { ground_truth: m, rois }
        },
        FixtureCategory::PolytonicLikeDiacriticShapes => {
            let (m, rois) = polytonic_marks();
            proof {
                assert forall|k: int| 0 <= k < 63 implies #[trigger] roi_view(rois@[k]) == ground_truth_rois(category)[k] by {
                    let row = k / 9;
                    let i = k % 9;
                    assert(k == 9 * row + i);
                    assert(poly_roi(row, i) == roi_view(rois@[9 * row + i]));
                }
            }
            FixtureGroundTruth { ground_truth: m, rois }
        },
        FixtureCategory::SmallText => FixtureGroundTruth { ground_truth: text_block(2, 3, 2, 3), rois: Vec::new() },
        FixtureCategory::ThickStrokes => FixtureGroundTruth { ground_truth: text_block(10, 12, 3, 8), rois: Vec::new() },
        _ => FixtureGroundTruth { ground_truth: text_block(6, 10, 4, 8), rois: Vec::new() },
    }
}

/// Every region a category declares is non-empty and lies on the canvas.
pub proof fn lemma_rois_on_canvas(c: FixtureCategory, k: int)
    requires
        0 <= k < ground_truth_rois(c).len(),
    ensures
        ground_truth_rois(c)[k].3 > 0,
        ground_truth_rois(c)[k].4 > 0,
        0 <= ground_truth_rois(c)[k].1,
        0 <= ground_truth_rois(c)[k].2,
        ground_truth_rois(c)[k].1 + ground_truth_rois(c)[k].3 <= CANVAS_WIDTH,
        ground_truth_rois(c)[k].2 + ground_truth_rois(c)[k].4 <= CANVAS_HEIGHT,
{
    if c == FixtureCategory::PolytonicLikeDiacriticShapes {
        assert(0 <= k / 9 < 7);
        assert(0 <= k % 9 < 9);
    }
}

/// Every fixture category's ground truth is a 160 by 200 mask with ink on
/// it, whose declared regions are all non-empty and lie on the page. Taken
/// with [`ground_truth`], which always returns a mask that [`shows`] this
/// picture, the same category always gives the same ground truth.
pub proof fn lemma_fixture_is_well_formed(c: FixtureCategory, m: BinaryMask)
    requires
        shows(m, |px: int, py: int| ground_truth_ink(c, px, py)),
    ensures
        m.width == 160 && m.height == 200,
        exists|px: int, py: int| 0 <= px < 160 && 0 <= py < 200 && #[trigger] m.at(px, py),
        forall|k: int|
            0 <= k < ground_truth_rois(c).len() ==> {
                let r = #[trigger] ground_truth_rois(c)[k];
                &&& r.3 > 0 && r.4 > 0
                &&& 0 <= r.1 && r.1 + r.3 <= 160
                &&& 0 <= r.2 && r.2 + r.4 <= 200
            },
{
    lemma_ground_truth_has_ink(c);
    let (px, py) = choose|px: int, py: int|
        0 <= px < CANVAS_WIDTH && 0 <= py < CANVAS_HEIGHT && #[trigger] ground_truth_ink(c, px, py);
    assert(m.on(px, py));
    assert(m.at(px, py));
    assert forall|k: int| 0 <= k < ground_truth_rois(c).len() implies {
        let r = #[trigger] ground_truth_rois(c)[k];
        &&& r.3 > 0 && r.4 > 0
        &&& 0 <= r.1 && r.1 + r.3 <= 160
        &&& 0 <= r.2 && r.2 + r.4 <= 200
    } by {
        lemma_rois_on_canvas(c, k);
    }
}

/// No category has a blank ground truth.
pub proof fn lemma_ground_truth_has_ink(c: FixtureCategory)
    ensures
        exists|px: int, py: int|
            0 <= px < CANVAS_WIDTH && 0 <= py < CANVAS_HEIGHT && #[trigger] ground_truth_ink(c, px, py),
{
    assert(in_rect(10, 10, 10 + 0int * 10, 10, 6, 10));
    match c {
        FixtureCategory::BrokenStrokes => {
            assert(in_glyph_row(10, 10, 10, broken_row_y(0), 15, 6, 10, 10));
            assert(!in_gap(10, 10, broken_positions(), broken_row_y(0), 6, 10)) by {
                if in_gap(10, 10, broken_positions(), broken_row_y(0), 6, 10) {
                    let i = choose|i: int| 0 <= i < 15 && i % 2 == 0 && 10 == #[trigger] broken_positions()[i] + 3 && broken_row_y(0) <= 10 < broken_row_y(0) + 10;
                    assert(broken_positions()[i] == 10 + 10 * i);
                }
            }
            assert(broken_row_ink(10, 10, 0));
            assert(ground_truth_ink(c, 10, 10));
        },
        FixtureCategory::DenseApparatusLikeText => {
            assert(in_rect(10, 10, 10 + 0int * 3, dense_row_y(0), 2, 4));
            assert(dense_row_ink(10, 10, 0));
            assert(ground_truth_ink(c, 10, 10));
        },
        FixtureCategory::PolytonicLikeDiacriticShapes => {
            assert(in_rect(10, 20, 10 + 0int * 12, poly_row_y(0), 6, 10));
            assert(poly_row_ink(10, 20, 0));
            assert(ground_truth_ink(c, 10, 20));
        },
        _ => {
            let (gw, gh, sp, rs) = text_block_of(c);
            assert(in_rect(10, 10, 10 + 0 * (gw + sp), 10 + 0 * (gh + rs), gw, gh));
            assert(1 <= gw && 1 <= gh && 0 < gw + sp <= 14 && 0 < gh + rs <= 20);
            assert(140int / (gw + sp) >= 1) by (nonlinear_arith)
                requires
                    0 < gw + sp <= 140,
            ;
            assert(180int / (gh + rs) >= 1) by (nonlinear_arith)
                requires
                    0 < gh + rs <= 180,
            ;
            assert(in_glyph_row(10, 10, 10, 10 + 0 * (gh + rs), (CANVAS_WIDTH - 20) / (gw + sp), gw, gh, gw + sp));
            assert(in_text_block(10, 10, gw, gh, sp, rs));
            assert(ground_truth_ink(c, 10, 10));
        },
    }
}

// ---------------------------------------------------------------------------
// Rendering the input image
// ---------------------------------------------------------------------------

/// Renders a mask as a grayscale image: ink where the mask is set, paper
/// elsewhere.
pub fn to_grayscale(mask: &BinaryMask, ink: u8, paper: u8) -> (img: GrayPixels)
    requires
        mask.wf(),
    ensures
        img.wf(),
        img.width == mask.width,
        img.height == mask.height,
        forall|x: int, y: int| img.on(x, y) ==> #[trigger] img.at(x, y) == if mask.at(x, y) {
            ink
        } else {
            paper
        },
{
    let mut pixels: Vec<u8> = Vec::new();
    let mut i: usize = 0;
    while i < mask.pixels.len()
        invariant
            i <= mask.pixels@.len(),
            pixels@.len() == i,
            forall|k: int| 0 <= k < i ==> #[trigger] pixels@[k] == if mask.pixels@[k] { ink } else { paper },
        decreases mask.pixels.len() - i,
    {
        pixels.push(if mask.pixels[i] { ink } else { paper });
        i = i + 1;
    }
    let img = GrayPixels { width: mask.width, height: mask.height, pixels };
    assert forall|x: int, y: int| img.on(x, y) implies #[trigger] img.at(x, y) == if mask.at(x, y) {
        ink
    } else {
        paper
    } by {
        crate::mask::lemma_offset_in_bounds(mask.width, mask.height, x, y);
    }
    img
}

/// First column of the blur window around `x`.
pub open spec fn window_lo(x: int, radius: int) -> int {
    if x >= radius {
        x - radius
    } else {
        0
    }
}

/// Last column (inclusive) of the blur window around `x`, clamped to the
/// last of `size` columns.
pub open spec fn window_hi(x: int, radius: int, size: int) -> int {
    if x + radius <= size - 1 {
        x + radius
    } else {
        size - 1
    }
}

/// Sum of row `y` of `img` over columns `lo..hi`.
pub open spec fn row_sum(img: GrayPixels, y: int, lo: int, hi: int) -> int
    decreases hi - lo,
{
    if hi <= lo {
        0
    } else {
        row_sum(img, y, lo, hi - 1) + img.at(hi - 1, y)
    }
}

/// Sum of column `x` of `img` over rows `lo..hi`.
pub open spec fn col_sum(img: GrayPixels, x: int, lo: int, hi: int) -> int
    decreases hi - lo,
{
    if hi <= lo {
        0
    } else {
        col_sum(img, x, lo, hi - 1) + img.at(x, hi - 1)
    }
}

/// The horizontal pass of the box blur at `(x, y)`: the floor of the mean of
/// the row window.
pub open spec fn hblur(img: GrayPixels, x: int, y: int, radius: int) -> int {
    let lo = window_lo(x, radius);
    let hi = window_hi(x, radius, img.width as int);
    row_sum(img, y, lo, hi + 1) / (hi + 1 - lo)
}

/// Sum of the horizontal pass down column `x` over rows `lo..hi`.
pub open spec fn hblur_col_sum(img: GrayPixels, x: int, lo: int, hi: int, radius: int) -> int
    decreases hi - lo,
{
    if hi <= lo {
        0
    } else {
        hblur_col_sum(img, x, lo, hi - 1, radius) + hblur(img, x, hi - 1, radius)
    }
}

/// The separable box blur at `(x, y)`: the floor of the mean, over the
/// column window, of the horizontal pass.
pub open spec fn blur_at(img: GrayPixels, x: int, y: int, radius: int) -> int {
    let lo = window_lo(y, radius);
    let hi = window_hi(y, radius, img.height as int);
    hblur_col_sum(img, x, lo, hi + 1, radius) / (hi + 1 - lo)
}

proof fn lemma_col_sum_of_pass(h: GrayPixels, img: GrayPixels, x: int, lo: int, hi: int, radius: int)
    requires
        forall|ny: int| lo <= ny < hi ==> #[trigger] h.at(x, ny) == hblur(img, x, ny, radius),
    ensures
        col_sum(h, x, lo, hi) == hblur_col_sum(img, x, lo, hi, radius),
    decreases hi - lo,
{
    if hi > lo {
        lemma_col_sum_of_pass(h, img, x, lo, hi - 1, radius);
        assert(h.at(x, hi - 1) == hblur(img, x, hi - 1, radius));
    }
}

/// The mean of `count` values each at most 255 is a byte.
proof fn lemma_mean_is_byte(sum: int, count: int)
    requires
        0 < count,
        0 <= sum <= 255 * count,
    ensures
        0 <= sum / count <= 255,
{
    assert(sum / count <= 255) by (nonlinear_arith)
        requires
            0 < count,
            0 <= sum <= 255 * count,
    ;
    assert(0 <= sum / count) by (nonlinear_arith)
        requires
            0 < count,
            0 <= sum,
    ;
}

/// One pass of the box blur along rows.
#[verifier::loop_isolation(false)]
fn blur_rows(img: &GrayPixels, radius: u32) -> (out: GrayPixels)
    requires
        img.wf(),
        img.width * img.height <= usize::MAX,
    ensures
        out.wf(),
        out.width == img.width,
        out.height == img.height,
        forall|x: int, y: int| out.on(x, y) ==> #[trigger] out.at(x, y) == hblur(*img, x, y, radius as int),
{
    let width = img.width;
    let height = img.height;
    let mut pixels: Vec<u8> = Vec::new();
    let mut y: u32 = 0;
    while y < height
        invariant
            y <= height,
            pixels@.len() == y * width,
            forall|qx: int, qy: int| 0 <= qx < width && 0 <= qy < y ==> #[trigger] pixels@[pixel_offset(width, qx, qy)] == hblur(*img, qx, qy, radius as int),
        decreases height - y,
    {
        let mut x: u32 = 0;
        while x < width
            invariant
                y < height,
                x <= width,
                pixels@.len() == y * width + x,
                forall|qx: int, qy: int| 0 <= qx < width && 0 <= qy < y ==> #[trigger] pixels@[pixel_offset(width, qx, qy)] == hblur(*img, qx, qy, radius as int),
                forall|qx: int| 0 <= qx < x ==> #[trigger] pixels@[pixel_offset(width, qx, y as int)] == hblur(*img, qx, y as int, radius as int),
            decreases width - x,
        {
            let lo: u32 = if x >= radius { x - radius } else { 0 };
            let hi: u32 = if (x as u64) + (radius as u64) <= (width as u64) - 1 { x + radius } else { width - 1 };
            let mut sum: u64 = 0;
            let mut nx: u32 = lo;
            while nx <= hi
                invariant
                    lo <= nx <= hi + 1,
                    hi < width,
                    sum == row_sum(*img, y as int, lo as int, nx as int),
                    sum <= 255 * (nx - lo),
                decreases hi + 1 - nx,
            {
                sum = sum + img.get(nx, y) as u64;
                nx = nx + 1;
            }
            let count: u64 = (hi - lo + 1) as u64;
            proof {
                lemma_mean_is_byte(sum as int, count as int);
            }
            let ghost before = pixels@;
            pixels.push((sum / count) as u8);
            proof {
                assert(pixel_offset(width, x as int, y as int) == y * width + x);
                assert forall|qx: int, qy: int| 0 <= qx < width && 0 <= qy < y implies #[trigger] pixels@[pixel_offset(width, qx, qy)] == hblur(*img, qx, qy, radius as int) by {
                    assert(pixel_offset(width, qx, qy) < y * width) by (nonlinear_arith)
                        requires
                            0 <= qx < width,
                            0 <= qy < y,
                    ;
                    assert(pixels@[pixel_offset(width, qx, qy)] == before[pixel_offset(width, qx, qy)]);
                }
                assert forall|qx: int| 0 <= qx < x + 1 implies #[trigger] pixels@[pixel_offset(width, qx, y as int)] == hblur(*img, qx, y as int, radius as int) by {
                    if qx < x {
                        assert(pixels@[pixel_offset(width, qx, y as int)] == before[pixel_offset(width, qx, y as int)]);
                    }
                }
            }
            x = x + 1;
        }
        assert((y + 1) * width == y * width + width) by (nonlinear_arith);
        y = y + 1;
    }
    let out = GrayPixels { width, height, pixels };
    assert(height * width == width * height) by (nonlinear_arith);
    out
}

/// A deterministic separable box blur, clamped at the edges.
#[verifier::loop_isolation(false)]
pub fn box_blur(img: &GrayPixels, radius: u32) -> (out: GrayPixels)
    requires
        img.wf(),
        img.width * img.height <= usize::MAX,
    ensures
        out.wf(),
        out.width == img.width,
        out.height == img.height,
        forall|x: int, y: int| out.on(x, y) ==> #[trigger] out.at(x, y) == blur_at(*img, x, y, radius as int),
{
    let horizontal = blur_rows(img, radius);
    let width = img.width;
    let height = img.height;
    let mut pixels: Vec<u8> = Vec::new();
    let mut y: u32 = 0;
    while y < height
        invariant
            y <= height,
            pixels@.len() == y * width,
            forall|qx: int, qy: int| 0 <= qx < width && 0 <= qy < y ==> #[trigger] pixels@[pixel_offset(width, qx, qy)] == blur_at(*img, qx, qy, radius as int),
        decreases height - y,
    {
        let mut x: u32 = 0;
        while x < width
            invariant
                y < height,
                x <= width,
                pixels@.len() == y * width + x,
                forall|qx: int, qy: int| 0 <= qx < width && 0 <= qy < y ==> #[trigger] pixels@[pixel_offset(width, qx, qy)] == blur_at(*img, qx, qy, radius as int),
                forall|qx: int| 0 <= qx < x ==> #[trigger] pixels@[pixel_offset(width, qx, y as int)] == blur_at(*img, qx, y as int, radius as int),
            decreases width - x,
        {
            let lo: u32 = if y >= radius { y - radius } else { 0 };
            let hi: u32 = if (y as u64) + (radius as u64) <= (height as u64) - 1 { y + radius } else { height - 1 };
            let mut sum: u64 = 0;
            let mut ny: u32 = lo;
            while ny <= hi
                invariant
                    lo <= ny <= hi + 1,
                    hi < height,
                    sum == col_sum(horizontal, x as int, lo as int, ny as int),
                    sum <= 255 * (ny - lo),
                decreases hi + 1 - ny,
            {
                sum = sum + horizontal.get(x, ny) as u64;
                ny = ny + 1;
            }
            let count: u64 = (hi - lo + 1) as u64;
            proof {
                lemma_mean_is_byte(sum as int, count as int);
                lemma_col_sum_of_pass(horizontal, *img, x as int, lo as int, hi + 1, radius as int);
            }
            let ghost before = pixels@;
            pixels.push((sum / count) as u8);
            proof {
                assert(pixel_offset(width, x as int, y as int) == y * width + x);
                assert forall|qx: int, qy: int| 0 <= qx < width && 0 <= qy < y implies #[trigger] pixels@[pixel_offset(width, qx, qy)] == blur_at(*img, qx, qy, radius as int) by {
                    assert(pixel_offset(width, qx, qy) < y * width) by (nonlinear_arith)
                        requires
                            0 <= qx < width,
                            0 <= qy < y,
                    ;
                    assert(pixels@[pixel_offset(width, qx, qy)] == before[pixel_offset(width, qx, qy)]);
                }
                assert forall|qx: int| 0 <= qx < x + 1 implies #[trigger] pixels@[pixel_offset(width, qx, y as int)] == blur_at(*img, qx, y as int, radius as int) by {
                    if qx < x {
                        assert(pixels@[pixel_offset(width, qx, y as int)] == before[pixel_offset(width, qx, y as int)]);
                    }
                }
            }
            x = x + 1;
        }
        assert((y + 1) * width == y * width + width) by (nonlinear_arith);
        y = y + 1;
    }
    let out = GrayPixels { width, height, pixels };
    assert(height * width == width * height) by (nonlinear_arith);
    out
}

} // verus!
