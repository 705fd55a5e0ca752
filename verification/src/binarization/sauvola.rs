//! Sauvola window sizing.

use vstd::prelude::*;

verus! {

/// The window a DPI asks for: `round(dpi * 0.08)`, clamped to 15..=75 and
/// moved up to the next odd number when even. The rounding is done in
/// integers: `dpi * 8 / 100` never ends in exactly one half, so
/// `(dpi * 8 + 50) / 100` is the nearest integer.
pub open spec fn window_for_dpi(dpi: u16) -> u32 {
    let raw = (dpi * 8 + 50) / 100;
    let clamped = if raw < 15 {
        15
    } else if raw > 75 {
        75
    } else {
        raw
    };
    if clamped % 2 == 0 {
        (clamped + 1) as u32
    } else {
        clamped as u32
    }
}

/// Derives an odd Sauvola window size from the output DPI.
pub fn sauvola_window_for_dpi(dpi: u16) -> (w: u32)
    ensures
        w == window_for_dpi(dpi),
        w % 2 == 1,
        15 <= w <= 75,
{
    let raw: u32 = ((dpi as u32) * 8 + 50) / 100;
    let clamped = if raw < 15 {
        15
    } else if raw > 75 {
        75
    } else {
        raw
    };
    if clamped % 2 == 0 {
        clamped + 1
    } else {
        clamped
    }
}

} // verus!
