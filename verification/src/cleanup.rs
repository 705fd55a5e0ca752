//! Optional post-binarization cleanup settings. Despeckling removes small
//! isolated black components; it defaults to off, because small
//! punctuation and diacritics look like noise at the pixel level.

use vstd::prelude::*;

verus! {

/// How aggressively to despeckle after binarization.
#[derive(Debug, Clone, Copy, PartialEq, Eq, Structural)]
pub enum DespeckleLevel {
    /// No despeckling (the default).
    Off,
    /// Removes only very small components, aimed at sensor dust.
    Conservative,
    /// Removes a wider range of small components; may remove some
    /// diacritics, dots or thin serifs.
    Strong,
}

impl Default for DespeckleLevel {
    fn default() -> (l: Self)
        ensures
            l == DespeckleLevel::Off,
    {
        DespeckleLevel::Off
    }
}

/// Settings controlling the despeckle cleanup step.
#[derive(Debug, Clone, Copy, PartialEq, Eq, Structural)]
pub struct CleanupSettings {
    pub despeckle: DespeckleLevel,
    /// Overrides the component pixel-count limit implied by `despeckle`;
    /// `None` uses the level's built-in default.
    pub max_component_pixels: Option<u32>,
}

impl Default for CleanupSettings {
    fn default() -> (s: Self)
        ensures
            s.despeckle == DespeckleLevel::Off,
            s.max_component_pixels is None,
    {
        CleanupSettings { despeckle: DespeckleLevel::Off, max_component_pixels: None }
    }
}

} // verus!
