//! Resource limits for untrusted benchmark manifests.

use vstd::prelude::*;

verus! {

/// Maximum number of `[[pages]]` entries a dataset manifest may declare.
pub const MAX_DATASET_PAGES: usize = 10_000;

/// Maximum width or height, in pixels, of a benchmark image.
pub const MAX_IMAGE_DIMENSION: u32 = 20_000;

/// Maximum total pixel count of a benchmark image.
pub const MAX_IMAGE_PIXELS: u64 = 200_000_000;

/// Maximum number of `[[pages.rois]]` entries per page.
pub const MAX_ROIS_PER_PAGE: usize = 64;

/// Maximum number of `[[runs]]` entries a benchmark profile may declare.
pub const MAX_PROFILE_RUNS: usize = 256;

} // verus!
