//! Visible page geometry, in thousandths of a PDF point.

use vstd::prelude::*;

use crate::error::{CoreError, Result};

verus! {

/// The visible size of a page, with any `/Rotate` already applied, in
/// thousandths of a PDF point (1/72 inch).
#[derive(Debug, Clone, Copy, PartialEq, Eq, Structural)]
pub struct PageGeometry {
    pub width_millipoints: u32,
    pub height_millipoints: u32,
}

impl PageGeometry {
    /// A page geometry; both sides must be positive.
    pub fn new(width_millipoints: u32, height_millipoints: u32) -> (r: Result<Self>)
        ensures
            r is Ok <==> width_millipoints > 0 && height_millipoints > 0,
            r matches Ok(g) ==> g.width_millipoints == width_millipoints && g.height_millipoints
                == height_millipoints,
            r is Err ==> r->Err_0 is InvalidPageGeometry,
    {
        if width_millipoints == 0 || height_millipoints == 0 {
            return Err(CoreError::InvalidPageGeometry("page sides must be positive".to_owned()));
        }
        Ok(PageGeometry { width_millipoints, height_millipoints })
    }
}

/// The `/Rotate` value a source page declares.
#[derive(Debug, Clone, Copy, PartialEq, Eq, Structural)]
pub enum PageRotation {
    Degrees0,
    Degrees90,
    Degrees180,
    Degrees270,
}

} // verus!
