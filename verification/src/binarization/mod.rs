//! Binarization support that is pure integer arithmetic.

pub mod histogram;
pub mod integral;
pub mod sauvola;
