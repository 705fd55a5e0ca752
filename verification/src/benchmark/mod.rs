//! Ground-truth binarization-fidelity benchmarking: metrics, regions of
//! interest, run profiles and the synthetic fixture generator.

pub mod limits;
pub mod metrics;
pub mod profile;
pub mod roi;
