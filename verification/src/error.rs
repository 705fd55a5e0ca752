//! The crate-wide error type.

use vstd::prelude::*;

verus! {

/// Errors raised by the processing core. Each variant carries a short
/// human-readable explanation.
#[derive(Debug, Clone, PartialEq, Eq)]
pub enum CoreError {
    InvalidParameter(String),
    InvalidRoi(String),
    BenchmarkDimensionMismatch(String),
    ResourceLimitExceeded(String),
    InvalidDocument(String),
    InvalidDocumentPackage(String),
    InvalidProfile(String),
    UnsupportedBenchmarkSchema(String),
    InvalidPageGeometry(String),
    DestinationConflict(String),
    Cancelled,
}

/// The result type used throughout the core.
pub type Result<T> = core::result::Result<T, CoreError>;

} // verus!
