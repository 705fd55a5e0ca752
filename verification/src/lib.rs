//! Processing core for M PDF Processor: the verified logic of the
//! bilevel-PDF pipeline, the benchmark metrics, the document package
//! rules, the bookmark compiler and the job protocol.

use vstd::prelude::*;

pub mod benchmark;
pub mod benchmark_fixtures;
pub mod chunks;
pub mod binarization;
pub mod bookmarks;
pub mod cleanup;
pub mod derived;
pub mod digest;
pub mod document;
pub mod document_package;
pub mod error;
pub mod gray;
pub mod jobs;
pub mod mask;
pub mod overlay;
pub mod page_geometry;
pub mod review_queue;
pub mod sorting;
pub mod text;

verus! {

/// The human-readable project name.
pub const PROJECT_NAME: &'static str = "M PDF Processor";

/// Static information about the project, exposed to front ends so they can
/// display a consistent identity without hardcoding it themselves.
#[derive(Debug, Clone, PartialEq, Eq)]
pub struct ProjectInfo {
    pub name: &'static str,
    pub phase: &'static str,
}

impl ProjectInfo {
    /// Returns the current [`ProjectInfo`] for this build of the core.
    pub fn current() -> (info: Self)
        ensures
            info.name@ == "M PDF Processor"@,
            info.phase@ == "Phase 1 — under development"@,
    {
        Self { name: PROJECT_NAME, phase: "Phase 1 — under development" }
    }
}

} // verus!
