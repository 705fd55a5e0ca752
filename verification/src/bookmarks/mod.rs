//! Automatic, auditable bookmark (outline) compilation from a printed table
//! of contents, and the bookmark review model.

pub mod against;
pub mod align;
pub mod compile;
pub mod config;
pub mod engine;
pub mod furniture;
pub mod generation;
pub mod heading;
pub mod hierarchy;
pub mod ids;
pub mod mapping;
pub mod outline;
pub mod model;
pub mod report;
pub mod review;
pub mod scoring;
pub mod selection;
pub mod snapshot;
pub mod tally;
pub mod text_index;
pub mod toc_detect;
pub mod toc_group;
pub mod toc_parse;
