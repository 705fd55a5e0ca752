//! The auditable generation report written next to a bookmark snapshot:
//! which front pages were scanned, which looked like a printed contents
//! list and on what signals, how printed labels mapped onto physical pages,
//! and which reason codes kept entries from automatic confirmation.
//!
//! Maps are held as lists of key/value pairs in key order, each key once.

use vstd::prelude::*;

use super::model::{GenerationMode, GenerationStatus, REPORT_SCHEMA, REPORT_SCHEMA_VERSION};
use crate::digest::{hex_of, sha256, sha256_hex};
use crate::error::{CoreError, Result};
use crate::text::{is_digest, is_digest_str, str_eq};

verus! {

broadcast use vstd::string::group_string_axioms;

#[derive(Debug, Clone, PartialEq, Eq)]
pub struct OcrProvenanceSummary {
    pub route: String,
    pub engine: Option<String>,
    pub model: Option<String>,
    pub version: Option<String>,
    pub execution_location: Option<String>,
    pub page_count: u32,
}

#[derive(Debug, Clone, PartialEq, Eq)]
pub struct TocPageReport {
    pub page_id: String,
    pub page_index: u32,
    pub score: u32,
    pub signals: Vec<(String, u32)>,
    pub parsed_entries: u32,
    /// Line references behind the decision, not just a page number.
    pub keyword_line_ids: Vec<String>,
    pub entry_line_ids: Vec<String>,
}

#[derive(Debug, Clone, PartialEq, Eq)]
pub struct MappingSegmentReport {
    pub numbering_family: String,
    pub segment_index: u32,
    pub offset: i64,
    pub anchor_count: u32,
    pub first_printed_number: u32,
    pub last_printed_number: u32,
    pub residual_min: i64,
    pub residual_max: i64,
}

#[derive(Debug, Clone, PartialEq, Eq)]
pub struct BookmarkGenerationReport {
    pub schema: String,
    pub schema_version: String,
    pub source_digest: String,
    pub package_digest: String,
    pub ocr_digest: Option<String>,
    pub derived_digest: Option<String>,
    pub revision_digest: Option<String>,
    pub rule_config_digest: String,
    pub rule_version: String,
    pub mode: GenerationMode,
    pub status: GenerationStatus,
    pub safe_refusal_reason: Option<String>,
    pub ocr_provenance: Vec<OcrProvenanceSummary>,
    pub front_page_limit: u32,
    pub scanned_front_pages: u32,
    pub toc_pages: Vec<TocPageReport>,
    pub parsed_entries: u32,
    pub auto_confirmed: u32,
    pub needs_review: u32,
    pub skipped: u32,
    pub reason_code_counts: Vec<(String, u32)>,
    pub mapping_segments: Vec<MappingSegmentReport>,
    pub truncated: bool,
    pub truncation_reasons: Vec<String>,
    /// Inverted-index work actually performed.
    pub shortlist_postings_visited: u64,
    pub body_lines_indexed: u64,
    pub generation_digest: String,
    pub report_digest: String,
}

/// An optional digest is absent or a lowercase SHA-256 digest.
pub open spec fn opt_digest_ok(d: Option<String>) -> bool {
    match d {
        Some(s) => is_digest(s@),
        None => true,
    }
}

pub(crate) fn opt_digest(d: &Option<String>) -> (b: bool)
    ensures
        b == opt_digest_ok(*d),
{
    match d {
        Some(s) => is_digest_str(s.as_str()),
        None => true,
    }
}

/// The report's fields on their own: known schema, digests in form, a rule
/// version, and bounded lists.
pub open spec fn report_fields_ok(r: BookmarkGenerationReport) -> bool {
    &&& r.schema@ == REPORT_SCHEMA@
    &&& r.schema_version@ == REPORT_SCHEMA_VERSION@
    &&& is_digest(r.source_digest@)
    &&& is_digest(r.package_digest@)
    &&& is_digest(r.rule_config_digest@)
    &&& is_digest(r.generation_digest@)
    &&& opt_digest_ok(r.ocr_digest)
    &&& opt_digest_ok(r.derived_digest)
    &&& opt_digest_ok(r.revision_digest)
    &&& r.rule_version@.len() > 0
    &&& r.toc_pages@.len() <= 10_000
    &&& r.mapping_segments@.len() <= 10_000
    &&& r.reason_code_counts@.len() <= 256
    &&& r.truncation_reasons@.len() <= 64
}

/// Why a report is refused, given the canonical JSON bytes of the report
/// with an empty `report_digest`, if it is.
pub open spec fn report_fault(r: BookmarkGenerationReport, canonical: Seq<u8>) -> Option<Seq<char>> {
    if !report_fields_ok(r) {
        Some("invalid bookmark generation report"@)
    } else if r.status == GenerationStatus::SafeRefusal && r.safe_refusal_reason is None {
        Some("a safe refusal must state its reason"@)
    } else if r.mode == GenerationMode::TocAligned && r.ocr_digest is None {
        Some("an aligned report must bind its OCR digest"@)
    } else if r.report_digest@ != hex_of(sha256(canonical)) {
        Some("bookmark report digest does not match contents"@)
    } else {
        None
    }
}

pub(crate) fn invalid_document(m: &str) -> (r: Result<()>)
    ensures
        r matches Err(CoreError::InvalidDocument(e)) && e@ == m@,
{
    Err(CoreError::InvalidDocument(m.to_owned()))
}

impl BookmarkGenerationReport {
    /// Checks the report. `canonical` is the compact JSON text of the
    /// report with `report_digest` emptied, whose SHA-256 the report must
    /// carry.
    pub fn validate(&self, canonical: &[u8]) -> (r: Result<()>)
        ensures
            r is Ok <==> report_fault(*self, canonical@) is None,
            report_fault(*self, canonical@) matches Some(m) ==> (r matches Err(
                CoreError::InvalidDocument(e),
            ) && e@ == m),
    {
        if !str_eq(self.schema.as_str(), REPORT_SCHEMA) || !str_eq(
            self.schema_version.as_str(),
            REPORT_SCHEMA_VERSION,
        ) || !is_digest_str(self.source_digest.as_str()) || !is_digest_str(
            self.package_digest.as_str(),
        ) || !is_digest_str(self.rule_config_digest.as_str()) || !is_digest_str(
            self.generation_digest.as_str(),
        ) || !opt_digest(&self.ocr_digest) || !opt_digest(&self.derived_digest) || !opt_digest(
            &self.revision_digest,
        ) || self.rule_version.as_str().is_empty() || self.toc_pages.len() > 10_000
            || self.mapping_segments.len() > 10_000 || self.reason_code_counts.len() > 256
            || self.truncation_reasons.len() > 64 {
            return invalid_document("invalid bookmark generation report");
        }
        if self.status == GenerationStatus::SafeRefusal && self.safe_refusal_reason.is_none() {
            return invalid_document("a safe refusal must state its reason");
        }
        if self.mode == GenerationMode::TocAligned && self.ocr_digest.is_none() {
            return invalid_document("an aligned report must bind its OCR digest");
        }
        let digest = sha256_hex(canonical);
        if !str_eq(self.report_digest.as_str(), digest.as_str()) {
            return invalid_document("bookmark report digest does not match contents");
        }
        Ok(())
    }
}

} // verus!
