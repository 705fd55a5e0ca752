//! Bookmark snapshot and review records: statuses, generation modes, the
//! integer confidence breakdown and the append-only review store.

use vstd::prelude::*;

use crate::error::{CoreError, Result};
use crate::text::{is_digest, is_digest_str, str_eq};

verus! {

pub const BOOKMARK_SCHEMA: &'static str = "mpdf-bookmarks";
pub const BOOKMARK_SCHEMA_VERSION: &'static str = "0.1";
/// The schema every new generation writes.
pub const BOOKMARK_SCHEMA_VERSION_V2: &'static str = "0.2";
pub const MAX_CANDIDATES: usize = 100_000;
pub const MAX_REVIEWS: usize = 100_000;
pub const MAX_TOC_ENTRIES: usize = 10_000;
/// Longest accepted bookmark title, in bytes.
pub const MAX_TITLE_BYTES: usize = 4096;
pub const REPORT_SCHEMA: &'static str = "mpdf-bookmark-generation-report";
pub const REPORT_SCHEMA_VERSION: &'static str = "0.1";
pub const REVIEW_SCHEMA: &'static str = "mpdf-bookmark-reviews";

#[derive(Debug, Clone, PartialEq, Eq)]
pub struct GeneratorProvenance {
    pub kind: String,
    pub name: String,
    pub version: String,
}

#[derive(Debug, Clone, PartialEq, Eq)]
pub struct OutlineEvidence {
    pub title: String,
    pub level: u16,
    pub target_page_id: Option<String>,
    pub source: String,
}

#[derive(Debug, Clone, Copy, PartialEq, Eq, Structural)]
pub enum BookmarkStatus {
    Proposed,
    NeedsReview,
    Confirmed,
    Rejected,
    /// Produced only by the frozen deterministic gate; written into the PDF
    /// outline like `Confirmed`, but never the result of a human review.
    AutoConfirmed,
    /// Retained for audit: evidence exists but is too weak to propose.
    Skipped,
}

impl BookmarkStatus {
    /// Statuses the searchable-PDF writer materializes into the outline.
    pub fn writes_to_pdf(self) -> (b: bool)
        ensures
            b == (self == BookmarkStatus::Confirmed || self == BookmarkStatus::AutoConfirmed),
    {
        matches!(self, BookmarkStatus::Confirmed | BookmarkStatus::AutoConfirmed)
    }

    /// Statuses introduced by bookmark snapshot 0.2.
    pub fn requires_v2(self) -> (b: bool)
        ensures
            b == (self == BookmarkStatus::AutoConfirmed || self == BookmarkStatus::Skipped),
    {
        matches!(self, BookmarkStatus::AutoConfirmed | BookmarkStatus::Skipped)
    }
}

/// How a snapshot was produced.
#[derive(Debug, Clone, Copy, PartialEq, Eq, Structural)]
pub enum GenerationMode {
    ExistingOutline,
    TocAligned,
    SafeRefusal,
}

impl GenerationMode {
    pub fn as_str(self) -> (s: &'static str)
        ensures
            self == GenerationMode::ExistingOutline ==> s@ == "existing_outline"@,
            self == GenerationMode::TocAligned ==> s@ == "toc_aligned"@,
            self == GenerationMode::SafeRefusal ==> s@ == "safe_refusal"@,
    {
        match self {
            GenerationMode::ExistingOutline => "existing_outline",
            GenerationMode::TocAligned => "toc_aligned",
            GenerationMode::SafeRefusal => "safe_refusal",
        }
    }
}

/// The overall business result of one generation.
#[derive(Debug, Clone, Copy, PartialEq, Eq, Structural)]
pub enum GenerationStatus {
    AutoConfirmed,
    NeedsReview,
    SafeRefusal,
}

impl GenerationStatus {
    pub fn as_str(self) -> (s: &'static str)
        ensures
            self == GenerationStatus::AutoConfirmed ==> s@ == "auto_confirmed"@,
            self == GenerationStatus::NeedsReview ==> s@ == "needs_review"@,
            self == GenerationStatus::SafeRefusal ==> s@ == "safe_refusal"@,
    {
        match self {
            GenerationStatus::AutoConfirmed => "auto_confirmed",
            GenerationStatus::NeedsReview => "needs_review",
            GenerationStatus::SafeRefusal => "safe_refusal",
        }
    }
}

/// Integer score components, 0..=10,000 in total.
#[derive(Debug, Clone, Copy, PartialEq, Eq, Structural)]
pub struct ConfidenceBreakdown {
    pub title_match: u32,
    pub page_mapping: u32,
    pub numbering_hierarchy: u32,
    pub body_layout: u32,
    pub ocr_quality: u32,
    pub sequence_uniqueness: u32,
    pub total: u32,
}

impl ConfidenceBreakdown {
    /// Every component is within its ceiling and the total is their sum.
    pub open spec fn consistent(&self) -> bool {
        &&& self.title_match <= 4000
        &&& self.page_mapping <= 2000
        &&& self.numbering_hierarchy <= 1000
        &&& self.body_layout <= 1000
        &&& self.ocr_quality <= 1000
        &&& self.sequence_uniqueness <= 1000
        &&& self.total == self.title_match + self.page_mapping + self.numbering_hierarchy
            + self.body_layout + self.ocr_quality + self.sequence_uniqueness
    }

    pub fn is_consistent(&self) -> (b: bool)
        ensures
            b == self.consistent(),
    {
        if self.title_match <= 4000 && self.page_mapping <= 2000 && self.numbering_hierarchy
            <= 1000 && self.body_layout <= 1000 && self.ocr_quality <= 1000
            && self.sequence_uniqueness <= 1000 {
            self.total == self.title_match + self.page_mapping + self.numbering_hierarchy
                + self.body_layout + self.ocr_quality + self.sequence_uniqueness
        } else {
            false
        }
    }
}

/// Provenance of an automatic decision, kept even after a human overrides it.
#[derive(Debug, Clone, PartialEq, Eq)]
pub struct AutomaticDecision {
    pub decided_status: String,
    pub reason: String,
    pub rule_version: String,
    pub rule_config_digest: String,
}

#[derive(Debug, Clone, PartialEq, Eq)]
pub struct ReviewOperation {
    pub operation_id: String,
    pub candidate_id: String,
    pub operation: ReviewAction,
}

#[derive(Debug, Clone, PartialEq, Eq)]
pub enum ReviewAction {
    Confirm,
    Reject,
    Edit { title: String },
    Reparent { parent_id: Option<String>, level: u16 },
}

#[derive(Debug, Clone, PartialEq, Eq)]
pub struct BookmarkReviews {
    pub schema: String,
    pub schema_version: String,
    pub base_generation_digest: String,
    pub operations: Vec<ReviewOperation>,
}

/// One of the two readable bookmark schema versions.
pub open spec fn known_schema_version(v: Seq<char>) -> bool {
    v == BOOKMARK_SCHEMA_VERSION@ || v == BOOKMARK_SCHEMA_VERSION_V2@
}

pub fn is_known_schema_version(v: &str) -> (b: bool)
    ensures
        b == known_schema_version(v@),
{
    str_eq(v, BOOKMARK_SCHEMA_VERSION) || str_eq(v, BOOKMARK_SCHEMA_VERSION_V2)
}

impl BookmarkReviews {
    /// A review store with no operations, bound to `base`.
    pub fn empty(base: String) -> (r: Self)
        ensures
            r.schema@ == REVIEW_SCHEMA@,
            r.schema_version@ == BOOKMARK_SCHEMA_VERSION@,
            r.base_generation_digest == base,
            r.operations@.len() == 0,
    {
        BookmarkReviews {
            schema: REVIEW_SCHEMA.to_owned(),
            schema_version: BOOKMARK_SCHEMA_VERSION.to_owned(),
            base_generation_digest: base,
            operations: Vec::new(),
        }
    }

    /// The rules a stored review file must satisfy.
    pub open spec fn valid(&self) -> bool {
        &&& self.schema@ == REVIEW_SCHEMA@
        &&& known_schema_version(self.schema_version@)
        &&& is_digest(self.base_generation_digest@)
        &&& self.operations@.len() <= MAX_REVIEWS
        &&& forall|i: int|
            0 <= i < self.operations@.len() ==> #[trigger] self.operations@[i].operation_id@.len()
                > 0 && self.operations@[i].candidate_id@.len() > 0
        &&& forall|i: int, j: int|
            0 <= i < j < self.operations@.len() ==> #[trigger] self.operations@[i].operation_id@
                != #[trigger] self.operations@[j].operation_id@
    }

    pub fn validate(&self) -> (r: Result<()>)
        ensures
            r is Ok <==> self.valid(),
            r is Err ==> r->Err_0 is InvalidDocument,
    {
        if !str_eq(self.schema.as_str(), REVIEW_SCHEMA) || !is_known_schema_version(
            self.schema_version.as_str(),
        ) || !is_digest_str(self.base_generation_digest.as_str()) || self.operations.len()
            > MAX_REVIEWS {
            return Err(CoreError::InvalidDocument("invalid bookmark review store".to_owned()));
        }
        let mut i: usize = 0;
        while i < self.operations.len()
            invariant
                i <= self.operations@.len(),
                forall|k: int|
                    0 <= k < i ==> #[trigger] self.operations@[k].operation_id@.len() > 0
                        && self.operations@[k].candidate_id@.len() > 0,
                forall|k: int, j: int|
                    0 <= k < j < i ==> #[trigger] self.operations@[k].operation_id@
                        != #[trigger] self.operations@[j].operation_id@,
            decreases self.operations.len() - i,
        {
            let op = &self.operations[i];
            if op.operation_id.as_str().is_empty() || op.candidate_id.as_str().is_empty() {
                proof {
                    assert(op.operation_id@.len() == 0 || op.candidate_id@.len() == 0);
                }
                return Err(CoreError::InvalidDocument("invalid bookmark review operation".to_owned()));
            }
            let mut j: usize = 0;
            while j < i
                invariant
                    i < self.operations@.len(),
                    j <= i,
                    forall|k: int|
                        0 <= k < j ==> self.operations@[k].operation_id@
                            != #[trigger] self.operations@[i as int].operation_id@,
                decreases i - j,
            {
                if str_eq(self.operations[j].operation_id.as_str(), self.operations[i].operation_id.as_str()) {
                    return Err(CoreError::InvalidDocument("invalid bookmark review operation".to_owned()));
                }
                j = j + 1;
            }
            i = i + 1;
        }
        Ok(())
    }
}

} // verus!
