//! Structural checks of a stored bookmark snapshot, and of its references
//! into the document package, for readers that must fail closed.
//!
//! A snapshot candidate is held here by the plain values the checks read.
//! Its floating-point fields (the confidence and the master bbox) are
//! judged by the caller, which hands in the two verdicts.

use vstd::prelude::*;

use crate::bookmarks::model::{
    BookmarkStatus, ConfidenceBreakdown, GenerationMode, GeneratorProvenance,
    known_schema_version, is_known_schema_version, BOOKMARK_SCHEMA, BOOKMARK_SCHEMA_VERSION_V2,
    MAX_CANDIDATES, MAX_TITLE_BYTES,
};
use crate::bookmarks::report::{invalid_document, opt_digest, opt_digest_ok};
use crate::digest::{hex_of, sha256, sha256_hex};
use crate::error::{CoreError, Result};
use crate::text::{
    chars_of, is_digest, is_digest_str, str_eq, trim_ws, trimmed, utf8_len, utf8_len_at_most,
};

verus! {

/// The kind of generator that writes automatic bookmarks.
pub const GENERATOR_KIND: &'static str = "deterministic_rules";
pub const GENERATOR_NAME: &'static str = "mpdf-bookmarks";
pub const GENERATOR_VERSION: &'static str = "0.1";
pub const GENERATOR_VERSION_V2: &'static str = "0.2";

/// What the checks read of one stored bookmark candidate.
#[derive(Debug, Clone)]
pub struct SnapshotCandidate {
    pub candidate_id: String,
    pub source_title: String,
    pub effective_title: String,
    pub effective_level: u16,
    pub effective_parent_id: Option<String>,
    pub target_page_id: String,
    pub physical_page_index: u32,
    pub status: BookmarkStatus,
    pub generator: GeneratorProvenance,
    pub reason_codes: Vec<String>,
    pub rule_trace: Vec<String>,
    pub confidence_breakdown: Option<ConfidenceBreakdown>,
    pub has_alignment_evidence: bool,
    pub has_automatic_decision: bool,
    /// The page named by each evidence reference, in order.
    pub evidence_page_ids: Vec<String>,
    /// Whether the confidence is a finite number in `0..=1`.
    pub confidence_in_range: bool,
    /// Whether the master bbox, when there is one, is finite.
    pub bbox_finite: bool,
}

/// What the checks read of a stored bookmark snapshot.
#[derive(Debug, Clone)]
pub struct SnapshotRecord {
    pub schema: String,
    pub schema_version: String,
    pub source_digest: String,
    pub package_digest: String,
    pub derived_digest: Option<String>,
    pub generator: GeneratorProvenance,
    pub candidates: Vec<SnapshotCandidate>,
    pub generation_digest: String,
    pub ocr_digest: Option<String>,
    pub revision_digest: Option<String>,
    pub rule_config_digest: Option<String>,
    pub rule_version: Option<String>,
    pub generation_mode: Option<GenerationMode>,
}

/// A record that uses a field or status introduced by schema 0.2.
pub open spec fn v2_shaped(c: SnapshotCandidate) -> bool {
    ||| c.status == BookmarkStatus::AutoConfirmed
    ||| c.status == BookmarkStatus::Skipped
    ||| c.confidence_breakdown is Some
    ||| c.has_alignment_evidence
    ||| c.has_automatic_decision
}

impl SnapshotCandidate {
    pub fn is_v2_shaped(&self) -> (b: bool)
        ensures
            b == v2_shaped(*self),
    {
        self.status.requires_v2() || self.confidence_breakdown.is_some()
            || self.has_alignment_evidence || self.has_automatic_decision
    }
}

/// The first rule a candidate breaks, as its message.
pub open spec fn candidate_fault(c: SnapshotCandidate) -> Option<Seq<char>> {
    if c.confidence_breakdown matches Some(b) && !b.consistent() {
        Some("bookmark confidence breakdown is inconsistent"@)
    } else if c.status == BookmarkStatus::AutoConfirmed && (c.confidence_breakdown is None
        || !c.has_automatic_decision) {
        Some("an automatically confirmed bookmark must carry its decision provenance"@)
    } else if utf8_len(c.source_title@) > MAX_TITLE_BYTES || utf8_len(c.effective_title@)
        > MAX_TITLE_BYTES {
        Some("bookmark title exceeds its byte limit"@)
    } else if c.candidate_id@.len() == 0 || trim_ws(c.source_title@).len() == 0 || trim_ws(
        c.effective_title@,
    ).len() == 0 || c.target_page_id@.len() == 0 || c.effective_level > 64
        || !c.confidence_in_range || c.evidence_page_ids@.len() == 0 || exists|i: int|
        0 <= i < c.evidence_page_ids@.len() && (#[trigger] c.evidence_page_ids@[i])@.len() == 0 {
        Some("invalid bookmark candidate or unresolved evidence"@)
    } else if !c.bbox_finite {
        Some("invalid bookmark bbox"@)
    } else if (c.status == BookmarkStatus::Confirmed || c.status == BookmarkStatus::AutoConfirmed)
        && c.generator.kind@ == "ai_suggestion"@ {
        Some("AI suggestions cannot be confirmed"@)
    } else {
        None
    }
}

fn blank(s: &str) -> (b: bool)
    ensures
        b == (trim_ws(s@).len() == 0),
{
    let v = chars_of(s);
    trimmed(v.as_slice()).len() == 0
}

impl SnapshotCandidate {
    /// Checks one candidate on its own.
    pub fn validate(&self) -> (r: Result<()>)
        ensures
            r is Ok <==> candidate_fault(*self) is None,
            candidate_fault(*self) matches Some(m) ==> (r matches Err(
                CoreError::InvalidDocument(e),
            ) && e@ == m),
    {
        if let Some(b) = &self.confidence_breakdown {
            if !b.is_consistent() {
                return invalid_document("bookmark confidence breakdown is inconsistent");
            }
        }
        if self.status == BookmarkStatus::AutoConfirmed && (self.confidence_breakdown.is_none()
            || !self.has_automatic_decision) {
            return invalid_document(
                "an automatically confirmed bookmark must carry its decision provenance",
            );
        }
        if !utf8_len_at_most(self.source_title.as_str(), MAX_TITLE_BYTES) || !utf8_len_at_most(
            self.effective_title.as_str(),
            MAX_TITLE_BYTES,
        ) {
            return invalid_document("bookmark title exceeds its byte limit");
        }
        let mut unresolved = false;
        let mut i: usize = 0;
        while i < self.evidence_page_ids.len()
            invariant
                i <= self.evidence_page_ids@.len(),
                unresolved == exists|k: int|
                    0 <= k < i && (#[trigger] self.evidence_page_ids@[k])@.len() == 0,
            decreases self.evidence_page_ids.len() - i,
        {
            if self.evidence_page_ids[i].as_str().is_empty() {
                unresolved = true;
            }
            i = i + 1;
        }
        if self.candidate_id.as_str().is_empty() || blank(self.source_title.as_str()) || blank(
            self.effective_title.as_str(),
        ) || self.target_page_id.as_str().is_empty() || self.effective_level > 64
            || !self.confidence_in_range || self.evidence_page_ids.len() == 0 || unresolved {
            return invalid_document("invalid bookmark candidate or unresolved evidence");
        }
        if !self.bbox_finite {
            return invalid_document("invalid bookmark bbox");
        }
        if (self.status == BookmarkStatus::Confirmed || self.status == BookmarkStatus::AutoConfirmed)
            && str_eq(self.generator.kind.as_str(), "ai_suggestion") {
            return invalid_document("AI suggestions cannot be confirmed");
        }
        Ok(())
    }
}

/// The snapshot's own fields: known schema, bounded size, digests in form,
/// and a named generator.
pub open spec fn snapshot_fields_ok(s: SnapshotRecord) -> bool {
    &&& s.schema@ == BOOKMARK_SCHEMA@
    &&& known_schema_version(s.schema_version@)
    &&& s.candidates@.len() <= MAX_CANDIDATES
    &&& is_digest(s.source_digest@)
    &&& is_digest(s.package_digest@)
    &&& opt_digest_ok(s.derived_digest)
    &&& opt_digest_ok(s.ocr_digest)
    &&& opt_digest_ok(s.revision_digest)
    &&& opt_digest_ok(s.rule_config_digest)
    &&& s.generator.kind@.len() > 0
    &&& s.generator.name@.len() > 0
    &&& s.generator.version@.len() > 0
}

/// The fault of the candidate at `i`: its own, or an earlier candidate with
/// the same ID.
pub open spec fn entry_fault(cs: Seq<SnapshotCandidate>, i: int) -> Option<Seq<char>> {
    if candidate_fault(cs[i]) is Some {
        candidate_fault(cs[i])
    } else if exists|j: int| 0 <= j < i && (#[trigger] cs[j]).candidate_id@ == cs[i].candidate_id@ {
        Some("duplicate bookmark candidate ID"@)
    } else {
        None
    }
}

/// The first fault among the first `n` candidates.
pub open spec fn candidates_fault(cs: Seq<SnapshotCandidate>, n: int) -> Option<Seq<char>>
    decreases n,
{
    if n <= 0 {
        None
    } else {
        match candidates_fault(cs, n - 1) {
            Some(m) => Some(m),
            None => entry_fault(cs, n - 1),
        }
    }
}

/// The first rule a snapshot breaks, given the compact JSON text of the
/// snapshot with its generation digest emptied.
pub open spec fn snapshot_fault(s: SnapshotRecord, canonical: Seq<u8>) -> Option<Seq<char>> {
    let v2 = s.schema_version@ == BOOKMARK_SCHEMA_VERSION_V2@;
    if !snapshot_fields_ok(s) {
        Some("invalid bookmark snapshot"@)
    } else if v2 && (s.rule_config_digest is None || (match s.rule_version {
        Some(v) => v@.len() == 0,
        None => true,
    }) || s.generation_mode is None) {
        Some("bookmark snapshot 0.2 is missing its rule or mode binding"@)
    } else if v2 && s.generation_mode == Some(GenerationMode::TocAligned) && s.ocr_digest is None {
        Some("an aligned bookmark snapshot must bind its OCR digest"@)
    } else if !v2 && (s.ocr_digest is Some || s.revision_digest is Some || s.rule_config_digest is Some
        || s.rule_version is Some || s.generation_mode is Some || exists|i: int|
        0 <= i < s.candidates@.len() && v2_shaped(#[trigger] s.candidates@[i])) {
        Some("bookmark snapshot 0.1 must not contain 0.2 fields"@)
    } else if candidates_fault(s.candidates@, s.candidates@.len() as int) is Some {
        candidates_fault(s.candidates@, s.candidates@.len() as int)
    } else if s.generation_digest@.len() == 0 {
        Some("missing bookmark generation digest"@)
    } else if s.generation_digest@ != hex_of(sha256(canonical)) {
        Some("bookmark generation digest does not match contents"@)
    } else {
        None
    }
}

/// Once a prefix of the candidates has a fault, every longer prefix
/// reports the same one.
pub proof fn lemma_first_fault_sticks(cs: Seq<SnapshotCandidate>, n: int, m: int)
    requires
        0 <= n <= m,
        candidates_fault(cs, n) is Some,
    ensures
        candidates_fault(cs, m) == candidates_fault(cs, n),
    decreases m - n,
{
    if m > n {
        lemma_first_fault_sticks(cs, n, m - 1);
    }
}

impl SnapshotRecord {
    /// True for a snapshot written by the automatic contents engine.
    pub fn is_v2(&self) -> (b: bool)
        ensures
            b == (self.schema_version@ == BOOKMARK_SCHEMA_VERSION_V2@),
    {
        str_eq(self.schema_version.as_str(), BOOKMARK_SCHEMA_VERSION_V2)
    }

    /// Checks the snapshot. `canonical` is the compact JSON text of the
    /// snapshot with `generation_digest` emptied, whose SHA-256 the snapshot
    /// must carry.
    #[verifier::loop_isolation(false)]
    pub fn validate(&self, canonical: &[u8]) -> (r: Result<()>)
        ensures
            r is Ok <==> snapshot_fault(*self, canonical@) is None,
            snapshot_fault(*self, canonical@) matches Some(m) ==> (r matches Err(
                CoreError::InvalidDocument(e),
            ) && e@ == m),
    {
        if !str_eq(self.schema.as_str(), BOOKMARK_SCHEMA) || !is_known_schema_version(
            self.schema_version.as_str(),
        ) || self.candidates.len() > MAX_CANDIDATES || !is_digest_str(self.source_digest.as_str())
            || !is_digest_str(self.package_digest.as_str()) || !opt_digest(&self.derived_digest)
            || !opt_digest(&self.ocr_digest) || !opt_digest(&self.revision_digest) || !opt_digest(
            &self.rule_config_digest,
        ) || self.generator.kind.as_str().is_empty() || self.generator.name.as_str().is_empty()
            || self.generator.version.as_str().is_empty() {
            return invalid_document("invalid bookmark snapshot");
        }
        if self.is_v2() {
            let no_version = match &self.rule_version {
                Some(v) => v.as_str().is_empty(),
                None => true,
            };
            if self.rule_config_digest.is_none() || no_version || self.generation_mode.is_none() {
                return invalid_document("bookmark snapshot 0.2 is missing its rule or mode binding");
            }
            if self.generation_mode == Some(GenerationMode::TocAligned) && self.ocr_digest.is_none() {
                return invalid_document("an aligned bookmark snapshot must bind its OCR digest");
            }
        } else {
            let mut shaped = false;
            let mut i: usize = 0;
            while i < self.candidates.len()
                invariant
                    i <= self.candidates@.len(),
                    shaped == exists|k: int| 0 <= k < i && v2_shaped(#[trigger] self.candidates@[k]),
                decreases self.candidates.len() - i,
            {
                if self.candidates[i].is_v2_shaped() {
                    shaped = true;
                }
                i = i + 1;
            }
            if self.ocr_digest.is_some() || self.revision_digest.is_some()
                || self.rule_config_digest.is_some() || self.rule_version.is_some()
                || self.generation_mode.is_some() || shaped {
                return invalid_document("bookmark snapshot 0.1 must not contain 0.2 fields");
            }
        }
        let ghost cs = self.candidates@;
        let mut i: usize = 0;
        while i < self.candidates.len()
            invariant
                i <= cs.len(),
                cs == self.candidates@,
                candidates_fault(cs, i as int) is None,
            decreases self.candidates.len() - i,
        {
            let c = &self.candidates[i];
            match c.validate() {
                Err(e) => {
                    assert(entry_fault(cs, i as int) == candidate_fault(cs[i as int]));
                    assert(candidates_fault(cs, i + 1) == entry_fault(cs, i as int));
                    proof {
                        lemma_first_fault_sticks(cs, i + 1, cs.len() as int);
                    }
                    return Err(e);
                },
                Ok(()) => {},
            }
            let mut j: usize = 0;
            while j < i
                invariant
                    j <= i < cs.len(),
                    cs == self.candidates@,
                    forall|k: int| 0 <= k < j ==> (#[trigger] cs[k]).candidate_id@ != cs[i as int].candidate_id@,
                decreases i - j,
            {
                if str_eq(self.candidates[j].candidate_id.as_str(), c.candidate_id.as_str()) {
                    assert(cs[j as int].candidate_id@ == cs[i as int].candidate_id@);
                    assert(entry_fault(cs, i as int) == Some("duplicate bookmark candidate ID"@));
                    assert(candidates_fault(cs, i + 1) == entry_fault(cs, i as int));
                    proof {
                        lemma_first_fault_sticks(cs, i + 1, cs.len() as int);
                    }
                    return invalid_document("duplicate bookmark candidate ID");
                }
                j = j + 1;
            }
            assert(entry_fault(cs, i as int) is None);
            assert(candidates_fault(cs, i + 1) is None);
            i = i + 1;
        }
        if self.generation_digest.as_str().is_empty() {
            return invalid_document("missing bookmark generation digest");
        }
        let digest = sha256_hex(canonical);
        if !str_eq(self.generation_digest.as_str(), digest.as_str()) {
            return invalid_document("bookmark generation digest does not match contents");
        }
        Ok(())
    }
}

// ---------------------------------------------------------------------------
// References into the package
// ---------------------------------------------------------------------------

fn stale(m: &str) -> (r: Result<()>)
    ensures
        r matches Err(CoreError::InvalidDocument(e)) && e@ == m@,
{
    Err(CoreError::InvalidDocument(m.to_owned()))
}

/// The digest a snapshot must bind for an optional derived document.
pub open spec fn derived_binding(derived: Option<Seq<u8>>) -> Option<Seq<char>> {
    match derived {
        Some(d) => Some(hex_of(sha256(d))),
        None => None,
    }
}

/// Checks that a snapshot was generated from this package and this derived
/// document: `package_bytes` and `derived_bytes` are their compact JSON text.
pub fn check_fresh(
    snapshot: &SnapshotRecord,
    source_sha256: &str,
    package_bytes: &[u8],
    derived_bytes: Option<&[u8]>,
) -> (r: Result<()>)
    ensures
        r is Ok <==> (snapshot.source_digest@ == source_sha256@ && snapshot.package_digest@
            == hex_of(sha256(package_bytes@)) && (match snapshot.derived_digest {
            Some(d) => Some(d@),
            None => None::<Seq<char>>,
        }) == derived_binding(
            match derived_bytes {
                Some(b) => Some(b@),
                None => None,
            },
        )),
        !(snapshot.source_digest@ == source_sha256@ && snapshot.package_digest@ == hex_of(
            sha256(package_bytes@),
        )) ==> (r matches Err(CoreError::InvalidDocument(e))
            && e@ == "bookmark snapshot is stale for package"@),
        (snapshot.source_digest@ == source_sha256@ && snapshot.package_digest@ == hex_of(
            sha256(package_bytes@),
        )) && r is Err ==> (r matches Err(CoreError::InvalidDocument(e))
            && e@ == "bookmark snapshot is stale for derived document"@),
{
    let pd = sha256_hex(package_bytes);
    if !str_eq(snapshot.source_digest.as_str(), source_sha256) || !str_eq(
        snapshot.package_digest.as_str(),
        pd.as_str(),
    ) {
        return stale("bookmark snapshot is stale for package");
    }
    let same = match (&snapshot.derived_digest, derived_bytes) {
        (Some(d), Some(b)) => {
            let dd = sha256_hex(b);
            str_eq(d.as_str(), dd.as_str())
        },
        (None, None) => true,
        _ => false,
    };
    if !same {
        return stale("bookmark snapshot is stale for derived document");
    }
    Ok(())
}

/// A page of the package, by ID and physical index.
#[derive(Debug, Clone)]
pub struct PageIndexRef {
    pub page_id: String,
    pub physical_index: u32,
}

/// The physical index of the first of the first `n` pages with this ID.
pub open spec fn find_page(pages: Seq<PageIndexRef>, id: Seq<char>, n: int) -> Option<u32>
    decreases n,
{
    if n <= 0 {
        None
    } else {
        match find_page(pages, id, n - 1) {
            Some(x) => Some(x),
            None => if pages[n - 1].page_id@ == id {
                Some(pages[n - 1].physical_index)
            } else {
                None
            },
        }
    }
}

/// A reason code or rule-trace entry that is empty or over its byte limit.
pub open spec fn bad_entry(list: Seq<String>, limit: nat) -> bool {
    exists|i: int| 0 <= i < list.len() && ((#[trigger] list[i])@.len() == 0 || utf8_len(list[i]@) > limit)
}

/// The generator that may have written an automatic candidate.
pub open spec fn known_generator(g: GeneratorProvenance) -> bool {
    &&& g.kind@ == GENERATOR_KIND@
    &&& g.name@ == GENERATOR_NAME@
    &&& (g.version@ == GENERATOR_VERSION@ || g.version@ == GENERATOR_VERSION_V2@)
}

/// What is wrong with a candidate's target page or provenance, if anything.
pub open spec fn target_fault(c: SnapshotCandidate, pages: Seq<PageIndexRef>) -> Option<Seq<char>> {
    match find_page(pages, c.target_page_id@, pages.len() as int) {
        None => Some("bookmark target page is unresolved"@),
        Some(physical) => if physical != c.physical_page_index || c.reason_codes@.len() > 32
            || c.rule_trace@.len() > 128 || bad_entry(c.reason_codes@, 128) || bad_entry(
            c.rule_trace@,
            256,
        ) || !known_generator(c.generator) {
            Some("bookmark candidate provenance or target is inconsistent"@)
        } else {
            None
        },
    }
}

fn any_bad_entry(list: &Vec<String>, limit: usize) -> (b: bool)
    ensures
        b == bad_entry(list@, limit as nat),
{
    let mut i: usize = 0;
    while i < list.len()
        invariant
            i <= list@.len(),
            forall|k: int| 0 <= k < i ==> !((#[trigger] list@[k])@.len() == 0 || utf8_len(list@[k]@) > limit),
        decreases list.len() - i,
    {
        if list[i].as_str().is_empty() || !utf8_len_at_most(list[i].as_str(), limit) {
            assert((list@[i as int])@.len() == 0 || utf8_len(list@[i as int]@) > limit);
            return true;
        }
        i = i + 1;
    }
    false
}

/// Resolves a candidate's target page in the package and checks its
/// provenance: reason codes and rule trace within their limits, and the
/// deterministic generator in a known version.
pub fn check_target(c: &SnapshotCandidate, pages: &[PageIndexRef]) -> (r: Result<()>)
    ensures
        r is Ok <==> target_fault(*c, pages@) is None,
        target_fault(*c, pages@) matches Some(m) ==> (r matches Err(CoreError::InvalidDocument(e))
            && e@ == m),
{
    let mut i: usize = 0;
    while i < pages.len()
        invariant
            i <= pages@.len(),
            find_page(pages@, c.target_page_id@, i as int) is None,
        decreases pages.len() - i,
    {
        if str_eq(pages[i].page_id.as_str(), c.target_page_id.as_str()) {
            proof {
                lemma_found_page_sticks(pages@, c.target_page_id@, i + 1, pages@.len() as int);
            }
            let physical = pages[i].physical_index;
            let versioned = str_eq(c.generator.version.as_str(), GENERATOR_VERSION) || str_eq(
                c.generator.version.as_str(),
                GENERATOR_VERSION_V2,
            );
            if physical != c.physical_page_index || c.reason_codes.len() > 32
                || c.rule_trace.len() > 128 || any_bad_entry(&c.reason_codes, 128)
                || any_bad_entry(&c.rule_trace, 256) || !str_eq(
                c.generator.kind.as_str(),
                GENERATOR_KIND,
            ) || !str_eq(c.generator.name.as_str(), GENERATOR_NAME) || !versioned {
                return invalid_document("bookmark candidate provenance or target is inconsistent");
            }
            return Ok(());
        }
        i = i + 1;
    }
    invalid_document("bookmark target page is unresolved")
}

/// Once found among the first `n` pages, a page stays found.
pub proof fn lemma_found_page_sticks(pages: Seq<PageIndexRef>, id: Seq<char>, n: int, m: int)
    requires
        0 <= n <= m,
        find_page(pages, id, n) is Some,
    ensures
        find_page(pages, id, m) == find_page(pages, id, n),
    decreases m - n,
{
    if m > n {
        lemma_found_page_sticks(pages, id, n, m - 1);
    }
}

/// The level of the first of the first `n` candidates with this ID.
pub open spec fn find_level(cs: Seq<SnapshotCandidate>, id: Seq<char>, n: int) -> Option<u16>
    decreases n,
{
    if n <= 0 {
        None
    } else {
        match find_level(cs, id, n - 1) {
            Some(x) => Some(x),
            None => if cs[n - 1].candidate_id@ == id {
                Some(cs[n - 1].effective_level)
            } else {
                None
            },
        }
    }
}

/// Once found among the first `n` candidates, an ID stays found.
pub proof fn lemma_found_level_sticks(cs: Seq<SnapshotCandidate>, id: Seq<char>, n: int, m: int)
    requires
        0 <= n <= m,
        find_level(cs, id, n) is Some,
    ensures
        find_level(cs, id, m) == find_level(cs, id, n),
    decreases m - n,
{
    if m > n {
        lemma_found_level_sticks(cs, id, n, m - 1);
    }
}

/// What is wrong with the parent of the candidate at `i`: it must exist,
/// be another candidate, and sit strictly above it.
pub open spec fn parent_fault(cs: Seq<SnapshotCandidate>, i: int) -> Option<Seq<char>> {
    match cs[i].effective_parent_id {
        None => None,
        Some(p) => match find_level(cs, p@, cs.len() as int) {
            None => Some("bookmark parent is unresolved"@),
            Some(level) => if level >= cs[i].effective_level || p@ == cs[i].candidate_id@ {
                Some("bookmark parent level is inconsistent"@)
            } else {
                None
            },
        },
    }
}

/// The first parent fault among the first `n` candidates.
pub open spec fn parents_fault(cs: Seq<SnapshotCandidate>, n: int) -> Option<Seq<char>>
    decreases n,
{
    if n <= 0 {
        None
    } else {
        match parents_fault(cs, n - 1) {
            Some(m) => Some(m),
            None => parent_fault(cs, n - 1),
        }
    }
}

pub proof fn lemma_first_parent_fault_sticks(cs: Seq<SnapshotCandidate>, n: int, m: int)
    requires
        0 <= n <= m,
        parents_fault(cs, n) is Some,
    ensures
        parents_fault(cs, m) == parents_fault(cs, n),
    decreases m - n,
{
    if m > n {
        lemma_first_parent_fault_sticks(cs, n, m - 1);
    }
}

fn level_of(cs: &[SnapshotCandidate], id: &str) -> (r: Option<u16>)
    ensures
        r == find_level(cs@, id@, cs@.len() as int),
{
    let mut k: usize = 0;
    while k < cs.len()
        invariant
            k <= cs@.len(),
            find_level(cs@, id@, k as int) is None,
        decreases cs.len() - k,
    {
        if str_eq(cs[k].candidate_id.as_str(), id) {
            proof {
                lemma_found_level_sticks(cs@, id@, k + 1, cs@.len() as int);
            }
            return Some(cs[k].effective_level);
        }
        k = k + 1;
    }
    None
}

/// Checks that every effective parent is another candidate of the snapshot,
/// at a strictly smaller level.
pub fn check_parent_levels(cs: &[SnapshotCandidate]) -> (r: Result<()>)
    ensures
        r is Ok <==> parents_fault(cs@, cs@.len() as int) is None,
        parents_fault(cs@, cs@.len() as int) matches Some(m) ==> (r matches Err(
            CoreError::InvalidDocument(e),
        ) && e@ == m),
{
    let mut i: usize = 0;
    while i < cs.len()
        invariant
            i <= cs@.len(),
            parents_fault(cs@, i as int) is None,
        decreases cs.len() - i,
    {
        if let Some(p) = &cs[i].effective_parent_id {
            match level_of(cs, p.as_str()) {
                None => {
                    assert(parents_fault(cs@, i + 1) == parent_fault(cs@, i as int));
                    proof {
                        lemma_first_parent_fault_sticks(cs@, i + 1, cs@.len() as int);
                    }
                    return invalid_document("bookmark parent is unresolved");
                },
                Some(level) => {
                    if level >= cs[i].effective_level || str_eq(p.as_str(), cs[i].candidate_id.as_str()) {
                        assert(parents_fault(cs@, i + 1) == parent_fault(cs@, i as int));
                        proof {
                            lemma_first_parent_fault_sticks(cs@, i + 1, cs@.len() as int);
                        }
                        return invalid_document("bookmark parent level is inconsistent");
                    }
                },
            }
        }
        assert(parents_fault(cs@, i + 1) is None);
        i = i + 1;
    }
    Ok(())
}

} // verus!
