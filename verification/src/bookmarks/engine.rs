//! Automatic bookmark generation: the input checks and the route choice,
//! the candidates of a package's own outline, and the snapshot record that
//! carries them with the digests of every input.
//!
//! The digests of the package, the derived document and the OCR run are
//! those of their serialised forms and come with the inputs; the
//! generation digest is that of the finished record's canonical form, so
//! the record leaves here with an empty one, to be filled in and then
//! checked by [`SnapshotRecord::validate`].

use vstd::prelude::*;

use super::config::AutoBookmarkConfig;
use super::heading::{heading_proposals, heading_review_candidates, HeadingPage};
use super::toc_detect::{detect, detect_fits, scan_matches, DetectPage, TocScan};
use super::generation::{
    has_outline, plan_fault, plan_generation, route_spec, GenerationPlan, OcrBinding,
};
use super::model::{
    BookmarkStatus, ConfidenceBreakdown, GenerationMode, GeneratorProvenance, BOOKMARK_SCHEMA,
    BOOKMARK_SCHEMA_VERSION_V2,
};
use super::outline::{
    candidates_match, first_fault, lemma_first_page_props, lemma_items_shape, outline_items,
    target_id, OutlineCandidate, OutlinePage,
};
use super::snapshot::{
    SnapshotCandidate, SnapshotRecord, GENERATOR_KIND, GENERATOR_NAME, GENERATOR_VERSION_V2,
};
use crate::derived::DerivedManifest;
use crate::document_package::{opt_chars, package_valid, PackageRecord, PageRecord};
use crate::error::{CoreError, Result};
use super::model::{GenerationStatus, REPORT_SCHEMA, REPORT_SCHEMA_VERSION};
use super::report::{BookmarkGenerationReport, MappingSegmentReport, OcrProvenanceSummary, TocPageReport};
use super::tally::{code_pos, counts_view, report_status, report_status_spec, sort_dedup_reasons, sorted_reasons, Tally};
use crate::text::{chars_of, str_eq, string_of, trim_ws, trimmed, views};

verus! {

/// The digests of a generation's inputs: the package's and, when there is
/// one, the derived document's (each the SHA-256 of the serialised input),
/// and the rule configuration's.
#[derive(Debug, Clone)]
pub struct InputDigests {
    pub package_digest: String,
    pub derived_digest: Option<String>,
    pub rule_config_digest: String,
}

/// The provenance of everything this generator writes.
pub open spec fn generator_v2(g: GeneratorProvenance) -> bool {
    &&& g.kind@ == GENERATOR_KIND@
    &&& g.name@ == GENERATOR_NAME@
    &&& g.version@ == GENERATOR_VERSION_V2@
}

/// The full score an item of a validated outline gets.
pub open spec fn outline_breakdown() -> ConfidenceBreakdown {
    ConfidenceBreakdown {
        title_match: 4000,
        page_mapping: 2000,
        numbering_hierarchy: 1000,
        body_layout: 1000,
        ocr_quality: 1000,
        sequence_uniqueness: 1000,
        total: 10000,
    }
}

/// `s` is the automatically confirmed bookmark made from outline candidate
/// `c`, whose pages have the physical indices `physical`.
pub open spec fn outline_record_of(
    pages: Seq<OutlinePage>,
    physical: Seq<u32>,
    c: OutlineCandidate,
    s: SnapshotCandidate,
) -> bool {
    let e = pages[c.page as int].outline@[c.ordinal as int];
    &&& s.candidate_id@ == c.candidate_id@
    &&& s.source_title@ == e.title@
    &&& s.effective_title@ == trim_ws(e.title@)
    &&& s.effective_level == e.level
    &&& opt_chars(s.effective_parent_id) == opt_chars(c.parent_id)
    &&& s.target_page_id@ == pages[c.target as int].page_id@
    &&& s.physical_page_index == physical[c.target as int]
    &&& s.status == BookmarkStatus::AutoConfirmed
    &&& generator_v2(s.generator)
    &&& views(s.reason_codes@) == seq!["validated_existing_outline"@]
    &&& views(s.rule_trace@) == seq!["existing_outline"@]
    &&& s.confidence_breakdown == Some(outline_breakdown())
    &&& !s.has_alignment_evidence
    &&& s.has_automatic_decision
    &&& views(s.evidence_page_ids@) == seq![pages[c.page as int].page_id@]
    &&& s.confidence_in_range
    &&& s.bbox_finite
}

fn provenance() -> (g: GeneratorProvenance)
    ensures
        generator_v2(g),
{
    GeneratorProvenance {
        kind: GENERATOR_KIND.to_owned(),
        name: GENERATOR_NAME.to_owned(),
        version: GENERATOR_VERSION_V2.to_owned(),
    }
}

fn one_string(s: &str) -> (v: Vec<String>)
    ensures
        views(v@) == seq![s@],
{
    let mut v: Vec<String> = Vec::new();
    v.push(s.to_owned());
    assert(views(v@) =~= seq![s@]);
    v
}

/// The bookmark made from one item of the package's own outline: confirmed
/// automatically, at full score, pointing at the item's target page.
pub fn outline_record(pages: &[OutlinePage], physical: &[u32], c: &OutlineCandidate) -> (s:
    SnapshotCandidate)
    requires
        c.page < pages@.len(),
        (c.ordinal as int) < pages@[c.page as int].outline@.len(),
        c.target < pages@.len(),
        physical@.len() == pages@.len(),
    ensures
        outline_record_of(pages@, physical@, *c, s),
{
    let e = &pages[c.page].outline[c.ordinal as usize];
    let title = chars_of(e.title.as_str());
    let trimmed_title = trimmed(title.as_slice());
    let effective_title = string_of(trimmed_title.as_slice());
    let parent = match &c.parent_id {
        Some(p) => Some(p.clone()),
        None => None,
    };
    SnapshotCandidate {
        candidate_id: c.candidate_id.clone(),
        source_title: e.title.clone(),
        effective_title,
        effective_level: e.level,
        effective_parent_id: parent,
        target_page_id: pages[c.target].page_id.clone(),
        physical_page_index: physical[c.target],
        status: BookmarkStatus::AutoConfirmed,
        generator: provenance(),
        reason_codes: one_string("validated_existing_outline"),
        rule_trace: one_string("existing_outline"),
        confidence_breakdown: Some(
            ConfidenceBreakdown {
                title_match: 4000,
                page_mapping: 2000,
                numbering_hierarchy: 1000,
                body_layout: 1000,
                ocr_quality: 1000,
                sequence_uniqueness: 1000,
                total: 10000,
            },
        ),
        has_alignment_evidence: false,
        has_automatic_decision: true,
        evidence_page_ids: one_string(pages[c.page].page_id.as_str()),
        confidence_in_range: true,
        bbox_finite: true,
    }
}

/// `s` is the record of a generation along route `mode` with these
/// candidates, before its generation digest is filled in: the OCR and
/// revision digests are kept only when the route compiled a printed
/// contents page.
pub open spec fn snapshot_shell(
    s: SnapshotRecord,
    package: PackageRecord,
    mode: GenerationMode,
    candidates: Seq<SnapshotCandidate>,
    digests: InputDigests,
    ocr_digest: Option<Seq<char>>,
    revision_digest: Option<Seq<char>>,
    rule_version: Seq<char>,
) -> bool {
    &&& s.schema@ == BOOKMARK_SCHEMA@
    &&& s.schema_version@ == BOOKMARK_SCHEMA_VERSION_V2@
    &&& s.source_digest@ == package.source.content_sha256@
    &&& s.package_digest@ == digests.package_digest@
    &&& opt_chars(s.derived_digest) == opt_chars(digests.derived_digest)
    &&& generator_v2(s.generator)
    &&& s.candidates@ == candidates
    &&& s.generation_digest@ == Seq::<char>::empty()
    &&& opt_chars(s.ocr_digest) == if mode == GenerationMode::TocAligned {
        ocr_digest
    } else {
        None
    }
    &&& opt_chars(s.revision_digest) == if mode == GenerationMode::TocAligned {
        revision_digest
    } else {
        None
    }
    &&& opt_chars(s.rule_config_digest) == Some(digests.rule_config_digest@)
    &&& opt_chars(s.rule_version) == Some(rule_version)
    &&& s.generation_mode == Some(mode)
}

fn copy_opt(o: &Option<String>) -> (r: Option<String>)
    ensures
        opt_chars(r) == opt_chars(*o),
{
    match o {
        Some(s) => Some(s.clone()),
        None => None,
    }
}

/// The record of a generation along route `mode` with these candidates;
/// see [`snapshot_shell`].
pub fn snapshot_record(
    package: &PackageRecord,
    mode: GenerationMode,
    candidates: Vec<SnapshotCandidate>,
    digests: &InputDigests,
    ocr_digest: Option<&str>,
    revision_digest: Option<&str>,
    rule_version: &str,
) -> (s: SnapshotRecord)
    ensures
        snapshot_shell(
            s,
            *package,
            mode,
            candidates@,
            *digests,
            match ocr_digest {
                Some(o) => Some(o@),
                None => None,
            },
            match revision_digest {
                Some(o) => Some(o@),
                None => None,
            },
            rule_version@,
        ),
{
    let contents = match mode {
        GenerationMode::TocAligned => true,
        _ => false,
    };
    let ocr = if contents {
        match ocr_digest {
            Some(o) => Some(o.to_owned()),
            None => None,
        }
    } else {
        None
    };
    let revision = if contents {
        match revision_digest {
            Some(o) => Some(o.to_owned()),
            None => None,
        }
    } else {
        None
    };
    SnapshotRecord {
        schema: BOOKMARK_SCHEMA.to_owned(),
        schema_version: BOOKMARK_SCHEMA_VERSION_V2.to_owned(),
        source_digest: package.source.content_sha256.clone(),
        package_digest: digests.package_digest.clone(),
        derived_digest: copy_opt(&digests.derived_digest),
        generator: provenance(),
        candidates,
        generation_digest: String::new(),
        ocr_digest: ocr,
        revision_digest: revision,
        rule_config_digest: Some(digests.rule_config_digest.clone()),
        rule_version: Some(rule_version.to_owned()),
        generation_mode: Some(mode),
    }
}

/// What a generation gives: the record of a generation that is done, or,
/// on the printed-contents route, the word that the contents pages are to
/// be compiled.
#[derive(Debug)]
pub enum GenerationOutcome {
    Snapshot(SnapshotRecord),
    PrintedContents,
}

/// The snapshot candidates `s` are the bookmarks of the package's own
/// outline, one per item in reading order.
pub open spec fn outline_records(
    pages: Seq<OutlinePage>,
    physical: Seq<u32>,
    source_digest: Seq<char>,
    s: Seq<SnapshotCandidate>,
) -> bool {
    exists|v: Seq<OutlineCandidate>|
        #![trigger candidates_match(pages, source_digest, v)]
        candidates_match(pages, source_digest, v) && v.len() == s.len() && forall|i: int|
            0 <= i < v.len() ==> outline_record_of(pages, physical, v[i], #[trigger] s[i])
}

/// Runs an automatic bookmark generation up to its record: checks the
/// inputs (see [`plan_generation`]), then either turns the package's own
/// outline into automatically confirmed bookmarks, or refuses with no
/// bookmark at all, or, when a printed contents page is to be compiled,
/// says so. `outline[k]` is the outline evidence of package page `k`.
pub fn generate_auto(
    package: &PackageRecord,
    outline: &[OutlinePage],
    ocr: Option<&OcrBinding>,
    derived: Option<&DerivedManifest>,
    digests: &InputDigests,
    rule_version: &str,
) -> (r: Result<GenerationOutcome>)
    requires
        forall|p: int| 0 <= p < outline@.len() ==> #[trigger] outline@[p].outline@.len() <= u32::MAX,
        outline@.len() == package.pages@.len(),
        forall|k: int| 0 <= k < outline@.len() ==> (#[trigger] outline@[k]).page_id@ == package.pages@[k].page_id@,
    ensures
        !package_valid(*package) ==> r is Err,
        ({
            let ov = match ocr {
                Some(o) => Some(*o),
                None => None,
            };
            let dv = match derived {
                Some(d) => Some(*d),
                None => None,
            };
            package_valid(*package) ==> match plan_fault(*package, ov, dv) {
                Some(m) => r matches Err(CoreError::InvalidDocument(e)) && e@ == m,
                None => match route_spec(has_outline(outline@), ocr is Some, derived is Some) {
                    GenerationMode::ExistingOutline => match first_fault(outline@, outline_items(outline@).len() as int) {
                        Some(m) => r matches Err(CoreError::InvalidDocument(e)) && e@ == m,
                        None => r matches Ok(GenerationOutcome::Snapshot(s)) && snapshot_shell(
                            s,
                            *package,
                            GenerationMode::ExistingOutline,
                            s.candidates@,
                            *digests,
                            None,
                            None,
                            rule_version@,
                        ) && outline_records(
                            outline@,
                            package.pages@.map_values(|p: PageRecord| p.physical_index),
                            package.source.content_sha256@,
                            s.candidates@,
                        ),
                    },
                    GenerationMode::TocAligned => r matches Ok(GenerationOutcome::PrintedContents),
                    GenerationMode::SafeRefusal => r matches Ok(GenerationOutcome::Snapshot(s))
                        && snapshot_shell(
                        s,
                        *package,
                        GenerationMode::SafeRefusal,
                        Seq::empty(),
                        *digests,
                        None,
                        None,
                        rule_version@,
                    ),
                },
            }
        }),
{
    let plan = match plan_generation(package, outline, ocr, derived) {
        Err(e) => return Err(e),
        Ok(plan) => plan,
    };
    match plan {
        GenerationPlan::PrintedContents => Ok(GenerationOutcome::PrintedContents),
        GenerationPlan::Refusal(_) => {
            let s = snapshot_record(
                package,
                GenerationMode::SafeRefusal,
                Vec::new(),
                digests,
                None,
                None,
                rule_version,
            );
            assert(s.candidates@ =~= Seq::<SnapshotCandidate>::empty());
            Ok(GenerationOutcome::Snapshot(s))
        },
        GenerationPlan::ExistingOutline(v) => {
            let ghost physical_view = package.pages@.map_values(|p: PageRecord| p.physical_index);
            let mut physical: Vec<u32> = Vec::new();
            let mut k: usize = 0;
            while k < package.pages.len()
                invariant
                    k <= package.pages@.len(),
                    physical_view == package.pages@.map_values(|p: PageRecord| p.physical_index),
                    physical@ == physical_view.take(k as int),
                decreases package.pages.len() - k,
            {
                physical.push(package.pages[k].physical_index);
                k = k + 1;
                assert(physical@ =~= physical_view.take(k as int));
            }
            assert(physical@ =~= physical_view);
            proof {
                lemma_outline_candidates_in_range(outline@, package.source.content_sha256@, v@);
            }
            let mut records: Vec<SnapshotCandidate> = Vec::new();
            let mut i: usize = 0;
            while i < v.len()
                invariant
                    i <= v@.len(),
                    physical@ == physical_view,
                    physical@.len() == outline@.len(),
                    forall|q: int|
                        0 <= q < v@.len() ==> {
                            &&& (#[trigger] v@[q]).page < outline@.len()
                            &&& (v@[q].ordinal as int) < outline@[v@[q].page as int].outline@.len()
                            &&& v@[q].target < outline@.len()
                        },
                    records@.len() == i,
                    forall|q: int|
                        0 <= q < i ==> outline_record_of(outline@, physical_view, v@[q], #[trigger] records@[q]),
                decreases v.len() - i,
            {
                let rec = outline_record(outline, physical.as_slice(), &v[i]);
                records.push(rec);
                i = i + 1;
            }
            let s = snapshot_record(
                package,
                GenerationMode::ExistingOutline,
                records,
                digests,
                None,
                None,
                rule_version,
            );
            assert(candidates_match(outline@, package.source.content_sha256@, v@));
            Ok(GenerationOutcome::Snapshot(s))
        },
    }
}

/// Every outline candidate names an item that exists and a target page
/// that exists.
proof fn lemma_outline_candidates_in_range(
    pages: Seq<OutlinePage>,
    source_digest: Seq<char>,
    v: Seq<OutlineCandidate>,
)
    requires
        candidates_match(pages, source_digest, v),
    ensures
        forall|q: int|
            0 <= q < v.len() ==> {
                &&& (#[trigger] v[q]).page < pages.len()
                &&& (v[q].ordinal as int) < pages[v[q].page as int].outline@.len()
                &&& v[q].target < pages.len()
            },
{
    lemma_items_shape(pages);
    assert forall|q: int| 0 <= q < v.len() implies {
        &&& (#[trigger] v[q]).page < pages.len()
        &&& (v[q].ordinal as int) < pages[v[q].page as int].outline@.len()
        &&& v[q].target < pages.len()
    } by {
        let it = outline_items(pages)[q];
        lemma_first_page_props(pages, target_id(pages, it), pages.len() as int);
    }
}

/// Setting the count of one reason code: replaced where the code is
/// counted, added where it is not.
pub open spec fn set_code(c: Seq<(Seq<char>, u32)>, code: Seq<char>, value: u32) -> Seq<(Seq<char>, u32)> {
    match code_pos(c, code, c.len() as int) {
        Some(i) => c.update(i, (code, value)),
        None => c.push((code, value)),
    }
}

fn set_code_count(counts: &mut Vec<(String, u32)>, code: &str, value: u32)
    ensures
        counts_view(final(counts)@) == set_code(counts_view(old(counts)@), code@, value),
{
    let ghost cv = counts_view(counts@);
    let mut i: usize = counts.len();
    while i > 0
        invariant
            i <= counts@.len(),
            cv == counts_view(counts@),
            cv == counts_view(old(counts)@),
            code_pos(cv, code@, cv.len() as int) == code_pos(cv, code@, i as int),
        decreases i,
    {
        if str_eq(counts[i - 1].0.as_str(), code) {
            assert(cv[i - 1].0 == code@);
            assert(code_pos(cv, code@, i as int) == Some(i - 1));
            counts.set(i - 1, (code.to_owned(), value));
            assert(counts_view(counts@) =~= cv.update(i - 1, (code@, value)));
            return;
        }
        i = i - 1;
    }
    counts.push((code.to_owned(), value));
    assert(counts_view(counts@) =~= cv.push((code@, value)));
}

/// How many of the candidates are automatically confirmed.
pub open spec fn auto_confirmed_count(cs: Seq<SnapshotCandidate>) -> int
    decreases cs.len(),
{
    if cs.len() == 0 {
        0
    } else {
        auto_confirmed_count(cs.drop_last()) + if cs.last().status == BookmarkStatus::AutoConfirmed {
            1int
        } else {
            0
        }
    }
}

/// What a generation gathers for its report while it runs.
#[derive(Debug)]
pub struct ReportBuilder {
    pub source_digest: String,
    pub package_digest: String,
    pub ocr_digest: Option<String>,
    pub derived_digest: Option<String>,
    pub revision_digest: Option<String>,
    pub rule_config_digest: String,
    pub rule_version: String,
    pub safe_refusal_reason: Option<String>,
    pub ocr_provenance: Vec<OcrProvenanceSummary>,
    pub front_page_limit: u32,
    pub scanned_front_pages: u32,
    pub toc_pages: Vec<TocPageReport>,
    pub parsed_entries: u32,
    pub tally: Tally,
    pub mapping_segments: Vec<MappingSegmentReport>,
    pub truncated: bool,
    pub truncation_reasons: Vec<String>,
    pub shortlist_postings_visited: u64,
    pub body_lines_indexed: u64,
}

impl ReportBuilder {
    /// The report of a generation along route `mode` that produced
    /// `snapshot`. On the route of the package's own outline every
    /// candidate counts as a parsed entry, the confirmed ones are counted
    /// afresh and under `validated_existing_outline`. The status follows
    /// [`report_status_spec`]; a refusal with no reason of its own gets the
    /// one of [`report_status`]. Truncation reasons are sorted, each once,
    /// and the OCR digest is kept only for a printed-contents run. The
    /// report digest, that of the report's canonical form, is left empty.
    pub fn finish(self, mode: GenerationMode, snapshot: &SnapshotRecord) -> (r: BookmarkGenerationReport)
        requires
            snapshot.candidates@.len() <= u32::MAX,
        ensures
            r.schema@ == REPORT_SCHEMA@,
            r.schema_version@ == REPORT_SCHEMA_VERSION@,
            r.source_digest == self.source_digest,
            r.package_digest == self.package_digest,
            r.ocr_digest == if mode == GenerationMode::TocAligned {
                self.ocr_digest
            } else {
                None
            },
            r.derived_digest == self.derived_digest,
            r.revision_digest == self.revision_digest,
            r.rule_config_digest == self.rule_config_digest,
            r.rule_version == self.rule_version,
            r.mode == mode,
            mode == GenerationMode::ExistingOutline ==> {
                &&& r.auto_confirmed == auto_confirmed_count(snapshot.candidates@)
                &&& r.parsed_entries == snapshot.candidates@.len()
                &&& counts_view(r.reason_code_counts@) == set_code(
                    counts_view(self.tally.reason_code_counts@),
                    "validated_existing_outline"@,
                    r.auto_confirmed,
                )
            },
            mode != GenerationMode::ExistingOutline ==> {
                &&& r.auto_confirmed == self.tally.auto_confirmed
                &&& r.parsed_entries == self.parsed_entries
                &&& r.reason_code_counts == self.tally.reason_code_counts
            },
            r.needs_review == self.tally.needs_review,
            r.skipped == self.tally.skipped,
            r.status == report_status_spec(mode, r.auto_confirmed, r.needs_review),
            match self.safe_refusal_reason {
                Some(m) => r.safe_refusal_reason matches Some(t) && t@ == m@,
                None => if r.status == GenerationStatus::SafeRefusal {
                    r.safe_refusal_reason matches Some(t) && t@
                        == "a printed contents list was found but no entry reached the confidence gate"@
                } else {
                    r.safe_refusal_reason is None
                },
            },
            r.ocr_provenance == self.ocr_provenance,
            r.front_page_limit == self.front_page_limit,
            r.scanned_front_pages == self.scanned_front_pages,
            r.toc_pages == self.toc_pages,
            r.mapping_segments == self.mapping_segments,
            r.truncated == self.truncated,
            views(r.truncation_reasons@) == sorted_reasons(views(self.truncation_reasons@)),
            r.shortlist_postings_visited == self.shortlist_postings_visited,
            r.body_lines_indexed == self.body_lines_indexed,
            r.generation_digest@ == snapshot.generation_digest@,
            r.report_digest@ == Seq::<char>::empty(),
    {
        let ReportBuilder {
            source_digest,
            package_digest,
            ocr_digest,
            derived_digest,
            revision_digest,
            rule_config_digest,
            rule_version,
            safe_refusal_reason,
            ocr_provenance,
            front_page_limit,
            scanned_front_pages,
            toc_pages,
            parsed_entries,
            tally,
            mapping_segments,
            truncated,
            truncation_reasons,
            shortlist_postings_visited,
            body_lines_indexed,
        } = self;
        let Tally { auto_confirmed, needs_review, skipped, reason_code_counts } = tally;
        let mut auto = auto_confirmed;
        let mut parsed = parsed_entries;
        let mut counts = reason_code_counts;
        let outline_route = match mode {
            GenerationMode::ExistingOutline => true,
            _ => false,
        };
        if outline_route {
            let mut n: u32 = 0;
            let mut i: usize = 0;
            while i < snapshot.candidates.len()
                invariant
                    i <= snapshot.candidates@.len(),
                    snapshot.candidates@.len() <= u32::MAX,
                    n == auto_confirmed_count(snapshot.candidates@.take(i as int)),
                    n <= i,
                decreases snapshot.candidates.len() - i,
            {
                assert(snapshot.candidates@.take(i + 1 as int).drop_last() =~= snapshot.candidates@.take(i as int));
                if snapshot.candidates[i].status == BookmarkStatus::AutoConfirmed {
                    n = n + 1;
                }
                i = i + 1;
            }
            assert(snapshot.candidates@.take(i as int) =~= snapshot.candidates@);
            auto = n;
            parsed = snapshot.candidates.len() as u32;
            set_code_count(&mut counts, "validated_existing_outline", n);
        }
        let reason_text = match &safe_refusal_reason {
            Some(m) => Some(m.as_str()),
            None => None,
        };
        let (status, reason) = report_status(mode, auto, needs_review, reason_text);
        let reasons = sort_dedup_reasons(truncation_reasons.as_slice());
        let ocr = match mode {
            GenerationMode::TocAligned => ocr_digest,
            _ => None,
        };
        BookmarkGenerationReport {
            schema: REPORT_SCHEMA.to_owned(),
            schema_version: REPORT_SCHEMA_VERSION.to_owned(),
            source_digest,
            package_digest,
            ocr_digest: ocr,
            derived_digest,
            revision_digest,
            rule_config_digest,
            rule_version,
            mode,
            status,
            safe_refusal_reason: reason,
            ocr_provenance,
            front_page_limit,
            scanned_front_pages,
            toc_pages,
            parsed_entries: parsed,
            auto_confirmed: auto,
            needs_review,
            skipped,
            reason_code_counts: counts,
            mapping_segments,
            truncated,
            truncation_reasons: reasons,
            shortlist_postings_visited,
            body_lines_indexed,
            generation_digest: snapshot.generation_digest.clone(),
            report_digest: String::new(),
        }
    }
}

/// How a printed-contents run starts: with the contents pages the scan
/// found, or, where it found none, with a refusal and the headings put up
/// for review.
#[derive(Debug)]
pub enum ContentsStart {
    Contents(TocScan),
    Refusal(TocScan, String, Vec<SnapshotCandidate>),
}

/// Scans the front matter for printed contents pages (see [`detect`]);
/// where there is none, refuses with the reason the report gives and the
/// review-only heading proposals (see [`heading_review_candidates`]).
pub fn open_printed_contents(
    package: &PackageRecord,
    detect_pages: &[DetectPage],
    heading_pages: &[HeadingPage],
    config: &AutoBookmarkConfig,
) -> (r: ContentsStart)
    requires
        detect_fits(detect_pages@, *config),
    ensures
        match r {
            ContentsStart::Contents(scan) => scan_matches(detect_pages@, *config, scan) && scan.detections@.len()
                > 0,
            ContentsStart::Refusal(scan, reason, proposals) => {
                &&& scan_matches(detect_pages@, *config, scan)
                &&& scan.detections@.len() == 0
                &&& reason@ == "no printed table of contents was detected in the document's front matter"@
                &&& heading_proposals(*package, heading_pages@, *config, proposals@)
            },
        },
{
    let scan = detect(detect_pages, config);
    if scan.detections.len() == 0 {
        let proposals = heading_review_candidates(package, heading_pages, config);
        ContentsStart::Refusal(
            scan,
            "no printed table of contents was detected in the document's front matter".to_owned(),
            proposals,
        )
    } else {
        ContentsStart::Contents(scan)
    }
}

} // verus!
