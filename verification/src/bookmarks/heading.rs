//! Review-only heading proposals for a document with no printed contents.
//! They are never confirmed automatically: without a contents list there is
//! no second, independent signal that a large line is a chapter title.
//!
//! What a line's geometry says (that it is markedly taller than the page's
//! usual line, that it ends above the page's last tenth, its box written
//! as text) comes with the line; the rules on text and position are here.

use vstd::prelude::*;

use super::config::AutoBookmarkConfig;
use super::engine::generator_v2;
use super::ids::{bookmark_id, line_seed, stable_id};
use super::model::{BookmarkStatus, ConfidenceBreakdown, GeneratorProvenance};
use super::snapshot::{SnapshotCandidate, GENERATOR_KIND, GENERATOR_NAME, GENERATOR_VERSION_V2};
use crate::document_package::{PackageRecord, PageRecord};
use crate::text::{chars_of, push_owned, str_eq, string_of, trim_ws, trimmed, utf8_len, utf8_len_at_most, views};

verus! {

/// The most heading proposals a document gets.
pub const MAX_HEADING_REVIEW_CANDIDATES: usize = 100;

/// A body line as a heading proposal reads it.
#[derive(Debug, Clone)]
pub struct HeadingLine {
    pub line_id: String,
    pub raw_text: String,
    pub primary_key: String,
    pub repeated_furniture: bool,
    /// At least 1.3 times as tall as the page's median line.
    pub tall: bool,
    /// Its bottom lies within the upper nine tenths of the page.
    pub clear_of_footer: bool,
    /// Its top, in thousandths of the page height.
    pub top_permille: u32,
    /// Its box as `x,y,width,height`, each with six decimals.
    pub bbox_text: String,
    pub bbox_finite: bool,
}

/// A page of body text: whether its geometry was measured (with a positive
/// median line height), and its lines in reading order.
#[derive(Debug, Clone)]
pub struct HeadingPage {
    pub page_id: String,
    pub measured: bool,
    pub lines: Vec<HeadingLine>,
}

/// Whether a line may be proposed as a heading: it has text, is not page
/// furniture, fits the title limit, stands out by its height, is clear of
/// the footer, starts within the body's top band and is short.
pub open spec fn heading_line_ok(l: HeadingLine, config: AutoBookmarkConfig) -> bool {
    &&& l.primary_key@.len() > 0
    &&& !l.repeated_furniture
    &&& utf8_len(l.raw_text@) <= config.max_title_bytes
    &&& l.tall
    &&& l.clear_of_footer
    &&& l.top_permille <= config.body_top_percent * 10
    &&& l.primary_key@.len() <= 80
}

/// The position of the first of the first `n` package pages with this ID.
pub open spec fn package_page(pages: Seq<PageRecord>, id: Seq<char>, n: int) -> Option<int>
    decreases n,
{
    if n <= 0 {
        None
    } else {
        match package_page(pages, id, n - 1) {
            Some(q) => Some(q),
            None => if pages[n - 1].page_id@ == id {
                Some(n - 1)
            } else {
                None
            },
        }
    }
}

/// The lines among the first `m` of page `p` that may be proposed, as
/// (page, line) positions.
pub open spec fn page_heading_items(page: HeadingPage, p: int, config: AutoBookmarkConfig, m: int) -> Seq<
    (int, int),
>
    decreases m,
{
    if m <= 0 {
        Seq::empty()
    } else {
        let rest = page_heading_items(page, p, config, m - 1);
        if heading_line_ok(page.lines@[m - 1], config) {
            rest.push((p, m - 1))
        } else {
            rest
        }
    }
}

/// Whether page `page` takes part: its geometry was measured and the
/// package has it.
pub open spec fn heading_page_ok(page: HeadingPage, package_pages: Seq<PageRecord>) -> bool {
    page.measured && package_page(package_pages, page.page_id@, package_pages.len() as int) is Some
}

/// The lines of the first `n` pages that may be proposed, in reading order.
pub open spec fn heading_items(
    pages: Seq<HeadingPage>,
    package_pages: Seq<PageRecord>,
    config: AutoBookmarkConfig,
    n: int,
) -> Seq<(int, int)>
    decreases n,
{
    if n <= 0 {
        Seq::empty()
    } else {
        let page = pages[n - 1];
        heading_items(pages, package_pages, config, n - 1) + if heading_page_ok(page, package_pages) {
            page_heading_items(page, n - 1, config, page.lines@.len() as int)
        } else {
            Seq::empty()
        }
    }
}

/// The score of a heading proposal: layout and OCR evidence only.
pub open spec fn heading_breakdown() -> ConfidenceBreakdown {
    ConfidenceBreakdown {
        title_match: 0,
        page_mapping: 0,
        numbering_hierarchy: 0,
        body_layout: 600,
        ocr_quality: 600,
        sequence_uniqueness: 0,
        total: 1200,
    }
}

/// `s` is the review-only proposal made from line `item` of the source
/// with digest `source`.
pub open spec fn heading_record_of(
    pages: Seq<HeadingPage>,
    package_pages: Seq<PageRecord>,
    source: Seq<char>,
    item: (int, int),
    s: SnapshotCandidate,
) -> bool {
    let page = pages[item.0];
    let l = page.lines@[item.1];
    let target = package_pages[package_page(package_pages, page.page_id@, package_pages.len() as int)->0];
    &&& s.candidate_id@ == bookmark_id(line_seed(source, target.physical_index, l.raw_text@, l.bbox_text@))
    &&& s.source_title@ == l.raw_text@
    &&& s.effective_title@ == trim_ws(l.raw_text@)
    &&& s.effective_level == 0
    &&& s.effective_parent_id is None
    &&& s.target_page_id@ == target.page_id@
    &&& s.physical_page_index == target.physical_index
    &&& s.status == BookmarkStatus::NeedsReview
    &&& generator_v2(s.generator)
    &&& views(s.reason_codes@) == seq!["heading_without_printed_contents"@, "requires_human_review"@]
    &&& views(s.rule_trace@) == seq!["heading_review_only"@]
    &&& s.confidence_breakdown == Some(heading_breakdown())
    &&& !s.has_alignment_evidence
    &&& s.has_automatic_decision
    &&& views(s.evidence_page_ids@) == seq![page.page_id@]
    &&& s.confidence_in_range
    &&& s.bbox_finite == l.bbox_finite
}

fn line_ok(l: &HeadingLine, config: &AutoBookmarkConfig) -> (b: bool)
    ensures
        b == heading_line_ok(*l, *config),
{
    let key = chars_of(l.primary_key.as_str());
    key.len() > 0 && !l.repeated_furniture && utf8_len_at_most(l.raw_text.as_str(), config.max_title_bytes as usize)
        && l.tall && l.clear_of_footer && (l.top_permille as u64) <= (config.body_top_percent as u64) * 10
        && key.len() <= 80
}

fn find_package_page(pages: &[PageRecord], id: &str) -> (r: Option<usize>)
    ensures
        match r {
            Some(i) => package_page(pages@, id@, pages@.len() as int) == Some(i as int),
            None => package_page(pages@, id@, pages@.len() as int) is None,
        },
{
    let mut i: usize = 0;
    while i < pages.len()
        invariant
            i <= pages@.len(),
            package_page(pages@, id@, i as int) is None,
        decreases pages.len() - i,
    {
        if str_eq(pages[i].page_id.as_str(), id) {
            proof {
                lemma_package_page_sticks(pages@, id@, i + 1, pages@.len() as int);
            }
            return Some(i);
        }
        i = i + 1;
    }
    None
}

proof fn lemma_package_page_sticks(pages: Seq<PageRecord>, id: Seq<char>, n: int, m: int)
    requires
        0 <= n <= m,
        package_page(pages, id, n) is Some,
    ensures
        package_page(pages, id, m) == package_page(pages, id, n),
    decreases m - n,
{
    if m > n {
        lemma_package_page_sticks(pages, id, n, m - 1);
    }
}

proof fn lemma_package_page_in_range(pages: Seq<PageRecord>, id: Seq<char>, n: int)
    requires
        0 <= n <= pages.len(),
    ensures
        package_page(pages, id, n) matches Some(q) ==> 0 <= q < n && pages[q].page_id@ == id,
    decreases n,
{
    if n > 0 {
        lemma_package_page_in_range(pages, id, n - 1);
    }
}

fn list_of_two(a: &str, b: &str) -> (v: Vec<String>)
    ensures
        views(v@) == seq![a@, b@],
{
    let mut v: Vec<String> = Vec::new();
    push_owned(&mut v, a);
    push_owned(&mut v, b);
    assert(views(v@) =~= seq![a@, b@]);
    v
}

fn list_of_one(a: &str) -> (v: Vec<String>)
    ensures
        views(v@) == seq![a@],
{
    let mut v: Vec<String> = Vec::new();
    push_owned(&mut v, a);
    assert(views(v@) =~= seq![a@]);
    v
}

fn heading_record(source: &str, target: &PageRecord, page_id: &str, l: &HeadingLine) -> (s: SnapshotCandidate)
    ensures
        s.candidate_id@ == bookmark_id(line_seed(source@, target.physical_index, l.raw_text@, l.bbox_text@)),
        s.source_title@ == l.raw_text@,
        s.effective_title@ == trim_ws(l.raw_text@),
        s.effective_level == 0,
        s.effective_parent_id is None,
        s.target_page_id@ == target.page_id@,
        s.physical_page_index == target.physical_index,
        s.status == BookmarkStatus::NeedsReview,
        generator_v2(s.generator),
        views(s.reason_codes@) == seq!["heading_without_printed_contents"@, "requires_human_review"@],
        views(s.rule_trace@) == seq!["heading_review_only"@],
        s.confidence_breakdown == Some(heading_breakdown()),
        !s.has_alignment_evidence,
        s.has_automatic_decision,
        views(s.evidence_page_ids@) == seq![page_id@],
        s.confidence_in_range,
        s.bbox_finite == l.bbox_finite,
{
    let title = chars_of(l.raw_text.as_str());
    let t = trimmed(title.as_slice());
    SnapshotCandidate {
        candidate_id: stable_id(source, target.physical_index, l.raw_text.as_str(), l.bbox_text.as_str()),
        source_title: l.raw_text.clone(),
        effective_title: string_of(t.as_slice()),
        effective_level: 0,
        effective_parent_id: None,
        target_page_id: target.page_id.clone(),
        physical_page_index: target.physical_index,
        status: BookmarkStatus::NeedsReview,
        generator: GeneratorProvenance {
            kind: GENERATOR_KIND.to_owned(),
            name: GENERATOR_NAME.to_owned(),
            version: GENERATOR_VERSION_V2.to_owned(),
        },
        reason_codes: list_of_two("heading_without_printed_contents", "requires_human_review"),
        rule_trace: list_of_one("heading_review_only"),
        confidence_breakdown: Some(
            ConfidenceBreakdown {
                title_match: 0,
                page_mapping: 0,
                numbering_hierarchy: 0,
                body_layout: 600,
                ocr_quality: 600,
                sequence_uniqueness: 0,
                total: 1200,
            },
        ),
        has_alignment_evidence: false,
        has_automatic_decision: true,
        evidence_page_ids: list_of_one(page_id),
        confidence_in_range: true,
        bbox_finite: l.bbox_finite,
    }
}

/// Review-only heading proposals: on each measured page the package has,
/// each line that [`heading_line_ok`] admits, in reading order, up to
/// [`MAX_HEADING_REVIEW_CANDIDATES`] of them.
pub fn heading_review_candidates(
    package: &PackageRecord,
    pages: &[HeadingPage],
    config: &AutoBookmarkConfig,
) -> (r: Vec<SnapshotCandidate>)
    ensures
        ({
            let all = heading_items(pages@, package.pages@, *config, pages@.len() as int);
            &&& r@.len() == if all.len() < 100 {
                all.len()
            } else {
                100
            }
            &&& forall|k: int|
                0 <= k < r@.len() ==> heading_record_of(
                    pages@,
                    package.pages@,
                    package.source.content_sha256@,
                    all[k],
                    #[trigger] r@[k],
                )
        }),
{
    let ghost pv = pages@;
    let ghost pkg = package.pages@;
    let ghost source = package.source.content_sha256@;
    let mut out: Vec<SnapshotCandidate> = Vec::new();
    let mut p: usize = 0;
    while p < pages.len()
        invariant
            p <= pages@.len(),
            pv == pages@,
            pkg == package.pages@,
            source == package.source.content_sha256@,
            out@.len() == if heading_items(pv, pkg, *config, p as int).len() < 100 {
                heading_items(pv, pkg, *config, p as int).len()
            } else {
                100
            },
            forall|k: int|
                0 <= k < out@.len() ==> heading_record_of(
                    pv,
                    pkg,
                    source,
                    heading_items(pv, pkg, *config, p as int)[k],
                    #[trigger] out@[k],
                ),
        decreases pages.len() - p,
    {
        let page = &pages[p];
        let ghost before = heading_items(pv, pkg, *config, p as int);
        let found = find_package_page(package.pages.as_slice(), page.page_id.as_str());
        proof {
            lemma_package_page_in_range(pkg, page.page_id@, pkg.len() as int);
        }
        if page.measured && found.is_some() {
            let q = found.unwrap();
            let mut m: usize = 0;
            while m < page.lines.len()
                invariant
                    p < pages@.len(),
                    pv == pages@,
                    pkg == package.pages@,
                    source == package.source.content_sha256@,
                    *page == pv[p as int],
                    heading_page_ok(*page, pkg),
                    package_page(pkg, page.page_id@, pkg.len() as int) == Some(q as int),
                    q < pkg.len(),
                    m <= page.lines@.len(),
                    before == heading_items(pv, pkg, *config, p as int),
                    out@.len() == if (before + page_heading_items(*page, p as int, *config, m as int)).len()
                        < 100 {
                        (before + page_heading_items(*page, p as int, *config, m as int)).len()
                    } else {
                        100
                    },
                    forall|k: int|
                        0 <= k < out@.len() ==> heading_record_of(
                            pv,
                            pkg,
                            source,
                            (before + page_heading_items(*page, p as int, *config, m as int))[k],
                            #[trigger] out@[k],
                        ),
                decreases page.lines.len() - m,
            {
                let ghost old_items = before + page_heading_items(*page, p as int, *config, m as int);
                let l = &page.lines[m];
                let ok = line_ok(l, config);
                if ok && out.len() < MAX_HEADING_REVIEW_CANDIDATES {
                    let rec = heading_record(
                        package.source.content_sha256.as_str(),
                        &package.pages[q],
                        page.page_id.as_str(),
                        l,
                    );
                    let ghost new_items = before + page_heading_items(*page, p as int, *config, m + 1);
                    proof {
                        assert(new_items =~= old_items.push((p as int, m as int)));
                        assert(heading_record_of(pv, pkg, source, (p as int, m as int), rec));
                    }
                    out.push(rec);
                    proof {
                        assert forall|k: int| 0 <= k < out@.len() implies heading_record_of(
                            pv,
                            pkg,
                            source,
                            new_items[k],
                            #[trigger] out@[k],
                        ) by {
                            if k < out@.len() - 1 {
                                assert(new_items[k] == old_items[k]);
                            }
                        }
                    }
                } else {
                    let ghost new_items = before + page_heading_items(*page, p as int, *config, m + 1);
                    proof {
                        if ok {
                            assert(new_items =~= old_items.push((p as int, m as int)));
                        } else {
                            assert(new_items =~= old_items);
                        }
                        assert forall|k: int| 0 <= k < out@.len() implies heading_record_of(
                            pv,
                            pkg,
                            source,
                            new_items[k],
                            #[trigger] out@[k],
                        ) by {
                            assert(new_items[k] == old_items[k]);
                        }
                    }
                }
                m = m + 1;
            }
            proof {
                assert(heading_items(pv, pkg, *config, p + 1) =~= before + page_heading_items(
                    *page,
                    p as int,
                    *config,
                    page.lines@.len() as int,
                ));
            }
        } else {
            proof {
                assert(heading_items(pv, pkg, *config, p + 1) =~= before);
            }
        }
        p = p + 1;
    }
    out
}

/// `r` is what [`heading_review_candidates`] gives.
pub open spec fn heading_proposals(
    package: PackageRecord,
    pages: Seq<HeadingPage>,
    config: AutoBookmarkConfig,
    r: Seq<SnapshotCandidate>,
) -> bool {
    let all = heading_items(pages, package.pages@, config, pages.len() as int);
    &&& r.len() == if all.len() < 100 {
        all.len()
    } else {
        100
    }
    &&& forall|k: int|
        0 <= k < r.len() ==> heading_record_of(pages, package.pages@, package.source.content_sha256@, all[k], #[trigger] r[k])
}

} // verus!
