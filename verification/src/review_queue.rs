//! The review queue of a derived document: pages without structured text,
//! words out of reading order, low-confidence words and words whose Unicode
//! normalization changed their text, each as an open issue with a stable ID,
//! ordered by that ID.

use vstd::prelude::*;

use crate::derived::{ReviewIssueKind, ReviewSeverity};
use crate::digest::{decimal, hex_of, push_decimal, sha256, sha256_hex_str};
use crate::sorting::{key_of, key_view, key_views, stable_order, stable_order_spec, KeyView, SortKey};
use crate::text::{chars_of, push_str, str_eq, string_of};

verus! {

/// A word of the derived document as the review queue reads it.
/// `low_confidence` says whether its recognition confidence is below 0.75.
#[derive(Debug, Clone)]
pub struct QueueWord {
    pub id: String,
    pub page_id: String,
    pub reading_order: u32,
    pub low_confidence: bool,
    pub source_text: String,
    pub source_normalized_text: String,
}

#[derive(Debug, Clone)]
pub struct QueueLine {
    pub words: Vec<QueueWord>,
}

/// A page of the derived document: `has_blocks` says whether it has any
/// structured text block, `lines` are the lines of its blocks in order.
#[derive(Debug, Clone)]
pub struct QueuePage {
    pub page_id: String,
    pub page_index: u32,
    pub evidence_digest: String,
    pub has_blocks: bool,
    pub lines: Vec<QueueLine>,
}

/// One open review issue. It was raised on page `page` (a position in the
/// page list), on the word at `origin` (line, word) of that page or, for an
/// empty page, on the page itself. `details` is the position (page, line,
/// word) of the first word of the document whose ID is the target, from
/// which the issue's page, coordinate space, texts and confidence are taken.
#[derive(Debug)]
pub struct QueueIssue {
    pub issue_id: String,
    pub kind: ReviewIssueKind,
    pub severity: ReviewSeverity,
    pub reason: String,
    pub target_ref: String,
    pub page_id: String,
    pub page_index: u32,
    pub base_evidence_digest: String,
    pub page: usize,
    pub origin: Option<(usize, usize)>,
    pub details: Option<(usize, usize, usize)>,
}

/// An issue as raised: kind, target, page index, page position and origin.
pub type RawIssue = (ReviewIssueKind, Seq<char>, u32, int, Option<(int, int)>);

pub open spec fn kind_code(kind: ReviewIssueKind) -> Seq<char> {
    match kind {
        ReviewIssueKind::EmptyRegion => "empty-region"@,
        ReviewIssueKind::ReadingOrderGap => "reading-order"@,
        ReviewIssueKind::LowConfidence => "low-confidence"@,
        ReviewIssueKind::UnicodeNormalization => "unicode-normalization"@,
    }
}

pub open spec fn kind_severity(kind: ReviewIssueKind) -> ReviewSeverity {
    match kind {
        ReviewIssueKind::UnicodeNormalization => ReviewSeverity::Info,
        _ => ReviewSeverity::Warning,
    }
}

pub open spec fn kind_reason(kind: ReviewIssueKind) -> Seq<char> {
    match kind {
        ReviewIssueKind::EmptyRegion => "page has no structured text evidence"@,
        ReviewIssueKind::ReadingOrderGap => "reading order is not contiguous"@,
        ReviewIssueKind::LowConfidence => "word confidence is below 0.75"@,
        ReviewIssueKind::UnicodeNormalization => "original and normalized Unicode text differ"@,
    }
}

/// `issue-` and the first 24 hex digits of the SHA-256 of the kind's code,
/// the target and the page index, separated by NUL characters.
pub open spec fn issue_id_spec(kind: ReviewIssueKind, target: Seq<char>, page_index: u32) -> Seq<char> {
    "issue-"@ + hex_of(
        sha256(
            vstd::utf8::encode_utf8(kind_code(kind) + seq!['\0'] + target + seq!['\0'] + decimal(page_index as nat)),
        ),
    ).take(24)
}

/// The issues raised on word `w` of line `l` of page `p`, in the order the
/// checks run.
pub open spec fn word_issues(pages: Seq<QueuePage>, p: int, l: int, w: int) -> Seq<RawIssue> {
    let page = pages[p];
    let word = page.lines@[l].words@[w];
    let raised = |kind: ReviewIssueKind| (kind, word.id@, page.page_index, p, Some((l, w)));
    let a: Seq<RawIssue> = if word.reading_order != w {
        seq![raised(ReviewIssueKind::ReadingOrderGap)]
    } else {
        seq![]
    };
    let b = if word.low_confidence {
        a.push(raised(ReviewIssueKind::LowConfidence))
    } else {
        a
    };
    if word.source_text@ != word.source_normalized_text@ {
        b.push(raised(ReviewIssueKind::UnicodeNormalization))
    } else {
        b
    }
}

pub open spec fn line_issues(pages: Seq<QueuePage>, p: int, l: int, n: int) -> Seq<RawIssue>
    decreases n,
{
    if n <= 0 {
        seq![]
    } else {
        line_issues(pages, p, l, n - 1) + word_issues(pages, p, l, n - 1)
    }
}

pub open spec fn lines_issues(pages: Seq<QueuePage>, p: int, m: int) -> Seq<RawIssue>
    decreases m,
{
    if m <= 0 {
        seq![]
    } else {
        lines_issues(pages, p, m - 1) + line_issues(pages, p, m - 1, pages[p].lines@[m - 1].words@.len() as int)
    }
}

/// The issues of page `p`: an empty region when it has no block, then those
/// of its words.
pub open spec fn page_issues(pages: Seq<QueuePage>, p: int) -> Seq<RawIssue> {
    (if !pages[p].has_blocks {
        seq![(ReviewIssueKind::EmptyRegion, pages[p].page_id@, pages[p].page_index, p, None)]
    } else {
        seq![]
    }) + lines_issues(pages, p, pages[p].lines@.len() as int)
}

/// The issues of the first `n` pages, in the order they are raised.
pub open spec fn raw_issues(pages: Seq<QueuePage>, n: int) -> Seq<RawIssue>
    decreases n,
{
    if n <= 0 {
        seq![]
    } else {
        raw_issues(pages, n - 1) + page_issues(pages, n - 1)
    }
}

/// The positions of the words of page `p`'s first `m` lines.
pub open spec fn page_words(pages: Seq<QueuePage>, p: int, m: int) -> Seq<(int, int, int)>
    decreases m,
{
    if m <= 0 {
        seq![]
    } else {
        page_words(pages, p, m - 1) + Seq::new(pages[p].lines@[m - 1].words@.len(), |w: int| (p, m - 1, w))
    }
}

/// The positions of all words of the first `n` pages, in document order.
pub open spec fn doc_words(pages: Seq<QueuePage>, n: int) -> Seq<(int, int, int)>
    decreases n,
{
    if n <= 0 {
        seq![]
    } else {
        doc_words(pages, n - 1) + page_words(pages, n - 1, pages[n - 1].lines@.len() as int)
    }
}

pub open spec fn word_at(pages: Seq<QueuePage>, r: (int, int, int)) -> QueueWord {
    pages[r.0].lines@[r.1].words@[r.2]
}

/// The first of the first `k` words of the document whose ID is `id`.
pub open spec fn first_word(pages: Seq<QueuePage>, id: Seq<char>, k: int) -> Option<(int, int, int)>
    decreases k,
{
    if k <= 0 {
        None
    } else {
        match first_word(pages, id, k - 1) {
            Some(r) => Some(r),
            None => {
                let r = doc_words(pages, pages.len() as int)[k - 1];
                if word_at(pages, r).id@ == id {
                    Some(r)
                } else {
                    None
                }
            },
        }
    }
}

/// The word whose details an issue with this target carries.
pub open spec fn details_of(pages: Seq<QueuePage>, target: Seq<char>) -> Option<(int, int, int)> {
    first_word(pages, target, doc_words(pages, pages.len() as int).len() as int)
}

/// Everything an issue states, given the issue it was raised as.
pub open spec fn issue_matches(pages: Seq<QueuePage>, q: QueueIssue, src: RawIssue) -> bool {
    &&& q.kind == src.0
    &&& q.target_ref@ == src.1
    &&& q.page_index == src.2
    &&& q.page == src.3
    &&& (match q.origin {
        Some((l, w)) => Some((l as int, w as int)),
        None => None,
    }) == src.4
    &&& q.issue_id@ == issue_id_spec(src.0, src.1, src.2)
    &&& q.severity == kind_severity(src.0)
    &&& q.reason@ == kind_reason(src.0)
    &&& q.base_evidence_digest@ == pages[src.3].evidence_digest@
    &&& (match details_of(pages, src.1) {
        Some(t) => q.details == Some((t.0 as usize, t.1 as usize, t.2 as usize)) && q.page_id@ == word_at(
            pages,
            t,
        ).page_id@,
        None => q.details is None && q.page_id@ == src.1,
    })
}

/// The sort key of each raised issue: its ID.
pub open spec fn issue_keys(raw: Seq<RawIssue>) -> Seq<KeyView> {
    raw.map_values(|r: RawIssue| (seq![0int], seq![issue_id_spec(r.0, r.1, r.2)]))
}

pub open spec fn pages_fit(pages: Seq<QueuePage>) -> bool {
    forall|p: int, l: int|
        0 <= p < pages.len() && 0 <= l < pages[p].lines@.len() ==> (#[trigger] pages[p].lines@[l]).words@.len()
            <= u32::MAX
}

fn kind_code_of(kind: ReviewIssueKind) -> (s: &'static str)
    ensures
        s@ == kind_code(kind),
{
    match kind {
        ReviewIssueKind::EmptyRegion => "empty-region",
        ReviewIssueKind::ReadingOrderGap => "reading-order",
        ReviewIssueKind::LowConfidence => "low-confidence",
        ReviewIssueKind::UnicodeNormalization => "unicode-normalization",
    }
}

fn kind_reason_of(kind: ReviewIssueKind) -> (s: &'static str)
    ensures
        s@ == kind_reason(kind),
{
    match kind {
        ReviewIssueKind::EmptyRegion => "page has no structured text evidence",
        ReviewIssueKind::ReadingOrderGap => "reading order is not contiguous",
        ReviewIssueKind::LowConfidence => "word confidence is below 0.75",
        ReviewIssueKind::UnicodeNormalization => "original and normalized Unicode text differ",
    }
}

/// The stable ID of an issue.
pub fn issue_id(kind: ReviewIssueKind, target: &str, page_index: u32) -> (id: String)
    ensures
        id@ == issue_id_spec(kind, target@, page_index),
{
    let mut seed = String::new();
    push_str(&mut seed, kind_code_of(kind));
    push_str(&mut seed, "\0");
    push_str(&mut seed, target);
    push_str(&mut seed, "\0");
    push_decimal(&mut seed, page_index as u64);
    proof {
        reveal_strlit("\0");
    }
    assert(seed@ =~= kind_code(kind) + seq!['\0'] + target@ + seq!['\0'] + decimal(page_index as nat));
    let digest = sha256_hex_str(seed.as_str());
    let hex = chars_of(digest.as_str());
    let mut short: Vec<char> = Vec::new();
    let mut i: usize = 0;
    while i < 24
        invariant
            hex@.len() == 64,
            i <= 24,
            short@ == hex@.take(i as int),
        decreases 24 - i,
    {
        short.push(hex[i]);
        i = i + 1;
        assert(short@ =~= hex@.take(i as int));
    }
    let mut id = String::new();
    push_str(&mut id, "issue-");
    let tail = string_of(short.as_slice());
    push_str(&mut id, tail.as_str());
    id
}

/// An issue raised as `src`, with the details of word `details`.
fn make_issue(
    pages: &[QueuePage],
    kind: ReviewIssueKind,
    target: &str,
    p: usize,
    origin: Option<(usize, usize)>,
    details: Option<(usize, usize, usize)>,
) -> (q: QueueIssue)
    requires
        p < pages@.len(),
        details matches Some(t) ==> t.0 < pages@.len() && t.1 < pages@[t.0 as int].lines@.len() && t.2
            < pages@[t.0 as int].lines@[t.1 as int].words@.len(),
    ensures
        q.kind == kind,
        q.target_ref@ == target@,
        q.page_index == pages@[p as int].page_index,
        q.page == p,
        q.origin == origin,
        q.issue_id@ == issue_id_spec(kind, target@, pages@[p as int].page_index),
        q.severity == kind_severity(kind),
        q.reason@ == kind_reason(kind),
        q.base_evidence_digest@ == pages@[p as int].evidence_digest@,
        q.details == details,
        match details {
            Some(t) => q.page_id@ == pages@[t.0 as int].lines@[t.1 as int].words@[t.2 as int].page_id@,
            None => q.page_id@ == target@,
        },
{
    let page = &pages[p];
    let page_id = match details {
        Some((a, b, c)) => pages[a].lines[b].words[c].page_id.clone(),
        None => target.to_owned(),
    };
    let severity = match kind {
        ReviewIssueKind::UnicodeNormalization => ReviewSeverity::Info,
        _ => ReviewSeverity::Warning,
    };
    QueueIssue {
        issue_id: issue_id(kind, target, page.page_index),
        kind,
        severity,
        reason: kind_reason_of(kind).to_owned(),
        target_ref: target.to_owned(),
        page_id,
        page_index: page.page_index,
        base_evidence_digest: page.evidence_digest.clone(),
        page: p,
        origin,
        details,
    }
}

struct RawRec {
    kind: ReviewIssueKind,
    target: String,
    page: usize,
    origin: Option<(usize, usize)>,
}

spec fn raw_view(pages: Seq<QueuePage>, r: RawRec) -> RawIssue {
    (
        r.kind,
        r.target@,
        pages[r.page as int].page_index,
        r.page as int,
        match r.origin {
            Some((l, w)) => Some((l as int, w as int)),
            None => None,
        },
    )
}

spec fn raw_views(pages: Seq<QueuePage>, v: Seq<RawRec>) -> Seq<RawIssue> {
    v.map_values(|r: RawRec| raw_view(pages, r))
}

fn push_raw(out: &mut Vec<RawRec>, pages: &[QueuePage], r: RawRec)
    ensures
        final(out)@ == old(out)@.push(r),
        raw_views(pages@, final(out)@) == raw_views(pages@, old(out)@).push(raw_view(pages@, r)),
{
    let ghost before = out@;
    let ghost rv = raw_view(pages@, r);
    out.push(r);
    assert(raw_views(pages@, out@) =~= raw_views(pages@, before).push(rv));
}

fn push_word_issues(out: &mut Vec<RawRec>, pages: &[QueuePage], p: usize, l: usize, w: usize)
    requires
        p < pages@.len(),
        l < pages@[p as int].lines@.len(),
        w < pages@[p as int].lines@[l as int].words@.len(),
    ensures
        raw_views(pages@, final(out)@) == raw_views(pages@, old(out)@) + word_issues(pages@, p as int, l as int, w as int),
        old(out)@.len() <= final(out)@.len(),
        forall|i: int| 0 <= i < old(out)@.len() ==> final(out)@[i] == old(out)@[i],
        forall|i: int| old(out)@.len() <= i < final(out)@.len() ==> (#[trigger] final(out)@[i]).page == p,
{
    let ghost start = raw_views(pages@, out@);
    let word = &pages[p].lines[l].words[w];
    let ghost page_index = pages@[p as int].page_index;
    let ghost target = word.id@;
    let ghost o = Some((l as int, w as int));
    if (word.reading_order as usize) != w {
        push_raw(out, pages, RawRec { kind: ReviewIssueKind::ReadingOrderGap, target: word.id.clone(), page: p, origin: Some((l, w)) });
    }
    let ghost a = raw_views(pages@, out@);
    assert(a == start + (if word.reading_order != w {
        seq![(ReviewIssueKind::ReadingOrderGap, target, page_index, p as int, o)]
    } else {
        Seq::<RawIssue>::empty()
    }));
    if word.low_confidence {
        push_raw(out, pages, RawRec { kind: ReviewIssueKind::LowConfidence, target: word.id.clone(), page: p, origin: Some((l, w)) });
    }
    if !str_eq(word.source_text.as_str(), word.source_normalized_text.as_str()) {
        push_raw(out, pages, RawRec { kind: ReviewIssueKind::UnicodeNormalization, target: word.id.clone(), page: p, origin: Some((l, w)) });
    }
    assert(raw_views(pages@, out@) =~= start + word_issues(pages@, p as int, l as int, w as int));
}

fn collect_raw(pages: &[QueuePage]) -> (r: Vec<RawRec>)
    ensures
        raw_views(pages@, r@) == raw_issues(pages@, pages@.len() as int),
        forall|i: int| 0 <= i < r@.len() ==> (#[trigger] r@[i]).page < pages@.len(),
{
    let mut out: Vec<RawRec> = Vec::new();
    let mut p: usize = 0;
    while p < pages.len()
        invariant
            p <= pages@.len(),
            raw_views(pages@, out@) == raw_issues(pages@, p as int),
            forall|i: int| 0 <= i < out@.len() ==> (#[trigger] out@[i]).page < pages@.len(),
        decreases pages.len() - p,
    {
        let page = &pages[p];
        if !page.has_blocks {
            push_raw(&mut out, pages, RawRec { kind: ReviewIssueKind::EmptyRegion, target: page.page_id.clone(), page: p, origin: None });
        }
        let ghost head = raw_views(pages@, out@);
        assert(head == raw_issues(pages@, p as int) + (if !pages@[p as int].has_blocks {
            seq![(ReviewIssueKind::EmptyRegion, pages@[p as int].page_id@, pages@[p as int].page_index, p as int, None)]
        } else {
            Seq::<RawIssue>::empty()
        }));
        let mut l: usize = 0;
        while l < page.lines.len()
            invariant
                p < pages@.len(),
                *page == pages@[p as int],
                l <= page.lines@.len(),
                raw_views(pages@, out@) == head + lines_issues(pages@, p as int, l as int),
                forall|i: int| 0 <= i < out@.len() ==> (#[trigger] out@[i]).page < pages@.len(),
            decreases page.lines.len() - l,
        {
            let ghost line_head = raw_views(pages@, out@);
            let mut w: usize = 0;
            while w < page.lines[l].words.len()
                invariant
                    p < pages@.len(),
                    *page == pages@[p as int],
                    l < page.lines@.len(),
                    w <= page.lines@[l as int].words@.len(),
                    raw_views(pages@, out@) == line_head + line_issues(pages@, p as int, l as int, w as int),
                    forall|i: int| 0 <= i < out@.len() ==> (#[trigger] out@[i]).page < pages@.len(),
                decreases page.lines[l as int].words.len() - w,
            {
                let ghost before = out@;
                push_word_issues(&mut out, pages, p, l, w);
                proof {
                    assert forall|i: int| 0 <= i < out@.len() implies (#[trigger] out@[i]).page < pages@.len() by {
                        if i < before.len() {
                            assert(out@[i] == before[i]);
                        }
                    }
                }
                w = w + 1;
                assert(raw_views(pages@, out@) =~= line_head + line_issues(pages@, p as int, l as int, w as int));
            }
            l = l + 1;
            assert(raw_views(pages@, out@) =~= head + lines_issues(pages@, p as int, l as int));
        }
        p = p + 1;
        assert(raw_views(pages@, out@) =~= raw_issues(pages@, p as int));
    }
    out
}

spec fn ref_views(v: Seq<(usize, usize, usize)>) -> Seq<(int, int, int)> {
    v.map_values(|r: (usize, usize, usize)| (r.0 as int, r.1 as int, r.2 as int))
}

proof fn lemma_page_words_valid(pages: Seq<QueuePage>, p: int, m: int)
    requires
        0 <= p < pages.len(),
        0 <= m <= pages[p].lines@.len(),
    ensures
        forall|i: int|
            0 <= i < page_words(pages, p, m).len() ==> {
                let r = #[trigger] page_words(pages, p, m)[i];
                r.0 == p && 0 <= r.1 < m && 0 <= r.2 < pages[p].lines@[r.1].words@.len()
            },
    decreases m,
{
    if m > 0 {
        lemma_page_words_valid(pages, p, m - 1);
        let prev = page_words(pages, p, m - 1);
        assert forall|i: int| 0 <= i < page_words(pages, p, m).len() implies {
            let r = #[trigger] page_words(pages, p, m)[i];
            r.0 == p && 0 <= r.1 < m && 0 <= r.2 < pages[p].lines@[r.1].words@.len()
        } by {
            if i < prev.len() {
                assert(page_words(pages, p, m)[i] == prev[i]);
            }
        }
    }
}

proof fn lemma_doc_words_valid(pages: Seq<QueuePage>, n: int)
    requires
        0 <= n <= pages.len(),
    ensures
        forall|i: int|
            0 <= i < doc_words(pages, n).len() ==> {
                let r = #[trigger] doc_words(pages, n)[i];
                0 <= r.0 < n && 0 <= r.1 < pages[r.0].lines@.len() && 0 <= r.2 < pages[r.0].lines@[r.1].words@.len()
            },
    decreases n,
{
    if n > 0 {
        lemma_doc_words_valid(pages, n - 1);
        lemma_page_words_valid(pages, n - 1, pages[n - 1].lines@.len() as int);
        let prev = doc_words(pages, n - 1);
        assert forall|i: int| 0 <= i < doc_words(pages, n).len() implies {
            let r = #[trigger] doc_words(pages, n)[i];
            0 <= r.0 < n && 0 <= r.1 < pages[r.0].lines@.len() && 0 <= r.2 < pages[r.0].lines@[r.1].words@.len()
        } by {
            if i < prev.len() {
                assert(doc_words(pages, n)[i] == prev[i]);
            } else {
                assert(doc_words(pages, n)[i] == page_words(pages, n - 1, pages[n - 1].lines@.len() as int)[i
                    - prev.len()]);
            }
        }
    }
}

fn collect_words(pages: &[QueuePage]) -> (r: Vec<(usize, usize, usize)>)
    ensures
        ref_views(r@) == doc_words(pages@, pages@.len() as int),
{
    let mut out: Vec<(usize, usize, usize)> = Vec::new();
    let mut p: usize = 0;
    while p < pages.len()
        invariant
            p <= pages@.len(),
            ref_views(out@) == doc_words(pages@, p as int),
        decreases pages.len() - p,
    {
        let page = &pages[p];
        let ghost head = ref_views(out@);
        let mut l: usize = 0;
        while l < page.lines.len()
            invariant
                p < pages@.len(),
                *page == pages@[p as int],
                l <= page.lines@.len(),
                ref_views(out@) == head + page_words(pages@, p as int, l as int),
            decreases page.lines.len() - l,
        {
            let ghost line_head = ref_views(out@);
            let mut w: usize = 0;
            while w < page.lines[l].words.len()
                invariant
                    p < pages@.len(),
                    *page == pages@[p as int],
                    l < page.lines@.len(),
                    w <= page.lines@[l as int].words@.len(),
                    ref_views(out@) == line_head + Seq::new(w as nat, |k: int| (p as int, l as int, k)),
                decreases page.lines[l as int].words.len() - w,
            {
                let ghost before = ref_views(out@);
                out.push((p, l, w));
                assert(ref_views(out@) =~= before.push((p as int, l as int, w as int)));
                w = w + 1;
                assert(ref_views(out@) =~= line_head + Seq::new(w as nat, |k: int| (p as int, l as int, k)));
            }
            l = l + 1;
            assert(ref_views(out@) =~= head + page_words(pages@, p as int, l as int));
        }
        p = p + 1;
        assert(ref_views(out@) =~= doc_words(pages@, p as int));
    }
    out
}

proof fn lemma_first_word_sticks(pages: Seq<QueuePage>, id: Seq<char>, k: int, m: int)
    requires
        0 <= k <= m,
        first_word(pages, id, k) is Some,
    ensures
        first_word(pages, id, m) == first_word(pages, id, k),
    decreases m - k,
{
    if m > k {
        lemma_first_word_sticks(pages, id, k, m - 1);
    }
}

fn find_details(pages: &[QueuePage], words: &Vec<(usize, usize, usize)>, id: &str) -> (r: Option<(usize, usize, usize)>)
    requires
        ref_views(words@) == doc_words(pages@, pages@.len() as int),
    ensures
        match details_of(pages@, id@) {
            Some(t) => r matches Some(u) && t == (u.0 as int, u.1 as int, u.2 as int),
            None => r is None,
        },
        r matches Some(t) ==> t.0 < pages@.len() && t.1 < pages@[t.0 as int].lines@.len() && t.2
            < pages@[t.0 as int].lines@[t.1 as int].words@.len(),
{
    proof {
        lemma_doc_words_valid(pages@, pages@.len() as int);
    }
    let mut k: usize = 0;
    while k < words.len()
        invariant
            ref_views(words@) == doc_words(pages@, pages@.len() as int),
            k <= words@.len(),
            first_word(pages@, id@, k as int) is None,
            forall|i: int|
                0 <= i < doc_words(pages@, pages@.len() as int).len() ==> {
                    let r = #[trigger] doc_words(pages@, pages@.len() as int)[i];
                    0 <= r.0 < pages@.len() && 0 <= r.1 < pages@[r.0].lines@.len() && 0 <= r.2
                        < pages@[r.0].lines@[r.1].words@.len()
                },
        decreases words.len() - k,
    {
        let (a, b, c) = words[k];
        assert(ref_views(words@)[k as int] == (a as int, b as int, c as int));
        assert(0 <= doc_words(pages@, pages@.len() as int)[k as int].0 < pages@.len());
        if str_eq(pages[a].lines[b].words[c].id.as_str(), id) {
            proof {
                lemma_first_word_sticks(pages@, id@, k + 1, words@.len() as int);
            }
            return Some((a, b, c));
        }
        k = k + 1;
    }
    None
}

fn copy_issue(q: &QueueIssue) -> (c: QueueIssue)
    ensures
        c.issue_id@ == q.issue_id@,
        c.kind == q.kind,
        c.severity == q.severity,
        c.reason@ == q.reason@,
        c.target_ref@ == q.target_ref@,
        c.page_id@ == q.page_id@,
        c.page_index == q.page_index,
        c.base_evidence_digest@ == q.base_evidence_digest@,
        c.page == q.page,
        c.origin == q.origin,
        c.details == q.details,
{
    QueueIssue {
        issue_id: q.issue_id.clone(),
        kind: q.kind,
        severity: q.severity,
        reason: q.reason.clone(),
        target_ref: q.target_ref.clone(),
        page_id: q.page_id.clone(),
        page_index: q.page_index,
        base_evidence_digest: q.base_evidence_digest.clone(),
        page: q.page,
        origin: q.origin,
        details: q.details,
    }
}

/// The open review issues of a document, ordered by issue ID; issues with
/// the same ID keep the order in which they were raised (page by page,
/// line by line, word by word, and for one word: reading order, confidence,
/// normalization).
pub fn review_queue(pages: &[QueuePage]) -> (r: Vec<QueueIssue>)
    ensures
        r@.len() == raw_issues(pages@, pages@.len() as int).len(),
        forall|i: int|
            0 <= i < r@.len() ==> issue_matches(
                pages@,
                #[trigger] r@[i],
                raw_issues(pages@, pages@.len() as int)[stable_order_spec(
                    issue_keys(raw_issues(pages@, pages@.len() as int)),
                    r@.len() as int,
                )[i]],
            ),
{
    let ghost all = raw_issues(pages@, pages@.len() as int);
    let raw = collect_raw(pages);
    let words = collect_words(pages);
    let mut issues: Vec<QueueIssue> = Vec::new();
    let mut keys: Vec<SortKey> = Vec::new();
    let mut j: usize = 0;
    while j < raw.len()
        invariant
            raw_views(pages@, raw@) == all,
            forall|i: int| 0 <= i < raw@.len() ==> (#[trigger] raw@[i]).page < pages@.len(),
            ref_views(words@) == doc_words(pages@, pages@.len() as int),
            j <= raw@.len(),
            issues@.len() == j,
            keys@.len() == j,
            forall|i: int| 0 <= i < j ==> issue_matches(pages@, #[trigger] issues@[i], all[i]),
            forall|i: int| 0 <= i < j ==> key_view(#[trigger] keys@[i]) == (seq![0int], seq![issues@[i].issue_id@]),
        decreases raw.len() - j,
    {
        let rec = &raw[j];
        assert(all[j as int] == raw_view(pages@, raw@[j as int]));
        let details = find_details(pages, &words, rec.target.as_str());
        let q = make_issue(pages, rec.kind, rec.target.as_str(), rec.page, rec.origin, details);
        keys.push(key_of(0, q.issue_id.as_str()));
        issues.push(q);
        j = j + 1;
    }
    assert(key_views(keys@) =~= issue_keys(all));
    let order = stable_order(keys.as_slice());
    proof {
        crate::sorting::lemma_stable_order(issue_keys(all), all.len() as int);
    }
    let mut out: Vec<QueueIssue> = Vec::new();
    let mut i: usize = 0;
    while i < order.len()
        invariant
            order@.len() == all.len(),
            issues@.len() == all.len(),
            forall|t: int| 0 <= t < order@.len() ==> order@[t] as int == #[trigger] stable_order_spec(
                issue_keys(all),
                all.len() as int,
            )[t],
            forall|t: int| 0 <= t < all.len() ==> 0 <= #[trigger] stable_order_spec(issue_keys(all), all.len() as int)[t] < all.len(),
            forall|t: int| 0 <= t < all.len() ==> issue_matches(pages@, #[trigger] issues@[t], all[t]),
            i <= order@.len(),
            out@.len() == i,
            forall|t: int|
                0 <= t < i ==> issue_matches(
                    pages@,
                    #[trigger] out@[t],
                    all[stable_order_spec(issue_keys(all), all.len() as int)[t]],
                ),
        decreases order.len() - i,
    {
        assert(0 <= stable_order_spec(issue_keys(all), all.len() as int)[i as int] < all.len());
        let k = order[i];
        let c = copy_issue(&issues[k]);
        out.push(c);
        i = i + 1;
    }
    out
}

} // verus!
