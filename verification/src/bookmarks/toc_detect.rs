//! Front-matter printed-contents detection.
//!
//! Detection is multi-signal and integer-scored. A contents keyword alone
//! never makes a page a table of contents: without one a page needs several
//! parsable entries and agreeing leader or right-edge evidence, and every
//! page needs the minimum score.

use vstd::prelude::*;

use super::config::AutoBookmarkConfig;
use super::text_index::{secondary_key, secondary_spec};
use super::toc_parse::{has_leader_run, printed_spec, shows_leader_run, trailing_printed_number};
use crate::text::{chars_of, split_whitespace, split_ws, starts_with, str_eq};

verus! {

/// A line of a front-matter page as detection reads it. A line whose
/// primary key is empty is blank.
#[derive(Debug, Clone)]
pub struct DetectLine {
    pub line_id: String,
    pub raw_text: String,
    pub primary_key: String,
    pub secondary_key: String,
}

/// A page of the document. `right_edges_aligned` says that the page has
/// measured geometry and that the right edges of its entry lines (those
/// ending in a printed label) spread, between the first and third quartile,
/// over at most 5% of the page width.
#[derive(Debug, Clone)]
pub struct DetectPage {
    pub page_id: String,
    pub page_index: u32,
    pub lines: Vec<DetectLine>,
    pub right_edges_aligned: bool,
}

/// The normalized contents keywords.
pub open spec fn keywords() -> Seq<Seq<char>> {
    seq![
        "contents"@,
        "table of contents"@,
        "目录"@,
        "目次"@,
        "sommaire"@,
        "indice"@,
        "índice"@,
        "inhalt"@,
        "inhaltsverzeichnis"@,
        "table des matières"@,
        "sumário"@,
        "содержание"@,
    ]
}

/// Whether a line names keyword `kw`: its primary key is the keyword, its
/// accent-folded key is the keyword's, or its primary key starts with the
/// keyword and has at most one word more.
pub open spec fn names_keyword(l: DetectLine, kw: Seq<char>) -> bool {
    let p = l.primary_key@;
    ||| p == kw
    ||| l.secondary_key@ == secondary_spec(kw)
    ||| (kw.len() <= p.len() && p.take(kw.len() as int) == kw && split_ws(p).len() <= split_ws(kw).len() + 1)
}

/// Whether a line is a contents heading: not blank, at most 40 characters,
/// and naming a keyword.
pub open spec fn heading_line(l: DetectLine) -> bool {
    &&& l.primary_key@.len() > 0
    &&& l.primary_key@.len() <= 40
    &&& exists|k: int| 0 <= k < keywords().len() && names_keyword(l, #[trigger] keywords()[k])
}

/// The first of the first `n` lines that is a contents heading.
pub open spec fn first_heading(lines: Seq<DetectLine>, n: int) -> Option<int>
    decreases n,
{
    if n <= 0 {
        None
    } else {
        match first_heading(lines, n - 1) {
            Some(i) => Some(i),
            None => if heading_line(lines[n - 1]) {
                Some(n - 1)
            } else {
                None
            },
        }
    }
}

pub open spec fn nonblank(l: DetectLine) -> bool {
    l.primary_key@.len() > 0
}

/// How many of the first `n` lines are not blank and satisfy `f`.
pub open spec fn count_lines(lines: Seq<DetectLine>, n: int, f: spec_fn(DetectLine) -> bool) -> nat
    decreases n,
{
    if n <= 0 {
        0
    } else {
        count_lines(lines, n - 1, f) + if nonblank(lines[n - 1]) && f(lines[n - 1]) {
            1nat
        } else {
            0nat
        }
    }
}

/// The positions of the non-blank lines, among the first `n`, that end in
/// a printed page label.
pub open spec fn entry_lines(lines: Seq<DetectLine>, n: int) -> Seq<int>
    decreases n,
{
    if n <= 0 {
        seq![]
    } else {
        let rest = entry_lines(lines, n - 1);
        if nonblank(lines[n - 1]) && printed_spec(lines[n - 1].raw_text@) is Some {
            rest.push(n - 1)
        } else {
            rest
        }
    }
}

/// The signals of one page, each the score it adds (`None` when absent):
/// contents keyword, parsable entries, dot leaders, right-edge cluster and
/// short-line ratio.
pub open spec fn page_signals(page: DetectPage, config: AutoBookmarkConfig) -> (
    Option<int>,
    Option<int>,
    Option<int>,
    Option<int>,
    Option<int>,
) {
    let lines = page.lines@;
    let n = lines.len() as int;
    let entries = entry_lines(lines, n).len();
    let content = count_lines(lines, n, |l: DetectLine| true);
    let short = count_lines(lines, n, |l: DetectLine| l.primary_key@.len() <= 60);
    let leaders = count_lines(lines, n, |l: DetectLine| shows_leader_run(l.raw_text@));
    let entry_score = if entries * config.toc_entry_score <= config.toc_entry_score_cap {
        entries * config.toc_entry_score
    } else {
        config.toc_entry_score_cap as int
    };
    (
        if first_heading(lines, n) is Some { Some(config.toc_keyword_score as int) } else { None },
        if entry_score > 0 { Some(entry_score) } else { None },
        if leaders >= 2 { Some(config.toc_leader_score as int) } else { None },
        if page.right_edges_aligned && entries >= 3 { Some(config.toc_right_cluster_score as int) } else { None },
        if content >= 4 && short * 10 >= content * 6 { Some(config.toc_short_line_score as int) } else { None },
    )
}

pub open spec fn or_zero(o: Option<int>) -> int {
    match o {
        Some(v) => v,
        None => 0,
    }
}

/// A page's score before its neighbours are counted: the sum of its
/// signals.
pub open spec fn base_score(page: DetectPage, config: AutoBookmarkConfig) -> int {
    let s = page_signals(page, config);
    or_zero(s.0) + or_zero(s.1) + or_zero(s.2) + or_zero(s.3) + or_zero(s.4)
}

/// What one page's scoring yields.
#[derive(Debug)]
pub struct PageScore {
    pub keyword_line: Option<usize>,
    pub entry_lines: Vec<usize>,
    pub keyword_signal: Option<u32>,
    pub entries_signal: Option<u32>,
    pub leader_signal: Option<u32>,
    pub cluster_signal: Option<u32>,
    pub short_line_signal: Option<u32>,
    pub score: u32,
}

pub open spec fn opt_int(o: Option<u32>) -> Option<int> {
    match o {
        Some(v) => Some(v as int),
        None => None,
    }
}

/// The arithmetic of scoring this page stays within `u32`.
pub open spec fn page_fits(page: DetectPage, config: AutoBookmarkConfig) -> bool {
    let lines = page.lines@;
    &&& lines.len() <= u32::MAX / 10
    &&& entry_lines(lines, lines.len() as int).len() * config.toc_entry_score <= u32::MAX
    &&& base_score(page, config) <= u32::MAX
}

fn names_keyword_exec(l: &DetectLine, kw: &str) -> (b: bool)
    ensures
        b == names_keyword(*l, kw@),
{
    if str_eq(l.primary_key.as_str(), kw) {
        return true;
    }
    let folded = secondary_key(kw);
    if str_eq(l.secondary_key.as_str(), folded.as_str()) {
        return true;
    }
    if !starts_with(l.primary_key.as_str(), kw) {
        return false;
    }
    let pc = chars_of(l.primary_key.as_str());
    let kc = chars_of(kw);
    let pw = split_whitespace(pc.as_slice());
    let kw_words = split_whitespace(kc.as_slice());
    proof {
        assert(pw.deep_view().len() == pw@.len());
        assert(kw_words.deep_view().len() == kw_words@.len());
    }
    if pw.len() == 0 {
        true
    } else {
        pw.len() - 1 <= kw_words.len()
    }
}

fn heading_line_exec(l: &DetectLine) -> (b: bool)
    ensures
        b == heading_line(*l),
{
    let n = l.primary_key.as_str().unicode_len();
    if n == 0 || n > 40 {
        return false;
    }
    let list: [&str; 12] = [
        "contents",
        "table of contents",
        "目录",
        "目次",
        "sommaire",
        "indice",
        "índice",
        "inhalt",
        "inhaltsverzeichnis",
        "table des matières",
        "sumário",
        "содержание",
    ];
    let ghost kws = keywords();
    assert(list@.map_values(|s: &str| s@) =~= kws);
    let mut k: usize = 0;
    while k < 12
        invariant
            l.primary_key@.len() > 0,
            l.primary_key@.len() <= 40,
            k <= 12,
            list@.map_values(|s: &str| s@) == kws,
            kws == keywords(),
            list@.len() == 12,
            forall|j: int| 0 <= j < k ==> !names_keyword(*l, #[trigger] kws[j]),
        decreases 12 - k,
    {
        assert(list@[k as int]@ == kws[k as int]);
        if names_keyword_exec(l, list[k]) {
            assert(names_keyword(*l, keywords()[k as int]));
            return true;
        }
        k = k + 1;
    }
    false
}

proof fn lemma_first_heading_sticks(lines: Seq<DetectLine>, n: int, m: int)
    requires
        0 <= n <= m,
        first_heading(lines, n) is Some,
    ensures
        first_heading(lines, m) == first_heading(lines, n),
    decreases m - n,
{
    if m > n {
        lemma_first_heading_sticks(lines, n, m - 1);
    }
}

fn zero_of(o: Option<u32>) -> (v: u64)
    ensures
        v == or_zero(opt_int(o)),
        v <= u32::MAX,
{
    match o {
        Some(v) => v as u64,
        None => 0,
    }
}

/// Scores one front-matter page; see [`page_signals`].
pub fn score_page(page: &DetectPage, config: &AutoBookmarkConfig) -> (s: PageScore)
    requires
        page_fits(*page, *config),
    ensures
        opt_int(s.keyword_signal) == page_signals(*page, *config).0,
        opt_int(s.entries_signal) == page_signals(*page, *config).1,
        opt_int(s.leader_signal) == page_signals(*page, *config).2,
        opt_int(s.cluster_signal) == page_signals(*page, *config).3,
        opt_int(s.short_line_signal) == page_signals(*page, *config).4,
        s.score == base_score(*page, *config),
        (match s.keyword_line {
            Some(i) => Some(i as int),
            None => None,
        }) == first_heading(page.lines@, page.lines@.len() as int),
        s.entry_lines@.map_values(|i: usize| i as int) == entry_lines(page.lines@, page.lines@.len() as int),
{
    let lines = &page.lines;
    let ghost ls = page.lines@;
    let mut keyword_line: Option<usize> = None;
    let mut entries: Vec<usize> = Vec::new();
    let mut content: u32 = 0;
    let mut short: u32 = 0;
    let mut leaders: u32 = 0;
    let mut i: usize = 0;
    while i < lines.len()
        invariant
            ls == page.lines@,
            *lines == page.lines,
            ls.len() <= u32::MAX / 10,
            i <= ls.len(),
            (match keyword_line {
                Some(k) => Some(k as int),
                None => None,
            }) == first_heading(ls, i as int),
            entries@.map_values(|k: usize| k as int) == entry_lines(ls, i as int),
            content == count_lines(ls, i as int, |l: DetectLine| true),
            short == count_lines(ls, i as int, |l: DetectLine| l.primary_key@.len() <= 60),
            leaders == count_lines(ls, i as int, |l: DetectLine| shows_leader_run(l.raw_text@)),
            content <= i,
            entries@.len() <= i,
            short <= i,
            leaders <= i,
        decreases lines.len() - i,
    {
        let l = &lines[i];
        let len = l.primary_key.as_str().unicode_len();
        if keyword_line.is_none() && heading_line_exec(l) {
            keyword_line = Some(i);
        } else if keyword_line.is_some() {
            proof {
                lemma_first_heading_sticks(ls, i as int, i + 1);
            }
        }
        if len > 0 {
            content = content + 1;
            if len <= 60 {
                short = short + 1;
            }
            if has_leader_run(l.raw_text.as_str()) {
                leaders = leaders + 1;
            }
            if trailing_printed_number(l.raw_text.as_str()).is_some() {
                let ghost before = entries@.map_values(|k: usize| k as int);
                entries.push(i);
                assert(entries@.map_values(|k: usize| k as int) =~= before.push(i as int));
            }
        }
        i = i + 1;
    }
    let ghost sig = page_signals(*page, *config);
    let entry_count = entries.len() as u32;
    assert(entries@.map_values(|k: usize| k as int).len() == entries@.len());
    assert(entry_count as u64 * config.toc_entry_score as u64 <= u64::MAX) by (nonlinear_arith)
        requires
            entry_count <= u32::MAX,
            config.toc_entry_score <= u32::MAX,
    ;
    let product: u64 = entry_count as u64 * config.toc_entry_score as u64;
    let entry_score: u32 = if product <= config.toc_entry_score_cap as u64 {
        product as u32
    } else {
        config.toc_entry_score_cap
    };
    let keyword_signal = if keyword_line.is_some() { Some(config.toc_keyword_score) } else { None };
    let entries_signal = if entry_score > 0 { Some(entry_score) } else { None };
    let leader_signal = if leaders >= 2 { Some(config.toc_leader_score) } else { None };
    let cluster_signal = if page.right_edges_aligned && entry_count >= 3 {
        Some(config.toc_right_cluster_score)
    } else {
        None
    };
    let short_line_signal = if content >= 4 && (short as u64) * 10 >= (content as u64) * 6 {
        Some(config.toc_short_line_score)
    } else {
        None
    };
    assert(opt_int(keyword_signal) == sig.0);
    assert(opt_int(entries_signal) == sig.1);
    assert(opt_int(leader_signal) == sig.2);
    assert(opt_int(cluster_signal) == sig.3);
    assert(opt_int(short_line_signal) == sig.4);
    let total: u64 = zero_of(keyword_signal) + zero_of(entries_signal) + zero_of(leader_signal) + zero_of(
        cluster_signal,
    ) + zero_of(short_line_signal);
    assert(total == base_score(*page, *config));
    PageScore {
        keyword_line,
        entry_lines: entries,
        keyword_signal,
        entries_signal,
        leader_signal,
        cluster_signal,
        short_line_signal,
        score: total as u32,
    }
}

/// The positions, among the first `n` pages, of those inside the scan
/// window (page index below `limit`), in order.
pub open spec fn window(pages: Seq<DetectPage>, limit: int, n: int) -> Seq<int>
    decreases n,
{
    if n <= 0 {
        seq![]
    } else {
        let w = window(pages, limit, n - 1);
        if pages[n - 1].page_index < limit {
            w.push(n - 1)
        } else {
            w
        }
    }
}

/// How many of the first `n` window pages other than `q`, at most four
/// places away, score at least half the minimum.
pub open spec fn neighbours(base: Seq<int>, q: int, half: int, n: int) -> nat
    decreases n,
{
    if n <= 0 {
        0
    } else {
        let r = n - 1;
        neighbours(base, q, half, n - 1) + if r != q && -4 <= r - q <= 4 && base[r] >= half {
            1nat
        } else {
            0nat
        }
    }
}

/// The bonus adjacent contents pages give each other.
pub open spec fn adjacent_bonus(count: nat, config: AutoBookmarkConfig) -> int {
    if count == 0 {
        0
    } else if count * config.toc_adjacent_page_score <= config.toc_adjacent_page_score * 4 {
        count * config.toc_adjacent_page_score
    } else {
        config.toc_adjacent_page_score * 4
    }
}

pub open spec fn window_bases(pages: Seq<DetectPage>, config: AutoBookmarkConfig, w: Seq<int>) -> Seq<int> {
    w.map_values(|p: int| base_score(pages[p], config))
}

pub open spec fn scan_limit(pages: Seq<DetectPage>, config: AutoBookmarkConfig) -> int {
    config.spec_front_page_limit(pages.len() as u32)
}

/// The neighbour count of window page `q`.
pub open spec fn neighbour_count(pages: Seq<DetectPage>, config: AutoBookmarkConfig, q: int) -> nat {
    let w = window(pages, scan_limit(pages, config), pages.len() as int);
    neighbours(window_bases(pages, config, w), q, (config.toc_page_min_score / 2) as int, w.len() as int)
}

/// The final score of window page `q`.
pub open spec fn final_score(pages: Seq<DetectPage>, config: AutoBookmarkConfig, q: int) -> int {
    let w = window(pages, scan_limit(pages, config), pages.len() as int);
    base_score(pages[w[q]], config) + adjacent_bonus(neighbour_count(pages, config, q), config)
}

/// Whether window page `q` is a contents page: it reaches the minimum score
/// and has a keyword, or enough entries with dot leaders or a right-edge
/// cluster.
pub open spec fn detected(pages: Seq<DetectPage>, config: AutoBookmarkConfig, q: int) -> bool {
    let w = window(pages, scan_limit(pages, config), pages.len() as int);
    let page = pages[w[q]];
    let s = page_signals(page, config);
    &&& final_score(pages, config, q) >= config.toc_page_min_score
    &&& (s.0 is Some || (entry_lines(page.lines@, page.lines@.len() as int).len()
        >= config.toc_min_entries_without_keyword && (s.2 is Some || s.3 is Some)))
}

/// The window positions of the first `m` window pages that are contents
/// pages.
pub open spec fn detected_upto(pages: Seq<DetectPage>, config: AutoBookmarkConfig, m: int) -> Seq<int>
    decreases m,
{
    if m <= 0 {
        seq![]
    } else {
        let d = detected_upto(pages, config, m - 1);
        if detected(pages, config, m - 1) {
            d.push(m - 1)
        } else {
            d
        }
    }
}

/// The arithmetic of detection stays within `u32`.
pub open spec fn detect_fits(pages: Seq<DetectPage>, config: AutoBookmarkConfig) -> bool {
    let w = window(pages, scan_limit(pages, config), pages.len() as int);
    &&& pages.len() <= u32::MAX
    &&& forall|p: int| 0 <= p < pages.len() ==> page_fits(#[trigger] pages[p], config)
    &&& forall|q: int|
        0 <= q < w.len() ==> {
            let c = #[trigger] neighbour_count(pages, config, q);
            &&& c > 0 ==> c * config.toc_adjacent_page_score <= u32::MAX && config.toc_adjacent_page_score * 4
                <= u32::MAX
            &&& final_score(pages, config, q) <= u32::MAX
        }
}

/// A detected contents page: window slot `slot`, page `page` of the input,
/// its final score and the adjacent-layout bonus when it got one.
#[derive(Debug)]
pub struct TocDetection {
    pub slot: usize,
    pub page: usize,
    pub page_index: u32,
    pub score: u32,
    pub adjacent_signal: Option<u32>,
}

/// A scan of the front matter: the window limit, the input positions of
/// the pages inside it, each one's own scoring, and the detected pages.
#[derive(Debug)]
pub struct TocScan {
    pub limit: u32,
    pub window: Vec<usize>,
    pub scores: Vec<PageScore>,
    pub detections: Vec<TocDetection>,
}

proof fn lemma_window_valid(pages: Seq<DetectPage>, limit: int, n: int)
    requires
        0 <= n <= pages.len(),
    ensures
        forall|i: int| 0 <= i < window(pages, limit, n).len() ==> 0 <= #[trigger] window(pages, limit, n)[i] < n,
        window(pages, limit, n).len() <= n,
    decreases n,
{
    if n > 0 {
        lemma_window_valid(pages, limit, n - 1);
    }
}

/// What a scan states of window slot `i`'s own scoring.
pub open spec fn score_matches(pages: Seq<DetectPage>, config: AutoBookmarkConfig, p: int, s: PageScore) -> bool {
    let page = pages[p];
    let sig = page_signals(page, config);
    &&& s.score == base_score(page, config)
    &&& opt_int(s.keyword_signal) == sig.0
    &&& opt_int(s.entries_signal) == sig.1
    &&& opt_int(s.leader_signal) == sig.2
    &&& opt_int(s.cluster_signal) == sig.3
    &&& opt_int(s.short_line_signal) == sig.4
    &&& (match s.keyword_line {
        Some(k) => Some(k as int),
        None => None,
    }) == first_heading(page.lines@, page.lines@.len() as int)
    &&& s.entry_lines@.map_values(|k: usize| k as int) == entry_lines(page.lines@, page.lines@.len() as int)
}

/// What a scan states of a detection made at window slot `q`.
pub open spec fn detection_matches(pages: Seq<DetectPage>, config: AutoBookmarkConfig, q: int, d: TocDetection) -> bool {
    let w = window(pages, scan_limit(pages, config), pages.len() as int);
    let c = neighbour_count(pages, config, q);
    &&& d.slot == q
    &&& d.page == w[q]
    &&& d.page_index == pages[w[q]].page_index
    &&& d.score == final_score(pages, config, q)
    &&& opt_int(d.adjacent_signal) == (if c > 0 {
        Some(adjacent_bonus(c, config))
    } else {
        None
    })
}

/// Scans the front matter for printed contents pages: the window, each
/// window page's own scoring, and the detected pages in page order.
pub fn detect(pages: &[DetectPage], config: &AutoBookmarkConfig) -> (r: TocScan)
    requires
        detect_fits(pages@, *config),
    ensures
        r.limit == scan_limit(pages@, *config),
        r.window@.map_values(|x: usize| x as int) == window(pages@, scan_limit(pages@, *config), pages@.len() as int),
        r.scores@.len() == r.window@.len(),
        forall|i: int| 0 <= i < r.scores@.len() ==> score_matches(pages@, *config, r.window@[i] as int, #[trigger] r.scores@[i]),
        r.detections@.len() == detected_upto(pages@, *config, r.window@.len() as int).len(),
        forall|i: int|
            0 <= i < r.detections@.len() ==> detection_matches(
                pages@,
                *config,
                detected_upto(pages@, *config, r.window@.len() as int)[i],
                #[trigger] r.detections@[i],
            ),
{
    let limit = config.front_page_limit(pages.len() as u32);
    let ghost w = window(pages@, limit as int, pages@.len() as int);
    proof {
        lemma_window_valid(pages@, limit as int, pages@.len() as int);
    }
    let mut positions: Vec<usize> = Vec::new();
    let mut scores: Vec<PageScore> = Vec::new();
    let mut bases: Vec<u32> = Vec::new();
    let mut p: usize = 0;
    while p < pages.len()
        invariant
            detect_fits(pages@, *config),
            p <= pages@.len(),
            positions@.map_values(|x: usize| x as int) == window(pages@, limit as int, p as int),
            scores@.len() == positions@.len(),
            bases@.len() == positions@.len(),
            forall|i: int| 0 <= i < positions@.len() ==> (#[trigger] positions@[i]) < p,
            forall|i: int|
                0 <= i < positions@.len() ==> score_matches(pages@, *config, positions@[i] as int, #[trigger] scores@[i])
                    && bases@[i] == scores@[i].score,
        decreases pages.len() - p,
    {
        if pages[p].page_index < limit {
            assert(page_fits(pages@[p as int], *config));
            let s = score_page(&pages[p], config);
            bases.push(s.score);
            scores.push(s);
            let ghost before = positions@.map_values(|x: usize| x as int);
            positions.push(p);
            assert(positions@.map_values(|x: usize| x as int) =~= before.push(p as int));
        }
        p = p + 1;
    }
    let ghost bv = window_bases(pages@, *config, w);
    assert(positions@.map_values(|x: usize| x as int) == w);
    assert(w.len() <= pages@.len());
    assert forall|i: int| 0 <= i < bases@.len() implies bases@[i] as int == #[trigger] bv[i] by {
        assert(positions@.map_values(|x: usize| x as int)[i] == w[i]);
        assert(score_matches(pages@, *config, positions@[i] as int, scores@[i]));
    }
    let half = config.toc_page_min_score / 2;
    let n = bases.len();
    let mut detections: Vec<TocDetection> = Vec::new();
    let mut q: usize = 0;
    while q < n
        invariant
            detect_fits(pages@, *config),
            limit == scan_limit(pages@, *config),
            w == window(pages@, limit as int, pages@.len() as int),
            bv == window_bases(pages@, *config, w),
            positions@.map_values(|x: usize| x as int) == w,
            n == bases@.len(),
            n == w.len(),
            n == scores@.len(),
            n <= pages@.len(),
            pages@.len() <= u32::MAX,
            forall|i: int| 0 <= i < n ==> (#[trigger] positions@[i]) < pages@.len(),
            half == config.toc_page_min_score / 2,
            forall|i: int| 0 <= i < n ==> bases@[i] as int == #[trigger] bv[i],
            forall|i: int|
                0 <= i < n ==> score_matches(pages@, *config, positions@[i] as int, #[trigger] scores@[i])
                    && bases@[i] == scores@[i].score,
            q <= n,
            detections@.len() == detected_upto(pages@, *config, q as int).len(),
            forall|i: int|
                0 <= i < detections@.len() ==> detection_matches(
                    pages@,
                    *config,
                    detected_upto(pages@, *config, q as int)[i],
                    #[trigger] detections@[i],
                ),
        decreases n - q,
    {
        let mut count: u32 = 0;
        let mut r: usize = 0;
        while r < n
            invariant
                n == bases@.len(),
                n == bv.len(),
                forall|i: int| 0 <= i < n ==> bases@[i] as int == #[trigger] bv[i],
                r <= n,
                q < n,
                n <= u32::MAX,
                count == neighbours(bv, q as int, half as int, r as int),
                count <= r,
            decreases n - r,
        {
            let near = if r >= q { r - q <= 4 } else { q - r <= 4 };
            if r != q && near && bases[r] >= half {
                count = count + 1;
            }
            r = r + 1;
        }
        assert(count == neighbour_count(pages@, *config, q as int));
        let adjacent: Option<u32> = if count > 0 {
            let scaled = count * config.toc_adjacent_page_score;
            let cap = config.toc_adjacent_page_score * 4;
            Some(if scaled <= cap { scaled } else { cap })
        } else {
            None
        };
        let bonus: u32 = match adjacent {
            Some(b) => b,
            None => 0,
        };
        assert(bonus as int == adjacent_bonus(count as nat, *config));
        assert(bv[q as int] == base_score(pages@[w[q as int]], *config));
        assert(bases@[q as int] as int + bonus as int == final_score(pages@, *config, q as int));
        let total = bases[q] + bonus;
        let own = &scores[q];
        let page = positions[q];
        assert(positions@.map_values(|x: usize| x as int)[q as int] == w[q as int]);
        assert(score_matches(pages@, *config, positions@[q as int] as int, scores@[q as int]));
        let is_detected = total >= config.toc_page_min_score && (own.keyword_signal.is_some() || (own.entry_lines.len()
            as u64 >= config.toc_min_entries_without_keyword as u64 && (own.leader_signal.is_some()
            || own.cluster_signal.is_some())));
        proof {
            assert(own.entry_lines@.map_values(|k: usize| k as int).len() == own.entry_lines@.len());
        }
        assert(is_detected == detected(pages@, *config, q as int));
        if is_detected {
            detections.push(TocDetection { slot: q, page, page_index: pages[page].page_index, score: total, adjacent_signal: adjacent });
        }
        q = q + 1;
    }
    TocScan { limit, window: positions, scores, detections }
}

/// `r` is what [`detect`] gives for these pages: the window, each window
/// page's scoring and the detected pages in page order.
pub open spec fn scan_matches(pages: Seq<DetectPage>, config: AutoBookmarkConfig, r: TocScan) -> bool {
    &&& r.limit == scan_limit(pages, config)
    &&& r.window@.map_values(|x: usize| x as int) == window(pages, scan_limit(pages, config), pages.len() as int)
    &&& r.scores@.len() == r.window@.len()
    &&& forall|i: int| 0 <= i < r.scores@.len() ==> score_matches(pages, config, r.window@[i] as int, #[trigger] r.scores@[i])
    &&& r.detections@.len() == detected_upto(pages, config, r.window@.len() as int).len()
    &&& forall|i: int|
        0 <= i < r.detections@.len() ==> detection_matches(
            pages,
            config,
            detected_upto(pages, config, r.window@.len() as int)[i],
            #[trigger] r.detections@[i],
        )
}

} // verus!
