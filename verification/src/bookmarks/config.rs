//! Frozen integer rule constants for automatic table-of-contents
//! compilation. Every threshold the engine consults lives here so a
//! generated snapshot can bind itself to an auditable rule digest.

use vstd::prelude::*;

use crate::digest::{decimal, hex_of, json_string, push_decimal, push_json_string, sha256, sha256_hex_str};
use crate::text::{is_digest, push_str};

verus! {

/// The rule set identifier written into every 0.2 snapshot and report.
pub const RULE_VERSION: &'static str = "0.2";

/// Score component ceilings. The six components sum to exactly 10,000.
pub const SCORE_TOTAL: u32 = 10_000;
pub const SCORE_TITLE_MAX: u32 = 4_000;
pub const SCORE_PAGE_MAX: u32 = 2_000;
pub const SCORE_NUMBERING_MAX: u32 = 1_000;
pub const SCORE_LAYOUT_MAX: u32 = 1_000;
pub const SCORE_OCR_MAX: u32 = 1_000;
pub const SCORE_SEQUENCE_MAX: u32 = 1_000;

#[derive(Debug, Clone, PartialEq, Eq)]
pub struct AutoBookmarkConfig {
    pub rule_version: String,
    /// Front-matter scan window:
    /// `min(pages, min(absolute_max, max(minimum, ceil(pages * percent / 100))))`.
    pub front_page_absolute_max: u32,
    pub front_page_minimum: u32,
    pub front_page_percent: u32,
    /// A page needs at least this multi-signal score to be a TOC page.
    pub toc_page_min_score: u32,
    /// Without a contents keyword a page needs at least this many parsable
    /// entries plus leader/right-edge agreement.
    pub toc_min_entries_without_keyword: u32,
    /// A contents keyword alone scores this much, never enough by itself.
    pub toc_keyword_score: u32,
    pub toc_entry_score: u32,
    pub toc_entry_score_cap: u32,
    pub toc_leader_score: u32,
    pub toc_right_cluster_score: u32,
    pub toc_short_line_score: u32,
    pub toc_adjacent_page_score: u32,
    pub max_toc_entries: u32,
    pub max_shortlist: u32,
    pub max_continuation_lines: u32,
    pub max_auto_level: u16,
    pub max_title_bytes: u32,
    /// Repeated header/footer detection: at least N pages and P% coverage
    /// inside the top/bottom band.
    pub furniture_min_pages: u32,
    pub furniture_percent: u32,
    pub furniture_band_percent: u32,
    /// A body heading in the top fraction of the page scores the layout bonus.
    pub body_top_percent: u32,
    /// Automatic gate.
    pub auto_confirm_total: u32,
    pub auto_confirm_title: u32,
    pub auto_confirm_margin: u32,
    /// Minimum per-word confidence in permille (800 == 0.80).
    pub auto_confirm_min_word_confidence_permille: u32,
    pub review_total: u32,
    /// Maximum tolerated |printed page - resolved physical page| difference.
    pub max_page_residual: u32,
    /// Mapping: cost of opening a new printed-page offset segment and of an
    /// anchor disagreeing with its segment offset.
    pub segment_change_penalty: u32,
    pub anchor_mismatch_penalty: u32,
    /// Minimum title score for a shortlist entry to act as a mapping anchor.
    pub anchor_min_title_score: u32,
}

/// The compact JSON text of a configuration, fields in declaration order.
pub open spec fn config_json(c: AutoBookmarkConfig) -> Seq<char> {
    "{\"rule_version\":"@ + json_string(c.rule_version@)
        + ",\"front_page_absolute_max\":"@ + decimal(c.front_page_absolute_max as nat)
        + ",\"front_page_minimum\":"@ + decimal(c.front_page_minimum as nat)
        + ",\"front_page_percent\":"@ + decimal(c.front_page_percent as nat)
        + ",\"toc_page_min_score\":"@ + decimal(c.toc_page_min_score as nat)
        + ",\"toc_min_entries_without_keyword\":"@ + decimal(c.toc_min_entries_without_keyword as nat)
        + ",\"toc_keyword_score\":"@ + decimal(c.toc_keyword_score as nat)
        + ",\"toc_entry_score\":"@ + decimal(c.toc_entry_score as nat)
        + ",\"toc_entry_score_cap\":"@ + decimal(c.toc_entry_score_cap as nat)
        + ",\"toc_leader_score\":"@ + decimal(c.toc_leader_score as nat)
        + ",\"toc_right_cluster_score\":"@ + decimal(c.toc_right_cluster_score as nat)
        + ",\"toc_short_line_score\":"@ + decimal(c.toc_short_line_score as nat)
        + ",\"toc_adjacent_page_score\":"@ + decimal(c.toc_adjacent_page_score as nat)
        + ",\"max_toc_entries\":"@ + decimal(c.max_toc_entries as nat)
        + ",\"max_shortlist\":"@ + decimal(c.max_shortlist as nat)
        + ",\"max_continuation_lines\":"@ + decimal(c.max_continuation_lines as nat)
        + ",\"max_auto_level\":"@ + decimal(c.max_auto_level as nat)
        + ",\"max_title_bytes\":"@ + decimal(c.max_title_bytes as nat)
        + ",\"furniture_min_pages\":"@ + decimal(c.furniture_min_pages as nat)
        + ",\"furniture_percent\":"@ + decimal(c.furniture_percent as nat)
        + ",\"furniture_band_percent\":"@ + decimal(c.furniture_band_percent as nat)
        + ",\"body_top_percent\":"@ + decimal(c.body_top_percent as nat)
        + ",\"auto_confirm_total\":"@ + decimal(c.auto_confirm_total as nat)
        + ",\"auto_confirm_title\":"@ + decimal(c.auto_confirm_title as nat)
        + ",\"auto_confirm_margin\":"@ + decimal(c.auto_confirm_margin as nat)
        + ",\"auto_confirm_min_word_confidence_permille\":"@ + decimal(c.auto_confirm_min_word_confidence_permille as nat)
        + ",\"review_total\":"@ + decimal(c.review_total as nat)
        + ",\"max_page_residual\":"@ + decimal(c.max_page_residual as nat)
        + ",\"segment_change_penalty\":"@ + decimal(c.segment_change_penalty as nat)
        + ",\"anchor_mismatch_penalty\":"@ + decimal(c.anchor_mismatch_penalty as nat)
        + ",\"anchor_min_title_score\":"@ + decimal(c.anchor_min_title_score as nat)
        + "}"@
}

impl Default for AutoBookmarkConfig {
    fn default() -> (c: Self)
        ensures
            c.rule_version@ == RULE_VERSION@,
            c.front_page_absolute_max == 40,
            c.front_page_minimum == 8,
            c.front_page_percent == 15,
            c.toc_page_min_score == 400,
            c.toc_min_entries_without_keyword == 4,
            c.toc_keyword_score == 200,
            c.toc_entry_score == 40,
            c.toc_entry_score_cap == 400,
            c.toc_leader_score == 150,
            c.toc_right_cluster_score == 150,
            c.toc_short_line_score == 100,
            c.toc_adjacent_page_score == 100,
            c.max_toc_entries == 10_000,
            c.max_shortlist == 32,
            c.max_continuation_lines == 3,
            c.max_auto_level == 8,
            c.max_title_bytes == 4_096,
            c.furniture_min_pages == 3,
            c.furniture_percent == 60,
            c.furniture_band_percent == 12,
            c.body_top_percent == 45,
            c.auto_confirm_total == 9_200,
            c.auto_confirm_title == 3_600,
            c.auto_confirm_margin == 600,
            c.auto_confirm_min_word_confidence_permille == 800,
            c.review_total == 7_500,
            c.max_page_residual == 1,
            c.segment_change_penalty == 600,
            c.anchor_mismatch_penalty == 400,
            c.anchor_min_title_score == 3_000,
    {
        AutoBookmarkConfig {
            rule_version: RULE_VERSION.to_owned(),
            front_page_absolute_max: 40,
            front_page_minimum: 8,
            front_page_percent: 15,
            toc_page_min_score: 400,
            toc_min_entries_without_keyword: 4,
            toc_keyword_score: 200,
            toc_entry_score: 40,
            toc_entry_score_cap: 400,
            toc_leader_score: 150,
            toc_right_cluster_score: 150,
            toc_short_line_score: 100,
            toc_adjacent_page_score: 100,
            max_toc_entries: 10_000,
            max_shortlist: 32,
            max_continuation_lines: 3,
            max_auto_level: 8,
            max_title_bytes: 4_096,
            furniture_min_pages: 3,
            furniture_percent: 60,
            furniture_band_percent: 12,
            body_top_percent: 45,
            auto_confirm_total: 9_200,
            auto_confirm_title: 3_600,
            auto_confirm_margin: 600,
            auto_confirm_min_word_confidence_permille: 800,
            review_total: 7_500,
            max_page_residual: 1,
            segment_change_penalty: 600,
            anchor_mismatch_penalty: 400,
            anchor_min_title_score: 3_000,
        }
    }
}

/// `min(a, b)` over integers.
pub open spec fn min_int(a: int, b: int) -> int {
    if a <= b {
        a
    } else {
        b
    }
}

/// `max(a, b)` over integers.
pub open spec fn max_int(a: int, b: int) -> int {
    if a >= b {
        a
    } else {
        b
    }
}

impl AutoBookmarkConfig {
    /// The compact JSON text of the configuration, fields in declaration
    /// order.
    pub fn canonical_json(&self) -> (s: String)
        ensures
            s@ == config_json(*self),
    {
        let mut s = String::new();
        push_str(&mut s, "{\"rule_version\":");
        push_json_string(&mut s, self.rule_version.as_str());
        push_str(&mut s, ",\"front_page_absolute_max\":");
        push_decimal(&mut s, self.front_page_absolute_max as u64);
        push_str(&mut s, ",\"front_page_minimum\":");
        push_decimal(&mut s, self.front_page_minimum as u64);
        push_str(&mut s, ",\"front_page_percent\":");
        push_decimal(&mut s, self.front_page_percent as u64);
        push_str(&mut s, ",\"toc_page_min_score\":");
        push_decimal(&mut s, self.toc_page_min_score as u64);
        push_str(&mut s, ",\"toc_min_entries_without_keyword\":");
        push_decimal(&mut s, self.toc_min_entries_without_keyword as u64);
        push_str(&mut s, ",\"toc_keyword_score\":");
        push_decimal(&mut s, self.toc_keyword_score as u64);
        push_str(&mut s, ",\"toc_entry_score\":");
        push_decimal(&mut s, self.toc_entry_score as u64);
        push_str(&mut s, ",\"toc_entry_score_cap\":");
        push_decimal(&mut s, self.toc_entry_score_cap as u64);
        push_str(&mut s, ",\"toc_leader_score\":");
        push_decimal(&mut s, self.toc_leader_score as u64);
        push_str(&mut s, ",\"toc_right_cluster_score\":");
        push_decimal(&mut s, self.toc_right_cluster_score as u64);
        push_str(&mut s, ",\"toc_short_line_score\":");
        push_decimal(&mut s, self.toc_short_line_score as u64);
        push_str(&mut s, ",\"toc_adjacent_page_score\":");
        push_decimal(&mut s, self.toc_adjacent_page_score as u64);
        push_str(&mut s, ",\"max_toc_entries\":");
        push_decimal(&mut s, self.max_toc_entries as u64);
        push_str(&mut s, ",\"max_shortlist\":");
        push_decimal(&mut s, self.max_shortlist as u64);
        push_str(&mut s, ",\"max_continuation_lines\":");
        push_decimal(&mut s, self.max_continuation_lines as u64);
        push_str(&mut s, ",\"max_auto_level\":");
        push_decimal(&mut s, self.max_auto_level as u64);
        push_str(&mut s, ",\"max_title_bytes\":");
        push_decimal(&mut s, self.max_title_bytes as u64);
        push_str(&mut s, ",\"furniture_min_pages\":");
        push_decimal(&mut s, self.furniture_min_pages as u64);
        push_str(&mut s, ",\"furniture_percent\":");
        push_decimal(&mut s, self.furniture_percent as u64);
        push_str(&mut s, ",\"furniture_band_percent\":");
        push_decimal(&mut s, self.furniture_band_percent as u64);
        push_str(&mut s, ",\"body_top_percent\":");
        push_decimal(&mut s, self.body_top_percent as u64);
        push_str(&mut s, ",\"auto_confirm_total\":");
        push_decimal(&mut s, self.auto_confirm_total as u64);
        push_str(&mut s, ",\"auto_confirm_title\":");
        push_decimal(&mut s, self.auto_confirm_title as u64);
        push_str(&mut s, ",\"auto_confirm_margin\":");
        push_decimal(&mut s, self.auto_confirm_margin as u64);
        push_str(&mut s, ",\"auto_confirm_min_word_confidence_permille\":");
        push_decimal(&mut s, self.auto_confirm_min_word_confidence_permille as u64);
        push_str(&mut s, ",\"review_total\":");
        push_decimal(&mut s, self.review_total as u64);
        push_str(&mut s, ",\"max_page_residual\":");
        push_decimal(&mut s, self.max_page_residual as u64);
        push_str(&mut s, ",\"segment_change_penalty\":");
        push_decimal(&mut s, self.segment_change_penalty as u64);
        push_str(&mut s, ",\"anchor_mismatch_penalty\":");
        push_decimal(&mut s, self.anchor_mismatch_penalty as u64);
        push_str(&mut s, ",\"anchor_min_title_score\":");
        push_decimal(&mut s, self.anchor_min_title_score as u64);
        push_str(&mut s, "}");
        s
    }

    /// A stable digest of the whole frozen configuration: the SHA-256 of its
    /// compact JSON text. Adding a field or changing a default changes the
    /// digest and therefore invalidates stale automatic decisions.
    pub fn digest(&self) -> (d: String)
        ensures
            d@ == hex_of(sha256(vstd::utf8::encode_utf8(config_json(*self)))),
            is_digest(d@),
    {
        let json = self.canonical_json();
        sha256_hex_str(json.as_str())
    }

    /// The front-matter scan window for a document of `page_count` pages.
    pub open spec fn spec_front_page_limit(&self, page_count: u32) -> int {
        let fraction = (page_count * self.front_page_percent + 99) / 100;
        let fraction = if fraction > u32::MAX {
            u32::MAX as int
        } else {
            fraction
        };
        min_int(
            page_count as int,
            min_int(
                self.front_page_absolute_max as int,
                max_int(self.front_page_minimum as int, fraction),
            ),
        )
    }

    /// Front-matter page window actually scanned for a printed contents list.
    pub fn front_page_limit(&self, page_count: u32) -> (limit: u32)
        ensures
            limit == self.spec_front_page_limit(page_count),
            limit <= page_count,
    {
        assert((page_count as u64) * (self.front_page_percent as u64) <= u64::MAX) by (nonlinear_arith);
        let product: u64 = (page_count as u64) * (self.front_page_percent as u64);
        let fraction: u64 = product / 100 + if product % 100 == 0 { 0 } else { 1 };
        assert(fraction == (page_count * self.front_page_percent + 99) / 100);
        let fraction: u32 = if fraction > u32::MAX as u64 {
            u32::MAX
        } else {
            fraction as u32
        };
        let lower = if self.front_page_minimum >= fraction {
            self.front_page_minimum
        } else {
            fraction
        };
        let capped = if self.front_page_absolute_max <= lower {
            self.front_page_absolute_max
        } else {
            lower
        };
        if page_count <= capped {
            page_count
        } else {
            capped
        }
    }
}

} // verus!
