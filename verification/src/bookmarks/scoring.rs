//! The frozen integer score and the automatic-confirmation gate.
//!
//! Scores are integers on a 0..=10,000 scale so that a decision never
//! depends on floating-point comparison order.

use vstd::prelude::*;

use super::config::{
    AutoBookmarkConfig, SCORE_LAYOUT_MAX, SCORE_NUMBERING_MAX, SCORE_OCR_MAX, SCORE_PAGE_MAX,
    SCORE_SEQUENCE_MAX, SCORE_TITLE_MAX, SCORE_TOTAL,
};
use super::model::{BookmarkStatus, ConfidenceBreakdown};
use super::text_index::{primary_key, primary_spec};
use crate::text::{push_owned, starts_with, views};

verus! {

/// What the automatic decision reads besides the numeric breakdown. Word
/// confidences are in permille (0..=1000).
#[derive(Debug, Clone)]
pub struct GateContext {
    pub min_toc_confidence_permille: u32,
    pub min_body_confidence_permille: u32,
    pub runner_up_margin: u32,
    pub has_body_evidence: bool,
    pub printed_page_residual: Option<i64>,
    pub residual_supported: bool,
    pub level_ambiguous: bool,
    pub secondary_only: bool,
    pub monotone: bool,
    pub approximate_multi_column: bool,
    pub repeated_furniture: bool,
    pub truncated: bool,
}

#[derive(Debug, Clone)]
pub struct Decision {
    pub status: BookmarkStatus,
    pub reason: String,
    pub reason_codes: Vec<String>,
}

pub open spec fn min_u32(a: u32, b: u32) -> u32 {
    if a <= b {
        a
    } else {
        b
    }
}

/// Clamps each component to its ceiling and sums them.
pub fn breakdown(title: u32, page: u32, numbering: u32, layout: u32, ocr: u32, sequence: u32) -> (b:
    ConfidenceBreakdown)
    ensures
        b.title_match == min_u32(title, SCORE_TITLE_MAX),
        b.page_mapping == min_u32(page, SCORE_PAGE_MAX),
        b.numbering_hierarchy == min_u32(numbering, SCORE_NUMBERING_MAX),
        b.body_layout == min_u32(layout, SCORE_LAYOUT_MAX),
        b.ocr_quality == min_u32(ocr, SCORE_OCR_MAX),
        b.sequence_uniqueness == min_u32(sequence, SCORE_SEQUENCE_MAX),
        b.total == b.title_match + b.page_mapping + b.numbering_hierarchy + b.body_layout
            + b.ocr_quality + b.sequence_uniqueness,
        b.consistent(),
{
    let title = if title <= SCORE_TITLE_MAX { title } else { SCORE_TITLE_MAX };
    let page = if page <= SCORE_PAGE_MAX { page } else { SCORE_PAGE_MAX };
    let numbering = if numbering <= SCORE_NUMBERING_MAX { numbering } else { SCORE_NUMBERING_MAX };
    let layout = if layout <= SCORE_LAYOUT_MAX { layout } else { SCORE_LAYOUT_MAX };
    let ocr = if ocr <= SCORE_OCR_MAX { ocr } else { SCORE_OCR_MAX };
    let sequence = if sequence <= SCORE_SEQUENCE_MAX { sequence } else { SCORE_SEQUENCE_MAX };
    let sum = title + page + numbering + layout + ocr + sequence;
    ConfidenceBreakdown {
        title_match: title,
        page_mapping: page,
        numbering_hierarchy: numbering,
        body_layout: layout,
        ocr_quality: ocr,
        sequence_uniqueness: sequence,
        total: if sum <= SCORE_TOTAL { sum } else { SCORE_TOTAL },
    }
}

/// `|v|` as a natural number.
pub open spec fn abs_i64(v: i64) -> int {
    if v < 0 {
        -v
    } else {
        v as int
    }
}

fn unsigned_abs(v: i64) -> (r: u64)
    ensures
        r == abs_i64(v),
{
    if v < 0 {
        if v == i64::MIN {
            9_223_372_036_854_775_808u64
        } else {
            (-v) as u64
        }
    } else {
        v as u64
    }
}

/// Page-consensus component from the printed-label residual.
pub fn page_score(residual: Option<i64>, config: &AutoBookmarkConfig) -> (r: (u32, &'static str))
    ensures
        residual == Some(0i64) ==> r.0 == SCORE_PAGE_MAX && r.1@ == "printed_page_exact"@,
        residual matches Some(v) && v != 0 && abs_i64(v) <= config.max_page_residual ==> r.0
            == SCORE_PAGE_MAX * 3 / 5 && r.1@ == "printed_page_near"@,
        residual matches Some(v) && abs_i64(v) > config.max_page_residual ==> r.0 == 0 && r.1@
            == "printed_page_disagrees"@,
        residual is None ==> r.0 == 0 && r.1@ == "printed_page_unmapped"@,
{
    match residual {
        Some(0) => (SCORE_PAGE_MAX, "printed_page_exact"),
        Some(value) => {
            if unsigned_abs(value) <= config.max_page_residual as u64 {
                (SCORE_PAGE_MAX * 3 / 5, "printed_page_near")
            } else {
                (0, "printed_page_disagrees")
            }
        },
        None => (0, "printed_page_unmapped"),
    }
}

/// Agreement between a contents entry's numbering prefix and the primary
/// key of its matched body line: full marks when the folded prefix opens the
/// body key, three fifths when it does not, half when the entry has no prefix.
pub fn numbering_score(numbering_prefix: Option<&str>, body_primary_key: &str) -> (r: u32)
    ensures
        r as int == (match numbering_prefix {
            Some(p) => {
                let k = primary_spec(p@);
                if k.len() > 0 && k.len() <= body_primary_key@.len()
                    && body_primary_key@.take(k.len() as int) == k {
                    SCORE_NUMBERING_MAX as int
                } else {
                    SCORE_NUMBERING_MAX * 3 / 5
                }
            },
            None => (SCORE_NUMBERING_MAX / 2) as int,
        }),
{
    match numbering_prefix {
        Some(prefix) => {
            let normalized = primary_key(prefix);
            if normalized.as_str().unicode_len() > 0 && starts_with(body_primary_key, normalized.as_str()) {
                SCORE_NUMBERING_MAX
            } else {
                SCORE_NUMBERING_MAX * 3 / 5
            }
        },
        None => SCORE_NUMBERING_MAX / 2,
    }
}

/// Uniqueness component from the margin over the runner-up target.
pub fn sequence_score(margin: u32, monotone: bool, config: &AutoBookmarkConfig) -> (r: u32)
    requires
        margin >= config.auto_confirm_margin || margin * 400 <= u32::MAX,
    ensures
        r == min_u32(
            ((if monotone {
                600int
            } else {
                0int
            }) + if margin >= config.auto_confirm_margin {
                400int
            } else {
                margin * 400 / (if config.auto_confirm_margin > 1 {
                    config.auto_confirm_margin as int
                } else {
                    1int
                })
            }) as u32,
            SCORE_SEQUENCE_MAX,
        ),
{
    let monotone_part: u32 = if monotone { 600 } else { 0 };
    let denominator: u32 = if config.auto_confirm_margin > 1 { config.auto_confirm_margin } else { 1 };
    let unique_part: u32 = if margin >= config.auto_confirm_margin {
        400
    } else {
        proof {
            assert(margin * 400 / denominator as int <= margin * 400) by (nonlinear_arith)
                requires denominator >= 1;
            assert(margin < denominator || denominator == 1);
            assert(margin * 400 / denominator as int <= 400) by (nonlinear_arith)
                requires
                    margin < denominator,
                    denominator >= 1,
            ;
        }
        margin * 400 / denominator
    };
    let sum = monotone_part + unique_part;
    if sum <= SCORE_SEQUENCE_MAX { sum } else { SCORE_SEQUENCE_MAX }
}

/// Blocking reasons from the scores, the evidence and the margin, appended
/// to `s` in the order they are checked.
pub open spec fn gate_early(
    b: ConfidenceBreakdown,
    c: GateContext,
    config: AutoBookmarkConfig,
    s: Seq<Seq<char>>,
) -> Seq<Seq<char>> {
    let s1 = if !c.has_body_evidence { s.push("no_body_heading_evidence"@) } else { s };
    let s2 = if c.repeated_furniture { s1.push("repeated_header_footer"@) } else { s1 };
    let s3 = if b.total < config.auto_confirm_total { s2.push("total_score_below_gate"@) } else { s2 };
    let s4 = if b.title_match < config.auto_confirm_title { s3.push("title_score_below_gate"@) } else { s3 };
    let s5 = if c.min_toc_confidence_permille < config.auto_confirm_min_word_confidence_permille
        || c.min_body_confidence_permille < config.auto_confirm_min_word_confidence_permille {
        s4.push("low_word_confidence"@)
    } else {
        s4
    };
    if c.runner_up_margin < config.auto_confirm_margin {
        s5.push("runner_up_margin_too_small"@)
    } else {
        s5
    }
}

/// The printed-page residual's blocking reason, if any, appended to `s`.
pub open spec fn gate_residual(c: GateContext, config: AutoBookmarkConfig, s: Seq<Seq<char>>) -> Seq<Seq<char>> {
    match c.printed_page_residual {
        None => s.push("printed_page_unmapped"@),
        Some(v) => if v == 0 {
            s
        } else if abs_i64(v) <= config.max_page_residual {
            if !c.residual_supported { s.push("unsupported_page_residual"@) } else { s }
        } else {
            s.push("printed_page_disagrees"@)
        },
    }
}

/// Blocking reasons from hierarchy, matching, order, geometry and limits,
/// appended to `s`.
pub open spec fn gate_late(c: GateContext, s: Seq<Seq<char>>) -> Seq<Seq<char>> {
    let s8 = if c.level_ambiguous { s.push("ambiguous_level"@) } else { s };
    let s9 = if c.secondary_only { s8.push("secondary_key_match_only"@) } else { s8 };
    let s10 = if !c.monotone { s9.push("non_monotonic_target"@) } else { s9 };
    let s11 = if c.approximate_multi_column { s10.push("approximate_geometry_multi_column"@) } else { s10 };
    if c.truncated { s11.push("resource_limit_truncated"@) } else { s11 }
}

/// The blocking reasons of the automatic gate, in the order they are checked.
pub open spec fn blockers(
    b: ConfidenceBreakdown,
    c: GateContext,
    config: AutoBookmarkConfig,
) -> Seq<Seq<char>> {
    gate_late(c, gate_residual(c, config, gate_early(b, c, config, seq![])))
}

fn push_early(found: &mut Vec<String>, breakdown: &ConfidenceBreakdown, context: &GateContext, config: &AutoBookmarkConfig)
    ensures
        views(final(found)@) == gate_early(*breakdown, *context, *config, views(old(found)@)),
{
    if !context.has_body_evidence {
        push_owned(found, "no_body_heading_evidence");
    }
    if context.repeated_furniture {
        push_owned(found, "repeated_header_footer");
    }
    if breakdown.total < config.auto_confirm_total {
        push_owned(found, "total_score_below_gate");
    }
    if breakdown.title_match < config.auto_confirm_title {
        push_owned(found, "title_score_below_gate");
    }
    if context.min_toc_confidence_permille < config.auto_confirm_min_word_confidence_permille
        || context.min_body_confidence_permille < config.auto_confirm_min_word_confidence_permille {
        push_owned(found, "low_word_confidence");
    }
    if context.runner_up_margin < config.auto_confirm_margin {
        push_owned(found, "runner_up_margin_too_small");
    }
}

fn push_residual(found: &mut Vec<String>, context: &GateContext, config: &AutoBookmarkConfig)
    ensures
        views(final(found)@) == gate_residual(*context, *config, views(old(found)@)),
{
    match context.printed_page_residual {
        None => push_owned(found, "printed_page_unmapped"),
        Some(value) => {
            if value == 0 {
            } else if unsigned_abs(value) <= config.max_page_residual as u64 {
                if !context.residual_supported {
                    push_owned(found, "unsupported_page_residual");
                }
            } else {
                push_owned(found, "printed_page_disagrees");
            }
        },
    }
}

fn push_late(found: &mut Vec<String>, context: &GateContext)
    ensures
        views(final(found)@) == gate_late(*context, views(old(found)@)),
{
    if context.level_ambiguous {
        push_owned(found, "ambiguous_level");
    }
    if context.secondary_only {
        push_owned(found, "secondary_key_match_only");
    }
    if !context.monotone {
        push_owned(found, "non_monotonic_target");
    }
    if context.approximate_multi_column {
        push_owned(found, "approximate_geometry_multi_column");
    }
    if context.truncated {
        push_owned(found, "resource_limit_truncated");
    }
}

/// The frozen gate. Anything that is not unambiguously supported becomes
/// `NeedsReview` or `Skipped`; nothing here can promote a weak match.
pub fn decide(breakdown: &ConfidenceBreakdown, context: &GateContext, config: &AutoBookmarkConfig) -> (d:
    Decision)
    ensures
        blockers(*breakdown, *context, *config).len() == 0 ==> d.status
            == BookmarkStatus::AutoConfirmed && d.reason@ == "toc_body_alignment_consensus"@
            && views(d.reason_codes@) == seq![
            "toc_body_alignment_consensus"@,
            "printed_page_consensus"@,
        ],
        blockers(*breakdown, *context, *config).len() > 0 ==> views(d.reason_codes@) == blockers(
            *breakdown,
            *context,
            *config,
        ) && d.reason@ == blockers(*breakdown, *context, *config)[0] && (d.status
            == BookmarkStatus::Skipped <==> (!context.has_body_evidence
            || context.repeated_furniture || breakdown.total < config.review_total)) && (
        d.status == BookmarkStatus::Skipped || d.status == BookmarkStatus::NeedsReview),
{
    let mut found: Vec<String> = Vec::new();
    assert(views(found@) =~= seq![]);
    push_early(&mut found, breakdown, context, config);
    push_residual(&mut found, context, config);
    push_late(&mut found, context);
    proof {
        lemma_blockers_count(*breakdown, *context, *config);
    }
    if found.len() == 0 {
        let mut codes: Vec<String> = Vec::new();
        push_owned(&mut codes, "toc_body_alignment_consensus");
        push_owned(&mut codes, "printed_page_consensus");
        assert(views(codes@) =~= seq!["toc_body_alignment_consensus"@, "printed_page_consensus"@]);
        return Decision {
            status: BookmarkStatus::AutoConfirmed,
            reason: "toc_body_alignment_consensus".to_owned(),
            reason_codes: codes,
        };
    }
    let unrecoverable = !context.has_body_evidence || context.repeated_furniture;
    proof {
        lemma_unrecoverable_blocks(*breakdown, *context, *config);
    }
    found.truncate(32);
    let reason = found[0].clone();
    assert(views(found@)[0] == found@[0]@);
    if unrecoverable || breakdown.total < config.review_total {
        return Decision { status: BookmarkStatus::NeedsReview, reason, reason_codes: found }.into_skipped();
    }
    Decision { reason, status: BookmarkStatus::NeedsReview, reason_codes: found }
}

proof fn lemma_stage_growth(b: ConfidenceBreakdown, c: GateContext, config: AutoBookmarkConfig, s: Seq<Seq<char>>)
    ensures
        s.len() <= gate_early(b, c, config, s).len() <= s.len() + 6,
        s.len() <= gate_residual(c, config, s).len() <= s.len() + 1,
        s.len() <= gate_late(c, s).len() <= s.len() + 5,
        gate_early(b, c, config, s).len() == s.len() <==> (c.has_body_evidence && !c.repeated_furniture
            && b.total >= config.auto_confirm_total && b.title_match >= config.auto_confirm_title
            && c.min_toc_confidence_permille >= config.auto_confirm_min_word_confidence_permille
            && c.min_body_confidence_permille >= config.auto_confirm_min_word_confidence_permille
            && c.runner_up_margin >= config.auto_confirm_margin),
        gate_residual(c, config, s).len() == s.len() <==> (c.printed_page_residual matches Some(v)
            && (v == 0 || (abs_i64(v) <= config.max_page_residual && c.residual_supported))),
        gate_late(c, s).len() == s.len() <==> (!c.level_ambiguous && !c.secondary_only
            && c.monotone && !c.approximate_multi_column && !c.truncated),
{
}

proof fn lemma_blockers_count(b: ConfidenceBreakdown, c: GateContext, config: AutoBookmarkConfig)
    ensures
        blockers(b, c, config).len() <= 12,
{
    let e = gate_early(b, c, config, seq![]);
    let r = gate_residual(c, config, e);
    lemma_stage_growth(b, c, config, seq![]);
    lemma_stage_growth(b, c, config, e);
    lemma_stage_growth(b, c, config, r);
}

/// A missing body heading or a repeated header/footer is the first
/// blocking reason recorded when present.
proof fn lemma_unrecoverable_blocks(b: ConfidenceBreakdown, c: GateContext, config: AutoBookmarkConfig)
    ensures
        (!c.has_body_evidence || c.repeated_furniture) ==> blockers(b, c, config).len() > 0,
{
    let e = gate_early(b, c, config, seq![]);
    let r = gate_residual(c, config, e);
    lemma_stage_growth(b, c, config, seq![]);
    lemma_stage_growth(b, c, config, e);
    lemma_stage_growth(b, c, config, r);
}

/// A decision confirms automatically exactly when no blocking reason
/// applies; a single blocker is always enough to withhold confirmation.
pub proof fn lemma_gate_confirms_only_without_blockers(
    b: ConfidenceBreakdown,
    c: GateContext,
    config: AutoBookmarkConfig,
)
    ensures
        blockers(b, c, config).len() == 0 <==> (c.has_body_evidence && !c.repeated_furniture
            && b.total >= config.auto_confirm_total && b.title_match >= config.auto_confirm_title
            && c.min_toc_confidence_permille >= config.auto_confirm_min_word_confidence_permille
            && c.min_body_confidence_permille >= config.auto_confirm_min_word_confidence_permille
            && c.runner_up_margin >= config.auto_confirm_margin && (c.printed_page_residual
            matches Some(v) && (v == 0 || (abs_i64(v) <= config.max_page_residual
            && c.residual_supported))) && !c.level_ambiguous && !c.secondary_only && c.monotone
            && !c.approximate_multi_column && !c.truncated),
        blockers(b, c, config).len() <= 12,
{
    let e = gate_early(b, c, config, seq![]);
    let r = gate_residual(c, config, e);
    lemma_stage_growth(b, c, config, seq![]);
    lemma_stage_growth(b, c, config, e);
    lemma_stage_growth(b, c, config, r);
}

impl Decision {
    /// Below the review floor an entry is not carried as a proposal: it is
    /// reported as skipped with its blocking reasons intact.
    pub fn into_skipped(self) -> (d: Self)
        ensures
            d.status == BookmarkStatus::Skipped,
            d.reason == self.reason,
            d.reason_codes == self.reason_codes,
    {
        let mut d = self;
        d.status = BookmarkStatus::Skipped;
        d
    }
}

} // verus!
