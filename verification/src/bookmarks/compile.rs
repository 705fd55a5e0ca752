//! Per-entry decisions for candidates made from printed contents that do not depend
//! on geometry: the runner-up margin of the chosen body target and the
//! reason codes such a candidate carries.

use vstd::prelude::*;

use super::config::{
    AutoBookmarkConfig, SCORE_LAYOUT_MAX, SCORE_NUMBERING_MAX, SCORE_OCR_MAX, SCORE_PAGE_MAX,
    SCORE_SEQUENCE_MAX, SCORE_TITLE_MAX,
};
use super::model::{BookmarkStatus, ConfidenceBreakdown};
use super::mapping::PageMapping;
use super::scoring::{
    abs_i64, blockers, breakdown, decide, min_u32, numbering_score, page_score, sequence_score, Decision,
    GateContext,
};
use super::text_index::primary_spec;
use crate::text::{concat, push_owned, views};

verus! {

/// The largest score in `row` other than the one at `chosen`, or 0.
pub open spec fn best_other(row: Seq<u32>, chosen: int, n: int) -> u32
    decreases n,
{
    if n <= 0 {
        0
    } else {
        let rest = best_other(row, chosen, n - 1);
        if n - 1 == chosen || row[n - 1] <= rest {
            rest
        } else {
            row[n - 1]
        }
    }
}

/// How far the chosen target's preliminary score lies above the best other
/// target of the same entry (0 when no target was chosen, and never below
/// 0).
pub open spec fn margin_spec(row: Seq<u32>, chosen: Option<usize>) -> u32 {
    match chosen {
        Some(c) => {
            let other = best_other(row, c as int, row.len() as int);
            if row[c as int] >= other {
                (row[c as int] - other) as u32
            } else {
                0
            }
        },
        None => 0,
    }
}

/// The runner-up margin of an entry's chosen target among its preliminary
/// scores.
pub fn runner_up_margin(row: &[u32], chosen: Option<usize>) -> (m: u32)
    requires
        chosen matches Some(c) ==> c < row@.len(),
    ensures
        m == margin_spec(row@, chosen),
{
    match chosen {
        None => 0,
        Some(c) => {
            let mut other: u32 = 0;
            let mut i: usize = 0;
            while i < row.len()
                invariant
                    i <= row@.len(),
                    other == best_other(row@, c as int, i as int),
                decreases row.len() - i,
            {
                if i != c && row[i] > other {
                    other = row[i];
                }
                i = i + 1;
            }
            let best = row[c];
            if best >= other {
                best - other
            } else {
                0
            }
        },
    }
}

/// The reason codes of a contents candidate, in this order and at most 32
/// of them: those of the automatic decision, the page-agreement reason, the
/// marker for a body line a person corrected (when there is one), those of
/// the parsed entry and `level_` followed by the level rule.
pub open spec fn candidate_codes_spec(
    decision: Seq<Seq<char>>,
    page_reason: Seq<char>,
    human_revised: bool,
    draft: Seq<Seq<char>>,
    level_reason: Seq<char>,
) -> Seq<Seq<char>> {
    let all = decision.push(page_reason) + (if human_revised {
        seq!["human_revision_applied"@]
    } else {
        Seq::empty()
    }) + draft.push("level_"@ + level_reason);
    if all.len() > 32 {
        all.take(32)
    } else {
        all
    }
}

/// Assembles the reason codes of a contents candidate; see
/// [`candidate_codes_spec`].
pub fn candidate_reason_codes(
    decision: &[String],
    page_reason: &str,
    human_revised: bool,
    draft: &[String],
    level_reason: &str,
) -> (codes: Vec<String>)
    ensures
        views(codes@) == candidate_codes_spec(views(decision@), page_reason@, human_revised, views(draft@), level_reason@),
{
    let mut codes: Vec<String> = Vec::new();
    let mut i: usize = 0;
    while i < decision.len()
        invariant
            i <= decision@.len(),
            views(codes@) == views(decision@).take(i as int),
        decreases decision.len() - i,
    {
        push_owned(&mut codes, decision[i].as_str());
        i = i + 1;
        assert(views(decision@).take(i as int) =~= views(decision@).take(i - 1 as int).push(decision@[i - 1]@));
    }
    assert(views(decision@).take(decision@.len() as int) =~= views(decision@));
    push_owned(&mut codes, page_reason);
    if human_revised {
        push_owned(&mut codes, "human_revision_applied");
    }
    let ghost head = views(codes@);
    let mut j: usize = 0;
    while j < draft.len()
        invariant
            j <= draft@.len(),
            views(codes@) == head + views(draft@).take(j as int),
        decreases draft.len() - j,
    {
        push_owned(&mut codes, draft[j].as_str());
        j = j + 1;
        assert(views(draft@).take(j as int) =~= views(draft@).take(j - 1 as int).push(draft@[j - 1]@));
        assert(views(codes@) =~= head + views(draft@).take(j as int));
    }
    assert(views(draft@).take(draft@.len() as int) =~= views(draft@));
    let level = concat("level_", level_reason);
    push_owned(&mut codes, level.as_str());
    let ghost all = views(codes@);
    assert(all =~= views(decision@).push(page_reason@) + (if human_revised {
        seq!["human_revision_applied"@]
    } else {
        Seq::empty()
    }) + views(draft@).push("level_"@ + level_reason@));
    if codes.len() > 32 {
        codes.truncate(32);
        assert(views(codes@) =~= all.take(32));
    }
    codes
}

/// What the preliminary scoring reads of one body target of a contents
/// entry: the page it is on, and its title, layout and OCR scores.
#[derive(Debug, Clone)]
pub struct TargetFacts {
    pub physical_page: u32,
    pub title_score: u32,
    pub layout_score: u32,
    pub ocr_score: u32,
    pub body_primary_key: String,
}

/// What the preliminary scoring reads of a contents entry: its printed page
/// number, its numbering prefix and its body targets.
#[derive(Debug, Clone)]
pub struct EntryFacts {
    pub printed: Option<u32>,
    pub numbering_prefix: Option<String>,
    pub targets: Vec<TargetFacts>,
}

/// How far a target's page lies from where entry `ordinal`'s printed number
/// says it should be under the page mapping, when the entry has a printed
/// number that the mapping places.
pub open spec fn residual_spec(mapping: PageMapping, ordinal: int, printed: Option<u32>, physical: u32) -> Option<int> {
    match printed {
        None => None,
        Some(v) => match mapping.segment_of_spec(ordinal as usize) {
            Some(seg) => if v + seg.offset <= i64::MAX && v + seg.offset >= i64::MIN {
                Some(physical - (v + seg.offset))
            } else {
                None
            },
            None => None,
        },
    }
}

/// The page-agreement score of a residual (see [`page_score`]).
pub open spec fn page_component(residual: Option<int>, config: AutoBookmarkConfig) -> int {
    match residual {
        Some(v) => if v == 0 {
            SCORE_PAGE_MAX as int
        } else if (if v < 0 {
            -v
        } else {
            v
        }) <= config.max_page_residual {
            SCORE_PAGE_MAX * 3 / 5
        } else {
            0
        },
        None => 0,
    }
}

/// The numbering score of a target's body line (see [`numbering_score`]).
pub open spec fn numbering_component(prefix: Option<Seq<char>>, key: Seq<char>) -> int {
    match prefix {
        Some(p) => {
            let k = primary_spec(p);
            if k.len() > 0 && k.len() <= key.len() && key.take(k.len() as int) == k {
                SCORE_NUMBERING_MAX as int
            } else {
                SCORE_NUMBERING_MAX * 3 / 5
            }
        },
        None => (SCORE_NUMBERING_MAX / 2) as int,
    }
}

/// The preliminary score of target `t` of entry `ordinal`: its title score,
/// the page agreement, the numbering agreement, its layout and OCR scores.
pub open spec fn preliminary_spec(
    mapping: PageMapping,
    config: AutoBookmarkConfig,
    ordinal: int,
    e: EntryFacts,
    t: TargetFacts,
) -> int {
    t.title_score + page_component(residual_spec(mapping, ordinal, e.printed, t.physical_page), config)
        + numbering_component(
        match e.numbering_prefix {
            Some(p) => Some(p@),
            None => None,
        },
        t.body_primary_key@,
    ) + t.layout_score + t.ocr_score
}

/// Target `t` of entry `ordinal` is scored without overflow: its residual
/// fits an `i64` and its preliminary score a `u32`.
pub open spec fn score_fits(
    mapping: PageMapping,
    config: AutoBookmarkConfig,
    ordinal: int,
    e: EntryFacts,
    t: TargetFacts,
) -> bool {
    &&& (residual_spec(mapping, ordinal, e.printed, t.physical_page) matches Some(r) ==> i64::MIN <= r
        <= i64::MAX)
    &&& preliminary_spec(mapping, config, ordinal, e, t) <= u32::MAX
}

/// The preliminary score of every target of every entry, used only to
/// choose the monotone assignment (see [`preliminary_spec`]).
pub fn preliminary_scores(entries: &[EntryFacts], mapping: &PageMapping, config: &AutoBookmarkConfig) -> (rows:
    Vec<Vec<u32>>)
    requires
        forall|i: int, t: int|
            0 <= i < entries@.len() && 0 <= t < entries@[i].targets@.len() ==> #[trigger] score_fits(
                *mapping,
                *config,
                i,
                entries@[i],
                entries@[i].targets@[t],
            ),
    ensures
        rows@.len() == entries@.len(),
        forall|i: int|
            0 <= i < entries@.len() ==> (#[trigger] rows@[i])@.len() == entries@[i].targets@.len(),
        forall|i: int, t: int|
            0 <= i < entries@.len() && 0 <= t < entries@[i].targets@.len() ==> #[trigger] rows@[i]@[t]
                == preliminary_spec(*mapping, *config, i, entries@[i], entries@[i].targets@[t]),
{
    let mut rows: Vec<Vec<u32>> = Vec::new();
    let mut i: usize = 0;
    while i < entries.len()
        invariant
            i <= entries@.len(),
            forall|k: int, t: int|
                0 <= k < entries@.len() && 0 <= t < entries@[k].targets@.len() ==> #[trigger] score_fits(
                    *mapping,
                    *config,
                    k,
                    entries@[k],
                    entries@[k].targets@[t],
                ),
            rows@.len() == i,
            forall|k: int| 0 <= k < i ==> (#[trigger] rows@[k])@.len() == entries@[k].targets@.len(),
            forall|k: int, t: int|
                0 <= k < i && 0 <= t < entries@[k].targets@.len() ==> #[trigger] rows@[k]@[t]
                    == preliminary_spec(*mapping, *config, k, entries@[k], entries@[k].targets@[t]),
        decreases entries.len() - i,
    {
        let e = &entries[i];
        let prefix: Option<&str> = match &e.numbering_prefix {
            Some(p) => Some(p.as_str()),
            None => None,
        };
        let mut row: Vec<u32> = Vec::new();
        let mut t: usize = 0;
        while t < e.targets.len()
            invariant
                i < entries@.len(),
                *e == entries@[i as int],
                match prefix {
                    Some(x) => e.numbering_prefix is Some && x@ == e.numbering_prefix->0@,
                    None => e.numbering_prefix is None,
                },
                t <= e.targets@.len(),
                forall|u: int|
                    0 <= u < e.targets@.len() ==> #[trigger] score_fits(*mapping, *config, i as int, *e, e.targets@[u]),
                row@.len() == t,
                forall|u: int|
                    0 <= u < t ==> #[trigger] row@[u] == preliminary_spec(*mapping, *config, i as int, *e, e.targets@[u]),
            decreases e.targets.len() - t,
        {
            let target = &e.targets[t];
            let ghost want = residual_spec(*mapping, i as int, e.printed, target.physical_page);
            assert(score_fits(*mapping, *config, i as int, *e, e.targets@[t as int]));
            let residual: Option<i64> = match e.printed {
                Some(v) => match mapping.expected_page(i, v) {
                    Some(expected) => Some(target.physical_page as i64 - expected),
                    None => None,
                },
                None => None,
            };
            assert(match residual {
                Some(r) => want == Some(r as int),
                None => want is None,
            });
            let (page, _) = page_score(residual, config);
            assert(page as int == page_component(want, *config));
            let numbering = numbering_score(prefix, target.body_primary_key.as_str());
            let score = target.title_score + page + numbering + target.layout_score + target.ocr_score;
            row.push(score);
            t = t + 1;
        }
        rows.push(row);
        i = i + 1;
    }
    rows
}

/// The page-agreement reason of a residual (see [`page_score`]).
pub open spec fn page_reason_spec(residual: Option<i64>, config: AutoBookmarkConfig) -> Seq<char> {
    match residual {
        Some(v) => if v == 0 {
            "printed_page_exact"@
        } else if abs_i64(v) <= config.max_page_residual {
            "printed_page_near"@
        } else {
            "printed_page_disagrees"@
        },
        None => "printed_page_unmapped"@,
    }
}

/// The uniqueness score of a margin (see [`sequence_score`]).
pub open spec fn sequence_spec(margin: u32, monotone: bool, config: AutoBookmarkConfig) -> u32 {
    min_u32(
        ((if monotone {
            600int
        } else {
            0int
        }) + if margin >= config.auto_confirm_margin {
            400int
        } else {
            margin * 400 / (if config.auto_confirm_margin > 1 {
                config.auto_confirm_margin as int
            } else {
                1int
            })
        }) as u32,
        SCORE_SEQUENCE_MAX,
    )
}

/// The breakdown of [`breakdown`] for these component scores.
pub open spec fn breakdown_spec(title: u32, page: u32, numbering: u32, layout: u32, ocr: u32, sequence: u32) -> ConfidenceBreakdown {
    let t = min_u32(title, SCORE_TITLE_MAX);
    let p = min_u32(page, SCORE_PAGE_MAX);
    let n = min_u32(numbering, SCORE_NUMBERING_MAX);
    let l = min_u32(layout, SCORE_LAYOUT_MAX);
    let o = min_u32(ocr, SCORE_OCR_MAX);
    let q = min_u32(sequence, SCORE_SEQUENCE_MAX);
    ConfidenceBreakdown {
        title_match: t,
        page_mapping: p,
        numbering_hierarchy: n,
        body_layout: l,
        ocr_quality: o,
        sequence_uniqueness: q,
        total: (t + p + n + l + o + q) as u32,
    }
}

/// `d` is the automatic decision on breakdown `b` in `context` (see
/// [`decide`]).
pub open spec fn decision_of(b: ConfidenceBreakdown, context: GateContext, config: AutoBookmarkConfig, d: Decision) -> bool {
    &&& blockers(b, context, config).len() == 0 ==> d.status == BookmarkStatus::AutoConfirmed && d.reason@
        == "toc_body_alignment_consensus"@ && views(d.reason_codes@) == seq![
        "toc_body_alignment_consensus"@,
        "printed_page_consensus"@,
    ]
    &&& blockers(b, context, config).len() > 0 ==> views(d.reason_codes@) == blockers(b, context, config)
        && d.reason@ == blockers(b, context, config)[0] && (d.status == BookmarkStatus::Skipped <==> (
    !context.has_body_evidence || context.repeated_furniture || b.total < config.review_total)) && (d.status
        == BookmarkStatus::Skipped || d.status == BookmarkStatus::NeedsReview)
}

/// Scores and decides one contents entry: the page agreement from the
/// context's residual, the uniqueness from its margin and whether the entry
/// kept a target, the breakdown of the chosen target's scores (all 0 when
/// it kept none), the automatic decision, and the candidate's reason codes
/// (see [`candidate_codes_spec`]).
pub fn decide_entry(
    title: u32,
    numbering: u32,
    layout: u32,
    ocr: u32,
    context: &GateContext,
    human_revised: bool,
    draft_codes: &[String],
    level_reason: &str,
    config: &AutoBookmarkConfig,
) -> (r: (ConfidenceBreakdown, Decision, Vec<String>))
    requires
        context.runner_up_margin >= config.auto_confirm_margin || context.runner_up_margin * 400 <= u32::MAX,
    ensures
        r.0 == breakdown_spec(
            title,
            page_component(
                match context.printed_page_residual {
                    Some(v) => Some(v as int),
                    None => None,
                },
                *config,
            ) as u32,
            numbering,
            layout,
            ocr,
            sequence_spec(context.runner_up_margin, context.monotone, *config),
        ),
        decision_of(r.0, *context, *config, r.1),
        views(r.2@) == candidate_codes_spec(
            views(r.1.reason_codes@),
            page_reason_spec(context.printed_page_residual, *config),
            human_revised,
            views(draft_codes@),
            level_reason@,
        ),
{
    let (page, page_reason) = page_score(context.printed_page_residual, config);
    let sequence = sequence_score(context.runner_up_margin, context.monotone, config);
    let b = breakdown(title, page, numbering, layout, ocr, sequence);
    let d = decide(&b, context, config);
    let codes = candidate_reason_codes(d.reason_codes.as_slice(), page_reason, human_revised, draft_codes, level_reason);
    (b, d, codes)
}

} // verus!
