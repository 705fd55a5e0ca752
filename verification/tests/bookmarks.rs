use mpdf_core::bookmarks::align::{character_similarity, similarity};
use mpdf_core::bookmarks::config::{
    AutoBookmarkConfig, SCORE_LAYOUT_MAX, SCORE_NUMBERING_MAX, SCORE_OCR_MAX, SCORE_PAGE_MAX,
    SCORE_SEQUENCE_MAX, SCORE_TITLE_MAX, SCORE_TOTAL,
};
use mpdf_core::bookmarks::furniture::{mark_repeated_furniture, FurnitureLine, FurniturePage};
use mpdf_core::bookmarks::hierarchy::{
    levels, normalize_levels, note_promotion, parents, promote_to_written,
};
use mpdf_core::bookmarks::model::{
    BookmarkReviews, BookmarkStatus, ConfidenceBreakdown, GenerationMode, GenerationStatus,
};
use mpdf_core::bookmarks::compile::{candidate_reason_codes, runner_up_margin};
use mpdf_core::bookmarks::generation::{check_auto_inputs, generation_route};
use mpdf_core::bookmarks::ids::{stable_outline_id, stable_toc_id};
use mpdf_core::bookmarks::outline::{existing_outline_candidates, OutlinePage};
use mpdf_core::derived::OutlineEvidenceRef;
use mpdf_core::bookmarks::scoring::{breakdown, decide, numbering_score, GateContext};
use mpdf_core::bookmarks::text_index::{
    bind_ocr_to_package, degraded_order, join_words, index_keys, primary_key, secondary_key, tokens_of, GeometryQuality,
};
use mpdf_core::bookmarks::model::GeneratorProvenance;
use mpdf_core::bookmarks::snapshot::{
    check_fresh, check_parent_levels, check_target, PageIndexRef, SnapshotCandidate,
    SnapshotRecord,
};
use mpdf_core::bookmarks::toc_detect::{detect, score_page, DetectLine, DetectPage};
use mpdf_core::bookmarks::tally::{report_status, sort_dedup_reasons, Tally};
use mpdf_core::bookmarks::toc_group::{
    column_count, parse_toc_lines, ContinuationRule, LinePlacement, TocLine,
};
use mpdf_core::bookmarks::toc_parse::{
    has_leader_run, numbering_prefix, parse_roman, strip_printed_tail, toc_entry_text,
    trailing_printed_number, NumberingFamily,
};
use mpdf_core::digest::sha256_hex;
use mpdf_core::error::CoreError;

#[test]
fn similarity_is_bounded_and_symmetric() {
    assert_eq!(similarity("introduction", "introduction"), 1_000);
    assert_eq!(similarity("introduction", ""), 0);
    assert!(similarity("the wine dark sea", "the wine dark sea") == 1_000);
    assert!(similarity("introduction", "conclusion") < 700);
    assert_eq!(
        similarity("chapter one", "chapter two"),
        similarity("chapter two", "chapter one")
    );
}

#[test]
fn a_large_length_difference_scores_zero_characters() {
    assert_eq!(character_similarity("a", "abcdefghij"), 0);
}

#[test]
fn component_ceilings_sum_to_the_total_scale() {
    assert_eq!(
        SCORE_TITLE_MAX
            + SCORE_PAGE_MAX
            + SCORE_NUMBERING_MAX
            + SCORE_LAYOUT_MAX
            + SCORE_OCR_MAX
            + SCORE_SEQUENCE_MAX,
        SCORE_TOTAL
    );
}

#[test]
fn frozen_defaults_are_locked_by_digest() {
    let config = AutoBookmarkConfig::default();
    assert_eq!(config.rule_version, "0.2");
    assert_eq!(config.auto_confirm_total, 9_200);
    assert_eq!(config.auto_confirm_title, 3_600);
    assert_eq!(config.auto_confirm_margin, 600);
    assert_eq!(config.auto_confirm_min_word_confidence_permille, 800);
    assert_eq!(config.review_total, 7_500);
    assert_eq!(config.max_page_residual, 1);
    assert_eq!(config.max_auto_level, 8);
    assert_eq!(config.max_toc_entries, 10_000);
    assert_eq!(config.max_shortlist, 32);
    assert_eq!(config.segment_change_penalty, 600);
    assert_eq!(config.anchor_mismatch_penalty, 400);
    assert!(
        config.segment_change_penalty > config.anchor_mismatch_penalty
            && config.segment_change_penalty < config.anchor_mismatch_penalty * 2,
        "one stray anchor must not fork the mapping; two must be able to"
    );
    assert_eq!(config.digest(), AutoBookmarkConfig::default().digest());
    assert_eq!(config.digest().len(), 64);
}

#[test]
fn config_digest_covers_every_field() {
    let config = AutoBookmarkConfig::default();
    let json = config.canonical_json();
    assert!(json.starts_with("{\"rule_version\":\"0.2\",\"front_page_absolute_max\":40,"));
    assert!(json.ends_with(",\"anchor_min_title_score\":3000}"));
    let mut changed = AutoBookmarkConfig::default();
    changed.review_total = 7_501;
    assert_ne!(changed.digest(), config.digest());
    assert!(config.digest().chars().all(|c| c.is_ascii_hexdigit() && !c.is_ascii_uppercase()));
}

#[test]
fn front_page_window_is_bounded_at_both_ends() {
    let config = AutoBookmarkConfig::default();
    assert_eq!(config.front_page_limit(3), 3);
    assert_eq!(config.front_page_limit(20), 8);
    assert_eq!(config.front_page_limit(100), 15);
    assert_eq!(config.front_page_limit(10_000), 40);
}

#[test]
fn a_dropped_parent_promotes_its_children() {
    let ids: Vec<String> = ["a", "b", "c"].iter().map(|x| (*x).to_owned()).collect();
    let parents = parents(&[0, 1, 2], &[true, false, true], &ids);
    assert_eq!(parents[0], None);
    assert_eq!(parents[2].as_deref(), Some("a"));
}

#[test]
fn numbering_paths_drive_levels_and_never_skip_a_step() {
    let config = AutoBookmarkConfig::default();
    let entries = vec![
        (Some(vec![1]), 0, 10),
        (Some(vec![1, 1]), 0, 10),
        (Some(vec![1, 1, 1, 1]), 0, 10),
    ];
    let decisions = levels(&entries, false, &config);
    assert_eq!(decisions[0].level, 0);
    assert_eq!(decisions[1].level, 1);
    assert_eq!(decisions[2].level, 2, "a level may not skip a step");
    assert!(decisions[2].ambiguous);
    assert_eq!(decisions[2].reason, "numbering_path_level_clamped");
    assert_eq!(decisions[0].reason, "numbering_path");
}

#[test]
fn indentation_clusters_rank_levels_when_geometry_is_measured() {
    let config = AutoBookmarkConfig::default();
    let entries = vec![(None, 5, 10), (None, 12, 10), (None, 5, 10), (None, 30, 10)];
    let decisions = levels(&entries, true, &config);
    let got: Vec<u16> = decisions.iter().map(|d| d.level).collect();
    assert_eq!(got, vec![0, 1, 0, 1]);
    assert_eq!(decisions[1].reason, "indentation_cluster");
    assert_eq!(decisions[3].reason, "indentation_cluster_level_clamped");
    let flat = levels(&entries, false, &config);
    assert!(flat.iter().all(|d| d.level == 0 && d.reason == "flat_default"));
}

#[test]
fn primary_key_folds_case_punctuation_and_leaders() {
    assert_eq!(primary_key("1.2  Introduction .... 45"), "1 2 introduction 45");
    assert_eq!(primary_key("Sof\u{00ad}t hyphen"), "soft hyphen");
}

#[test]
fn secondary_key_folds_polytonic_accents_only() {
    let primary = primary_key("Ἀρχή");
    assert_ne!(primary, secondary_key(&primary));
    assert_eq!(secondary_key(&primary), secondary_key(&primary_key("αρχη")));
}

#[test]
fn ideographic_tokens_become_bigrams() {
    assert_eq!(tokens_of("第一章 绪论"), vec!["第一", "一章", "绪论"]);
}

#[test]
fn index_keys_add_only_new_folded_tokens() {
    let keys = index_keys("the ἀρχή", "the αρχη");
    assert_eq!(keys, vec!["the", "ἀρχή", "αρχη"]);
    assert_eq!(tokens_of("单"), vec!["单"]);
    assert_eq!(GeometryQuality::Approximate.as_str(), "approximate");
}

#[test]
fn trailing_numbers_cover_arabic_roman_and_ranges() {
    assert_eq!(trailing_printed_number("Introduction .... 45").unwrap().value, 45);
    assert_eq!(
        trailing_printed_number("Preface ... xii").unwrap().family,
        NumberingFamily::Roman
    );
    assert_eq!(trailing_printed_number("Sources 120-135").unwrap().value, 120);
    assert!(trailing_printed_number("Chapter One").is_none());
}

#[test]
fn trailing_number_keeps_the_raw_token() {
    let p = trailing_printed_number("Index ....... 311,").unwrap();
    assert_eq!(p.raw, "311,");
    assert_eq!(p.value, 311);
    assert_eq!(p.family.as_str(), "arabic");
    assert!(trailing_printed_number("Volume 123456").is_none());
    assert!(trailing_printed_number("").is_none());
}

#[test]
fn roman_numerals_parse_with_subtraction() {
    assert_eq!(parse_roman("xii"), Some(12));
    assert_eq!(parse_roman("IV"), Some(4));
    assert_eq!(parse_roman("mcmxcix"), Some(1999));
    assert_eq!(parse_roman(""), None);
    assert_eq!(parse_roman("iiiiiiv"), None);
    assert_eq!(parse_roman("abc"), None);
}

#[test]
fn strip_keeps_numbering_and_unicode_but_removes_leaders() {
    let printed = trailing_printed_number("1.2 Ἀρχή .... 45");
    assert_eq!(strip_printed_tail("1.2 Ἀρχή .... 45", printed.as_ref()), "1.2 Ἀρχή");
}

#[test]
fn leader_runs_need_three_leaders() {
    assert!(has_leader_run("Intro . . . 4"));
    assert!(has_leader_run("Intro ...4"));
    assert!(!has_leader_run("Intro .. 4"));
    assert!(!has_leader_run("a.b.c"));
}

#[test]
fn numbering_paths_are_explicit_before_anything_else() {
    assert_eq!(numbering_prefix("1.2.3 Title").1, vec![1, 2, 3]);
    assert_eq!(numbering_prefix("IV. Title").1, vec![4]);
    assert_eq!(numbering_prefix("第三章 绪论").1, vec![1]);
    assert!(numbering_prefix("Introduction").0.is_none());
}

#[test]
fn numbering_prefix_keeps_the_token() {
    let (token, path) = numbering_prefix("2.10) Methods");
    assert_eq!(token.as_deref(), Some("2.10)"));
    assert_eq!(path, vec![2, 10]);
    assert_eq!(numbering_prefix("第二节 方法").1, vec![2]);
    assert!(numbering_prefix("1.2.3.4.5.6.7 Too deep").0.is_none());
}

#[test]
fn statuses_and_modes_have_stable_names() {
    assert!(BookmarkStatus::AutoConfirmed.writes_to_pdf());
    assert!(!BookmarkStatus::NeedsReview.writes_to_pdf());
    assert_eq!(GenerationMode::TocAligned.as_str(), "toc_aligned");
    assert_eq!(GenerationStatus::SafeRefusal.as_str(), "safe_refusal");
    let b = breakdown(4_000, 2_000, 1_000, 1_000, 1_000, 1_000);
    assert!(b.is_consistent());
    assert_eq!(b.total, 10_000);
    let clamped = breakdown(9_999, 0, 0, 0, 0, 0);
    assert_eq!(clamped.title_match, 4_000);
    let reviews = BookmarkReviews::empty("a".repeat(64));
    assert!(reviews.validate().is_ok());
}

fn clean_context() -> GateContext {
    GateContext {
        min_toc_confidence_permille: 990,
        min_body_confidence_permille: 990,
        runner_up_margin: 5_000,
        has_body_evidence: true,
        printed_page_residual: Some(0),
        residual_supported: true,
        level_ambiguous: false,
        secondary_only: false,
        monotone: true,
        approximate_multi_column: false,
        repeated_furniture: false,
        truncated: false,
    }
}

#[test]
fn the_gate_confirms_only_without_blockers() {
    let config = AutoBookmarkConfig::default();
    let strong = ConfidenceBreakdown {
        title_match: 4_000,
        page_mapping: 2_000,
        numbering_hierarchy: 1_000,
        body_layout: 1_000,
        ocr_quality: 1_000,
        sequence_uniqueness: 1_000,
        total: 10_000,
    };
    let d = decide(&strong, &clean_context(), &config);
    assert_eq!(d.status, BookmarkStatus::AutoConfirmed);
    assert_eq!(d.reason_codes, vec!["toc_body_alignment_consensus", "printed_page_consensus"]);
    let mut weak_ocr = clean_context();
    weak_ocr.min_toc_confidence_permille = 500;
    let d = decide(&strong, &weak_ocr, &config);
    assert_eq!(d.status, BookmarkStatus::NeedsReview);
    assert!(!d.reason_codes.is_empty());
    let mut no_body = clean_context();
    no_body.has_body_evidence = false;
    let d = decide(&strong, &no_body, &config);
    assert_eq!(d.status, BookmarkStatus::Skipped);
}

use mpdf_core::bookmarks::mapping::{solve_mapping, BestMatch, MappingSource, PrintedLabel};
use mpdf_core::bookmarks::model::{ReviewAction, ReviewOperation};
use mpdf_core::bookmarks::review::{append, apply_review_operations, check_hierarchy, effective_targets, operation_id, ReviewTarget};

fn arabic(value: u32, page: u32) -> MappingSource {
    MappingSource {
        printed: Some(PrintedLabel { family: NumberingFamily::Arabic, value }),
        best: Some(BestMatch { page_index: page, title_score: 4_000 }),
    }
}

#[test]
fn a_constant_offset_is_one_segment() {
    let config = AutoBookmarkConfig::default();
    let mut entries = vec![arabic(1, 11), arabic(5, 15), arabic(9, 19)];
    entries.push(MappingSource {
        printed: Some(PrintedLabel { family: NumberingFamily::Roman, value: 3 }),
        best: Some(BestMatch { page_index: 4, title_score: 4_000 }),
    });
    entries.push(MappingSource {
        printed: Some(PrintedLabel { family: NumberingFamily::Arabic, value: 12 }),
        best: None,
    });
    let mapping = solve_mapping(&entries, &config);
    assert_eq!(mapping.segments.len(), 2);
    assert_eq!(mapping.segments[0].offset, 10);
    assert_eq!(mapping.segments[0].anchor_count, 3);
    assert_eq!((mapping.segments[0].first_printed, mapping.segments[0].last_printed), (1, 9));
    assert_eq!(mapping.segments[1].family, NumberingFamily::Roman);
    assert_eq!(mapping.segments[1].offset, 1);
    assert_eq!(mapping.assignment, vec![Some(0), Some(0), Some(0), Some(1), Some(0)]);
    assert_eq!(mapping.expected_page(4, 12), Some(22));
    assert_eq!(mapping.segment_of(3).unwrap().index, 1);
}

#[test]
fn one_stray_anchor_does_not_fork_the_mapping() {
    let config = AutoBookmarkConfig::default();
    let entries = vec![arabic(1, 11), arabic(2, 12), arabic(3, 33), arabic(4, 14), arabic(5, 15)];
    let mapping = solve_mapping(&entries, &config);
    assert_eq!(mapping.segments.len(), 1);
    assert_eq!(mapping.segments[0].offset, 10);
    assert_eq!((mapping.segments[0].residual_min, mapping.segments[0].residual_max), (0, 20));
}

#[test]
fn an_inserted_plate_opens_a_new_segment() {
    let config = AutoBookmarkConfig::default();
    let entries = vec![
        arabic(1, 11),
        arabic(2, 12),
        arabic(3, 13),
        arabic(4, 16),
        arabic(5, 17),
        arabic(6, 18),
    ];
    let mapping = solve_mapping(&entries, &config);
    assert_eq!(mapping.segments.len(), 2);
    assert_eq!((mapping.segments[0].offset, mapping.segments[1].offset), (10, 12));
    assert_eq!(mapping.assignment, vec![Some(0), Some(0), Some(0), Some(1), Some(1), Some(1)]);
}

fn target(id: &str, level: u16, parent: Option<&str>) -> ReviewTarget {
    ReviewTarget {
        candidate_id: id.to_owned(),
        generator_kind: "deterministic_rules".to_owned(),
        status: BookmarkStatus::Proposed,
        effective_title: id.to_uppercase(),
        effective_parent_id: parent.map(|p| p.to_owned()),
        effective_level: level,
        physical_page_index: 0,
        top_key: 0,
    }
}

fn op(id: &str, candidate: &str, operation: ReviewAction) -> ReviewOperation {
    ReviewOperation { operation_id: id.to_owned(), candidate_id: candidate.to_owned(), operation }
}

#[test]
fn reviews_apply_in_order_and_keep_the_generation() {
    let targets = vec![target("a", 0, None), target("b", 1, Some("a"))];
    let ops = vec![
        op("r1", "b", ReviewAction::Edit { title: "Human".to_owned() }),
        op("r2", "a", ReviewAction::Confirm),
        op("r3", "b", ReviewAction::Reject),
    ];
    let out = apply_review_operations(&targets, &ops).unwrap();
    assert_eq!(out[1].effective_title, "Human");
    assert_eq!(out[0].status, BookmarkStatus::Confirmed);
    assert_eq!(out[1].status, BookmarkStatus::Rejected);
    assert_eq!(targets[1].effective_title, "B");
    assert!(check_hierarchy(&out).is_ok());
    let blank = vec![op("r1", "b", ReviewAction::Edit { title: "  ".to_owned() })];
    assert!(matches!(apply_review_operations(&targets, &blank), Err(mpdf_core::error::CoreError::InvalidParameter(_))));
    let missing = vec![op("r1", "zz", ReviewAction::Reject)];
    assert!(apply_review_operations(&targets, &missing).is_err());
}

#[test]
fn hierarchy_needs_shallower_existing_parents() {
    let dangling = vec![target("a", 0, None), target("b", 1, Some("x"))];
    assert!(matches!(check_hierarchy(&dangling), Err(mpdf_core::error::CoreError::InvalidDocument(m)) if m == "bookmark parent is missing or cyclic"));
    let inverted = vec![target("a", 2, None), target("b", 1, Some("a"))];
    assert!(matches!(check_hierarchy(&inverted), Err(mpdf_core::error::CoreError::InvalidDocument(m)) if m == "bookmark parent level must be shallower than its child"));
    let cycle = vec![target("a", 2, Some("b")), target("b", 1, Some("a"))];
    assert!(matches!(check_hierarchy(&cycle), Err(mpdf_core::error::CoreError::InvalidDocument(m)) if m == "bookmark hierarchy contains a cycle"));
}

#[test]
fn effective_view_refuses_stale_reviews() {
    let targets = vec![target("a", 0, None)];
    let reviews = BookmarkReviews::empty("c".repeat(64));
    assert!(effective_targets(&"c".repeat(64), &targets, &reviews).is_ok());
    assert!(matches!(effective_targets(&"d".repeat(64), &targets, &reviews), Err(mpdf_core::error::CoreError::InvalidDocument(m)) if m == "stale bookmark review generation"));
}

fn entry(text: &str, consensus: bool, lines: u32) -> Option<mpdf_core::bookmarks::toc_parse::TocEntryText> {
    toc_entry_text(text, trailing_printed_number(text), consensus, lines, 4096)
}

#[test]
fn contents_entry_keeps_title_and_leader_page() {
    let e = entry("1.2 The Wine-Dark Sea ........ 17", false, 1).expect("entry");
    assert_eq!(e.raw_title, "1.2 The Wine-Dark Sea");
    assert_eq!(e.printed.as_ref().map(|p| p.value), Some(17));
    assert!(e.has_leader);
    assert_eq!(e.numbering_prefix.as_deref(), Some("1.2"));
    assert_eq!(e.numbering_path, vec![1, 2]);
    assert_eq!(e.primary_key, primary_key("1.2 The Wine-Dark Sea"));
    assert!(e.reason_codes.is_empty());
}

#[test]
fn printed_page_without_leader_needs_column_consensus() {
    let e = entry("History of Rome 1848", false, 1).expect("entry");
    assert!(e.printed.is_none());
    assert_eq!(e.raw_title, "History of Rome 1848");
    assert_eq!(
        e.reason_codes,
        vec!["printed_page_without_consensus".to_string(), "toc_no_printed_page".to_string()]
    );
    let e = entry("History of Rome 1848", true, 1).expect("entry");
    assert_eq!(e.printed.as_ref().map(|p| p.value), Some(1848));
    assert_eq!(e.raw_title, "History of Rome");
}

#[test]
fn merged_entry_records_continuation() {
    let e = entry("A very long title that wrapped 12", true, 2).expect("entry");
    assert_eq!(e.reason_codes, vec!["toc_continuation_merged".to_string()]);
}

#[test]
fn contents_heading_numbers_and_blanks_are_not_entries() {
    assert!(entry("Contents", true, 1).is_none());
    assert!(entry("Table of Contents", true, 1).is_none());
    assert!(entry("Índice", true, 1).is_none());
    assert!(entry("12 34", false, 1).is_none());
    assert!(entry("   ", true, 1).is_none());
    assert!(entry("Bad\u{7}title 4", true, 1).is_none());
    assert!(entry("Tab\tseparated 4", true, 1).is_some());
    assert!(toc_entry_text("Title", None, true, 1, 4).is_none());
    assert!(toc_entry_text("Title", None, true, 1, 5).is_some());
}

fn provenance() -> GeneratorProvenance {
    GeneratorProvenance {
        kind: "deterministic_rules".into(),
        name: "mpdf-bookmarks".into(),
        version: "0.2".into(),
    }
}

fn candidate(id: &str, level: u16, parent: Option<&str>) -> SnapshotCandidate {
    SnapshotCandidate {
        candidate_id: id.into(),
        source_title: "Title".into(),
        effective_title: "Title".into(),
        effective_level: level,
        effective_parent_id: parent.map(str::to_string),
        target_page_id: "page-1".into(),
        physical_page_index: 0,
        status: BookmarkStatus::NeedsReview,
        generator: provenance(),
        reason_codes: vec!["toc_parse".into()],
        rule_trace: vec!["toc_detect".into()],
        confidence_breakdown: None,
        has_alignment_evidence: false,
        has_automatic_decision: false,
        evidence_page_ids: vec!["page-1".into()],
        confidence_in_range: true,
        bbox_finite: true,
    }
}

fn message(r: Result<(), CoreError>) -> String {
    match r {
        Err(CoreError::InvalidDocument(m)) => m,
        other => panic!("unexpected {other:?}"),
    }
}

#[test]
fn snapshot_candidate_checks_report_the_first_fault() {
    assert!(candidate("a", 1, None).validate().is_ok());
    let mut c = candidate("a", 1, None);
    c.status = BookmarkStatus::AutoConfirmed;
    assert_eq!(
        message(c.validate()),
        "an automatically confirmed bookmark must carry its decision provenance"
    );
    let mut c = candidate("a", 1, None);
    c.effective_title = "  ".into();
    assert_eq!(message(c.validate()), "invalid bookmark candidate or unresolved evidence");
    let mut c = candidate("a", 1, None);
    c.evidence_page_ids = vec![String::new()];
    assert_eq!(message(c.validate()), "invalid bookmark candidate or unresolved evidence");
    let mut c = candidate("a", 1, None);
    c.bbox_finite = false;
    assert_eq!(message(c.validate()), "invalid bookmark bbox");
    let mut c = candidate("a", 1, None);
    c.status = BookmarkStatus::Confirmed;
    c.generator.kind = "ai_suggestion".into();
    assert_eq!(message(c.validate()), "AI suggestions cannot be confirmed");
    let mut c = candidate("a", 1, None);
    c.source_title = "x".repeat(4097);
    assert_eq!(message(c.validate()), "bookmark title exceeds its byte limit");
}

fn record(candidates: Vec<SnapshotCandidate>, canonical: &[u8]) -> SnapshotRecord {
    SnapshotRecord {
        schema: "mpdf-bookmarks".into(),
        schema_version: "0.1".into(),
        source_digest: "a".repeat(64),
        package_digest: "b".repeat(64),
        derived_digest: None,
        generator: provenance(),
        candidates,
        generation_digest: sha256_hex(canonical),
        ocr_digest: None,
        revision_digest: None,
        rule_config_digest: None,
        rule_version: None,
        generation_mode: None,
    }
}

#[test]
fn snapshot_validation_binds_schema_ids_and_digest() {
    let canonical = b"{}";
    assert!(record(vec![candidate("a", 1, None)], canonical).validate(canonical).is_ok());
    let dup = record(vec![candidate("a", 1, None), candidate("a", 2, None)], canonical);
    assert_eq!(message(dup.validate(canonical)), "duplicate bookmark candidate ID");
    assert_eq!(
        message(record(vec![], canonical).validate(b"{ }")),
        "bookmark generation digest does not match contents"
    );
    let mut v1 = record(vec![], canonical);
    v1.ocr_digest = Some("c".repeat(64));
    assert_eq!(message(v1.validate(canonical)), "bookmark snapshot 0.1 must not contain 0.2 fields");
    let mut v2 = record(vec![], canonical);
    v2.schema_version = "0.2".into();
    assert_eq!(
        message(v2.validate(canonical)),
        "bookmark snapshot 0.2 is missing its rule or mode binding"
    );
    let mut bad = record(vec![], canonical);
    bad.source_digest = "A".repeat(64);
    assert_eq!(message(bad.validate(canonical)), "invalid bookmark snapshot");
}

#[test]
fn snapshot_references_resolve_against_the_package() {
    let pages = vec![
        PageIndexRef { page_id: "page-0".into(), physical_index: 7 },
        PageIndexRef { page_id: "page-1".into(), physical_index: 0 },
    ];
    assert!(check_target(&candidate("a", 1, None), &pages).is_ok());
    let mut c = candidate("a", 1, None);
    c.target_page_id = "page-9".into();
    assert_eq!(message(check_target(&c, &pages)), "bookmark target page is unresolved");
    let mut c = candidate("a", 1, None);
    c.physical_page_index = 3;
    assert_eq!(
        message(check_target(&c, &pages)),
        "bookmark candidate provenance or target is inconsistent"
    );
    let mut c = candidate("a", 1, None);
    c.generator.version = "0.3".into();
    assert!(check_target(&c, &pages).is_err());

    let ok = vec![candidate("a", 1, None), candidate("b", 2, Some("a"))];
    assert!(check_parent_levels(&ok).is_ok());
    let flat = vec![candidate("a", 2, None), candidate("b", 2, Some("a"))];
    assert_eq!(message(check_parent_levels(&flat)), "bookmark parent level is inconsistent");
    let missing = vec![candidate("b", 2, Some("z"))];
    assert_eq!(message(check_parent_levels(&missing)), "bookmark parent is unresolved");
}

#[test]
fn stale_snapshots_are_refused() {
    let package = b"{\"pages\":[]}";
    let mut s = record(vec![], b"{}");
    s.package_digest = sha256_hex(package);
    let source = "a".repeat(64);
    assert!(check_fresh(&s, &source, package, None).is_ok());
    assert_eq!(
        message(check_fresh(&s, &source, b"{}", None)),
        "bookmark snapshot is stale for package"
    );
    assert_eq!(
        message(check_fresh(&s, &source, package, Some(b"{}"))),
        "bookmark snapshot is stale for derived document"
    );
    s.derived_digest = Some(sha256_hex(b"{}"));
    assert!(check_fresh(&s, &source, package, Some(b"{}")).is_ok());
}

#[test]
fn unwritten_parents_are_skipped_to_the_nearest_written_ancestor() {
    let parents = vec![None, Some(0), Some(1), Some(1), Some(3)];
    let writes = vec![true, false, true, false, true];
    let promoted = promote_to_written(&parents, &writes);
    assert_eq!(
        promoted,
        vec![(None, false), (Some(0), false), (Some(0), true), (Some(1), false), (Some(0), true)]
    );
    let writes = vec![false, false, true];
    assert_eq!(promote_to_written(&parents[..3], &writes)[2], (None, true));
}

#[test]
fn level_repair_moves_children_below_their_parent() {
    let levels = vec![0, 0, 3, 1];
    let parents = vec![None, Some(0), Some(1), Some(2)];
    assert_eq!(normalize_levels(&levels, &parents), vec![0, 1, 3, 4]);
    let sound = vec![0, 1, 2];
    assert_eq!(normalize_levels(&sound, &[None, Some(0), Some(1)]), sound);
}

#[test]
fn promotion_is_noted_once() {
    let mut codes = vec!["toc_parse".to_string()];
    note_promotion(&mut codes);
    note_promotion(&mut codes);
    assert_eq!(codes, vec!["toc_parse".to_string(), "parent_promoted_to_nearest_ancestor".to_string()]);
    let mut full: Vec<String> = (0..32).map(|i| format!("code_{i}")).collect();
    note_promotion(&mut full);
    assert_eq!(full.len(), 32);
}

fn furniture_page(index: u32, lines: &[(&str, u32)]) -> FurniturePage {
    FurniturePage {
        page_index: index,
        lines: lines
            .iter()
            .map(|(key, top)| FurnitureLine { primary_key: key.to_string(), top_permille: *top })
            .collect(),
    }
}

#[test]
fn running_headers_are_marked_on_every_line_with_their_key() {
    let config = AutoBookmarkConfig::default();
    let pages = vec![
        furniture_page(0, &[("the iliad", 20), ("book one", 300)]),
        furniture_page(1, &[("the iliad", 30), ("body text", 500)]),
        furniture_page(2, &[("the iliad", 25), ("the iliad", 600)]),
        furniture_page(3, &[("book two", 300)]),
    ];
    let marks = mark_repeated_furniture(&pages, &config);
    assert_eq!(marks[0], vec![true, false]);
    assert_eq!(marks[1], vec![true, false]);
    // The mark follows the key, even where the line is mid-page.
    assert_eq!(marks[2], vec![true, true]);
    assert_eq!(marks[3], vec![false]);
}

#[test]
fn furniture_needs_enough_distinct_pages() {
    let config = AutoBookmarkConfig::default();
    // Two pages only: below the three-page minimum.
    let pages = vec![
        furniture_page(0, &[("header", 10)]),
        furniture_page(1, &[("header", 990)]),
    ];
    assert_eq!(mark_repeated_furniture(&pages, &config), vec![vec![false], vec![false]]);
    // The same page index counted twice is one page.
    let pages = vec![
        furniture_page(0, &[("header", 10)]),
        furniture_page(0, &[("header", 10)]),
        furniture_page(1, &[("header", 10)]),
    ];
    assert_eq!(mark_repeated_furniture(&pages, &config), vec![vec![false], vec![false], vec![false]]);
    // Three of six pages is below the 60 percent share.
    let mut pages: Vec<FurniturePage> = (0..3).map(|i| furniture_page(i, &[("header", 10)])).collect();
    pages.extend((3..6).map(|i| furniture_page(i, &[("text", 500)])));
    assert!(mark_repeated_furniture(&pages, &config).iter().all(|page| page.iter().all(|m| !m)));
}

#[test]
fn numbering_score_rewards_a_prefix_that_opens_the_body_key() {
    let body = primary_key("1.2 Methods");
    assert_eq!(numbering_score(Some("1.2"), &body), SCORE_NUMBERING_MAX);
    assert_eq!(numbering_score(Some("1.3"), &body), SCORE_NUMBERING_MAX * 3 / 5);
    assert_eq!(numbering_score(Some("   "), &body), 600);
    assert_eq!(numbering_score(None, &body), 500);
}

fn expected_bookmark_id(seed: &[u8]) -> String {
    let digest = sha256_hex(seed);
    format!("bookmark-{}", &digest[..32])
}

#[test]
fn stable_toc_id_hashes_the_entry_evidence_with_zero_separators() {
    let lines = vec!["line-a".to_string(), "line-b".to_string()];
    let id = stable_toc_id("printed_contents", "cfg", "page-3", &lines, "Intro", Some("body-9"));
    let seed = b"printed_contents\0cfg\0page-3\0line-a\0line-b\0Intro\0body-9";
    assert_eq!(id, expected_bookmark_id(seed));
    assert_eq!(id.len(), "bookmark-".len() + 32);
    let without_body = stable_toc_id("printed_contents", "cfg", "page-3", &lines, "Intro", None);
    let seed = b"printed_contents\0cfg\0page-3\0line-a\0line-b\0Intro\0";
    assert_eq!(without_body, expected_bookmark_id(seed));
    assert_ne!(id, without_body);
    assert_eq!(
        id,
        stable_toc_id("printed_contents", "cfg", "page-3", &lines, "Intro", Some("body-9"))
    );
}

#[test]
fn stable_outline_id_hashes_the_ordinal_as_little_endian_bytes() {
    let id = stable_outline_id("embedded_outline", "page-1", 258, "page-7", "Part I");
    let mut seed = Vec::new();
    seed.extend_from_slice(b"embedded_outlinepage-1");
    seed.extend_from_slice(&[2u8, 1, 0, 0]);
    seed.extend_from_slice(b"page-7Part I");
    assert_eq!(id, expected_bookmark_id(&seed));
}

fn outline_item(title: &str, level: u16, target: Option<&str>) -> OutlineEvidenceRef {
    OutlineEvidenceRef {
        title: title.to_string(),
        level,
        target_page_id: target.map(|t| t.to_string()),
        source: "pdf_outline".to_string(),
    }
}

#[test]
fn existing_outline_parents_are_the_nearest_shallower_items() {
    let pages = vec![
        OutlinePage {
            page_id: "p0".into(),
            outline: vec![
                outline_item("Part I", 1, None),
                outline_item("Chapter 1", 2, Some("p1")),
                outline_item("Section 1.1", 3, Some("p1")),
            ],
        },
        OutlinePage {
            page_id: "p1".into(),
            outline: vec![outline_item("Chapter 2", 2, None), outline_item("Part II", 1, Some("p0"))],
        },
    ];
    let found = existing_outline_candidates(&pages, "digest").unwrap();
    assert_eq!(found.len(), 5);
    let ids: Vec<String> = found.iter().map(|c| c.candidate_id.clone()).collect();
    assert_eq!(ids[0], stable_outline_id("digest", "p0", 0, "p0", "Part I"));
    assert_eq!(ids[2], stable_outline_id("digest", "p0", 2, "p1", "Section 1.1"));
    assert_eq!(ids[3], stable_outline_id("digest", "p1", 0, "p1", "Chapter 2"));
    assert_eq!(found[0].parent_id, None);
    assert_eq!(found[1].parent_id, Some(ids[0].clone()));
    assert_eq!(found[2].parent_id, Some(ids[1].clone()));
    assert_eq!(found[3].parent_id, Some(ids[0].clone()));
    assert_eq!(found[4].parent_id, None);
    assert_eq!((found[3].page, found[3].ordinal, found[3].target), (1, 0, 1));
    assert_eq!((found[4].page, found[4].ordinal, found[4].target), (1, 1, 0));
}

#[test]
fn existing_outline_rejects_the_first_bad_item() {
    let page = |items: Vec<OutlineEvidenceRef>| vec![OutlinePage { page_id: "p0".into(), outline: items }];
    let message = |pages: Vec<OutlinePage>| match existing_outline_candidates(&pages, "d") {
        Err(CoreError::InvalidDocument(m)) => m,
        other => panic!("unexpected {other:?}"),
    };
    assert_eq!(
        message(page(vec![outline_item("A", 1, Some("nowhere")), outline_item(" ", 1, None)])),
        "outline target page is unresolved"
    );
    assert_eq!(message(page(vec![outline_item(" \t", 1, None)])), "outline title is empty");
    assert_eq!(
        message(page(vec![outline_item(&"x".repeat(4097), 1, None)])),
        "outline title exceeds its byte limit"
    );
    assert_eq!(message(page(vec![outline_item("A", 65, None)])), "outline level exceeds the schema limit");
    assert!(existing_outline_candidates(&page(vec![outline_item("A", 64, None)]), "d").is_ok());
    assert!(existing_outline_candidates(&[], "d").unwrap().is_empty());
}

#[test]
fn runner_up_margin_is_the_lead_over_the_best_other_target() {
    assert_eq!(runner_up_margin(&[7000, 6500, 6900], Some(0)), 100);
    assert_eq!(runner_up_margin(&[7000, 6500, 6900], Some(1)), 0);
    assert_eq!(runner_up_margin(&[7000], Some(0)), 7000);
    assert_eq!(runner_up_margin(&[7000, 6500], None), 0);
}

#[test]
fn candidate_reason_codes_keep_order_and_the_first_32() {
    let decision = vec!["low_title_similarity".to_string()];
    let draft = vec!["toc_continuation_merged".to_string()];
    let codes = candidate_reason_codes(&decision, "printed_page_exact", true, &draft, "numbering");
    assert_eq!(
        codes,
        vec![
            "low_title_similarity",
            "printed_page_exact",
            "human_revision_applied",
            "toc_continuation_merged",
            "level_numbering"
        ]
    );
    let many: Vec<String> = (0..40).map(|i| format!("code_{i}")).collect();
    let codes = candidate_reason_codes(&many, "p", false, &[], "indent");
    assert_eq!(codes.len(), 32);
    assert_eq!(codes[31], "code_31");
}

fn toc_line(ordinal: u32, text: &str) -> TocLine {
    TocLine { column: 0, ordinal, raw_text: text.to_string() }
}

#[test]
fn contents_lines_group_wrapped_titles_and_drop_headings() {
    let lines = vec![
        toc_line(0, "Contents"),
        toc_line(1, "1 Introduction ........ 3"),
        toc_line(2, "2 A very long chapter title that"),
        toc_line(3, "wraps onto a second line .... 17"),
        toc_line(4, "5"),
    ];
    let n = lines.len();
    let mut indent_ok = vec![vec![false; n]; n];
    indent_ok[2][3] = true;
    let rule = ContinuationRule { measured: true, gap_ok: vec![true; n], indent_ok };
    let groups = parse_toc_lines(&lines, &rule, 3, 4096);
    assert_eq!(groups.len(), 2);
    assert_eq!((groups[0].first, groups[0].count), (1, 1));
    assert_eq!(groups[0].entry.raw_title, "1 Introduction");
    assert_eq!(groups[0].entry.printed.as_ref().map(|p| p.value), Some(3));
    assert_eq!((groups[1].first, groups[1].count), (2, 2));
    assert_eq!(
        groups[1].entry.raw_title,
        "2 A very long chapter title that wraps onto a second line"
    );
    assert_eq!(groups[1].entry.printed.as_ref().map(|p| p.value), Some(17));
    assert!(groups[1].entry.reason_codes.iter().any(|c| c == "toc_continuation_merged"));

    let by_ordinal = ContinuationRule { measured: false, gap_ok: vec![], indent_ok: vec![] };
    let merged = parse_toc_lines(&lines[2..4], &by_ordinal, 3, 4096);
    assert_eq!(merged.len(), 1);
    assert_eq!(merged[0].count, 2);
    let capped = parse_toc_lines(&lines[2..4], &by_ordinal, 1, 4096);
    assert_eq!(capped.iter().map(|g| g.count).collect::<Vec<_>>(), vec![1, 1]);
}

#[test]
fn contents_pages_have_two_columns_only_when_both_sides_are_filled() {
    let (left, right, crossing) = (LinePlacement::Left, LinePlacement::Right, LinePlacement::Crossing);
    assert_eq!(column_count(true, &[left, left, left, right, right, right, crossing]), 2);
    assert_eq!(column_count(true, &[left, left, left, right, right, right, crossing, crossing]), 1);
    assert_eq!(column_count(true, &[left, left, right, right, right, right]), 1);
    assert_eq!(column_count(false, &[left, left, left, right, right, right]), 1);
}

#[test]
fn evidence_line_text_skips_blank_words() {
    let words: Vec<String> = vec![" Chapter ".into(), "".into(), "  ".into(), "One".into()];
    assert_eq!(join_words(&words), "Chapter One");
    assert_eq!(join_words(&[]), "");
}

#[test]
fn repeated_reading_order_degrades_the_page() {
    assert!(!degraded_order(&[0, 1, 2]));
    assert!(degraded_order(&[0, 1, 0]));
    assert!(!degraded_order(&[]));
}

#[test]
fn ocr_pages_bind_one_to_one_to_package_pages() {
    assert!(bind_ocr_to_package(true, &[0, 1], &[0, 1]).is_ok());
    let message = |r: Result<(), CoreError>| match r {
        Err(CoreError::InvalidDocument(m)) => m,
        other => panic!("unexpected {other:?}"),
    };
    assert_eq!(message(bind_ocr_to_package(false, &[0, 1], &[0, 1])), "OCR evidence does not cover every page");
    assert_eq!(message(bind_ocr_to_package(true, &[0, 0], &[0, 1])), "OCR evidence has a duplicate page index");
    assert_eq!(message(bind_ocr_to_package(true, &[0, 2], &[0, 1])), "OCR page index is out of range for the package");
}

fn derived_manifest(source: &str, ocr: Option<&str>) -> mpdf_core::derived::DerivedManifest {
    mpdf_core::derived::DerivedManifest {
        schema: "mpdf-derived-document".into(),
        schema_version: "0.1".into(),
        source_digest: source.into(),
        document_id: "doc".into(),
        package_digest: "p".into(),
        ocr_digest: ocr.map(|o| o.to_string()),
        revision_digest: "r".into(),
        exporter_version: "0.1".into(),
        artifacts: vec![],
    }
}

#[test]
fn auto_inputs_must_come_from_the_same_source_and_ocr_run() {
    assert!(check_auto_inputs("s", None, Some("o")).is_ok());
    assert!(check_auto_inputs("s", Some(&derived_manifest("s", Some("o"))), Some("o")).is_ok());
    assert!(check_auto_inputs("s", Some(&derived_manifest("s", None)), None).is_ok());
    assert!(matches!(
        check_auto_inputs("s", Some(&derived_manifest("t", Some("o"))), Some("o")),
        Err(CoreError::InvalidDocument(m)) if m == "derived source does not match package"
    ));
    assert!(matches!(
        check_auto_inputs("s", Some(&derived_manifest("s", None)), Some("o")),
        Err(CoreError::InvalidDocument(m)) if m == "derived document was not built from this OCR run"
    ));
}

#[test]
fn generation_prefers_the_existing_outline_then_printed_contents() {
    assert_eq!(generation_route(true, false, false), (GenerationMode::ExistingOutline, None));
    assert_eq!(generation_route(false, true, true), (GenerationMode::TocAligned, None));
    let (mode, reason) = generation_route(false, true, false);
    assert_eq!(mode, GenerationMode::SafeRefusal);
    assert_eq!(reason, Some("no validated native outline and no complete OCR evidence for this document"));
}

fn detect_line(id: &str, text: &str) -> DetectLine {
    let primary = primary_key(text);
    let secondary = secondary_key(&primary);
    DetectLine { line_id: id.into(), raw_text: text.into(), primary_key: primary, secondary_key: secondary }
}

fn detect_page(index: u32, texts: &[&str], aligned: bool) -> DetectPage {
    DetectPage {
        page_id: format!("page-{index}"),
        page_index: index,
        lines: texts.iter().enumerate().map(|(i, t)| detect_line(&format!("l{index}-{i}"), t)).collect(),
        right_edges_aligned: aligned,
    }
}

#[test]
fn contents_page_scores_every_signal() {
    let config = AutoBookmarkConfig::default();
    let page = detect_page(
        0,
        &["Contents", "Introduction .... 1", "Methods .... 5", "Results .... 9", "Discussion .... 12"],
        true,
    );
    let s = score_page(&page, &config);
    assert_eq!(s.keyword_line, Some(0));
    assert_eq!(s.entry_lines, vec![1, 2, 3, 4]);
    assert_eq!(s.keyword_signal, Some(200));
    assert_eq!(s.entries_signal, Some(160));
    assert_eq!(s.leader_signal, Some(150));
    assert_eq!(s.cluster_signal, Some(150));
    assert_eq!(s.short_line_signal, Some(100));
    assert_eq!(s.score, 760);
    let pages = vec![
        page,
        detect_page(1, &["All rights reserved"], false),
        detect_page(2, &["Chapter one begins here"], false),
    ];
    let scan = detect(&pages, &config);
    assert_eq!(scan.limit, 3);
    assert_eq!(scan.window, vec![0, 1, 2]);
    assert_eq!(scan.detections.len(), 1);
    assert_eq!((scan.detections[0].page, scan.detections[0].score), (0, 760));
    assert_eq!(scan.detections[0].adjacent_signal, None);
}

#[test]
fn a_keyword_alone_never_makes_a_contents_page() {
    let config = AutoBookmarkConfig::default();
    let pages = vec![detect_page(0, &["Contents", "Copyright 2020 by the author"], false)];
    let scan = detect(&pages, &config);
    assert_eq!(scan.scores[0].score, 200);
    assert!(scan.detections.is_empty());
}

#[test]
fn adjacent_contents_pages_reinforce_each_other() {
    let config = AutoBookmarkConfig::default();
    let entries = ["Part one .... 1", "Part two .... 9", "Part three .... 17", "Part four .... 25"];
    let pages = vec![detect_page(0, &entries, false), detect_page(1, &entries, false)];
    let scan = detect(&pages, &config);
    // 160 for entries, 150 for leaders, 100 for short lines, 100 for the neighbour.
    assert_eq!(scan.detections.len(), 2);
    assert_eq!(scan.detections[0].score, 510);
    assert_eq!(scan.detections[0].adjacent_signal, Some(100));
}

#[test]
fn tally_counts_outcomes_and_reason_codes() {
    let mut t = Tally::new();
    let codes = vec!["a".to_string(), "b".to_string(), "a".to_string()];
    t.count(BookmarkStatus::AutoConfirmed, &codes);
    t.count(BookmarkStatus::Skipped, &["b".to_string()]);
    t.count(BookmarkStatus::NeedsReview, &[]);
    assert_eq!((t.auto_confirmed, t.skipped, t.needs_review), (1, 1, 1));
    assert_eq!(t.reason_code_counts, vec![("a".to_string(), 2), ("b".to_string(), 2)]);
    let mut full = Tally::new();
    let many: Vec<String> = (0..256).map(|i| format!("c{i}")).collect();
    full.count(BookmarkStatus::Proposed, &many);
    full.count(BookmarkStatus::Proposed, &["c0".to_string(), "new".to_string()]);
    assert_eq!(full.reason_code_counts.len(), 256);
    assert_eq!(full.reason_code_counts[0], ("c0".to_string(), 1));
}

#[test]
fn report_status_prefers_confirmed_then_refusal_then_review() {
    let m = "a printed contents list was found but no entry reached the confidence gate";
    assert_eq!(report_status(GenerationMode::TocAligned, 1, 3, None), (GenerationStatus::AutoConfirmed, None));
    assert_eq!(report_status(GenerationMode::TocAligned, 0, 3, None), (GenerationStatus::NeedsReview, None));
    assert_eq!(report_status(GenerationMode::TocAligned, 0, 0, None), (GenerationStatus::SafeRefusal, Some(m.to_string())));
    assert_eq!(
        report_status(GenerationMode::SafeRefusal, 0, 3, Some("no contents")),
        (GenerationStatus::SafeRefusal, Some("no contents".to_string()))
    );
}

#[test]
fn truncation_reasons_are_sorted_and_listed_once() {
    let reasons: Vec<String> = ["max_toc_entries", "shortlist_recall_truncated", "max_toc_entries", "a"]
        .iter()
        .map(|r| r.to_string())
        .collect();
    assert_eq!(sort_dedup_reasons(&reasons), vec!["a", "max_toc_entries", "shortlist_recall_truncated"]);
}

#[test]
fn effective_view_is_ordered_by_page_top_level_title_and_id() {
    let mut b = target("b", 1, None);
    b.effective_title = "b".into();
    let mut a = target("a", 1, None);
    a.effective_title = "a".into();
    let reviews = BookmarkReviews::empty("c".repeat(64));
    let out = effective_targets(&"c".repeat(64), &[b.clone(), a.clone()], &reviews).unwrap();
    let ids: Vec<&str> = out.iter().map(|t| t.candidate_id.as_str()).collect();
    assert_eq!(ids, vec!["a", "b"]);
    // The page comes first, then the box top, then the level.
    let mut late = target("a2", 1, None);
    late.physical_page_index = 3;
    let mut low = target("z", 1, None);
    low.top_key = 10;
    let mut deep = target("c", 2, Some("a"));
    deep.top_key = 10;
    let out = effective_targets(&"c".repeat(64), &[late, deep, low, a, b], &reviews).unwrap();
    let ids: Vec<&str> = out.iter().map(|t| t.candidate_id.as_str()).collect();
    assert_eq!(ids, vec!["a", "b", "z", "c", "a2"]);
    // Titles compare lowercased.
    let mut upper = target("x", 1, None);
    upper.effective_title = "B".into();
    let mut lower = target("y", 1, None);
    lower.effective_title = "a".into();
    let out = effective_targets(&"c".repeat(64), &[upper, lower], &reviews).unwrap();
    assert_eq!(out[0].candidate_id, "y");
}

#[test]
fn operation_ids_hash_the_candidate_the_action_json_and_the_ordinal() {
    let mut seed = b"c1".to_vec();
    seed.extend_from_slice(br#"{"kind":"confirm"}"#);
    seed.extend_from_slice(&3u64.to_le_bytes());
    assert_eq!(operation_id("c1", &ReviewAction::Confirm, 3), format!("review-{}", &sha256_hex(&seed)[..32]));
    let reparent = ReviewAction::Reparent { parent_id: Some("p\"x".into()), level: 2 };
    let mut seed = b"c1".to_vec();
    seed.extend_from_slice(br#"{"kind":"reparent","parent_id":"p\"x","level":2}"#);
    seed.extend_from_slice(&0u64.to_le_bytes());
    assert_eq!(operation_id("c1", &reparent, 0), format!("review-{}", &sha256_hex(&seed)[..32]));
}

#[test]
fn append_adds_a_checked_operation_or_leaves_the_store_alone() {
    let canonical = b"{}";
    let snapshot = record(vec![candidate("a", 1, None), candidate("b", 2, None)], canonical);
    let targets = vec![target("a", 1, None), target("b", 2, None)];
    let mut reviews = BookmarkReviews::empty(snapshot.generation_digest.clone());
    assert!(append(&snapshot, canonical, &targets, &mut reviews, "a".into(), ReviewAction::Confirm).is_ok());
    assert_eq!(reviews.operations.len(), 1);
    assert_eq!(reviews.operations[0].operation_id, operation_id("a", &ReviewAction::Confirm, 0));
    assert!(matches!(
        append(&snapshot, canonical, &targets, &mut reviews, "zz".into(), ReviewAction::Reject),
        Err(CoreError::InvalidDocument(m)) if m == "review candidate does not exist"
    ));
    let bad = ReviewAction::Reparent { parent_id: Some("b".into()), level: 1 };
    assert!(append(&snapshot, canonical, &targets, &mut reviews, "a".into(), bad).is_err());
    assert_eq!(reviews.operations.len(), 1);
    let mut stale = BookmarkReviews::empty("e".repeat(64));
    assert!(matches!(
        append(&snapshot, canonical, &targets, &mut stale, "a".into(), ReviewAction::Confirm),
        Err(CoreError::InvalidDocument(m)) if m == "stale bookmark review generation"
    ));
}

use mpdf_core::bookmarks::selection::monotonic_selection;
use mpdf_core::sorting::SortKey;

fn position(page: i64, top: i64, line: &str) -> SortKey {
    SortKey { numbers: vec![page, top], texts: vec![line.to_owned()] }
}

#[test]
fn monotone_selection_takes_the_best_forward_chain() {
    let positions = vec![
        vec![position(1, 100, "l-a"), position(3, 100, "l-c")],
        vec![position(2, 100, "l-b")],
    ];
    let preliminary = vec![vec![5, 1], vec![4]];
    assert_eq!(monotonic_selection(&positions, &preliminary), vec![Some(0), Some(0)]);
}

#[test]
fn monotone_selection_leaves_a_backward_target_unassigned() {
    let positions = vec![vec![position(5, 0, "l-e")], vec![position(2, 0, "l-b")]];
    let preliminary = vec![vec![10], vec![3]];
    assert_eq!(monotonic_selection(&positions, &preliminary), vec![Some(0), None]);
    let preliminary = vec![vec![3], vec![10]];
    assert_eq!(monotonic_selection(&positions, &preliminary), vec![None, Some(0)]);
}

#[test]
fn monotone_selection_never_chains_equal_positions_or_targets_of_one_entry() {
    let positions = vec![
        vec![position(1, 0, "l-a"), position(2, 0, "l-b")],
        vec![position(2, 0, "l-b")],
    ];
    let preliminary = vec![vec![4, 6], vec![3]];
    assert_eq!(monotonic_selection(&positions, &preliminary), vec![Some(0), Some(0)]);
    let preliminary = vec![vec![1, 6], vec![3]];
    assert_eq!(monotonic_selection(&positions, &preliminary), vec![Some(1), None]);
}

#[test]
fn monotone_selection_of_no_targets_chooses_nothing() {
    let positions: Vec<Vec<SortKey>> = vec![vec![], vec![]];
    let preliminary: Vec<Vec<u32>> = vec![vec![], vec![]];
    assert_eq!(monotonic_selection(&positions, &preliminary), vec![None, None]);
    let positions = vec![vec![position(1, 0, "l-a")], vec![]];
    let preliminary = vec![vec![0], vec![]];
    assert_eq!(monotonic_selection(&positions, &preliminary), vec![Some(0), None]);
}

use mpdf_core::bookmarks::hierarchy::settle_written;

#[test]
fn settling_moves_written_children_under_written_ancestors() {
    let levels = vec![1u16, 2, 3];
    let parents = vec![None, Some(0usize), Some(1usize)];
    let writes = vec![true, false, true];
    let codes = vec![vec![], vec![], vec!["x".to_owned()]];
    let (p, l, c) = settle_written(&levels, &parents, &writes, &codes);
    assert_eq!(p, vec![None, Some(0), Some(0)]);
    assert_eq!(l, vec![1, 2, 3]);
    assert_eq!(c[2], vec!["x".to_owned(), "parent_promoted_to_nearest_ancestor".to_owned()]);
    assert!(c[0].is_empty() && c[1].is_empty());
    let (p, l, c) = settle_written(&[2, 1], &[None, Some(0)], &[true, true], &[vec![], vec![]]);
    assert_eq!(p, vec![None, Some(0)]);
    assert_eq!(l, vec![2, 3]);
    assert!(c[1].is_empty());
}

use mpdf_core::bookmarks::selection::select_targets;

#[test]
fn selected_targets_carry_their_runner_up_margins() {
    let positions = vec![
        vec![position(1, 100, "l-a"), position(3, 100, "l-c")],
        vec![position(2, 100, "l-b")],
        vec![position(0, 0, "l-0")],
    ];
    let preliminary = vec![vec![5, 1], vec![4], vec![9]];
    assert_eq!(select_targets(&positions, &preliminary), vec![(Some(0), 4), (Some(0), 4), (None, 0)]);
}

use mpdf_core::bookmarks::compile::{preliminary_scores, EntryFacts, TargetFacts};
use mpdf_core::bookmarks::mapping::{MappingSegment, PageMapping};

fn target_facts(page: u32, key: &str) -> TargetFacts {
    TargetFacts { physical_page: page, title_score: 3000, layout_score: 500, ocr_score: 400, body_primary_key: key.into() }
}

#[test]
fn preliminary_scores_add_title_page_numbering_layout_and_ocr() {
    let segment = MappingSegment {
        family: NumberingFamily::Arabic,
        index: 0,
        offset: 4,
        anchor_count: 2,
        first_printed: 1,
        last_printed: 9,
        residual_min: 0,
        residual_max: 0,
    };
    let mapping = PageMapping { segments: vec![segment], assignment: vec![Some(0), None] };
    let entries = vec![
        EntryFacts {
            printed: Some(3),
            numbering_prefix: Some("1.2".into()),
            targets: vec![target_facts(7, "1 2 methods"), target_facts(8, "methods"), target_facts(20, "1 2 x")],
        },
        EntryFacts { printed: Some(3), numbering_prefix: None, targets: vec![target_facts(7, "methods")] },
    ];
    let config = AutoBookmarkConfig::default();
    let rows = preliminary_scores(&entries, &mapping, &config);
    // exact page, prefix opens the key: 3000 + 2000 + 1000 + 500 + 400
    // near page (residual 1): 3000 + 1200 + 600 + 900
    // far page: 3000 + 0 + 1000 + 900; unmapped entry: 3000 + 0 + 500 + 900
    assert_eq!(rows, vec![vec![6900, 5700, 4900], vec![4400]]);
}

use mpdf_core::bookmarks::selection::choose_targets;

#[test]
fn chosen_targets_follow_the_preliminary_scores() {
    let segment = MappingSegment {
        family: NumberingFamily::Arabic,
        index: 0,
        offset: 4,
        anchor_count: 2,
        first_printed: 1,
        last_printed: 9,
        residual_min: 0,
        residual_max: 0,
    };
    let mapping = PageMapping { segments: vec![segment], assignment: vec![Some(0), None] };
    let entries = vec![
        EntryFacts {
            printed: Some(3),
            numbering_prefix: Some("1.2".into()),
            targets: vec![target_facts(7, "1 2 methods"), target_facts(8, "methods")],
        },
        EntryFacts { printed: None, numbering_prefix: None, targets: vec![target_facts(21, "results")] },
    ];
    let positions = vec![
        vec![position(7, 0, "l-7"), position(8, 0, "l-8")],
        vec![position(21, 0, "l-21")],
    ];
    let (rows, chosen) = choose_targets(&entries, &positions, &mapping, &AutoBookmarkConfig::default());
    assert_eq!(rows, vec![vec![6900, 5700], vec![4400]]);
    assert_eq!(chosen, vec![(Some(0), 1200), (Some(0), 4400)]);
}

use mpdf_core::bookmarks::compile::decide_entry;

#[test]
fn a_clean_entry_is_scored_confirmed_and_coded_in_order() {
    let config = AutoBookmarkConfig::default();
    let draft = vec!["toc_leader".to_owned()];
    let (b, d, codes) = decide_entry(4_000, 1_000, 1_000, 1_000, &clean_context(), false, &draft, "numbering", &config);
    assert_eq!(b.page_mapping, 2_000);
    assert_eq!(b.sequence_uniqueness, 1_000);
    assert_eq!(b.total, 10_000);
    assert_eq!(d.status, BookmarkStatus::AutoConfirmed);
    assert_eq!(
        codes,
        vec![
            "toc_body_alignment_consensus".to_owned(),
            "printed_page_consensus".to_owned(),
            "printed_page_exact".to_owned(),
            "toc_leader".to_owned(),
            "level_numbering".to_owned(),
        ]
    );
    let mut unmapped = clean_context();
    unmapped.printed_page_residual = None;
    unmapped.monotone = false;
    unmapped.runner_up_margin = 0;
    let (b, d, codes) = decide_entry(0, 0, 0, 0, &unmapped, true, &[], "indent", &config);
    assert_eq!(b.page_mapping, 0);
    assert_eq!(b.sequence_uniqueness, 0);
    assert_ne!(d.status, BookmarkStatus::AutoConfirmed);
    assert!(codes.contains(&"printed_page_unmapped".to_owned()));
    assert!(codes.contains(&"human_revision_applied".to_owned()));
    assert_eq!(codes.last().map(String::as_str), Some("level_indent"));
}
