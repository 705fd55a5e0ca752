use mpdf_core::derived::{
    check_ocr_pages, chunk_text, deterministic_revision_id, esc, esc_md, stable_id,
    structural_path, bundle_precheck, BundleStatus, DerivedArtifact, DerivedManifest, ExportFormat, OutlineEvidenceRef, RevisionKind, RevisionRecord, RevisionStore,
};
use mpdf_core::digest::sha256_hex;
use mpdf_core::bookmarks::generation::{plan_generation, GenerationPlan, OcrBinding};
use mpdf_core::bookmarks::outline::OutlinePage;
use mpdf_core::bookmarks::against::{check_evidence, BoxKey, DerivedPageEvidence, EvidenceItem, PageEvidence};
use mpdf_core::document::{sanitize_metadata_value, PdfMetadata, PdfPageInfo};
use mpdf_core::document_package::{
    asset_id_for_sha256, document_id_for_sha256, page_id, sha256_digest, source_id_for_sha256,
    validate_assets, validate_digest, validate_relative_path, validate_stable_id,
    validate_version, Asset, AssetKind, CoordinateUnit, ExecutionKind, Manifest, Origin,
    PackageRecord, PageRecord, ProvenanceStep, Source, SourceKind, SpaceRecord, ToolInfo,
    MAX_ASSET_BYTES, MDP_SCHEMA,
};
use mpdf_core::error::CoreError;
use mpdf_core::derived::{ReviewIssueKind, ReviewSeverity};
use mpdf_core::review_queue::{issue_id, review_queue, QueueLine, QueuePage, QueueWord};
use mpdf_core::sorting::{key_of, stable_order, SortKey};
use mpdf_core::chunks::{rebuild_chunks, ChunkLine, ChunkPage};
use mpdf_core::overlay::{revision_edits, RevisionPage};
use mpdf_core::page_geometry::{PageGeometry, PageRotation};
use mpdf_core::ProjectInfo;
use sha2::{Digest, Sha256};

#[test]
fn current_project_info_reports_expected_name_and_phase() {
    let info = ProjectInfo::current();
    assert_eq!(info.name, "M PDF Processor");
    assert_eq!(info.phase, "Phase 1 — under development");
}

#[test]
fn page_number_is_one_based() {
    let page = PdfPageInfo {
        index: 0,
        geometry: PageGeometry::new(595_000, 842_000).unwrap(),
        source_rotation: PageRotation::Degrees0,
    };
    assert_eq!(page.index, 0);
    assert_eq!(page.page_number(), 1);
}

#[test]
fn page_geometry_rejects_empty_sides() {
    assert!(PageGeometry::new(0, 10).is_err());
    assert!(matches!(PageGeometry::new(10, 0), Err(CoreError::InvalidPageGeometry(_))));
}

#[test]
fn metadata_sanitization_strips_control_characters() {
    let metadata = PdfMetadata {
        title: Some("Hello\u{0}\u{1}\nWorld".to_string()),
        ..Default::default()
    };
    assert_eq!(metadata.sanitized().title.unwrap(), "HelloWorld");
}

#[test]
fn metadata_sanitization_trims_and_truncates() {
    let long = "x".repeat(512 + 100);
    let metadata = PdfMetadata {
        author: Some(format!("  {long}  ")),
        ..Default::default()
    };
    let sanitized = metadata.sanitized().author.unwrap();
    assert_eq!(sanitized.chars().count(), 512);
    assert_eq!(sanitize_metadata_value("\t a b \u{3000}"), "a b");
}

#[test]
fn metadata_sanitization_preserves_ordinary_text() {
    let metadata = PdfMetadata {
        title: Some("Plato — Respublica".to_string()),
        author: Some("Pei Haoran".to_string()),
        ..Default::default()
    };
    let sanitized = metadata.sanitized();
    assert_eq!(sanitized.title.unwrap(), "Plato — Respublica");
    assert_eq!(sanitized.author.unwrap(), "Pei Haoran");
}

#[test]
fn empty_metadata_is_reported_as_empty() {
    assert!(PdfMetadata::default().is_empty());
    assert!(!PdfMetadata {
        title: Some("t".into()),
        ..Default::default()
    }
    .is_empty());
}

#[test]
fn sha256_digest_is_the_standard_digest() {
    assert_eq!(
        sha256_digest(b"abc"),
        "ba7816bf8f01cfea414140de5dae2223b00361a396177a9cb410ff61f20015ad"
    );
    assert_eq!(sha256_hex(b""), "e3b0c44298fc1c149afbf4c8996fb92427ae41e4649b934ca495991b7852b855");
}

#[test]
fn ids_are_content_and_scope_stable() {
    let digest = sha256_digest(b"source");
    assert_eq!(
        asset_id_for_sha256(Some("page-a"), AssetKind::Original, &digest),
        asset_id_for_sha256(Some("page-a"), AssetKind::Original, &digest)
    );
    assert_ne!(page_id(&digest, 0), page_id(&sha256_digest(b"changed source"), 0));
    assert_ne!(page_id(&digest, 0), page_id(&digest, 1));
    assert_ne!(
        asset_id_for_sha256(Some("page-a"), AssetKind::Original, &digest),
        asset_id_for_sha256(Some("page-a"), AssetKind::Master, &digest)
    );
    assert_eq!(document_id_for_sha256(&digest), format!("doc-{digest}"));
    assert_eq!(source_id_for_sha256(&digest), format!("source-{digest}"));
    assert_eq!(page_id(&digest, 7), format!("page-{}", sha256_digest(format!("{digest}:7").as_bytes())));
    assert_eq!(
        asset_id_for_sha256(None, AssetKind::Thumbnail, &digest),
        format!("asset-{}", sha256_digest(format!("document:thumbnail:{digest}").as_bytes()))
    );
}

#[test]
fn rejects_unknown_major_and_escaping_paths() {
    assert!(validate_relative_path("../outside").is_err());
    assert!(validate_relative_path("/outside").is_err());
    assert!(validate_relative_path("./inside").is_err());
    assert!(validate_relative_path("assets\\inside").is_err());
    assert!(validate_relative_path("").is_err());
    assert!(validate_relative_path("assets/../x").is_err());
    assert!(validate_relative_path("assets/./x").is_ok());
    assert!(validate_relative_path("assets/x.png").is_ok());
    assert!(validate_version(MDP_SCHEMA, "0.foo").is_err());
    assert!(validate_version(MDP_SCHEMA, "0").is_err());
    assert!(validate_version(MDP_SCHEMA, "0.1.extra").is_err());
    assert!(validate_version(MDP_SCHEMA, "1.0").is_err());
    assert!(validate_version(MDP_SCHEMA, "0.1").is_ok());
    assert!(validate_version("other", "0.1").is_err());
}

#[test]
fn escaping_path_error_names_the_path() {
    match validate_relative_path("../outside") {
        Err(CoreError::InvalidDocumentPackage(m)) => {
            assert_eq!(m, "package path escapes its root: \"../outside\"")
        }
        other => panic!("unexpected {other:?}"),
    }
}

#[test]
fn stable_ids_and_digests_are_checked() {
    let digest = sha256_digest(b"x");
    assert!(validate_digest(&digest, "source").is_ok());
    assert!(validate_digest(&digest.to_uppercase(), "source").is_err());
    assert!(validate_stable_id(&format!("page-{digest}"), "page").is_ok());
    assert!(validate_stable_id(&format!("asset-{digest}"), "page").is_err());
    assert!(validate_stable_id("page-", "page").is_err());
}

#[test]
fn assets_are_checked_in_order() {
    let digest = sha256_hex(b"asset");
    let asset = |id: String, len: u64| Asset {
        asset_id: id,
        kind: AssetKind::Original,
        path: "assets/a.bin".into(),
        mime_type: "application/octet-stream".into(),
        byte_len: len,
        content_sha256: digest.clone(),
        page_id: None,
    };
    let good_id = asset_id_for_sha256(None, AssetKind::Original, &digest);
    assert!(validate_assets(&[asset(good_id.clone(), 10)], "source-x", &[]).is_ok());
    match validate_assets(&[asset("asset-duplicate".into(), MAX_ASSET_BYTES + 1)], "source-x", &[]) {
        Err(CoreError::InvalidDocumentPackage(m)) => {
            assert_eq!(m, "asset ID is not a stable SHA-256 ID")
        }
        other => panic!("unexpected {other:?}"),
    }
    match validate_assets(&[asset(good_id.clone(), MAX_ASSET_BYTES + 1)], "source-x", &[]) {
        Err(CoreError::InvalidDocumentPackage(m)) => {
            assert_eq!(m, "asset exceeds the per-asset size limit")
        }
        other => panic!("unexpected {other:?}"),
    }
    assert!(validate_assets(&[asset(good_id.clone(), 1), asset(good_id, 1)], "source-x", &[]).is_err());
}

#[test]
fn deterministic_revision_ids_are_stable_and_distinct() {
    let b = "a".repeat(64);
    assert_ne!(
        deterministic_revision_id("word", &b, RevisionKind::Human, "a"),
        deterministic_revision_id("word", &b, RevisionKind::Human, "b")
    );
}

#[test]
fn revision_ids_hash_the_nul_separated_seed() {
    let b = "a".repeat(64);
    let id = deterministic_revision_id("word", &b, RevisionKind::AiSuggested, "t");
    let full = sha256_digest(format!("word\0{b}\0ai_suggested\0t").as_bytes());
    assert_eq!(id, format!("revision-{}", &full[..24]));
}

#[test]
fn revision_store_rules() {
    let empty = RevisionStore::empty();
    assert!(empty.validate().is_ok());
    let record = |id: &str| RevisionRecord {
        revision_id: id.into(),
        target_ref: "word-1".into(),
        kind: RevisionKind::Human,
        text: "x".into(),
        base_evidence_digest: "a".repeat(64),
    };
    let mut store = RevisionStore::empty();
    store.revisions = vec![record("r1"), record("r2")];
    assert!(store.validate().is_ok());
    store.revisions.push(record("r1"));
    assert!(matches!(store.validate(), Err(CoreError::InvalidDocument(m)) if m == "invalid revision record"));
    let mut wrong = RevisionStore::empty();
    wrong.schema = "other".into();
    assert!(matches!(wrong.validate(), Err(CoreError::InvalidDocument(m)) if m == "invalid revision store"));
}

#[test]
fn export_formats_and_escapes() {
    assert_eq!(ExportFormat::parse("md"), Some(ExportFormat::Markdown));
    assert_eq!(ExportFormat::parse("alto_xml"), Some(ExportFormat::Alto));
    assert_eq!(ExportFormat::parse("pdf"), None);
    assert_eq!(esc("a<b & \"c\" 'd'>"), "a&lt;b &amp; &quot;c&quot; &#39;d&#39;&gt;");
    assert_eq!(esc_md("# a_b*c"), "\\# a\\_b\\*c");
}

fn package_fixture() -> PackageRecord {
    let sha = "ab".repeat(32);
    let page = page_id(&sha, 0);
    let asset_sha = "cd".repeat(32);
    let asset = asset_id_for_sha256(Some(&page), AssetKind::Master, &asset_sha);
    PackageRecord {
        manifest: Manifest {
            schema: MDP_SCHEMA.to_string(),
            schema_version: "0.1".into(),
            document_id: document_id_for_sha256(&sha),
            source_id: source_id_for_sha256(&sha),
            page_count: 1,
            asset_count: 1,
            tool: ToolInfo { name: "mpdf".into(), version: "0.1.0".into() },
        },
        source: Source {
            source_id: source_id_for_sha256(&sha),
            kind: SourceKind::Pdf,
            content_sha256: sha.clone(),
            byte_len: 10,
            page_count: 1,
            external_reference: None,
            packaged_path: Some("source/original.pdf".into()),
        },
        pages: vec![PageRecord {
            page_id: page.clone(),
            physical_index: 0,
            order: 0,
            rotation_degrees: 0,
            master_space: SpaceRecord {
                id: "master".into(),
                unit: CoordinateUnit::Pixels,
                origin: Origin::TopLeft,
                pixels_per_inch: Some(300),
            },
            source_space: SpaceRecord {
                id: "source".into(),
                unit: CoordinateUnit::PdfPoints,
                origin: Origin::BottomLeft,
                pixels_per_inch: None,
            },
            transform_count: 1,
            asset_ids: vec![asset.clone()],
            outline_targets: vec![Some(page.clone()), None],
            spaces_fault: None,
            geometry_fault: None,
        }],
        assets: vec![Asset {
            asset_id: asset.clone(),
            kind: AssetKind::Master,
            path: "assets/master-0.png".into(),
            mime_type: "image/png".into(),
            byte_len: 100,
            content_sha256: asset_sha,
            page_id: Some(page.clone()),
        }],
        provenance: vec![ProvenanceStep {
            step_id: "step-1".into(),
            operation: "render".into(),
            inputs: vec![source_id_for_sha256(&sha)],
            outputs: vec![page, asset],
            parameters: Default::default(),
            software: "mpdf".into(),
            software_version: "0.1.0".into(),
            execution: ExecutionKind::Local,
        }],
    }
}

fn package_message(r: Result<(), CoreError>) -> String {
    match r {
        Err(CoreError::InvalidDocumentPackage(m)) => m,
        other => panic!("unexpected {other:?}"),
    }
}

#[test]
fn a_consistent_package_validates() {
    assert!(package_fixture().validate().is_ok());
}

#[test]
fn package_header_rules_report_their_fault() {
    let mut p = package_fixture();
    p.manifest.tool.name.clear();
    assert_eq!(package_message(p.validate()), "manifest tool name/version must not be empty");
    let mut p = package_fixture();
    p.manifest.document_id = "doc-x".into();
    assert_eq!(package_message(p.validate()), "document_id does not match source digest");
    let mut p = package_fixture();
    p.manifest.page_count = 2;
    assert_eq!(package_message(p.validate()), "manifest counts do not match package contents");
    let mut p = package_fixture();
    p.source.packaged_path = Some("other/original.pdf".into());
    assert_eq!(package_message(p.validate()), "packaged source must be under source/");
    let mut p = package_fixture();
    p.manifest.schema_version = "1.0".into();
    assert_eq!(package_message(p.validate()), "unsupported schema major version 1.0");
}

#[test]
fn package_page_rules_report_their_fault() {
    let mut p = package_fixture();
    p.pages[0].order = 1;
    assert_eq!(package_message(p.validate()), "page order must be contiguous and deterministic");
    let mut p = package_fixture();
    p.pages[0].rotation_degrees = 45;
    assert_eq!(package_message(p.validate()), "page rotation must be 0, 90, 180, or 270");
    let mut p = package_fixture();
    p.pages[0].source_space.pixels_per_inch = Some(72);
    assert_eq!(
        package_message(p.validate()),
        "page coordinate spaces do not meet the MDP master/source contract"
    );
    let mut p = package_fixture();
    p.pages[0].spaces_fault = Some("coordinate space width is not positive finite".into());
    p.pages[0].rotation_degrees = 45;
    assert_eq!(package_message(p.validate()), "coordinate space width is not positive finite");
    let mut p = package_fixture();
    p.pages[0].transform_count = 2;
    p.pages[0].geometry_fault = Some("transform matrix is not invertible".into());
    assert_eq!(package_message(p.validate()), "page must declare exactly one affine transform");
    let mut p = package_fixture();
    p.pages[0].page_id = page_id(&"ef".repeat(32), 0);
    assert_eq!(
        package_message(p.validate()),
        "page ID does not match source digest and physical index"
    );
}

#[test]
fn package_cross_references_report_their_fault() {
    let mut p = package_fixture();
    let again = p.pages[0].asset_ids[0].clone();
    p.pages[0].asset_ids.push(again);
    assert_eq!(package_message(p.validate()), "page asset IDs must be unique");
    let mut p = package_fixture();
    p.pages[0].asset_ids.clear();
    assert_eq!(package_message(p.validate()), "asset is not listed by its page");
    let mut p = package_fixture();
    p.pages[0].outline_targets = vec![Some("page-unknown".into())];
    assert_eq!(package_message(p.validate()), "outline evidence references an unknown page");
    let mut p = package_fixture();
    p.provenance[0].outputs.push("asset-unknown".into());
    assert_eq!(package_message(p.validate()), "provenance references an unknown ID");
}

#[test]
fn derived_ids_hash_kind_and_parts() {
    let id = stable_id("chunk", &["page-1", "line-2", "the text"]);
    let digest: String = Sha256::digest(b"chunk\0page-1\0line-2\0the text")
        .iter()
        .map(|b| format!("{b:02x}"))
        .collect();
    assert_eq!(id, format!("chunk-{}", &digest[..24]));
    assert_eq!(stable_id("chunk", &["page-1", "line-2", "the text"]), id);
    assert_ne!(stable_id("chunk", &["page-1", "line-2", "other"]), id);
    assert_eq!(stable_id("region", &[]).len(), "region-".len() + 24);
}

#[test]
fn structural_paths_pad_indices_to_six_digits() {
    assert_eq!(structural_path("ppage-1", "b", 3), "ppage-1/b000003");
    assert_eq!(structural_path("ppage-1/b000003", "l", 1234567), "ppage-1/b000003/l1234567");
    assert_eq!(structural_path("x", "w", 0), "x/w000000");
}

#[test]
fn chunk_text_joins_words_with_single_spaces() {
    let words = vec!["Arma".to_string(), "virumque".to_string(), "cano".to_string()];
    assert_eq!(chunk_text(&words), "Arma virumque cano");
    assert_eq!(chunk_text(&[]), "");
    assert_eq!(chunk_text(&["a".to_string(), String::new(), "b".to_string()]), "a  b");
}

#[test]
fn derived_bundles_go_stale_when_any_input_changes() {
    let m = DerivedManifest {
        schema: "mpdf-derived-document".into(),
        schema_version: "0.1".into(),
        source_digest: "s".into(),
        document_id: "doc".into(),
        package_digest: "p".into(),
        ocr_digest: Some("o".into()),
        revision_digest: "r".into(),
        exporter_version: "0.1".into(),
        artifacts: vec![],
    };
    assert!(!m.is_stale("p", Some("o"), "r", "0.1"));
    assert!(m.is_stale("p2", Some("o"), "r", "0.1"));
    assert!(m.is_stale("p", None, "r", "0.1"));
    assert!(m.is_stale("p", Some("o"), "r", "0.2"));
}

#[test]
fn ocr_pages_must_name_package_pages() {
    assert!(check_ocr_pages(&[0, 1], 2, &[0, 1]).is_ok());
    assert!(matches!(
        check_ocr_pages(&[2], 2, &[0, 1, 2]),
        Err(CoreError::InvalidDocument(m)) if m == "OCR evidence page identity does not match package"
    ));
    assert!(check_ocr_pages(&[1], 3, &[0, 2]).is_err());
}

fn bundle_manifest(artifacts: Vec<DerivedArtifact>) -> DerivedManifest {
    DerivedManifest {
        schema: "mpdf-derived-document".into(),
        schema_version: "0.1".into(),
        source_digest: "s".into(),
        document_id: "d".into(),
        package_digest: "p".into(),
        ocr_digest: None,
        revision_digest: "r".into(),
        exporter_version: "0.1".into(),
        artifacts,
    }
}

fn full_listing() -> Vec<DerivedArtifact> {
    [
        ("derived.json", "json"),
        ("derived.jsonl", "jsonl"),
        ("derived.md", "md"),
        ("derived.txt", "txt"),
        ("derived.html", "html"),
        ("derived.hocr.html", "hocr.html"),
        ("derived.alto.xml", "alto.xml"),
    ]
    .iter()
    .map(|(path, format)| DerivedArtifact {
        format: format.to_string(),
        path: path.to_string(),
        sha256: "a".repeat(64),
        byte_len: 1,
    })
    .collect()
}

#[test]
fn bundle_precheck_orders_corrupt_header_stale_and_bad_listing() {
    assert_eq!(bundle_precheck(&bundle_manifest(full_listing()), false), None);
    assert_eq!(bundle_precheck(&bundle_manifest(full_listing()), true), Some(BundleStatus::Stale));
    let mut short = full_listing();
    short.pop();
    assert_eq!(bundle_precheck(&bundle_manifest(short), true), Some(BundleStatus::Corrupt));
    let mut wrong_format = full_listing();
    wrong_format[2].format = "txt".into();
    assert_eq!(bundle_precheck(&bundle_manifest(wrong_format.clone()), false), Some(BundleStatus::Corrupt));
    assert_eq!(bundle_precheck(&bundle_manifest(wrong_format), true), Some(BundleStatus::Stale));
    let mut duplicate = full_listing();
    duplicate[6] = duplicate[0].clone();
    assert_eq!(bundle_precheck(&bundle_manifest(duplicate), false), Some(BundleStatus::Corrupt));
    let mut upper = full_listing();
    upper[1].sha256 = "A".repeat(64);
    assert_eq!(bundle_precheck(&bundle_manifest(upper), false), Some(BundleStatus::Corrupt));
    let mut schema = bundle_manifest(full_listing());
    schema.schema_version = "0.2".into();
    assert_eq!(bundle_precheck(&schema, true), Some(BundleStatus::Corrupt));
}

fn queue_word(id: &str, reading_order: u32, low_confidence: bool, source: &str, normalized: &str) -> QueueWord {
    QueueWord {
        id: id.into(),
        page_id: "page-1".into(),
        reading_order,
        low_confidence,
        source_text: source.into(),
        source_normalized_text: normalized.into(),
    }
}

fn queue_page(page_id: &str, page_index: u32, lines: Vec<QueueLine>) -> QueuePage {
    QueuePage {
        page_id: page_id.into(),
        page_index,
        evidence_digest: "d".repeat(64),
        has_blocks: !lines.is_empty(),
        lines,
    }
}

#[test]
fn review_queue_is_typed_and_references_word() {
    // The word of the original fixture: confidence 0.5 and a source text
    // whose normalization differs.
    let word = queue_word("word-1", 0, true, "A\u{301} <&>", "\u{c1} <&>");
    let pages = vec![queue_page("page-1", 0, vec![QueueLine { words: vec![word] }])];
    let q = review_queue(&pages);
    assert!(q.iter().any(|x| x.kind == ReviewIssueKind::LowConfidence
        && x.target_ref == "word-1"
        && x.details == Some((0, 0, 0))));
}

#[test]
fn review_queue_orders_issues_by_id() {
    let words = vec![
        queue_word("w-a", 1, false, "x", "x"),
        queue_word("w-b", 1, true, "y", "y"),
    ];
    let pages = vec![
        queue_page("page-1", 0, vec![QueueLine { words }]),
        queue_page("page-2", 1, vec![]),
    ];
    let q = review_queue(&pages);
    assert_eq!(q.len(), 3);
    let ids: Vec<&str> = q.iter().map(|x| x.issue_id.as_str()).collect();
    let mut sorted = ids.clone();
    sorted.sort();
    assert_eq!(ids, sorted);
    let empty = q.iter().find(|x| x.kind == ReviewIssueKind::EmptyRegion).unwrap();
    assert_eq!(empty.issue_id, issue_id(ReviewIssueKind::EmptyRegion, "page-2", 1));
    assert_eq!(empty.page_id, "page-2");
    assert_eq!(empty.reason, "page has no structured text evidence");
    assert_eq!(empty.details, None);
    let gap = q.iter().find(|x| x.kind == ReviewIssueKind::ReadingOrderGap).unwrap();
    assert_eq!(gap.target_ref, "w-a");
    assert_eq!(gap.origin, Some((0, 0)));
    assert_eq!(gap.severity, ReviewSeverity::Warning);
    let seed = "reading-order\0w-a\00";
    assert_eq!(gap.issue_id, format!("issue-{}", &sha256_hex(seed.as_bytes())[..24]));
}

#[test]
fn stable_order_sorts_by_number_then_text_and_keeps_ties() {
    let key = |major: i64, minor: &str| key_of(major, minor);
    let keys = vec![key(1, "b"), key(0, "z"), key(1, "a"), key(1, "b"), key(1, "ab"), key(0, "")];
    assert_eq!(stable_order(&keys), vec![5, 1, 2, 4, 0, 3]);
}

fn revision(target: &str, kind: RevisionKind, text: &str, base: &str) -> RevisionRecord {
    RevisionRecord {
        revision_id: format!("r-{target}-{text}"),
        target_ref: target.into(),
        kind,
        text: text.into(),
        base_evidence_digest: base.into(),
    }
}

fn revision_store(revisions: Vec<RevisionRecord>) -> RevisionStore {
    RevisionStore { schema: "mpdf-revisions".into(), schema_version: "0.1".into(), revisions }
}

#[test]
fn human_revision_changes_effective_exports_only() {
    let pages = vec![RevisionPage { evidence_digest: "d".repeat(64), word_ids: vec![vec!["word-1".to_string()]] }];
    let store = revision_store(vec![revision("word-1", RevisionKind::Human, "corrected", &"d".repeat(64))]);
    let (edits, result) = revision_edits(&pages, &store);
    assert!(result.is_ok());
    assert_eq!(edits.len(), 1);
    assert_eq!((edits[0].page, edits[0].line, edits[0].word), (0, 0, 0));
    assert_eq!(edits[0].text, "corrected");
    assert_eq!(edits[0].normalized_text, "corrected");
    let chunk_pages = vec![ChunkPage {
        page_id: "page-1".into(),
        page_index: 0,
        lines: vec![ChunkLine {
            id: "line-1".into(),
            structural_path: "p/page-1/b000000/l000000".into(),
            words: vec![edits[0].normalized_text.clone()],
        }],
    }];
    let chunks = rebuild_chunks(&chunk_pages);
    assert_eq!(chunks[0].text, "corrected");
    assert_eq!(chunks[0].structural_path, "p/page-1/b000000/l000000.chunk");
    assert_eq!(chunks[0].id, stable_id("chunk", &["page-1", "line-1", "corrected"]));
}

#[test]
fn revisions_fail_on_stale_evidence_or_missing_targets() {
    let d = "d".repeat(64);
    let e = "e".repeat(64);
    let pages = vec![
        RevisionPage { evidence_digest: d.clone(), word_ids: vec![vec!["w1".into(), "w2".into()]] },
        RevisionPage { evidence_digest: d.clone(), word_ids: vec![vec![], vec!["w2".into()]] },
    ];
    let store = revision_store(vec![
        revision("w2", RevisionKind::Human, "x", &d),
        revision("w1", RevisionKind::AiSuggested, "y", &d),
        revision("w1", RevisionKind::Human, "z", &e),
    ]);
    let (edits, result) = revision_edits(&pages, &store);
    assert_eq!(edits.len(), 1);
    assert_eq!((edits[0].page, edits[0].line, edits[0].word), (1, 1, 0));
    assert!(matches!(result, Err(CoreError::InvalidDocument(m)) if m == "stale revision base evidence"));
    let store = revision_store(vec![revision("nope", RevisionKind::Human, "x", &d)]);
    let (edits, result) = revision_edits(&pages, &store);
    assert!(edits.is_empty());
    assert!(matches!(result, Err(CoreError::InvalidDocument(m)) if m == "revision target does not exist"));
}

#[test]
fn chunks_skip_empty_lines_and_sort_by_page_and_path() {
    let line = |id: &str, path: &str, words: &[&str]| ChunkLine {
        id: id.into(),
        structural_path: path.into(),
        words: words.iter().map(|w| w.to_string()).collect(),
    };
    let pages = vec![
        ChunkPage { page_id: "p2".into(), page_index: 1, lines: vec![line("a", "p/b/l1", &["two"])] },
        ChunkPage {
            page_id: "p1".into(),
            page_index: 0,
            lines: vec![line("b", "p/b/l9", &["x", "y"]), line("c", "p/b/l0", &[]), line("d", "p/b/l2", &["z"])],
        },
    ];
    let chunks = rebuild_chunks(&pages);
    let texts: Vec<&str> = chunks.iter().map(|c| c.text.as_str()).collect();
    assert_eq!(texts, vec!["z", "x y", "two"]);
    assert_eq!((chunks[2].page, chunks[2].line), (0, 0));
}

#[test]
fn multi_part_keys_compare_numbers_then_texts() {
    let k = |numbers: Vec<i64>, texts: &[&str]| SortKey { numbers, texts: texts.iter().map(|t| t.to_string()).collect() };
    let keys = vec![k(vec![1, 5], &["b"]), k(vec![1], &["z"]), k(vec![1, 5], &["a", "x"]), k(vec![0, 9], &[]), k(vec![1, 5], &["a"])];
    assert_eq!(stable_order(&keys), vec![3, 1, 4, 2, 0]);
}

fn outline_item(title: &str) -> OutlineEvidenceRef {
    OutlineEvidenceRef { title: title.into(), level: 1, target_page_id: None, source: "pdf_outline".into() }
}

#[test]
fn generation_plans_follow_the_outline_then_contents_then_refuse() {
    let package = package_fixture();
    let page = package.pages[0].page_id.clone();
    let empty = vec![OutlinePage { page_id: page.clone(), outline: vec![] }];
    let with_outline = vec![OutlinePage { page_id: page.clone(), outline: vec![outline_item("Part I")] }];
    match plan_generation(&package, &with_outline, None, None) {
        Ok(GenerationPlan::ExistingOutline(v)) => assert_eq!(v.len(), 1),
        other => panic!("unexpected {other:?}"),
    }
    match plan_generation(&package, &empty, None, None) {
        Ok(GenerationPlan::Refusal(m)) => {
            assert_eq!(m, "no validated native outline and no complete OCR evidence for this document")
        }
        other => panic!("unexpected {other:?}"),
    }
    let ocr = OcrBinding { complete: true, page_indices: vec![0], digest: "o".into() };
    let mut derived = DerivedManifest {
        schema: "mpdf-derived-document".into(),
        schema_version: "0.1".into(),
        source_digest: package.source.content_sha256.clone(),
        document_id: "d".into(),
        package_digest: "p".into(),
        ocr_digest: Some("o".into()),
        revision_digest: "r".into(),
        exporter_version: "0.1".into(),
        artifacts: vec![],
    };
    assert!(matches!(plan_generation(&package, &empty, Some(&ocr), Some(&derived)), Ok(GenerationPlan::PrintedContents)));
    let unbound = OcrBinding { complete: true, page_indices: vec![3], digest: "o".into() };
    assert!(matches!(
        plan_generation(&package, &empty, Some(&unbound), Some(&derived)),
        Err(CoreError::InvalidDocument(m)) if m == "OCR page index is out of range for the package"
    ));
    derived.source_digest = "other".into();
    assert!(matches!(
        plan_generation(&package, &empty, Some(&ocr), Some(&derived)),
        Err(CoreError::InvalidDocument(m)) if m == "derived source does not match package"
    ));
    let mut broken = package_fixture();
    broken.manifest.page_count = 2;
    assert!(plan_generation(&broken, &empty, None, None).is_err());
}

fn key(x: i64) -> BoxKey {
    BoxKey { x, y: 0, width: 10, height: 10, has_nan: false }
}

#[test]
fn evidence_references_resolve_against_pages_and_derived_text() {
    let pages = vec![PageEvidence {
        page_id: "p".into(),
        physical_index: 0,
        outline_sources: vec!["pdf_outline".into()],
        page_label: Some("iv".into()),
        typography_bounds: vec![("master".into(), key(1))],
        region_bounds: vec![],
    }];
    let derived = vec![DerivedPageEvidence {
        page_id: "p".into(),
        bbox: key(0),
        lines: vec![("l1".into(), key(5))],
        words: vec![("w1".into(), key(6))],
    }];
    let ok = |e: EvidenceItem| check_evidence(&e, &pages, Some(&derived)).is_ok();
    assert!(ok(EvidenceItem::MdpOutline { page_id: "p".into(), ordinal: 0, source: "pdf_outline".into() }));
    assert!(!ok(EvidenceItem::MdpOutline { page_id: "p".into(), ordinal: 1, source: "pdf_outline".into() }));
    assert!(ok(EvidenceItem::MdpPageLabel { page_id: "p".into(), label: "iv".into() }));
    assert!(ok(EvidenceItem::MdpTypography { page_id: "p".into(), ordinal: 0, space_id: "master".into(), bbox: key(1) }));
    assert!(!ok(EvidenceItem::MdpTypography { page_id: "p".into(), ordinal: 0, space_id: "source".into(), bbox: key(1) }));
    assert!(!ok(EvidenceItem::MdpRegion { page_id: "p".into(), ordinal: 0, space_id: "master".into(), bbox: key(1) }));
    assert!(ok(EvidenceItem::DerivedPage { page_id: "p".into(), bbox: key(0) }));
    assert!(ok(EvidenceItem::DerivedLine { page_id: "p".into(), line_id: "l1".into(), bbox: key(5) }));
    assert!(!ok(EvidenceItem::DerivedLine { page_id: "p".into(), line_id: "l1".into(), bbox: key(6) }));
    assert!(ok(EvidenceItem::DerivedWord { page_id: "p".into(), word_id: "w1".into(), bbox: key(6) }));
    let mut nan = key(6);
    nan.has_nan = true;
    assert!(!ok(EvidenceItem::DerivedWord { page_id: "p".into(), word_id: "w1".into(), bbox: nan }));
    assert!(matches!(
        check_evidence(&EvidenceItem::DerivedPage { page_id: "p".into(), bbox: key(0) }, &pages, None),
        Err(CoreError::InvalidDocument(m)) if m == "derived page evidence is unresolved"
    ));
}

#[test]
fn ids_have_their_fixed_length_and_lowercase_hex() {
    let d = "ab".repeat(32);
    let id = asset_id_for_sha256(Some("page-a"), AssetKind::Original, &d);
    assert_eq!(id.len(), 70);
    assert!(id[6..].chars().all(|c| c.is_ascii_hexdigit() && !c.is_ascii_uppercase()));
    assert_ne!(id, asset_id_for_sha256(Some("page-a"), AssetKind::Master, &d));
    let r = deterministic_revision_id("word", &"a".repeat(64), RevisionKind::Human, "a");
    assert_eq!(r.len(), 33);
    assert!(r.starts_with("revision-"));
}

use mpdf_core::bookmarks::engine::{generate_auto, GenerationOutcome, InputDigests};
use mpdf_core::bookmarks::model::{BookmarkStatus, GenerationMode};

fn generation_digests() -> InputDigests {
    InputDigests {
        package_digest: "pkg".into(),
        derived_digest: Some("der".into()),
        rule_config_digest: "rules".into(),
    }
}

#[test]
fn generation_turns_the_package_outline_into_a_confirmed_record() {
    let package = package_fixture();
    let page = package.pages[0].page_id.clone();
    let outline = vec![OutlinePage { page_id: page.clone(), outline: vec![outline_item("  Part I ")] }];
    let outcome = generate_auto(&package, &outline, None, None, &generation_digests(), "rules-1");
    let s = match outcome {
        Ok(GenerationOutcome::Snapshot(s)) => s,
        other => panic!("unexpected {other:?}"),
    };
    assert_eq!(s.schema, "mpdf-bookmarks");
    assert_eq!(s.schema_version, "0.2");
    assert_eq!(s.generation_mode, Some(GenerationMode::ExistingOutline));
    assert_eq!(s.package_digest, "pkg");
    assert_eq!(s.derived_digest.as_deref(), Some("der"));
    assert_eq!(s.ocr_digest, None);
    assert_eq!(s.revision_digest, None);
    assert_eq!(s.rule_config_digest.as_deref(), Some("rules"));
    assert_eq!(s.rule_version.as_deref(), Some("rules-1"));
    assert_eq!(s.generation_digest, "");
    assert_eq!(s.candidates.len(), 1);
    let c = &s.candidates[0];
    assert_eq!(c.source_title, "  Part I ");
    assert_eq!(c.effective_title, "Part I");
    assert_eq!(c.status, BookmarkStatus::AutoConfirmed);
    assert_eq!(c.target_page_id, page);
    assert_eq!(c.physical_page_index, 0);
    assert_eq!(c.reason_codes, vec!["validated_existing_outline".to_owned()]);
    assert_eq!(c.rule_trace, vec!["existing_outline".to_owned()]);
    assert_eq!(c.evidence_page_ids, vec![page.clone()]);
    assert_eq!(c.confidence_breakdown.as_ref().map(|b| b.total), Some(10000));
    assert!(c.candidate_id.starts_with("bookmark-"));
}

#[test]
fn generation_refuses_without_outline_or_contents_evidence() {
    let package = package_fixture();
    let page = package.pages[0].page_id.clone();
    let empty = vec![OutlinePage { page_id: page.clone(), outline: vec![] }];
    match generate_auto(&package, &empty, None, None, &generation_digests(), "rules-1") {
        Ok(GenerationOutcome::Snapshot(s)) => {
            assert_eq!(s.generation_mode, Some(GenerationMode::SafeRefusal));
            assert!(s.candidates.is_empty());
        }
        other => panic!("unexpected {other:?}"),
    }
    let ocr = OcrBinding { complete: true, page_indices: vec![0], digest: "o".into() };
    let derived = DerivedManifest {
        schema: "mpdf-derived-document".into(),
        schema_version: "0.1".into(),
        source_digest: package.source.content_sha256.clone(),
        document_id: "d".into(),
        package_digest: "p".into(),
        ocr_digest: Some("o".into()),
        revision_digest: "r".into(),
        exporter_version: "0.1".into(),
        artifacts: vec![],
    };
    assert!(matches!(
        generate_auto(&package, &empty, Some(&ocr), Some(&derived), &generation_digests(), "rules-1"),
        Ok(GenerationOutcome::PrintedContents)
    ));
    let blank = vec![OutlinePage { page_id: page, outline: vec![outline_item("   ")] }];
    assert!(matches!(
        generate_auto(&package, &blank, None, None, &generation_digests(), "rules-1"),
        Err(CoreError::InvalidDocument(m)) if m == "outline title is empty"
    ));
}

use mpdf_core::bookmarks::engine::ReportBuilder;
use mpdf_core::bookmarks::model::GenerationStatus;
use mpdf_core::bookmarks::tally::Tally;

fn report_builder(reasons: Vec<String>, refusal: Option<String>) -> ReportBuilder {
    ReportBuilder {
        source_digest: "src".into(),
        package_digest: "pkg".into(),
        ocr_digest: Some("ocr".into()),
        derived_digest: None,
        revision_digest: None,
        rule_config_digest: "rules".into(),
        rule_version: "rules-1".into(),
        safe_refusal_reason: refusal,
        ocr_provenance: vec![],
        front_page_limit: 7,
        scanned_front_pages: 3,
        toc_pages: vec![],
        parsed_entries: 5,
        tally: Tally::new(),
        mapping_segments: vec![],
        truncated: true,
        truncation_reasons: reasons,
        shortlist_postings_visited: 11,
        body_lines_indexed: 12,
    }
}

#[test]
fn an_outline_report_counts_the_confirmed_outline_items() {
    let package = package_fixture();
    let page = package.pages[0].page_id.clone();
    let outline = vec![OutlinePage { page_id: page, outline: vec![outline_item("Part I")] }];
    let mut s = match generate_auto(&package, &outline, None, None, &generation_digests(), "rules-1") {
        Ok(GenerationOutcome::Snapshot(s)) => s,
        other => panic!("unexpected {other:?}"),
    };
    s.generation_digest = "gen".into();
    let builder = report_builder(vec!["b".into(), "a".into(), "b".into()], None);
    let r = builder.finish(GenerationMode::ExistingOutline, &s);
    assert_eq!(r.schema, "mpdf-bookmark-generation-report");
    assert_eq!(r.auto_confirmed, 1);
    assert_eq!(r.parsed_entries, 1);
    assert_eq!(r.reason_code_counts, vec![("validated_existing_outline".to_owned(), 1)]);
    assert_eq!(r.status, GenerationStatus::AutoConfirmed);
    assert_eq!(r.safe_refusal_reason, None);
    assert_eq!(r.truncation_reasons, vec!["a".to_owned(), "b".to_owned()]);
    assert_eq!(r.ocr_digest, None);
    assert_eq!(r.generation_digest, "gen");
    assert_eq!(r.report_digest, "");
    assert_eq!(r.front_page_limit, 7);
    assert_eq!(r.body_lines_indexed, 12);
}

#[test]
fn a_report_without_confirmed_entries_is_a_refusal_with_a_reason() {
    let package = package_fixture();
    let page = package.pages[0].page_id.clone();
    let empty = vec![OutlinePage { page_id: page, outline: vec![] }];
    let s = match generate_auto(&package, &empty, None, None, &generation_digests(), "rules-1") {
        Ok(GenerationOutcome::Snapshot(s)) => s,
        other => panic!("unexpected {other:?}"),
    };
    let r = report_builder(vec![], None).finish(GenerationMode::TocAligned, &s);
    assert_eq!(r.status, GenerationStatus::SafeRefusal);
    assert_eq!(r.parsed_entries, 5);
    assert_eq!(r.ocr_digest.as_deref(), Some("ocr"));
    assert_eq!(
        r.safe_refusal_reason.as_deref(),
        Some("a printed contents list was found but no entry reached the confidence gate")
    );
    let refusal = "no validated native outline and no complete OCR evidence for this document";
    let r = report_builder(vec![], Some(refusal.into())).finish(GenerationMode::SafeRefusal, &s);
    assert_eq!(r.status, GenerationStatus::SafeRefusal);
    assert_eq!(r.safe_refusal_reason.as_deref(), Some(refusal));
    assert_eq!(r.ocr_digest, None);
}

use mpdf_core::bookmarks::config::AutoBookmarkConfig;
use mpdf_core::bookmarks::heading::{heading_review_candidates, HeadingLine, HeadingPage};
use mpdf_core::bookmarks::ids::stable_id as line_stable_id;

fn heading_line(id: &str, text: &str, top: u32, tall: bool) -> HeadingLine {
    HeadingLine {
        line_id: id.into(),
        raw_text: text.into(),
        primary_key: text.trim().to_lowercase(),
        repeated_furniture: false,
        tall,
        clear_of_footer: true,
        top_permille: top,
        bbox_text: "10.000000,20.000000,300.000000,40.000000".into(),
        bbox_finite: true,
    }
}

#[test]
fn heading_proposals_are_tall_body_lines_for_review_only() {
    let package = package_fixture();
    let page = package.pages[0].page_id.clone();
    let pages = vec![
        HeadingPage {
            page_id: page.clone(),
            measured: true,
            lines: vec![
                heading_line("l1", " Chapter One ", 100, true),
                heading_line("l2", "body text", 200, false),
                heading_line("l3", "Low Title", 600, true),
                heading_line("l4", "   ", 120, true),
            ],
        },
        HeadingPage { page_id: "page-missing".into(), measured: true, lines: vec![heading_line("l5", "X", 1, true)] },
    ];
    let config = AutoBookmarkConfig::default();
    let r = heading_review_candidates(&package, &pages, &config);
    assert_eq!(r.len(), 1);
    let c = &r[0];
    assert_eq!(c.effective_title, "Chapter One");
    assert_eq!(c.status, BookmarkStatus::NeedsReview);
    assert_eq!(c.effective_level, 0);
    assert_eq!(c.target_page_id, page);
    assert_eq!(c.reason_codes, vec!["heading_without_printed_contents".to_owned(), "requires_human_review".to_owned()]);
    assert_eq!(c.confidence_breakdown.as_ref().map(|b| b.total), Some(1200));
    let id = line_stable_id(&package.source.content_sha256, 0, " Chapter One ", "10.000000,20.000000,300.000000,40.000000");
    assert_eq!(c.candidate_id, id);
    let mut seed = package.source.content_sha256.as_bytes().to_vec();
    seed.extend_from_slice(&0u32.to_le_bytes());
    seed.extend_from_slice(b"Chapter One");
    seed.extend_from_slice(b"10.000000,20.000000,300.000000,40.000000");
    assert_eq!(id, format!("bookmark-{}", &sha256_hex(&seed)[..32]));
    let unmeasured = vec![HeadingPage { page_id: page, measured: false, lines: vec![heading_line("l1", "Chapter", 1, true)] }];
    assert!(heading_review_candidates(&package, &unmeasured, &config).is_empty());
}

#[test]
fn heading_proposals_stop_at_one_hundred() {
    let package = package_fixture();
    let page = package.pages[0].page_id.clone();
    let lines: Vec<HeadingLine> = (0..150).map(|i| heading_line(&format!("l{i}"), &format!("Heading {i}"), 10, true)).collect();
    let pages = vec![HeadingPage { page_id: page, measured: true, lines }];
    let r = heading_review_candidates(&package, &pages, &AutoBookmarkConfig::default());
    assert_eq!(r.len(), 100);
    assert_eq!(r[99].source_title, "Heading 99");
}

use mpdf_core::bookmarks::engine::{open_printed_contents, ContentsStart};
use mpdf_core::bookmarks::toc_detect::{DetectLine, DetectPage};

#[test]
fn a_front_matter_without_contents_refuses_with_heading_proposals() {
    let package = package_fixture();
    let page = package.pages[0].page_id.clone();
    let detect_pages = vec![DetectPage {
        page_id: page.clone(),
        page_index: 0,
        lines: vec![DetectLine {
            line_id: "l1".into(),
            raw_text: "Chapter One".into(),
            primary_key: "chapter one".into(),
            secondary_key: "chapterone".into(),
        }],
        right_edges_aligned: false,
    }];
    let heading_pages = vec![HeadingPage {
        page_id: page,
        measured: true,
        lines: vec![heading_line("l1", "Chapter One", 100, true)],
    }];
    match open_printed_contents(&package, &detect_pages, &heading_pages, &AutoBookmarkConfig::default()) {
        ContentsStart::Refusal(scan, reason, proposals) => {
            assert!(scan.detections.is_empty());
            assert_eq!(reason, "no printed table of contents was detected in the document's front matter");
            assert_eq!(proposals.len(), 1);
            assert_eq!(proposals[0].effective_title, "Chapter One");
        }
        other => panic!("unexpected {other:?}"),
    }
}
