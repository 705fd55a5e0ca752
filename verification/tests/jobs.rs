use mpdf_core::jobs::{
    check_new_job, lease_deadline, next_status_after_failure, validate_protocol,
    validate_provider_request, validate_transcript, FakeBehavior, FakeProvider, JobError,
    PageStatus, ProviderRequest, SidecarKind, SidecarMessage, MAX_PAGE_ATTEMPTS,
};
use mpdf_core::jobs::{append_sidecar_record, check_sidecar_record, sidecar_lines, MAX_SIDECAR_LINE_BYTES};

fn request(page_index: u32) -> ProviderRequest {
    ProviderRequest {
        protocol: "mpdf-job".into(),
        protocol_version: "0.1".into(),
        job_id: "job-1".into(),
        page_id: "page-1".into(),
        page_index,
        input_asset_sha256: "b".repeat(64),
        parameters: vec![("lang".into(), "grc".into())],
    }
}

#[test]
fn protocol_versions_must_be_canonical_zero_major() {
    assert!(validate_protocol("mpdf-job", "0.1").is_ok());
    assert!(validate_protocol("mpdf-job", "0.12").is_ok());
    assert!(matches!(validate_protocol("mpdf-job", "0.01"), Err(JobError::UnsupportedProtocol(v)) if v == "0.01"));
    assert!(validate_protocol("mpdf-job", "1.0").is_err());
    assert!(validate_protocol("mpdf-job", "0").is_err());
    assert!(validate_protocol("mpdf-job", "0.1.2").is_err());
    assert!(matches!(validate_protocol("other", "0.1"), Err(JobError::UnsupportedProtocol(v)) if v == "other"));
}

#[test]
fn provider_requests_are_validated() {
    assert!(validate_provider_request(&request(0)).is_ok());
    let mut bad = request(0);
    bad.input_asset_sha256 = "B".repeat(64);
    assert!(matches!(validate_provider_request(&bad), Err(JobError::Invalid(m)) if m == "input asset digest must be lowercase SHA-256"));
    let mut empty_key = request(0);
    empty_key.parameters = vec![(String::new(), "x".into())];
    assert!(validate_provider_request(&empty_key).is_err());
}

#[test]
fn fake_provider_follows_its_behavior() {
    let mut ok = FakeProvider { behavior: FakeBehavior::Success, calls: 0, last_page_index: None };
    let response = ok.process(&request(3)).unwrap();
    assert_eq!(ok.calls, 1);
    assert_eq!(ok.last_page_index, Some(3));
    assert_eq!(response.output_digest.len(), 64);
    assert_eq!(response.provenance.engine, "reference");
    let mut partial = FakeProvider { behavior: FakeBehavior::PartialFailure, calls: 0, last_page_index: None };
    assert!(partial.process(&request(0)).is_ok());
    assert!(matches!(partial.process(&request(1)), Err(JobError::Provider(m)) if m == "partial failure"));
    let mut ordered = FakeProvider { behavior: FakeBehavior::OutOfOrder, calls: 0, last_page_index: None };
    assert!(ordered.process(&request(2)).is_ok());
    assert!(ordered.process(&request(2)).is_err());
    assert_eq!(ordered.last_page_index, Some(2));
    let mut mismatch = FakeProvider { behavior: FakeBehavior::ProtocolMismatch, calls: 0, last_page_index: None };
    assert!(matches!(mismatch.process(&request(0)), Err(JobError::UnsupportedProtocol(_))));
}

fn message(kind: SidecarKind, page_index: Option<u32>) -> SidecarMessage {
    SidecarMessage {
        protocol: "mpdf-job".into(),
        protocol_version: "0.1".into(),
        kind,
        job_id: "job-1".into(),
        page_index,
        payload: vec![],
    }
}

#[test]
fn transcripts_start_once_finish_once_and_never_repeat_a_page() {
    let good = vec![
        message(SidecarKind::JobStarted, None),
        message(SidecarKind::PageResult, Some(0)),
        message(SidecarKind::PageFailed, Some(1)),
        message(SidecarKind::JobFinished, None),
    ];
    assert!(validate_transcript(&good).is_ok());
    let mut duplicated = good.clone();
    duplicated.insert(2, message(SidecarKind::PageResult, Some(0)));
    assert!(matches!(validate_transcript(&duplicated), Err(JobError::Invalid(m)) if m == "page result is duplicated"));
    let no_pages = vec![message(SidecarKind::JobStarted, None), message(SidecarKind::JobFinished, None)];
    assert!(matches!(validate_transcript(&no_pages), Err(JobError::Invalid(m)) if m == "sidecar has no page result"));
    assert!(validate_transcript(&[]).is_err());
    let unordered = vec![
        message(SidecarKind::PageResult, Some(0)),
        message(SidecarKind::JobStarted, None),
        message(SidecarKind::JobFinished, None),
    ];
    assert!(validate_transcript(&unordered).is_err());
}

#[test]
fn store_decisions() {
    assert_eq!(lease_deadline("worker", 100, 60).unwrap(), 160);
    assert!(lease_deadline("", 100, 60).is_err());
    assert!(lease_deadline("worker", i64::MAX - 1, 60).is_err());
    assert!(check_new_job("job", 1).is_ok());
    assert!(check_new_job("job", 0).is_err());
    assert_eq!(next_status_after_failure(true, true, 0), PageStatus::Cancelled);
    assert_eq!(next_status_after_failure(false, true, MAX_PAGE_ATTEMPTS - 1), PageStatus::Queued);
    assert_eq!(next_status_after_failure(false, true, MAX_PAGE_ATTEMPTS), PageStatus::Failed);
    assert_eq!(next_status_after_failure(false, false, 0), PageStatus::Failed);
}

#[test]
fn sidecar_text_splits_into_records() {
    assert_eq!(sidecar_lines("{\"a\":1}\n{\"b\":2}\r\n").unwrap(), vec!["{\"a\":1}", "{\"b\":2}"]);
    assert_eq!(sidecar_lines("\n").unwrap(), vec![""]);
    assert!(matches!(sidecar_lines(""), Err(JobError::Invalid(m)) if m == "sidecar byte limit exceeded"));
    assert!(matches!(
        sidecar_lines("{}"),
        Err(JobError::Invalid(m)) if m == "sidecar does not end with a complete record"
    ));
}

#[test]
fn sidecar_records_are_checked_and_framed() {
    assert!(check_sidecar_record("{}").is_ok());
    assert!(matches!(check_sidecar_record("  "), Err(JobError::Invalid(m)) if m == "sidecar contains an empty record"));
    let long = "x".repeat(MAX_SIDECAR_LINE_BYTES + 1);
    assert!(matches!(check_sidecar_record(&long), Err(JobError::Invalid(m)) if m == "sidecar record exceeds byte limit"));
    let mut out = String::new();
    append_sidecar_record(&mut out, "{}").unwrap();
    append_sidecar_record(&mut out, "[]").unwrap();
    assert_eq!(out, "{}\n[]\n");
    assert!(append_sidecar_record(&mut out, &long).is_err());
    assert_eq!(out, "{}\n[]\n");
}
