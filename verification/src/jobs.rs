//! The provider-neutral job protocol: job and page records, provider
//! requests and responses with their validation, the reference fake
//! provider, sidecar transcripts, and the decisions the durable job store
//! takes on claims, failures and expiry.
//!
//! Maps of parameters and payloads are held as lists of key/value pairs in
//! key order, each key at most once.

use vstd::prelude::*;

use crate::digest::{decimal, hex_of, push_decimal, sha256, sha256_hex_str};
use crate::document_package::parse_u32;
use crate::document_package::u32_parse;
use crate::text::{
    chars_of, concat, is_digest, is_digest_str, push_str, split_chars, split_on, str_eq, string_of,
    trim_ws, trimmed, utf8_len, utf8_len_at_most, views,
};

verus! {

broadcast use vstd::string::group_string_axioms;

pub const JOB_PROTOCOL: &'static str = "mpdf-job";
pub const JOB_PROTOCOL_VERSION: &'static str = "0.1";
pub const DEFAULT_LEASE_SECONDS: i64 = 60;
pub const MAX_PAGES_PER_JOB: u32 = 100_000;
pub const MAX_PAGE_ATTEMPTS: u32 = 3;
pub const MAX_SIDECAR_BYTES: usize = 16_777_216;
pub const MAX_SIDECAR_RECORDS: usize = 100_000;
pub const MAX_SIDECAR_LINE_BYTES: usize = 1_048_576;
pub const MAX_PAYLOAD_ITEMS: usize = 128;
pub const MAX_PARAMETER_BYTES: usize = 4096;
pub const MAX_CHECKPOINT_BYTES: usize = 1_048_576;
pub const MAX_IDENTIFIER_BYTES: usize = 256;
pub const MAX_LEASE_SECONDS: i64 = 86_400;

#[derive(Debug, Clone, Copy, PartialEq, Eq, Structural)]
pub enum JobStatus {
    Queued,
    Running,
    Cancelling,
    Completed,
    Failed,
    Cancelled,
}

#[derive(Debug, Clone, Copy, PartialEq, Eq, Structural)]
pub enum PageStatus {
    Queued,
    Running,
    Completed,
    Failed,
    Cancelled,
}

#[derive(Debug, Clone, PartialEq, Eq)]
pub struct JobRecord {
    pub job_id: String,
    pub status: JobStatus,
    pub page_count: u32,
    pub completed_pages: u32,
    pub cancel_requested: bool,
    pub heartbeat_at: Option<i64>,
    pub retries: u32,
}

#[derive(Debug, Clone, PartialEq, Eq)]
pub struct PageRecord {
    pub job_id: String,
    pub page_index: u32,
    pub status: PageStatus,
    pub attempts: u32,
    pub checkpoint: Option<String>,
    pub artifact_digest: Option<String>,
    pub error: Option<String>,
}

#[derive(Debug, Clone, PartialEq, Eq)]
pub struct ProviderRunRecord {
    pub run_id: i64,
    pub job_id: String,
    pub page_index: u32,
    pub engine: String,
    pub model: String,
    pub version: String,
    pub parameters: Vec<(String, String)>,
    pub input_asset_sha256: String,
    pub output_digest: Option<String>,
    pub execution_location: ExecutionLocation,
    pub outcome: ProviderOutcome,
    pub error: Option<String>,
    pub started_at: i64,
    pub finished_at: i64,
}

#[derive(Debug, Clone, Copy, PartialEq, Eq, Structural)]
pub enum ProviderOutcome {
    Succeeded,
    Failed,
}

#[derive(Debug, Clone, PartialEq, Eq)]
pub struct JobProgress {
    pub job_id: String,
    pub status: JobStatus,
    pub page_count: u32,
    pub completed_pages: u32,
    pub failed_pages: u32,
    pub cancelled_pages: u32,
}

#[verifier::external_type_specification]
#[verifier::external_body]
pub struct ExSqlError(rusqlite::Error);

#[derive(Debug)]
pub enum JobError {
    Sql(rusqlite::Error),
    Invalid(String),
    UnsupportedProtocol(String),
    Provider(String),
}

pub type JobResult<T> = core::result::Result<T, JobError>;

/// The kind and message of an error, as plain values.
pub open spec fn invalid(m: Seq<char>) -> (u8, Seq<char>) {
    (1, m)
}

pub open spec fn unsupported(m: Seq<char>) -> (u8, Seq<char>) {
    (2, m)
}

pub open spec fn provider_fault(m: Seq<char>) -> (u8, Seq<char>) {
    (3, m)
}

/// Whether `e` is the error described by `f`.
pub open spec fn is_fault(e: JobError, f: (u8, Seq<char>)) -> bool {
    match e {
        JobError::Invalid(m) => f.0 == 1 && m@ == f.1,
        JobError::UnsupportedProtocol(m) => f.0 == 2 && m@ == f.1,
        JobError::Provider(m) => f.0 == 3 && m@ == f.1,
        JobError::Sql(_) => false,
    }
}

/// Whether `r` is the outcome that an optional fault describes: `Ok` when
/// there is none, otherwise that error.
pub open spec fn outcome<T>(r: JobResult<T>, f: Option<(u8, Seq<char>)>) -> bool {
    match f {
        None => r is Ok,
        Some(f) => r matches Err(e) && is_fault(e, f),
    }
}

fn fail_invalid<T>(m: &str) -> (r: JobResult<T>)
    ensures
        outcome(r, Some(invalid(m@))),
{
    Err(JobError::Invalid(m.to_owned()))
}

// ---------------------------------------------------------------------------
// Field rules
// ---------------------------------------------------------------------------

/// A required identifier: non-empty, at most 256 bytes.
pub open spec fn identifier_ok(s: Seq<char>) -> bool {
    s.len() > 0 && utf8_len(s) <= MAX_IDENTIFIER_BYTES
}

pub fn valid_identifier(value: &str) -> (b: bool)
    ensures
        b == identifier_ok(value@),
{
    !value.is_empty() && utf8_len_at_most(value, MAX_IDENTIFIER_BYTES)
}

pub open spec fn is_hex_char(c: char) -> bool {
    ('0' <= c && c <= '9') || ('a' <= c && c <= 'f') || ('A' <= c && c <= 'F')
}

/// Sixty-four hex digits of either case.
pub open spec fn hex64(s: Seq<char>) -> bool {
    s.len() == 64 && forall|i: int| 0 <= i < s.len() ==> is_hex_char(#[trigger] s[i])
}

pub fn is_sha256_hex(value: &str) -> (b: bool)
    ensures
        b == hex64(value@),
{
    let v = chars_of(value);
    if v.len() != 64 {
        return false;
    }
    let mut i: usize = 0;
    while i < v.len()
        invariant
            v@ == value@,
            i <= v@.len(),
            forall|k: int| 0 <= k < i ==> is_hex_char(#[trigger] v@[k]),
        decreases v.len() - i,
    {
        let c = v[i];
        if !(('0' <= c && c <= '9') || ('a' <= c && c <= 'f') || ('A' <= c && c <= 'F')) {
            return false;
        }
        i = i + 1;
    }
    true
}

/// `str::parse::<u16>`.
pub open spec fn u16_parse(s: Seq<char>) -> Option<u16> {
    match u32_parse(s) {
        Some(v) => if v <= u16::MAX {
            Some(v as u16)
        } else {
            None
        },
        None => None,
    }
}

/// A protocol version `0.N`, written canonically (no sign, no leading
/// zeros).
pub open spec fn protocol_version_ok(version: Seq<char>) -> bool {
    let parts = split_on(version, '.');
    &&& parts.len() == 2
    &&& u16_parse(parts[0]) == Some(0u16)
    &&& u16_parse(parts[1]) is Some
    &&& version == "0."@ + decimal(u16_parse(parts[1])->0 as nat)
}

pub open spec fn protocol_fault(protocol: Seq<char>, version: Seq<char>) -> Option<(u8, Seq<char>)> {
    if protocol != JOB_PROTOCOL@ {
        Some(unsupported(protocol))
    } else if !protocol_version_ok(version) {
        Some(unsupported(version))
    } else {
        None
    }
}

fn parse_u16(v: &[char]) -> (r: Option<u16>)
    ensures
        r == u16_parse(v@),
{
    match parse_u32(v) {
        Some(x) => if x <= 65535 {
            Some(x as u16)
        } else {
            None
        },
        None => None,
    }
}

pub fn validate_protocol(protocol: &str, version: &str) -> (r: JobResult<()>)
    ensures
        outcome(r, protocol_fault(protocol@, version@)),
{
    if !str_eq(protocol, JOB_PROTOCOL) {
        return Err(JobError::UnsupportedProtocol(protocol.to_owned()));
    }
    let chars = chars_of(version);
    let parts = split_chars(chars.as_slice(), '.');
    let ok = if parts.len() == 2 {
        assert(parts[0]@ == parts.deep_view()[0]);
        assert(parts[1]@ == parts.deep_view()[1]);
        match (parse_u16(parts[0].as_slice()), parse_u16(parts[1].as_slice())) {
            (Some(major), Some(minor)) => {
                if major == 0 {
                    let mut canonical = "0.".to_owned();
                    push_decimal(&mut canonical, minor as u64);
                    str_eq(canonical.as_str(), version)
                } else {
                    false
                }
            },
            _ => false,
        }
    } else {
        false
    };
    if !ok {
        return Err(JobError::UnsupportedProtocol(version.to_owned()));
    }
    Ok(())
}

pub open spec fn sha256_fault(value: Seq<char>, label: Seq<char>) -> Option<(u8, Seq<char>)> {
    if is_digest(value) {
        None
    } else {
        Some(invalid(label + " must be lowercase SHA-256"@))
    }
}

pub fn validate_sha256(value: &str, label: &str) -> (r: JobResult<()>)
    ensures
        outcome(r, sha256_fault(value@, label@)),
{
    if !is_digest_str(value) {
        return Err(JobError::Invalid(concat(label, " must be lowercase SHA-256")));
    }
    Ok(())
}

/// One parameter: a non-empty key and a value, each at most 4096 bytes.
pub open spec fn parameter_ok(p: (String, String)) -> bool {
    p.0@.len() > 0 && utf8_len(p.0@) <= MAX_PARAMETER_BYTES && utf8_len(p.1@) <= MAX_PARAMETER_BYTES
}

pub open spec fn parameters_fault(ps: Seq<(String, String)>) -> Option<(u8, Seq<char>)> {
    if ps.len() > MAX_PAYLOAD_ITEMS {
        Some(invalid("too many provider parameters"@))
    } else if exists|i: int| 0 <= i < ps.len() && !parameter_ok(#[trigger] ps[i]) {
        Some(invalid("provider parameter is out of bounds"@))
    } else {
        None
    }
}

pub fn validate_parameters(parameters: &[(String, String)]) -> (r: JobResult<()>)
    ensures
        outcome(r, parameters_fault(parameters@)),
{
    if parameters.len() > MAX_PAYLOAD_ITEMS {
        return fail_invalid("too many provider parameters");
    }
    let mut i: usize = 0;
    while i < parameters.len()
        invariant
            i <= parameters@.len(),
            parameters@.len() <= MAX_PAYLOAD_ITEMS,
            forall|k: int| 0 <= k < i ==> parameter_ok(#[trigger] parameters@[k]),
        decreases parameters.len() - i,
    {
        let (key, value) = &parameters[i];
        if key.as_str().is_empty() || !utf8_len_at_most(key.as_str(), MAX_PARAMETER_BYTES)
            || !utf8_len_at_most(value.as_str(), MAX_PARAMETER_BYTES) {
            assert(!parameter_ok(parameters@[i as int]));
            return fail_invalid("provider parameter is out of bounds");
        }
        i = i + 1;
    }
    Ok(())
}

// ---------------------------------------------------------------------------
// Provider requests and responses
// ---------------------------------------------------------------------------

#[derive(Debug, Clone, PartialEq, Eq)]
pub struct ProviderRequest {
    pub protocol: String,
    pub protocol_version: String,
    pub job_id: String,
    pub page_id: String,
    pub page_index: u32,
    pub input_asset_sha256: String,
    pub parameters: Vec<(String, String)>,
}

#[derive(Debug, Clone, PartialEq, Eq)]
pub struct ProviderProvenance {
    pub engine: String,
    pub model: String,
    pub version: String,
    pub parameters: Vec<(String, String)>,
    pub input_asset_sha256: String,
    pub execution_location: ExecutionLocation,
}

#[derive(Debug, Clone, Copy, PartialEq, Eq, Structural)]
pub enum ExecutionLocation {
    Local,
}

#[derive(Debug, Clone, PartialEq, Eq)]
pub struct ProviderResponse {
    pub protocol: String,
    pub protocol_version: String,
    pub output_digest: String,
    pub provenance: ProviderProvenance,
}

pub open spec fn request_fault(r: ProviderRequest) -> Option<(u8, Seq<char>)> {
    if protocol_fault(r.protocol@, r.protocol_version@) is Some {
        protocol_fault(r.protocol@, r.protocol_version@)
    } else if !identifier_ok(r.job_id@) || !identifier_ok(r.page_id@) {
        Some(invalid("provider job/page ID is required"@))
    } else if sha256_fault(r.input_asset_sha256@, "input asset digest"@) is Some {
        sha256_fault(r.input_asset_sha256@, "input asset digest"@)
    } else {
        parameters_fault(r.parameters@)
    }
}

pub fn validate_provider_request(request: &ProviderRequest) -> (r: JobResult<()>)
    ensures
        outcome(r, request_fault(*request)),
{
    match validate_protocol(request.protocol.as_str(), request.protocol_version.as_str()) {
        Err(e) => return Err(e),
        Ok(()) => {},
    }
    if !valid_identifier(request.job_id.as_str()) || !valid_identifier(request.page_id.as_str()) {
        return fail_invalid("provider job/page ID is required");
    }
    match validate_sha256(request.input_asset_sha256.as_str(), "input asset digest") {
        Err(e) => return Err(e),
        Ok(()) => {},
    }
    validate_parameters(request.parameters.as_slice())
}

pub open spec fn provenance_fault(p: ProviderProvenance) -> Option<(u8, Seq<char>)> {
    if !identifier_ok(p.engine@) || !identifier_ok(p.model@) || !identifier_ok(p.version@) {
        Some(invalid("provider provenance identity is required"@))
    } else if parameters_fault(p.parameters@) is Some {
        parameters_fault(p.parameters@)
    } else {
        sha256_fault(p.input_asset_sha256@, "input asset digest"@)
    }
}

pub fn validate_provenance(provenance: &ProviderProvenance) -> (r: JobResult<()>)
    ensures
        outcome(r, provenance_fault(*provenance)),
{
    if !valid_identifier(provenance.engine.as_str()) || !valid_identifier(provenance.model.as_str())
        || !valid_identifier(provenance.version.as_str()) {
        return fail_invalid("provider provenance identity is required");
    }
    match validate_parameters(provenance.parameters.as_slice()) {
        Err(e) => return Err(e),
        Ok(()) => {},
    }
    validate_sha256(provenance.input_asset_sha256.as_str(), "input asset digest")
}

pub open spec fn response_fault(r: ProviderResponse) -> Option<(u8, Seq<char>)> {
    if protocol_fault(r.protocol@, r.protocol_version@) is Some {
        protocol_fault(r.protocol@, r.protocol_version@)
    } else if sha256_fault(r.output_digest@, "output digest"@) is Some {
        sha256_fault(r.output_digest@, "output digest"@)
    } else {
        provenance_fault(r.provenance)
    }
}

pub fn validate_provider_response(response: &ProviderResponse) -> (r: JobResult<()>)
    ensures
        outcome(r, response_fault(*response)),
{
    match validate_protocol(response.protocol.as_str(), response.protocol_version.as_str()) {
        Err(e) => return Err(e),
        Ok(()) => {},
    }
    match validate_sha256(response.output_digest.as_str(), "output digest") {
        Err(e) => return Err(e),
        Ok(()) => {},
    }
    validate_provenance(&response.provenance)
}

// ---------------------------------------------------------------------------
// The reference fake provider
// ---------------------------------------------------------------------------

#[derive(Debug, Clone, Copy, PartialEq, Eq, Structural)]
pub enum FakeBehavior {
    Success,
    PartialFailure,
    Timeout,
    Crash,
    OutOfOrder,
    ProtocolMismatch,
}

pub struct FakeProvider {
    pub behavior: FakeBehavior,
    pub calls: u32,
    pub last_page_index: Option<u32>,
}

/// What the fake provider answers on its `calls`-th call (counting this
/// one): the error it raises, if any.
pub open spec fn fake_fault(
    behavior: FakeBehavior,
    calls: int,
    last_page_index: Option<u32>,
    request: ProviderRequest,
) -> Option<(u8, Seq<char>)> {
    if request_fault(request) is Some {
        request_fault(request)
    } else if request.protocol_version@ != JOB_PROTOCOL_VERSION@ || behavior
        == FakeBehavior::ProtocolMismatch {
        Some(unsupported(request.protocol_version@))
    } else if behavior == FakeBehavior::OutOfOrder && (last_page_index matches Some(last)
        && request.page_index <= last) {
        Some(provider_fault("out-of-order page result"@))
    } else if behavior == FakeBehavior::PartialFailure && calls % 2 == 0 {
        Some(provider_fault("partial failure"@))
    } else if behavior == FakeBehavior::Timeout {
        Some(provider_fault("timeout"@))
    } else if behavior == FakeBehavior::Crash {
        Some(provider_fault("provider crashed"@))
    } else {
        None
    }
}

/// The digest the fake provider reports for a request.
pub open spec fn fake_digest(request: ProviderRequest) -> Seq<char> {
    hex_of(
        sha256(vstd::utf8::encode_utf8(request.input_asset_sha256@ + request.page_id@)),
    )
}

proof fn lemma_short_identifier(s: &str)
    requires
        s@.len() > 0,
        s@.len() <= 9,
        forall|i: int| 0 <= i < s@.len() ==> (#[trigger] s@[i] as u32) < 0x80,
    ensures
        identifier_ok(s@),
{
    lemma_utf8_ascii(s@);
}

proof fn lemma_utf8_ascii(s: Seq<char>)
    requires
        forall|i: int| 0 <= i < s.len() ==> (#[trigger] s[i] as u32) < 0x80,
    ensures
        utf8_len(s) == s.len(),
    decreases s.len(),
{
    if s.len() > 0 {
        assert forall|i: int| 0 <= i < s.drop_last().len() implies (#[trigger] s.drop_last()[i] as u32)
            < 0x80 by {
            assert(s.drop_last()[i] == s[i]);
        }
        assert((s[s.len() - 1] as u32) < 0x80);
        lemma_utf8_ascii(s.drop_last());
    }
}

fn copy_parameters(ps: &Vec<(String, String)>) -> (r: Vec<(String, String)>)
    ensures
        r@ == ps@,
{
    let mut r: Vec<(String, String)> = Vec::new();
    let mut i: usize = 0;
    while i < ps.len()
        invariant
            i <= ps@.len(),
            r@ == ps@.take(i as int),
        decreases ps.len() - i,
    {
        let (k, v) = &ps[i];
        r.push((k.clone(), v.clone()));
        i = i + 1;
        assert(r@ =~= ps@.take(i as int));
    }
    assert(ps@.take(ps@.len() as int) == ps@);
    r
}

impl FakeProvider {
    /// Answers one request the way its behavior prescribes; every call is
    /// counted, and a successful one records the page it answered.
    pub fn process(&mut self, request: &ProviderRequest) -> (r: JobResult<ProviderResponse>)
        requires
            old(self).calls < u32::MAX,
        ensures
            final(self).calls == old(self).calls + 1,
            final(self).behavior == old(self).behavior,
            outcome(
                r,
                fake_fault(
                    old(self).behavior,
                    old(self).calls + 1,
                    old(self).last_page_index,
                    *request,
                ),
            ),
            r is Err ==> final(self).last_page_index == old(self).last_page_index,
            r matches Ok(resp) ==> {
                &&& final(self).last_page_index == Some(request.page_index)
                &&& resp.protocol@ == JOB_PROTOCOL@
                &&& resp.protocol_version@ == JOB_PROTOCOL_VERSION@
                &&& resp.output_digest@ == fake_digest(*request)
                &&& resp.provenance.engine@ == "reference"@
                &&& resp.provenance.model@ == "fake"@
                &&& resp.provenance.version@ == "0.1"@
                &&& resp.provenance.parameters@ == request.parameters@
                &&& resp.provenance.input_asset_sha256@ == request.input_asset_sha256@
                &&& resp.provenance.execution_location == ExecutionLocation::Local
            },
    {
        self.calls = self.calls + 1;
        match validate_provider_request(request) {
            Err(e) => return Err(e),
            Ok(()) => {},
        }
        if !str_eq(request.protocol_version.as_str(), JOB_PROTOCOL_VERSION) || self.behavior
            == FakeBehavior::ProtocolMismatch {
            return Err(JobError::UnsupportedProtocol(request.protocol_version.clone()));
        }
        if self.behavior == FakeBehavior::OutOfOrder {
            match self.last_page_index {
                Some(last) => {
                    if request.page_index <= last {
                        return Err(JobError::Provider("out-of-order page result".to_owned()));
                    }
                },
                None => {},
            }
        }
        if self.behavior == FakeBehavior::PartialFailure && self.calls % 2 == 0 {
            return Err(JobError::Provider("partial failure".to_owned()));
        }
        if self.behavior == FakeBehavior::Timeout {
            return Err(JobError::Provider("timeout".to_owned()));
        }
        if self.behavior == FakeBehavior::Crash {
            return Err(JobError::Provider("provider crashed".to_owned()));
        }
        self.last_page_index = Some(request.page_index);
        let seed = concat(request.input_asset_sha256.as_str(), request.page_id.as_str());
        let digest = sha256_hex_str(seed.as_str());
        let response = ProviderResponse {
            protocol: JOB_PROTOCOL.to_owned(),
            protocol_version: JOB_PROTOCOL_VERSION.to_owned(),
            output_digest: digest,
            provenance: ProviderProvenance {
                engine: "reference".to_owned(),
                model: "fake".to_owned(),
                version: "0.1".to_owned(),
                parameters: copy_parameters(&request.parameters),
                input_asset_sha256: request.input_asset_sha256.clone(),
                execution_location: ExecutionLocation::Local,
            },
        };
        proof {
            reveal_strlit("reference");
            reveal_strlit("fake");
            reveal_strlit("0.1");
            reveal_strlit("mpdf-job");
            lemma_short_identifier("reference");
            lemma_short_identifier("fake");
            lemma_short_identifier("0.1");
        }
        match validate_provider_response(&response) {
            Err(e) => Err(e),
            Ok(()) => Ok(response),
        }
    }
}

// ---------------------------------------------------------------------------
// Sidecar transcripts
// ---------------------------------------------------------------------------

#[derive(Debug, Clone, Copy, PartialEq, Eq, Structural)]
pub enum SidecarKind {
    JobStarted,
    PageResult,
    PageFailed,
    JobFinished,
}

#[derive(Debug, Clone, PartialEq, Eq)]
pub struct SidecarMessage {
    pub protocol: String,
    pub protocol_version: String,
    pub kind: SidecarKind,
    pub job_id: String,
    pub page_index: Option<u32>,
    pub payload: Vec<(String, String)>,
}

pub open spec fn is_page_kind(k: SidecarKind) -> bool {
    k == SidecarKind::PageResult || k == SidecarKind::PageFailed
}

/// How many messages are of kind `k`.
pub open spec fn count_kind(ms: Seq<SidecarMessage>, k: SidecarKind) -> nat
    decreases ms.len(),
{
    if ms.len() == 0 {
        0
    } else {
        count_kind(ms.drop_last(), k) + if ms.last().kind == k {
            1nat
        } else {
            0nat
        }
    }
}

/// The first rule message `ms[i]` breaks, given the messages before it.
pub open spec fn message_fault(ms: Seq<SidecarMessage>, i: int) -> Option<(u8, Seq<char>)> {
    let m = ms[i];
    if protocol_fault(m.protocol@, m.protocol_version@) is Some {
        protocol_fault(m.protocol@, m.protocol_version@)
    } else if m.job_id@ != ms[0].job_id@ || m.job_id@.len() == 0 {
        Some(invalid("sidecar job IDs must agree"@))
    } else if m.payload@.len() > MAX_PAYLOAD_ITEMS {
        Some(invalid("sidecar payload has too many items"@))
    } else if parameters_fault(m.payload@) is Some {
        parameters_fault(m.payload@)
    } else if !is_page_kind(m.kind) && m.page_index is Some {
        Some(invalid("job boundary cannot have page index"@))
    } else if is_page_kind(m.kind) && m.page_index is None {
        Some(invalid("page record needs page index"@))
    } else if is_page_kind(m.kind) && exists|j: int|
        0 <= j < i && is_page_kind(#[trigger] ms[j].kind) && ms[j].page_index == m.page_index {
        Some(invalid("page result is duplicated"@))
    } else {
        None
    }
}

/// The fault of the first message from `i` on that breaks a rule.
pub open spec fn first_message_fault(ms: Seq<SidecarMessage>, i: int) -> Option<(u8, Seq<char>)>
    decreases ms.len() - i,
{
    if i < 0 || i >= ms.len() {
        None
    } else if message_fault(ms, i) is Some {
        message_fault(ms, i)
    } else {
        first_message_fault(ms, i + 1)
    }
}

/// Why a transcript is refused, if it is: it must hold one start and one
/// finish, first and last, one non-empty job ID, valid protocol and
/// payload on every message, page indices exactly on page records and
/// never twice, and at least one page record.
pub open spec fn transcript_fault(ms: Seq<SidecarMessage>) -> Option<(u8, Seq<char>)> {
    if ms.len() == 0 || ms.len() > MAX_SIDECAR_RECORDS {
        Some(invalid("sidecar record count is out of bounds"@))
    } else if count_kind(ms, SidecarKind::JobStarted) != 1 || count_kind(ms, SidecarKind::JobFinished)
        != 1 || ms[0].kind != SidecarKind::JobStarted || ms.last().kind != SidecarKind::JobFinished {
        Some(invalid("sidecar must start once and finish once"@))
    } else if ms[0].job_id@.len() == 0 || utf8_len(ms[0].job_id@) > MAX_PARAMETER_BYTES {
        Some(invalid("sidecar job ID is required"@))
    } else if first_message_fault(ms, 0) is Some {
        first_message_fault(ms, 0)
    } else if !(exists|j: int| 0 <= j < ms.len() && is_page_kind(#[trigger] ms[j].kind)) {
        Some(invalid("sidecar has no page result"@))
    } else {
        None
    }
}

fn count_of_kind(ms: &[SidecarMessage], k: SidecarKind) -> (c: usize)
    ensures
        c == count_kind(ms@, k),
{
    let mut c: usize = 0;
    let mut i: usize = 0;
    while i < ms.len()
        invariant
            i <= ms@.len(),
            c == count_kind(ms@.take(i as int), k),
            c <= i,
        decreases ms.len() - i,
    {
        assert(ms@.take(i + 1 as int).drop_last() == ms@.take(i as int));
        if ms[i].kind == k {
            c = c + 1;
        }
        i = i + 1;
    }
    assert(ms@.take(ms@.len() as int) == ms@);
    c
}

fn seen_contains(seen: &Vec<u32>, x: u32) -> (b: bool)
    ensures
        b == seen@.contains(x),
{
    let mut i: usize = 0;
    while i < seen.len()
        invariant
            i <= seen@.len(),
            forall|k: int| 0 <= k < i ==> seen@[k] != x,
        decreases seen.len() - i,
    {
        if seen[i] == x {
            return true;
        }
        i = i + 1;
    }
    false
}

/// Checks a sidecar transcript.
#[verifier::loop_isolation(false)]
pub fn validate_transcript(messages: &[SidecarMessage]) -> (r: JobResult<()>)
    ensures
        outcome(r, transcript_fault(messages@)),
{
    let ghost ms = messages@;
    if messages.len() == 0 || messages.len() > MAX_SIDECAR_RECORDS {
        return fail_invalid("sidecar record count is out of bounds");
    }
    let started = count_of_kind(messages, SidecarKind::JobStarted);
    let finished = count_of_kind(messages, SidecarKind::JobFinished);
    if started != 1 || finished != 1 || messages[0].kind != SidecarKind::JobStarted
        || messages[messages.len() - 1].kind != SidecarKind::JobFinished {
        return fail_invalid("sidecar must start once and finish once");
    }
    let job_id = &messages[0].job_id;
    if job_id.as_str().is_empty() || !utf8_len_at_most(job_id.as_str(), MAX_PARAMETER_BYTES) {
        return fail_invalid("sidecar job ID is required");
    }
    let mut seen: Vec<u32> = Vec::new();
    let mut i: usize = 0;
    while i < messages.len()
        invariant
            ms == messages@,
            i <= ms.len(),
            first_message_fault(ms, 0) == first_message_fault(ms, i as int),
            forall|j: int| 0 <= j < i && is_page_kind(#[trigger] ms[j].kind) ==> ms[j].page_index is Some,
            forall|x: u32|
                seen@.contains(x) <==> exists|j: int|
                    0 <= j < i && is_page_kind(#[trigger] ms[j].kind) && ms[j].page_index == Some(x),
        decreases messages.len() - i,
    {
        let m = &messages[i];
        assert(*m == ms[i as int]);
        let ghost old_seen = seen@;
        match validate_protocol(m.protocol.as_str(), m.protocol_version.as_str()) {
            Err(e) => {
                return Err(e);
            },
            Ok(()) => {},
        }
        if !str_eq(m.job_id.as_str(), job_id.as_str()) || m.job_id.as_str().is_empty() {
            return fail_invalid("sidecar job IDs must agree");
        }
        if m.payload.len() > MAX_PAYLOAD_ITEMS {
            return fail_invalid("sidecar payload has too many items");
        }
        match validate_parameters(m.payload.as_slice()) {
            Err(e) => {
                return Err(e);
            },
            Ok(()) => {},
        }
        let page_kind = m.kind == SidecarKind::PageResult || m.kind == SidecarKind::PageFailed;
        if !page_kind {
            if m.page_index.is_some() {
                return fail_invalid("job boundary cannot have page index");
            }
        } else {
            match m.page_index {
                None => {
                    return fail_invalid("page record needs page index");
                },
                Some(index) => {
                    if seen_contains(&seen, index) {
                        let ghost j = choose|j: int|
                            0 <= j < i && is_page_kind(#[trigger] ms[j].kind) && ms[j].page_index
                                == Some(index);
                        assert(0 <= j < i && is_page_kind(ms[j].kind) && ms[j].page_index
                            == m.page_index);
                        return fail_invalid("page result is duplicated");
                    }
                    seen.push(index);
                    proof {
                        assert forall|x: u32| #[trigger] seen@.contains(x) <==> (old_seen.contains(x)
                            || x == index) by {
                            if seen@.contains(x) {
                                let k = choose|k: int| 0 <= k < seen@.len() && seen@[k] == x;
                                if k < old_seen.len() {
                                    assert(old_seen[k] == x);
                                }
                            }
                            if old_seen.contains(x) {
                                let k = choose|k: int| 0 <= k < old_seen.len() && old_seen[k] == x;
                                assert(seen@[k] == x);
                            }
                            if x == index {
                                assert(seen@[seen@.len() - 1] == x);
                            }
                        }
                    }
                },
            }
        }
        assert(message_fault(ms, i as int) is None);
        let ghost ii = i as int;
        i = i + 1;
        proof {
            assert forall|x: u32| seen@.contains(x) <==> exists|j: int|
                0 <= j < i && is_page_kind(#[trigger] ms[j].kind) && ms[j].page_index == Some(x) by {
                let before = exists|j: int|
                    0 <= j < ii && is_page_kind(#[trigger] ms[j].kind) && ms[j].page_index == Some(x);
                assert(old_seen.contains(x) == before);
                if exists|j: int|
                    0 <= j < i && is_page_kind(#[trigger] ms[j].kind) && ms[j].page_index == Some(x) {
                    let j = choose|j: int|
                        0 <= j < i && is_page_kind(#[trigger] ms[j].kind) && ms[j].page_index == Some(x);
                    if j < ii {
                        assert(before);
                    }
                }
                if page_kind && ms[ii].page_index == Some(x) {
                    assert(is_page_kind(ms[ii].kind));
                }
                if before {
                    let j = choose|j: int|
                        0 <= j < ii && is_page_kind(#[trigger] ms[j].kind) && ms[j].page_index == Some(x);
                    assert(0 <= j < i);
                }
            }
        }
    }
    if seen.len() == 0 {
        assert(!(exists|j: int| 0 <= j < ms.len() && is_page_kind(#[trigger] ms[j].kind))) by {
            if exists|j: int| 0 <= j < ms.len() && is_page_kind(#[trigger] ms[j].kind) {
                let j = choose|j: int| 0 <= j < ms.len() && is_page_kind(#[trigger] ms[j].kind);
                assert(ms[j].page_index is Some);
                assert(seen@.contains(ms[j].page_index->0));
            }
        }
        return fail_invalid("sidecar has no page result");
    }
    assert(seen@.contains(seen@[0]));
    Ok(())
}

// ---------------------------------------------------------------------------
// Job store decisions
// ---------------------------------------------------------------------------

/// The lease a worker may take: a valid owner, a non-negative clock and a
/// lease of 1 second to 24 hours; the lease ends at `now + lease_seconds`.
pub fn lease_deadline(owner: &str, now: i64, lease_seconds: i64) -> (r: JobResult<i64>)
    ensures
        identifier_ok(owner@) && now >= 0 && 0 < lease_seconds <= MAX_LEASE_SECONDS && now
            + lease_seconds <= i64::MAX ==> (r matches Ok(t) && t == now + lease_seconds),
        !(identifier_ok(owner@) && now >= 0 && 0 < lease_seconds <= MAX_LEASE_SECONDS) ==> outcome(
            r,
            Some(invalid("owner/lease out of range"@)),
        ),
        identifier_ok(owner@) && now >= 0 && 0 < lease_seconds <= MAX_LEASE_SECONDS && now
            + lease_seconds > i64::MAX ==> outcome(r, Some(invalid("lease timestamp overflow"@))),
{
    if !valid_identifier(owner) || now < 0 || lease_seconds <= 0 || lease_seconds > MAX_LEASE_SECONDS {
        return fail_invalid("owner/lease out of range");
    }
    match now.checked_add(lease_seconds) {
        Some(t) => Ok(t),
        None => fail_invalid("lease timestamp overflow"),
    }
}

/// The arguments of a new job: a valid job ID and 1 to 100,000 pages.
pub fn check_new_job(job_id: &str, page_count: u32) -> (r: JobResult<()>)
    ensures
        outcome(
            r,
            if identifier_ok(job_id@) && 0 < page_count <= MAX_PAGES_PER_JOB {
                None
            } else {
                Some(invalid("job ID/page count out of range"@))
            },
        ),
{
    if !valid_identifier(job_id) || page_count == 0 || page_count > MAX_PAGES_PER_JOB {
        return fail_invalid("job ID/page count out of range");
    }
    Ok(())
}

/// What becomes of a running page whose provider failed: a cancellation
/// always wins; a retryable failure goes back to the queue while attempts
/// remain; anything else fails the page.
pub open spec fn page_status_after_failure(cancel_requested: bool, retryable: bool, attempts: u32) -> PageStatus {
    if cancel_requested {
        PageStatus::Cancelled
    } else if retryable && attempts < MAX_PAGE_ATTEMPTS {
        PageStatus::Queued
    } else {
        PageStatus::Failed
    }
}

pub fn next_status_after_failure(cancel_requested: bool, retryable: bool, attempts: u32) -> (s: PageStatus)
    ensures
        s == page_status_after_failure(cancel_requested, retryable, attempts),
{
    if cancel_requested {
        PageStatus::Cancelled
    } else if retryable && attempts < MAX_PAGE_ATTEMPTS {
        PageStatus::Queued
    } else {
        PageStatus::Failed
    }
}

/// A failed page is never queued again once it has used its attempts, and
/// is never queued or failed once cancellation was requested.
pub proof fn lemma_retry_is_bounded(cancel_requested: bool, retryable: bool, attempts: u32)
    ensures
        page_status_after_failure(cancel_requested, retryable, attempts) == PageStatus::Queued
            ==> attempts < MAX_PAGE_ATTEMPTS && retryable && !cancel_requested,
        cancel_requested ==> page_status_after_failure(cancel_requested, retryable, attempts)
            == PageStatus::Cancelled,
{
}

/// Law: a failure goes back to the queue exactly when no cancellation was
/// requested, the failure is retryable and the page has attempts left;
/// otherwise it is cancelled when cancellation was requested, and failed
/// when not.
pub proof fn lemma_retryable_failure_requeues(cancel_requested: bool, retryable: bool, attempts: u32)
    ensures
        !cancel_requested && retryable && attempts < MAX_PAGE_ATTEMPTS ==> page_status_after_failure(
            cancel_requested,
            retryable,
            attempts,
        ) == PageStatus::Queued,
        !cancel_requested && (!retryable || attempts >= MAX_PAGE_ATTEMPTS) ==> page_status_after_failure(
            cancel_requested,
            retryable,
            attempts,
        ) == PageStatus::Failed,
        forall|a: u32|
            #![trigger page_status_after_failure(false, true, a)]
            a < MAX_PAGE_ATTEMPTS ==> page_status_after_failure(false, true, a) == PageStatus::Queued,
{
}

/// What becomes of a running page whose lease expired: cancelled when the
/// job is being cancelled, failed once its attempts are used up, queued
/// otherwise.
pub fn expired_page_status(cancel_requested: bool, attempts: u32) -> (s: PageStatus)
    ensures
        s == if cancel_requested {
            PageStatus::Cancelled
        } else if attempts >= MAX_PAGE_ATTEMPTS {
            PageStatus::Failed
        } else {
            PageStatus::Queued
        },
{
    if cancel_requested {
        PageStatus::Cancelled
    } else if attempts >= MAX_PAGE_ATTEMPTS {
        PageStatus::Failed
    } else {
        PageStatus::Queued
    }
}

/// The state of a job once no page remains open.
pub fn finished_job_status(cancel_requested: bool) -> (s: JobStatus)
    ensures
        s == if cancel_requested {
            JobStatus::Cancelled
        } else {
            JobStatus::Completed
        },
{
    if cancel_requested {
        JobStatus::Cancelled
    } else {
        JobStatus::Completed
    }
}

/// Whether a job in this state accepts no more work.
pub fn is_terminal(s: JobStatus) -> (b: bool)
    ensures
        b == (s == JobStatus::Completed || s == JobStatus::Failed || s == JobStatus::Cancelled),
{
    s == JobStatus::Completed || s == JobStatus::Failed || s == JobStatus::Cancelled
}

/// The seconds since the Unix epoch on the system clock.
#[verifier::external_body]
fn clock_seconds() -> i64 {
    std::time::SystemTime::now().duration_since(std::time::UNIX_EPOCH).unwrap_or_default().as_secs() as i64
}

/// The current time in whole seconds since the Unix epoch. Nothing is
/// promised of the value: it is whatever the system clock reads.
pub fn now_seconds() -> i64 {
    clock_seconds()
}

// ---------------------------------------------------------------------------
// Sidecar framing
// ---------------------------------------------------------------------------

/// A line as `str::lines` yields it: without a trailing carriage return.
pub open spec fn strip_cr(line: Seq<char>) -> Seq<char> {
    if line.len() > 0 && line.last() == '\r' {
        line.drop_last()
    } else {
        line
    }
}

/// The records of a sidecar text that ends with a newline: the lines before
/// it, each without a trailing carriage return.
pub open spec fn sidecar_line_views(input: Seq<char>) -> Seq<Seq<char>> {
    split_on(input.drop_last(), '\n').map_values(|l: Seq<char>| strip_cr(l))
}

/// The whole-text rules of a sidecar: within the byte limit, not empty, and
/// ending with a complete record.
pub open spec fn sidecar_text_fault(input: Seq<char>) -> Option<(u8, Seq<char>)> {
    if input.len() == 0 || utf8_len(input) > MAX_SIDECAR_BYTES {
        Some(invalid("sidecar byte limit exceeded"@))
    } else if input.last() != '\n' {
        Some(invalid("sidecar does not end with a complete record"@))
    } else {
        None
    }
}

/// Splits a sidecar text into its records, after checking the rules of the
/// text as a whole. Each record is then checked by [`check_sidecar_record`]
/// and parsed, in order.
pub fn sidecar_lines(input: &str) -> (r: JobResult<Vec<String>>)
    ensures
        sidecar_text_fault(input@) is Some ==> outcome(r, sidecar_text_fault(input@)),
        sidecar_text_fault(input@) is None ==> (r matches Ok(lines) && views(lines@) == sidecar_line_views(input@)),
{
    let chars = chars_of(input);
    if chars.len() == 0 || !utf8_len_at_most(input, MAX_SIDECAR_BYTES) {
        return fail_invalid("sidecar byte limit exceeded");
    }
    if chars[chars.len() - 1] != '\n' {
        return fail_invalid("sidecar does not end with a complete record");
    }
    let mut body: Vec<char> = Vec::new();
    let mut i: usize = 0;
    while i + 1 < chars.len()
        invariant
            chars@ == input@,
            chars@.len() > 0,
            i + 1 <= chars@.len(),
            body@ == chars@.take(i as int),
        decreases chars.len() - i,
    {
        body.push(chars[i]);
        i = i + 1;
        assert(body@ =~= chars@.take(i as int));
    }
    assert(body@ =~= input@.drop_last());
    let parts = split_chars(body.as_slice(), '\n');
    let ghost pv = parts.deep_view();
    let mut lines: Vec<String> = Vec::new();
    let mut k: usize = 0;
    while k < parts.len()
        invariant
            pv == parts.deep_view(),
            pv == split_on(input@.drop_last(), '\n'),
            k <= parts@.len(),
            views(lines@) == pv.take(k as int).map_values(|l: Seq<char>| strip_cr(l)),
        decreases parts.len() - k,
    {
        let part = &parts[k];
        assert(part@ == pv[k as int]);
        let n = part.len();
        let line = if n > 0 && part[n - 1] == '\r' {
            let mut kept: Vec<char> = Vec::new();
            let mut j: usize = 0;
            while j + 1 < n
                invariant
                    n == part@.len(),
                    n > 0,
                    j + 1 <= n,
                    kept@ == part@.take(j as int),
                decreases n - j,
            {
                kept.push(part[j]);
                j = j + 1;
                assert(kept@ =~= part@.take(j as int));
            }
            assert(kept@ =~= part@.drop_last());
            string_of(kept.as_slice())
        } else {
            string_of(part.as_slice())
        };
        let ghost before = views(lines@);
        lines.push(line);
        proof {
            assert(views(lines@) =~= before.push(strip_cr(pv[k as int])));
            assert(pv.take(k + 1 as int).map_values(|l: Seq<char>| strip_cr(l)) =~= pv.take(k as int).map_values(|l: Seq<char>| strip_cr(l)).push(strip_cr(pv[k as int])));
        }
        k = k + 1;
    }
    assert(pv.take(parts@.len() as int) =~= pv);
    Ok(lines)
}

/// The rules of one sidecar record: not blank, within the per-record byte
/// limit.
pub open spec fn sidecar_record_fault(line: Seq<char>) -> Option<(u8, Seq<char>)> {
    if trim_ws(line).len() == 0 {
        Some(invalid("sidecar contains an empty record"@))
    } else if utf8_len(line) > MAX_SIDECAR_LINE_BYTES {
        Some(invalid("sidecar record exceeds byte limit"@))
    } else {
        None
    }
}

pub fn check_sidecar_record(line: &str) -> (r: JobResult<()>)
    ensures
        outcome(r, sidecar_record_fault(line@)),
{
    let chars = chars_of(line);
    if trimmed(chars.as_slice()).len() == 0 {
        return fail_invalid("sidecar contains an empty record");
    }
    if !utf8_len_at_most(line, MAX_SIDECAR_LINE_BYTES) {
        return fail_invalid("sidecar record exceeds byte limit");
    }
    Ok(())
}

/// Appends one encoded record and its newline to a sidecar text, refusing
/// a record over the per-record limit and a text over the total limit.
pub fn append_sidecar_record(out: &mut String, line: &str) -> (r: JobResult<()>)
    ensures
        utf8_len(line@) > MAX_SIDECAR_LINE_BYTES ==> outcome(r, Some(invalid("sidecar record exceeds byte limit"@)))
            && final(out)@ == old(out)@,
        utf8_len(line@) <= MAX_SIDECAR_LINE_BYTES ==> final(out)@ == old(out)@ + line@ + seq!['\n'] && outcome(
            r,
            if utf8_len(old(out)@ + line@ + seq!['\n']) > MAX_SIDECAR_BYTES {
                Some(invalid("sidecar exceeds byte limit"@))
            } else {
                None
            },
        ),
{
    if !utf8_len_at_most(line, MAX_SIDECAR_LINE_BYTES) {
        return fail_invalid("sidecar record exceeds byte limit");
    }
    let ghost start = out@;
    push_str(out, line);
    push_str(out, "\n");
    proof {
        reveal_strlit("\n");
        assert("\n"@ =~= seq!['\n']);
        assert(out@ =~= start + line@ + seq!['\n']);
    }
    if !utf8_len_at_most(out.as_str(), MAX_SIDECAR_BYTES) {
        return fail_invalid("sidecar exceeds byte limit");
    }
    Ok(())
}

} // verus!
