//! Machine-readable Document Package (MDP) 0.1: its integer records, the
//! content-derived identifiers, and the rules that a package's versions,
//! IDs, digests, paths, assets and provenance must meet.
//!
//! Paths in the container are package-relative and every digest is SHA-256.

use vstd::prelude::*;

use std::collections::BTreeMap;

use crate::bookmarks::toc_parse::{all_digits, digits_value};
use crate::digest::{decimal, hex_of, push_decimal, sha256, sha256_hex, sha256_hex_str};
use crate::error::{CoreError, Result};
use crate::text::{
    chars_of, concat, is_digest, is_digest_str, list_contains, push_owned, push_str, split_chars, split_on,
    starts_with, str_eq, views,
};

verus! {

broadcast use vstd::string::group_string_axioms;

pub const MDP_SCHEMA: &'static str = "mpdf-document-package";
pub const MDP_SCHEMA_VERSION: &'static str = "0.1";
pub const CANONICAL_MASTER_DPI: u16 = 300;
pub const MAX_PAGES: usize = 10_000;
pub const MAX_ASSETS: usize = 10_000;
pub const MAX_PROVENANCE_STEPS: usize = 100_000;
pub const MAX_ASSET_BYTES: u64 = 1_073_741_824;
pub const MAX_TOTAL_ASSET_BYTES: u64 = 2_147_483_648;

#[derive(Debug, Clone, PartialEq, Eq)]
pub struct Manifest {
    pub schema: String,
    pub schema_version: String,
    pub document_id: String,
    pub source_id: String,
    pub page_count: u32,
    pub asset_count: u32,
    /// Technical producer information only.
    pub tool: ToolInfo,
}

#[derive(Debug, Clone, PartialEq, Eq)]
pub struct ToolInfo {
    pub name: String,
    pub version: String,
}

#[derive(Debug, Clone, Copy, PartialEq, Eq, Structural)]
pub enum SourceKind {
    Pdf,
}

#[derive(Debug, Clone, PartialEq, Eq)]
pub struct Source {
    pub source_id: String,
    pub kind: SourceKind,
    pub content_sha256: String,
    pub byte_len: u64,
    pub page_count: u32,
    /// A non-sensitive basename retained for human traceability.
    pub external_reference: Option<String>,
    pub packaged_path: Option<String>,
}

#[derive(Debug, Clone, Copy, PartialEq, Eq, Structural)]
pub enum CoordinateUnit {
    Pixels,
    PdfPoints,
}

#[derive(Debug, Clone, Copy, PartialEq, Eq, Structural)]
pub enum Origin {
    TopLeft,
    BottomLeft,
}

#[derive(Debug, Clone, PartialEq, Eq)]
pub struct PrintedPageLabel {
    pub label: String,
    pub source: PrintedLabelSource,
}

#[derive(Debug, Clone, Copy, PartialEq, Eq, Structural)]
pub enum PrintedLabelSource {
    Observed,
    Inferred,
}

#[derive(Debug, Clone, PartialEq, Eq)]
pub struct ExistingOutlineEvidence {
    pub title: String,
    pub level: u16,
    pub target_page_id: Option<String>,
    pub source: String,
}

#[derive(Debug, Clone, Copy, PartialEq, Eq, Structural)]
pub enum AssetKind {
    Original,
    Master,
    Thumbnail,
    Bilevel,
}

pub open spec fn asset_kind_name(kind: AssetKind) -> Seq<char> {
    match kind {
        AssetKind::Original => "original"@,
        AssetKind::Master => "master"@,
        AssetKind::Thumbnail => "thumbnail"@,
        AssetKind::Bilevel => "bilevel"@,
    }
}

impl AssetKind {
    pub fn stable_name(self) -> (s: &'static str)
        ensures
            s@ == asset_kind_name(self),
    {
        match self {
            AssetKind::Original => "original",
            AssetKind::Master => "master",
            AssetKind::Thumbnail => "thumbnail",
            AssetKind::Bilevel => "bilevel",
        }
    }
}

#[derive(Debug, Clone, PartialEq, Eq)]
pub struct Asset {
    pub asset_id: String,
    pub kind: AssetKind,
    pub path: String,
    pub mime_type: String,
    pub byte_len: u64,
    pub content_sha256: String,
    pub page_id: Option<String>,
}

#[derive(Debug, Clone, PartialEq, Eq)]
pub struct ProvenanceStep {
    pub step_id: String,
    pub operation: String,
    pub inputs: Vec<String>,
    pub outputs: Vec<String>,
    pub parameters: BTreeMap<String, String>,
    pub software: String,
    pub software_version: String,
    pub execution: ExecutionKind,
}

#[derive(Debug, Clone, Copy, PartialEq, Eq, Structural)]
pub enum ExecutionKind {
    Local,
}

#[derive(Debug, Clone, PartialEq, Eq)]
pub struct ValidationSummary {
    pub schema: String,
    pub schema_version: String,
    pub valid: bool,
    pub checked_pages: u32,
    pub checked_assets: u32,
    pub errors: Vec<ValidationIssue>,
}

#[derive(Debug, Clone, PartialEq, Eq)]
pub struct ValidationIssue {
    pub code: String,
    pub message: String,
}

/// The error a package rule raises, with its message.
pub open spec fn package_error(r: Result<()>, message: Seq<char>) -> bool {
    r matches Err(CoreError::InvalidDocumentPackage(m)) && m@ == message
}

/// Whether `r` is the error that issue `o` raises.
pub open spec fn raised(o: Option<Seq<char>>, r: Result<()>) -> bool {
    o matches Some(m) && package_error(r, m)
}

fn package_err(message: String) -> (r: Result<()>)
    ensures
        package_error(r, message@),
{
    Err(CoreError::InvalidDocumentPackage(message))
}

// ---------------------------------------------------------------------------
// Content-derived identifiers
// ---------------------------------------------------------------------------

/// Computes the lowercase SHA-256 digest used in package records.
pub fn sha256_digest(bytes: &[u8]) -> (d: String)
    ensures
        d@ == hex_of(sha256(bytes@)),
        is_digest(d@),
{
    sha256_hex(bytes)
}

/// Stable IDs are content-derived and therefore independent of package
/// path or creation time.
pub fn document_id_for_sha256(digest: &str) -> (id: String)
    ensures
        id@ == "doc-"@ + digest@,
{
    concat("doc-", digest)
}

pub fn source_id_for_sha256(digest: &str) -> (id: String)
    ensures
        id@ == "source-"@ + digest@,
{
    concat("source-", digest)
}

/// The text whose digest names an asset: its page (or `document`), its
/// kind and its content digest, separated by colons.
pub open spec fn asset_seed(page_id: Option<Seq<char>>, kind: AssetKind, digest: Seq<char>) -> Seq<char> {
    (match page_id {
        Some(p) => p,
        None => "document"@,
    }) + ":"@ + asset_kind_name(kind) + ":"@ + digest
}

pub open spec fn asset_id_spec(page_id: Option<Seq<char>>, kind: AssetKind, digest: Seq<char>) -> Seq<char> {
    "asset-"@ + hex_of(sha256(vstd::utf8::encode_utf8(asset_seed(page_id, kind, digest))))
}

pub fn asset_id_for_sha256(page_id: Option<&str>, kind: AssetKind, digest: &str) -> (id: String)
    ensures
        id@ == asset_id_spec(
            match page_id {
                Some(p) => Some(p@),
                None => None,
            },
            kind,
            digest@,
        ),
        id@.len() == 70,
        id@.take(6) == "asset-"@,
        is_digest(id@.skip(6)),
{
    let mut seed = match page_id {
        Some(p) => p.to_owned(),
        None => "document".to_owned(),
    };
    push_str(&mut seed, ":");
    push_str(&mut seed, kind.stable_name());
    push_str(&mut seed, ":");
    push_str(&mut seed, digest);
    let hex = sha256_hex_str(seed.as_str());
    let id = concat("asset-", hex.as_str());
    proof {
        reveal_strlit("asset-");
        assert(id@.skip(6) =~= hex@);
        assert(id@.take(6) =~= "asset-"@);
    }
    id
}

/// The ID of the page at `index` of the source with digest `digest`.
pub open spec fn page_id_spec(digest: Seq<char>, index: u32) -> Seq<char> {
    "page-"@ + hex_of(sha256(vstd::utf8::encode_utf8(digest + ":"@ + decimal(index as nat))))
}

pub fn page_id(digest: &str, index: u32) -> (id: String)
    ensures
        id@ == page_id_spec(digest@, index),
{
    let mut seed = digest.to_owned();
    push_str(&mut seed, ":");
    push_decimal(&mut seed, index as u64);
    let hex = sha256_hex_str(seed.as_str());
    concat("page-", hex.as_str())
}

// ---------------------------------------------------------------------------
// Versions, IDs, digests
// ---------------------------------------------------------------------------

/// `str::parse::<u32>`: an optional `+`, then one or more ASCII digits
/// whose value fits in 32 bits.
pub open spec fn unsigned_digits(s: Seq<char>) -> Seq<char> {
    if s.len() > 0 && s[0] == '+' {
        s.drop_first()
    } else {
        s
    }
}

pub open spec fn u32_parse(s: Seq<char>) -> Option<u32> {
    let d = unsigned_digits(s);
    if d.len() > 0 && all_digits(d) && digits_value(d) <= u32::MAX {
        Some(digits_value(d) as u32)
    } else {
        None
    }
}

proof fn lemma_digits_value_prefix(s: Seq<char>, k: int)
    requires
        all_digits(s),
        0 <= k <= s.len(),
    ensures
        0 <= digits_value(s.take(k)) <= digits_value(s),
    decreases s.len() - k,
{
    if k < s.len() {
        lemma_digits_value_prefix(s, k + 1);
        let t = s.take(k + 1);
        assert(t.drop_last() == s.take(k));
        assert(crate::text::is_ascii_digit(s[k]));
        lemma_digits_value_nonneg(s.take(k));
    } else {
        assert(s.take(k) == s);
        lemma_digits_value_nonneg(s);
    }
}

proof fn lemma_digits_value_nonneg(s: Seq<char>)
    requires
        all_digits(s),
    ensures
        digits_value(s) >= 0,
    decreases s.len(),
{
    if s.len() > 0 {
        assert(all_digits(s.drop_last())) by {
            assert forall|i: int| 0 <= i < s.drop_last().len() implies crate::text::is_ascii_digit(
                #[trigger] s.drop_last()[i],
            ) by {
                assert(s.drop_last()[i] == s[i]);
            }
        }
        assert(crate::text::is_ascii_digit(s[s.len() - 1]));
        lemma_digits_value_nonneg(s.drop_last());
    }
}

/// Parses an unsigned 32-bit decimal number.
pub fn parse_u32(v: &[char]) -> (r: Option<u32>)
    ensures
        r == u32_parse(v@),
{
    let start: usize = if v.len() > 0 && v[0] == '+' {
        1
    } else {
        0
    };
    let ghost d = v@.skip(start as int);
    assert(d == unsigned_digits(v@));
    if start >= v.len() {
        assert(d.len() == 0);
        return None;
    }
    let mut value: u64 = 0;
    let mut i = start;
    while i < v.len()
        invariant
            start <= i <= v@.len(),
            d == v@.skip(start as int),
            d == unsigned_digits(v@),
            forall|k: int| 0 <= k < i - start ==> crate::text::is_ascii_digit(#[trigger] d[k]),
            value == digits_value(d.take(i - start)),
            value <= u32::MAX,
        decreases v.len() - i,
    {
        let c = v[i];
        assert(d[i - start] == c);
        if !('0' <= c && c <= '9') {
            assert(!crate::text::is_ascii_digit(d[i - start]));
            assert(!all_digits(d));
            return None;
        }
        assert(d.take(i - start + 1).drop_last() == d.take(i - start));
        value = value * 10 + ((c as u32) - ('0' as u32)) as u64;
        i = i + 1;
        if value > 0xFFFF_FFFF {
            proof {
                assert(all_digits(d) ==> digits_value(d.take(i - start)) <= digits_value(d)) by {
                    if all_digits(d) {
                        lemma_digits_value_prefix(d, i - start);
                    }
                }
            }
            return None;
        }
    }
    assert(d.take(d.len() as int) == d);
    assert(all_digits(d));
    Some(value as u32)
}

/// The schema rule: the MDP schema name, and a version `0.N` with exactly
/// two numeric parts of which the first is 0.
pub open spec fn version_ok(version: Seq<char>) -> bool {
    let parts = split_on(version, '.');
    &&& u32_parse(parts[0]) == Some(0u32)
    &&& parts.len() >= 2
    &&& u32_parse(parts[1]) is Some
    &&& parts.len() == 2
}

pub fn validate_version(schema: &str, version: &str) -> (r: Result<()>)
    ensures
        r is Ok <==> schema@ == MDP_SCHEMA@ && version_ok(version@),
        schema@ != MDP_SCHEMA@ ==> package_error(r, "unsupported schema "@ + schema@),
        schema@ == MDP_SCHEMA@ && !version_ok(version@) ==> package_error(
            r,
            "unsupported schema major version "@ + version@,
        ),
{
    if !str_eq(schema, MDP_SCHEMA) {
        return package_err(concat("unsupported schema ", schema));
    }
    let chars = chars_of(version);
    let parts = split_chars(chars.as_slice(), '.');
    proof {
        crate::text::lemma_split_on_nonempty(version@, '.');
    }
    assert(parts[0]@ == parts.deep_view()[0]);
    let major = parse_u32(parts[0].as_slice());
    let ok = if parts.len() == 2 {
        assert(parts[1]@ == parts.deep_view()[1]);
        match (major, parse_u32(parts[1].as_slice())) {
            (Some(m), Some(_)) => m == 0,
            _ => false,
        }
    } else {
        false
    };
    if !ok {
        return package_err(concat("unsupported schema major version ", version));
    }
    Ok(())
}

/// A stable ID: `kind-` followed by a lowercase SHA-256 hex digest.
pub open spec fn stable_id_ok(id: Seq<char>, kind: Seq<char>) -> bool {
    let prefix = kind + "-"@;
    prefix.len() <= id.len() && id.take(prefix.len() as int) == prefix && is_digest(
        id.skip(prefix.len() as int),
    )
}

pub fn validate_stable_id(id: &str, kind: &str) -> (r: Result<()>)
    ensures
        r is Ok <==> stable_id_ok(id@, kind@),
        !stable_id_ok(id@, kind@) ==> package_error(r, kind@ + " ID is not a stable SHA-256 ID"@),
{
    let prefix = concat(kind, "-");
    let ok = if starts_with(id, prefix.as_str()) {
        let chars = chars_of(id);
        let mut rest: Vec<char> = Vec::new();
        let n = chars.len();
        let p = chars_of(prefix.as_str()).len();
        let mut k = p;
        while k < n
            invariant
                p <= k <= n,
                n == chars@.len(),
                chars@ == id@,
                rest@ == chars@.subrange(p as int, k as int),
            decreases n - k,
        {
            rest.push(chars[k]);
            k = k + 1;
            assert(rest@ =~= chars@.subrange(p as int, k as int));
        }
        assert(rest@ =~= id@.skip(p as int));
        let r = crate::text::string_of(rest.as_slice());
        is_digest_str(r.as_str())
    } else {
        false
    };
    if !ok {
        let msg = concat(kind, " ID is not a stable SHA-256 ID");
        return package_err(msg);
    }
    Ok(())
}

pub fn validate_digest(digest: &str, label: &str) -> (r: Result<()>)
    ensures
        r is Ok <==> is_digest(digest@),
        !is_digest(digest@) ==> package_error(r, label@ + " digest is not lowercase SHA-256 hex"@),
{
    if !is_digest_str(digest) {
        return package_err(concat(label, " digest is not lowercase SHA-256 hex"));
    }
    Ok(())
}

// ---------------------------------------------------------------------------
// Package-relative paths
// ---------------------------------------------------------------------------

/// How `std::path::Path` writes a path under `{:?}`.
pub uninterp spec fn path_debug(p: Seq<char>) -> Seq<char>;

/// `<std::path::Path as Debug>::fmt`, via `format!`; the claim is only that
/// the text is a function of the path.
#[verifier::external_body]
fn path_debug_of(p: &str) -> (r: String)
    ensures
        r@ == path_debug(p@),
{
    format!("{:?}", std::path::Path::new(p))
}

/// Whether a relative path leaves its root: a `..` component anywhere, or
/// a leading `.` component (the only place where a POSIX path keeps one).
pub open spec fn escapes_root(p: Seq<char>) -> bool {
    let segments = split_on(p, '/');
    segments[0] == "."@ || exists|i: int| 0 <= i < segments.len() && #[trigger] segments[i] == ".."@
}

/// The error a package path raises, if any.
pub open spec fn path_error(p: Seq<char>) -> Option<Seq<char>> {
    if p.contains('\\') {
        Some("package paths must use POSIX separators"@)
    } else if p.len() == 0 || p[0] == '/' {
        Some("package path must be non-empty and relative"@)
    } else if escapes_root(p) {
        Some("package path escapes its root: "@ + path_debug(p))
    } else {
        None
    }
}

/// Accepts only non-empty, relative POSIX paths that stay inside their root.
pub fn validate_relative_path(path: &str) -> (r: Result<()>)
    ensures
        r is Ok <==> path_error(path@) is None,
        path_error(path@) matches Some(m) ==> package_error(r, m),
{
    let chars = chars_of(path);
    let mut i: usize = 0;
    while i < chars.len()
        invariant
            chars@ == path@,
            i <= chars@.len(),
            forall|k: int| 0 <= k < i ==> chars@[k] != '\\',
        decreases chars.len() - i,
    {
        if chars[i] == '\\' {
            assert(path@.contains('\\'));
            return package_err("package paths must use POSIX separators".to_owned());
        }
        i = i + 1;
    }
    assert(!path@.contains('\\'));
    if chars.len() == 0 || chars[0] == '/' {
        return package_err("package path must be non-empty and relative".to_owned());
    }
    let segments = split_chars(chars.as_slice(), '/');
    let ghost sv = segments.deep_view();
    proof {
        crate::text::lemma_split_on_nonempty(path@, '/');
    }
    assert(segments[0]@ == sv[0]);
    let mut escapes = crate::text::chars_eq(segments[0].as_slice(), chars_of(".").as_slice());
    let dots = chars_of("..");
    let mut k: usize = 0;
    while k < segments.len()
        invariant
            sv == segments.deep_view(),
            sv == split_on(path@, '/'),
            sv.len() > 0,
            dots@ == ".."@,
            k <= sv.len(),
            escapes <==> (sv[0] == "."@ || exists|m: int| 0 <= m < k && #[trigger] sv[m] == ".."@),
        decreases segments.len() - k,
    {
        assert(segments[k as int]@ == sv[k as int]);
        if crate::text::chars_eq(segments[k].as_slice(), dots.as_slice()) {
            escapes = true;
        }
        k = k + 1;
    }
    if escapes {
        let shown = path_debug_of(path);
        return package_err(concat("package path escapes its root: ", shown.as_str()));
    }
    Ok(())
}

// ---------------------------------------------------------------------------
// Assets
// ---------------------------------------------------------------------------

pub open spec fn opt_chars(o: Option<String>) -> Option<Seq<char>> {
    match o {
        Some(s) => Some(s@),
        None => None,
    }
}

/// Whether `s` begins with `p`.
pub open spec fn has_prefix(s: Seq<char>, p: Seq<char>) -> bool {
    p.len() <= s.len() && s.take(p.len() as int) == p
}

/// Total declared size of `assets`.
pub open spec fn total_bytes(assets: Seq<Asset>) -> int
    decreases assets.len(),
{
    if assets.len() == 0 {
        0
    } else {
        total_bytes(assets.drop_last()) + assets.last().byte_len
    }
}

/// The first rule that asset `assets[i]` breaks, given the assets before
/// it (all of which passed), the source ID and the page IDs.
pub open spec fn asset_issue(
    assets: Seq<Asset>,
    i: int,
    source_id: Seq<char>,
    page_ids: Seq<Seq<char>>,
) -> Option<Seq<char>> {
    let a = assets[i];
    let before = assets.take(i);
    if !is_digest(a.content_sha256@) {
        Some("asset digest is not lowercase SHA-256 hex"@)
    } else if path_error(a.path@) is Some {
        path_error(a.path@)
    } else if !has_prefix(a.path@, "assets/"@) {
        Some("asset must be under assets/"@)
    } else if a.mime_type@.len() == 0 {
        Some("asset MIME type must not be empty"@)
    } else if !stable_id_ok(a.asset_id@, "asset"@) {
        Some("asset ID is not a stable SHA-256 ID"@)
    } else if (exists|j: int| 0 <= j < i && #[trigger] before[j].asset_id@ == a.asset_id@)
        || a.asset_id@ == source_id || page_ids.contains(a.asset_id@) {
        Some("duplicate asset ID"@)
    } else if a.asset_id@ != asset_id_spec(opt_chars(a.page_id), a.kind, a.content_sha256@) {
        Some("asset ID does not match scope, kind, and digest"@)
    } else if exists|j: int| 0 <= j < i && #[trigger] before[j].path@ == a.path@ {
        Some("duplicate asset path"@)
    } else if a.byte_len > MAX_ASSET_BYTES {
        Some("asset exceeds the per-asset size limit"@)
    } else if total_bytes(before) + a.byte_len > MAX_TOTAL_ASSET_BYTES {
        Some("assets exceed the total size limit"@)
    } else if a.page_id matches Some(p) && !page_ids.contains(p@) {
        Some("asset references an unknown page"@)
    } else {
        None
    }
}

/// The asset records of a package, checked in order: each one's digest,
/// path, MIME type and ID, uniqueness of IDs (against the source, the pages
/// and the earlier assets) and of paths, the size limits, and its page.
pub fn validate_assets(assets: &[Asset], source_id: &str, page_ids: &[String]) -> (r: Result<()>)
    ensures
        r is Ok <==> forall|i: int|
            0 <= i < assets@.len() ==> asset_issue(assets@, i, source_id@, views(page_ids@))
                is None,
        r is Err ==> exists|i: int|
            0 <= i < assets@.len() && (forall|j: int|
                0 <= j < i ==> asset_issue(assets@, j, source_id@, views(page_ids@)) is None)
                && #[trigger] raised(asset_issue(assets@, i, source_id@, views(page_ids@)), r),
{
    let ghost pv = views(page_ids@);
    let mut total: u64 = 0;
    let mut i: usize = 0;
    while i < assets.len()
        invariant
            pv == views(page_ids@),
            i <= assets@.len(),
            total == total_bytes(assets@.take(i as int)),
            total <= MAX_TOTAL_ASSET_BYTES,
            forall|j: int| 0 <= j < i ==> asset_issue(assets@, j, source_id@, pv) is None,
        decreases assets.len() - i,
    {
        let a = &assets[i];
        let ghost before = assets@.take(i as int);
        assert(assets@.take(i + 1 as int).drop_last() == before);
        assert(assets@.take(i + 1 as int).last() == *a);
        let ghost issue = asset_issue(assets@, i as int, source_id@, pv);
        if !is_digest_str(a.content_sha256.as_str()) {
            { let r = package_err("asset digest is not lowercase SHA-256 hex".to_owned()); assert(raised(asset_issue(assets@, i as int, source_id@, pv), r)); return r; }
        }
        match validate_relative_path(a.path.as_str()) {
            Err(e) => {
                let r: Result<()> = Err(e);
                assert(raised(asset_issue(assets@, i as int, source_id@, pv), r));
                return r;
            },
            Ok(()) => {},
        }
        if !starts_with(a.path.as_str(), "assets/") {
            { let r = package_err("asset must be under assets/".to_owned()); assert(raised(asset_issue(assets@, i as int, source_id@, pv), r)); return r; }
        }
        if a.mime_type.as_str().is_empty() {
            { let r = package_err("asset MIME type must not be empty".to_owned()); assert(raised(asset_issue(assets@, i as int, source_id@, pv), r)); return r; }
        }
        match validate_stable_id(a.asset_id.as_str(), "asset") {
            Err(_) => {
                { let r = package_err("asset ID is not a stable SHA-256 ID".to_owned()); assert(raised(asset_issue(assets@, i as int, source_id@, pv), r)); return r; }
            },
            Ok(()) => {},
        }
        let mut dup_id = false;
        let mut dup_path = false;
        let mut j: usize = 0;
        while j < i
            invariant
                i < assets@.len(),
                before == assets@.take(i as int),
                j <= i,
                dup_id <==> exists|m: int| 0 <= m < j && #[trigger] before[m].asset_id@ == assets@[i as int].asset_id@,
                dup_path <==> exists|m: int| 0 <= m < j && #[trigger] before[m].path@ == assets@[i as int].path@,
            decreases i - j,
        {
            assert(before[j as int] == assets@[j as int]);
            if assets[j].asset_id == assets[i].asset_id {
                dup_id = true;
            }
            if assets[j].path == assets[i].path {
                dup_path = true;
            }
            j = j + 1;
        }
        if dup_id || str_eq(a.asset_id.as_str(), source_id) || list_contains(page_ids, a.asset_id.as_str()) {
            { let r = package_err("duplicate asset ID".to_owned()); assert(raised(asset_issue(assets@, i as int, source_id@, pv), r)); return r; }
        }
        let page_ref: Option<&str> = match &a.page_id {
            Some(p) => Some(p.as_str()),
            None => None,
        };
        let expected = asset_id_for_sha256(page_ref, a.kind, a.content_sha256.as_str());
        assert(opt_chars(a.page_id) == match page_ref {
            Some(p) => Some(p@),
            None => None::<Seq<char>>,
        });
        if !str_eq(a.asset_id.as_str(), expected.as_str()) {
            { let r = package_err("asset ID does not match scope, kind, and digest".to_owned()); assert(raised(asset_issue(assets@, i as int, source_id@, pv), r)); return r; }
        }
        if dup_path {
            { let r = package_err("duplicate asset path".to_owned()); assert(raised(asset_issue(assets@, i as int, source_id@, pv), r)); return r; }
        }
        if a.byte_len > MAX_ASSET_BYTES {
            { let r = package_err("asset exceeds the per-asset size limit".to_owned()); assert(raised(asset_issue(assets@, i as int, source_id@, pv), r)); return r; }
        }
        if a.byte_len > MAX_TOTAL_ASSET_BYTES - total {
            { let r = package_err("assets exceed the total size limit".to_owned()); assert(raised(asset_issue(assets@, i as int, source_id@, pv), r)); return r; }
        }
        total = total + a.byte_len;
        match &a.page_id {
            Some(p) => {
                if !list_contains(page_ids, p.as_str()) {
                    { let r = package_err("asset references an unknown page".to_owned()); assert(raised(asset_issue(assets@, i as int, source_id@, pv), r)); return r; }
                }
            },
            None => {},
        }
        assert(issue is None);
        i = i + 1;
    }
    Ok(())
}

// ---------------------------------------------------------------------------
// Provenance
// ---------------------------------------------------------------------------

/// The references of a step: its inputs, then its outputs.
pub open spec fn step_refs(s: ProvenanceStep) -> Seq<Seq<char>> {
    views(s.inputs@) + views(s.outputs@)
}

/// The first rule that step `steps[i]` breaks, given the earlier steps and
/// the IDs the package defines.
pub open spec fn step_issue(steps: Seq<ProvenanceStep>, i: int, ids: Seq<Seq<char>>) -> Option<Seq<char>> {
    let s = steps[i];
    let refs = step_refs(s);
    if s.step_id@.len() == 0 || s.operation@.len() == 0 || s.software@.len() == 0
        || s.software_version@.len() == 0 {
        Some("provenance fields must not be empty"@)
    } else if exists|j: int| 0 <= j < i && #[trigger] steps[j].step_id@ == s.step_id@ {
        Some("duplicate provenance step ID"@)
    } else if exists|k: int| 0 <= k < refs.len() && !ids.contains(#[trigger] refs[k]) {
        Some("provenance references an unknown ID"@)
    } else if exists|k: int, m: int| 0 <= k < m < refs.len() && #[trigger] refs[k] == #[trigger] refs[m] {
        Some("provenance references must be unique within a step"@)
    } else {
        None
    }
}

/// The references of `step` as one list.
fn refs_of(step: &ProvenanceStep) -> (r: Vec<String>)
    ensures
        views(r@) == step_refs(*step),
{
    let mut r: Vec<String> = Vec::new();
    let mut i: usize = 0;
    while i < step.inputs.len()
        invariant
            i <= step.inputs@.len(),
            views(r@) == views(step.inputs@).take(i as int),
        decreases step.inputs.len() - i,
    {
        let t = step.inputs[i].clone();
        proof {
            crate::text::lemma_views_push(r@, t);
        }
        r.push(t);
        i = i + 1;
        assert(views(step.inputs@).take(i as int) =~= views(step.inputs@).take(i - 1 as int).push(
            step.inputs@[i - 1]@,
        ));
    }
    let mut k: usize = 0;
    while k < step.outputs.len()
        invariant
            i == step.inputs@.len(),
            k <= step.outputs@.len(),
            views(r@) == views(step.inputs@) + views(step.outputs@).take(k as int),
        decreases step.outputs.len() - k,
    {
        let t = step.outputs[k].clone();
        proof {
            crate::text::lemma_views_push(r@, t);
        }
        r.push(t);
        k = k + 1;
        assert(views(step.outputs@).take(k as int) =~= views(step.outputs@).take(k - 1 as int).push(
            step.outputs@[k - 1]@,
        ));
        assert(views(r@) =~= views(step.inputs@) + views(step.outputs@).take(k as int));
    }
    assert(views(step.inputs@).take(i as int) == views(step.inputs@));
    assert(views(step.outputs@).take(k as int) == views(step.outputs@));
    r
}

/// The provenance steps of a package, checked in order: required fields,
/// unique step IDs, references to known IDs only, and no reference twice
/// within one step.
#[verifier::loop_isolation(false)]
pub fn validate_provenance(steps: &[ProvenanceStep], ids: &[String]) -> (r: Result<()>)
    ensures
        r is Ok <==> forall|i: int| 0 <= i < steps@.len() ==> step_issue(steps@, i, views(ids@)) is None,
        r is Err ==> exists|i: int|
            0 <= i < steps@.len() && (forall|j: int|
                0 <= j < i ==> step_issue(steps@, j, views(ids@)) is None) && #[trigger] raised(
                step_issue(steps@, i, views(ids@)),
                r,
            ),
{
    let ghost iv = views(ids@);
    let mut i: usize = 0;
    while i < steps.len()
        invariant
            iv == views(ids@),
            i <= steps@.len(),
            forall|j: int| 0 <= j < i ==> step_issue(steps@, j, iv) is None,
        decreases steps.len() - i,
    {
        let s = &steps[i];
        if s.step_id.as_str().is_empty() || s.operation.as_str().is_empty()
            || s.software.as_str().is_empty() || s.software_version.as_str().is_empty() {
            { let r = package_err("provenance fields must not be empty".to_owned()); assert(raised(step_issue(steps@, i as int, iv), r)); return r; }
        }
        let mut j: usize = 0;
        while j < i
            invariant
                i < steps@.len(),
                j <= i,
                forall|m: int| 0 <= m < j ==> #[trigger] steps@[m].step_id@ != steps@[i as int].step_id@,
            decreases i - j,
        {
            if steps[j].step_id == steps[i].step_id {
                {
                    assert(steps@[j as int].step_id@ == s.step_id@);
                    let r = package_err("duplicate provenance step ID".to_owned());
                    assert(raised(step_issue(steps@, i as int, iv), r));
                    return r;
                }
            }
            j = j + 1;
        }
        assert(forall|m: int| 0 <= m < i ==> #[trigger] steps@[m].step_id@ != s.step_id@);
        let refs = refs_of(s);
        let ghost rv = views(refs@);
        assert(rv == step_refs(steps@[i as int]));
        let mut k: usize = 0;
        while k < refs.len()
            invariant
                rv == views(refs@),
                iv == views(ids@),
                k <= rv.len(),
                forall|m: int| 0 <= m < k ==> iv.contains(#[trigger] rv[m]),
            decreases refs.len() - k,
        {
            assert(rv[k as int] == refs@[k as int]@);
            if !list_contains(ids, refs[k].as_str()) {
                {
                    assert(!iv.contains(rv[k as int]));
                    let r = package_err("provenance references an unknown ID".to_owned());
                    assert(raised(step_issue(steps@, i as int, iv), r));
                    return r;
                }
            }
            k = k + 1;
        }
        let mut a: usize = 0;
        while a < refs.len()
            invariant
                rv == views(refs@),
                a <= rv.len(),
                forall|x: int, y: int| 0 <= x < y < rv.len() && x < a ==> #[trigger] rv[x] != #[trigger] rv[y],
            decreases refs.len() - a,
        {
            let mut b = a + 1;
            while b < refs.len()
                invariant
                    rv == views(refs@),
                    a < rv.len(),
                    a + 1 <= b <= rv.len(),
                    forall|y: int| a < y < b ==> rv[a as int] != #[trigger] rv[y],
                decreases refs.len() - b,
            {
                assert(rv[a as int] == refs@[a as int]@ && rv[b as int] == refs@[b as int]@);
                if refs[a] == refs[b] {
                    {
                        assert(rv[a as int] == rv[b as int]);
                        assert(forall|m: int| 0 <= m < rv.len() ==> iv.contains(#[trigger] rv[m]));
                        let r = package_err(
                            "provenance references must be unique within a step".to_owned(),
                        );
                        assert(raised(step_issue(steps@, i as int, iv), r));
                        return r;
                    }
                }
                b = b + 1;
            }
            a = a + 1;
        }
        i = i + 1;
    }
    Ok(())
}

} // verus!

verus! {

// ---------------------------------------------------------------------------
// Manifest and source
// ---------------------------------------------------------------------------

/// The first rule the manifest and source records break, given how many
/// pages, assets and provenance steps the package holds.
pub open spec fn header_issue(
    manifest: Manifest,
    source: Source,
    pages: nat,
    assets: nat,
    steps: nat,
) -> Option<Seq<char>> {
    let sha = source.content_sha256@;
    if manifest.schema@ != MDP_SCHEMA@ {
        Some("unsupported schema "@ + manifest.schema@)
    } else if !version_ok(manifest.schema_version@) {
        Some("unsupported schema major version "@ + manifest.schema_version@)
    } else if manifest.tool.name@.len() == 0 || manifest.tool.version@.len() == 0 {
        Some("manifest tool name/version must not be empty"@)
    } else if manifest.document_id@ != "doc-"@ + sha {
        Some("document_id does not match source digest"@)
    } else if manifest.source_id@ != source.source_id@ || source.source_id@ != "source-"@ + sha {
        Some("source_id does not match source digest"@)
    } else if pages > MAX_PAGES || assets > MAX_ASSETS {
        Some("page or asset count exceeds the package limit"@)
    } else if steps > MAX_PROVENANCE_STEPS {
        Some("provenance count exceeds the package limit"@)
    } else if manifest.page_count != pages || manifest.asset_count != assets {
        Some("manifest counts do not match package contents"@)
    } else if source.page_count == 0 || pages == 0 {
        Some("MDP packages must contain at least one page"@)
    } else if source.page_count != pages {
        Some("source page_count does not match pages"@)
    } else if !is_digest(sha) {
        Some("source digest is not lowercase SHA-256 hex"@)
    } else if source.packaged_path matches Some(p) && path_error(p@) is Some {
        path_error(source.packaged_path->0@)
    } else if source.packaged_path matches Some(p) && !has_prefix(p@, "source/"@) {
        Some("packaged source must be under source/"@)
    } else {
        None
    }
}

/// Checks the manifest and source records of a package holding `pages`
/// pages, `assets` assets and `steps` provenance steps.
pub fn validate_header(manifest: &Manifest, source: &Source, pages: usize, assets: usize, steps: usize) -> (r: Result<()>)
    ensures
        r is Ok <==> header_issue(*manifest, *source, pages as nat, assets as nat, steps as nat) is None,
        r is Err ==> raised(header_issue(*manifest, *source, pages as nat, assets as nat, steps as nat), r),
{
    let ghost issue = header_issue(*manifest, *source, pages as nat, assets as nat, steps as nat);
    match validate_version(manifest.schema.as_str(), manifest.schema_version.as_str()) {
        Err(e) => {
            return Err(e);
        },
        Ok(()) => {},
    }
    let sha = source.content_sha256.as_str();
    if manifest.tool.name.as_str().is_empty() || manifest.tool.version.as_str().is_empty() {
        return package_err("manifest tool name/version must not be empty".to_owned());
    }
    let doc = document_id_for_sha256(sha);
    if !str_eq(manifest.document_id.as_str(), doc.as_str()) {
        return package_err("document_id does not match source digest".to_owned());
    }
    let sid = source_id_for_sha256(sha);
    if !str_eq(manifest.source_id.as_str(), source.source_id.as_str()) || !str_eq(
        source.source_id.as_str(),
        sid.as_str(),
    ) {
        return package_err("source_id does not match source digest".to_owned());
    }
    if pages > MAX_PAGES || assets > MAX_ASSETS {
        return package_err("page or asset count exceeds the package limit".to_owned());
    }
    if steps > MAX_PROVENANCE_STEPS {
        return package_err("provenance count exceeds the package limit".to_owned());
    }
    if manifest.page_count as usize != pages || manifest.asset_count as usize != assets {
        return package_err("manifest counts do not match package contents".to_owned());
    }
    if source.page_count == 0 || pages == 0 {
        return package_err("MDP packages must contain at least one page".to_owned());
    }
    if source.page_count as usize != pages {
        return package_err("source page_count does not match pages".to_owned());
    }
    if !is_digest_str(sha) {
        return package_err("source digest is not lowercase SHA-256 hex".to_owned());
    }
    if let Some(path) = &source.packaged_path {
        match validate_relative_path(path.as_str()) {
            Err(e) => {
                return Err(e);
            },
            Ok(()) => {},
        }
        if !starts_with(path.as_str(), "source/") {
            return package_err("packaged source must be under source/".to_owned());
        }
    }
    Ok(())
}

// ---------------------------------------------------------------------------
// Pages
// ---------------------------------------------------------------------------

/// What the page checks read of a coordinate space; its extent is judged
/// by the caller.
#[derive(Debug, Clone)]
pub struct SpaceRecord {
    pub id: String,
    pub unit: CoordinateUnit,
    pub origin: Origin,
    pub pixels_per_inch: Option<u16>,
}

/// What the package checks read of a page. The two faults are the verdicts
/// on its floating-point geometry, found by the caller: `spaces_fault` for
/// the master then the source space (an ID and a positive finite extent),
/// and `geometry_fault` for its transforms, evidence bounds and font sizes.
#[derive(Debug, Clone)]
pub struct PageRecord {
    pub page_id: String,
    pub physical_index: u32,
    pub order: u32,
    pub rotation_degrees: u16,
    pub master_space: SpaceRecord,
    pub source_space: SpaceRecord,
    pub transform_count: usize,
    pub asset_ids: Vec<String>,
    pub outline_targets: Vec<Option<String>>,
    pub spaces_fault: Option<String>,
    pub geometry_fault: Option<String>,
}

/// The master space is top-left pixels at the canonical DPI, the source
/// space bottom-left PDF points, and the two are distinct.
pub open spec fn spaces_contract(master: SpaceRecord, source: SpaceRecord) -> bool {
    &&& master.id@ != source.id@
    &&& master.unit == CoordinateUnit::Pixels
    &&& master.origin == Origin::TopLeft
    &&& master.pixels_per_inch == Some(CANONICAL_MASTER_DPI)
    &&& source.unit == CoordinateUnit::PdfPoints
    &&& source.origin == Origin::BottomLeft
    &&& source.pixels_per_inch is None
}

/// The first rule page `pages[i]` breaks, given the source ID and digest
/// and the pages before it (all of which passed).
pub open spec fn page_issue(pages: Seq<PageRecord>, i: int, source_id: Seq<char>, sha: Seq<char>) -> Option<Seq<char>> {
    let p = pages[i];
    if p.physical_index != i || p.order != i {
        Some("page order must be contiguous and deterministic"@)
    } else if p.page_id@ == source_id || exists|j: int| 0 <= j < i && #[trigger] pages[j].page_id@ == p.page_id@ {
        Some("duplicate page ID"@)
    } else if !stable_id_ok(p.page_id@, "page"@) {
        Some("page ID is not a stable SHA-256 ID"@)
    } else if p.page_id@ != page_id_spec(sha, p.physical_index) {
        Some("page ID does not match source digest and physical index"@)
    } else if p.spaces_fault is Some {
        opt_chars(p.spaces_fault)
    } else if !spaces_contract(p.master_space, p.source_space) {
        Some("page coordinate spaces do not meet the MDP master/source contract"@)
    } else if !(p.rotation_degrees == 0 || p.rotation_degrees == 90 || p.rotation_degrees == 180
        || p.rotation_degrees == 270) {
        Some("page rotation must be 0, 90, 180, or 270"@)
    } else if p.transform_count != 1 {
        Some("page must declare exactly one affine transform"@)
    } else if p.geometry_fault is Some {
        opt_chars(p.geometry_fault)
    } else {
        None
    }
}

/// The rotations a page may declare.
pub open spec fn allowed_rotation(r: u16) -> bool {
    r == 0 || r == 90 || r == 180 || r == 270
}

/// Law: the page checks accept exactly the quarter-turn rotations. Turning
/// page `k` to another allowed rotation changes no page's verdict, and a
/// page whose other checks pass is refused for a rotation exactly when it
/// is not one of 0, 90, 180 or 270.
pub proof fn lemma_rotation_rule(
    pages: Seq<PageRecord>,
    k: int,
    r1: u16,
    r2: u16,
    i: int,
    source_id: Seq<char>,
    sha: Seq<char>,
)
    requires
        0 <= k < pages.len(),
        0 <= i < pages.len(),
    ensures
        allowed_rotation(r1) && allowed_rotation(r2) ==> page_issue(
            pages.update(k, PageRecord { rotation_degrees: r1, ..pages[k] }),
            i,
            source_id,
            sha,
        ) == page_issue(pages.update(k, PageRecord { rotation_degrees: r2, ..pages[k] }), i, source_id, sha),
        ({
            let p = pages[i];
            let q = PageRecord { rotation_degrees: 0, transform_count: 1, geometry_fault: None, ..p };
            page_issue(pages.update(i, q), i, source_id, sha) is None ==> (page_issue(
                pages.update(i, PageRecord { rotation_degrees: r1, transform_count: 1, geometry_fault: None, ..p }),
                i,
                source_id,
                sha,
            ) is None <==> allowed_rotation(r1))
        }),
{
    let a = pages.update(k, PageRecord { rotation_degrees: r1, ..pages[k] });
    let b = pages.update(k, PageRecord { rotation_degrees: r2, ..pages[k] });
    lemma_same_ids_same_duplicates(a, b, i);
    let p = pages[i];
    let q0 = pages.update(i, PageRecord { rotation_degrees: 0, transform_count: 1, geometry_fault: None, ..p });
    let q1 = pages.update(i, PageRecord { rotation_degrees: r1, transform_count: 1, geometry_fault: None, ..p });
    lemma_same_ids_same_duplicates(q0, q1, i);
}

proof fn lemma_same_ids_same_duplicates(a: Seq<PageRecord>, b: Seq<PageRecord>, i: int)
    requires
        a.len() == b.len(),
        0 <= i < a.len(),
        forall|j: int| 0 <= j < a.len() ==> (#[trigger] a[j]).page_id@ == b[j].page_id@,
    ensures
        (exists|j: int| 0 <= j < i && #[trigger] a[j].page_id@ == a[i].page_id@) == (exists|j: int|
            0 <= j < i && #[trigger] b[j].page_id@ == b[i].page_id@),
{
    assert(a[i].page_id@ == b[i].page_id@);
    if exists|j: int| 0 <= j < i && #[trigger] a[j].page_id@ == a[i].page_id@ {
        let j = choose|j: int| 0 <= j < i && #[trigger] a[j].page_id@ == a[i].page_id@;
        assert(b[j].page_id@ == b[i].page_id@);
    }
    if exists|j: int| 0 <= j < i && #[trigger] b[j].page_id@ == b[i].page_id@ {
        let j = choose|j: int| 0 <= j < i && #[trigger] b[j].page_id@ == b[i].page_id@;
        assert(a[j].page_id@ == a[i].page_id@);
    }
}

fn page_fault(m: &Option<String>) -> (r: Result<()>)
    requires
        m is Some,
    ensures
        raised(opt_chars(*m), r),
{
    match m {
        Some(text) => package_err(text.clone()),
        None => Ok(()),
    }
}

fn contract_holds(master: &SpaceRecord, source: &SpaceRecord) -> (b: bool)
    ensures
        b == spaces_contract(*master, *source),
{
    !str_eq(master.id.as_str(), source.id.as_str()) && master.unit == CoordinateUnit::Pixels
        && master.origin == Origin::TopLeft && master.pixels_per_inch == Some(CANONICAL_MASTER_DPI)
        && source.unit == CoordinateUnit::PdfPoints && source.origin == Origin::BottomLeft
        && source.pixels_per_inch.is_none()
}

/// The pages of a package, checked in order: contiguous indices, unique
/// content-derived IDs, the coordinate-space contract, the rotation, and
/// one affine transform.
pub fn validate_pages(pages: &[PageRecord], source_id: &str, sha: &str) -> (r: Result<()>)
    ensures
        r is Ok <==> forall|i: int| 0 <= i < pages@.len() ==> page_issue(pages@, i, source_id@, sha@) is None,
        r is Err ==> exists|i: int|
            0 <= i < pages@.len() && (forall|j: int| 0 <= j < i ==> page_issue(pages@, j, source_id@, sha@) is None)
                && #[trigger] raised(page_issue(pages@, i, source_id@, sha@), r),
{
    let mut i: usize = 0;
    while i < pages.len()
        invariant
            i <= pages@.len(),
            forall|j: int| 0 <= j < i ==> page_issue(pages@, j, source_id@, sha@) is None,
        decreases pages.len() - i,
    {
        let p = &pages[i];
        let ghost issue = page_issue(pages@, i as int, source_id@, sha@);
        if p.physical_index as usize != i || p.order as usize != i {
            let r = package_err("page order must be contiguous and deterministic".to_owned());
            assert(raised(issue, r));
            return r;
        }
        let mut dup = str_eq(p.page_id.as_str(), source_id);
        let mut j: usize = 0;
        while j < i
            invariant
                j <= i < pages@.len(),
                dup == (pages@[i as int].page_id@ == source_id@ || exists|k: int|
                    0 <= k < j && #[trigger] pages@[k].page_id@ == pages@[i as int].page_id@),
            decreases i - j,
        {
            if str_eq(pages[j].page_id.as_str(), pages[i].page_id.as_str()) {
                dup = true;
            }
            j = j + 1;
        }
        if dup {
            let r = package_err("duplicate page ID".to_owned());
            assert(raised(issue, r));
            return r;
        }
        match validate_stable_id(p.page_id.as_str(), "page") {
            Err(_) => {
                let r = package_err("page ID is not a stable SHA-256 ID".to_owned());
                assert(raised(issue, r));
                return r;
            },
            Ok(()) => {},
        }
        let expected = page_id(sha, p.physical_index);
        if !str_eq(p.page_id.as_str(), expected.as_str()) {
            let r = package_err("page ID does not match source digest and physical index".to_owned());
            assert(raised(issue, r));
            return r;
        }
        if p.spaces_fault.is_some() {
            let r = page_fault(&p.spaces_fault);
            assert(raised(issue, r));
            return r;
        }
        if !contract_holds(&p.master_space, &p.source_space) {
            let r = package_err("page coordinate spaces do not meet the MDP master/source contract".to_owned());
            assert(raised(issue, r));
            return r;
        }
        if !(p.rotation_degrees == 0 || p.rotation_degrees == 90 || p.rotation_degrees == 180
            || p.rotation_degrees == 270) {
            let r = package_err("page rotation must be 0, 90, 180, or 270".to_owned());
            assert(raised(issue, r));
            return r;
        }
        if p.transform_count != 1 {
            let r = package_err("page must declare exactly one affine transform".to_owned());
            assert(raised(issue, r));
            return r;
        }
        if p.geometry_fault.is_some() {
            let r = page_fault(&p.geometry_fault);
            assert(raised(issue, r));
            return r;
        }
        assert(issue is None);
        i = i + 1;
    }
    Ok(())
}

// ---------------------------------------------------------------------------
// Cross references between pages and assets
// ---------------------------------------------------------------------------

/// The index of the first of the first `n` assets with this ID.
pub open spec fn find_asset(assets: Seq<Asset>, id: Seq<char>, n: int) -> Option<int>
    decreases n,
{
    if n <= 0 {
        None
    } else {
        match find_asset(assets, id, n - 1) {
            Some(k) => Some(k),
            None => if assets[n - 1].asset_id@ == id {
                Some(n - 1)
            } else {
                None
            },
        }
    }
}

proof fn lemma_found_asset_sticks(assets: Seq<Asset>, id: Seq<char>, n: int, m: int)
    requires
        0 <= n <= m,
        find_asset(assets, id, n) is Some,
    ensures
        find_asset(assets, id, m) == find_asset(assets, id, n),
    decreases m - n,
{
    if m > n {
        lemma_found_asset_sticks(assets, id, n, m - 1);
    }
}

proof fn lemma_found_asset_index(assets: Seq<Asset>, id: Seq<char>, n: int)
    requires
        0 <= n <= assets.len(),
    ensures
        find_asset(assets, id, n) matches Some(k) ==> 0 <= k < n && assets[k].asset_id@ == id,
    decreases n,
{
    if n > 0 {
        lemma_found_asset_index(assets, id, n - 1);
    }
}

/// The issue with the `k`-th asset listed by page `i`.
pub open spec fn listed_asset_issue(pages: Seq<PageRecord>, assets: Seq<Asset>, i: int, k: int) -> Option<Seq<char>> {
    let ids = pages[i].asset_ids@;
    if exists|j: int| 0 <= j < k && #[trigger] ids[j]@ == ids[k]@ {
        Some("page asset IDs must be unique"@)
    } else {
        match find_asset(assets, ids[k]@, assets.len() as int) {
            None => Some("page references an unknown asset"@),
            Some(a) => if opt_chars(assets[a].page_id) != Some(pages[i].page_id@) {
                Some("page and asset page scopes disagree"@)
            } else {
                None
            },
        }
    }
}

/// Whether some page has this ID.
pub open spec fn names_page(pages: Seq<PageRecord>, id: Seq<char>) -> bool {
    exists|j: int| 0 <= j < pages.len() && (#[trigger] pages[j]).page_id@ == id
}

/// The issue with the `k`-th outline target of page `i`.
pub open spec fn outline_target_issue(pages: Seq<PageRecord>, i: int, k: int) -> Option<Seq<char>> {
    match pages[i].outline_targets@[k] {
        Some(t) => if !names_page(pages, t@) {
            Some("outline evidence references an unknown page"@)
        } else {
            None
        },
        None => None,
    }
}

/// The first issue among the first `n` assets listed by page `i`.
pub open spec fn listed_prefix_issue(pages: Seq<PageRecord>, assets: Seq<Asset>, i: int, n: int) -> Option<Seq<char>>
    decreases n,
{
    if n <= 0 {
        None
    } else {
        match listed_prefix_issue(pages, assets, i, n - 1) {
            Some(m) => Some(m),
            None => listed_asset_issue(pages, assets, i, n - 1),
        }
    }
}

/// The first issue among the first `n` outline targets of page `i`.
pub open spec fn outline_prefix_issue(pages: Seq<PageRecord>, i: int, n: int) -> Option<Seq<char>>
    decreases n,
{
    if n <= 0 {
        None
    } else {
        match outline_prefix_issue(pages, i, n - 1) {
            Some(m) => Some(m),
            None => outline_target_issue(pages, i, n - 1),
        }
    }
}

/// The first issue with page `i`'s references: its asset list, then its
/// outline targets.
pub open spec fn page_refs_issue(pages: Seq<PageRecord>, assets: Seq<Asset>, i: int) -> Option<Seq<char>> {
    match listed_prefix_issue(pages, assets, i, pages[i].asset_ids@.len() as int) {
        Some(m) => Some(m),
        None => outline_prefix_issue(pages, i, pages[i].outline_targets@.len() as int),
    }
}

/// The first issue among the references of the first `n` pages.
pub open spec fn pages_prefix_issue(pages: Seq<PageRecord>, assets: Seq<Asset>, n: int) -> Option<Seq<char>>
    decreases n,
{
    if n <= 0 {
        None
    } else {
        match pages_prefix_issue(pages, assets, n - 1) {
            Some(m) => Some(m),
            None => page_refs_issue(pages, assets, n - 1),
        }
    }
}

/// The index of the first page with this ID.
pub open spec fn first_page_named(pages: Seq<PageRecord>, id: Seq<char>, n: int) -> Option<int>
    decreases n,
{
    if n <= 0 {
        None
    } else {
        match first_page_named(pages, id, n - 1) {
            Some(k) => Some(k),
            None => if pages[n - 1].page_id@ == id {
                Some(n - 1)
            } else {
                None
            },
        }
    }
}

/// The issue with asset `a`'s page: it must exist and list the asset.
pub open spec fn asset_listing_issue(pages: Seq<PageRecord>, assets: Seq<Asset>, a: int) -> Option<Seq<char>> {
    match assets[a].page_id {
        None => None,
        Some(p) => match first_page_named(pages, p@, pages.len() as int) {
            None => Some("asset references an unknown page"@),
            Some(j) => if !views(pages[j].asset_ids@).contains(assets[a].asset_id@) {
                Some("asset is not listed by its page"@)
            } else {
                None
            },
        },
    }
}

/// The first issue among the first `n` assets' pages.
pub open spec fn listing_prefix_issue(pages: Seq<PageRecord>, assets: Seq<Asset>, n: int) -> Option<Seq<char>>
    decreases n,
{
    if n <= 0 {
        None
    } else {
        match listing_prefix_issue(pages, assets, n - 1) {
            Some(m) => Some(m),
            None => asset_listing_issue(pages, assets, n - 1),
        }
    }
}

/// The first issue with the references between pages and assets: every
/// page's references, then every asset's page.
pub open spec fn cross_issue(pages: Seq<PageRecord>, assets: Seq<Asset>) -> Option<Seq<char>> {
    match pages_prefix_issue(pages, assets, pages.len() as int) {
        Some(m) => Some(m),
        None => listing_prefix_issue(pages, assets, assets.len() as int),
    }
}

proof fn lemma_listed_sticks(pages: Seq<PageRecord>, assets: Seq<Asset>, i: int, n: int, m: int)
    requires
        0 <= n <= m,
        listed_prefix_issue(pages, assets, i, n) is Some,
    ensures
        listed_prefix_issue(pages, assets, i, m) == listed_prefix_issue(pages, assets, i, n),
    decreases m - n,
{
    if m > n {
        lemma_listed_sticks(pages, assets, i, n, m - 1);
    }
}

proof fn lemma_outline_sticks(pages: Seq<PageRecord>, i: int, n: int, m: int)
    requires
        0 <= n <= m,
        outline_prefix_issue(pages, i, n) is Some,
    ensures
        outline_prefix_issue(pages, i, m) == outline_prefix_issue(pages, i, n),
    decreases m - n,
{
    if m > n {
        lemma_outline_sticks(pages, i, n, m - 1);
    }
}

proof fn lemma_pages_sticks(pages: Seq<PageRecord>, assets: Seq<Asset>, n: int, m: int)
    requires
        0 <= n <= m,
        pages_prefix_issue(pages, assets, n) is Some,
    ensures
        pages_prefix_issue(pages, assets, m) == pages_prefix_issue(pages, assets, n),
    decreases m - n,
{
    if m > n {
        lemma_pages_sticks(pages, assets, n, m - 1);
    }
}

proof fn lemma_listing_sticks(pages: Seq<PageRecord>, assets: Seq<Asset>, n: int, m: int)
    requires
        0 <= n <= m,
        listing_prefix_issue(pages, assets, n) is Some,
    ensures
        listing_prefix_issue(pages, assets, m) == listing_prefix_issue(pages, assets, n),
    decreases m - n,
{
    if m > n {
        lemma_listing_sticks(pages, assets, n, m - 1);
    }
}

proof fn lemma_named_sticks(pages: Seq<PageRecord>, id: Seq<char>, n: int, m: int)
    requires
        0 <= n <= m,
        first_page_named(pages, id, n) is Some,
    ensures
        first_page_named(pages, id, m) == first_page_named(pages, id, n),
    decreases m - n,
{
    if m > n {
        lemma_named_sticks(pages, id, n, m - 1);
    }
}

proof fn lemma_named_index(pages: Seq<PageRecord>, id: Seq<char>, n: int)
    requires
        0 <= n <= pages.len(),
    ensures
        first_page_named(pages, id, n) matches Some(k) ==> 0 <= k < n && pages[k].page_id@ == id,
        first_page_named(pages, id, n) is None ==> forall|k: int| 0 <= k < n ==> pages[k].page_id@ != id,
    decreases n,
{
    if n > 0 {
        lemma_named_index(pages, id, n - 1);
    }
}

fn find_asset_index(assets: &[Asset], id: &str) -> (r: Option<usize>)
    ensures
        r matches Some(k) ==> find_asset(assets@, id@, assets@.len() as int) == Some(k as int),
        r is None ==> find_asset(assets@, id@, assets@.len() as int) is None,
{
    let mut k: usize = 0;
    while k < assets.len()
        invariant
            k <= assets@.len(),
            find_asset(assets@, id@, k as int) is None,
        decreases assets.len() - k,
    {
        if str_eq(assets[k].asset_id.as_str(), id) {
            proof {
                lemma_found_asset_sticks(assets@, id@, k + 1, assets@.len() as int);
            }
            return Some(k);
        }
        k = k + 1;
    }
    None
}

fn find_page_index(pages: &[PageRecord], id: &str) -> (r: Option<usize>)
    ensures
        r matches Some(k) ==> first_page_named(pages@, id@, pages@.len() as int) == Some(k as int),
        r is None ==> first_page_named(pages@, id@, pages@.len() as int) is None,
{
    let mut k: usize = 0;
    while k < pages.len()
        invariant
            k <= pages@.len(),
            first_page_named(pages@, id@, k as int) is None,
        decreases pages.len() - k,
    {
        if str_eq(pages[k].page_id.as_str(), id) {
            proof {
                lemma_named_sticks(pages@, id@, k + 1, pages@.len() as int);
            }
            return Some(k);
        }
        k = k + 1;
    }
    None
}

fn opt_str_eq(a: &Option<String>, b: &str) -> (r: bool)
    ensures
        r == (opt_chars(*a) == Some(b@)),
{
    match a {
        Some(s) => str_eq(s.as_str(), b),
        None => false,
    }
}

/// Checks the references of page `i`: its asset list, then its outline
/// targets.
fn check_page_refs(pages: &[PageRecord], assets: &[Asset], i: usize) -> (r: Result<()>)
    requires
        i < pages@.len(),
    ensures
        r is Ok <==> page_refs_issue(pages@, assets@, i as int) is None,
        r is Err ==> raised(page_refs_issue(pages@, assets@, i as int), r),
{
    let page = &pages[i];
    let ids = &page.asset_ids;
    let mut k: usize = 0;
    while k < ids.len()
        invariant
            i < pages@.len(),
            *ids == pages@[i as int].asset_ids,
            *page == pages@[i as int],
            k <= ids@.len(),
            listed_prefix_issue(pages@, assets@, i as int, k as int) is None,
        decreases ids.len() - k,
    {
        let ghost issue = listed_asset_issue(pages@, assets@, i as int, k as int);
        let mut dup = false;
        let mut j: usize = 0;
        while j < k
            invariant
                j <= k < ids@.len(),
                dup == exists|q: int| 0 <= q < j && #[trigger] ids@[q]@ == ids@[k as int]@,
            decreases k - j,
        {
            if str_eq(ids[j].as_str(), ids[k].as_str()) {
                dup = true;
            }
            j = j + 1;
        }
        assert(ids@ == pages@[i as int].asset_ids@);
        assert(dup ==> issue == Some("page asset IDs must be unique"@));
        let r: Result<()> = if dup {
            package_err("page asset IDs must be unique".to_owned())
        } else {
            match find_asset_index(assets, ids[k].as_str()) {
                None => {
                    assert(issue == Some("page references an unknown asset"@));
                    package_err("page references an unknown asset".to_owned())
                },
                Some(a) => {
                    proof {
                        lemma_found_asset_index(assets@, ids@[k as int]@, assets@.len() as int);
                    }
                    assert(find_asset(assets@, ids@[k as int]@, assets@.len() as int) == Some(a as int));
                    let same = opt_str_eq(&assets[a].page_id, page.page_id.as_str());
                    assert(page.page_id@ == pages@[i as int].page_id@);
                    assert(assets[a as int] == assets@[a as int]);
                    assert(same == (opt_chars(assets@[a as int].page_id) == Some(pages@[i as int].page_id@)));
                    if !same {
                        assert(issue == Some("page and asset page scopes disagree"@));
                        package_err("page and asset page scopes disagree".to_owned())
                    } else {
                        assert(issue is None);
                        Ok(())
                    }
                },
            }
        };
        if r.is_err() {
            assert(raised(issue, r));
            assert(listed_prefix_issue(pages@, assets@, i as int, k + 1) == issue);
            proof {
                lemma_listed_sticks(pages@, assets@, i as int, k + 1, ids@.len() as int);
            }
            return r;
        }
        assert(issue is None);
        k = k + 1;
    }
    let targets = &page.outline_targets;
    let mut t: usize = 0;
    while t < targets.len()
        invariant
            i < pages@.len(),
            *targets == pages@[i as int].outline_targets,
            t <= targets@.len(),
            outline_prefix_issue(pages@, i as int, t as int) is None,
            listed_prefix_issue(pages@, assets@, i as int, pages@[i as int].asset_ids@.len() as int) is None,
        decreases targets.len() - t,
    {
        if let Some(target) = &targets[t] {
            match find_page_index(pages, target.as_str()) {
                None => {
                    proof {
                        lemma_named_index(pages@, target@, pages@.len() as int);
                        assert(!names_page(pages@, target@));
                        lemma_outline_sticks(pages@, i as int, t + 1, targets@.len() as int);
                    }
                    return package_err("outline evidence references an unknown page".to_owned());
                },
                Some(q) => {
                    proof {
                        lemma_named_index(pages@, target@, pages@.len() as int);
                        assert(pages@[q as int].page_id@ == target@);
                        assert(names_page(pages@, target@));
                    }
                },
            }
        }
        t = t + 1;
    }
    Ok(())
}

/// Checks the references between pages and assets: each page lists unique,
/// known assets scoped to it, and known outline targets; each page-scoped
/// asset is listed by its page.
pub fn validate_cross_refs(pages: &[PageRecord], assets: &[Asset]) -> (r: Result<()>)
    ensures
        r is Ok <==> cross_issue(pages@, assets@) is None,
        r is Err ==> raised(cross_issue(pages@, assets@), r),
{
    let mut i: usize = 0;
    while i < pages.len()
        invariant
            i <= pages@.len(),
            pages_prefix_issue(pages@, assets@, i as int) is None,
        decreases pages.len() - i,
    {
        match check_page_refs(pages, assets, i) {
            Err(e) => {
                assert(pages_prefix_issue(pages@, assets@, i + 1) == page_refs_issue(pages@, assets@, i as int));
                proof {
                    lemma_pages_sticks(pages@, assets@, i + 1, pages@.len() as int);
                }
                return Err(e);
            },
            Ok(()) => {},
        }
        i = i + 1;
    }
    let mut a: usize = 0;
    while a < assets.len()
        invariant
            a <= assets@.len(),
            pages_prefix_issue(pages@, assets@, pages@.len() as int) is None,
            listing_prefix_issue(pages@, assets@, a as int) is None,
        decreases assets.len() - a,
    {
        if let Some(p) = &assets[a].page_id {
            let r: Result<()> = match find_page_index(pages, p.as_str()) {
                None => package_err("asset references an unknown page".to_owned()),
                Some(j) => {
                    proof {
                        lemma_named_index(pages@, p@, pages@.len() as int);
                    }
                    if !list_contains(pages[j].asset_ids.as_slice(), assets[a].asset_id.as_str()) {
                        package_err("asset is not listed by its page".to_owned())
                    } else {
                        Ok(())
                    }
                },
            };
            if r.is_err() {
                assert(raised(asset_listing_issue(pages@, assets@, a as int), r));
                assert(listing_prefix_issue(pages@, assets@, a + 1) == asset_listing_issue(pages@, assets@, a as int));
                proof {
                    lemma_listing_sticks(pages@, assets@, a + 1, assets@.len() as int);
                }
                return r;
            }
        }
        a = a + 1;
    }
    Ok(())
}

// ---------------------------------------------------------------------------
// The whole package
// ---------------------------------------------------------------------------

/// What the package checks read of a document package.
#[derive(Debug, Clone)]
pub struct PackageRecord {
    pub manifest: Manifest,
    pub source: Source,
    pub pages: Vec<PageRecord>,
    pub assets: Vec<Asset>,
    pub provenance: Vec<ProvenanceStep>,
}

/// The IDs of the package's pages, in order.
pub open spec fn page_id_views(pages: Seq<PageRecord>) -> Seq<Seq<char>> {
    pages.map_values(|p: PageRecord| p.page_id@)
}

/// The IDs a provenance step may reference: the source, the pages and the
/// assets.
pub open spec fn known_ids(p: PackageRecord) -> Seq<Seq<char>> {
    seq![p.source.source_id@] + page_id_views(p.pages@) + p.assets@.map_values(|a: Asset| a.asset_id@)
}

pub open spec fn pages_ok(p: PackageRecord) -> bool {
    forall|i: int| 0 <= i < p.pages@.len() ==> page_issue(p.pages@, i, p.source.source_id@, p.source.content_sha256@) is None
}

pub open spec fn assets_ok(p: PackageRecord) -> bool {
    forall|i: int| 0 <= i < p.assets@.len() ==> asset_issue(p.assets@, i, p.source.source_id@, page_id_views(p.pages@)) is None
}

pub open spec fn steps_ok(p: PackageRecord) -> bool {
    forall|i: int| 0 <= i < p.provenance@.len() ==> step_issue(p.provenance@, i, known_ids(p)) is None
}

/// Every rule of a document package holds.
pub open spec fn package_valid(p: PackageRecord) -> bool {
    &&& header_issue(p.manifest, p.source, p.pages@.len(), p.assets@.len(), p.provenance@.len()) is None
    &&& pages_ok(p)
    &&& assets_ok(p)
    &&& cross_issue(p.pages@, p.assets@) is None
    &&& steps_ok(p)
}

impl PackageRecord {
    /// Checks every rule of the package, in order: manifest and source,
    /// pages, assets, the references between them, and provenance. The
    /// error is the first rule broken.
    pub fn validate(&self) -> (r: Result<()>)
        ensures
            r is Ok <==> package_valid(*self),
            header_issue(self.manifest, self.source, self.pages@.len(), self.assets@.len(), self.provenance@.len()) is Some
                ==> raised(header_issue(self.manifest, self.source, self.pages@.len(), self.assets@.len(), self.provenance@.len()), r),
            header_issue(self.manifest, self.source, self.pages@.len(), self.assets@.len(), self.provenance@.len()) is None
                && !pages_ok(*self) ==> exists|i: int|
                0 <= i < self.pages@.len() && (forall|j: int|
                    0 <= j < i ==> page_issue(self.pages@, j, self.source.source_id@, self.source.content_sha256@) is None)
                    && #[trigger] raised(page_issue(self.pages@, i, self.source.source_id@, self.source.content_sha256@), r),
            header_issue(self.manifest, self.source, self.pages@.len(), self.assets@.len(), self.provenance@.len()) is None
                && pages_ok(*self) && !assets_ok(*self) ==> exists|i: int|
                0 <= i < self.assets@.len() && (forall|j: int|
                    0 <= j < i ==> asset_issue(self.assets@, j, self.source.source_id@, page_id_views(self.pages@)) is None)
                    && #[trigger] raised(asset_issue(self.assets@, i, self.source.source_id@, page_id_views(self.pages@)), r),
            header_issue(self.manifest, self.source, self.pages@.len(), self.assets@.len(), self.provenance@.len()) is None
                && pages_ok(*self) && assets_ok(*self) && cross_issue(self.pages@, self.assets@) is Some
                ==> raised(cross_issue(self.pages@, self.assets@), r),
            header_issue(self.manifest, self.source, self.pages@.len(), self.assets@.len(), self.provenance@.len()) is None
                && pages_ok(*self) && assets_ok(*self) && cross_issue(self.pages@, self.assets@) is None && !steps_ok(*self)
                ==> exists|i: int|
                0 <= i < self.provenance@.len() && (forall|j: int|
                    0 <= j < i ==> step_issue(self.provenance@, j, known_ids(*self)) is None)
                    && #[trigger] raised(step_issue(self.provenance@, i, known_ids(*self)), r),
    {
        match validate_header(&self.manifest, &self.source, self.pages.len(), self.assets.len(), self.provenance.len()) {
            Err(e) => {
                return Err(e);
            },
            Ok(()) => {},
        }
        match validate_pages(self.pages.as_slice(), self.source.source_id.as_str(), self.source.content_sha256.as_str()) {
            Err(e) => {
                return Err(e);
            },
            Ok(()) => {},
        }
        let mut page_ids: Vec<String> = Vec::new();
        let mut i: usize = 0;
        while i < self.pages.len()
            invariant
                i <= self.pages@.len(),
                views(page_ids@) == page_id_views(self.pages@).take(i as int),
            decreases self.pages.len() - i,
        {
            push_owned(&mut page_ids, self.pages[i].page_id.as_str());
            assert(page_id_views(self.pages@).take(i + 1 as int) =~= page_id_views(self.pages@).take(i as int).push(self.pages@[i as int].page_id@));
            i = i + 1;
        }
        assert(page_id_views(self.pages@).take(self.pages@.len() as int) =~= page_id_views(self.pages@));
        match validate_assets(self.assets.as_slice(), self.source.source_id.as_str(), page_ids.as_slice()) {
            Err(e) => {
                return Err(e);
            },
            Ok(()) => {},
        }
        match validate_cross_refs(self.pages.as_slice(), self.assets.as_slice()) {
            Err(e) => {
                return Err(e);
            },
            Ok(()) => {},
        }
        let mut ids: Vec<String> = Vec::new();
        push_owned(&mut ids, self.source.source_id.as_str());
        assert(views(ids@) =~= seq![self.source.source_id@]);
        let mut i: usize = 0;
        while i < page_ids.len()
            invariant
                i <= page_ids@.len(),
                views(ids@) == seq![self.source.source_id@] + views(page_ids@).take(i as int),
            decreases page_ids.len() - i,
        {
            push_owned(&mut ids, page_ids[i].as_str());
            assert(views(page_ids@).take(i + 1 as int) =~= views(page_ids@).take(i as int).push(page_ids@[i as int]@));
            assert(views(ids@) =~= seq![self.source.source_id@] + views(page_ids@).take(i + 1 as int));
            i = i + 1;
        }
        assert(views(page_ids@).take(page_ids@.len() as int) =~= views(page_ids@));
        let ghost asset_views = self.assets@.map_values(|a: Asset| a.asset_id@);
        let mut k: usize = 0;
        while k < self.assets.len()
            invariant
                k <= self.assets@.len(),
                asset_views == self.assets@.map_values(|a: Asset| a.asset_id@),
                views(ids@) == seq![self.source.source_id@] + page_id_views(self.pages@) + asset_views.take(k as int),
            decreases self.assets.len() - k,
        {
            push_owned(&mut ids, self.assets[k].asset_id.as_str());
            assert(asset_views.take(k + 1 as int) =~= asset_views.take(k as int).push(self.assets@[k as int].asset_id@));
            assert(views(ids@) =~= seq![self.source.source_id@] + page_id_views(self.pages@) + asset_views.take(k + 1 as int));
            k = k + 1;
        }
        assert(asset_views.take(self.assets@.len() as int) =~= asset_views);
        assert(views(ids@) == known_ids(*self));
        validate_provenance(self.provenance.as_slice(), ids.as_slice())
    }
}

} // verus!
