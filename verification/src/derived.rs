//! Derived-document records: the bundle manifest, the review-queue
//! vocabulary, the human revision overlay store and the export formats with
//! their text escapes.

use vstd::prelude::*;

use crate::digest::{decimal, hex_of, push_decimal, sha256, sha256_hex_str};
use crate::document_package::{path_error, validate_relative_path};
use crate::error::{CoreError, Result};
use crate::text::{
    chars_of, is_digest, is_lower_hex, is_digest_str, join_space, push_str, str_eq, string_of, utf8_len,
    utf8_len_at_most, views,
};

verus! {

broadcast use vstd::string::group_string_axioms;

pub const DERIVED_SCHEMA: &'static str = "mpdf-derived-document";
pub const DERIVED_SCHEMA_VERSION: &'static str = "0.1";
pub const DERIVED_EXPORTER_VERSION: &'static str = "0.1";
pub const MAX_DERIVED_CHUNKS: usize = 100_000;
pub const MAX_BUNDLE_ARTIFACTS: usize = 32;
pub const MAX_REVISION_RECORDS: usize = 100_000;
pub const MAX_REVISION_TEXT_BYTES: usize = 1_048_576;
pub const REVISION_SCHEMA: &'static str = "mpdf-revisions";

#[derive(Debug, Clone, PartialEq, Eq)]
pub struct DerivedManifest {
    pub schema: String,
    pub schema_version: String,
    pub source_digest: String,
    pub document_id: String,
    pub package_digest: String,
    pub ocr_digest: Option<String>,
    pub revision_digest: String,
    pub exporter_version: String,
    pub artifacts: Vec<DerivedArtifact>,
}

#[derive(Debug, Clone, PartialEq, Eq)]
pub struct DerivedArtifact {
    pub format: String,
    pub path: String,
    pub sha256: String,
    pub byte_len: u64,
}

#[derive(Debug, Clone, Copy, PartialEq, Eq, Structural)]
pub enum BundleStatus {
    Current,
    Stale,
    Corrupt,
}

#[derive(Debug, Clone, PartialEq, Eq)]
pub struct OutlineEvidenceRef {
    pub title: String,
    pub level: u16,
    pub target_page_id: Option<String>,
    pub source: String,
}

#[derive(Debug, Clone, Copy, PartialEq, Eq, Structural)]
pub enum ReviewIssueKind {
    LowConfidence,
    ReadingOrderGap,
    UnicodeNormalization,
    EmptyRegion,
}

#[derive(Debug, Clone, Copy, PartialEq, Eq, Structural)]
pub enum ReviewSeverity {
    Info,
    Warning,
    Error,
}

#[derive(Debug, Clone, Copy, PartialEq, Eq, Structural)]
pub enum ReviewStatus {
    Open,
}

// ---------------------------------------------------------------------------
// Revision overlay
// ---------------------------------------------------------------------------

#[derive(Debug, Clone, PartialEq, Eq)]
pub struct RevisionRecord {
    pub revision_id: String,
    pub target_ref: String,
    pub kind: RevisionKind,
    pub text: String,
    pub base_evidence_digest: String,
}

#[derive(Debug, Clone, Copy, PartialEq, Eq, Structural)]
pub enum RevisionKind {
    Human,
    AiSuggested,
}

pub open spec fn revision_kind_name(kind: RevisionKind) -> Seq<char> {
    match kind {
        RevisionKind::Human => "human"@,
        RevisionKind::AiSuggested => "ai_suggested"@,
    }
}

#[derive(Debug, Clone, PartialEq, Eq)]
pub struct RevisionStore {
    pub schema: String,
    pub schema_version: String,
    pub revisions: Vec<RevisionRecord>,
}

/// One revision record on its own: a bounded, non-empty ID and target, a
/// lowercase SHA-256 base digest and a bounded text.
pub open spec fn revision_ok(r: RevisionRecord) -> bool {
    &&& r.revision_id@.len() > 0
    &&& utf8_len(r.revision_id@) <= 256
    &&& r.target_ref@.len() > 0
    &&& utf8_len(r.target_ref@) <= 512
    &&& is_digest(r.base_evidence_digest@)
    &&& utf8_len(r.text@) <= MAX_REVISION_TEXT_BYTES
}

impl RevisionStore {
    pub fn empty() -> (s: Self)
        ensures
            s.schema@ == REVISION_SCHEMA@,
            s.schema_version@ == DERIVED_SCHEMA_VERSION@,
            s.revisions@.len() == 0,
            s.valid(),
    {
        RevisionStore {
            schema: REVISION_SCHEMA.to_owned(),
            schema_version: DERIVED_SCHEMA_VERSION.to_owned(),
            revisions: Vec::new(),
        }
    }

    /// The store's header: its schema, version and size.
    pub open spec fn header_ok(&self) -> bool {
        &&& self.schema@ == REVISION_SCHEMA@
        &&& self.schema_version@ == DERIVED_SCHEMA_VERSION@
        &&& self.revisions@.len() <= MAX_REVISION_RECORDS
    }

    /// A valid store: a good header, every record valid, revision IDs unique.
    pub open spec fn valid(&self) -> bool {
        &&& self.header_ok()
        &&& forall|i: int| 0 <= i < self.revisions@.len() ==> revision_ok(#[trigger] self.revisions@[i])
        &&& forall|i: int, j: int|
            0 <= i < j < self.revisions@.len() ==> #[trigger] self.revisions@[i].revision_id@
                != #[trigger] self.revisions@[j].revision_id@
    }

    pub fn validate(&self) -> (r: Result<()>)
        ensures
            r is Ok <==> self.valid(),
            !self.header_ok() ==> (r matches Err(CoreError::InvalidDocument(m)) && m@
                == "invalid revision store"@),
            self.header_ok() && !self.valid() ==> (r matches Err(CoreError::InvalidDocument(m))
                && m@ == "invalid revision record"@),
    {
        if !str_eq(self.schema.as_str(), REVISION_SCHEMA) || !str_eq(
            self.schema_version.as_str(),
            DERIVED_SCHEMA_VERSION,
        ) || self.revisions.len() > MAX_REVISION_RECORDS {
            return Err(CoreError::InvalidDocument("invalid revision store".to_owned()));
        }
        let mut i: usize = 0;
        while i < self.revisions.len()
            invariant
                self.header_ok(),
                i <= self.revisions@.len(),
                forall|k: int| 0 <= k < i ==> revision_ok(#[trigger] self.revisions@[k]),
                forall|k: int, j: int|
                    0 <= k < j < i ==> #[trigger] self.revisions@[k].revision_id@
                        != #[trigger] self.revisions@[j].revision_id@,
            decreases self.revisions.len() - i,
        {
            let r = &self.revisions[i];
            let mut unique = true;
            let mut j: usize = 0;
            while j < i
                invariant
                    i < self.revisions@.len(),
                    j <= i,
                    unique <==> forall|k: int|
                        0 <= k < j ==> self.revisions@[k].revision_id@
                            != #[trigger] self.revisions@[i as int].revision_id@,
                decreases i - j,
            {
                if self.revisions[j].revision_id == self.revisions[i].revision_id {
                    unique = false;
                }
                j = j + 1;
            }
            if r.revision_id.as_str().is_empty() || !utf8_len_at_most(r.revision_id.as_str(), 256)
                || !unique || r.target_ref.as_str().is_empty() || !utf8_len_at_most(
                r.target_ref.as_str(),
                512,
            ) || !is_digest_str(r.base_evidence_digest.as_str()) || !utf8_len_at_most(
                r.text.as_str(),
                MAX_REVISION_TEXT_BYTES,
            ) {
                return Err(CoreError::InvalidDocument("invalid revision record".to_owned()));
            }
            assert(revision_ok(self.revisions@[i as int]));
            i = i + 1;
        }
        Ok(())
    }
}

/// The text whose digest names a revision: target, base digest, kind name
/// and text, separated by NUL characters.
pub open spec fn revision_seed(target: Seq<char>, base: Seq<char>, kind: RevisionKind, text: Seq<char>) -> Seq<char> {
    target + seq!['\0'] + base + seq!['\0'] + revision_kind_name(kind) + seq!['\0'] + text
}

/// A revision ID derived only from what the revision says: `revision-`
/// and the first 24 hex digits of the SHA-256 of its seed.
pub fn deterministic_revision_id(target: &str, base: &str, kind: RevisionKind, text: &str) -> (id: String)
    ensures
        id@ == "revision-"@ + hex_of(
            sha256(vstd::utf8::encode_utf8(revision_seed(target@, base@, kind, text@))),
        ).take(24),
        id@.len() == 33,
        forall|i: int| 9 <= i < 33 ==> is_lower_hex(#[trigger] id@[i]),
{
    let k = match kind {
        RevisionKind::Human => "human",
        RevisionKind::AiSuggested => "ai_suggested",
    };
    let mut seed = target.to_owned();
    push_str(&mut seed, "\0");
    push_str(&mut seed, base);
    push_str(&mut seed, "\0");
    push_str(&mut seed, k);
    push_str(&mut seed, "\0");
    push_str(&mut seed, text);
    proof {
        reveal_strlit("\0");
        reveal_strlit("human");
        reveal_strlit("ai_suggested");
    }
    assert(seed@ =~= revision_seed(target@, base@, kind, text@));
    let digest = sha256_hex_str(seed.as_str());
    let hex = chars_of(digest.as_str());
    let mut id = "revision-".to_owned();
    let mut short: Vec<char> = Vec::new();
    let mut i: usize = 0;
    while i < 24
        invariant
            hex@.len() == 64,
            i <= 24,
            short@ == hex@.take(i as int),
        decreases 24 - i,
    {
        short.push(hex[i]);
        i = i + 1;
        assert(short@ =~= hex@.take(i as int));
    }
    let tail = string_of(short.as_slice());
    push_str(&mut id, tail.as_str());
    proof {
        reveal_strlit("revision-");
        assert forall|i: int| 9 <= i < 33 implies is_lower_hex(#[trigger] id@[i]) by {
            assert(id@[i] == hex@[i - 9]);
        }
    }
    id
}

// ---------------------------------------------------------------------------
// Export formats and escapes
// ---------------------------------------------------------------------------

#[derive(Debug, Clone, Copy, PartialEq, Eq, Structural)]
pub enum ExportFormat {
    Json,
    Jsonl,
    Markdown,
    Text,
    Html,
    Hocr,
    Alto,
}

/// The export format a command-line name selects.
pub open spec fn format_named(v: Seq<char>) -> Option<ExportFormat> {
    if v == "json"@ {
        Some(ExportFormat::Json)
    } else if v == "jsonl"@ {
        Some(ExportFormat::Jsonl)
    } else if v == "md"@ || v == "markdown"@ {
        Some(ExportFormat::Markdown)
    } else if v == "txt"@ || v == "text"@ {
        Some(ExportFormat::Text)
    } else if v == "html"@ {
        Some(ExportFormat::Html)
    } else if v == "hocr"@ {
        Some(ExportFormat::Hocr)
    } else if v == "alto"@ || v == "alto_xml"@ {
        Some(ExportFormat::Alto)
    } else {
        None
    }
}

impl ExportFormat {
    pub fn parse(v: &str) -> (r: Option<Self>)
        ensures
            r == format_named(v@),
    {
        if str_eq(v, "json") {
            Some(ExportFormat::Json)
        } else if str_eq(v, "jsonl") {
            Some(ExportFormat::Jsonl)
        } else if str_eq(v, "md") || str_eq(v, "markdown") {
            Some(ExportFormat::Markdown)
        } else if str_eq(v, "txt") || str_eq(v, "text") {
            Some(ExportFormat::Text)
        } else if str_eq(v, "html") {
            Some(ExportFormat::Html)
        } else if str_eq(v, "hocr") {
            Some(ExportFormat::Hocr)
        } else if str_eq(v, "alto") || str_eq(v, "alto_xml") {
            Some(ExportFormat::Alto)
        } else {
            None
        }
    }
}

/// How one character is written in HTML and XML text and attributes.
pub open spec fn html_escape(c: char) -> Seq<char> {
    if c == '&' {
        "&amp;"@
    } else if c == '<' {
        "&lt;"@
    } else if c == '>' {
        "&gt;"@
    } else if c == '"' {
        "&quot;"@
    } else if c == '\'' {
        "&#39;"@
    } else {
        seq![c]
    }
}

/// How one character is written in Markdown: the Markdown metacharacters
/// ``\ ` * _ [ ] # < > |`` get a backslash in front.
pub open spec fn md_escape(c: char) -> Seq<char> {
    if c == '\\' || c == '`' || c == '*' || c == '_' || c == '[' || c == ']' || c == '#' || c
        == '<' || c == '>' || c == '|' {
        seq!['\\', c]
    } else {
        seq![c]
    }
}

/// `s` with every character written by `html`/`md` rules.
pub open spec fn escaped(s: Seq<char>, html: bool) -> Seq<char>
    decreases s.len(),
{
    if s.len() == 0 {
        seq![]
    } else {
        escaped(s.drop_last(), html) + if html {
            html_escape(s.last())
        } else {
            md_escape(s.last())
        }
    }
}

fn escape_with(v: &str, html: bool) -> (r: String)
    ensures
        r@ == escaped(v@, html),
{
    let chars = chars_of(v);
    let mut out = String::new();
    let mut i: usize = 0;
    while i < chars.len()
        invariant
            chars@ == v@,
            i <= chars@.len(),
            out@ == escaped(chars@.take(i as int), html),
        decreases chars.len() - i,
    {
        let c = chars[i];
        assert(chars@.take(i + 1 as int).drop_last() == chars@.take(i as int));
        let ghost before = out@;
        if html {
            if c == '&' {
                push_str(&mut out, "&amp;");
            } else if c == '<' {
                push_str(&mut out, "&lt;");
            } else if c == '>' {
                push_str(&mut out, "&gt;");
            } else if c == '"' {
                push_str(&mut out, "&quot;");
            } else if c == '\'' {
                push_str(&mut out, "&#39;");
            } else {
                let mut one: Vec<char> = Vec::new();
                one.push(c);
                let t = string_of(one.as_slice());
                push_str(&mut out, t.as_str());
                assert(t@ =~= seq![c]);
            }
        } else {
            let mut two: Vec<char> = Vec::new();
            if c == '\\' || c == '`' || c == '*' || c == '_' || c == '[' || c == ']' || c == '#'
                || c == '<' || c == '>' || c == '|' {
                two.push('\\');
            }
            two.push(c);
            let t = string_of(two.as_slice());
            push_str(&mut out, t.as_str());
            assert(t@ =~= md_escape(c));
        }
        i = i + 1;
    }
    assert(chars@.take(chars@.len() as int) == chars@);
    out
}

/// Escapes text for HTML and XML.
pub fn esc(v: &str) -> (r: String)
    ensures
        r@ == escaped(v@, true),
{
    escape_with(v, true)
}

/// Escapes text for Markdown.
pub fn esc_md(v: &str) -> (r: String)
    ensures
        r@ == escaped(v@, false),
{
    escape_with(v, false)
}

} // verus!

verus! {

// ---------------------------------------------------------------------------
// Derived record identity
// ---------------------------------------------------------------------------

/// The text whose digest names a derived record: its kind, then each part
/// after a NUL character.
pub open spec fn stable_seed(kind: Seq<char>, parts: Seq<Seq<char>>) -> Seq<char>
    decreases parts.len(),
{
    if parts.len() == 0 {
        kind
    } else {
        stable_seed(kind, parts.drop_last()) + seq!['\0'] + parts.last()
    }
}

/// The first 24 hex digits of the SHA-256 of `text`'s UTF-8 bytes.
fn short_digest(text: &str) -> (r: String)
    ensures
        r@ == hex_of(sha256(vstd::utf8::encode_utf8(text@))).take(24),
{
    let digest = sha256_hex_str(text);
    let hex = chars_of(digest.as_str());
    let mut short: Vec<char> = Vec::new();
    let mut i: usize = 0;
    while i < 24
        invariant
            hex@.len() == 64,
            hex@ == hex_of(sha256(vstd::utf8::encode_utf8(text@))),
            i <= 24,
            short@ == hex@.take(i as int),
        decreases 24 - i,
    {
        short.push(hex[i]);
        i = i + 1;
        assert(short@ =~= hex@.take(i as int));
    }
    string_of(short.as_slice())
}

/// A derived record ID: `kind-` and the first 24 hex digits of the SHA-256
/// of the record's seed, so the same evidence always yields the same ID.
pub fn stable_id(kind: &str, parts: &[&str]) -> (id: String)
    ensures
        id@ == kind@ + "-"@ + hex_of(
            sha256(vstd::utf8::encode_utf8(stable_seed(kind@, parts@.map_values(|p: &str| p@)))),
        ).take(24),
{
    let ghost pv = parts@.map_values(|p: &str| p@);
    let mut seed = kind.to_owned();
    let mut i: usize = 0;
    while i < parts.len()
        invariant
            i <= parts@.len(),
            pv == parts@.map_values(|p: &str| p@),
            seed@ == stable_seed(kind@, pv.take(i as int)),
        decreases parts.len() - i,
    {
        push_str(&mut seed, "\0");
        push_str(&mut seed, parts[i]);
        proof {
            reveal_strlit("\0");
            assert(pv.take(i + 1 as int).drop_last() =~= pv.take(i as int));
        }
        i = i + 1;
    }
    assert(pv.take(parts@.len() as int) =~= pv);
    let short = short_digest(seed.as_str());
    let mut id = kind.to_owned();
    push_str(&mut id, "-");
    push_str(&mut id, short.as_str());
    id
}

/// `n` in decimal, padded with leading zeros to at least six digits.
pub open spec fn padded6(n: nat) -> Seq<char> {
    let d = decimal(n);
    if d.len() >= 6 {
        d
    } else {
        Seq::new((6 - d.len()) as nat, |i: int| '0') + d
    }
}

/// Appends `n` zero-padded to six digits.
pub fn push_padded6(out: &mut String, n: u64)
    ensures
        final(out)@ == old(out)@ + padded6(n as nat),
{
    let mut d = String::new();
    push_decimal(&mut d, n);
    let len = chars_of(d.as_str()).len();
    let mut zeros = String::new();
    let mut k: usize = len;
    while k < 6
        invariant
            len <= k <= 6 || (len > 6 && k == len),
            len == d@.len(),
            zeros@ == Seq::new((k - len) as nat, |i: int| '0'),
        decreases 6 - k,
    {
        push_str(&mut zeros, "0");
        proof {
            reveal_strlit("0");
        }
        k = k + 1;
        assert(zeros@ =~= Seq::new((k - len) as nat, |i: int| '0'));
    }
    push_str(out, zeros.as_str());
    push_str(out, d.as_str());
    proof {
        if len >= 6 {
            assert(zeros@ =~= Seq::<char>::empty());
        }
        assert(d@ == decimal(n as nat));
    }
    assert(out@ =~= old(out)@ + padded6(n as nat)) by {
        if len < 6 {
            assert(zeros@ =~= Seq::new((6 - len) as nat, |i: int| '0'));
        }
    }
}

/// The structural path of the `index`-th child of `parent`: `parent/`,
/// the child's tag, and its index padded to six digits.
pub fn structural_path(parent: &str, tag: &str, index: u64) -> (p: String)
    ensures
        p@ == parent@ + "/"@ + tag@ + padded6(index as nat),
{
    let mut p = parent.to_owned();
    push_str(&mut p, "/");
    push_str(&mut p, tag);
    push_padded6(&mut p, index);
    p
}

/// The text of a chunk: the words of a line joined by single spaces.
pub fn chunk_text(words: &[String]) -> (t: String)
    ensures
        t@ == join_space(views(words@)),
{
    let mut t = String::new();
    let mut i: usize = 0;
    while i < words.len()
        invariant
            i <= words@.len(),
            t@ == join_space(views(words@).take(i as int)),
        decreases words.len() - i,
    {
        let ghost before = t@;
        if i > 0 {
            push_str(&mut t, " ");
        }
        push_str(&mut t, words[i].as_str());
        proof {
            reveal_strlit(" ");
            let w = views(words@);
            assert(w.take(i + 1 as int).drop_last() =~= w.take(i as int));
            assert(w.take(i + 1 as int).last() == words@[i as int]@);
            if i == 0 {
                assert(t@ =~= join_space(w.take(1)));
            } else {
                assert(t@ =~= join_space(w.take(i + 1 as int)));
            }
        }
        i = i + 1;
    }
    assert(views(words@).take(words@.len() as int) =~= views(words@));
    t
}

/// Whether a derived bundle built with this manifest must be rebuilt: any
/// input that affects it differs, the exporter version included, so that a
/// formatting upgrade never mixes generations.
pub open spec fn stale(
    m: DerivedManifest,
    package_digest: Seq<char>,
    ocr_digest: Option<Seq<char>>,
    revision_digest: Seq<char>,
    exporter_version: Seq<char>,
) -> bool {
    ||| m.package_digest@ != package_digest
    ||| (match m.ocr_digest {
        Some(d) => Some(d@),
        None => None,
    }) != ocr_digest
    ||| m.revision_digest@ != revision_digest
    ||| m.exporter_version@ != exporter_version
}

impl DerivedManifest {
    pub fn is_stale(
        &self,
        package_digest: &str,
        ocr_digest: Option<&str>,
        revision_digest: &str,
        exporter_version: &str,
    ) -> (b: bool)
        ensures
            b == stale(
                *self,
                package_digest@,
                match ocr_digest {
                    Some(d) => Some(d@),
                    None => None,
                },
                revision_digest@,
                exporter_version@,
            ),
    {
        let ocr_differs = match (&self.ocr_digest, ocr_digest) {
            (Some(a), Some(b)) => !str_eq(a.as_str(), b),
            (None, None) => false,
            _ => true,
        };
        !str_eq(self.package_digest.as_str(), package_digest) || ocr_differs || !str_eq(
            self.revision_digest.as_str(),
            revision_digest,
        ) || !str_eq(self.exporter_version.as_str(), exporter_version)
    }
}

/// The seven files of a derived bundle, each with the format it is listed
/// under; `None` for any other path.
pub open spec fn bundle_format(path: Seq<char>) -> Option<Seq<char>> {
    if path == "derived.json"@ {
        Some("json"@)
    } else if path == "derived.jsonl"@ {
        Some("jsonl"@)
    } else if path == "derived.md"@ {
        Some("md"@)
    } else if path == "derived.txt"@ {
        Some("txt"@)
    } else if path == "derived.html"@ {
        Some("html"@)
    } else if path == "derived.hocr.html"@ {
        Some("hocr.html"@)
    } else if path == "derived.alto.xml"@ {
        Some("alto.xml"@)
    } else {
        None
    }
}

fn bundle_format_of(path: &str) -> (r: Option<&'static str>)
    ensures
        match bundle_format(path@) {
            Some(f) => r matches Some(g) && g@ == f,
            None => r is None,
        },
{
    if str_eq(path, "derived.json") {
        Some("json")
    } else if str_eq(path, "derived.jsonl") {
        Some("jsonl")
    } else if str_eq(path, "derived.md") {
        Some("md")
    } else if str_eq(path, "derived.txt") {
        Some("txt")
    } else if str_eq(path, "derived.html") {
        Some("html")
    } else if str_eq(path, "derived.hocr.html") {
        Some("hocr.html")
    } else if str_eq(path, "derived.alto.xml") {
        Some("alto.xml")
    } else {
        None
    }
}

/// The manifest's own header: this schema and version, and exactly seven
/// artifacts.
pub open spec fn bundle_header_ok(m: DerivedManifest) -> bool {
    &&& m.schema@ == DERIVED_SCHEMA@
    &&& m.schema_version@ == DERIVED_SCHEMA_VERSION@
    &&& m.artifacts@.len() == 7
}

/// One listed artifact: a bundle file under its own format, a safe relative
/// path and a lowercase SHA-256 digest.
pub open spec fn artifact_listed_ok(a: DerivedArtifact) -> bool {
    &&& bundle_format(a.path@) == Some(a.format@)
    &&& path_error(a.path@) is None
    &&& is_digest(a.sha256@)
}

/// Every artifact is listed correctly and no bundle file is listed twice.
pub open spec fn artifacts_listed_ok(artifacts: Seq<DerivedArtifact>) -> bool {
    &&& forall|i: int| 0 <= i < artifacts.len() ==> artifact_listed_ok(#[trigger] artifacts[i])
    &&& forall|i: int, j: int|
        0 <= i < j < artifacts.len() ==> #[trigger] artifacts[i].path@ != #[trigger] artifacts[j].path@
}

/// What a stored bundle manifest decides before any file is read: a bad
/// header is corrupt, then a manifest made from other inputs is stale, then
/// a bad artifact listing is corrupt; otherwise the files must be checked.
pub open spec fn bundle_precheck_spec(m: DerivedManifest, stale_inputs: bool) -> Option<BundleStatus> {
    if !bundle_header_ok(m) {
        Some(BundleStatus::Corrupt)
    } else if stale_inputs {
        Some(BundleStatus::Stale)
    } else if !artifacts_listed_ok(m.artifacts@) {
        Some(BundleStatus::Corrupt)
    } else {
        None
    }
}

fn artifacts_listed(artifacts: &[DerivedArtifact]) -> (b: bool)
    ensures
        b == artifacts_listed_ok(artifacts@),
{
    let mut i: usize = 0;
    while i < artifacts.len()
        invariant
            i <= artifacts@.len(),
            forall|k: int| 0 <= k < i ==> artifact_listed_ok(#[trigger] artifacts@[k]),
            forall|k: int, j: int|
                0 <= k < j < i ==> #[trigger] artifacts@[k].path@ != #[trigger] artifacts@[j].path@,
        decreases artifacts.len() - i,
    {
        let a = &artifacts[i];
        let listed = match bundle_format_of(a.path.as_str()) {
            Some(f) => str_eq(f, a.format.as_str()),
            None => false,
        };
        if !listed {
            assert(!artifact_listed_ok(artifacts@[i as int]));
            return false;
        }
        match validate_relative_path(a.path.as_str()) {
            Ok(()) => {},
            Err(_) => {
                assert(!artifact_listed_ok(artifacts@[i as int]));
                return false;
            },
        }
        if !is_digest_str(a.sha256.as_str()) {
            assert(!artifact_listed_ok(artifacts@[i as int]));
            return false;
        }
        let mut k: usize = 0;
        while k < i
            invariant
                k <= i < artifacts@.len(),
                a == artifacts@[i as int],
                forall|q: int| 0 <= q < k ==> #[trigger] artifacts@[q].path@ != a.path@,
            decreases i - k,
        {
            if str_eq(artifacts[k].path.as_str(), a.path.as_str()) {
                assert(artifacts@[k as int].path@ == artifacts@[i as int].path@);
                return false;
            }
            k = k + 1;
        }
        i = i + 1;
    }
    true
}

/// What a stored bundle manifest decides before any file is read; see
/// `bundle_precheck_spec`. `stale_inputs` says whether the manifest was made
/// from other inputs than the current ones.
pub fn bundle_precheck(m: &DerivedManifest, stale_inputs: bool) -> (r: Option<BundleStatus>)
    ensures
        r == bundle_precheck_spec(*m, stale_inputs),
{
    if !str_eq(m.schema.as_str(), DERIVED_SCHEMA) || !str_eq(m.schema_version.as_str(), DERIVED_SCHEMA_VERSION)
        || m.artifacts.len() != 7 {
        return Some(BundleStatus::Corrupt);
    }
    if stale_inputs {
        return Some(BundleStatus::Stale);
    }
    if !artifacts_listed(m.artifacts.as_slice()) {
        return Some(BundleStatus::Corrupt);
    }
    None
}

/// Checks that every OCR page names a page of the package: its index is
/// below the page count and some package page has it as physical index.
pub fn check_ocr_pages(ocr_pages: &[u32], page_count: u32, physical: &[u32]) -> (r: Result<()>)
    ensures
        r is Ok <==> forall|i: int|
            0 <= i < ocr_pages@.len() ==> #[trigger] ocr_pages@[i] < page_count && physical@.contains(ocr_pages@[i]),
        r is Err ==> (r matches Err(CoreError::InvalidDocument(m))
            && m@ == "OCR evidence page identity does not match package"@),
{
    let mut i: usize = 0;
    while i < ocr_pages.len()
        invariant
            i <= ocr_pages@.len(),
            forall|k: int| 0 <= k < i ==> #[trigger] ocr_pages@[k] < page_count && physical@.contains(ocr_pages@[k]),
        decreases ocr_pages.len() - i,
    {
        let p = ocr_pages[i];
        let mut found = false;
        let mut j: usize = 0;
        while j < physical.len()
            invariant
                j <= physical@.len(),
                found == exists|q: int| 0 <= q < j && physical@[q] == p,
            decreases physical.len() - j,
        {
            if physical[j] == p {
                found = true;
            }
            j = j + 1;
        }
        if p >= page_count || !found {
            proof {
                if found {
                    let q = choose|q: int| 0 <= q < physical@.len() && physical@[q] == p;
                    assert(physical@.contains(p));
                }
                if physical@.contains(p) {
                    let q = choose|q: int| 0 <= q < physical@.len() && physical@[q] == p;
                    assert(found);
                }
            }
            return Err(CoreError::InvalidDocument("OCR evidence page identity does not match package".to_owned()));
        }
        proof {
            let q = choose|q: int| 0 <= q < physical@.len() && physical@[q] == p;
            assert(physical@.contains(p));
        }
        i = i + 1;
    }
    Ok(())
}

} // verus!
