//! Document and page metadata types owned by the project, free of any
//! rendering-backend type.

use vstd::prelude::*;

use crate::page_geometry::{PageGeometry, PageRotation};
use crate::text::{chars_of, control_char, is_control_char, string_of, trim_ws, trimmed};

verus! {

broadcast use vstd::string::group_string_axioms;

/// Maximum length, in characters, of any single copied metadata string.
pub const MAX_METADATA_LEN: usize = 512;

/// Basic document metadata copied from the source PDF where safely
/// available. Fields absent from the source stay `None`.
#[derive(Debug, Clone, PartialEq, Eq)]
pub struct PdfMetadata {
    pub title: Option<String>,
    pub author: Option<String>,
    pub subject: Option<String>,
    pub keywords: Option<String>,
}

impl Default for PdfMetadata {
    fn default() -> (m: Self)
        ensures
            m.title is None,
            m.author is None,
            m.subject is None,
            m.keywords is None,
    {
        PdfMetadata { title: None, author: None, subject: None, keywords: None }
    }
}

/// `s` without its control characters.
pub open spec fn without_controls(s: Seq<char>) -> Seq<char>
    decreases s.len(),
{
    if s.len() == 0 {
        seq![]
    } else if is_control_char(s.last()) {
        without_controls(s.drop_last())
    } else {
        without_controls(s.drop_last()).push(s.last())
    }
}

/// A metadata value as it is kept: control characters removed, white
/// space trimmed, at most [`MAX_METADATA_LEN`] characters.
pub open spec fn sanitized_value(s: Seq<char>) -> Seq<char> {
    let t = trim_ws(without_controls(s));
    if t.len() <= MAX_METADATA_LEN {
        t
    } else {
        t.take(MAX_METADATA_LEN as int)
    }
}

/// The characters of an optional string.
pub open spec fn opt_view(o: Option<String>) -> Option<Seq<char>> {
    match o {
        Some(s) => Some(s@),
        None => None,
    }
}

/// An optional metadata value after sanitization.
pub open spec fn opt_sanitized(o: Option<String>) -> Option<Seq<char>> {
    match o {
        Some(s) => Some(sanitized_value(s@)),
        None => None,
    }
}

/// Removes control characters, trims, and truncates one metadata value.
pub fn sanitize_metadata_value(value: &str) -> (r: String)
    ensures
        r@ == sanitized_value(value@),
{
    let chars = chars_of(value);
    let mut cleaned: Vec<char> = Vec::new();
    let mut i: usize = 0;
    while i < chars.len()
        invariant
            chars@ == value@,
            i <= chars@.len(),
            cleaned@ == without_controls(chars@.take(i as int)),
        decreases chars.len() - i,
    {
        let c = chars[i];
        assert(chars@.take(i + 1 as int).drop_last() == chars@.take(i as int));
        if !control_char(c) {
            cleaned.push(c);
        }
        i = i + 1;
    }
    assert(chars@.take(chars@.len() as int) == chars@);
    let t = trimmed(cleaned.as_slice());
    if t.len() <= MAX_METADATA_LEN {
        return string_of(t.as_slice());
    }
    let mut out: Vec<char> = Vec::new();
    let mut k: usize = 0;
    while k < MAX_METADATA_LEN
        invariant
            t@.len() > MAX_METADATA_LEN,
            k <= MAX_METADATA_LEN,
            out@ == t@.take(k as int),
        decreases MAX_METADATA_LEN - k,
    {
        out.push(t[k]);
        k = k + 1;
        assert(out@ =~= t@.take(k as int));
    }
    string_of(out.as_slice())
}

fn sanitize_opt(o: &Option<String>) -> (r: Option<String>)
    ensures
        opt_view(r) == opt_sanitized(*o),
{
    match o {
        Some(s) => Some(sanitize_metadata_value(s.as_str())),
        None => None,
    }
}

impl PdfMetadata {
    /// A copy with control characters stripped and each field trimmed and
    /// truncated, so that hostile document metadata cannot corrupt terminal
    /// output or bloat the written PDF.
    pub fn sanitized(&self) -> (m: Self)
        ensures
            opt_view(m.title) == opt_sanitized(self.title),
            opt_view(m.author) == opt_sanitized(self.author),
            opt_view(m.subject) == opt_sanitized(self.subject),
            opt_view(m.keywords) == opt_sanitized(self.keywords),
    {
        PdfMetadata {
            title: sanitize_opt(&self.title),
            author: sanitize_opt(&self.author),
            subject: sanitize_opt(&self.subject),
            keywords: sanitize_opt(&self.keywords),
        }
    }

    pub fn is_empty(&self) -> (b: bool)
        ensures
            b == (self.title is None && self.author is None && self.subject is None
                && self.keywords is None),
    {
        self.title.is_none() && self.author.is_none() && self.subject.is_none()
            && self.keywords.is_none()
    }
}

/// Information about one page of a source document.
#[derive(Debug, Clone, PartialEq, Eq)]
pub struct PdfPageInfo {
    /// Zero-based page index. User-facing output adds one.
    pub index: u32,
    /// The page's visible geometry, with any `/Rotate` already applied.
    pub geometry: PageGeometry,
    /// The `/Rotate` value declared by the source page; informational only.
    pub source_rotation: PageRotation,
}

impl PdfPageInfo {
    /// One-based page number, for user-facing messages.
    pub fn page_number(&self) -> (n: u32)
        requires
            self.index < u32::MAX,
        ensures
            n == self.index + 1,
    {
        self.index + 1
    }
}

/// The result of inspecting a source PDF.
#[derive(Debug, Clone, PartialEq, Eq)]
pub struct PdfDocumentInfo {
    pub page_count: u32,
    pub pages: Vec<PdfPageInfo>,
    pub metadata: PdfMetadata,
    /// Size of the source file on disk, in bytes.
    pub source_bytes: u64,
}

} // verus!
