//! Match keys and index tokens for contents entries and body lines.
//!
//! A line is matched through keys derived from its text: the primary key
//! (compatibility-normalised, lowercased, punctuation folded to spaces,
//! white space collapsed) and the secondary key (the primary key without
//! combining marks). Unicode normalisation comes from `unicode_normalization`;
//! the case mapping and the alphanumeric test are std's.

use vstd::prelude::*;

use unicode_normalization::UnicodeNormalization;

use crate::error::{CoreError, Result};
use crate::text::{chars_of, join_space, join_with_space, split_whitespace, split_ws, string_of, trim_ws, trimmed, views};

verus! {

broadcast use vstd::string::group_string_axioms;

/// How much a bounding box may be trusted as layout evidence.
#[derive(Debug, Clone, Copy, PartialEq, Eq, Structural)]
pub enum GeometryQuality {
    Measured,
    Approximate,
}

impl GeometryQuality {
    pub fn as_str(self) -> (s: &'static str)
        ensures
            s@ == match self {
                GeometryQuality::Measured => "measured"@,
                GeometryQuality::Approximate => "approximate"@,
            },
    {
        match self {
            GeometryQuality::Measured => "measured",
            GeometryQuality::Approximate => "approximate",
        }
    }
}

// ---------------------------------------------------------------------------
// Outside character tables
// ---------------------------------------------------------------------------

/// Unicode Normalization Form KC of a character sequence.
pub uninterp spec fn nfkc(s: Seq<char>) -> Seq<char>;

/// Unicode Normalization Form D of a character sequence.
pub uninterp spec fn nfd(s: Seq<char>) -> Seq<char>;

/// Unicode Normalization Form C of a character sequence.
pub uninterp spec fn nfc(s: Seq<char>) -> Seq<char>;

/// Whether a character is a Unicode combining mark (general category M).
pub uninterp spec fn combining_mark(c: char) -> bool;

/// The full Unicode lowercase mapping of a character.
pub uninterp spec fn lowercase(c: char) -> Seq<char>;

/// The full Unicode lowercase mapping of a text.
pub uninterp spec fn lowercase_text(s: Seq<char>) -> Seq<char>;

/// Unicode `Alphabetic` or `Numeric`.
pub uninterp spec fn alphanumeric(c: char) -> bool;

/// `UnicodeNormalization::nfkc` of `unicode_normalization`, collected; the
/// contract claims only that the result is a function of the input.
#[verifier::external_body]
fn nfkc_of(s: &str) -> (r: Vec<char>)
    ensures
        r@ == nfkc(s@),
{
    s.nfkc().collect()
}

/// `UnicodeNormalization::nfd` of `unicode_normalization`, collected; the
/// contract claims only that the result is a function of the input.
#[verifier::external_body]
fn nfd_of(s: &str) -> (r: Vec<char>)
    ensures
        r@ == nfd(s@),
{
    s.nfd().collect()
}

/// `UnicodeNormalization::nfc` of `unicode_normalization`, collected; the
/// contract claims only that the result is a function of the input.
#[verifier::external_body]
pub(crate) fn nfc_of(s: &str) -> (r: Vec<char>)
    ensures
        r@ == nfc(s@),
{
    s.nfc().collect()
}

/// `unicode_normalization::char::is_combining_mark`; the contract claims
/// only that the answer is a function of the character.
#[verifier::external_body]
fn combining_mark_of(c: char) -> (b: bool)
    ensures
        b == combining_mark(c),
{
    unicode_normalization::char::is_combining_mark(c)
}

/// `char::to_lowercase`, collected; the contract claims only that the
/// mapping is a function of the character.
#[verifier::external_body]
fn lowercase_of(c: char) -> (r: Vec<char>)
    ensures
        r@ == lowercase(c),
{
    c.to_lowercase().collect()
}

/// `str::to_lowercase`; the contract claims only that the lowercased text
/// is a function of the text.
#[verifier::external_body]
pub(crate) fn lowercase_text_of(s: &str) -> (r: String)
    ensures
        r@ == lowercase_text(s@),
{
    s.to_lowercase()
}

/// `char::is_alphanumeric`; the contract claims only that the answer is a
/// function of the character.
#[verifier::external_body]
fn alphanumeric_of(c: char) -> (b: bool)
    ensures
        b == alphanumeric(c),
{
    c.is_alphanumeric()
}

// ---------------------------------------------------------------------------
// Keys
// ---------------------------------------------------------------------------

/// Soft hyphen and zero-width space, which never separate words.
pub open spec fn is_soft_break(c: char) -> bool {
    c == '\u{00ad}' || c == '\u{200b}'
}

/// A lowercased character as it enters a key: itself when alphanumeric,
/// otherwise a space.
pub open spec fn key_char(c: char) -> char {
    if alphanumeric(c) {
        c
    } else {
        ' '
    }
}

/// Drops soft breaks, lowercases, and folds everything that is not
/// alphanumeric to a space.
pub open spec fn fold_chars(s: Seq<char>) -> Seq<char>
    decreases s.len(),
{
    if s.len() == 0 {
        seq![]
    } else {
        let c = s.last();
        fold_chars(s.drop_last()) + if is_soft_break(c) {
            seq![]
        } else {
            lowercase(c).map_values(|l: char| key_char(l))
        }
    }
}

/// The primary match key of a text.
pub open spec fn primary_spec(text: Seq<char>) -> Seq<char> {
    join_space(split_ws(fold_chars(nfkc(text))))
}

/// `s` without its combining marks.
pub open spec fn without_marks(s: Seq<char>) -> Seq<char>
    decreases s.len(),
{
    if s.len() == 0 {
        seq![]
    } else if combining_mark(s.last()) {
        without_marks(s.drop_last())
    } else {
        without_marks(s.drop_last()).push(s.last())
    }
}

/// The secondary key: the primary key decomposed, stripped of combining
/// marks and recomposed.
pub open spec fn secondary_spec(primary: Seq<char>) -> Seq<char> {
    nfc(without_marks(nfd(primary)))
}

/// The primary match key: NFKC, lowercase, punctuation and leader folding,
/// white-space collapse. Never written back into a bookmark title.
pub fn primary_key(text: &str) -> (r: String)
    ensures
        r@ == primary_spec(text@),
{
    let norm = nfkc_of(text);
    let mut folded: Vec<char> = Vec::new();
    let mut i: usize = 0;
    while i < norm.len()
        invariant
            norm@ == nfkc(text@),
            i <= norm@.len(),
            folded@ == fold_chars(norm@.take(i as int)),
        decreases norm.len() - i,
    {
        let c = norm[i];
        assert(norm@.take(i + 1 as int).drop_last() == norm@.take(i as int));
        assert(norm@.take(i + 1 as int).last() == c);
        if !(c == '\u{00ad}' || c == '\u{200b}') {
            let lower = lowercase_of(c);
            let ghost before = folded@;
            let mut j: usize = 0;
            while j < lower.len()
                invariant
                    j <= lower@.len(),
                    folded@ == before + lower@.take(j as int).map_values(|l: char| key_char(l)),
                decreases lower.len() - j,
            {
                let l = lower[j];
                let k = if alphanumeric_of(l) {
                    l
                } else {
                    ' '
                };
                folded.push(k);
                j = j + 1;
                assert(folded@ =~= before + lower@.take(j as int).map_values(|l: char| key_char(l)));
            }
            assert(lower@.take(j as int) == lower@);
        } else {
            assert(folded@ =~= fold_chars(norm@.take(i as int)) + seq![]);
        }
        i = i + 1;
    }
    assert(norm@.take(norm@.len() as int) == norm@);
    let words = split_whitespace(folded.as_slice());
    let joined = join_with_space(&words);
    string_of(joined.as_slice())
}

/// The secondary key folds combining marks. Polytonic Greek accents differ
/// only here, which is why a secondary-only match cannot pass the automatic
/// gate on its own.
pub fn secondary_key(primary: &str) -> (r: String)
    ensures
        r@ == secondary_spec(primary@),
{
    let decomposed = nfd_of(primary);
    let mut kept: Vec<char> = Vec::new();
    let mut i: usize = 0;
    while i < decomposed.len()
        invariant
            decomposed@ == nfd(primary@),
            i <= decomposed@.len(),
            kept@ == without_marks(decomposed@.take(i as int)),
        decreases decomposed.len() - i,
    {
        let c = decomposed[i];
        assert(decomposed@.take(i + 1 as int).drop_last() == decomposed@.take(i as int));
        if !combining_mark_of(c) {
            kept.push(c);
        }
        i = i + 1;
    }
    assert(decomposed@.take(decomposed@.len() as int) == decomposed@);
    let stripped = string_of(kept.as_slice());
    let composed = nfc_of(stripped.as_str());
    string_of(composed.as_slice())
}

// ---------------------------------------------------------------------------
// Index tokens
// ---------------------------------------------------------------------------

/// Kana and the CJK ideograph blocks.
pub open spec fn is_ideographic(c: char) -> bool {
    let u = c as u32;
    (0x3040 <= u && u <= 0x30FF) || (0x3400 <= u && u <= 0x4DBF) || (0x4E00 <= u && u <= 0x9FFF)
        || (0xF900 <= u && u <= 0xFAFF) || (0x20000 <= u && u <= 0x2FA1F)
}

pub fn ideographic(c: char) -> (b: bool)
    ensures
        b == is_ideographic(c),
{
    let u = c as u32;
    (0x3040 <= u && u <= 0x30FF) || (0x3400 <= u && u <= 0x4DBF) || (0x4E00 <= u && u <= 0x9FFF)
        || (0xF900 <= u && u <= 0xFAFF) || (0x20000 <= u && u <= 0x2FA1F)
}

pub open spec fn has_ideographic(w: Seq<char>) -> bool {
    exists|i: int| 0 <= i < w.len() && is_ideographic(#[trigger] w[i])
}

/// The character pairs of `w`, in order.
pub open spec fn bigrams(w: Seq<char>) -> Seq<Seq<char>> {
    Seq::new(
        if w.len() >= 1 {
            (w.len() - 1) as nat
        } else {
            0
        },
        |i: int| w.subrange(i, i + 2),
    )
}

/// The index tokens of one word: the word itself, or, for a word in a
/// script without spaces, its character pairs (a single character stands
/// for itself).
pub open spec fn word_tokens(w: Seq<char>) -> Seq<Seq<char>> {
    if has_ideographic(w) {
        (if w.len() == 1 {
            seq![w]
        } else {
            seq![]
        }) + bigrams(w)
    } else {
        seq![w]
    }
}

pub open spec fn all_tokens(words: Seq<Seq<char>>) -> Seq<Seq<char>>
    decreases words.len(),
{
    if words.len() == 0 {
        seq![]
    } else {
        all_tokens(words.drop_last()) + word_tokens(words.last())
    }
}

/// The first `n` elements of `s` (all of them when it is shorter).
pub open spec fn truncated<A>(s: Seq<A>, n: nat) -> Seq<A> {
    if s.len() > n {
        s.take(n as int)
    } else {
        s
    }
}

/// The tokens of a primary key, at most 256.
pub open spec fn tokens_spec(primary: Seq<char>) -> Seq<Seq<char>> {
    truncated(all_tokens(split_ws(primary)), 256)
}

proof fn lemma_views_push(v: Seq<String>, s: String)
    ensures
        views(v.push(s)) == views(v).push(s@),
{
    assert(views(v.push(s)) =~= views(v).push(s@));
}

/// Whitespace tokens, plus character bigrams for scripts that do not use
/// spaces, so a Chinese contents line still has distinctive index keys.
pub fn tokens_of(primary: &str) -> (r: Vec<String>)
    ensures
        views(r@) == tokens_spec(primary@),
{
    let chars = chars_of(primary);
    let words = split_whitespace(chars.as_slice());
    let ghost wv = words.deep_view();
    let mut tokens: Vec<String> = Vec::new();
    let mut i: usize = 0;
    while i < words.len()
        invariant
            wv == words.deep_view(),
            i <= wv.len(),
            views(tokens@) == all_tokens(wv.take(i as int)),
        decreases words.len() - i,
    {
        let w = &words[i];
        assert(w@ == wv[i as int]);
        assert(wv.take(i + 1 as int).drop_last() == wv.take(i as int));
        assert(wv.take(i + 1 as int).last() == w@);
        let ghost before = views(tokens@);
        let mut ideo = false;
        let mut k: usize = 0;
        while k < w.len()
            invariant
                k <= w@.len(),
                ideo <==> exists|m: int| 0 <= m < k && is_ideographic(#[trigger] w@[m]),
            decreases w.len() - k,
        {
            if ideographic(w[k]) {
                ideo = true;
            }
            k = k + 1;
        }
        if ideo {
            if w.len() == 1 {
                let t = string_of(w.as_slice());
                proof {
                    lemma_views_push(tokens@, t);
                }
                tokens.push(t);
            }
            let ghost mid = views(tokens@);
            assert(mid == before + if w@.len() == 1 {
                seq![w@]
            } else {
                seq![]
            });
            let mut m: usize = 0;
            while m + 1 < w.len()
                invariant
                    w@.len() >= 1,
                    m <= w@.len() - 1,
                    views(tokens@) == mid + bigrams(w@).take(m as int),
                decreases w.len() - m,
            {
                let mut pair: Vec<char> = Vec::new();
                pair.push(w[m]);
                pair.push(w[m + 1]);
                assert(pair@ =~= w@.subrange(m as int, m + 2));
                let t = string_of(pair.as_slice());
                proof {
                    lemma_views_push(tokens@, t);
                }
                tokens.push(t);
                m = m + 1;
                assert(bigrams(w@).take(m as int) =~= bigrams(w@).take(m - 1 as int).push(
                    w@.subrange(m - 1 as int, m + 1),
                ));
                assert(views(tokens@) =~= mid + bigrams(w@).take(m as int));
            }
            assert(bigrams(w@).take(m as int) =~= bigrams(w@));
            assert(views(tokens@) =~= before + word_tokens(w@));
        } else {
            let t = string_of(w.as_slice());
            proof {
                lemma_views_push(tokens@, t);
            }
            tokens.push(t);
            assert(views(tokens@) =~= before + word_tokens(w@));
        }
        i = i + 1;
    }
    assert(wv.take(wv.len() as int) == wv);
    let ghost all = tokens@;
    tokens.truncate(256);
    assert(views(tokens@) =~= truncated(views(all), 256));
    tokens
}

/// `a` followed by the elements of `b` that are not already present,
/// in order.
pub open spec fn merge_new(a: Seq<Seq<char>>, b: Seq<Seq<char>>) -> Seq<Seq<char>>
    decreases b.len(),
{
    if b.len() == 0 {
        a
    } else {
        let m = merge_new(a, b.drop_last());
        if m.contains(b.last()) {
            m
        } else {
            m.push(b.last())
        }
    }
}

/// Whether one of `list` equals `s`.
fn contains_string(list: &Vec<String>, s: &String) -> (b: bool)
    ensures
        b == views(list@).contains(s@),
{
    let mut i: usize = 0;
    while i < list.len()
        invariant
            i <= list@.len(),
            forall|k: int| 0 <= k < i ==> list@[k]@ != s@,
        decreases list.len() - i,
    {
        if list[i] == *s {
            assert(views(list@)[i as int] == s@);
            return true;
        }
        i = i + 1;
    }
    assert forall|k: int| 0 <= k < views(list@).len() implies views(list@)[k] != s@ by {
        assert(views(list@)[k] == list@[k]@);
    }
    false
}

/// Index keys for a line: the primary tokens plus the accent-folded ones,
/// so a contents entry whose accents differ from the body heading is still
/// recalled; at most 512.
pub fn index_keys(primary: &str, secondary: &str) -> (r: Vec<String>)
    ensures
        views(r@) == truncated(merge_new(tokens_spec(primary@), tokens_spec(secondary@)), 512),
{
    let mut tokens = tokens_of(primary);
    let more = tokens_of(secondary);
    let ghost mv = views(more@);
    let ghost start = views(tokens@);
    let mut i: usize = 0;
    while i < more.len()
        invariant
            mv == views(more@),
            i <= more@.len(),
            views(tokens@) == merge_new(start, mv.take(i as int)),
        decreases more.len() - i,
    {
        assert(mv.take(i + 1 as int).drop_last() == mv.take(i as int));
        assert(mv.take(i + 1 as int).last() == more@[i as int]@);
        let t = more[i].clone();
        if !contains_string(&tokens, &t) {
            proof {
                lemma_views_push(tokens@, t);
            }
            tokens.push(t);
        }
        i = i + 1;
    }
    assert(mv.take(mv.len() as int) == mv);
    let ghost all = tokens@;
    tokens.truncate(512);
    assert(views(tokens@) =~= truncated(views(all), 512));
    tokens
}

/// The trimmed word texts that are not empty, in order.
pub open spec fn nonempty_words(words: Seq<Seq<char>>) -> Seq<Seq<char>>
    decreases words.len(),
{
    if words.len() == 0 {
        Seq::empty()
    } else {
        let rest = nonempty_words(words.drop_last());
        let w = trim_ws(words.last());
        if w.len() == 0 {
            rest
        } else {
            rest.push(w)
        }
    }
}

/// The text of an evidence line: its words, trimmed, the empty ones left
/// out, joined with single spaces.
pub fn join_words(words: &[String]) -> (r: String)
    ensures
        r@ == join_space(nonempty_words(views(words@))),
{
    let mut kept: Vec<Vec<char>> = Vec::new();
    let mut i: usize = 0;
    while i < words.len()
        invariant
            i <= words@.len(),
            kept.deep_view() == nonempty_words(views(words@).take(i as int)),
        decreases words.len() - i,
    {
        let chars = chars_of(words[i].as_str());
        let w = trimmed(chars.as_slice());
        assert(views(words@).take(i + 1 as int).drop_last() =~= views(words@).take(i as int));
        if w.len() > 0 {
            let ghost before = kept.deep_view();
            let ghost wv = w@;
            assert(w.deep_view() =~= w@);
            kept.push(w);
            assert(kept.deep_view() =~= before.push(wv));
        }
        i = i + 1;
    }
    assert(views(words@).take(words@.len() as int) =~= views(words@));
    let joined = join_with_space(&kept);
    string_of(joined.as_slice())
}

/// Whether some reading-order value occurs twice.
pub open spec fn repeats(orders: Seq<u32>) -> bool {
    exists|i: int, j: int| 0 <= i < j < orders.len() && orders[i] == orders[j]
}

/// Whether the lines of a page repeat a reading-order value, which makes
/// the page's reading order a degraded signal.
pub fn degraded_order(orders: &[u32]) -> (b: bool)
    ensures
        b == repeats(orders@),
{
    let mut j: usize = 0;
    while j < orders.len()
        invariant
            j <= orders@.len(),
            forall|a: int, b: int| 0 <= a < b < j ==> #[trigger] orders@[a] != #[trigger] orders@[b],
        decreases orders.len() - j,
    {
        let mut i: usize = 0;
        while i < j
            invariant
                i <= j < orders@.len(),
                forall|k: int| 0 <= k < i ==> orders@[k] != orders@[j as int],
            decreases j - i,
        {
            if orders[i] == orders[j] {
                assert(orders@[i as int] == orders@[j as int]);
                return true;
            }
            i = i + 1;
        }
        j = j + 1;
    }
    false
}

/// Why OCR evidence cannot be bound one-to-one to the package pages, if it
/// cannot: incomplete coverage, then the first page that repeats an earlier
/// page index or names no package page.
pub open spec fn ocr_binding_fault(complete: bool, ocr_pages: Seq<u32>, physical: Seq<u32>) -> Option<Seq<char>> {
    if !complete {
        Some("OCR evidence does not cover every page"@)
    } else {
        ocr_page_fault(ocr_pages, physical, ocr_pages.len() as int)
    }
}

pub open spec fn ocr_page_fault(ocr_pages: Seq<u32>, physical: Seq<u32>, n: int) -> Option<Seq<char>>
    decreases n,
{
    if n <= 0 {
        None
    } else {
        match ocr_page_fault(ocr_pages, physical, n - 1) {
            Some(m) => Some(m),
            None => if ocr_pages.take(n - 1).contains(ocr_pages[n - 1]) {
                Some("OCR evidence has a duplicate page index"@)
            } else if !physical.contains(ocr_pages[n - 1]) {
                Some("OCR page index is out of range for the package"@)
            } else {
                None
            },
        }
    }
}

fn contains_u32(v: &[u32], n: usize, x: u32) -> (b: bool)
    requires
        n <= v@.len(),
    ensures
        b == v@.take(n as int).contains(x),
{
    let mut i: usize = 0;
    while i < n
        invariant
            i <= n <= v@.len(),
            forall|k: int| 0 <= k < i ==> v@[k] != x,
        decreases n - i,
    {
        if v[i] == x {
            assert(v@.take(n as int)[i as int] == x);
            return true;
        }
        i = i + 1;
    }
    proof {
        if v@.take(n as int).contains(x) {
            let k = choose|k: int| 0 <= k < n && v@.take(n as int)[k] == x;
            assert(v@[k] == x);
        }
    }
    false
}

proof fn lemma_ocr_fault_sticks(ocr_pages: Seq<u32>, physical: Seq<u32>, n: int, m: int)
    requires
        0 <= n <= m,
        ocr_page_fault(ocr_pages, physical, n) is Some,
    ensures
        ocr_page_fault(ocr_pages, physical, m) == ocr_page_fault(ocr_pages, physical, n),
    decreases m - n,
{
    if m > n {
        lemma_ocr_fault_sticks(ocr_pages, physical, n, m - 1);
    }
}

/// Binds OCR page evidence strictly one-to-one to the package pages:
/// `complete` says whether the OCR run covers the package's page count,
/// `ocr_pages` are the page indices of its pages and `physical` the
/// physical indices of the package pages.
pub fn bind_ocr_to_package(complete: bool, ocr_pages: &[u32], physical: &[u32]) -> (r: Result<()>)
    ensures
        match ocr_binding_fault(complete, ocr_pages@, physical@) {
            Some(m) => r matches Err(CoreError::InvalidDocument(e)) && e@ == m,
            None => r is Ok,
        },
{
    if !complete {
        return Err(CoreError::InvalidDocument("OCR evidence does not cover every page".to_owned()));
    }
    let mut i: usize = 0;
    while i < ocr_pages.len()
        invariant
            complete,
            i <= ocr_pages@.len(),
            ocr_page_fault(ocr_pages@, physical@, i as int) is None,
        decreases ocr_pages.len() - i,
    {
        let p = ocr_pages[i];
        if contains_u32(ocr_pages, i, p) {
            proof {
                assert(ocr_page_fault(ocr_pages@, physical@, i + 1) == Some(
                    "OCR evidence has a duplicate page index"@,
                ));
                lemma_ocr_fault_sticks(ocr_pages@, physical@, i + 1, ocr_pages@.len() as int);
                assert(ocr_binding_fault(complete, ocr_pages@, physical@) == Some(
                    "OCR evidence has a duplicate page index"@,
                ));
            }
            return Err(CoreError::InvalidDocument("OCR evidence has a duplicate page index".to_owned()));
        }
        if !contains_u32(physical, physical.len(), p) {
            proof {
                assert(physical@.take(physical@.len() as int) =~= physical@);
                assert(ocr_page_fault(ocr_pages@, physical@, i + 1) == Some(
                    "OCR page index is out of range for the package"@,
                ));
                lemma_ocr_fault_sticks(ocr_pages@, physical@, i + 1, ocr_pages@.len() as int);
            }
            return Err(CoreError::InvalidDocument("OCR page index is out of range for the package".to_owned()));
        }
        assert(physical@.take(physical@.len() as int) =~= physical@);
        i = i + 1;
    }
    Ok(())
}

} // verus!
