//! Applying a human revision store to a derived document: which word each
//! revision edits, and when a revision cannot apply.

use vstd::prelude::*;

use crate::bookmarks::text_index::{nfc, nfc_of};
use crate::derived::{RevisionKind, RevisionRecord, RevisionStore};
use crate::error::{CoreError, Result};
use crate::text::{str_eq, string_of};

verus! {

/// A page as revisions see it: its evidence digest and the word IDs of
/// each of its lines.
#[derive(Debug, Clone)]
pub struct RevisionPage {
    pub evidence_digest: String,
    pub word_ids: Vec<Vec<String>>,
}

/// A human revision's edit of word (page, line, word): its new effective
/// text and that text in NFC.
#[derive(Debug)]
pub struct RevisionEdit {
    pub page: usize,
    pub line: usize,
    pub word: usize,
    pub text: String,
    pub normalized_text: String,
}

pub open spec fn page_refs(pages: Seq<RevisionPage>, p: int, m: int) -> Seq<(int, int, int)>
    decreases m,
{
    if m <= 0 {
        seq![]
    } else {
        page_refs(pages, p, m - 1) + Seq::new(pages[p].word_ids@[m - 1]@.len(), |w: int| (p, m - 1, w))
    }
}

/// The positions of all words, in document order.
pub open spec fn word_refs(pages: Seq<RevisionPage>, n: int) -> Seq<(int, int, int)>
    decreases n,
{
    if n <= 0 {
        seq![]
    } else {
        word_refs(pages, n - 1) + page_refs(pages, n - 1, pages[n - 1].word_ids@.len() as int)
    }
}

pub open spec fn all_refs(pages: Seq<RevisionPage>) -> Seq<(int, int, int)> {
    word_refs(pages, pages.len() as int)
}

pub open spec fn id_at(pages: Seq<RevisionPage>, r: (int, int, int)) -> Seq<char> {
    pages[r.0].word_ids@[r.1]@[r.2]@
}

/// Why revision `r` cannot apply, if it cannot: a word it targets lies on
/// a page whose evidence changed since, or no word has its target ID.
pub open spec fn revision_fault(pages: Seq<RevisionPage>, r: RevisionRecord) -> Option<Seq<char>> {
    let refs = all_refs(pages);
    if exists|k: int|
        0 <= k < refs.len() && id_at(pages, #[trigger] refs[k]) == r.target_ref@ && pages[refs[k].0].evidence_digest@
            != r.base_evidence_digest@ {
        Some("stale revision base evidence"@)
    } else if !(exists|k: int| 0 <= k < refs.len() && id_at(pages, #[trigger] refs[k]) == r.target_ref@) {
        Some("revision target does not exist"@)
    } else {
        None
    }
}

/// The last word, among the first `k` of the document, with this ID.
pub open spec fn last_match(pages: Seq<RevisionPage>, id: Seq<char>, k: int) -> Option<(int, int, int)>
    decreases k,
{
    if k <= 0 {
        None
    } else if id_at(pages, all_refs(pages)[k - 1]) == id {
        Some(all_refs(pages)[k - 1])
    } else {
        last_match(pages, id, k - 1)
    }
}

/// The edits of the first `n` revisions, which all apply: a human revision
/// edits the last word with its target ID; a suggested one edits nothing.
pub open spec fn edits_spec(pages: Seq<RevisionPage>, revisions: Seq<RevisionRecord>, n: int) -> Seq<
    ((int, int, int), Seq<char>),
>
    decreases n,
{
    if n <= 0 {
        seq![]
    } else {
        let r = revisions[n - 1];
        let before = edits_spec(pages, revisions, n - 1);
        if r.kind == RevisionKind::Human {
            before.push((last_match(pages, r.target_ref@, all_refs(pages).len() as int)->0, r.text@))
        } else {
            before
        }
    }
}

/// The first of the first `n` revisions that cannot apply.
pub open spec fn first_fault(pages: Seq<RevisionPage>, revisions: Seq<RevisionRecord>, n: int) -> Option<int>
    decreases n,
{
    if n <= 0 {
        None
    } else {
        match first_fault(pages, revisions, n - 1) {
            Some(k) => Some(k),
            None => if revision_fault(pages, revisions[n - 1]) is Some {
                Some(n - 1)
            } else {
                None
            },
        }
    }
}

pub open spec fn edit_view(e: RevisionEdit) -> ((int, int, int), Seq<char>) {
    ((e.page as int, e.line as int, e.word as int), e.text@)
}

proof fn lemma_first_fault_sticks(pages: Seq<RevisionPage>, revisions: Seq<RevisionRecord>, n: int, m: int)
    requires
        0 <= n <= m,
        first_fault(pages, revisions, n) is Some,
    ensures
        first_fault(pages, revisions, m) == first_fault(pages, revisions, n),
    decreases m - n,
{
    if m > n {
        lemma_first_fault_sticks(pages, revisions, n, m - 1);
    }
}

fn collect_refs(pages: &[RevisionPage]) -> (r: Vec<(usize, usize, usize)>)
    ensures
        r@.len() == all_refs(pages@).len(),
        forall|i: int|
            0 <= i < r@.len() ==> (#[trigger] r@[i]).0 as int == all_refs(pages@)[i].0 && r@[i].1 as int
                == all_refs(pages@)[i].1 && r@[i].2 as int == all_refs(pages@)[i].2,
        forall|i: int|
            0 <= i < r@.len() ==> (#[trigger] r@[i]).0 < pages@.len() && r@[i].1 < pages@[r@[i].0 as int].word_ids@.len()
                && r@[i].2 < pages@[r@[i].0 as int].word_ids@[r@[i].1 as int]@.len(),
{
    let mut out: Vec<(usize, usize, usize)> = Vec::new();
    let ghost mut outv: Seq<(int, int, int)> = seq![];
    let mut p: usize = 0;
    while p < pages.len()
        invariant
            p <= pages@.len(),
            outv == word_refs(pages@, p as int),
            out@.len() == outv.len(),
            forall|i: int|
                0 <= i < out@.len() ==> (#[trigger] out@[i]).0 as int == outv[i].0 && out@[i].1 as int == outv[i].1
                    && out@[i].2 as int == outv[i].2,
            forall|i: int|
                0 <= i < out@.len() ==> (#[trigger] out@[i]).0 < pages@.len() && out@[i].1 < pages@[out@[i].0 as int].word_ids@.len()
                    && out@[i].2 < pages@[out@[i].0 as int].word_ids@[out@[i].1 as int]@.len(),
        decreases pages.len() - p,
    {
        let ghost head = outv;
        let mut l: usize = 0;
        while l < pages[p].word_ids.len()
            invariant
                p < pages@.len(),
                l <= pages@[p as int].word_ids@.len(),
                outv == head + page_refs(pages@, p as int, l as int),
                out@.len() == outv.len(),
                forall|i: int|
                    0 <= i < out@.len() ==> (#[trigger] out@[i]).0 as int == outv[i].0 && out@[i].1 as int == outv[i].1
                        && out@[i].2 as int == outv[i].2,
                forall|i: int|
                    0 <= i < out@.len() ==> (#[trigger] out@[i]).0 < pages@.len() && out@[i].1 < pages@[out@[i].0 as int].word_ids@.len()
                        && out@[i].2 < pages@[out@[i].0 as int].word_ids@[out@[i].1 as int]@.len(),
            decreases pages@[p as int].word_ids@.len() - l,
        {
            let ghost line_head = outv;
            let mut w: usize = 0;
            while w < pages[p].word_ids[l].len()
                invariant
                    p < pages@.len(),
                    l < pages@[p as int].word_ids@.len(),
                    w <= pages@[p as int].word_ids@[l as int]@.len(),
                    outv == line_head + Seq::new(w as nat, |k: int| (p as int, l as int, k)),
                    out@.len() == outv.len(),
                    forall|i: int|
                        0 <= i < out@.len() ==> (#[trigger] out@[i]).0 as int == outv[i].0 && out@[i].1 as int
                            == outv[i].1 && out@[i].2 as int == outv[i].2,
                    forall|i: int|
                        0 <= i < out@.len() ==> (#[trigger] out@[i]).0 < pages@.len() && out@[i].1
                            < pages@[out@[i].0 as int].word_ids@.len() && out@[i].2
                            < pages@[out@[i].0 as int].word_ids@[out@[i].1 as int]@.len(),
                decreases pages@[p as int].word_ids@[l as int]@.len() - w,
            {
                out.push((p, l, w));
                proof {
                    outv = outv.push((p as int, l as int, w as int));
                }
                w = w + 1;
                assert(outv =~= line_head + Seq::new(w as nat, |k: int| (p as int, l as int, k)));
            }
            l = l + 1;
            assert(outv =~= head + page_refs(pages@, p as int, l as int));
        }
        p = p + 1;
        assert(outv =~= word_refs(pages@, p as int));
    }
    out
}

/// Applies one revision's lookup: the last word with its target ID, or the
/// reason it cannot apply.
fn locate(pages: &[RevisionPage], refs: &Vec<(usize, usize, usize)>, r: &RevisionRecord) -> (res: Result<(usize, usize, usize)>)
    requires
        refs@.len() == all_refs(pages@).len(),
        forall|i: int|
            0 <= i < refs@.len() ==> (#[trigger] refs@[i]).0 as int == all_refs(pages@)[i].0 && refs@[i].1 as int
                == all_refs(pages@)[i].1 && refs@[i].2 as int == all_refs(pages@)[i].2,
        forall|i: int|
            0 <= i < refs@.len() ==> (#[trigger] refs@[i]).0 < pages@.len() && refs@[i].1 < pages@[refs@[i].0 as int].word_ids@.len()
                && refs@[i].2 < pages@[refs@[i].0 as int].word_ids@[refs@[i].1 as int]@.len(),
    ensures
        match revision_fault(pages@, *r) {
            Some(m) => res matches Err(CoreError::InvalidDocument(e)) && e@ == m,
            None => res matches Ok(t) && last_match(pages@, r.target_ref@, all_refs(pages@).len() as int) == Some(
                (t.0 as int, t.1 as int, t.2 as int),
            ),
        },
        res matches Ok(t) ==> t.0 < pages@.len() && t.1 < pages@[t.0 as int].word_ids@.len() && t.2
            < pages@[t.0 as int].word_ids@[t.1 as int]@.len(),
{
    let ghost refs_s = all_refs(pages@);
    let mut found: Option<(usize, usize, usize)> = None;
    let mut k: usize = 0;
    while k < refs.len()
        invariant
            refs_s == all_refs(pages@),
            refs@.len() == refs_s.len(),
            forall|i: int|
                0 <= i < refs@.len() ==> (#[trigger] refs@[i]).0 as int == refs_s[i].0 && refs@[i].1 as int
                    == refs_s[i].1 && refs@[i].2 as int == refs_s[i].2,
            forall|i: int|
                0 <= i < refs@.len() ==> (#[trigger] refs@[i]).0 < pages@.len() && refs@[i].1
                    < pages@[refs@[i].0 as int].word_ids@.len() && refs@[i].2
                    < pages@[refs@[i].0 as int].word_ids@[refs@[i].1 as int]@.len(),
            k <= refs@.len(),
            forall|i: int|
                0 <= i < k && id_at(pages@, #[trigger] refs_s[i]) == r.target_ref@ ==> pages@[refs_s[i].0].evidence_digest@
                    == r.base_evidence_digest@,
            match last_match(pages@, r.target_ref@, k as int) {
                Some(t) => found matches Some(f) && t == (f.0 as int, f.1 as int, f.2 as int),
                None => found is None,
            },
            found matches Some(f) ==> f.0 < pages@.len() && f.1 < pages@[f.0 as int].word_ids@.len() && f.2
                < pages@[f.0 as int].word_ids@[f.1 as int]@.len(),
            found is None <==> forall|i: int| 0 <= i < k ==> id_at(pages@, #[trigger] refs_s[i]) != r.target_ref@,
        decreases refs.len() - k,
    {
        let (a, b, c) = refs[k];
        assert(refs_s[k as int] == (a as int, b as int, c as int));
        if str_eq(pages[a].word_ids[b][c].as_str(), r.target_ref.as_str()) {
            if !str_eq(pages[a].evidence_digest.as_str(), r.base_evidence_digest.as_str()) {
                assert(id_at(pages@, refs_s[k as int]) == r.target_ref@);
                return Err(CoreError::InvalidDocument("stale revision base evidence".to_owned()));
            }
            found = Some((a, b, c));
        }
        k = k + 1;
    }
    match found {
        Some(t) => Ok(t),
        None => Err(CoreError::InvalidDocument("revision target does not exist".to_owned())),
    }
}

/// The edits a revision store makes to a document, in order. The store is
/// validated first. A revision that cannot apply ends the run with its
/// error; the edits of the revisions before it are returned with it, as
/// they have already been made when it fails.
pub fn revision_edits(pages: &[RevisionPage], store: &RevisionStore) -> (r: (Vec<RevisionEdit>, Result<()>))
    ensures
        !store.valid() ==> r.0@.len() == 0 && r.1 is Err,
        store.valid() ==> match first_fault(pages@, store.revisions@, store.revisions@.len() as int) {
            Some(k) => {
                &&& r.0@.map_values(|e: RevisionEdit| edit_view(e)) == edits_spec(pages@, store.revisions@, k)
                &&& r.1 matches Err(CoreError::InvalidDocument(m)) && Some(m@) == revision_fault(pages@, store.revisions@[k])
            },
            None => r.0@.map_values(|e: RevisionEdit| edit_view(e)) == edits_spec(
                pages@,
                store.revisions@,
                store.revisions@.len() as int,
            ) && r.1 is Ok,
        },
        forall|i: int| 0 <= i < r.0@.len() ==> (#[trigger] r.0@[i]).normalized_text@ == nfc(r.0@[i].text@),
{
    let mut edits: Vec<RevisionEdit> = Vec::new();
    match store.validate() {
        Err(e) => return (edits, Err(e)),
        Ok(()) => {},
    }
    let refs = collect_refs(pages);
    let revisions = &store.revisions;
    let mut i: usize = 0;
    while i < revisions.len()
        invariant
            store.valid(),
            *revisions == store.revisions,
            refs@.len() == all_refs(pages@).len(),
            forall|t: int|
                0 <= t < refs@.len() ==> (#[trigger] refs@[t]).0 as int == all_refs(pages@)[t].0 && refs@[t].1 as int
                    == all_refs(pages@)[t].1 && refs@[t].2 as int == all_refs(pages@)[t].2,
            forall|t: int|
                0 <= t < refs@.len() ==> (#[trigger] refs@[t]).0 < pages@.len() && refs@[t].1
                    < pages@[refs@[t].0 as int].word_ids@.len() && refs@[t].2
                    < pages@[refs@[t].0 as int].word_ids@[refs@[t].1 as int]@.len(),
            i <= revisions@.len(),
            first_fault(pages@, revisions@, i as int) is None,
            edits@.map_values(|e: RevisionEdit| edit_view(e)) == edits_spec(pages@, revisions@, i as int),
            forall|t: int| 0 <= t < edits@.len() ==> (#[trigger] edits@[t]).normalized_text@ == nfc(edits@[t].text@),
        decreases revisions.len() - i,
    {
        let r = &revisions[i];
        match locate(pages, &refs, r) {
            Err(e) => {
                proof {
                    lemma_first_fault_sticks(pages@, revisions@, i + 1, revisions@.len() as int);
                }
                return (edits, Err(e));
            },
            Ok((a, b, c)) => {
                let ghost before = edits@.map_values(|e: RevisionEdit| edit_view(e));
                if r.kind == RevisionKind::Human {
                    let normalized = nfc_of(r.text.as_str());
                    let e = RevisionEdit {
                        page: a,
                        line: b,
                        word: c,
                        text: r.text.clone(),
                        normalized_text: string_of(normalized.as_slice()),
                    };
                    let ghost ev = edit_view(e);
                    edits.push(e);
                    assert(edits@.map_values(|e: RevisionEdit| edit_view(e)) =~= before.push(ev));
                }
            },
        }
        i = i + 1;
    }
    (edits, Ok(()))
}

} // verus!
