//! The text chunks of a derived document: one per line with text, named by
//! a stable ID over the page, the line and the text, ordered by page index
//! and structural path.

use vstd::prelude::*;

use crate::derived::{chunk_text, stable_id, stable_seed};
use crate::digest::{hex_of, sha256};
use crate::sorting::{key_of, key_view, key_views, stable_order, stable_order_spec, KeyView, SortKey};
use crate::text::{concat, join_space, views};

verus! {

/// A line as chunking reads it: its ID, its structural path and the
/// effective normalized text of each of its words.
#[derive(Debug, Clone)]
pub struct ChunkLine {
    pub id: String,
    pub structural_path: String,
    pub words: Vec<String>,
}

/// A page with the lines of its blocks, in order.
#[derive(Debug, Clone)]
pub struct ChunkPage {
    pub page_id: String,
    pub page_index: u32,
    pub lines: Vec<ChunkLine>,
}

/// A chunk made from line `line` of page `page` (positions in the input).
#[derive(Debug)]
pub struct ChunkDraft {
    pub id: String,
    pub page: usize,
    pub line: usize,
    pub page_index: u32,
    pub text: String,
    pub structural_path: String,
}

/// A chunk as made: ID, page, line, page index, text and structural path.
pub type ChunkView = (Seq<char>, int, int, u32, Seq<char>, Seq<char>);

/// The text of line `l` of page `p`.
pub open spec fn line_text(pages: Seq<ChunkPage>, p: int, l: int) -> Seq<char> {
    join_space(views(pages[p].lines@[l].words@))
}

/// `chunk-` and the first 24 hex digits of the SHA-256 of `chunk`, the
/// page ID, the line ID and the text, separated by NUL characters.
pub open spec fn chunk_id_spec(page_id: Seq<char>, line_id: Seq<char>, text: Seq<char>) -> Seq<char> {
    "chunk"@ + "-"@ + hex_of(
        sha256(vstd::utf8::encode_utf8(stable_seed("chunk"@, seq![page_id, line_id, text]))),
    ).take(24)
}

/// The chunks of line `l` of page `p`: none when its text is empty.
pub open spec fn line_chunks(pages: Seq<ChunkPage>, p: int, l: int) -> Seq<ChunkView> {
    let line = pages[p].lines@[l];
    let text = line_text(pages, p, l);
    if text.len() == 0 {
        seq![]
    } else {
        seq![(chunk_id_spec(pages[p].page_id@, line.id@, text), p, l, pages[p].page_index, text, line.structural_path@ + ".chunk"@)]
    }
}

pub open spec fn page_chunks(pages: Seq<ChunkPage>, p: int, m: int) -> Seq<ChunkView>
    decreases m,
{
    if m <= 0 {
        seq![]
    } else {
        page_chunks(pages, p, m - 1) + line_chunks(pages, p, m - 1)
    }
}

/// The chunks of the first `n` pages, in document order.
pub open spec fn doc_chunks(pages: Seq<ChunkPage>, n: int) -> Seq<ChunkView>
    decreases n,
{
    if n <= 0 {
        seq![]
    } else {
        doc_chunks(pages, n - 1) + page_chunks(pages, n - 1, pages[n - 1].lines@.len() as int)
    }
}

pub open spec fn chunk_keys(c: Seq<ChunkView>) -> Seq<KeyView> {
    c.map_values(|v: ChunkView| (seq![v.3 as int], seq![v.5]))
}

pub open spec fn draft_view(d: ChunkDraft) -> ChunkView {
    (d.id@, d.page as int, d.line as int, d.page_index, d.text@, d.structural_path@)
}

pub open spec fn draft_views(d: Seq<ChunkDraft>) -> Seq<ChunkView> {
    d.map_values(|x: ChunkDraft| draft_view(x))
}

fn line_chunk(pages: &[ChunkPage], p: usize, l: usize) -> (r: Option<ChunkDraft>)
    requires
        p < pages@.len(),
        l < pages@[p as int].lines@.len(),
    ensures
        match r {
            Some(d) => line_chunks(pages@, p as int, l as int) == seq![draft_view(d)],
            None => line_chunks(pages@, p as int, l as int) == Seq::<ChunkView>::empty(),
        },
{
    let page = &pages[p];
    let line = &page.lines[l];
    let text = chunk_text(line.words.as_slice());
    if text.as_str().unicode_len() == 0 {
        return None;
    }
    let parts: [&str; 3] = [page.page_id.as_str(), line.id.as_str(), text.as_str()];
    let id = stable_id("chunk", &parts);
    proof {
        assert(parts@.map_values(|s: &str| s@) =~= seq![page.page_id@, line.id@, text@]);
    }
    let path = concat(line.structural_path.as_str(), ".chunk");
    Some(ChunkDraft { id, page: p, line: l, page_index: page.page_index, text, structural_path: path })
}

fn copy_draft(d: &ChunkDraft) -> (c: ChunkDraft)
    ensures
        draft_view(c) == draft_view(*d),
{
    ChunkDraft {
        id: d.id.clone(),
        page: d.page,
        line: d.line,
        page_index: d.page_index,
        text: d.text.clone(),
        structural_path: d.structural_path.clone(),
    }
}

/// The chunks of a document: one per line whose words, joined with single
/// spaces, are not empty, ordered by page index and structural path, lines
/// with equal keys in document order.
pub fn rebuild_chunks(pages: &[ChunkPage]) -> (r: Vec<ChunkDraft>)
    ensures
        r@.len() == doc_chunks(pages@, pages@.len() as int).len(),
        forall|i: int|
            0 <= i < r@.len() ==> draft_view(#[trigger] r@[i]) == doc_chunks(pages@, pages@.len() as int)[stable_order_spec(
                chunk_keys(doc_chunks(pages@, pages@.len() as int)),
                r@.len() as int,
            )[i]],
{
    let ghost all = doc_chunks(pages@, pages@.len() as int);
    let mut drafts: Vec<ChunkDraft> = Vec::new();
    let mut p: usize = 0;
    while p < pages.len()
        invariant
            p <= pages@.len(),
            draft_views(drafts@) == doc_chunks(pages@, p as int),
        decreases pages.len() - p,
    {
        let ghost head = draft_views(drafts@);
        let mut l: usize = 0;
        while l < pages[p].lines.len()
            invariant
                p < pages@.len(),
                l <= pages@[p as int].lines@.len(),
                draft_views(drafts@) == head + page_chunks(pages@, p as int, l as int),
            decreases pages@[p as int].lines@.len() - l,
        {
            let ghost before = draft_views(drafts@);
            match line_chunk(pages, p, l) {
                Some(d) => {
                    let ghost dv = draft_view(d);
                    drafts.push(d);
                    assert(draft_views(drafts@) =~= before.push(dv));
                },
                None => {},
            }
            l = l + 1;
            assert(draft_views(drafts@) =~= head + page_chunks(pages@, p as int, l as int));
        }
        p = p + 1;
        assert(draft_views(drafts@) =~= doc_chunks(pages@, p as int));
    }
    let mut keys: Vec<SortKey> = Vec::new();
    let mut j: usize = 0;
    while j < drafts.len()
        invariant
            draft_views(drafts@) == all,
            j <= drafts@.len(),
            keys@.len() == j,
            forall|i: int| 0 <= i < j ==> key_view(#[trigger] keys@[i]) == (seq![drafts@[i].page_index as int], seq![drafts@[i].structural_path@]),
        decreases drafts.len() - j,
    {
        keys.push(key_of(drafts[j].page_index as i64, drafts[j].structural_path.as_str()));
        j = j + 1;
    }
    assert forall|i: int| 0 <= i < all.len() implies #[trigger] key_views(keys@)[i] == chunk_keys(all)[i] by {
        assert(draft_views(drafts@)[i] == draft_view(drafts@[i]));
    }
    assert(key_views(keys@) =~= chunk_keys(all));
    let order = stable_order(keys.as_slice());
    proof {
        crate::sorting::lemma_stable_order(chunk_keys(all), all.len() as int);
    }
    let mut out: Vec<ChunkDraft> = Vec::new();
    let mut i: usize = 0;
    while i < order.len()
        invariant
            order@.len() == all.len(),
            draft_views(drafts@) == all,
            forall|t: int| 0 <= t < order@.len() ==> order@[t] as int == #[trigger] stable_order_spec(
                chunk_keys(all),
                all.len() as int,
            )[t],
            forall|t: int| 0 <= t < all.len() ==> 0 <= #[trigger] stable_order_spec(chunk_keys(all), all.len() as int)[t]
                < all.len(),
            i <= order@.len(),
            out@.len() == i,
            forall|t: int|
                0 <= t < i ==> draft_view(#[trigger] out@[t]) == all[stable_order_spec(chunk_keys(all), all.len() as int)[t]],
        decreases order.len() - i,
    {
        assert(0 <= stable_order_spec(chunk_keys(all), all.len() as int)[i as int] < all.len());
        let k = order[i];
        assert(draft_views(drafts@)[k as int] == draft_view(drafts@[k as int]));
        let c = copy_draft(&drafts[k]);
        out.push(c);
        i = i + 1;
    }
    out
}

} // verus!
