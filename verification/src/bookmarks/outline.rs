//! Bookmarks taken from an outline the source document already carries.
//!
//! Every outline item is checked (its target page resolves, its title is
//! not blank and fits, its level is within the schema) and becomes an
//! automatically confirmed candidate whose parent is the nearest earlier
//! item at a shallower level.

use vstd::prelude::*;

use super::hierarchy::{lemma_nearest_props, nearest_shallower, parents};
use super::review::{copy_opt, opt_chars};
use super::ids::{bookmark_id, outline_seed, stable_outline_id};
use super::model::MAX_TITLE_BYTES;
use crate::derived::OutlineEvidenceRef;
use crate::error::{CoreError, Result};
use crate::text::{chars_of, str_eq, trim_ws, trimmed, utf8_len, utf8_len_at_most};

verus! {

/// One page of the package, in package order, with the outline items that
/// were recorded on it.
#[derive(Debug, Clone)]
pub struct OutlinePage {
    pub page_id: String,
    pub outline: Vec<OutlineEvidenceRef>,
}

/// A candidate made from one outline item: the item is the `ordinal`-th of
/// page `page`, its target is page `target`, both positions in the page
/// list.
#[derive(Debug, Clone)]
pub struct OutlineCandidate {
    pub candidate_id: String,
    pub page: usize,
    pub ordinal: u32,
    pub target: usize,
    pub parent_id: Option<String>,
}

/// The outline items of all pages in reading order, as (page, ordinal).
pub open spec fn outline_items(pages: Seq<OutlinePage>) -> Seq<(int, int)>
    decreases pages.len(),
{
    if pages.len() == 0 {
        Seq::empty()
    } else {
        let last = pages.len() - 1;
        outline_items(pages.drop_last()) + Seq::new(pages.last().outline@.len(), |k: int| (last, k))
    }
}

/// The position of the first of the first `n` pages with this ID.
pub open spec fn first_page(pages: Seq<OutlinePage>, id: Seq<char>, n: int) -> Option<int>
    decreases n,
{
    if n <= 0 {
        None
    } else {
        match first_page(pages, id, n - 1) {
            Some(q) => Some(q),
            None => if pages[n - 1].page_id@ == id {
                Some(n - 1)
            } else {
                None
            },
        }
    }
}

/// The page an item points at: its own target, or the page it is on.
pub open spec fn target_id(pages: Seq<OutlinePage>, item: (int, int)) -> Seq<char> {
    match pages[item.0].outline@[item.1].target_page_id {
        Some(t) => t@,
        None => pages[item.0].page_id@,
    }
}

/// The page position an item resolves to.
pub open spec fn target_of(pages: Seq<OutlinePage>, item: (int, int)) -> Option<int> {
    first_page(pages, target_id(pages, item), pages.len() as int)
}

/// Why an outline item cannot become a bookmark, if it cannot.
pub open spec fn item_fault(pages: Seq<OutlinePage>, item: (int, int)) -> Option<Seq<char>> {
    let e = pages[item.0].outline@[item.1];
    if target_of(pages, item) is None {
        Some("outline target page is unresolved"@)
    } else if trim_ws(e.title@).len() == 0 {
        Some("outline title is empty"@)
    } else if utf8_len(e.title@) > MAX_TITLE_BYTES {
        Some("outline title exceeds its byte limit"@)
    } else if e.level > 64 {
        Some("outline level exceeds the schema limit"@)
    } else {
        None
    }
}

/// The first of the first `n` items that cannot become a bookmark.
pub open spec fn first_fault(pages: Seq<OutlinePage>, n: int) -> Option<Seq<char>>
    decreases n,
{
    if n <= 0 {
        None
    } else {
        match first_fault(pages, n - 1) {
            Some(m) => Some(m),
            None => item_fault(pages, outline_items(pages)[n - 1]),
        }
    }
}

/// The stable ID of an item's bookmark.
pub open spec fn item_id(pages: Seq<OutlinePage>, source_digest: Seq<char>, item: (int, int)) -> Seq<char> {
    let e = pages[item.0].outline@[item.1];
    bookmark_id(
        outline_seed(
            source_digest,
            pages[item.0].page_id@,
            item.1 as u32,
            pages[target_of(pages, item)->0].page_id@,
            e.title@,
        ),
    )
}

/// The levels of all items, in reading order.
pub open spec fn item_levels(pages: Seq<OutlinePage>) -> Seq<u16> {
    outline_items(pages).map_values(|it: (int, int)| pages[it.0].outline@[it.1].level)
}

/// The ID of an item's parent: the nearest earlier item at a shallower
/// level.
pub open spec fn item_parent(pages: Seq<OutlinePage>, source_digest: Seq<char>, i: int) -> Option<Seq<char>> {
    let all = outline_items(pages);
    match nearest_shallower(item_levels(pages), Seq::new(all.len(), |k: int| true), item_levels(pages)[i], i) {
        Some(q) => Some(item_id(pages, source_digest, all[q])),
        None => None,
    }
}

/// Candidate `i` is made from item `i`, in reading order, with the item's
/// position, its resolved target, its stable ID and its parent.
pub open spec fn candidates_match(pages: Seq<OutlinePage>, source_digest: Seq<char>, v: Seq<OutlineCandidate>) -> bool {
    &&& v.len() == outline_items(pages).len()
    &&& forall|i: int|
        0 <= i < v.len() ==> {
            let it = outline_items(pages)[i];
            &&& #[trigger] v[i].page == it.0
            &&& v[i].ordinal == it.1
            &&& Some(v[i].target as int) == target_of(pages, it)
            &&& v[i].candidate_id@ == item_id(pages, source_digest, it)
            &&& opt_chars(v[i].parent_id) == item_parent(pages, source_digest, i)
        }
}

pub(crate) proof fn lemma_items_shape(pages: Seq<OutlinePage>)
    ensures
        forall|i: int|
            0 <= i < outline_items(pages).len() ==> {
                let it = #[trigger] outline_items(pages)[i];
                0 <= it.0 < pages.len() && 0 <= it.1 < pages[it.0].outline@.len()
            },
    decreases pages.len(),
{
    if pages.len() > 0 {
        lemma_items_shape(pages.drop_last());
        let prev = outline_items(pages.drop_last());
        assert forall|i: int| 0 <= i < outline_items(pages).len() implies {
            let it = #[trigger] outline_items(pages)[i];
            0 <= it.0 < pages.len() && 0 <= it.1 < pages[it.0].outline@.len()
        } by {
            if i < prev.len() {
                assert(outline_items(pages)[i] == prev[i]);
                assert(pages.drop_last()[prev[i].0] == pages[prev[i].0]);
            }
        }
    }
}

proof fn lemma_items_prefix(pages: Seq<OutlinePage>, p: int)
    requires
        0 <= p < pages.len(),
    ensures
        outline_items(pages.take(p + 1)) == outline_items(pages.take(p)) + Seq::new(
            pages[p].outline@.len(),
            |k: int| (p, k),
        ),
{
    assert(pages.take(p + 1).drop_last() =~= pages.take(p));
}

proof fn lemma_items_of_prefix(pages: Seq<OutlinePage>, p: int)
    requires
        0 <= p <= pages.len(),
    ensures
        outline_items(pages.take(p)).len() <= outline_items(pages).len(),
        forall|i: int|
            0 <= i < outline_items(pages.take(p)).len() ==> #[trigger] outline_items(pages.take(p))[i]
                == outline_items(pages)[i],
    decreases pages.len() - p,
{
    if p < pages.len() {
        lemma_items_of_prefix(pages, p + 1);
        lemma_items_prefix(pages, p);
        assert forall|i: int| 0 <= i < outline_items(pages.take(p)).len() implies #[trigger] outline_items(
            pages.take(p),
        )[i] == outline_items(pages)[i] by {
            assert(outline_items(pages.take(p + 1))[i] == outline_items(pages.take(p))[i]);
        }
    } else {
        assert(pages.take(p) =~= pages);
    }
}

proof fn lemma_first_fault_none(pages: Seq<OutlinePage>, n: int)
    requires
        0 <= n <= outline_items(pages).len(),
        forall|j: int| 0 <= j < n ==> item_fault(pages, #[trigger] outline_items(pages)[j]) is None,
    ensures
        first_fault(pages, n) is None,
    decreases n,
{
    if n > 0 {
        lemma_first_fault_none(pages, n - 1);
    }
}

proof fn lemma_first_fault_at(pages: Seq<OutlinePage>, i: int, n: int)
    requires
        0 <= i < n <= outline_items(pages).len(),
        forall|j: int| 0 <= j < i ==> item_fault(pages, #[trigger] outline_items(pages)[j]) is None,
        item_fault(pages, outline_items(pages)[i]) is Some,
    ensures
        first_fault(pages, n) == item_fault(pages, outline_items(pages)[i]),
    decreases n,
{
    if n > i + 1 {
        lemma_first_fault_at(pages, i, n - 1);
    } else {
        lemma_first_fault_none(pages, i);
    }
}

proof fn lemma_first_page_sticks(pages: Seq<OutlinePage>, id: Seq<char>, n: int, m: int)
    requires
        0 <= n <= m,
        first_page(pages, id, n) is Some,
    ensures
        first_page(pages, id, m) == first_page(pages, id, n),
    decreases m - n,
{
    if m > n {
        lemma_first_page_sticks(pages, id, n, m - 1);
    }
}

pub(crate) proof fn lemma_first_page_props(pages: Seq<OutlinePage>, id: Seq<char>, n: int)
    requires
        0 <= n <= pages.len(),
    ensures
        first_page(pages, id, n) matches Some(q) ==> 0 <= q < n && pages[q].page_id@ == id,
    decreases n,
{
    if n > 0 {
        lemma_first_page_props(pages, id, n - 1);
    }
}

/// The position of the page with this ID, if any.
fn resolve_page(pages: &[OutlinePage], id: &str) -> (r: Option<usize>)
    ensures
        match first_page(pages@, id@, pages@.len() as int) {
            Some(q) => r == Some(q as usize),
            None => r is None,
        },
{
    let mut i: usize = 0;
    while i < pages.len()
        invariant
            i <= pages@.len(),
            first_page(pages@, id@, i as int) is None,
        decreases pages.len() - i,
    {
        if str_eq(pages[i].page_id.as_str(), id) {
            proof {
                lemma_first_page_sticks(pages@, id@, i + 1, pages@.len() as int);
            }
            return Some(i);
        }
        i = i + 1;
    }
    None
}

/// Turns the outline already present in the package into automatically
/// confirmed candidates, in reading order. The first item that cannot be a
/// bookmark makes the whole outline an invalid document.
pub fn existing_outline_candidates(pages: &[OutlinePage], source_digest: &str) -> (r: Result<
    Vec<OutlineCandidate>,
>)
    requires
        forall|p: int| 0 <= p < pages@.len() ==> #[trigger] pages@[p].outline@.len() <= u32::MAX,
    ensures
        match first_fault(pages@, outline_items(pages@).len() as int) {
            Some(m) => r matches Err(CoreError::InvalidDocument(e)) && e@ == m,
            None => r matches Ok(v) && candidates_match(pages@, source_digest@, v@),
        },
{
    let ghost all = outline_items(pages@);
    proof {
        lemma_items_shape(pages@);
        lemma_items_of_prefix(pages@, 0);
        assert(pages@.take(0) =~= Seq::<OutlinePage>::empty());
    }
    let mut drafts: Vec<OutlineCandidate> = Vec::new();
    let mut levels: Vec<u16> = Vec::new();
    let mut ids: Vec<String> = Vec::new();
    let mut p: usize = 0;
    while p < pages.len()
        invariant
            p <= pages@.len(),
            all == outline_items(pages@),
            forall|q: int| 0 <= q < pages@.len() ==> #[trigger] pages@[q].outline@.len() <= u32::MAX,
            forall|i: int|
                0 <= i < all.len() ==> {
                    let it = #[trigger] all[i];
                    0 <= it.0 < pages@.len() && 0 <= it.1 < pages@[it.0].outline@.len()
                },
            drafts@.len() == outline_items(pages@.take(p as int)).len(),
            drafts@.len() <= all.len(),
            levels@.len() == drafts@.len(),
            ids@.len() == drafts@.len(),
            forall|i: int| 0 <= i < drafts@.len() ==> outline_items(pages@.take(p as int))[i] == #[trigger] all[i],
            forall|i: int| 0 <= i < drafts@.len() ==> item_fault(pages@, #[trigger] all[i]) is None,
            forall|i: int|
                0 <= i < drafts@.len() ==> {
                    let it = all[i];
                    &&& #[trigger] drafts@[i].page == it.0
                    &&& drafts@[i].ordinal == it.1
                    &&& Some(drafts@[i].target as int) == target_of(pages@, it)
                    &&& drafts@[i].candidate_id@ == item_id(pages@, source_digest@, it)
                    &&& ids@[i]@ == drafts@[i].candidate_id@
                    &&& levels@[i] == pages@[it.0].outline@[it.1].level
                },
        decreases pages.len() - p,
    {
        proof {
            lemma_items_prefix(pages@, p as int);
            lemma_items_of_prefix(pages@, p + 1);
        }
        let page = &pages[p];
        let ghost base = drafts@.len();
        let mut k: usize = 0;
        while k < page.outline.len()
            invariant
                p < pages@.len(),
                *page == pages@[p as int],
                page.outline@.len() <= u32::MAX,
                all == outline_items(pages@),
                forall|i: int|
                    0 <= i < all.len() ==> {
                        let it = #[trigger] all[i];
                        0 <= it.0 < pages@.len() && 0 <= it.1 < pages@[it.0].outline@.len()
                    },
                base == outline_items(pages@.take(p as int)).len(),
                outline_items(pages@.take(p + 1)) == outline_items(pages@.take(p as int)) + Seq::new(
                    pages@[p as int].outline@.len(),
                    |j: int| (p as int, j),
                ),
                outline_items(pages@.take(p + 1)).len() <= all.len(),
                forall|i: int|
                    0 <= i < outline_items(pages@.take(p + 1)).len() ==> #[trigger] outline_items(
                        pages@.take(p + 1),
                    )[i] == all[i],
                k <= page.outline@.len(),
                drafts@.len() == base + k,
                levels@.len() == drafts@.len(),
                ids@.len() == drafts@.len(),
                forall|i: int| 0 <= i < drafts@.len() ==> item_fault(pages@, #[trigger] all[i]) is None,
                forall|i: int|
                    0 <= i < drafts@.len() ==> {
                        let it = all[i];
                        &&& #[trigger] drafts@[i].page == it.0
                        &&& drafts@[i].ordinal == it.1
                        &&& Some(drafts@[i].target as int) == target_of(pages@, it)
                        &&& drafts@[i].candidate_id@ == item_id(pages@, source_digest@, it)
                        &&& ids@[i]@ == drafts@[i].candidate_id@
                        &&& levels@[i] == pages@[it.0].outline@[it.1].level
                    },
            decreases page.outline.len() - k,
        {
            let ghost idx = base + k;
            assert(outline_items(pages@.take(p + 1))[idx] == (p as int, k as int));
            assert(all[idx] == (p as int, k as int));
            let e = &page.outline[k];
            let target_name: &str = match &e.target_page_id {
                Some(t) => t.as_str(),
                None => page.page_id.as_str(),
            };
            assert(target_name@ == target_id(pages@, all[idx]));
            proof {
                lemma_first_page_props(pages@, target_name@, pages@.len() as int);
            }
            let target = match resolve_page(pages, target_name) {
                Some(t) => t,
                None => {
                    proof {
                        lemma_first_fault_at(pages@, idx, all.len() as int);
                    }
                    return Err(CoreError::InvalidDocument("outline target page is unresolved".to_owned()));
                },
            };
            let title_chars = chars_of(e.title.as_str());
            let trimmed_title = trimmed(title_chars.as_slice());
            if trimmed_title.len() == 0 {
                proof {
                    lemma_first_fault_at(pages@, idx, all.len() as int);
                }
                return Err(CoreError::InvalidDocument("outline title is empty".to_owned()));
            }
            if !utf8_len_at_most(e.title.as_str(), MAX_TITLE_BYTES) {
                proof {
                    lemma_first_fault_at(pages@, idx, all.len() as int);
                }
                return Err(CoreError::InvalidDocument("outline title exceeds its byte limit".to_owned()));
            }
            if e.level > 64 {
                proof {
                    lemma_first_fault_at(pages@, idx, all.len() as int);
                }
                return Err(CoreError::InvalidDocument("outline level exceeds the schema limit".to_owned()));
            }
            let ordinal = k as u32;
            let id = stable_outline_id(
                source_digest,
                page.page_id.as_str(),
                ordinal,
                pages[target].page_id.as_str(),
                e.title.as_str(),
            );
            levels.push(e.level);
            let copy = id.clone();
            ids.push(copy);
            drafts.push(OutlineCandidate { candidate_id: id, page: p, ordinal, target, parent_id: None });
            proof {
                assert(item_fault(pages@, all[idx]) is None);
                assert(Some(target as int) == target_of(pages@, all[idx]));
                assert(drafts@[idx].candidate_id@ == item_id(pages@, source_digest@, all[idx]));
                assert(ids@[idx]@ == drafts@[idx].candidate_id@);
                assert(levels@[idx] == pages@[all[idx].0].outline@[all[idx].1].level);
            }
            k = k + 1;
        }
        p = p + 1;
    }
    proof {
        assert(pages@.take(pages@.len() as int) =~= pages@);
        lemma_first_fault_none(pages@, all.len() as int);
        assert(drafts@.len() > 0 ==> levels@[0] == pages@[all[0].0].outline@[all[0].1].level) by {
            if drafts@.len() > 0 {
                assert(drafts@[0].page == all[0].0);
                assert(ids@[0]@ == drafts@[0].candidate_id@);
                assert(levels@[0] == pages@[all[0].0].outline@[all[0].1].level);
            }
        }
    }
    let retained: Vec<bool> = vec![true; levels.len()];
    let found = parents(levels.as_slice(), retained.as_slice(), ids.as_slice());
    let ghost lv = item_levels(pages@);
    assert forall|j: int| 0 <= j < all.len() implies levels@[j] == lv[j] && (#[trigger] ids@[j])@ == item_id(
        pages@,
        source_digest@,
        all[j],
    ) by {
        assert(drafts@.len() == all.len());
        assert(drafts@[j].page == all[j].0);
        assert(levels@[j] == pages@[all[j].0].outline@[all[j].1].level);
        assert(ids@[j]@ == item_id(pages@, source_digest@, all[j]));
    }
    assert(lv.len() == all.len());
    assert(levels@.len() == all.len());
    assert forall|j: int| 0 <= j < all.len() implies #[trigger] levels@[j] == lv[j] by {
        assert(ids@[j]@ == item_id(pages@, source_digest@, all[j]));
    }
    assert(levels@ =~= lv);
    assert(retained@ =~= Seq::new(all.len(), |k: int| true));
    let ghost ret = Seq::new(all.len(), |k: int| true);
    let mut out: Vec<OutlineCandidate> = Vec::new();
    let mut i: usize = 0;
    while i < drafts.len()
        invariant
            i <= drafts@.len(),
            drafts@.len() == all.len(),
            ids@.len() == all.len(),
            levels@ == lv,
            retained@ == ret,
            lv == item_levels(pages@),
            ret == Seq::new(all.len(), |k: int| true),
            all == outline_items(pages@),
            found@.len() == drafts@.len(),
            forall|j: int|
                0 <= j < drafts@.len() ==> {
                    let it = all[j];
                    &&& #[trigger] drafts@[j].page == it.0
                    &&& drafts@[j].ordinal == it.1
                    &&& Some(drafts@[j].target as int) == target_of(pages@, it)
                    &&& drafts@[j].candidate_id@ == item_id(pages@, source_digest@, it)
                },
            forall|j: int| 0 <= j < all.len() ==> #[trigger] found@[j] == super::hierarchy::expected_parent(lv, ret, ids@, j),
            forall|j: int| 0 <= j < all.len() ==> (#[trigger] ids@[j])@ == item_id(pages@, source_digest@, all[j]),
            out@.len() == i,
            forall|j: int|
                0 <= j < i ==> {
                    &&& #[trigger] out@[j].page == drafts@[j].page
                    &&& out@[j].ordinal == drafts@[j].ordinal
                    &&& out@[j].target == drafts@[j].target
                    &&& out@[j].candidate_id@ == drafts@[j].candidate_id@
                    &&& opt_chars(out@[j].parent_id) == item_parent(pages@, source_digest@, j)
                },
        decreases drafts.len() - i,
    {
        let d = &drafts[i];
        let parent_id = copy_opt(&found[i]);
        proof {
            lemma_nearest_props(lv, ret, lv[i as int], i as int);
            assert(found@[i as int] == super::hierarchy::expected_parent(lv, ret, ids@, i as int));
            match nearest_shallower(lv, ret, lv[i as int], i as int) {
                Some(q) => {
                    assert(ids@[q]@ == item_id(pages@, source_digest@, all[q]));
                },
                None => {},
            }
        }
        out.push(
            OutlineCandidate {
                candidate_id: d.candidate_id.clone(),
                page: d.page,
                ordinal: d.ordinal,
                target: d.target,
                parent_id,
            },
        );
        i = i + 1;
    }
    assert(first_fault(pages@, all.len() as int) is None);
    assert(out@.len() == all.len());
    assert forall|j: int| 0 <= j < out@.len() implies {
        let it = outline_items(pages@)[j];
        &&& #[trigger] out@[j].page == it.0
        &&& out@[j].ordinal == it.1
        &&& Some(out@[j].target as int) == target_of(pages@, it)
        &&& out@[j].candidate_id@ == item_id(pages@, source_digest@, it)
        &&& opt_chars(out@[j].parent_id) == item_parent(pages@, source_digest@, j)
    } by {
        assert(out@[j].page == drafts@[j].page);
    }
    assert(candidates_match(pages@, source_digest@, out@));
    Ok(out)
}

} // verus!
