//! Running headers and footers: a short line repeated in the top or bottom
//! band of many pages is negative evidence for a heading.

use vstd::prelude::*;

use super::config::AutoBookmarkConfig;
use crate::text::{chars_of, list_contains, str_eq, views};

verus! {

/// A line as the furniture detection reads it: its match key and where its
/// top edge lies on the page, in permille of the page height.
#[derive(Debug, Clone)]
pub struct FurnitureLine {
    pub primary_key: String,
    pub top_permille: u32,
}

/// The lines of one page, in order.
#[derive(Debug, Clone)]
pub struct FurniturePage {
    pub page_index: u32,
    pub lines: Vec<FurnitureLine>,
}

/// A line that can count as furniture: a non-empty key of at most 80
/// characters, in the top or the bottom band.
pub open spec fn in_band(l: FurnitureLine, band_percent: u32) -> bool {
    &&& l.primary_key@.len() > 0
    &&& l.primary_key@.len() <= 80
    &&& (l.top_permille <= band_percent * 10 || l.top_permille + band_percent * 10 >= 1000)
}

/// Whether a page shows `key` as a furniture line.
pub open spec fn page_shows(page: FurniturePage, key: Seq<char>, band_percent: u32) -> bool {
    exists|j: int| 0 <= j < page.lines@.len() && in_band(#[trigger] page.lines@[j], band_percent) && page.lines@[j].primary_key@ == key
}

/// How many distinct page indices among the first `n` pages show `key`.
pub open spec fn pages_showing(pages: Seq<FurniturePage>, key: Seq<char>, band_percent: u32, n: int) -> int
    decreases n,
{
    if n <= 0 {
        0
    } else {
        pages_showing(pages, key, band_percent, n - 1) + if page_shows(pages[n - 1], key, band_percent)
            && !exists|q: int| 0 <= q < n - 1 && page_shows(#[trigger] pages[q], key, band_percent)
            && pages[q].page_index == pages[n - 1].page_index {
            1int
        } else {
            0int
        }
    }
}

/// A key is furniture when it shows on at least one page, on at least the
/// configured number of pages, and on at least the configured share of all
/// pages.
pub open spec fn repeated_key(pages: Seq<FurniturePage>, key: Seq<char>, c: AutoBookmarkConfig) -> bool {
    let n = pages_showing(pages, key, c.furniture_band_percent, pages.len() as int);
    let total = if pages.len() == 0 { 1 } else { pages.len() as int };
    &&& n >= 1
    &&& n >= c.furniture_min_pages
    &&& n * 100 >= total * c.furniture_percent
}

fn line_in_band(l: &FurnitureLine, band_percent: u32) -> (b: bool)
    requires
        band_percent <= 100,
    ensures
        b == in_band(*l, band_percent),
{
    let n = chars_of(l.primary_key.as_str()).len();
    n > 0 && n <= 80 && (l.top_permille <= band_percent * 10 || l.top_permille as u64 + (band_percent as u64) * 10 >= 1000)
}

fn shows(page: &FurniturePage, key: &str, band_percent: u32) -> (b: bool)
    requires
        band_percent <= 100,
    ensures
        b == page_shows(*page, key@, band_percent),
{
    let mut j: usize = 0;
    while j < page.lines.len()
        invariant
            j <= page.lines@.len(),
            band_percent <= 100,
            forall|k: int| 0 <= k < j ==> !(in_band(#[trigger] page.lines@[k], band_percent) && page.lines@[k].primary_key@ == key@),
        decreases page.lines.len() - j,
    {
        if line_in_band(&page.lines[j], band_percent) && str_eq(page.lines[j].primary_key.as_str(), key) {
            assert(in_band(page.lines@[j as int], band_percent) && page.lines@[j as int].primary_key@ == key@);
            return true;
        }
        j = j + 1;
    }
    false
}

/// Whether `key` is furniture on these pages.
fn is_repeated(pages: &[FurniturePage], key: &str, config: &AutoBookmarkConfig) -> (b: bool)
    requires
        config.furniture_band_percent <= 100,
    ensures
        b == repeated_key(pages@, key@, *config),
{
    let band = config.furniture_band_percent;
    let mut seen: Vec<u32> = Vec::new();
    let mut count: u64 = 0;
    let mut p: usize = 0;
    while p < pages.len()
        invariant
            p <= pages@.len(),
            band == config.furniture_band_percent,
            band <= 100,
            count == pages_showing(pages@, key@, band, p as int),
            count <= p,
            forall|x: u32| #[trigger] seen@.contains(x) <==> exists|q: int|
                0 <= q < p && page_shows(#[trigger] pages@[q], key@, band) && pages@[q].page_index == x,
        decreases pages.len() - p,
    {
        let page = &pages[p];
        if shows(page, key, band) {
            let mut known = false;
            let mut k: usize = 0;
            while k < seen.len()
                invariant
                    k <= seen@.len(),
                    known == exists|t: int| 0 <= t < k && seen@[t] == page.page_index,
                decreases seen.len() - k,
            {
                if seen[k] == page.page_index {
                    known = true;
                }
                k = k + 1;
            }
            proof {
                if known {
                    let t = choose|t: int| 0 <= t < seen@.len() && seen@[t] == page.page_index;
                    assert(seen@.contains(page.page_index));
                }
                if seen@.contains(page.page_index) {
                    let t = choose|t: int| 0 <= t < seen@.len() && seen@[t] == page.page_index;
                    assert(known);
                }
            }
            if !known {
                let ghost before = seen@;
                seen.push(page.page_index);
                count = count + 1;
                proof {
                    assert forall|x: u32| #[trigger] seen@.contains(x) <==> exists|q: int|
                        0 <= q < p + 1 && page_shows(#[trigger] pages@[q], key@, band) && pages@[q].page_index == x by {
                        if seen@.contains(x) {
                            let t = choose|t: int| 0 <= t < seen@.len() && seen@[t] == x;
                            if t < before.len() {
                                assert(before.contains(x));
                            } else {
                                assert(page_shows(pages@[p as int], key@, band) && pages@[p as int].page_index == x);
                            }
                        }
                        if exists|q: int| 0 <= q < p + 1 && page_shows(#[trigger] pages@[q], key@, band) && pages@[q].page_index == x {
                            let q = choose|q: int| 0 <= q < p + 1 && page_shows(#[trigger] pages@[q], key@, band) && pages@[q].page_index == x;
                            if q < p {
                                assert(before.contains(x));
                                let t = choose|t: int| 0 <= t < before.len() && before[t] == x;
                                assert(seen@[t] == x);
                            } else {
                                assert(seen@[before.len() as int] == x);
                            }
                        }
                    }
                }
            } else {
                proof {
                    assert forall|x: u32| #[trigger] seen@.contains(x) <==> exists|q: int|
                        0 <= q < p + 1 && page_shows(#[trigger] pages@[q], key@, band) && pages@[q].page_index == x by {
                        if exists|q: int| 0 <= q < p + 1 && page_shows(#[trigger] pages@[q], key@, band) && pages@[q].page_index == x {
                            let q = choose|q: int| 0 <= q < p + 1 && page_shows(#[trigger] pages@[q], key@, band) && pages@[q].page_index == x;
                            if q == p {
                                assert(seen@.contains(page.page_index));
                            }
                        }
                    }
                }
            }
        } else {
            proof {
                assert forall|x: u32| #[trigger] seen@.contains(x) <==> exists|q: int|
                    0 <= q < p + 1 && page_shows(#[trigger] pages@[q], key@, band) && pages@[q].page_index == x by {
                    if exists|q: int| 0 <= q < p + 1 && page_shows(#[trigger] pages@[q], key@, band) && pages@[q].page_index == x {
                        let q = choose|q: int| 0 <= q < p + 1 && page_shows(#[trigger] pages@[q], key@, band) && pages@[q].page_index == x;
                        assert(q < p);
                    }
                }
            }
        }
        p = p + 1;
    }
    let total: u128 = if pages.len() == 0 { 1 } else { pages.len() as u128 };
    let percent = config.furniture_percent as u128;
    assert(total * percent <= 0xffff_ffff_ffff_ffffu128 * 0xffff_ffffu128) by (nonlinear_arith)
        requires
            total <= 0xffff_ffff_ffff_ffffu128,
            percent <= 0xffff_ffffu128,
    ;
    count >= 1 && count >= config.furniture_min_pages as u64 && (count as u128) * 100 >= total * percent
}

/// A key that no furniture line carries is shown by no page.
proof fn lemma_absent_key_shows_nowhere(pages: Seq<FurniturePage>, key: Seq<char>, band: u32, n: int)
    requires
        0 <= n <= pages.len(),
        forall|q: int, j: int|
            0 <= q < pages.len() && 0 <= j < pages[q].lines@.len() && in_band(#[trigger] pages[q].lines@[j], band)
                ==> pages[q].lines@[j].primary_key@ != key,
    ensures
        pages_showing(pages, key, band, n) == 0,
    decreases n,
{
    if n > 0 {
        lemma_absent_key_shows_nowhere(pages, key, band, n - 1);
        if page_shows(pages[n - 1], key, band) {
            let j = choose|j: int| 0 <= j < pages[n - 1].lines@.len() && in_band(#[trigger] pages[n - 1].lines@[j], band)
                && pages[n - 1].lines@[j].primary_key@ == key;
            assert(in_band(pages[n - 1].lines@[j], band));
        }
    }
}

fn find_key(keys: &[String], key: &str) -> (r: Option<usize>)
    ensures
        r matches Some(k) ==> k < keys@.len() && keys@[k as int]@ == key@,
        r is None ==> !views(keys@).contains(key@),
{
    let mut k: usize = 0;
    while k < keys.len()
        invariant
            k <= keys@.len(),
            forall|t: int| 0 <= t < k ==> keys@[t]@ != key@,
        decreases keys.len() - k,
    {
        if str_eq(keys[k].as_str(), key) {
            return Some(k);
        }
        k = k + 1;
    }
    proof {
        if views(keys@).contains(key@) {
            let t = choose|t: int| 0 <= t < views(keys@).len() && views(keys@)[t] == key@;
            assert(keys@[t]@ == key@);
        }
    }
    None
}

/// Marks every line whose key is a running header or footer: shown in the
/// top or bottom band of enough distinct pages. The mark applies to every
/// line with that key, wherever it stands on its page.
#[verifier::loop_isolation(false)]
pub fn mark_repeated_furniture(pages: &[FurniturePage], config: &AutoBookmarkConfig) -> (r: Vec<Vec<bool>>)
    requires
        config.furniture_band_percent <= 100,
    ensures
        r@.len() == pages@.len(),
        forall|p: int| 0 <= p < pages@.len() ==> (#[trigger] r@[p])@.len() == pages@[p].lines@.len(),
        forall|p: int, j: int|
            0 <= p < pages@.len() && 0 <= j < pages@[p].lines@.len() ==> #[trigger] r@[p]@[j] == repeated_key(
                pages@,
                pages@[p].lines@[j].primary_key@,
                *config,
            ),
{
    let band = config.furniture_band_percent;
    let mut keys: Vec<String> = Vec::new();
    let mut flags: Vec<bool> = Vec::new();
    let mut p: usize = 0;
    while p < pages.len()
        invariant
            p <= pages@.len(),
            keys@.len() == flags@.len(),
            forall|k: int| 0 <= k < keys@.len() ==> #[trigger] flags@[k] == repeated_key(pages@, keys@[k]@, *config),
            forall|q: int, j: int|
                0 <= q < p && 0 <= j < pages@[q].lines@.len() && in_band(#[trigger] pages@[q].lines@[j], band)
                    ==> views(keys@).contains(pages@[q].lines@[j].primary_key@),
        decreases pages.len() - p,
    {
        let lines = &pages[p].lines;
        let mut j: usize = 0;
        while j < lines.len()
            invariant
                p < pages@.len(),
                *lines == pages@[p as int].lines,
                j <= lines@.len(),
                keys@.len() == flags@.len(),
                forall|k: int| 0 <= k < keys@.len() ==> #[trigger] flags@[k] == repeated_key(pages@, keys@[k]@, *config),
                forall|q: int, jj: int|
                    0 <= q < p && 0 <= jj < pages@[q].lines@.len() && in_band(#[trigger] pages@[q].lines@[jj], band)
                        ==> views(keys@).contains(pages@[q].lines@[jj].primary_key@),
                forall|jj: int| 0 <= jj < j && in_band(#[trigger] lines@[jj], band) ==> views(keys@).contains(lines@[jj].primary_key@),
            decreases lines.len() - j,
        {
            let line = &lines[j];
            if line_in_band(line, band) && !list_contains(keys.as_slice(), line.primary_key.as_str()) {
                let flag = is_repeated(pages, line.primary_key.as_str(), config);
                let ghost before = views(keys@);
                flags.push(flag);
                crate::text::push_owned(&mut keys, line.primary_key.as_str());
                proof {
                    assert forall|k: int| 0 <= k < keys@.len() implies #[trigger] flags@[k] == repeated_key(pages@, keys@[k]@, *config) by {
                        assert(views(keys@)[k] == keys@[k]@);
                    }
                    assert forall|x: Seq<char>| before.contains(x) implies views(keys@).contains(x) by {
                        let t = choose|t: int| 0 <= t < before.len() && before[t] == x;
                        assert(views(keys@)[t] == x);
                    }
                    assert(views(keys@)[before.len() as int] == line.primary_key@);
                }
            }
            j = j + 1;
        }
        p = p + 1;
    }
    let mut r: Vec<Vec<bool>> = Vec::new();
    let mut p: usize = 0;
    while p < pages.len()
        invariant
            p <= pages@.len(),
            r@.len() == p,
            forall|q: int| 0 <= q < p ==> (#[trigger] r@[q])@.len() == pages@[q].lines@.len(),
            forall|q: int, j: int|
                0 <= q < p && 0 <= j < pages@[q].lines@.len() ==> #[trigger] r@[q]@[j] == repeated_key(
                    pages@,
                    pages@[q].lines@[j].primary_key@,
                    *config,
                ),
        decreases pages.len() - p,
    {
        let lines = &pages[p].lines;
        let mut marks: Vec<bool> = Vec::new();
        let mut j: usize = 0;
        while j < lines.len()
            invariant
                p < pages@.len(),
                *lines == pages@[p as int].lines,
                j <= lines@.len(),
                marks@.len() == j,
                forall|jj: int| 0 <= jj < j ==> #[trigger] marks@[jj] == repeated_key(pages@, lines@[jj].primary_key@, *config),
            decreases lines.len() - j,
        {
            let mark = match find_key(keys.as_slice(), lines[j].primary_key.as_str()) {
                Some(k) => flags[k],
                None => {
                    proof {
                        let key = lines@[j as int].primary_key@;
                        assert forall|q: int, jj: int|
                            0 <= q < pages@.len() && 0 <= jj < pages@[q].lines@.len() && in_band(#[trigger] pages@[q].lines@[jj], band)
                                implies pages@[q].lines@[jj].primary_key@ != key by {
                            assert(views(keys@).contains(pages@[q].lines@[jj].primary_key@));
                        }
                        lemma_absent_key_shows_nowhere(pages@, key, band, pages@.len() as int);
                    }
                    false
                },
            };
            marks.push(mark);
            j = j + 1;
        }
        r.push(marks);
        p = p + 1;
    }
    r
}

} // verus!
