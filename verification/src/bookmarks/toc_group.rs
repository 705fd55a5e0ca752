//! Grouping the lines of a printed contents page into entries.
//!
//! Lines come in reading order (column, then top to bottom). An entry starts
//! at a line and takes in the following lines of its column while it has no
//! printed page label yet, stays under the continuation limit and the next
//! line continues it. Each group's lines, trimmed and joined with a space,
//! then become an entry or are dropped.

use vstd::prelude::*;

use super::toc_parse::{
    entry_reasons, entry_title, entry_title_kept, kept_printed, numbering_spec, printed_spec,
    printed_view, shows_leader_run, toc_entry_text, trailing_printed_number, TocEntryText,
};
use super::text_index::{merge_new, primary_spec, secondary_spec, tokens_spec, truncated};
use crate::text::{chars_of, join_space, join_with_space, string_of, trim_ws, trimmed, views};

verus! {

/// Where a contents line lies against the middle of a measured page.
#[derive(Debug, Clone, Copy, PartialEq, Eq, Structural)]
pub enum LinePlacement {
    /// Ends at or before the middle.
    Left,
    /// Starts at or after the middle.
    Right,
    /// Spans the middle.
    Crossing,
}

pub open spec fn count_placed(p: Seq<LinePlacement>, which: LinePlacement) -> nat
    decreases p.len(),
{
    if p.len() == 0 {
        0
    } else {
        count_placed(p.drop_last(), which) + if p.last() == which {
            1nat
        } else {
            0nat
        }
    }
}

/// Two columns when the page is measured and at least three lines lie on
/// each side of the middle with at most a quarter as many spanning it; one
/// column otherwise.
pub open spec fn columns_spec(measured: bool, placements: Seq<LinePlacement>) -> u32 {
    let left = count_placed(placements, LinePlacement::Left);
    let right = count_placed(placements, LinePlacement::Right);
    let crossing = count_placed(placements, LinePlacement::Crossing);
    if measured && left >= 3 && right >= 3 && crossing * 4 <= left + right {
        2
    } else {
        1
    }
}

/// The number of text columns of a contents page, from where its non-blank
/// lines lie. `measured` says whether the page has measured geometry and a
/// positive width.
pub fn column_count(measured: bool, placements: &[LinePlacement]) -> (c: u32)
    requires
        placements@.len() <= u32::MAX / 8,
    ensures
        c == columns_spec(measured, placements@),
{
    if !measured {
        return 1;
    }
    let mut left: u32 = 0;
    let mut right: u32 = 0;
    let mut crossing: u32 = 0;
    let mut i: usize = 0;
    while i < placements.len()
        invariant
            i <= placements@.len(),
            placements@.len() <= u32::MAX / 8,
            left == count_placed(placements@.take(i as int), LinePlacement::Left),
            right == count_placed(placements@.take(i as int), LinePlacement::Right),
            crossing == count_placed(placements@.take(i as int), LinePlacement::Crossing),
            left + right + crossing == i,
        decreases placements.len() - i,
    {
        assert(placements@.take(i + 1 as int).drop_last() =~= placements@.take(i as int));
        match placements[i] {
            LinePlacement::Left => left = left + 1,
            LinePlacement::Right => right = right + 1,
            LinePlacement::Crossing => crossing = crossing + 1,
        }
        i = i + 1;
    }
    assert(placements@.take(placements@.len() as int) =~= placements@);
    if left >= 3 && right >= 3 && crossing * 4 <= left + right {
        2
    } else {
        1
    }
}

/// A non-blank contents line in reading order.
#[derive(Debug, Clone)]
pub struct TocLine {
    pub column: u32,
    pub ordinal: u32,
    pub raw_text: String,
}

/// When a line continues the entry above it. On a measured page,
/// `gap_ok[i]` says that line `i` lies close enough below line `i - 1`, and
/// `indent_ok[s][i]` that line `i` starts near the indent of line `s`; on
/// any other page a line continues an entry when its ordinal follows the
/// previous line's.
#[derive(Debug, Clone)]
pub struct ContinuationRule {
    pub measured: bool,
    pub gap_ok: Vec<bool>,
    pub indent_ok: Vec<Vec<bool>>,
}

pub open spec fn rule_fits(rule: ContinuationRule, n: int) -> bool {
    rule.measured ==> {
        &&& rule.gap_ok@.len() == n
        &&& rule.indent_ok@.len() == n
        &&& forall|s: int| 0 <= s < n ==> (#[trigger] rule.indent_ok@[s])@.len() == n
    }
}

/// Whether line `next` may continue the entry that starts at line `s`.
pub open spec fn continues(lines: Seq<TocLine>, rule: ContinuationRule, s: int, next: int) -> bool {
    if rule.measured {
        rule.indent_ok@[s]@[next] && rule.gap_ok@[next]
    } else {
        lines[next].ordinal == lines[next - 1].ordinal + 1
    }
}

/// Whether line `i` ends in a printed page label.
pub open spec fn labelled(lines: Seq<TocLine>, i: int) -> bool {
    printed_spec(lines[i].raw_text@) is Some
}

/// Whether the entry starting at `s` with `k` lines takes in the next line.
pub open spec fn extends(lines: Seq<TocLine>, rule: ContinuationRule, max: u32, s: int, k: int) -> bool {
    &&& !labelled(lines, s + k - 1)
    &&& k < max
    &&& s + k < lines.len()
    &&& lines[s + k].column == lines[s].column
    &&& continues(lines, rule, s, s + k)
}

/// The number of lines of the entry starting at `s`, given that it has at
/// least `k`.
pub open spec fn group_len_from(lines: Seq<TocLine>, rule: ContinuationRule, max: u32, s: int, k: int) -> int
    decreases lines.len() - s - k,
{
    if extends(lines, rule, max, s, k) {
        group_len_from(lines, rule, max, s, k + 1)
    } else {
        k
    }
}

/// A group has at least the lines it was given, fits in the page and
/// stops at the continuation limit.
pub proof fn lemma_group_len(lines: Seq<TocLine>, rule: ContinuationRule, max: u32, s: int, k: int)
    requires
        1 <= k,
        0 <= s,
        s + k <= lines.len(),
    ensures
        k <= group_len_from(lines, rule, max, s, k),
        s + group_len_from(lines, rule, max, s, k) <= lines.len(),
        group_len_from(lines, rule, max, s, k) <= if k <= max { max as int } else { k },
    decreases lines.len() - s - k,
{
    if extends(lines, rule, max, s, k) {
        lemma_group_len(lines, rule, max, s, k + 1);
    }
}

/// The lines of an entry, trimmed.
pub open spec fn member_texts(lines: Seq<TocLine>, s: int, k: int) -> Seq<Seq<char>> {
    Seq::new(k as nat, |t: int| trim_ws(lines[s + t].raw_text@))
}

/// The text of an entry: its lines, trimmed, joined with a space.
pub open spec fn group_text(lines: Seq<TocLine>, s: int, k: int) -> Seq<char> {
    join_space(member_texts(lines, s, k))
}

pub open spec fn count_labelled(lines: Seq<TocLine>, n: int) -> nat
    decreases n,
{
    if n <= 0 {
        0
    } else {
        count_labelled(lines, n - 1) + if labelled(lines, n - 1) {
            1nat
        } else {
            0nat
        }
    }
}

/// Whether the page shows a column of printed labels: at least two lines end
/// in one.
pub open spec fn label_consensus(lines: Seq<TocLine>) -> bool {
    count_labelled(lines, lines.len() as int) >= 2
}

/// Whether the group at `s` with `k` lines becomes an entry.
pub open spec fn group_kept(lines: Seq<TocLine>, s: int, k: int, max_title_bytes: u32) -> bool {
    entry_title_kept(
        entry_title(group_text(lines, s, k), printed_spec(lines[s + k - 1].raw_text@), label_consensus(lines)),
        max_title_bytes,
    )
}

/// The (first line, line count) of every kept entry from line `from` on.
pub open spec fn kept_groups(lines: Seq<TocLine>, rule: ContinuationRule, max: u32, max_title_bytes: u32, from: int) -> Seq<
    (int, int),
>
    decreases lines.len() - from,
{
    if from < 0 || from >= lines.len() {
        Seq::empty()
    } else {
        let k = group_len_from(lines, rule, max, from, 1);
        proof {
            lemma_group_len(lines, rule, max, from, 1);
        }
        (if group_kept(lines, from, k, max_title_bytes) {
            seq![(from, k)]
        } else {
            Seq::empty()
        }) + kept_groups(lines, rule, max, max_title_bytes, from + k)
    }
}

/// Everything a parsed entry states of its text, as [`toc_entry_text`]
/// promises it.
pub open spec fn entry_matches(
    e: TocEntryText,
    joined: Seq<char>,
    printed: Option<(Seq<char>, u32, super::toc_parse::NumberingFamily)>,
    column_consensus: bool,
    merged_lines: u32,
) -> bool {
    let title = entry_title(joined, printed, column_consensus);
    &&& e.raw_title@ == title
    &&& e.primary_key@ == primary_spec(title)
    &&& e.secondary_key@ == secondary_spec(primary_spec(title))
    &&& views(e.tokens@) == truncated(
        merge_new(tokens_spec(primary_spec(title)), tokens_spec(secondary_spec(primary_spec(title)))),
        512,
    )
    &&& (match e.numbering_prefix {
        Some(t) => Some(t@),
        None => None::<Seq<char>>,
    }) == numbering_spec(title).0
    &&& e.numbering_path@ == numbering_spec(title).1
    &&& e.has_leader == shows_leader_run(joined)
    &&& printed_view(e.printed) == kept_printed(joined, printed, column_consensus)
    &&& views(e.reason_codes@) == entry_reasons(joined, printed, column_consensus, merged_lines)
}

/// One parsed entry: its lines `first .. first + count` and its text.
#[derive(Debug, Clone)]
pub struct TocGroup {
    pub first: usize,
    pub count: usize,
    pub entry: TocEntryText,
}

/// Whether the lines before `n` include at least two that end in a printed
/// label.
fn consensus_of(lines: &[TocLine]) -> (b: bool)
    ensures
        b == label_consensus(lines@),
{
    let mut count: usize = 0;
    let mut i: usize = 0;
    while i < lines.len()
        invariant
            i <= lines@.len(),
            count == count_labelled(lines@, i as int),
            count <= i,
        decreases lines.len() - i,
    {
        if trailing_printed_number(lines[i].raw_text.as_str()).is_some() {
            count = count + 1;
        }
        i = i + 1;
    }
    count >= 2
}

/// Whether the entry starting at `s` with `k` lines may take in the next
/// line, its own label aside.
fn takes_next(lines: &[TocLine], rule: &ContinuationRule, max: u32, s: usize, k: usize) -> (b: bool)
    requires
        s < lines@.len(),
        1 <= k,
        s + k <= lines@.len(),
        rule_fits(*rule, lines@.len() as int),
    ensures
        b == {
            &&& k < max
            &&& s + k < lines@.len()
            &&& lines@[s + k].column == lines@[s as int].column
            &&& continues(lines@, *rule, s as int, s + k)
        },
{
    let n = lines.len();
    if k as u64 >= max as u64 {
        return false;
    }
    if s + k >= n {
        return false;
    }
    if lines[s + k].column != lines[s].column {
        return false;
    }
    if rule.measured {
        rule.indent_ok[s][s + k] && rule.gap_ok[s + k]
    } else {
        lines[s + k - 1].ordinal < u32::MAX && lines[s + k].ordinal == lines[s + k - 1].ordinal + 1
    }
}

/// Parses the lines of one contents page into entries, in reading order.
pub fn parse_toc_lines(lines: &[TocLine], rule: &ContinuationRule, max_continuation_lines: u32, max_title_bytes: u32) -> (r: Vec<
    TocGroup,
>)
    requires
        rule_fits(*rule, lines@.len() as int),
    ensures
        r@.len() == kept_groups(lines@, *rule, max_continuation_lines, max_title_bytes, 0).len(),
        forall|i: int|
            0 <= i < r@.len() ==> {
                let g = kept_groups(lines@, *rule, max_continuation_lines, max_title_bytes, 0)[i];
                &&& (#[trigger] r@[i]).first == g.0
                &&& r@[i].count == g.1
                &&& entry_matches(
                    r@[i].entry,
                    group_text(lines@, g.0, g.1),
                    printed_spec(lines@[g.0 + g.1 - 1].raw_text@),
                    label_consensus(lines@),
                    g.1 as u32,
                )
            },
{
    let consensus = consensus_of(lines);
    let ghost all = kept_groups(lines@, *rule, max_continuation_lines, max_title_bytes, 0);
    let ghost mut done: Seq<(int, int)> = Seq::empty();
    let mut out: Vec<TocGroup> = Vec::new();
    let mut from: usize = 0;
    while from < lines.len()
        invariant
            from <= lines@.len(),
            rule_fits(*rule, lines@.len() as int),
            consensus == label_consensus(lines@),
            all == kept_groups(lines@, *rule, max_continuation_lines, max_title_bytes, 0),
            all == done + kept_groups(lines@, *rule, max_continuation_lines, max_title_bytes, from as int),
            out@.len() == done.len(),
            forall|i: int|
                0 <= i < out@.len() ==> {
                    let g = done[i];
                    &&& (#[trigger] out@[i]).first == g.0
                    &&& out@[i].count == g.1
                    &&& entry_matches(
                        out@[i].entry,
                        group_text(lines@, g.0, g.1),
                        printed_spec(lines@[g.0 + g.1 - 1].raw_text@),
                        label_consensus(lines@),
                        g.1 as u32,
                    )
                },
        decreases lines.len() - from,
    {
        let mut k: usize = 1;
        let mut printed = trailing_printed_number(lines[from].raw_text.as_str());
        proof {
            lemma_group_len(lines@, *rule, max_continuation_lines, from as int, 1);
        }
        while printed.is_none() && takes_next(lines, rule, max_continuation_lines, from, k)
            invariant
                from < lines@.len(),
                1 <= k,
                from + k <= lines@.len(),
                rule_fits(*rule, lines@.len() as int),
                printed_view(printed) == printed_spec(lines@[from + k - 1].raw_text@),
                group_len_from(lines@, *rule, max_continuation_lines, from as int, 1) == group_len_from(
                    lines@,
                    *rule,
                    max_continuation_lines,
                    from as int,
                    k as int,
                ),
            decreases lines.len() - from - k,
        {
            assert(extends(lines@, *rule, max_continuation_lines, from as int, k as int));
            k = k + 1;
            printed = trailing_printed_number(lines[from + k - 1].raw_text.as_str());
        }
        assert(!extends(lines@, *rule, max_continuation_lines, from as int, k as int));
        let ghost g = k as int;
        proof {
            lemma_group_len(lines@, *rule, max_continuation_lines, from as int, 1);
        }
        let mut members: Vec<Vec<char>> = Vec::new();
        let mut t: usize = 0;
        let n = lines.len();
        while t < k
            invariant
                n == lines@.len(),
                from + k <= n,
                t <= k,
                members.deep_view() == member_texts(lines@, from as int, t as int),
            decreases k - t,
        {
            let chars = chars_of(lines[from + t].raw_text.as_str());
            let m = trimmed(chars.as_slice());
            let ghost before = members.deep_view();
            let ghost mv = m@;
            assert(m.deep_view() =~= m@);
            members.push(m);
            proof {
                assert(members.deep_view() =~= before.push(mv));
            }
            t = t + 1;
            assert(members.deep_view() =~= member_texts(lines@, from as int, t as int));
        }
        let joined_chars = join_with_space(&members);
        let joined = string_of(joined_chars.as_slice());
        assert(joined@ == group_text(lines@, from as int, g));
        proof {
            assert(g <= max_continuation_lines || g == 1);
        }
        let parsed = toc_entry_text(joined.as_str(), printed, consensus, k as u32, max_title_bytes);
        let ghost step = if group_kept(lines@, from as int, g, max_title_bytes) {
            seq![(from as int, g)]
        } else {
            Seq::<(int, int)>::empty()
        };
        assert(kept_groups(lines@, *rule, max_continuation_lines, max_title_bytes, from as int) == step
            + kept_groups(lines@, *rule, max_continuation_lines, max_title_bytes, from + g));
        match parsed {
            Some(entry) => {
                out.push(TocGroup { first: from, count: k, entry });
                proof {
                    done = done.push((from as int, g));
                }
            },
            None => {},
        }
        assert(all == done + kept_groups(lines@, *rule, max_continuation_lines, max_title_bytes, from + g));
        from = from + k;
    }
    out
}

} // verus!
