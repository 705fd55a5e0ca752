//! Level and parent assignment for aligned contents entries.
//!
//! Priority is explicit numbering, then contents-column indentation, then
//! relative line height. A level never jumps more than one step; an entry
//! whose depth had to be corrected is marked ambiguous.

use vstd::prelude::*;

use super::config::AutoBookmarkConfig;
use crate::text::{concat, list_contains, push_owned, string_of, views};

verus! {

/// The nearest retained entry before `q` (exclusive) whose level is strictly
/// shallower than `level`.
pub open spec fn nearest_shallower(levels: Seq<u16>, retained: Seq<bool>, level: u16, q: int) -> Option<
    int,
>
    decreases q,
{
    if q <= 0 {
        None
    } else if retained[q - 1] && levels[q - 1] < level {
        Some(q - 1)
    } else {
        nearest_shallower(levels, retained, level, q - 1)
    }
}

pub(crate) proof fn lemma_nearest_props(levels: Seq<u16>, retained: Seq<bool>, level: u16, q: int)
    ensures
        nearest_shallower(levels, retained, level, q) matches Some(r) ==> 0 <= r < q
            && retained[r] && levels[r] < level && forall|t: int|
            r < t < q ==> !(retained[t] && levels[t] < level),
        nearest_shallower(levels, retained, level, q) is None ==> forall|t: int|
            0 <= t < q ==> !(retained[t] && levels[t] < level),
    decreases q,
{
    if q > 0 {
        lemma_nearest_props(levels, retained, level, q - 1);
    }
}

/// The parent of entry `p`: the id of [`nearest_shallower`] for a retained
/// entry, nothing for a dropped one.
pub open spec fn expected_parent(levels: Seq<u16>, retained: Seq<bool>, ids: Seq<String>, p: int) -> Option<
    String,
> {
    if !retained[p] {
        None
    } else {
        match nearest_shallower(levels, retained, levels[p], p) {
            Some(q) => Some(ids[q]),
            None => None,
        }
    }
}

/// Whether retained entry `q` is still "open" just before position `p`: no
/// retained entry between them is at the same or a shallower level.
pub open spec fn open_before(levels: Seq<u16>, retained: Seq<bool>, q: int, p: int) -> bool {
    retained[q] && forall|r: int| q < r < p ==> !(retained[r] && levels[r] <= levels[q])
}

/// Resolves each retained entry's parent as the nearest preceding retained
/// entry at a shallower level. A dropped parent therefore promotes its
/// children to the nearest surviving ancestor.
pub fn parents(levels: &[u16], retained: &[bool], ids: &[String]) -> (result: Vec<Option<String>>)
    requires
        retained@.len() == levels@.len(),
        ids@.len() == levels@.len(),
    ensures
        result@.len() == levels@.len(),
        forall|p: int|
            0 <= p < levels@.len() ==> #[trigger] result@[p] == expected_parent(
                levels@,
                retained@,
                ids@,
                p,
            ),
{
    let n = levels.len();
    let mut stack_levels: Vec<u16> = Vec::new();
    let mut stack_ids: Vec<usize> = Vec::new();
    let mut result: Vec<Option<String>> = Vec::new();
    let mut position: usize = 0;
    while position < n
        invariant
            n == levels@.len(),
            retained@.len() == n,
            ids@.len() == n,
            position <= n,
            result@.len() == position,
            stack_levels@.len() == stack_ids@.len(),
            forall|k: int|
                0 <= k < stack_ids@.len() ==> #[trigger] stack_ids@[k] < position
                    && stack_levels@[k] == levels@[stack_ids@[k] as int],
            forall|k: int, l: int|
                0 <= k < l < stack_ids@.len() ==> #[trigger] stack_ids@[k] < #[trigger] stack_ids@[l]
                    && stack_levels@[k] < stack_levels@[l],
            forall|q: int|
                0 <= q < position ==> (#[trigger] open_before(levels@, retained@, q, position as int)
                    <==> (exists|k: int| 0 <= k < stack_ids@.len() && #[trigger] stack_ids@[k] == q)),
            forall|p: int|
                0 <= p < position ==> #[trigger] result@[p] == expected_parent(
                    levels@,
                    retained@,
                    ids@,
                    p,
                ),
        decreases n - position,
    {
        if !retained[position] {
            result.push(None);
            proof {
                assert forall|q: int| 0 <= q < position + 1 implies (#[trigger] open_before(
                    levels@,
                    retained@,
                    q,
                    position + 1,
                ) <==> (exists|k: int|
                    0 <= k < stack_ids@.len() && #[trigger] stack_ids@[k] == q)) by {
                    if q < position {
                        assert(open_before(levels@, retained@, q, position + 1) == open_before(
                            levels@,
                            retained@,
                            q,
                            position as int,
                        ));
                    } else {
                        assert forall|k: int| 0 <= k < stack_ids@.len() implies stack_ids@[k] != q by {}
                    }
                }
            }
        } else {
            let level = levels[position];
            while stack_levels.len() > 0 && stack_levels[stack_levels.len() - 1] >= level
                invariant
                    n == levels@.len(),
                    retained@.len() == n,
                    ids@.len() == n,
                    position < n,
                    retained@[position as int],
                    level == levels@[position as int],
                    stack_levels@.len() == stack_ids@.len(),
                    forall|k: int|
                        0 <= k < stack_ids@.len() ==> #[trigger] stack_ids@[k] < position
                            && stack_levels@[k] == levels@[stack_ids@[k] as int],
                    forall|k: int, l: int|
                        0 <= k < l < stack_ids@.len() ==> #[trigger] stack_ids@[k]
                            < #[trigger] stack_ids@[l] && stack_levels@[k] < stack_levels@[l],
                    forall|q: int|
                        0 <= q < position ==> ((exists|k: int|
                            0 <= k < stack_ids@.len() && #[trigger] stack_ids@[k] == q)
                            ==> #[trigger] open_before(levels@, retained@, q, position as int)),
                    forall|q: int|
                        0 <= q < position && #[trigger] open_before(levels@, retained@, q, position as int)
                            && levels@[q] < level ==> (exists|k: int|
                            0 <= k < stack_ids@.len() && #[trigger] stack_ids@[k] == q),
                decreases stack_levels@.len(),
            {
                let ghost top_k = stack_ids@.len() - 1;
                let ghost old_ids = stack_ids@;
                stack_levels.pop();
                stack_ids.pop();
                proof {
                    assert forall|q: int|
                        0 <= q < position && #[trigger] open_before(levels@, retained@, q, position as int)
                            && levels@[q] < level implies (exists|k: int|
                        0 <= k < stack_ids@.len() && #[trigger] stack_ids@[k] == q) by {
                        let k = choose|k: int| 0 <= k < old_ids.len() && #[trigger] old_ids[k] == q;
                        if k == top_k {
                            assert(levels@[q] >= level);
                        }
                        assert(stack_ids@[k] == q);
                    }
                    assert forall|q: int|
                        0 <= q < position && (exists|k: int|
                            0 <= k < stack_ids@.len() && #[trigger] stack_ids@[k] == q) implies #[trigger] open_before(
                        levels@,
                        retained@,
                        q,
                        position as int,
                    ) by {
                        let k = choose|k: int| 0 <= k < stack_ids@.len() && #[trigger] stack_ids@[k] == q;
                        assert(old_ids[k] == q);
                    }
                }
            }
            proof {
                lemma_nearest_props(levels@, retained@, level, position as int);
                if stack_ids@.len() > 0 {
                    assert forall|k: int| 0 <= k < stack_ids@.len() implies #[trigger] stack_levels@[k]
                        < level by {
                        if k < stack_ids@.len() - 1 {
                            assert(stack_ids@[k] < stack_ids@[stack_ids@.len() - 1]);
                            assert(stack_levels@[k] < stack_levels@[stack_ids@.len() - 1]);
                        }
                    }
                }
                match nearest_shallower(levels@, retained@, level, position as int) {
                    Some(r) => {
                        assert(open_before(levels@, retained@, r, position as int));
                        let k = choose|k: int| 0 <= k < stack_ids@.len() && #[trigger] stack_ids@[k] == r;
                        let last = stack_ids@.len() - 1;
                        if k < last {
                            let t = stack_ids@[last] as int;
                            assert(stack_ids@[k] < stack_ids@[last]);
                            assert(stack_levels@[last] < level);
                            assert(open_before(levels@, retained@, t, position as int));
                        }
                    },
                    None => {
                        if stack_ids@.len() > 0 {
                            let t = stack_ids@[stack_ids@.len() - 1] as int;
                            assert(stack_levels@[stack_ids@.len() - 1] < level);
                            assert(open_before(levels@, retained@, t, position as int));
                        }
                    },
                }
            }
            let parent = if stack_ids.len() > 0 {
                let top = stack_ids[stack_ids.len() - 1];
                Some(ids[top].clone())
            } else {
                None
            };
            result.push(parent);
            let ghost before_push = stack_ids@;
            let ghost before_levels = stack_levels@;
            assert(forall|k: int| 0 <= k < before_levels.len() ==> #[trigger] before_levels[k] < level);
            stack_levels.push(level);
            stack_ids.push(position);
            proof {
                assert forall|q: int| 0 <= q < position + 1 implies (#[trigger] open_before(
                    levels@,
                    retained@,
                    q,
                    position + 1,
                ) <==> (exists|k: int|
                    0 <= k < stack_ids@.len() && #[trigger] stack_ids@[k] == q)) by {
                    if q == position {
                        assert(stack_ids@[stack_ids@.len() - 1] == q);
                    } else {
                        if exists|k: int| 0 <= k < stack_ids@.len() && #[trigger] stack_ids@[k] == q {
                            let k = choose|k: int|
                                0 <= k < stack_ids@.len() && #[trigger] stack_ids@[k] == q;
                            assert(k < stack_ids@.len() - 1);
                            assert(before_push[k] == q);
                            assert(before_levels[k] < level);
                            assert(open_before(levels@, retained@, q, position as int));
                        }
                        if open_before(levels@, retained@, q, position + 1) {
                            assert(open_before(levels@, retained@, q, position as int));
                            assert(!(levels@[position as int] <= levels@[q]));
                            let k = choose|k: int|
                                0 <= k < before_push.len() && #[trigger] before_push[k] == q;
                            assert(stack_ids@[k] == q);
                        }
                    }
                }
            }
        }
        position = position + 1;
    }
    result
}

} // verus!

verus! {

broadcast use vstd::seq_lib::seq_to_set_is_finite;

/// Number of distinct values in `s`.
pub open spec fn distinct_count(s: Seq<i64>) -> nat {
    s.to_set().len()
}

/// Number of distinct values in `s` strictly below `x`.
pub open spec fn distinct_below(s: Seq<i64>, x: i64) -> nat {
    s.to_set().filter(|v: i64| v < x).len()
}

/// Number of distinct values in `s` strictly above `x`.
pub open spec fn distinct_above(s: Seq<i64>, x: i64) -> nat {
    s.to_set().filter(|v: i64| v > x).len()
}

spec fn count_where(d: Seq<i64>, x: i64, above: bool) -> nat
    decreases d.len(),
{
    if d.len() == 0 {
        0
    } else {
        count_where(d.drop_last(), x, above) + if (above && d.last() > x) || (!above && d.last()
            < x) {
            1nat
        } else {
            0nat
        }
    }
}

proof fn lemma_count_where_set(d: Seq<i64>, x: i64, above: bool)
    requires
        d.no_duplicates(),
    ensures
        above ==> count_where(d, x, above) == d.to_set().filter(|v: i64| v > x).len(),
        !above ==> count_where(d, x, above) == d.to_set().filter(|v: i64| v < x).len(),
    decreases d.len(),
{
    if d.len() == 0 {
        assert(d.to_set() =~= Set::empty());
        assert(d.to_set().filter(|v: i64| v > x) =~= Set::empty());
        assert(d.to_set().filter(|v: i64| v < x) =~= Set::empty());
    } else {
        let rest = d.drop_last();
        let a = d.last();
        assert(rest.no_duplicates()) by {
            assert forall|i: int, j: int| 0 <= i < rest.len() && 0 <= j < rest.len() && i != j implies rest[i] != rest[j] by {
                assert(rest[i] == d[i] && rest[j] == d[j]);
            }
        }
        lemma_count_where_set(rest, x, above);
        assert(rest.push(a) =~= d);
        crate::text::lemma_push_to_set(rest, a);
        assert(!rest.to_set().contains(a)) by {
            if rest.to_set().contains(a) {
                let i = choose|i: int| 0 <= i < rest.len() && rest[i] == a;
                assert(d[i] == d[d.len() - 1]);
            }
        }
        let above_pred = |v: i64| v > x;
        let below_pred = |v: i64| v < x;
        if above_pred(a) {
            assert(d.to_set().filter(above_pred) =~= rest.to_set().filter(above_pred).insert(a));
        } else {
            assert(d.to_set().filter(above_pred) =~= rest.to_set().filter(above_pred));
        }
        if below_pred(a) {
            assert(d.to_set().filter(below_pred) =~= rest.to_set().filter(below_pred).insert(a));
        } else {
            assert(d.to_set().filter(below_pred) =~= rest.to_set().filter(below_pred));
        }
    }
}

/// The distinct values of `values`, in first-occurrence order.
fn distinct(values: &Vec<i64>) -> (d: Vec<i64>)
    ensures
        d@.no_duplicates(),
        d@.to_set() == values@.to_set(),
{
    let mut d: Vec<i64> = Vec::new();
    let mut k: usize = 0;
    while k < values.len()
        invariant
            k <= values@.len(),
            d@.no_duplicates(),
            d@.to_set() == values@.take(k as int).to_set(),
        decreases values.len() - k,
    {
        let v = values[k];
        assert(values@.take(k + 1 as int) == values@.take(k as int).push(v));
        proof {
            crate::text::lemma_push_to_set(values@.take(k as int), v);
        }
        let mut found = false;
        let mut j: usize = 0;
        while j < d.len()
            invariant
                j <= d@.len(),
                found <==> exists|i: int| 0 <= i < j && d@[i] == v,
            decreases d.len() - j,
        {
            if d[j] == v {
                found = true;
            }
            j = j + 1;
        }
        if !found {
            let ghost before = d@;
            d.push(v);
            proof {
                crate::text::lemma_push_to_set(before, v);
                assert forall|x: int, y: int|
                    0 <= x < d@.len() && 0 <= y < d@.len() && x != y implies d@[x] != d@[y] by {
                    if y == d@.len() - 1 {
                        assert(before[x] != v);
                    } else if x == d@.len() - 1 {
                        assert(before[y] != v);
                    }
                }
            }
        } else {
            proof {
                let i = choose|i: int| 0 <= i < d@.len() && d@[i] == v;
                assert(d@.to_set().contains(v));
                assert(d@.to_set().insert(v) =~= d@.to_set());
            }
        }
        k = k + 1;
    }
    assert(values@.take(values@.len() as int) == values@);
    d
}

fn count_distinct_where(d: &Vec<i64>, x: i64, above: bool) -> (c: u64)
    requires
        d@.no_duplicates(),
    ensures
        above ==> c == d@.to_set().filter(|v: i64| v > x).len(),
        !above ==> c == d@.to_set().filter(|v: i64| v < x).len(),
        c <= d@.len(),
{
    let mut c: u64 = 0;
    let mut k: usize = 0;
    while k < d.len()
        invariant
            k <= d@.len(),
            c == count_where(d@.take(k as int), x, above),
            c <= k,
        decreases d.len() - k,
    {
        assert(d@.take(k + 1 as int).drop_last() == d@.take(k as int));
        if (above && d[k] > x) || (!above && d[k] < x) {
            c = c + 1;
        }
        k = k + 1;
    }
    assert(d@.take(d@.len() as int) == d@);
    proof {
        lemma_count_where_set(d@, x, above);
    }
    c
}

/// One entry's level decision.
#[derive(Debug, Clone)]
pub struct LevelDecision {
    pub level: u16,
    pub reason: String,
    pub ambiguous: bool,
}

/// One contents entry as seen by [`levels`]: its explicit numbering path,
/// its indentation bucket, and its line-height bucket (line height relative
/// to the tallest contents line, in tenths).
pub type LevelInput = (Option<Vec<u32>>, u32, i64);

/// Whether the entry carries a non-empty numbering path.
pub open spec fn numbered(e: (Option<Vec<u32>>, u32, i64)) -> bool {
    e.0 matches Some(path) && path@.len() > 0
}

/// Number of entries that carry a numbering path.
pub open spec fn count_numbered(entries: Seq<(Option<Vec<u32>>, u32, i64)>) -> nat
    decreases entries.len(),
{
    if entries.len() == 0 {
        0
    } else {
        count_numbered(entries.drop_last()) + if numbered(entries.last()) {
            1nat
        } else {
            0nat
        }
    }
}

pub open spec fn indent_values(entries: Seq<(Option<Vec<u32>>, u32, i64)>) -> Seq<i64> {
    entries.map_values(|e: (Option<Vec<u32>>, u32, i64)| e.1 as i64)
}

pub open spec fn height_values(entries: Seq<(Option<Vec<u32>>, u32, i64)>) -> Seq<i64> {
    entries.map_values(|e: (Option<Vec<u32>>, u32, i64)| e.2)
}

pub open spec fn min_u16(a: int, b: u16) -> u16 {
    if a <= b {
        a as u16
    } else {
        b
    }
}

/// The level before step clamping, and the rule that chose it:
/// 0 numbering path, 1 indentation cluster, 2 relative line height,
/// 3 flat default.
pub open spec fn raw_level(
    entries: Seq<(Option<Vec<u32>>, u32, i64)>,
    i: int,
    measured: bool,
    max_level: u16,
) -> (u16, int) {
    let e = entries[i];
    let di = distinct_count(indent_values(entries));
    let dh = distinct_count(height_values(entries));
    if numbered(e) && count_numbered(entries) * 2 >= entries.len() {
        (min_u16(e.0->0@.len() - 1, max_level), 0)
    } else if measured && 1 < di && di <= 4 {
        (min_u16(distinct_below(indent_values(entries), e.1 as i64) as int, max_level), 1)
    } else if measured && 1 < dh && dh <= 3 {
        (min_u16(distinct_above(height_values(entries), e.2) as int, max_level), 2)
    } else {
        (0, 3)
    }
}

/// The final level of entry `i` after clamping: the first entry is a root,
/// and no entry is more than one step deeper than its predecessor.
pub open spec fn final_level(
    entries: Seq<(Option<Vec<u32>>, u32, i64)>,
    i: int,
    measured: bool,
    max_level: u16,
) -> u16
    decreases i,
{
    if i <= 0 {
        0
    } else {
        let previous = final_level(entries, i - 1, measured, max_level);
        let raw = raw_level(entries, i, measured, max_level).0;
        if raw > previous + 1 {
            (previous + 1) as u16
        } else {
            raw
        }
    }
}

pub open spec fn rule_name(rule: int) -> Seq<char> {
    if rule == 0 {
        "numbering_path"@
    } else if rule == 1 {
        "indentation_cluster"@
    } else if rule == 2 {
        "relative_line_height"@
    } else {
        "flat_default"@
    }
}

/// Whether entry `i` had to be corrected by the clamping pass.
pub open spec fn clamped(
    entries: Seq<(Option<Vec<u32>>, u32, i64)>,
    i: int,
    measured: bool,
    max_level: u16,
) -> bool {
    final_level(entries, i, measured, max_level) != raw_level(entries, i, measured, max_level).0
}

/// The full decision for entry `i`.
pub open spec fn decision_ok(
    d: LevelDecision,
    entries: Seq<(Option<Vec<u32>>, u32, i64)>,
    i: int,
    measured: bool,
    max_level: u16,
) -> bool {
    let (raw, rule) = raw_level(entries, i, measured, max_level);
    let fixed = clamped(entries, i, measured, max_level);
    &&& d.level == final_level(entries, i, measured, max_level)
    &&& d.ambiguous == (rule == 2 || fixed)
    &&& d.reason@ == if !fixed {
        rule_name(rule)
    } else if i == 0 {
        rule_name(rule) + "_root_normalized"@
    } else {
        rule_name(rule) + "_level_clamped"@
    }
}

fn count_numbered_exec(entries: &[(Option<Vec<u32>>, u32, i64)]) -> (c: usize)
    ensures
        c == count_numbered(entries@),
{
    let mut c: usize = 0;
    let mut k: usize = 0;
    while k < entries.len()
        invariant
            k <= entries@.len(),
            c == count_numbered(entries@.take(k as int)),
            c <= k,
        decreases entries.len() - k,
    {
        assert(entries@.take(k + 1 as int).drop_last() == entries@.take(k as int));
        let is_numbered = match &entries[k].0 {
            Some(path) => path.len() > 0,
            None => false,
        };
        if is_numbered {
            c = c + 1;
        }
        k = k + 1;
    }
    assert(entries@.take(entries@.len() as int) == entries@);
    c
}

/// Decides a level per contents entry, in contents order.
pub fn levels(entries: &[(Option<Vec<u32>>, u32, i64)], measured_geometry: bool, config: &AutoBookmarkConfig) -> (
    decisions: Vec<LevelDecision>)
    requires
        forall|i: int|
            0 <= i < entries@.len() ==> ((#[trigger] entries@[i]).0 matches Some(path)
                ==> path@.len() <= u16::MAX),
    ensures
        decisions@.len() == entries@.len(),
        forall|i: int|
            0 <= i < entries@.len() ==> decision_ok(
                #[trigger] decisions@[i],
                entries@,
                i,
                measured_geometry,
                config.max_auto_level,
            ),
{
    let n = entries.len();
    let numbered_count = count_numbered_exec(entries);
    let mut indents: Vec<i64> = Vec::new();
    let mut heights: Vec<i64> = Vec::new();
    let mut k: usize = 0;
    while k < n
        invariant
            n == entries@.len(),
            k <= n,
            indents@ == indent_values(entries@).take(k as int),
            heights@ == height_values(entries@).take(k as int),
        decreases n - k,
    {
        indents.push(entries[k].1 as i64);
        heights.push(entries[k].2);
        k = k + 1;
        assert(indents@ =~= indent_values(entries@).take(k as int));
        assert(heights@ =~= height_values(entries@).take(k as int));
    }
    assert(indents@ =~= indent_values(entries@));
    assert(heights@ =~= height_values(entries@));
    let distinct_indents = distinct(&indents);
    let distinct_heights = distinct(&heights);
    proof {
        distinct_indents@.unique_seq_to_set();
        distinct_heights@.unique_seq_to_set();
    }
    let di = distinct_indents.len();
    let dh = distinct_heights.len();
    let max_level = config.max_auto_level;
    let mut decisions: Vec<LevelDecision> = Vec::new();
    let mut previous: u16 = 0;
    let mut i: usize = 0;
    while i < n
        invariant
            n == entries@.len(),
            i <= n,
            forall|j: int|
                0 <= j < entries@.len() ==> ((#[trigger] entries@[j]).0 matches Some(path)
                    ==> path@.len() <= u16::MAX),
            numbered_count == count_numbered(entries@),
            distinct_indents@.no_duplicates(),
            distinct_heights@.no_duplicates(),
            distinct_indents@.to_set() == indent_values(entries@).to_set(),
            distinct_heights@.to_set() == height_values(entries@).to_set(),
            di == distinct_count(indent_values(entries@)),
            dh == distinct_count(height_values(entries@)),
            max_level == config.max_auto_level,
            decisions@.len() == i,
            i > 0 ==> previous == final_level(entries@, i - 1, measured_geometry, max_level),
            forall|j: int|
                0 <= j < i ==> decision_ok(
                    #[trigger] decisions@[j],
                    entries@,
                    j,
                    measured_geometry,
                    max_level,
                ),
        decreases n - i,
    {
        let entry = &entries[i];
        let numbered_path_len: Option<usize> = match &entry.0 {
            Some(path) => if path.len() > 0 { Some(path.len()) } else { None },
            None => None,
        };
        let (raw, rule): (u16, u8) = match numbered_path_len {
            Some(len) if numbered_count as u128 * 2 >= n as u128 => {
                let depth = (len - 1) as u16;
                (if depth <= max_level { depth } else { max_level }, 0)
            },
            _ => {
                if measured_geometry && 1 < di && di <= 4 {
                    let rank = count_distinct_where(&distinct_indents, entry.1 as i64, false);
                    (if rank <= max_level as u64 { rank as u16 } else { max_level }, 1)
                } else if measured_geometry && 1 < dh && dh <= 3 {
                    let rank = count_distinct_where(&distinct_heights, entry.2, true);
                    (if rank <= max_level as u64 { rank as u16 } else { max_level }, 2)
                } else {
                    (0, 3)
                }
            },
        };
        assert(entries@[i as int] == *entry);
        assert(raw == raw_level(entries@, i as int, measured_geometry, max_level).0);
        assert(rule == raw_level(entries@, i as int, measured_geometry, max_level).1);
        let name = if rule == 0 {
            "numbering_path"
        } else if rule == 1 {
            "indentation_cluster"
        } else if rule == 2 {
            "relative_line_height"
        } else {
            "flat_default"
        };
        let (level, fixed, suffix) = if i == 0 {
            if raw > 0 {
                (0u16, true, "_root_normalized")
            } else {
                (raw, false, "")
            }
        } else if raw as u32 > previous as u32 + 1 {
            ((previous + 1) as u16, true, "_level_clamped")
        } else {
            (raw, false, "")
        };
        let reason = if fixed {
            concat(name, suffix)
        } else {
            name.to_owned()
        };
        decisions.push(LevelDecision { level, reason, ambiguous: rule == 2 || fixed });
        previous = level;
        i = i + 1;
    }
    decisions
}

/// Law: explicit numbering comes first. When at least half of the entries
/// carry a non-empty numbering path, every numbered entry takes its level
/// from its path (its depth, at most the configured maximum) by the
/// numbering rule, whatever its indentation or line height.
pub proof fn lemma_numbering_majority_decides(
    entries: Seq<(Option<Vec<u32>>, u32, i64)>,
    i: int,
    measured: bool,
    max_level: u16,
)
    requires
        0 <= i < entries.len(),
        count_numbered(entries) * 2 >= entries.len(),
        entries[i].0 matches Some(path) && path@.len() > 0,
    ensures
        raw_level(entries, i, measured, max_level).1 == 0,
        rule_name(raw_level(entries, i, measured, max_level).1) == "numbering_path"@,
        raw_level(entries, i, measured, max_level).0 as int == if entries[i].0->0@.len() - 1 <= max_level {
            entries[i].0->0@.len() - 1
        } else {
            max_level as int
        },
{
}

/// Law: without measured geometry, an entry that the numbering rule does
/// not decide (it has no path, or fewer than half of the entries are
/// numbered) is a root by the flat default.
pub proof fn lemma_unmeasured_flat_default(
    entries: Seq<(Option<Vec<u32>>, u32, i64)>,
    i: int,
    max_level: u16,
)
    requires
        0 <= i < entries.len(),
        !(entries[i].0 matches Some(path) && path@.len() > 0) || count_numbered(entries) * 2 < entries.len(),
    ensures
        raw_level(entries, i, false, max_level) == (0u16, 3int),
        rule_name(raw_level(entries, i, false, max_level).1) == "flat_default"@,
{
}

/// Levels never skip a step: the first entry is a root and every entry is
/// at most one level deeper than the one before it.
pub proof fn lemma_levels_never_skip(
    entries: Seq<(Option<Vec<u32>>, u32, i64)>,
    i: int,
    measured: bool,
    max_level: u16,
)
    requires
        0 <= i < entries.len(),
    ensures
        i == 0 ==> final_level(entries, i, measured, max_level) == 0,
        i > 0 ==> final_level(entries, i, measured, max_level) <= final_level(
            entries,
            i - 1,
            measured,
            max_level,
        ) + 1,
{
}

} // verus!

verus! {

// ---------------------------------------------------------------------------
// Promotion past unwritten parents
// ---------------------------------------------------------------------------

/// Every parent link points to an earlier candidate.
pub open spec fn links_backward(parents: Seq<Option<usize>>) -> bool {
    forall|i: int| 0 <= i < parents.len() ==> (#[trigger] parents[i] matches Some(j) ==> j < i)
}

/// The candidate reached from parent link `p` by skipping candidates that
/// are not written: the nearest written ancestor, if any.
pub open spec fn written_ancestor(parents: Seq<Option<usize>>, writes: Seq<bool>, p: Option<usize>) -> Option<usize>
    decreases (match p {
        Some(i) => i + 1,
        None => 0,
    }),
{
    match p {
        None => None,
        Some(i) => if i >= parents.len() || i >= writes.len() {
            None
        } else if writes[i as int] {
            Some(i)
        } else {
            match parents[i as int] {
                Some(j) => if j < i {
                    written_ancestor(parents, writes, Some(j))
                } else {
                    None
                },
                None => None,
            }
        },
    }
}

/// Whether candidate `a` is reached from parent link `p` by following links.
pub open spec fn reaches(parents: Seq<Option<usize>>, p: Option<usize>, a: usize) -> bool
    decreases (match p {
        Some(i) => i + 1,
        None => 0,
    }),
{
    match p {
        None => false,
        Some(i) => if i >= parents.len() {
            false
        } else if i == a {
            true
        } else {
            match parents[i as int] {
                Some(j) => j < i && reaches(parents, Some(j), a),
                None => false,
            }
        },
    }
}

/// The parent each candidate keeps once candidates that are not written
/// are skipped, and whether skipping happened. Candidates that are not
/// written keep their link as it is.
pub fn promote_to_written(parents: &[Option<usize>], writes: &[bool]) -> (r: Vec<(Option<usize>, bool)>)
    requires
        parents@.len() == writes@.len(),
        links_backward(parents@),
    ensures
        r@.len() == parents@.len(),
        forall|i: int| 0 <= i < r@.len() ==> #[trigger] r@[i] == if writes@[i] {
            (
                written_ancestor(parents@, writes@, parents@[i]),
                parents@[i] matches Some(j) && !writes@[j as int],
            )
        } else {
            (parents@[i], false)
        },
{
    let mut r: Vec<(Option<usize>, bool)> = Vec::new();
    let mut i: usize = 0;
    while i < parents.len()
        invariant
            i <= parents@.len(),
            parents@.len() == writes@.len(),
            links_backward(parents@),
            r@.len() == i,
            forall|k: int| 0 <= k < i ==> #[trigger] r@[k] == if writes@[k] {
                (
                    written_ancestor(parents@, writes@, parents@[k]),
                    parents@[k] matches Some(j) && !writes@[j as int],
                )
            } else {
                (parents@[k], false)
            },
        decreases parents.len() - i,
    {
        if !writes[i] {
            r.push((parents[i], false));
        } else {
            let mut current = parents[i];
            let mut promoted = false;
            assert(parents@[i as int] matches Some(j) ==> j < i);
            loop
                invariant
                    i < parents@.len(),
                    parents@.len() == writes@.len(),
                    links_backward(parents@),
                    current matches Some(c) ==> c < i,
                    written_ancestor(parents@, writes@, current) == written_ancestor(parents@, writes@, parents@[i as int]),
                    promoted ==> (parents@[i as int] matches Some(j) && !writes@[j as int]),
                    !promoted ==> current == parents@[i as int],
                ensures
                    current == written_ancestor(parents@, writes@, parents@[i as int]),
                    promoted == (parents@[i as int] matches Some(j) && !writes@[j as int]),
                decreases (match current {
                    Some(c) => c + 1,
                    None => 0,
                }),
            {
                match current {
                    None => break,
                    Some(c) => {
                        if writes[c] {
                            break;
                        }
                        let next = parents[c];
                        assert(next matches Some(j) ==> j < c);
                        current = next;
                        promoted = true;
                    },
                }
            }
            r.push((current, promoted));
        }
        i = i + 1;
    }
    r
}

/// Parent links that always point to a strictly shallower candidate, as
/// [`parents`] produces them.
pub open spec fn links_shallower(parents: Seq<Option<usize>>, levels: Seq<u16>) -> bool {
    forall|i: int|
        0 <= i < parents.len() ==> (#[trigger] parents[i] matches Some(j) ==> j < i && j < levels.len()
            && levels[j as int] < levels[i])
}

/// Promotion lands on a written candidate reached by following parent
/// links, and, where every link leads to a shallower candidate, on one
/// shallower than the link it started from.
pub proof fn lemma_written_ancestor(
    parents: Seq<Option<usize>>,
    writes: Seq<bool>,
    levels: Seq<u16>,
    p: Option<usize>,
)
    requires
        parents.len() == writes.len(),
        parents.len() == levels.len(),
        links_backward(parents),
    ensures
        written_ancestor(parents, writes, p) matches Some(a) ==> (a < parents.len() && writes[a as int]
            && reaches(parents, p, a)),
        links_shallower(parents, levels) ==> (written_ancestor(parents, writes, p) matches Some(a)
            ==> (p matches Some(q) && levels[a as int] <= levels[q as int])),
    decreases (match p {
        Some(i) => i + 1,
        None => 0,
    }),
{
    if let Some(i) = p {
        if i < parents.len() && !writes[i as int] {
            if let Some(j) = parents[i as int] {
                assert(j < i);
                lemma_written_ancestor(parents, writes, levels, Some(j));
            }
        }
    }
}

/// Law: after promotion, every written candidate's parent is written, is one
/// of its ancestors, and, where links lead to shallower candidates, sits
/// strictly above it.
pub proof fn lemma_promotion_keeps_hierarchy(
    parents: Seq<Option<usize>>,
    writes: Seq<bool>,
    levels: Seq<u16>,
    i: int,
)
    requires
        parents.len() == writes.len(),
        parents.len() == levels.len(),
        links_backward(parents),
        0 <= i < parents.len(),
        writes[i],
    ensures
        written_ancestor(parents, writes, parents[i]) matches Some(a) ==> (writes[a as int] && reaches(
            parents,
            parents[i],
            a,
        )),
        links_shallower(parents, levels) ==> (written_ancestor(parents, writes, parents[i]) matches Some(a)
            ==> levels[a as int] < levels[i]),
{
    lemma_written_ancestor(parents, writes, levels, parents[i]);
}

/// Level repair: a candidate whose parent is not strictly shallower is moved
/// one level below it. Parent levels are read before any repair.
pub open spec fn repaired_level(levels: Seq<u16>, parents: Seq<Option<usize>>, i: int) -> int {
    match parents[i] {
        Some(p) => if levels[p as int] >= levels[i] {
            levels[p as int] + 1
        } else {
            levels[i] as int
        },
        None => levels[i] as int,
    }
}

/// Moves each candidate below its parent where it is not already deeper.
pub fn normalize_levels(levels: &[u16], parents: &[Option<usize>]) -> (r: Vec<u16>)
    requires
        levels@.len() == parents@.len(),
        forall|i: int| 0 <= i < parents@.len() ==> (#[trigger] parents@[i] matches Some(p) ==> p < levels@.len()
            && levels@[p as int] < u16::MAX),
    ensures
        r@.len() == levels@.len(),
        forall|i: int| 0 <= i < r@.len() ==> #[trigger] r@[i] == repaired_level(levels@, parents@, i),
{
    let mut r: Vec<u16> = Vec::new();
    let mut i: usize = 0;
    while i < levels.len()
        invariant
            i <= levels@.len(),
            levels@.len() == parents@.len(),
            forall|k: int| 0 <= k < parents@.len() ==> (#[trigger] parents@[k] matches Some(p) ==> p < levels@.len()
                && levels@[p as int] < u16::MAX),
            r@.len() == i,
            forall|k: int| 0 <= k < i ==> #[trigger] r@[k] == repaired_level(levels@, parents@, k),
        decreases levels.len() - i,
    {
        let level = match parents[i] {
            Some(p) => if levels[p] >= levels[i] {
                levels[p] + 1
            } else {
                levels[i]
            },
            None => levels[i],
        };
        assert(parents@[i as int] matches Some(p) ==> p < levels@.len() && levels@[p as int] < u16::MAX);
        r.push(level);
        i = i + 1;
    }
    r
}

/// Law: where every parent is already shallower, level repair changes
/// nothing.
pub proof fn lemma_repair_keeps_sound_levels(levels: Seq<u16>, parents: Seq<Option<usize>>, i: int)
    requires
        0 <= i < parents.len(),
        parents.len() == levels.len(),
        parents[i] matches Some(p) ==> (p < levels.len() && levels[p as int] < levels[i]),
    ensures
        repaired_level(levels, parents, i) == levels[i],
{
}

/// The reason code a promoted candidate carries.
pub const PARENT_PROMOTED: &'static str = "parent_promoted_to_nearest_ancestor";

/// Records a promotion in a candidate's reason codes, once, and only while
/// fewer than 32 codes are held.
pub fn note_promotion(codes: &mut Vec<String>)
    ensures
        !views(old(codes)@).contains(PARENT_PROMOTED@) && old(codes)@.len() < 32 ==> views(final(codes)@)
            == views(old(codes)@).push(PARENT_PROMOTED@),
        !(!views(old(codes)@).contains(PARENT_PROMOTED@) && old(codes)@.len() < 32) ==> final(codes)@
            == old(codes)@,
{
    if !list_contains(codes.as_slice(), PARENT_PROMOTED) && codes.len() < 32 {
        push_owned(codes, PARENT_PROMOTED);
    }
}

/// The reason codes of a promoted candidate: the promotion marker is added
/// once, while there is room for it.
pub open spec fn with_promotion(codes: Seq<Seq<char>>) -> Seq<Seq<char>> {
    if !codes.contains(PARENT_PROMOTED@) && codes.len() < 32 {
        codes.push(PARENT_PROMOTED@)
    } else {
        codes
    }
}

fn copy_strings(list: &[String]) -> (r: Vec<String>)
    ensures
        views(r@) == views(list@),
{
    let mut r: Vec<String> = Vec::new();
    let mut i: usize = 0;
    while i < list.len()
        invariant
            i <= list@.len(),
            views(r@) == views(list@).take(i as int),
        decreases list.len() - i,
    {
        push_owned(&mut r, list[i].as_str());
        i = i + 1;
        assert(views(list@).take(i as int) =~= views(list@).take(i - 1 as int).push(list@[i - 1]@));
    }
    assert(views(list@).take(list@.len() as int) =~= views(list@));
    r
}

/// Settles the hierarchy of the candidates once their statuses are decided: each written
/// candidate whose parent is not written is moved under its nearest written
/// ancestor and marked as promoted, then every candidate is moved below its
/// parent where it is not already deeper (see [`promote_to_written`] and
/// [`normalize_levels`]).
pub fn settle_written(levels: &[u16], parents: &[Option<usize>], writes: &[bool], codes: &[Vec<String>]) -> (r: (
    Vec<Option<usize>>,
    Vec<u16>,
    Vec<Vec<String>>,
))
    requires
        parents@.len() == levels@.len(),
        writes@.len() == levels@.len(),
        codes@.len() == levels@.len(),
        links_backward(parents@),
        forall|i: int| 0 <= i < levels@.len() ==> #[trigger] levels@[i] < u16::MAX,
    ensures
        r.0@.len() == levels@.len(),
        r.1@.len() == levels@.len(),
        r.2@.len() == levels@.len(),
        forall|i: int|
            0 <= i < levels@.len() ==> #[trigger] r.0@[i] == if writes@[i] {
                written_ancestor(parents@, writes@, parents@[i])
            } else {
                parents@[i]
            },
        forall|i: int| 0 <= i < levels@.len() ==> #[trigger] r.1@[i] == repaired_level(levels@, r.0@, i),
        forall|i: int|
            0 <= i < levels@.len() ==> views((#[trigger] r.2@[i])@) == if (writes@[i] && (parents@[i] matches Some(
                j,
            ) && !writes@[j as int])) {
                with_promotion(views(codes@[i]@))
            } else {
                views(codes@[i]@)
            },
{
    let promoted = promote_to_written(parents, writes);
    let mut new_parents: Vec<Option<usize>> = Vec::new();
    let mut new_codes: Vec<Vec<String>> = Vec::new();
    let mut i: usize = 0;
    while i < levels.len()
        invariant
            i <= levels@.len(),
            parents@.len() == levels@.len(),
            writes@.len() == levels@.len(),
            codes@.len() == levels@.len(),
            links_backward(parents@),
            promoted@.len() == levels@.len(),
            forall|k: int| 0 <= k < promoted@.len() ==> #[trigger] promoted@[k] == if writes@[k] {
                (
                    written_ancestor(parents@, writes@, parents@[k]),
                    parents@[k] matches Some(j) && !writes@[j as int],
                )
            } else {
                (parents@[k], false)
            },
            new_parents@.len() == i,
            new_codes@.len() == i,
            forall|k: int| 0 <= k < i ==> #[trigger] new_parents@[k] == promoted@[k].0,
            forall|k: int| 0 <= k < i ==> (#[trigger] new_parents@[k] matches Some(p) ==> p < levels@.len()),
            forall|k: int|
                0 <= k < i ==> views((#[trigger] new_codes@[k])@) == if promoted@[k].1 {
                    with_promotion(views(codes@[k]@))
                } else {
                    views(codes@[k]@)
                },
        decreases levels.len() - i,
    {
        let (p, flag) = promoted[i];
        proof {
            lemma_written_ancestor(parents@, writes@, levels@, parents@[i as int]);
        }
        let mut c = copy_strings(codes[i].as_slice());
        if flag {
            note_promotion(&mut c);
        }
        new_parents.push(p);
        new_codes.push(c);
        i = i + 1;
    }
    let new_levels = normalize_levels(levels, new_parents.as_slice());
    (new_parents, new_levels, new_codes)
}

} // verus!
