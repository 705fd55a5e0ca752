//! The monotone assignment of contents entries to body headings: at most
//! one target per entry, the chosen targets strictly advancing through the
//! document in contents order, and the greatest total preliminary score
//! that any such assignment can reach.
//!
//! A target's position is its key in reading order: the page index, the
//! rounded top of its line, then the line ID.

use vstd::prelude::*;

use super::compile::{
    margin_spec, preliminary_scores, preliminary_spec, runner_up_margin, score_fits, EntryFacts,
};
use super::config::AutoBookmarkConfig;
use super::mapping::PageMapping;
use crate::sorting::{key_before, key_less, key_view, lemma_key_order, KeyView, SortKey};

verus! {

/// The reading-order key of target `t` of entry `i`.
pub open spec fn target_key(positions: Seq<Vec<SortKey>>, i: int, t: int) -> KeyView {
    key_view(positions[i]@[t])
}

/// Whether `sel` names at most one existing target per entry, and every two
/// chosen targets stand in the document in the order of their entries.
pub open spec fn is_monotone_selection(positions: Seq<Vec<SortKey>>, sel: Seq<Option<usize>>) -> bool {
    &&& sel.len() == positions.len()
    &&& forall|i: int|
        0 <= i < sel.len() && (#[trigger] sel[i]) is Some ==> (sel[i]->0 as int) < positions[i]@.len()
    &&& forall|i: int, j: int|
        #![trigger sel[i], sel[j]]
        0 <= i < j < sel.len() && sel[i] is Some && sel[j] is Some ==> key_before(
            target_key(positions, i, sel[i]->0 as int),
            target_key(positions, j, sel[j]->0 as int),
        )
}

/// The total preliminary score of what `sel` chooses among the first `k`
/// entries.
pub open spec fn selection_score(scores: Seq<Vec<u32>>, sel: Seq<Option<usize>>, k: int) -> int
    decreases k,
{
    if k <= 0 {
        0
    } else {
        selection_score(scores, sel, k - 1) + match sel[k - 1] {
            Some(t) => scores[k - 1]@[t as int] as int,
            None => 0,
        }
    }
}

/// The largest value a chain of targets may reach: every entry adds at most
/// `u32::MAX`.
spec fn chain_cap(i: int) -> int {
    (i + 1) * 0xffff_ffff
}

/// No monotone selection that chooses target `t` of entry `j` scores more
/// than `v` over the entries up to and including `j`.
spec fn dominates(positions: Seq<Vec<SortKey>>, scores: Seq<Vec<u32>>, j: int, t: int, v: int) -> bool {
    forall|s: Seq<Option<usize>>|
        #![trigger is_monotone_selection(positions, s), s[j]]
        is_monotone_selection(positions, s) && s[j] == Some(t as usize) ==> selection_score(
            scores,
            s,
            j,
        ) + scores[j]@[t] <= v
}

/// How the chain ending at target `t` of entry `i`, of value `v`, continues
/// backwards.
spec fn link_ok(
    positions: Seq<Vec<SortKey>>,
    scores: Seq<Vec<u32>>,
    values: Seq<Vec<u64>>,
    i: int,
    t: int,
    v: u64,
    prev: Option<(usize, usize)>,
) -> bool {
    match prev {
        None => v == scores[i]@[t],
        Some(p) => {
            &&& (p.0 as int) < i
            &&& (p.1 as int) < positions[p.0 as int]@.len()
            &&& key_before(target_key(positions, p.0 as int, p.1 as int), target_key(positions, i, t))
            &&& v == values[p.0 as int]@[p.1 as int] + scores[i]@[t]
        },
    }
}

/// Over the first `m` entries, a monotone selection whose choices all lie
/// before `bound_key` (when there is one) scores at most `b`, given that no
/// chain ending at such a target is worth more than `b`.
proof fn lemma_bounded(
    positions: Seq<Vec<SortKey>>,
    scores: Seq<Vec<u32>>,
    values: Seq<Vec<u64>>,
    s: Seq<Option<usize>>,
    m: int,
    bound_key: Option<KeyView>,
    b: int,
)
    requires
        is_monotone_selection(positions, s),
        0 <= m <= s.len(),
        b >= 0,
        forall|i: int, t: int|
            0 <= i < m && 0 <= t < positions[i]@.len() ==> dominates(
                positions,
                scores,
                i,
                t,
                #[trigger] values[i]@[t] as int,
            ),
        forall|i: int, t: int|
            0 <= i < m && 0 <= t < positions[i]@.len() && (bound_key is None || key_before(
                target_key(positions, i, t),
                bound_key->0,
            )) ==> #[trigger] values[i]@[t] <= b,
        forall|i: int|
            0 <= i < m && (#[trigger] s[i]) is Some ==> bound_key is None || key_before(
                target_key(positions, i, s[i]->0 as int),
                bound_key->0,
            ),
    ensures
        selection_score(scores, s, m) <= b,
    decreases m,
{
    if m > 0 {
        match s[m - 1] {
            None => {
                lemma_bounded(positions, scores, values, s, m - 1, bound_key, b);
            },
            Some(t) => {
                let v = values[m - 1]@[t as int];
                assert(dominates(positions, scores, m - 1, t as int, v as int));
                assert(is_monotone_selection(positions, s) && s[m - 1] == Some(t));
            },
        }
    }
}

/// Choosing target `t` at entry `c`, where nothing was chosen, adds that
/// target's score to every total that reaches past `c`.
proof fn lemma_score_update(scores: Seq<Vec<u32>>, s: Seq<Option<usize>>, c: int, t: usize, k: int)
    requires
        0 <= c < s.len(),
        s[c] is None,
        0 <= k <= s.len(),
    ensures
        selection_score(scores, s.update(c, Some(t)), k) == selection_score(scores, s, k) + if c
            < k {
            scores[c]@[t as int] as int
        } else {
            0
        },
    decreases k,
{
    if k > 0 {
        lemma_score_update(scores, s, c, t, k - 1);
    }
}

/// The best chain value among targets of earlier entries that stand before
/// target `t` of entry `j`, or 0 where there is none, with the first target
/// that reaches it.
fn best_before(positions: &[Vec<SortKey>], values: &Vec<Vec<u64>>, j: usize, t: usize) -> (r: (
    u64,
    Option<(usize, usize)>,
))
    requires
        j < positions.len(),
        t < positions[j as int]@.len(),
        values@.len() == j,
        forall|i: int| 0 <= i < j ==> (#[trigger] values@[i])@.len() == positions[i]@.len(),
        forall|i: int, u: int|
            0 <= i < j && 0 <= u < positions[i]@.len() ==> #[trigger] values@[i]@[u] <= chain_cap(i),
    ensures
        r.0 <= chain_cap(j - 1),
        forall|i: int, u: int|
            0 <= i < j && 0 <= u < positions[i]@.len() && key_before(
                target_key(positions@, i, u),
                target_key(positions@, j as int, t as int),
            ) ==> #[trigger] values@[i]@[u] <= r.0,
        match r.1 {
            None => r.0 == 0,
            Some(p) => {
                &&& (p.0 as int) < j
                &&& (p.1 as int) < positions[p.0 as int]@.len()
                &&& key_before(
                    target_key(positions@, p.0 as int, p.1 as int),
                    target_key(positions@, j as int, t as int),
                )
                &&& r.0 == values@[p.0 as int]@[p.1 as int]
            },
        },
{
    let mut best: u64 = 0;
    let mut prev: Option<(usize, usize)> = None;
    let mut i: usize = 0;
    while i < j
        invariant
            i <= j,
            j < positions.len(),
            t < positions[j as int]@.len(),
            values@.len() == j,
            forall|k: int| 0 <= k < j ==> (#[trigger] values@[k])@.len() == positions[k]@.len(),
            forall|k: int, u: int|
                0 <= k < j && 0 <= u < positions[k]@.len() ==> #[trigger] values@[k]@[u] <= chain_cap(
                    k,
                ),
            best <= chain_cap(j - 1),
            forall|k: int, u: int|
                0 <= k < i && 0 <= u < positions[k]@.len() && key_before(
                    target_key(positions@, k, u),
                    target_key(positions@, j as int, t as int),
                ) ==> #[trigger] values@[k]@[u] <= best,
            match prev {
                None => best == 0,
                Some(p) => {
                    &&& (p.0 as int) < j
                    &&& (p.1 as int) < positions[p.0 as int]@.len()
                    &&& key_before(
                        target_key(positions@, p.0 as int, p.1 as int),
                        target_key(positions@, j as int, t as int),
                    )
                    &&& best == values@[p.0 as int]@[p.1 as int]
                },
            },
        decreases j - i,
    {
        let mut u: usize = 0;
        while u < positions[i].len()
            invariant
                i < j,
                j < positions.len(),
                t < positions[j as int]@.len(),
                u <= positions[i as int]@.len(),
                values@.len() == j,
                forall|k: int| 0 <= k < j ==> (#[trigger] values@[k])@.len() == positions[k]@.len(),
                forall|k: int, w: int|
                    0 <= k < j && 0 <= w < positions[k]@.len() ==> #[trigger] values@[k]@[w]
                        <= chain_cap(k),
                best <= chain_cap(j - 1),
                forall|k: int, w: int|
                    0 <= k < i && 0 <= w < positions[k]@.len() && key_before(
                        target_key(positions@, k, w),
                        target_key(positions@, j as int, t as int),
                    ) ==> #[trigger] values@[k]@[w] <= best,
                forall|w: int|
                    0 <= w < u && key_before(
                        target_key(positions@, i as int, w),
                        target_key(positions@, j as int, t as int),
                    ) ==> #[trigger] values@[i as int]@[w] <= best,
                match prev {
                    None => best == 0,
                    Some(p) => {
                        &&& (p.0 as int) < j
                        &&& (p.1 as int) < positions[p.0 as int]@.len()
                        &&& key_before(
                            target_key(positions@, p.0 as int, p.1 as int),
                            target_key(positions@, j as int, t as int),
                        )
                        &&& best == values@[p.0 as int]@[p.1 as int]
                    },
                },
            decreases positions[i as int]@.len() - u,
        {
            let before = key_less(&positions[i][u], &positions[j][t]);
            let v = values[i][u];
            assert(v <= chain_cap(i as int));
            if before && v > best {
                best = v;
                prev = Some((i, u));
            }
            u = u + 1;
        }
        i = i + 1;
    }
    (best, prev)
}

/// Chooses at most one target per contents entry so that the chosen targets
/// never move backwards through the document: among all such choices, one
/// with the greatest total preliminary score. An entry whose targets would
/// all break the order is left unassigned.
///
/// `positions[i][t]` is the reading-order key of target `t` of entry `i`,
/// and `preliminary[i][t]` its preliminary score.
pub fn monotonic_selection(positions: &[Vec<SortKey>], preliminary: &[Vec<u32>]) -> (sel: Vec<
    Option<usize>,
>)
    requires
        preliminary.len() >= positions.len(),
        forall|i: int|
            0 <= i < positions.len() ==> (#[trigger] preliminary[i])@.len() >= positions[i]@.len(),
        positions.len() <= u32::MAX,
    ensures
        is_monotone_selection(positions@, sel@),
        forall|s: Seq<Option<usize>>|
            #[trigger] is_monotone_selection(positions@, s) ==> selection_score(
                preliminary@,
                s,
                positions.len() as int,
            ) <= selection_score(preliminary@, sel@, positions.len() as int),
{
    let n = positions.len();
    let ghost pos = positions@;
    let ghost w = preliminary@;
    let mut values: Vec<Vec<u64>> = Vec::new();
    let mut prevs: Vec<Vec<Option<(usize, usize)>>> = Vec::new();
    let mut j: usize = 0;
    while j < n
        invariant
            j <= n,
            n == positions.len(),
            pos == positions@,
            w == preliminary@,
            n <= u32::MAX,
            preliminary.len() >= n,
            forall|i: int| 0 <= i < n ==> (#[trigger] preliminary[i])@.len() >= positions[i]@.len(),
            values@.len() == j,
            prevs@.len() == j,
            forall|i: int|
                0 <= i < j ==> (#[trigger] values@[i])@.len() == positions[i]@.len() && prevs@[i]@.len()
                    == positions[i]@.len(),
            forall|i: int, t: int|
                0 <= i < j && 0 <= t < positions[i]@.len() ==> #[trigger] values@[i]@[t] <= chain_cap(
                    i,
                ),
            forall|i: int, t: int|
                0 <= i < j && 0 <= t < positions[i]@.len() ==> dominates(
                    pos,
                    w,
                    i,
                    t,
                    #[trigger] values@[i]@[t] as int,
                ),
            forall|i: int, t: int|
                0 <= i < j && 0 <= t < positions[i]@.len() ==> link_ok(
                    pos,
                    w,
                    values@,
                    i,
                    t,
                    #[trigger] values@[i]@[t],
                    prevs@[i]@[t],
                ),
        decreases n - j,
    {
        let mut row: Vec<u64> = Vec::new();
        let mut links: Vec<Option<(usize, usize)>> = Vec::new();
        let mut t: usize = 0;
        while t < positions[j].len()
            invariant
                j < n,
                n == positions.len(),
                pos == positions@,
                w == preliminary@,
                n <= u32::MAX,
                preliminary.len() >= n,
                forall|i: int|
                    0 <= i < n ==> (#[trigger] preliminary[i])@.len() >= positions[i]@.len(),
                t <= positions[j as int]@.len(),
                values@.len() == j,
                row@.len() == t,
                links@.len() == t,
                forall|i: int|
                    0 <= i < j ==> (#[trigger] values@[i])@.len() == positions[i]@.len(),
                forall|i: int, u: int|
                    0 <= i < j && 0 <= u < positions[i]@.len() ==> #[trigger] values@[i]@[u]
                        <= chain_cap(i),
                forall|i: int, u: int|
                    0 <= i < j && 0 <= u < positions[i]@.len() ==> dominates(
                        pos,
                        w,
                        i,
                        u,
                        #[trigger] values@[i]@[u] as int,
                    ),
                forall|u: int| 0 <= u < t ==> #[trigger] row@[u] <= chain_cap(j as int),
                forall|u: int|
                    0 <= u < t ==> dominates(pos, w, j as int, u, #[trigger] row@[u] as int),
                forall|u: int|
                    0 <= u < t ==> link_ok(
                        pos,
                        w,
                        values@,
                        j as int,
                        u,
                        #[trigger] row@[u],
                        links@[u],
                    ),
            decreases positions[j as int]@.len() - t,
        {
            let (best, prev) = best_before(positions, &values, j, t);
            let score = preliminary[j][t];
            assert(best + score <= chain_cap(j as int));
            let v: u64 = best + score as u64;
            proof {
                assert forall|s: Seq<Option<usize>>|
                    #![trigger is_monotone_selection(pos, s), s[j as int]]
                    is_monotone_selection(pos, s) && s[j as int] == Some(
                        t,
                    ) implies selection_score(w, s, j as int) + w[j as int]@[t as int] <= v by {
                    assert forall|i: int|
                        0 <= i < j && (#[trigger] s[i]) is Some implies key_before(
                        target_key(pos, i, s[i]->0 as int),
                        target_key(pos, j as int, t as int),
                    ) by {
                        assert(s[i] is Some && s[j as int] is Some);
                    }
                    lemma_bounded(
                        pos,
                        w,
                        values@,
                        s,
                        j as int,
                        Some(target_key(pos, j as int, t as int)),
                        best as int,
                    );
                }
                assert(dominates(pos, w, j as int, t as int, v as int));
            }
            row.push(v);
            links.push(prev);
            t = t + 1;
        }
        proof {
            let old_values = values@;
            assert forall|i: int, u: int|
                0 <= i < j && 0 <= u < positions[i]@.len() implies link_ok(
                pos,
                w,
                old_values.push(row),
                i,
                u,
                old_values.push(row)[i]@[u],
                prevs@.push(links)[i]@[u],
            ) by {
                assert(link_ok(pos, w, old_values, i, u, old_values[i]@[u], prevs@[i]@[u]));
                assert(old_values.push(row)[i] == old_values[i]);
                assert(prevs@.push(links)[i] == prevs@[i]);
                match prevs@[i]@[u] {
                    None => {},
                    Some(p) => {
                        assert(old_values.push(row)[p.0 as int] == old_values[p.0 as int]);
                    },
                }
            }
            assert forall|u: int| 0 <= u < positions[j as int]@.len() implies link_ok(
                pos,
                w,
                old_values.push(row),
                j as int,
                u,
                old_values.push(row)[j as int]@[u],
                prevs@.push(links)[j as int]@[u],
            ) by {
                assert(link_ok(pos, w, old_values, j as int, u, row@[u], links@[u]));
                assert(old_values.push(row)[j as int] == row);
                match links@[u] {
                    None => {},
                    Some(p) => {
                        assert(old_values.push(row)[p.0 as int] == old_values[p.0 as int]);
                    },
                }
            }
        }
        values.push(row);
        prevs.push(links);
        j = j + 1;
    }
    // The most valuable chain end, the first one on ties.
    let mut top: Option<(usize, usize)> = None;
    let mut top_value: u64 = 0;
    let mut i: usize = 0;
    while i < n
        invariant
            i <= n,
            n == positions.len(),
            values@.len() == n,
            forall|k: int| 0 <= k < n ==> (#[trigger] values@[k])@.len() == positions[k]@.len(),
            forall|k: int, u: int|
                0 <= k < i && 0 <= u < positions[k]@.len() ==> #[trigger] values@[k]@[u] <= top_value,
            match top {
                None => top_value == 0 && forall|k: int| 0 <= k < i ==> (#[trigger] positions[k]@).len()
                    == 0,
                Some(p) => (p.0 as int) < n && (p.1 as int) < positions[p.0 as int]@.len()
                    && top_value == values@[p.0 as int]@[p.1 as int],
            },
        decreases n - i,
    {
        let mut u: usize = 0;
        while u < values[i].len()
            invariant
                i < n,
                n == positions.len(),
                values@.len() == n,
                u <= values@[i as int]@.len(),
                forall|k: int| 0 <= k < n ==> (#[trigger] values@[k])@.len() == positions[k]@.len(),
                forall|k: int, w: int|
                    0 <= k < i && 0 <= w < positions[k]@.len() ==> #[trigger] values@[k]@[w]
                        <= top_value,
                forall|w: int| 0 <= w < u ==> #[trigger] values@[i as int]@[w] <= top_value,
                match top {
                    None => top_value == 0 && u == 0 && forall|k: int|
                        0 <= k < i ==> (#[trigger] positions[k]@).len() == 0,
                    Some(p) => (p.0 as int) < n && (p.1 as int) < positions[p.0 as int]@.len()
                        && top_value == values@[p.0 as int]@[p.1 as int],
                },
            decreases values@[i as int]@.len() - u,
        {
            let v = values[i][u];
            if top.is_none() || v > top_value {
                top = Some((i, u));
                top_value = v;
            }
            u = u + 1;
        }
        i = i + 1;
    }
    // Follow the chain back from its end.
    let mut sel: Vec<Option<usize>> = Vec::new();
    let mut k: usize = 0;
    while k < n
        invariant
            k <= n,
            sel@.len() == k,
            forall|q: int| 0 <= q < k ==> (#[trigger] sel@[q]) is None,
        decreases n - k,
    {
        sel.push(None);
        k = k + 1;
    }
    proof {
        assert forall|q: int| 0 <= q <= n implies #[trigger] selection_score(w, sel@, q) == 0 by {
            lemma_no_choice_scores_nothing(w, sel@, q);
        }
    }
    let mut cursor = top;
    loop
        invariant
            n == positions.len(),
            pos == positions@,
            w == preliminary@,
            values@.len() == n,
            prevs@.len() == n,
            forall|q: int|
                0 <= q < n ==> (#[trigger] values@[q])@.len() == positions[q]@.len() && prevs@[q]@.len()
                    == positions[q]@.len(),
            forall|q: int, u: int|
                0 <= q < n && 0 <= u < positions[q]@.len() ==> link_ok(
                    pos,
                    w,
                    values@,
                    q,
                    u,
                    #[trigger] values@[q]@[u],
                    prevs@[q]@[u],
                ),
            is_monotone_selection(pos, sel@),
            match cursor {
                None => selection_score(w, sel@, n as int) == top_value,
                Some(c) => {
                    &&& (c.0 as int) < n
                    &&& (c.1 as int) < positions[c.0 as int]@.len()
                    &&& selection_score(w, sel@, n as int) + values@[c.0 as int]@[c.1 as int]
                        == top_value
                    &&& forall|q: int|
                        0 <= q < n && (#[trigger] sel@[q]) is Some ==> q > c.0 && key_before(
                            target_key(pos, c.0 as int, c.1 as int),
                            target_key(pos, q, sel@[q]->0 as int),
                        )
                    &&& sel@[c.0 as int] is None
                },
            },
        ensures
            is_monotone_selection(pos, sel@),
            selection_score(w, sel@, n as int) == top_value,
        decreases
                match cursor {
                    None => 0,
                    Some(c) => c.0 + 1,
                },
    {
        match cursor {
            None => {
                break ;
            },
            Some(c) => {
                let (ci, ct) = c;
                let ghost before = sel@;
                let next = prevs[ci][ct];
                assert(link_ok(pos, w, values@, ci as int, ct as int, values@[ci as int]@[ct as int], next));
                proof {
                    lemma_score_update(w, before, ci as int, ct, n as int);
                }
                sel.set(ci, Some(ct));
                proof {
                    assert(sel@ == before.update(ci as int, Some(ct)));
                    assert forall|a: int, b: int|
                        #![trigger sel@[a], sel@[b]]
                        0 <= a < b < sel@.len() && sel@[a] is Some && sel@[b] is Some implies key_before(
                        target_key(pos, a, sel@[a]->0 as int),
                        target_key(pos, b, sel@[b]->0 as int),
                    ) by {
                        if a != ci && b != ci {
                            assert(before[a] is Some && before[b] is Some);
                        } else if a == ci {
                            assert(before[b] is Some);
                        } else {
                            assert(before[a] is Some);
                        }
                    }
                    match next {
                        None => {},
                        Some(p) => {
                            assert forall|q: int|
                                0 <= q < n && (#[trigger] sel@[q]) is Some implies q > p.0
                                && key_before(
                                target_key(pos, p.0 as int, p.1 as int),
                                target_key(pos, q, sel@[q]->0 as int),
                            ) by {
                                if q != ci {
                                    assert(before[q] is Some);
                                    lemma_key_order(
                                        target_key(pos, p.0 as int, p.1 as int),
                                        target_key(pos, ci as int, ct as int),
                                        target_key(pos, q, sel@[q]->0 as int),
                                    );
                                }
                            }
                            if sel@[p.0 as int] is Some {
                                assert(p.0 > p.0);
                            }
                        },
                    }
                }
                cursor = next;
            },
        }
    }
    proof {
        assert forall|s: Seq<Option<usize>>|
            #[trigger] is_monotone_selection(positions@, s) implies selection_score(
            preliminary@,
            s,
            n as int,
        ) <= top_value by {
            lemma_bounded(pos, w, values@, s, n as int, None, top_value as int);
        }
    }
    sel
}

/// A selection that chooses nothing scores nothing.
proof fn lemma_no_choice_scores_nothing(scores: Seq<Vec<u32>>, s: Seq<Option<usize>>, k: int)
    requires
        0 <= k <= s.len(),
        forall|q: int| 0 <= q < s.len() ==> (#[trigger] s[q]) is None,
    ensures
        selection_score(scores, s, k) == 0,
    decreases k,
{
    if k > 0 {
        lemma_no_choice_scores_nothing(scores, s, k - 1);
    }
}

/// The monotone selection of [`monotonic_selection`], each entry's choice
/// with its runner-up margin among the entry's preliminary scores (see
/// [`runner_up_margin`]).
pub fn select_targets(positions: &[Vec<SortKey>], preliminary: &[Vec<u32>]) -> (r: Vec<(Option<usize>, u32)>)
    requires
        preliminary.len() >= positions.len(),
        forall|i: int|
            0 <= i < positions.len() ==> (#[trigger] preliminary[i])@.len() >= positions[i]@.len(),
        positions.len() <= u32::MAX,
    ensures
        r@.len() == positions@.len(),
        is_monotone_selection(positions@, r@.map_values(|e: (Option<usize>, u32)| e.0)),
        forall|s: Seq<Option<usize>>|
            #[trigger] is_monotone_selection(positions@, s) ==> selection_score(
                preliminary@,
                s,
                positions.len() as int,
            ) <= selection_score(
                preliminary@,
                r@.map_values(|e: (Option<usize>, u32)| e.0),
                positions.len() as int,
            ),
        forall|i: int|
            0 <= i < r@.len() ==> (#[trigger] r@[i]).1 == margin_spec(preliminary@[i]@, r@[i].0),
{
    let sel = monotonic_selection(positions, preliminary);
    let mut r: Vec<(Option<usize>, u32)> = Vec::new();
    let mut i: usize = 0;
    while i < sel.len()
        invariant
            i <= sel@.len(),
            sel@.len() == positions@.len(),
            preliminary.len() >= positions.len(),
            forall|k: int|
                0 <= k < positions.len() ==> (#[trigger] preliminary[k])@.len() >= positions[k]@.len(),
            is_monotone_selection(positions@, sel@),
            r@.len() == i,
            forall|k: int| 0 <= k < i ==> (#[trigger] r@[k]).0 == sel@[k],
            forall|k: int| 0 <= k < i ==> (#[trigger] r@[k]).1 == margin_spec(preliminary@[k]@, r@[k].0),
        decreases sel.len() - i,
    {
        let chosen = sel[i];
        assert(chosen matches Some(c) ==> (c as int) < positions@[i as int]@.len());
        let m = runner_up_margin(preliminary[i].as_slice(), chosen);
        r.push((chosen, m));
        i = i + 1;
    }
    assert(r@.map_values(|e: (Option<usize>, u32)| e.0) =~= sel@);
    r
}

/// Scores every target of every contents entry (see [`preliminary_scores`])
/// and chooses the monotone assignment over those scores with each choice's
/// runner-up margin (see [`select_targets`]). `positions[i][t]` is the
/// reading-order key of target `t` of entry `i`.
pub fn choose_targets(
    entries: &[EntryFacts],
    positions: &[Vec<SortKey>],
    mapping: &PageMapping,
    config: &AutoBookmarkConfig,
) -> (r: (Vec<Vec<u32>>, Vec<(Option<usize>, u32)>))
    requires
        positions@.len() == entries@.len(),
        forall|i: int| 0 <= i < entries@.len() ==> (#[trigger] positions@[i])@.len() == entries@[i].targets@.len(),
        entries@.len() <= u32::MAX,
        forall|i: int, t: int|
            0 <= i < entries@.len() && 0 <= t < entries@[i].targets@.len() ==> #[trigger] score_fits(
                *mapping,
                *config,
                i,
                entries@[i],
                entries@[i].targets@[t],
            ),
    ensures
        r.0@.len() == entries@.len(),
        forall|i: int| 0 <= i < entries@.len() ==> (#[trigger] r.0@[i])@.len() == entries@[i].targets@.len(),
        forall|i: int, t: int|
            0 <= i < entries@.len() && 0 <= t < entries@[i].targets@.len() ==> #[trigger] r.0@[i]@[t]
                == preliminary_spec(*mapping, *config, i, entries@[i], entries@[i].targets@[t]),
        r.1@.len() == entries@.len(),
        is_monotone_selection(positions@, r.1@.map_values(|e: (Option<usize>, u32)| e.0)),
        forall|s: Seq<Option<usize>>|
            #[trigger] is_monotone_selection(positions@, s) ==> selection_score(r.0@, s, entries@.len() as int)
                <= selection_score(r.0@, r.1@.map_values(|e: (Option<usize>, u32)| e.0), entries@.len() as int),
        forall|i: int| 0 <= i < r.1@.len() ==> (#[trigger] r.1@[i]).1 == margin_spec(r.0@[i]@, r.1@[i].0),
{
    let rows = preliminary_scores(entries, mapping, config);
    let chosen = select_targets(positions, rows.as_slice());
    (rows, chosen)
}

} // verus!
