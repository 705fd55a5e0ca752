//! Printed-label to physical-page mapping.
//!
//! Printed page labels map onto physical pages as piecewise-constant
//! offsets, solved separately per numbering family, so Roman front matter,
//! Arabic body text and inserted plates each get their own segments instead
//! of one document-wide guess. Each anchor (an entry whose label and best
//! body match are known) votes for the offset `page - label`; a dynamic
//! program over the observed offsets charges a fixed penalty for an anchor
//! disagreeing with its segment and for opening a new segment, so a single
//! stray anchor cannot fragment the mapping.

use vstd::prelude::*;

use super::config::AutoBookmarkConfig;
use super::toc_parse::NumberingFamily;

verus! {

/// What the mapping reads of one contents entry: its printed label (family
/// and value), and its best body match (physical page index and title
/// score), when it has them.
#[derive(Debug, Clone, Copy, PartialEq, Eq, Structural)]
pub struct MappingSource {
    pub printed: Option<PrintedLabel>,
    pub best: Option<BestMatch>,
}

/// A printed page label: its numbering family and value.
#[derive(Debug, Clone, Copy, PartialEq, Eq, Structural)]
pub struct PrintedLabel {
    pub family: NumberingFamily,
    pub value: u32,
}

/// The best body match of an entry: its physical page and title score.
#[derive(Debug, Clone, Copy, PartialEq, Eq, Structural)]
pub struct BestMatch {
    pub page_index: u32,
    pub title_score: u32,
}

#[derive(Debug, Clone, Copy, PartialEq, Eq, Structural)]
pub struct MappingSegment {
    pub family: NumberingFamily,
    pub index: u32,
    pub offset: i64,
    pub anchor_count: u32,
    pub first_printed: u32,
    pub last_printed: u32,
    pub residual_min: i64,
    pub residual_max: i64,
}

#[derive(Debug, Clone)]
pub struct PageMapping {
    pub segments: Vec<MappingSegment>,
    /// For each entry ordinal, the index of its segment in `segments`.
    pub assignment: Vec<Option<usize>>,
}

// ---------------------------------------------------------------------------
// Anchors and offset hypotheses
// ---------------------------------------------------------------------------

/// Whether an entry anchors the mapping of family `f`: it carries a label
/// of that family and a best match scoring at least `min_score`.
pub open spec fn is_anchor(e: MappingSource, f: NumberingFamily, min_score: u32) -> bool {
    &&& e.printed matches Some(p) && p.family == f
    &&& e.best matches Some(b) && b.title_score >= min_score
}

/// The anchors of family `f`, in entry order: (entry ordinal, printed
/// value, offset `page - printed`).
pub open spec fn anchors(es: Seq<MappingSource>, f: NumberingFamily, min_score: u32) -> Seq<(usize, u32, i64)>
    decreases es.len(),
{
    if es.len() == 0 {
        seq![]
    } else {
        let rest = anchors(es.drop_last(), f, min_score);
        let e = es.last();
        if is_anchor(e, f, min_score) {
            rest.push(
                (
                    (es.len() - 1) as usize,
                    e.printed->0.value,
                    (e.best->0.page_index as int - e.printed->0.value as int) as i64,
                ),
            )
        } else {
            rest
        }
    }
}

/// The offsets the anchors vote for.
pub open spec fn deltas(a: Seq<(usize, u32, i64)>) -> Seq<i64> {
    a.map_values(|x: (usize, u32, i64)| x.2)
}

/// `offs` holds each voted offset once, in increasing order.
pub open spec fn offsets_of(offs: Seq<i64>, ds: Seq<i64>) -> bool {
    &&& forall|i: int, j: int| 0 <= i < j < offs.len() ==> offs[i] < offs[j]
    &&& offs.to_set() == ds.to_set()
}

// ---------------------------------------------------------------------------
// The dynamic program
// ---------------------------------------------------------------------------

/// `a + b`, saturating at `u64::MAX`.
pub open spec fn sat(a: u64, b: u64) -> u64 {
    if a + b > u64::MAX {
        u64::MAX
    } else {
        (a + b) as u64
    }
}

/// Cost of anchor `t` under offset hypothesis `s`.
pub open spec fn local_cost(ds: Seq<i64>, offs: Seq<i64>, mismatch: u64, t: int, s: int) -> u64 {
    if ds[t] != offs[s] {
        mismatch
    } else {
        0
    }
}

/// Cost of moving from hypothesis `p` to hypothesis `s`.
pub open spec fn transition(p: int, s: int, change: u64) -> u64 {
    if p == s {
        0
    } else {
        change
    }
}

/// The cheapest way into hypothesis `s` at anchor `t`, over all
/// hypotheses at anchor `t - 1`.
pub open spec fn cost_at(ds: Seq<i64>, offs: Seq<i64>, mismatch: u64, change: u64, t: nat, s: int) -> u64
    decreases t, 1nat, 0nat,
{
    if t == 0 {
        local_cost(ds, offs, mismatch, 0, s)
    } else {
        sat(
            scan_at(ds, offs, mismatch, change, (t - 1) as nat, s, offs.len()).0,
            local_cost(ds, offs, mismatch, t as int, s),
        )
    }
}

/// The best predecessor among hypotheses `0..k` of anchor `t` for
/// hypothesis `s` of anchor `t + 1`: its cost including the transition,
/// and the hypothesis (the lowest one on ties; `s` when none is reachable).
pub open spec fn scan_at(ds: Seq<i64>, offs: Seq<i64>, mismatch: u64, change: u64, t: nat, s: int, k: nat) -> (u64, int)
    decreases t, 2nat, k,
{
    if k == 0 {
        (u64::MAX, s)
    } else {
        let (best, best_previous) = scan_at(ds, offs, mismatch, change, t, s, (k - 1) as nat);
        let p = k - 1;
        let c = cost_at(ds, offs, mismatch, change, t, p);
        if c == u64::MAX {
            (best, best_previous)
        } else {
            let total = sat(c, transition(p, s, change));
            if total < best || (total == best && p < best_previous) {
                (total, p)
            } else {
                (best, best_previous)
            }
        }
    }
}

proof fn lemma_scan_in_range(ds: Seq<i64>, offs: Seq<i64>, mismatch: u64, change: u64, t: nat, s: int, k: nat)
    requires
        0 <= s < offs.len(),
        k <= offs.len(),
    ensures
        0 <= scan_at(ds, offs, mismatch, change, t, s, k).1 < offs.len(),
    decreases k,
{
    if k > 0 {
        lemma_scan_in_range(ds, offs, mismatch, change, t, s, (k - 1) as nat);
    }
}

/// The hypothesis the last anchor settles on: the cheapest, the lowest on
/// ties, among hypotheses `0..k`.
pub open spec fn final_state(ds: Seq<i64>, offs: Seq<i64>, mismatch: u64, change: u64, k: nat) -> int
    decreases k,
{
    if k <= 1 {
        0
    } else {
        let b = final_state(ds, offs, mismatch, change, (k - 1) as nat);
        let last = (ds.len() - 1) as nat;
        if cost_at(ds, offs, mismatch, change, last, k - 1) < cost_at(ds, offs, mismatch, change, last, b) {
            k - 1
        } else {
            b
        }
    }
}

/// The hypothesis chosen for anchor `t`, following the back pointers from
/// the last anchor.
pub open spec fn path_at(ds: Seq<i64>, offs: Seq<i64>, mismatch: u64, change: u64, t: int) -> int
    decreases ds.len() - t,
{
    if t >= ds.len() - 1 || t < 0 {
        final_state(ds, offs, mismatch, change, offs.len())
    } else {
        scan_at(ds, offs, mismatch, change, t as nat, path_at(ds, offs, mismatch, change, t + 1), offs.len()).1
    }
}

// ---------------------------------------------------------------------------
// Executable stages
// ---------------------------------------------------------------------------

fn collect_anchors(entries: &[MappingSource], f: NumberingFamily, min_score: u32) -> (r: Vec<(usize, u32, i64)>)
    ensures
        r@ == anchors(entries@, f, min_score),
        r@.len() <= entries@.len(),
{
    let mut r: Vec<(usize, u32, i64)> = Vec::new();
    let mut k: usize = 0;
    while k < entries.len()
        invariant
            k <= entries@.len(),
            r@ == anchors(entries@.take(k as int), f, min_score),
            r@.len() <= k,
        decreases entries.len() - k,
    {
        let ghost t = entries@.take(k + 1 as int);
        assert(t.drop_last() == entries@.take(k as int));
        assert(t.last() == entries@[k as int]);
        let e = entries[k];
        match (e.printed, e.best) {
            (Some(p), Some(b)) => {
                if p.family == f && b.title_score >= min_score {
                    r.push((k, p.value, (b.page_index as i64) - (p.value as i64)));
                }
            },
            _ => {},
        }
        k = k + 1;
    }
    assert(entries@.take(entries@.len() as int) == entries@);
    r
}

fn delta_values(a: &Vec<(usize, u32, i64)>) -> (ds: Vec<i64>)
    ensures
        ds@ == deltas(a@),
{
    let mut ds: Vec<i64> = Vec::new();
    let mut i: usize = 0;
    while i < a.len()
        invariant
            i <= a@.len(),
            ds@ == deltas(a@).take(i as int),
        decreases a.len() - i,
    {
        ds.push(a[i].2);
        i = i + 1;
        assert(ds@ =~= deltas(a@).take(i as int));
    }
    assert(deltas(a@).take(i as int) == deltas(a@));
    ds
}

/// The distinct values of `ds`, in increasing order.
fn sorted_distinct(ds: &Vec<i64>) -> (offs: Vec<i64>)
    ensures
        offsets_of(offs@, ds@),
        offs@.len() <= ds@.len(),
{
    let mut offs: Vec<i64> = Vec::new();
    let mut i: usize = 0;
    while i < ds.len()
        invariant
            i <= ds@.len(),
            offs@.len() <= i,
            forall|a: int, b: int| 0 <= a < b < offs@.len() ==> offs@[a] < offs@[b],
            offs@.to_set() == ds@.take(i as int).to_set(),
        decreases ds.len() - i,
    {
        let v = ds[i];
        assert(ds@.take(i + 1 as int) == ds@.take(i as int).push(v));
        proof {
            crate::text::lemma_push_to_set(ds@.take(i as int), v);
        }
        let mut pos: usize = 0;
        while pos < offs.len() && offs[pos] < v
            invariant
                pos <= offs@.len(),
                forall|a: int| 0 <= a < pos ==> offs@[a] < v,
            decreases offs.len() - pos,
        {
            pos = pos + 1;
        }
        if pos < offs.len() && offs[pos] == v {
            assert(offs@.to_set().contains(v));
            assert(offs@.to_set().insert(v) =~= offs@.to_set());
        } else {
            let ghost before = offs@;
            offs.insert(pos, v);
            assert(offs@ == before.insert(pos as int, v));
            assert forall|a: int, b: int| 0 <= a < b < offs@.len() implies offs@[a] < offs@[b] by {
                if b < pos {
                } else if b == pos {
                } else if a < pos {
                } else if a == pos {
                    assert(before[b - 1] > v || before[b - 1] == v || before[b - 1] < v);
                    if b - 1 > pos {
                        assert(before[pos as int] < before[b - 1]);
                    }
                } else {
                }
            }
            assert(offs@.to_set() =~= before.to_set().insert(v)) by {
                assert forall|x: i64| offs@.to_set().contains(x) implies before.to_set().insert(v).contains(x) by {
                    let k = choose|k: int| 0 <= k < offs@.len() && offs@[k] == x;
                    if k < pos {
                        assert(before[k] == x);
                    } else if k > pos {
                        assert(before[k - 1] == x);
                    }
                }
                assert forall|x: i64| before.to_set().insert(v).contains(x) implies offs@.to_set().contains(x) by {
                    if x == v {
                        assert(offs@[pos as int] == v);
                    } else {
                        let k = choose|k: int| 0 <= k < before.len() && before[k] == x;
                        if k < pos {
                            assert(offs@[k] == x);
                        } else {
                            assert(offs@[k + 1] == x);
                        }
                    }
                }
            }
        }
        i = i + 1;
    }
    assert(ds@.take(ds@.len() as int) == ds@);
    offs
}

/// The cost table and back pointers of the dynamic program.
#[verifier::loop_isolation(false)]
fn dp_tables(ds: &Vec<i64>, offs: &Vec<i64>, mismatch: u64, change: u64) -> (r: (Vec<Vec<u64>>, Vec<Vec<usize>>))
    requires
        ds@.len() > 0,
        offs@.len() > 0,
    ensures
        r.0@.len() == ds@.len(),
        r.1@.len() == ds@.len(),
        forall|t: int| 0 <= t < ds@.len() ==> #[trigger] r.0@[t]@.len() == offs@.len(),
        forall|t: int| 1 <= t < ds@.len() ==> #[trigger] r.1@[t]@.len() == offs@.len(),
        forall|t: int, s: int|
            0 <= t < ds@.len() && 0 <= s < offs@.len() ==> #[trigger] r.0@[t]@[s]
                == cost_at(ds@, offs@, mismatch, change, t as nat, s),
        forall|t: int, s: int|
            1 <= t < ds@.len() && 0 <= s < offs@.len() ==> #[trigger] r.1@[t]@[s]
                == scan_at(ds@, offs@, mismatch, change, (t - 1) as nat, s, offs@.len()).1,
{
    let n = offs.len();
    let mut cost: Vec<Vec<u64>> = Vec::new();
    let mut back: Vec<Vec<usize>> = Vec::new();
    let mut row0: Vec<u64> = Vec::new();
    let mut s: usize = 0;
    while s < n
        invariant
            n == offs@.len(),
            ds@.len() > 0,
            s <= n,
            row0@.len() == s,
            forall|j: int| 0 <= j < s ==> #[trigger] row0@[j] == cost_at(ds@, offs@, mismatch, change, 0, j),
        decreases n - s,
    {
        row0.push(if ds[0] != offs[s] { mismatch } else { 0 });
        s = s + 1;
    }
    cost.push(row0);
    back.push(Vec::new());
    let mut t: usize = 1;
    while t < ds.len()
        invariant
            n == offs@.len(),
            n > 0,
            1 <= t <= ds@.len(),
            cost@.len() == t,
            back@.len() == t,
            forall|a: int| 0 <= a < t ==> #[trigger] cost@[a]@.len() == n,
            forall|a: int| 1 <= a < t ==> #[trigger] back@[a]@.len() == n,
            forall|a: int, j: int|
                0 <= a < t && 0 <= j < n ==> #[trigger] cost@[a]@[j] == cost_at(ds@, offs@, mismatch, change, a as nat, j),
            forall|a: int, j: int|
                1 <= a < t && 0 <= j < n ==> #[trigger] back@[a]@[j] == scan_at(ds@, offs@, mismatch, change, (a - 1) as nat, j, n as nat).1,
        decreases ds.len() - t,
    {
        let mut row: Vec<u64> = Vec::new();
        let mut brow: Vec<usize> = Vec::new();
        let mut s: usize = 0;
        while s < n
            invariant
                n == offs@.len(),
                n > 0,
                1 <= t < ds@.len(),
                s <= n,
                row@.len() == s,
                brow@.len() == s,
                forall|j: int| 0 <= j < s ==> #[trigger] row@[j] == cost_at(ds@, offs@, mismatch, change, t as nat, j),
                forall|j: int|
                    0 <= j < s ==> #[trigger] brow@[j] == scan_at(ds@, offs@, mismatch, change, (t - 1) as nat, j, n as nat).1,
            decreases n - s,
        {
            let previous = &cost[t - 1];
            assert(previous@.len() == n);
            assert forall|j: int| 0 <= j < n implies #[trigger] previous@[j] == cost_at(ds@, offs@, mismatch, change, (t - 1) as nat, j) by {
                assert(cost@[t - 1]@[j] == cost_at(ds@, offs@, mismatch, change, (t - 1) as nat, j));
            }
            let mut best: u64 = u64::MAX;
            let mut best_previous: usize = s;
            let mut p: usize = 0;
            while p < n
                invariant
                    n == offs@.len(),
                    1 <= t < ds@.len(),
                    s < n,
                    previous@.len() == n,
                    forall|j: int| 0 <= j < n ==> #[trigger] previous@[j] == cost_at(ds@, offs@, mismatch, change, (t - 1) as nat, j),
                    p <= n,
                    (best, best_previous as int) == scan_at(ds@, offs@, mismatch, change, (t - 1) as nat, s as int, p as nat),
                    best_previous < n,
                decreases n - p,
            {
                let c = previous[p];
                if c != u64::MAX {
                    let step = if p == s { 0 } else { change };
                    let total = c.saturating_add(step);
                    if total < best || (total == best && p < best_previous) {
                        best = total;
                        best_previous = p;
                    }
                }
                p = p + 1;
            }
            let local = if ds[t] != offs[s] { mismatch } else { 0 };
            row.push(best.saturating_add(local));
            brow.push(best_previous);
            s = s + 1;
        }
        let ghost old_cost = cost@;
        let ghost old_back = back@;
        cost.push(row);
        back.push(brow);
        assert forall|a: int| 0 <= a < t + 1 implies #[trigger] cost@[a]@.len() == n by {
            if a < t {
                assert(cost@[a] == old_cost[a]);
            }
        }
        assert forall|a: int| 1 <= a < t + 1 implies #[trigger] back@[a]@.len() == n by {
            if a < t {
                assert(back@[a] == old_back[a]);
            }
        }
        assert forall|a: int, j: int|
            0 <= a < t + 1 && 0 <= j < n implies #[trigger] cost@[a]@[j] == cost_at(ds@, offs@, mismatch, change, a as nat, j) by {
            if a < t {
                assert(cost@[a] == old_cost[a]);
            }
        }
        assert forall|a: int, j: int|
            1 <= a < t + 1 && 0 <= j < n implies #[trigger] back@[a]@[j] == scan_at(ds@, offs@, mismatch, change, (a - 1) as nat, j, n as nat).1 by {
            if a < t {
                assert(back@[a] == old_back[a]);
            }
        }
        t = t + 1;
    }
    (cost, back)
}

/// The hypothesis the last anchor settles on.
fn last_state(ds: &Vec<i64>, offs: &Vec<i64>, mismatch: u64, change: u64, last_row: &Vec<u64>) -> (b: usize)
    requires
        ds@.len() > 0,
        offs@.len() > 0,
        last_row@.len() == offs@.len(),
        forall|j: int| 0 <= j < offs@.len() ==> #[trigger] last_row@[j] == cost_at(ds@, offs@, mismatch, change, (ds@.len() - 1) as nat, j),
    ensures
        b == final_state(ds@, offs@, mismatch, change, offs@.len()),
        b < offs@.len(),
{
    let mut b: usize = 0;
    let mut k: usize = 1;
    while k < offs.len()
        invariant
            1 <= k <= offs@.len(),
            b < k,
            last_row@.len() == offs@.len(),
            forall|j: int| 0 <= j < offs@.len() ==> #[trigger] last_row@[j] == cost_at(ds@, offs@, mismatch, change, (ds@.len() - 1) as nat, j),
            b == final_state(ds@, offs@, mismatch, change, k as nat),
        decreases offs.len() - k,
    {
        if last_row[k] < last_row[b] {
            b = k;
        }
        k = k + 1;
    }
    b
}

/// The hypothesis of every anchor along the chosen path.
#[verifier::loop_isolation(false)]
fn chosen_path(ds: &Vec<i64>, offs: &Vec<i64>, mismatch: u64, change: u64, back: &Vec<Vec<usize>>, last: usize) -> (path: Vec<usize>)
    requires
        ds@.len() > 0,
        offs@.len() > 0,
        back@.len() == ds@.len(),
        last == final_state(ds@, offs@, mismatch, change, offs@.len()),
        last < offs@.len(),
        forall|t: int| 1 <= t < ds@.len() ==> #[trigger] back@[t]@.len() == offs@.len(),
        forall|t: int, s: int|
            1 <= t < ds@.len() && 0 <= s < offs@.len() ==> #[trigger] back@[t]@[s]
                == scan_at(ds@, offs@, mismatch, change, (t - 1) as nat, s, offs@.len()).1,
    ensures
        path@.len() == ds@.len(),
        forall|t: int| 0 <= t < ds@.len() ==> #[trigger] path@[t] == path_at(ds@, offs@, mismatch, change, t),
        forall|t: int| 0 <= t < ds@.len() ==> #[trigger] path@[t] < offs@.len(),
{
    let n = ds.len();
    let mut path: Vec<usize> = vec![0; n];
    let mut state = last;
    let mut step = n;
    while step > 0
        invariant
            n == ds@.len(),
            path@.len() == n,
            step <= n,
            state < offs@.len(),
            step == n ==> state == last,
            0 < step < n ==> state == path_at(ds@, offs@, mismatch, change, step as int - 1),
            forall|t: int| step <= t < n ==> #[trigger] path@[t] == path_at(ds@, offs@, mismatch, change, t),
            forall|t: int| step <= t < n ==> #[trigger] path@[t] < offs@.len(),
        decreases step,
    {
        step = step - 1;
        let ghost expected = path_at(ds@, offs@, mismatch, change, step as int);
        if step == n - 1 {
            assert(expected == last);
        } else {
            assert(expected == scan_at(ds@, offs@, mismatch, change, step as nat, path_at(ds@, offs@, mismatch, change, step + 1), offs@.len()).1);
        }
        path.set(step, state);
        if step > 0 {
            assert(back@[step as int]@[state as int] == scan_at(ds@, offs@, mismatch, change, (step - 1) as nat, state as int, offs@.len()).1);
            assert(path_at(ds@, offs@, mismatch, change, step - 1) == scan_at(ds@, offs@, mismatch, change, (step - 1) as nat, path_at(ds@, offs@, mismatch, change, step as int), offs@.len()).1);
            proof {
                lemma_scan_in_range(ds@, offs@, mismatch, change, (step - 1) as nat, state as int, offs@.len());
            }
            state = back[step][state];
        }
    }
    path
}

// ---------------------------------------------------------------------------
// Segments and assignment
// ---------------------------------------------------------------------------

/// The hypothesis of every anchor along the chosen path.
pub open spec fn path_seq(ds: Seq<i64>, offs: Seq<i64>, mismatch: u64, change: u64) -> Seq<int> {
    Seq::new(ds.len(), |t: int| path_at(ds, offs, mismatch, change, t))
}

/// The last anchor of the run of equal hypotheses that starts at `start`.
pub open spec fn run_end(path: Seq<int>, start: int) -> int
    decreases path.len() - start,
{
    if start < 0 || start + 1 >= path.len() || path[start + 1] != path[start] {
        start
    } else {
        run_end(path, start + 1)
    }
}

pub proof fn lemma_run_end(path: Seq<int>, start: int)
    requires
        0 <= start < path.len(),
    ensures
        start <= run_end(path, start) < path.len(),
        forall|k: int| start <= k <= run_end(path, start) ==> path[k] == path[start],
        run_end(path, start) + 1 < path.len() ==> path[run_end(path, start) + 1] != path[start],
    decreases path.len() - start,
{
    if start + 1 < path.len() && path[start + 1] == path[start] {
        lemma_run_end(path, start + 1);
    }
}

/// The smallest residual `offset - delta` ... over anchors `lo..=hi`.
pub open spec fn residual_min(a: Seq<(usize, u32, i64)>, lo: int, hi: int, offset: i64) -> int
    decreases hi - lo,
{
    if hi <= lo {
        a[lo].2 - offset
    } else {
        let r = residual_min(a, lo, hi - 1, offset);
        let v = a[hi].2 - offset;
        if v < r {
            v
        } else {
            r
        }
    }
}

/// The largest residual over anchors `lo..=hi`.
pub open spec fn residual_max(a: Seq<(usize, u32, i64)>, lo: int, hi: int, offset: i64) -> int
    decreases hi - lo,
{
    if hi <= lo {
        a[lo].2 - offset
    } else {
        let r = residual_max(a, lo, hi - 1, offset);
        let v = a[hi].2 - offset;
        if v > r {
            v
        } else {
            r
        }
    }
}

/// The segment made of anchors `start..=end`.
pub open spec fn segment_spec(
    f: NumberingFamily,
    index: int,
    offs: Seq<i64>,
    a: Seq<(usize, u32, i64)>,
    path: Seq<int>,
    start: int,
    end: int,
) -> MappingSegment {
    let offset = offs[path[start]];
    MappingSegment {
        family: f,
        index: index as u32,
        offset,
        anchor_count: (end - start + 1) as u32,
        first_printed: a[start].1,
        last_printed: a[end].1,
        residual_min: residual_min(a, start, end, offset) as i64,
        residual_max: residual_max(a, start, end, offset) as i64,
    }
}

/// The entries of family `f` that a segment covers: those between its
/// first and last anchor, and, for the first and the last segment, those
/// before and after all anchors.
pub open spec fn covered(
    e: MappingSource,
    o: int,
    f: NumberingFamily,
    first_entry: int,
    last_entry: int,
    first_run: bool,
    last_run: bool,
) -> bool {
    &&& e.printed matches Some(p) && p.family == f
    &&& (first_entry <= o <= last_entry) || (first_run && o < first_entry) || (last_run && o
        > last_entry)
}

pub open spec fn assign_run(
    asg: Seq<Option<usize>>,
    es: Seq<MappingSource>,
    f: NumberingFamily,
    first_entry: int,
    last_entry: int,
    first_run: bool,
    last_run: bool,
    index: int,
) -> Seq<Option<usize>> {
    Seq::new(
        asg.len(),
        |o: int|
            if covered(es[o], o, f, first_entry, last_entry, first_run, last_run) {
                Some(index as usize)
            } else {
                asg[o]
            },
    )
}

/// The segments of the runs from `start` on, appended to `m`, and the
/// entries they cover assigned to them.
pub open spec fn apply_runs(
    m: (Seq<MappingSegment>, Seq<Option<usize>>),
    es: Seq<MappingSource>,
    f: NumberingFamily,
    a: Seq<(usize, u32, i64)>,
    offs: Seq<i64>,
    path: Seq<int>,
    start: int,
) -> (Seq<MappingSegment>, Seq<Option<usize>>)
    decreases path.len() - start,
{
    if start < 0 || start >= path.len() {
        m
    } else {
        let end = run_end(path, start);
        proof {
            lemma_run_end(path, start);
        }
        let index = m.0.len() as int;
        let seg = segment_spec(f, index, offs, a, path, start, end);
        let asg = assign_run(m.1, es, f, a[start].0 as int, a[end].0 as int, start == 0, end + 1 == path.len(), index);
        apply_runs((m.0.push(seg), asg), es, f, a, offs, path, end + 1)
    }
}

/// The mapping after family `f` is solved on top of `m`.
pub open spec fn family_step(
    m: (Seq<MappingSegment>, Seq<Option<usize>>),
    es: Seq<MappingSource>,
    f: NumberingFamily,
    config: AutoBookmarkConfig,
) -> (Seq<MappingSegment>, Seq<Option<usize>>) {
    let a = anchors(es, f, config.anchor_min_title_score);
    if a.len() == 0 {
        m
    } else {
        let ds = deltas(a);
        let offs = choose|offs: Seq<i64>| offsets_of(offs, ds);
        let mismatch = config.anchor_mismatch_penalty as u64;
        let change = config.segment_change_penalty as u64;
        apply_runs(m, es, f, a, offs, path_seq(ds, offs, mismatch, change), 0)
    }
}

/// The whole mapping: Arabic labels first, then Roman ones.
pub open spec fn mapping_spec(es: Seq<MappingSource>, config: AutoBookmarkConfig) -> (Seq<MappingSegment>, Seq<Option<usize>>) {
    let m0 = (Seq::<MappingSegment>::empty(), Seq::new(es.len(), |o: int| None::<usize>));
    family_step(family_step(m0, es, NumberingFamily::Arabic, config), es, NumberingFamily::Roman, config)
}

proof fn lemma_offsets_unique(o1: Seq<i64>, o2: Seq<i64>)
    requires
        forall|i: int, j: int| 0 <= i < j < o1.len() ==> o1[i] < o1[j],
        forall|i: int, j: int| 0 <= i < j < o2.len() ==> o2[i] < o2[j],
        o1.to_set() == o2.to_set(),
    ensures
        o1 == o2,
    decreases o1.len(),
{
    if o1.len() == 0 {
        if o2.len() > 0 {
            assert(o2.to_set().contains(o2[0]));
        }
    } else if o2.len() == 0 {
        assert(o1.to_set().contains(o1[0]));
    } else {
        assert(o1.to_set().contains(o1[0]));
        assert(o2.to_set().contains(o2[0]));
        let k1 = choose|k: int| 0 <= k < o1.len() && o1[k] == o2[0];
        let k2 = choose|k: int| 0 <= k < o2.len() && o2[k] == o1[0];
        assert(o1[0] == o2[0]) by {
            if o1[0] < o2[0] {
                assert(o2[k2] == o1[0]);
                assert(k2 > 0 ==> o2[0] < o2[k2]);
            } else if o1[0] > o2[0] {
                assert(k1 > 0 ==> o1[0] < o1[k1]);
            }
        }
        let r1 = o1.drop_first();
        let r2 = o2.drop_first();
        assert(r1.to_set() =~= r2.to_set()) by {
            assert forall|x: i64| r1.to_set().contains(x) implies r2.to_set().contains(x) by {
                let k = choose|k: int| 0 <= k < r1.len() && r1[k] == x;
                assert(o1[k + 1] == x);
                assert(o1.to_set().contains(x));
                let m = choose|m: int| 0 <= m < o2.len() && o2[m] == x;
                assert(m != 0);
                assert(r2[m - 1] == x);
            }
            assert forall|x: i64| r2.to_set().contains(x) implies r1.to_set().contains(x) by {
                let k = choose|k: int| 0 <= k < r2.len() && r2[k] == x;
                assert(o2[k + 1] == x);
                assert(o2.to_set().contains(x));
                let m = choose|m: int| 0 <= m < o1.len() && o1[m] == x;
                assert(m != 0);
                assert(r1[m - 1] == x);
            }
        }
        lemma_offsets_unique(r1, r2);
        assert(o1 =~= seq![o1[0]] + r1);
        assert(o2 =~= seq![o2[0]] + r2);
    }
}

proof fn lemma_anchor_facts(es: Seq<MappingSource>, f: NumberingFamily, min_score: u32)
    requires
        es.len() <= usize::MAX,
    ensures
        forall|i: int|
            0 <= i < anchors(es, f, min_score).len() ==> {
                let x = #[trigger] anchors(es, f, min_score)[i];
                &&& -0x1_0000_0000 < x.2 < 0x1_0000_0000
                &&& (x.0 as int) < es.len()
                &&& is_anchor(es[x.0 as int], f, min_score)
            },
    decreases es.len(),
{
    if es.len() > 0 {
        lemma_anchor_facts(es.drop_last(), f, min_score);
        let r = anchors(es.drop_last(), f, min_score);
        let a = anchors(es, f, min_score);
        assert forall|i: int| 0 <= i < a.len() implies {
            let x = #[trigger] a[i];
            &&& -0x1_0000_0000 < x.2 < 0x1_0000_0000
            &&& (x.0 as int) < es.len()
            &&& is_anchor(es[x.0 as int], f, min_score)
        } by {
            if i < r.len() {
                assert(a[i] == r[i]);
                assert(es[r[i].0 as int] == es.drop_last()[r[i].0 as int]);
            } else {
                let e = es.last();
                let d = e.best->0.page_index as int - e.printed->0.value as int;
                assert(-0x1_0000_0000 < d < 0x1_0000_0000);
                assert(a[i] == ((es.len() - 1) as usize, e.printed->0.value, d as i64));
                assert(a[i].0 as int == es.len() - 1);
                assert(a[i].2 as int == d);
            }
        }
    }
}

/// Solves one numbering family on top of `mapping`.
#[verifier::loop_isolation(false)]
fn apply_family(entries: &[MappingSource], f: NumberingFamily, config: &AutoBookmarkConfig, mapping: &mut PageMapping)
    requires
        old(mapping).assignment@.len() == entries@.len(),
    ensures
        final(mapping).assignment@.len() == entries@.len(),
        (final(mapping).segments@, final(mapping).assignment@) == family_step(
            (old(mapping).segments@, old(mapping).assignment@),
            entries@,
            f,
            *config,
        ),
{
    let a = collect_anchors(entries, f, config.anchor_min_title_score);
    if a.len() == 0 {
        return;
    }
    let entry_count = entries.len();
    assert(entries@.len() == entry_count);
    proof {
        lemma_anchor_facts(entries@, f, config.anchor_min_title_score);
    }
    let ds = delta_values(&a);
    let offs = sorted_distinct(&ds);
    let mismatch = config.anchor_mismatch_penalty as u64;
    let change = config.segment_change_penalty as u64;
    proof {
        let chosen = choose|o: Seq<i64>| offsets_of(o, ds@);
        lemma_offsets_unique(offs@, chosen);
        assert(ds@.to_set().contains(ds@[0]));
        assert(offs@.to_set().contains(ds@[0]));
    }
    assert forall|j: int| 0 <= j < offs@.len() implies -0x1_0000_0000 < #[trigger] offs@[j] < 0x1_0000_0000 by {
        assert(offs@.to_set().contains(offs@[j]));
        assert(ds@.to_set().contains(offs@[j]));
        let i = choose|i: int| 0 <= i < ds@.len() && ds@[i] == offs@[j];
        assert(ds@[i] == a@[i].2);
        assert(-0x1_0000_0000 < anchors(entries@, f, config.anchor_min_title_score)[i].2 < 0x1_0000_0000);
    }
    let tables = dp_tables(&ds, &offs, mismatch, change);
    let cost = &tables.0;
    let back = &tables.1;
    assert(cost@[ds@.len() - 1]@[0] == cost_at(ds@, offs@, mismatch, change, (ds@.len() - 1) as nat, 0));
    let last = last_state(&ds, &offs, mismatch, change, &cost[ds.len() - 1]);
    let path = chosen_path(&ds, &offs, mismatch, change, back, last);
    let ghost pv = path_seq(ds@, offs@, mismatch, change);
    let ghost m0 = (mapping.segments@, mapping.assignment@);
    let n = path.len();
    assert(n == a@.len());
    let mut start: usize = 0;
    while start < n
        invariant
            start <= n,
            mapping.assignment@.len() == entries@.len(),
            apply_runs(m0, entries@, f, a@, offs@, pv, 0) == apply_runs(
                (mapping.segments@, mapping.assignment@),
                entries@,
                f,
                a@,
                offs@,
                pv,
                start as int,
            ),
        decreases n - start,
    {
        proof {
            lemma_run_end(pv, start as int);
        }
        let ghost before_m = (mapping.segments@, mapping.assignment@);
        let mut end = start;
        while end + 1 < n && path[end + 1] == path[start]
            invariant
                start <= end < n,
                run_end(pv, start as int) == run_end(pv, end as int),
                forall|k: int| start <= k <= end ==> pv[k] == pv[start as int],
            decreases n - end,
        {
            assert(pv[end + 1] == path@[end + 1] as int);
            end = end + 1;
        }
        assert(end == run_end(pv, start as int)) by {
            if end + 1 < n {
                assert(pv[end + 1] != pv[start as int]);
            }
        }
        let offset = offs[path[start]];
        assert(offset == offs@[pv[start as int]]);
        let first_value = a[start].2 - offset;
        let mut rmin = first_value;
        let mut rmax = first_value;
        let mut k = start + 1;
        while k <= end
            invariant
                start < k <= end + 1,
                rmin == residual_min(a@, start as int, k - 1, offset),
                rmax == residual_max(a@, start as int, k - 1, offset),
            decreases end + 1 - k,
        {
            let v = a[k].2 - offset;
            if v < rmin {
                rmin = v;
            }
            if v > rmax {
                rmax = v;
            }
            k = k + 1;
        }
        let index = mapping.segments.len();
        let segment = MappingSegment {
            family: f,
            index: index as u32,
            offset,
            anchor_count: (end - start + 1) as u32,
            first_printed: a[start].1,
            last_printed: a[end].1,
            residual_min: rmin,
            residual_max: rmax,
        };
        assert(segment == segment_spec(f, index as int, offs@, a@, pv, start as int, end as int));
        let ghost seg_g = segment;
        mapping.segments.push(segment);
        let first_entry = a[start].0;
        let last_entry = a[end].0;
        let first_run = start == 0;
        let last_run = end + 1 == n;
        let ghost old_asg = mapping.assignment@;
        let ghost target = assign_run(old_asg, entries@, f, first_entry as int, last_entry as int, first_run, last_run, index as int);
        let mut o: usize = 0;
        while o < entries.len()
            invariant
                o <= entries@.len(),
                mapping.assignment@.len() == entries@.len(),
                old_asg.len() == entries@.len(),
                mapping.segments@ == before_m.0.push(seg_g),
                forall|j: int| 0 <= j < o ==> #[trigger] mapping.assignment@[j] == target[j],
                forall|j: int| o <= j < entries@.len() ==> #[trigger] mapping.assignment@[j] == old_asg[j],
            decreases entries.len() - o,
        {
            let hit = match entries[o].printed {
                Some(p) => p.family == f && ((first_entry <= o && o <= last_entry) || (first_run && o
                    < first_entry) || (last_run && o > last_entry)),
                None => false,
            };
            assert(hit == covered(entries@[o as int], o as int, f, first_entry as int, last_entry as int, first_run, last_run));
            if hit {
                mapping.assignment.set(o, Some(index));
            }
            o = o + 1;
        }
        assert(mapping.assignment@ =~= target);
        assert(mapping.segments@ == before_m.0.push(seg_g));
        assert(apply_runs(before_m, entries@, f, a@, offs@, pv, start as int) == apply_runs(
            (mapping.segments@, mapping.assignment@),
            entries@,
            f,
            a@,
            offs@,
            pv,
            end + 1,
        ));
        start = end + 1;
    }
}

/// Solves the printed-label to physical-page mapping of a contents list:
/// Arabic labels first, then Roman ones.
pub fn solve_mapping(entries: &[MappingSource], config: &AutoBookmarkConfig) -> (m: PageMapping)
    ensures
        (m.segments@, m.assignment@) == mapping_spec(entries@, *config),
        m.assignment@.len() == entries@.len(),
{
    let mut mapping = PageMapping { segments: Vec::new(), assignment: vec![None; entries.len()] };
    assert(mapping.assignment@ =~= Seq::new(entries@.len(), |o: int| None::<usize>));
    apply_family(entries, NumberingFamily::Arabic, config, &mut mapping);
    apply_family(entries, NumberingFamily::Roman, config, &mut mapping);
    mapping
}

impl PageMapping {
    /// The segment that entry `entry` belongs to, if any.
    pub fn segment_of(&self, entry: usize) -> (r: Option<MappingSegment>)
        ensures
            r == self.segment_of_spec(entry),
    {
        if entry >= self.assignment.len() {
            return None;
        }
        match self.assignment[entry] {
            Some(i) => if i < self.segments.len() {
                Some(self.segments[i])
            } else {
                None
            },
            None => None,
        }
    }

    /// The physical page that printed label `printed` of entry `entry`
    /// maps to under the entry's segment.
    pub fn expected_page(&self, entry: usize, printed: u32) -> (r: Option<i64>)
        ensures
            r == (match self.segment_of_spec(entry) {
                Some(seg) => if printed + seg.offset <= i64::MAX && printed + seg.offset >= i64::MIN {
                    Some((printed + seg.offset) as i64)
                } else {
                    None
                },
                None => None,
            }),
    {
        match self.segment_of(entry) {
            Some(seg) => (printed as i64).checked_add(seg.offset),
            None => None,
        }
    }

    pub open spec fn segment_of_spec(&self, entry: usize) -> Option<MappingSegment> {
        if entry < self.assignment@.len() && (self.assignment@[entry as int] matches Some(i) && i
            < self.segments@.len()) {
            Some(self.segments@[self.assignment@[entry as int]->0 as int])
        } else {
            None
        }
    }
}

// ---------------------------------------------------------------------------
// Optimality of the chosen offsets
// ---------------------------------------------------------------------------

/// The penalty of following hypotheses `p[0..=t]` through anchors `0..=t`:
/// a mismatch penalty for every anchor off its hypothesis and a change
/// penalty for every switch of hypothesis.
pub open spec fn path_cost(ds: Seq<i64>, offs: Seq<i64>, mismatch: u64, change: u64, p: Seq<int>, t: int) -> int
    decreases t,
{
    if t <= 0 {
        local_cost(ds, offs, mismatch, 0, p[0]) as int
    } else {
        path_cost(ds, offs, mismatch, change, p, t - 1) + transition(p[t - 1], p[t], change)
            + local_cost(ds, offs, mismatch, t, p[t])
    }
}

/// A sequence of hypotheses, one per anchor.
pub open spec fn is_path(p: Seq<int>, anchors: int, hypotheses: int) -> bool {
    p.len() == anchors && forall|t: int| 0 <= t < anchors ==> 0 <= #[trigger] p[t] < hypotheses
}

proof fn lemma_cost_bound(ds: Seq<i64>, offs: Seq<i64>, mismatch: u64, change: u64, t: nat, s: int)
    requires
        0 <= s < offs.len(),
        t < ds.len(),
        ds.len() * (mismatch + change) + change < u64::MAX,
    ensures
        cost_at(ds, offs, mismatch, change, t, s) <= (t + 1) * (mismatch + change),
    decreases t,
{
    let m = mismatch + change;
    if t > 0 {
        lemma_cost_bound(ds, offs, mismatch, change, (t - 1) as nat, s);
        assert(t * m <= ds.len() * m) by (nonlinear_arith)
            requires
                t < ds.len(),
                m >= 0,
        ;
        lemma_scan_upper(ds, offs, mismatch, change, (t - 1) as nat, s, offs.len(), s);
        assert((t + 1) * m == t * m + m) by (nonlinear_arith);
    } else {
        assert(1 * m == m) by (nonlinear_arith);
    }
}

/// The scan is no worse than any reachable candidate it has passed.
proof fn lemma_scan_upper(ds: Seq<i64>, offs: Seq<i64>, mismatch: u64, change: u64, t: nat, s: int, k: nat, q: int)
    requires
        0 <= q < k,
        cost_at(ds, offs, mismatch, change, t, q) != u64::MAX,
    ensures
        scan_at(ds, offs, mismatch, change, t, s, k).0 <= sat(
            cost_at(ds, offs, mismatch, change, t, q),
            transition(q, s, change),
        ),
    decreases k,
{
    if q < k - 1 {
        lemma_scan_upper(ds, offs, mismatch, change, t, s, (k - 1) as nat, q);
    }
}

/// When some candidate is reachable without saturating, the scan's choice
/// is a real candidate and its value is that candidate's cost.
proof fn lemma_scan_witness(ds: Seq<i64>, offs: Seq<i64>, mismatch: u64, change: u64, t: nat, s: int, k: nat)
    requires
        0 < k,
        forall|q: int| 0 <= q < k ==> #[trigger] cost_at(ds, offs, mismatch, change, t, q) + change < u64::MAX,
    ensures
        0 <= scan_at(ds, offs, mismatch, change, t, s, k).1 < k,
        scan_at(ds, offs, mismatch, change, t, s, k).0 == cost_at(
            ds,
            offs,
            mismatch,
            change,
            t,
            scan_at(ds, offs, mismatch, change, t, s, k).1,
        ) + transition(scan_at(ds, offs, mismatch, change, t, s, k).1, s, change),
    decreases k,
{
    let c = cost_at(ds, offs, mismatch, change, t, (k - 1) as int);
    assert(c + change < u64::MAX);
    assert(sat(c, transition(k - 1, s, change)) == c + transition(k - 1, s, change));
    let prev = scan_at(ds, offs, mismatch, change, t, s, (k - 1) as nat);
    if k > 1 {
        lemma_scan_witness(ds, offs, mismatch, change, t, s, (k - 1) as nat);
        let pc = cost_at(ds, offs, mismatch, change, t, prev.1);
        assert(pc + change < u64::MAX);
        assert(prev.0 < u64::MAX);
    } else {
        assert(prev == (u64::MAX, s));
    }
}

/// Every hypothesis at anchor `t` costs at most any path ending there.
proof fn lemma_cost_is_minimal(ds: Seq<i64>, offs: Seq<i64>, mismatch: u64, change: u64, p: Seq<int>, t: int)
    requires
        is_path(p, ds.len() as int, offs.len() as int),
        0 <= t < ds.len(),
        ds.len() * (mismatch + change) + change < u64::MAX,
    ensures
        cost_at(ds, offs, mismatch, change, t as nat, p[t]) <= path_cost(ds, offs, mismatch, change, p, t),
    decreases t,
{
    if t > 0 {
        lemma_cost_is_minimal(ds, offs, mismatch, change, p, t - 1);
        let q = p[t - 1];
        assert(0 <= q < offs.len());
        lemma_cost_bound(ds, offs, mismatch, change, (t - 1) as nat, q);
        let m = mismatch + change;
        assert(t * m <= ds.len() * m) by (nonlinear_arith)
            requires
                t < ds.len(),
                m >= 0,
        ;
        lemma_scan_upper(ds, offs, mismatch, change, (t - 1) as nat, p[t], offs.len(), q);
    }
}

/// The chosen path costs exactly what the table says for its hypotheses.
proof fn lemma_path_cost_matches(ds: Seq<i64>, offs: Seq<i64>, mismatch: u64, change: u64, t: int)
    requires
        0 <= t < ds.len(),
        offs.len() > 0,
        ds.len() * (mismatch + change) + change < u64::MAX,
        forall|a: int| 0 <= a < ds.len() ==> 0 <= #[trigger] path_at(ds, offs, mismatch, change, a) < offs.len(),
    ensures
        path_cost(ds, offs, mismatch, change, path_seq(ds, offs, mismatch, change), t) == cost_at(
            ds,
            offs,
            mismatch,
            change,
            t as nat,
            path_at(ds, offs, mismatch, change, t),
        ),
    decreases t,
{
    let pv = path_seq(ds, offs, mismatch, change);
    if t > 0 {
        lemma_path_cost_matches(ds, offs, mismatch, change, t - 1);
        let s = path_at(ds, offs, mismatch, change, t);
        assert(0 <= s < offs.len());
        assert forall|q: int| 0 <= q < offs.len() implies #[trigger] cost_at(ds, offs, mismatch, change, (t - 1) as nat, q)
            + change < u64::MAX by {
            lemma_cost_bound(ds, offs, mismatch, change, (t - 1) as nat, q);
            let m = mismatch + change;
            assert(t * m <= ds.len() * m) by (nonlinear_arith)
                requires
                    t < ds.len(),
                    m >= 0,
            ;
        }
        lemma_scan_witness(ds, offs, mismatch, change, (t - 1) as nat, s, offs.len());
        let sc = scan_at(ds, offs, mismatch, change, (t - 1) as nat, s, offs.len());
        assert(path_at(ds, offs, mismatch, change, t - 1) == sc.1);
        assert(pv[t] == s);
        assert(pv[t - 1] == path_at(ds, offs, mismatch, change, t - 1));
        lemma_cost_bound(ds, offs, mismatch, change, (t - 1) as nat, sc.1);
        let m = mismatch + change;
        assert(t * m + m <= ds.len() * m) by (nonlinear_arith)
            requires
                t < ds.len(),
                m >= 0,
        ;
        assert(sc.0 + local_cost(ds, offs, mismatch, t, s) <= u64::MAX);
    } else {
        assert(pv[0] == path_at(ds, offs, mismatch, change, 0));
    }
}

proof fn lemma_final_state_minimal(ds: Seq<i64>, offs: Seq<i64>, mismatch: u64, change: u64, k: nat, q: int)
    requires
        0 <= q < k,
        k >= 1,
    ensures
        0 <= final_state(ds, offs, mismatch, change, k) < k,
        cost_at(ds, offs, mismatch, change, (ds.len() - 1) as nat, final_state(ds, offs, mismatch, change, k))
            <= cost_at(ds, offs, mismatch, change, (ds.len() - 1) as nat, q),
    decreases k,
{
    if k > 1 {
        if q < k - 1 {
            lemma_final_state_minimal(ds, offs, mismatch, change, (k - 1) as nat, q);
        } else {
            lemma_final_state_minimal(ds, offs, mismatch, change, (k - 1) as nat, 0);
        }
    }
}

/// The offsets the mapping settles on are a cheapest explanation of the
/// anchors: no other choice of one hypothesis per anchor has a smaller total
/// of mismatch and change penalties (while the penalties cannot overflow).
pub proof fn lemma_chosen_path_is_optimal(ds: Seq<i64>, offs: Seq<i64>, mismatch: u64, change: u64, p: Seq<int>)
    requires
        ds.len() > 0,
        offs.len() > 0,
        is_path(p, ds.len() as int, offs.len() as int),
        ds.len() * (mismatch + change) + change < u64::MAX,
    ensures
        is_path(path_seq(ds, offs, mismatch, change), ds.len() as int, offs.len() as int),
        path_cost(ds, offs, mismatch, change, path_seq(ds, offs, mismatch, change), ds.len() - 1)
            <= path_cost(ds, offs, mismatch, change, p, ds.len() - 1),
{
    let last = ds.len() - 1;
    lemma_final_state_minimal(ds, offs, mismatch, change, offs.len(), p[last]);
    assert forall|a: int| 0 <= a < ds.len() implies 0 <= #[trigger] path_at(ds, offs, mismatch, change, a) < offs.len() by {
        lemma_path_in_range(ds, offs, mismatch, change, a);
    }
    lemma_path_cost_matches(ds, offs, mismatch, change, last);
    lemma_cost_is_minimal(ds, offs, mismatch, change, p, last);
    let pv = path_seq(ds, offs, mismatch, change);
    assert forall|t: int| 0 <= t < ds.len() implies 0 <= #[trigger] pv[t] < offs.len() by {
        assert(pv[t] == path_at(ds, offs, mismatch, change, t));
    }
}

proof fn lemma_path_in_range(ds: Seq<i64>, offs: Seq<i64>, mismatch: u64, change: u64, t: int)
    requires
        offs.len() > 0,
        0 <= t < ds.len(),
    ensures
        0 <= path_at(ds, offs, mismatch, change, t) < offs.len(),
    decreases ds.len() - t,
{
    lemma_final_state_minimal(ds, offs, mismatch, change, offs.len(), 0);
    if t < ds.len() - 1 {
        lemma_path_in_range(ds, offs, mismatch, change, t + 1);
        lemma_scan_in_range(ds, offs, mismatch, change, t as nat, path_at(ds, offs, mismatch, change, t + 1), offs.len());
    }
}

} // verus!
