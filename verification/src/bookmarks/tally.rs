//! The counts a generation report keeps while candidates are produced, and
//! the status the report ends with.

use vstd::prelude::*;

use super::model::{BookmarkStatus, GenerationMode, GenerationStatus};
use crate::sorting::{key_of, key_view, key_views, stable_order, stable_order_spec, SortKey};
use crate::text::{str_eq, views};

verus! {

/// Candidate counts by outcome and reason-code counts. The reason codes are
/// kept as (code, count) pairs in the order each code was first counted;
/// at most 256 distinct codes are counted, and once 256 are known no code is
/// counted any more.
#[derive(Debug)]
pub struct Tally {
    pub auto_confirmed: u32,
    pub needs_review: u32,
    pub skipped: u32,
    pub reason_code_counts: Vec<(String, u32)>,
}

pub open spec fn counts_view(c: Seq<(String, u32)>) -> Seq<(Seq<char>, u32)> {
    c.map_values(|e: (String, u32)| (e.0@, e.1))
}

/// The position of `code` among the counted codes, if it is there.
pub open spec fn code_pos(c: Seq<(Seq<char>, u32)>, code: Seq<char>, n: int) -> Option<int>
    decreases n,
{
    if n <= 0 {
        None
    } else if c[n - 1].0 == code {
        Some(n - 1)
    } else {
        code_pos(c, code, n - 1)
    }
}

/// Counting one reason code.
pub open spec fn count_code(c: Seq<(Seq<char>, u32)>, code: Seq<char>) -> Seq<(Seq<char>, u32)> {
    if c.len() >= 256 {
        c
    } else {
        match code_pos(c, code, c.len() as int) {
            Some(i) => c.update(i, (code, (c[i].1 + 1) as u32)),
            None => c.push((code, 1)),
        }
    }
}

/// Counting the first `n` reason codes, in order.
pub open spec fn count_codes(c: Seq<(Seq<char>, u32)>, codes: Seq<Seq<char>>, n: int) -> Seq<(Seq<char>, u32)>
    decreases n,
{
    if n <= 0 {
        c
    } else {
        count_code(count_codes(c, codes, n - 1), codes[n - 1])
    }
}

proof fn lemma_code_pos(c: Seq<(Seq<char>, u32)>, code: Seq<char>, n: int)
    requires
        0 <= n <= c.len(),
    ensures
        code_pos(c, code, n) matches Some(i) ==> 0 <= i < n && c[i].0 == code,
    decreases n,
{
    if n > 0 {
        lemma_code_pos(c, code, n - 1);
    }
}

impl Tally {
    pub fn new() -> (t: Self)
        ensures
            t.auto_confirmed == 0,
            t.needs_review == 0,
            t.skipped == 0,
            t.reason_code_counts@.len() == 0,
    {
        Tally { auto_confirmed: 0, needs_review: 0, skipped: 0, reason_code_counts: Vec::new() }
    }

    /// Counts one candidate: its outcome (auto-confirmed, skipped, or
    /// anything else as needing review) and each of its reason codes.
    pub fn count(&mut self, status: BookmarkStatus, reason_codes: &[String])
        requires
            old(self).auto_confirmed < u32::MAX,
            old(self).needs_review < u32::MAX,
            old(self).skipped < u32::MAX,
            reason_codes@.len() <= u32::MAX,
            forall|i: int| 0 <= i < old(self).reason_code_counts@.len() ==> #[trigger] old(self).reason_code_counts@[i].1
                <= u32::MAX - reason_codes@.len(),
        ensures
            final(self).auto_confirmed == old(self).auto_confirmed + if status == BookmarkStatus::AutoConfirmed {
                1int
            } else {
                0int
            },
            final(self).skipped == old(self).skipped + if status == BookmarkStatus::Skipped {
                1int
            } else {
                0int
            },
            final(self).needs_review == old(self).needs_review + if status != BookmarkStatus::AutoConfirmed
                && status != BookmarkStatus::Skipped {
                1int
            } else {
                0int
            },
            counts_view(final(self).reason_code_counts@) == count_codes(
                counts_view(old(self).reason_code_counts@),
                views(reason_codes@),
                reason_codes@.len() as int,
            ),
    {
        match status {
            BookmarkStatus::AutoConfirmed => self.auto_confirmed = self.auto_confirmed + 1,
            BookmarkStatus::Skipped => self.skipped = self.skipped + 1,
            _ => self.needs_review = self.needs_review + 1,
        }
        let ghost start = counts_view(self.reason_code_counts@);
        let ghost a = self.auto_confirmed;
        let ghost r = self.needs_review;
        let ghost sk = self.skipped;
        let mut k: usize = 0;
        while k < reason_codes.len()
            invariant
                self.auto_confirmed == a,
                self.needs_review == r,
                self.skipped == sk,
                reason_codes@.len() <= u32::MAX,
                k <= reason_codes@.len(),
                counts_view(self.reason_code_counts@) == count_codes(start, views(reason_codes@), k as int),
                forall|i: int| 0 <= i < self.reason_code_counts@.len() ==> #[trigger] self.reason_code_counts@[i].1
                    <= u32::MAX - reason_codes@.len() + k,
            decreases reason_codes.len() - k,
        {
            let code = &reason_codes[k];
            let ghost cv = counts_view(self.reason_code_counts@);
            if self.reason_code_counts.len() < 256 {
                let mut i: usize = self.reason_code_counts.len();
                let mut found: Option<usize> = None;
                while i > 0
                    invariant
                        i <= self.reason_code_counts@.len(),
                        cv == counts_view(self.reason_code_counts@),
                        found is None ==> code_pos(cv, code@, self.reason_code_counts@.len() as int) == code_pos(cv, code@, i as int),
                        found matches Some(f) ==> code_pos(cv, code@, self.reason_code_counts@.len() as int) == Some(f as int),
                    decreases i,
                {
                    if found.is_none() && str_eq(self.reason_code_counts[i - 1].0.as_str(), code.as_str()) {
                        found = Some(i - 1);
                    }
                    i = i - 1;
                }
                proof {
                    lemma_code_pos(cv, code@, cv.len() as int);
                }
                match found {
                    Some(f) => {
                        let n = self.reason_code_counts[f].1 + 1;
                        let name = self.reason_code_counts[f].0.clone();
                        let ghost before = self.reason_code_counts@;
                        self.reason_code_counts.set(f, (name, n));
                        assert(counts_view(self.reason_code_counts@) =~= cv.update(f as int, (code@, (cv[f as int].1 + 1) as u32)));
                        assert forall|t: int| 0 <= t < self.reason_code_counts@.len() implies #[trigger] self.reason_code_counts@[t].1
                            <= u32::MAX - reason_codes@.len() + k + 1 by {
                            if t != f as int {
                                assert(self.reason_code_counts@[t] == before[t]);
                            }
                        }
                    },
                    None => {
                        let ghost before = self.reason_code_counts@;
                        self.reason_code_counts.push((code.clone(), 1));
                        assert(counts_view(self.reason_code_counts@) =~= cv.push((code@, 1)));
                        assert forall|t: int| 0 <= t < self.reason_code_counts@.len() implies #[trigger] self.reason_code_counts@[t].1
                            <= u32::MAX - reason_codes@.len() + k + 1 by {
                            if t < before.len() {
                                assert(self.reason_code_counts@[t] == before[t]);
                            }
                        }
                    },
                }
            }
            k = k + 1;
            assert(views(reason_codes@)[k - 1] == code@);
        }
    }
}

/// The status a report ends with: auto-confirmed when any candidate was;
/// otherwise a refusal when the generation refused, needing review when any
/// candidate does, and a refusal when no candidate reached the confidence threshold.
pub open spec fn report_status_spec(mode: GenerationMode, auto_confirmed: u32, needs_review: u32) -> GenerationStatus {
    if auto_confirmed > 0 {
        GenerationStatus::AutoConfirmed
    } else if mode == GenerationMode::SafeRefusal {
        GenerationStatus::SafeRefusal
    } else if needs_review > 0 {
        GenerationStatus::NeedsReview
    } else {
        GenerationStatus::SafeRefusal
    }
}

/// The report's status and its refusal reason: a refusal with no reason of
/// its own gets one saying that no entry reached the confidence threshold.
pub fn report_status(mode: GenerationMode, auto_confirmed: u32, needs_review: u32, reason: Option<&str>) -> (r: (
    GenerationStatus,
    Option<String>,
))
    ensures
        r.0 == report_status_spec(mode, auto_confirmed, needs_review),
        match reason {
            Some(m) => r.1 matches Some(t) && t@ == m@,
            None => if r.0 == GenerationStatus::SafeRefusal {
                r.1 matches Some(t) && t@ == "a printed contents list was found but no entry reached the confidence gate"@
            } else {
                r.1 is None
            },
        },
{
    let status = if auto_confirmed > 0 {
        GenerationStatus::AutoConfirmed
    } else if mode == GenerationMode::SafeRefusal {
        GenerationStatus::SafeRefusal
    } else if needs_review > 0 {
        GenerationStatus::NeedsReview
    } else {
        GenerationStatus::SafeRefusal
    };
    let text = match reason {
        Some(m) => Some(m.to_owned()),
        None => if status == GenerationStatus::SafeRefusal {
            Some("a printed contents list was found but no entry reached the confidence gate".to_owned())
        } else {
            None
        },
    };
    (status, text)
}

/// The distinct values of `s` in their order: each value that differs from
/// the one before it.
pub open spec fn dedup_spec(s: Seq<Seq<char>>) -> Seq<Seq<char>>
    decreases s.len(),
{
    if s.len() == 0 {
        s
    } else {
        let rest = dedup_spec(s.drop_last());
        if s.len() >= 2 && s[s.len() - 2] == s.last() {
            rest
        } else {
            rest.push(s.last())
        }
    }
}

/// The reasons in sorted order, each listed once.
pub open spec fn sorted_reasons(reasons: Seq<Seq<char>>) -> Seq<Seq<char>> {
    let keys = reasons.map_values(|r: Seq<char>| (seq![0int], seq![r]));
    let order = stable_order_spec(keys, reasons.len() as int);
    dedup_spec(order.map_values(|i: int| reasons[i]))
}

/// Sorts truncation reasons and drops repeats.
pub fn sort_dedup_reasons(reasons: &[String]) -> (r: Vec<String>)
    ensures
        views(r@) == sorted_reasons(views(reasons@)),
{
    let mut keys: Vec<SortKey> = Vec::new();
    let mut j: usize = 0;
    while j < reasons.len()
        invariant
            j <= reasons@.len(),
            keys@.len() == j,
            forall|i: int| 0 <= i < j ==> key_view(#[trigger] keys@[i]) == (seq![0int], seq![reasons@[i]@]),
        decreases reasons.len() - j,
    {
        keys.push(key_of(0, reasons[j].as_str()));
        j = j + 1;
    }
    let ghost rv = views(reasons@);
    let ghost kv = rv.map_values(|r: Seq<char>| (seq![0int], seq![r]));
    assert(key_views(keys@) =~= kv);
    let order = stable_order(keys.as_slice());
    proof {
        crate::sorting::lemma_stable_order(kv, rv.len() as int);
    }
    let ghost sorted = stable_order_spec(kv, rv.len() as int).map_values(|i: int| rv[i]);
    let mut out: Vec<String> = Vec::new();
    let mut i: usize = 0;
    while i < order.len()
        invariant
            order@.len() == rv.len(),
            rv == views(reasons@),
            rv.len() == reasons@.len(),
            stable_order_spec(kv, rv.len() as int).len() == rv.len(),
            sorted.len() == rv.len(),
            sorted == stable_order_spec(kv, rv.len() as int).map_values(|t: int| rv[t]),
            forall|t: int| 0 <= t < order@.len() ==> order@[t] as int == #[trigger] stable_order_spec(kv, rv.len() as int)[t],
            forall|t: int| 0 <= t < rv.len() ==> 0 <= #[trigger] stable_order_spec(kv, rv.len() as int)[t] < rv.len(),
            i <= order@.len(),
            views(out@) == dedup_spec(sorted.take(i as int)),
            i > 0 ==> out@.len() > 0 && out@.last()@ == sorted[i - 1],
        decreases order.len() - i,
    {
        let k = order[i];
        assert(0 <= stable_order_spec(kv, rv.len() as int)[i as int] < rv.len());
        assert(sorted[i as int] == rv[k as int]);
        assert(sorted.take(i + 1 as int).drop_last() =~= sorted.take(i as int));
        let repeat = i > 0 && str_eq(out[out.len() - 1].as_str(), reasons[k].as_str());
        if !repeat {
            let ghost before = views(out@);
            out.push(reasons[k].clone());
            assert(views(out@) =~= before.push(rv[k as int]));
        }
        i = i + 1;
    }
    assert(sorted.take(rv.len() as int) =~= sorted);
    out
}

} // verus!
