//! Applying human review operations to generated bookmark candidates.
//!
//! The generation itself is never changed: a review produces an effective
//! view. Operations apply in order; a confirmation of an AI suggestion, an
//! empty title or a level beyond 64 is refused, and the resulting hierarchy
//! must have existing, strictly shallower parents and no cycle.

use vstd::prelude::*;

use super::model::{BookmarkReviews, BookmarkStatus, ReviewAction, ReviewOperation, MAX_REVIEWS};
use super::text_index::{lowercase_text, lowercase_text_of};
use super::ids::push_bytes;
use super::snapshot::{snapshot_fault, SnapshotRecord};
use crate::digest::{decimal, hex_of, json_string, push_decimal, push_json_string, sha256, sha256_hex};
use vstd::bytes::{spec_u64_to_le_bytes, u64_to_le_bytes};
use crate::sorting::{key_view, key_views, stable_order, stable_order_spec, KeyView, SortKey};
use crate::error::{CoreError, Result};
use crate::text::{chars_of, push_str, str_eq, trim_ws, trimmed};

verus! {

broadcast use vstd::string::group_string_axioms;

/// What a review reads and changes of a candidate.
#[derive(Debug, Clone, PartialEq, Eq)]
pub struct ReviewTarget {
    pub candidate_id: String,
    pub generator_kind: String,
    pub status: BookmarkStatus,
    pub effective_title: String,
    pub effective_parent_id: Option<String>,
    pub effective_level: u16,
    /// The physical page the candidate targets. Reviews never change it.
    pub physical_page_index: u32,
    /// The top of the candidate's box on its page as an integer that orders
    /// candidates as the box tops do (0 for a candidate without a box).
    /// Reviews never change it.
    pub top_key: i64,
}

/// A candidate as plain values: ID, generator kind, status, title, parent
/// and level.
pub type TargetView = (Seq<char>, Seq<char>, BookmarkStatus, Seq<char>, Option<Seq<char>>, u16);

pub open spec fn opt_chars(o: Option<String>) -> Option<Seq<char>> {
    match o {
        Some(s) => Some(s@),
        None => None,
    }
}

pub open spec fn tview(t: ReviewTarget) -> TargetView {
    (t.candidate_id@, t.generator_kind@, t.status, t.effective_title@, opt_chars(t.effective_parent_id), t.effective_level)
}

pub open spec fn tviews(ts: Seq<ReviewTarget>) -> Seq<TargetView> {
    ts.map_values(|t: ReviewTarget| tview(t))
}

/// The first candidate from `i` on with ID `id`, or -1.
pub open spec fn find_from(ts: Seq<TargetView>, id: Seq<char>, i: int) -> int
    decreases ts.len() - i,
{
    if i < 0 || i >= ts.len() {
        -1
    } else if ts[i].0 == id {
        i
    } else {
        find_from(ts, id, i + 1)
    }
}

pub open spec fn find(ts: Seq<TargetView>, id: Seq<char>) -> int {
    find_from(ts, id, 0)
}

proof fn lemma_find_from(ts: Seq<TargetView>, id: Seq<char>, i: int)
    requires
        0 <= i <= ts.len(),
    ensures
        find_from(ts, id, i) == -1 ==> forall|k: int| i <= k < ts.len() ==> #[trigger] ts[k].0 != id,
        find_from(ts, id, i) != -1 ==> i <= find_from(ts, id, i) < ts.len() && ts[find_from(ts, id, i)].0
            == id && forall|k: int| i <= k < find_from(ts, id, i) ==> #[trigger] ts[k].0 != id,
    decreases ts.len() - i,
{
    if i < ts.len() && ts[i].0 != id {
        lemma_find_from(ts, id, i + 1);
    }
}

/// An error as plain values: whether it is a parameter error (otherwise a
/// document error), and its message.
pub type Fault = (bool, Seq<char>);

/// One operation applied to the candidates.
pub open spec fn apply_op(ts: Seq<TargetView>, op: ReviewOperation) -> core::result::Result<Seq<TargetView>, Fault> {
    let i = find(ts, op.candidate_id@);
    if i < 0 {
        Err((false, "review references missing candidate"@))
    } else {
        let c = ts[i];
        match op.operation {
            ReviewAction::Confirm => if c.1 == "ai_suggestion"@ {
                Err((false, "AI suggestions cannot be applied"@))
            } else {
                Ok(ts.update(i, (c.0, c.1, BookmarkStatus::Confirmed, c.3, c.4, c.5)))
            },
            ReviewAction::Reject => Ok(ts.update(i, (c.0, c.1, BookmarkStatus::Rejected, c.3, c.4, c.5))),
            ReviewAction::Edit { title } => if trim_ws(title@).len() == 0 {
                Err((true, "bookmark title must not be empty"@))
            } else {
                Ok(ts.update(i, (c.0, c.1, c.2, title@, c.4, c.5)))
            },
            ReviewAction::Reparent { parent_id, level } => if level > 64 {
                Err((true, "bookmark level exceeds 64"@))
            } else {
                Ok(ts.update(i, (c.0, c.1, c.2, c.3, opt_chars(parent_id), level)))
            },
        }
    }
}

/// The operations applied in order; the first refusal stops.
pub open spec fn apply_ops(ts: Seq<TargetView>, ops: Seq<ReviewOperation>) -> core::result::Result<Seq<TargetView>, Fault>
    decreases ops.len(),
{
    if ops.len() == 0 {
        Ok(ts)
    } else {
        match apply_ops(ts, ops.drop_last()) {
            Ok(t2) => apply_op(t2, ops.last()),
            Err(e) => Err(e),
        }
    }
}

/// Whether `r` is the error `f` describes.
pub open spec fn is_fault<T>(r: Result<T>, f: Fault) -> bool {
    match r {
        Err(CoreError::InvalidParameter(m)) => f.0 && m@ == f.1,
        Err(CoreError::InvalidDocument(m)) => !f.0 && m@ == f.1,
        _ => false,
    }
}

fn fault_doc<T>(m: &str) -> (r: Result<T>)
    ensures
        is_fault(r, (false, m@)),
{
    Err(CoreError::InvalidDocument(m.to_owned()))
}

fn fault_param<T>(m: &str) -> (r: Result<T>)
    ensures
        is_fault(r, (true, m@)),
{
    Err(CoreError::InvalidParameter(m.to_owned()))
}

fn find_target(ts: &Vec<ReviewTarget>, id: &String) -> (r: Option<usize>)
    ensures
        r matches Some(i) ==> i as int == find(tviews(ts@), id@),
        r is None ==> find(tviews(ts@), id@) == -1,
{
    let ghost tv = tviews(ts@);
    let mut i: usize = 0;
    while i < ts.len()
        invariant
            tv == tviews(ts@),
            i <= ts@.len(),
            find(tv, id@) == find_from(tv, id@, i as int),
        decreases ts.len() - i,
    {
        assert(tv[i as int] == tview(ts@[i as int]));
        if ts[i].candidate_id == *id {
            return Some(i);
        }
        i = i + 1;
    }
    None
}

pub(crate) fn copy_opt(o: &Option<String>) -> (r: Option<String>)
    ensures
        opt_chars(r) == opt_chars(*o),
{
    match o {
        Some(s) => Some(s.clone()),
        None => None,
    }
}

proof fn lemma_tviews_push(ts: Seq<ReviewTarget>, t: ReviewTarget)
    ensures
        tviews(ts.push(t)) == tviews(ts).push(tview(t)),
{
    assert(tviews(ts.push(t)) =~= tviews(ts).push(tview(t)));
}

proof fn lemma_tviews_update(ts: Seq<ReviewTarget>, i: int, t: ReviewTarget)
    requires
        0 <= i < ts.len(),
    ensures
        tviews(ts.update(i, t)) == tviews(ts).update(i, tview(t)),
{
    assert(tviews(ts.update(i, t)) =~= tviews(ts).update(i, tview(t)));
}

/// Whether `k` is the first position in `ts` of candidate `id`.
pub open spec fn first_with_id(ts: Seq<TargetView>, id: Seq<char>, k: int) -> bool {
    &&& 0 <= k < ts.len()
    &&& ts[k].0 == id
    &&& forall|j: int| 0 <= j < k ==> #[trigger] ts[j].0 != id
}

/// What an applied operation leaves on its candidate: a confirmation or a
/// rejection sets the status, an edit the title, a reparenting the parent
/// and the level.
pub open spec fn shows_action(t: TargetView, action: ReviewAction) -> bool {
    match action {
        ReviewAction::Confirm => t.2 == BookmarkStatus::Confirmed,
        ReviewAction::Reject => t.2 == BookmarkStatus::Rejected,
        ReviewAction::Edit { title } => t.3 == title@,
        ReviewAction::Reparent { parent_id, level } => t.4 == opt_chars(parent_id) && t.5 == level,
    }
}

/// Law: an operation that applies changes only the first candidate with
/// its ID, keeps that candidate's ID and generator, and leaves on it what
/// the operation asks for (status, title, or parent and level), every
/// other field of it unchanged.
pub proof fn lemma_apply_op_effect(ts: Seq<TargetView>, op: ReviewOperation)
    ensures
        apply_op(ts, op) matches Ok(v) ==> {
            &&& v.len() == ts.len()
            &&& exists|k: int| #[trigger] first_with_id(ts, op.candidate_id@, k)
            &&& forall|k: int|
                #[trigger] first_with_id(ts, op.candidate_id@, k) ==> {
                    &&& forall|j: int| 0 <= j < ts.len() && j != k ==> #[trigger] v[j] == ts[j]
                    &&& v[k].0 == ts[k].0
                    &&& v[k].1 == ts[k].1
                    &&& shows_action(v[k], op.operation)
                    &&& (op.operation is Confirm || op.operation is Reject ==> v[k].3 == ts[k].3 && v[k].4
                        == ts[k].4 && v[k].5 == ts[k].5)
                    &&& (op.operation is Edit ==> v[k].2 == ts[k].2 && v[k].4 == ts[k].4 && v[k].5
                        == ts[k].5)
                    &&& (op.operation is Reparent ==> v[k].2 == ts[k].2 && v[k].3 == ts[k].3)
                }
        },
{
    let id = op.candidate_id@;
    lemma_find_from(ts, id, 0);
    let i = find(ts, id);
    if i >= 0 {
        assert(first_with_id(ts, id, i));
        assert forall|k: int| #[trigger] first_with_id(ts, id, k) implies k == i by {
            if k < i {
                assert(ts[k].0 != id);
            } else if k > i {
                assert(ts[i].0 != id);
            }
        }
    }
}

/// After a run of operations that applies, the first candidate with the
/// last operation's ID shows that operation.
proof fn lemma_last_op_shows(ts: Seq<TargetView>, ops: Seq<ReviewOperation>)
    ensures
        ops.len() > 0 ==> (apply_ops(ts, ops) matches Ok(v) ==> forall|k: int|
            #[trigger] first_with_id(v, ops.last().candidate_id@, k) ==> shows_action(v[k], ops.last().operation)),
{
    if ops.len() > 0 {
        if let Ok(v) = apply_ops(ts, ops) {
            let before = apply_ops(ts, ops.drop_last())->Ok_0;
            let op = ops.last();
            lemma_apply_op_effect(before, op);
            assert forall|k: int| #[trigger] first_with_id(v, op.candidate_id@, k) implies shows_action(
                v[k],
                op.operation,
            ) by {
                let k0 = choose|k0: int| #[trigger] first_with_id(before, op.candidate_id@, k0);
                if k0 != k {
                    if k0 < k {
                        assert(v[k0] == before[k0] || k0 == k0);
                        assert(v[k0].0 == before[k0].0);
                    } else {
                        assert(v[k] == before[k]);
                    }
                }
            }
        }
    }
}

/// Applies review operations, in order, to a copy of the candidates.
pub fn apply_review_operations(targets: &[ReviewTarget], ops: &[ReviewOperation]) -> (r: Result<Vec<ReviewTarget>>)
    ensures
        apply_ops(tviews(targets@), ops@) matches Ok(v) ==> (r matches Ok(out) && tviews(out@) == v),
        apply_ops(tviews(targets@), ops@) matches Err(f) ==> is_fault(r, f),
        ops@.len() > 0 ==> (r matches Ok(out) ==> forall|k: int|
            #[trigger] first_with_id(tviews(out@), ops@.last().candidate_id@, k) ==> shows_action(
                tviews(out@)[k],
                ops@.last().operation,
            )),
{
    let mut out: Vec<ReviewTarget> = Vec::new();
    let mut k: usize = 0;
    while k < targets.len()
        invariant
            k <= targets@.len(),
            tviews(out@) == tviews(targets@).take(k as int),
        decreases targets.len() - k,
    {
        let t = ReviewTarget {
            candidate_id: targets[k].candidate_id.clone(),
            generator_kind: targets[k].generator_kind.clone(),
            status: targets[k].status,
            effective_title: targets[k].effective_title.clone(),
            effective_parent_id: copy_opt(&targets[k].effective_parent_id),
            effective_level: targets[k].effective_level,
            physical_page_index: targets[k].physical_page_index,
            top_key: targets[k].top_key,
        };
        assert(tview(t) == tview(targets@[k as int]));
        proof {
            lemma_tviews_push(out@, t);
        }
        out.push(t);
        k = k + 1;
        assert(tviews(out@) =~= tviews(targets@).take(k as int));
    }
    assert(tviews(targets@).take(k as int) == tviews(targets@));
    let mut j: usize = 0;
    while j < ops.len()
        invariant
            j <= ops@.len(),
            apply_ops(tviews(targets@), ops@.take(j as int)) == Ok::<Seq<TargetView>, Fault>(tviews(out@)),
        decreases ops.len() - j,
    {
        let op = &ops[j];
        let ghost before = tviews(out@);
        assert(ops@.take(j + 1 as int).drop_last() == ops@.take(j as int));
        assert(ops@.take(j + 1 as int).last() == *op);
        let ghost expected = apply_op(before, *op);
        let found = find_target(&out, &op.candidate_id);
        match found {
            None => {
                proof {
                    lemma_apply_ops_prefix_err(tviews(targets@), ops@, (j + 1) as int);
                }
                return fault_doc("review references missing candidate");
            },
            Some(i) => {
                proof {
                    lemma_find_from(before, op.candidate_id@, 0);
                }
                assert(before[i as int] == tview(out@[i as int]));
                match &op.operation {
                    ReviewAction::Confirm => {
                        if str_eq(out[i].generator_kind.as_str(), "ai_suggestion") {
                            proof {
                                lemma_apply_ops_prefix_err(tviews(targets@), ops@, (j + 1) as int);
                            }
                            return fault_doc("AI suggestions cannot be applied");
                        }
                        let mut t = out[i].clone_target();
                        t.status = BookmarkStatus::Confirmed;
                        proof {
                            lemma_tviews_update(out@, i as int, t);
                        }
                        out.set(i, t);
                    },
                    ReviewAction::Reject => {
                        let mut t = out[i].clone_target();
                        t.status = BookmarkStatus::Rejected;
                        proof {
                            lemma_tviews_update(out@, i as int, t);
                        }
                        out.set(i, t);
                    },
                    ReviewAction::Edit { title } => {
                        let chars = chars_of(title.as_str());
                        let tt = trimmed(chars.as_slice());
                        if tt.len() == 0 {
                            proof {
                                lemma_apply_ops_prefix_err(tviews(targets@), ops@, (j + 1) as int);
                            }
                            return fault_param("bookmark title must not be empty");
                        }
                        let mut t = out[i].clone_target();
                        t.effective_title = title.clone();
                        proof {
                            lemma_tviews_update(out@, i as int, t);
                        }
                        out.set(i, t);
                    },
                    ReviewAction::Reparent { parent_id, level } => {
                        if *level > 64 {
                            proof {
                                lemma_apply_ops_prefix_err(tviews(targets@), ops@, (j + 1) as int);
                            }
                            return fault_param("bookmark level exceeds 64");
                        }
                        let mut t = out[i].clone_target();
                        t.effective_parent_id = copy_opt(parent_id);
                        t.effective_level = *level;
                        proof {
                            lemma_tviews_update(out@, i as int, t);
                        }
                        out.set(i, t);
                    },
                }
                assert(tviews(out@) =~= expected->Ok_0);
            },
        }
        j = j + 1;
    }
    assert(ops@.take(ops@.len() as int) == ops@);
    proof {
        lemma_last_op_shows(tviews(targets@), ops@);
        let v = tviews(out@);
        assert(apply_ops(tviews(targets@), ops@) == Ok::<Seq<TargetView>, Fault>(v));
        if ops@.len() > 0 {
            assert forall|k: int| #[trigger] first_with_id(v, ops@.last().candidate_id@, k) implies shows_action(
                v[k],
                ops@.last().operation,
            ) by {
                assert(first_with_id(apply_ops(tviews(targets@), ops@)->Ok_0, ops@.last().candidate_id@, k));
            }
        }
    }
    Ok(out)
}

/// Once the operations up to `k` fail, so do all of them.
proof fn lemma_apply_ops_prefix_err(ts: Seq<TargetView>, ops: Seq<ReviewOperation>, k: int)
    requires
        0 <= k <= ops.len(),
        apply_ops(ts, ops.take(k)) is Err,
    ensures
        apply_ops(ts, ops) == apply_ops(ts, ops.take(k)),
    decreases ops.len() - k,
{
    if k < ops.len() {
        assert(ops.take(k + 1).drop_last() == ops.take(k));
        lemma_apply_ops_prefix_err(ts, ops, k + 1);
    } else {
        assert(ops.take(k) == ops);
    }
}

impl ReviewTarget {
    /// A field-by-field copy.
    pub fn clone_target(&self) -> (r: Self)
        ensures
            tview(r) == tview(*self),
    {
        ReviewTarget {
            candidate_id: self.candidate_id.clone(),
            generator_kind: self.generator_kind.clone(),
            status: self.status,
            effective_title: self.effective_title.clone(),
            effective_parent_id: copy_opt(&self.effective_parent_id),
            effective_level: self.effective_level,
            physical_page_index: self.physical_page_index,
            top_key: self.top_key,
        }
    }
}

// ---------------------------------------------------------------------------
// The effective hierarchy
// ---------------------------------------------------------------------------

/// The parent of candidate `id`, if that candidate exists.
pub open spec fn parent_of(ts: Seq<TargetView>, id: Seq<char>) -> Option<Seq<char>> {
    let i = find(ts, id);
    if i < 0 {
        None
    } else {
        ts[i].4
    }
}

/// The `k`-th element of the parent chain that starts at `p`.
pub open spec fn ancestor(ts: Seq<TargetView>, p: Seq<char>, k: nat) -> Option<Seq<char>>
    decreases k,
{
    if k == 0 {
        Some(p)
    } else {
        match ancestor(ts, p, (k - 1) as nat) {
            Some(id) => parent_of(ts, id),
            None => None,
        }
    }
}

/// Whether the parent chain from `p` ends without revisiting an ID.
pub open spec fn chain_ends(ts: Seq<TargetView>, p: Seq<char>) -> bool {
    exists|k: nat|
        #[trigger] ancestor(ts, p, k) is None && forall|i: nat, j: nat|
            i < j < k ==> ancestor(ts, p, i) != ancestor(ts, p, j)
}

/// What is wrong with the parent of candidate `i`, if anything.
pub open spec fn node_fault(ts: Seq<TargetView>, i: int) -> Option<Seq<char>> {
    match ts[i].4 {
        None => None,
        Some(p) => if p == ts[i].0 || find(ts, p) < 0 {
            Some("bookmark parent is missing or cyclic"@)
        } else if ts[find(ts, p)].5 >= ts[i].5 {
            Some("bookmark parent level must be shallower than its child"@)
        } else if !chain_ends(ts, p) {
            Some("bookmark hierarchy contains a cycle"@)
        } else {
            None
        },
    }
}

/// The fault of the first candidate from `i` on whose parent is wrong.
pub open spec fn hierarchy_fault_from(ts: Seq<TargetView>, i: int) -> Option<Seq<char>>
    decreases ts.len() - i,
{
    if i < 0 || i >= ts.len() {
        None
    } else if node_fault(ts, i) is Some {
        node_fault(ts, i)
    } else {
        hierarchy_fault_from(ts, i + 1)
    }
}

proof fn lemma_none_absorbs(ts: Seq<TargetView>, p: Seq<char>, k: nat, k2: nat)
    requires
        ancestor(ts, p, k) is None,
        k <= k2,
    ensures
        ancestor(ts, p, k2) is None,
    decreases k2 - k,
{
    if k < k2 {
        lemma_none_absorbs(ts, p, k, (k2 - 1) as nat);
    }
}

proof fn lemma_repeat_never_ends(ts: Seq<TargetView>, p: Seq<char>, i: nat, j: nat)
    requires
        i < j,
        ancestor(ts, p, j) is Some,
        ancestor(ts, p, i) == ancestor(ts, p, j),
    ensures
        !chain_ends(ts, p),
{
    if chain_ends(ts, p) {
        let k = choose|k: nat|
            #[trigger] ancestor(ts, p, k) is None && forall|a: nat, b: nat|
                a < b < k ==> ancestor(ts, p, a) != ancestor(ts, p, b);
        if k <= j {
            lemma_none_absorbs(ts, p, k, j);
        }
    }
}

proof fn lemma_distinct_existing_bound(ts: Seq<TargetView>, s: Seq<Seq<char>>)
    requires
        s.no_duplicates(),
        forall|x: int| 0 <= x < s.len() ==> find(ts, #[trigger] s[x]) >= 0,
    ensures
        s.len() <= ts.len(),
{
    let ids = ts.map_values(|t: TargetView| t.0);
    assert forall|x: Seq<char>| s.to_set().contains(x) implies ids.to_set().contains(x) by {
        let a = choose|a: int| 0 <= a < s.len() && s[a] == x;
        lemma_find_from(ts, x, 0);
        let b = find(ts, x);
        assert(ids[b] == x);
    }
    s.unique_seq_to_set();
    ids.lemma_cardinality_of_set();
    vstd::set_lib::lemma_len_subset(s.to_set(), ids.to_set());
}

/// Whether the parent chain from `p` revisits an ID.
#[verifier::loop_isolation(false)]
fn chain_has_cycle(ts: &Vec<ReviewTarget>, p: &String) -> (b: bool)
    requires
        find(tviews(ts@), p@) >= 0,
    ensures
        b == !chain_ends(tviews(ts@), p@),
{
    let ghost tv = tviews(ts@);
    let mut seen: Vec<String> = Vec::new();
    let mut cur: String = p.clone();
    loop
        invariant
            tv == tviews(ts@),
            crate::text::views(seen@).len() == seen@.len(),
            forall|x: int| 0 <= x < seen@.len() ==> ancestor(tv, p@, x as nat) == Some(#[trigger] seen@[x]@),
            crate::text::views(seen@).no_duplicates(),
            forall|x: int| 0 <= x < seen@.len() ==> find(tv, #[trigger] seen@[x]@) >= 0,
            ancestor(tv, p@, seen@.len()) == Some(cur@),
            find(tv, cur@) >= 0,
            seen@.len() <= ts@.len(),
        decreases ts@.len() - seen@.len(),
    {
        let ghost k = seen@.len();
        let ghost sv = crate::text::views(seen@);
        if crate::text::list_contains(seen.as_slice(), cur.as_str()) {
            proof {
                let x = choose|x: int| 0 <= x < sv.len() && sv[x] == cur@;
                assert(sv[x] == seen@[x]@);
                lemma_repeat_never_ends(tv, p@, x as nat, k as nat);
            }
            return true;
        }
        let ghost old_sv = sv;
        let copy = cur.clone();
        proof {
            crate::text::lemma_views_push(seen@, copy);
        }
        seen.push(copy);
        proof {
            let nv = crate::text::views(seen@);
            assert(nv == old_sv.push(cur@));
            assert forall|a: int, b: int| 0 <= a < nv.len() && 0 <= b < nv.len() && a != b implies nv[a] != nv[b] by {
                if a == nv.len() - 1 {
                    assert(!old_sv.contains(cur@));
                    assert(old_sv[b] == nv[b]);
                } else if b == nv.len() - 1 {
                    assert(!old_sv.contains(cur@));
                    assert(old_sv[a] == nv[a]);
                } else {
                    assert(old_sv[a] == nv[a] && old_sv[b] == nv[b]);
                }
            }
            assert forall|x: int| 0 <= x < nv.len() implies find(tv, #[trigger] nv[x]) >= 0 by {
                assert(nv[x] == seen@[x]@);
            }
            lemma_distinct_existing_bound(tv, nv);
        }
        let i = match find_target(ts, &cur) {
            Some(i) => i,
            None => {
                return false;
            },
        };
        proof {
            lemma_find_from(tv, cur@, 0);
        }
        assert(tv[i as int] == tview(ts@[i as int]));
        assert(ancestor(tv, p@, (k + 1) as nat) == opt_chars(ts@[i as int].effective_parent_id));
        match &ts[i].effective_parent_id {
            None => {
                proof {
                    assert(ancestor(tv, p@, (k + 1) as nat) is None);
                    assert forall|a: nat, b: nat| a < b < k + 1 implies ancestor(tv, p@, a) != ancestor(tv, p@, b) by {
                        assert(ancestor(tv, p@, a) == Some(seen@[a as int]@));
                        assert(ancestor(tv, p@, b) == Some(seen@[b as int]@));
                        assert(crate::text::views(seen@)[a as int] == seen@[a as int]@);
                        assert(crate::text::views(seen@)[b as int] == seen@[b as int]@);
                    }
                }
                return false;
            },
            Some(q) => {
                match find_target(ts, q) {
                    None => {
                        proof {
                            assert(ancestor(tv, p@, (k + 1) as nat) == Some(q@));
                            assert(ancestor(tv, p@, (k + 2) as nat) is None);
                            assert forall|a: nat, b: nat| a < b < k + 2 implies ancestor(tv, p@, a) != ancestor(tv, p@, b) by {
                                assert(ancestor(tv, p@, a) == Some(seen@[a as int]@));
                                assert(crate::text::views(seen@)[a as int] == seen@[a as int]@);
                                if b == k + 1 {
                                    assert(find(tv, seen@[a as int]@) >= 0);
                                } else {
                                    assert(ancestor(tv, p@, b) == Some(seen@[b as int]@));
                                    assert(crate::text::views(seen@)[b as int] == seen@[b as int]@);
                                }
                            }
                        }
                        return false;
                    },
                    Some(_) => {
                        cur = q.clone();
                    },
                }
            },
        }
    }
}

/// Checks the effective hierarchy: every parent exists, is not the
/// candidate itself, is strictly shallower, and the parent chain has no
/// cycle.
pub fn check_hierarchy(ts: &Vec<ReviewTarget>) -> (r: Result<()>)
    ensures
        match hierarchy_fault_from(tviews(ts@), 0) {
            None => r is Ok,
            Some(m) => is_fault(r, (false, m)),
        },
{
    let ghost tv = tviews(ts@);
    let mut i: usize = 0;
    while i < ts.len()
        invariant
            tv == tviews(ts@),
            i <= ts@.len(),
            hierarchy_fault_from(tv, 0) == hierarchy_fault_from(tv, i as int),
        decreases ts.len() - i,
    {
        assert(tv[i as int] == tview(ts@[i as int]));
        match &ts[i].effective_parent_id {
            None => {},
            Some(p) => {
                let found = find_target(ts, p);
                if str_eq(p.as_str(), ts[i].candidate_id.as_str()) || found.is_none() {
                    return fault_doc("bookmark parent is missing or cyclic");
                }
                let j = found.unwrap();
                proof {
                    lemma_find_from(tv, p@, 0);
                }
                assert(tv[j as int] == tview(ts@[j as int]));
                if ts[j].effective_level >= ts[i].effective_level {
                    return fault_doc("bookmark parent level must be shallower than its child");
                }
                if chain_has_cycle(ts, p) {
                    return fault_doc("bookmark hierarchy contains a cycle");
                }
            },
        }
        i = i + 1;
    }
    Ok(())
}

/// The order key of the `i`-th reviewed candidate `v[i]`: the page and
/// box top of the `i`-th original candidate (reviews leave both alone),
/// then the reviewed level, the lowercased reviewed title and the ID.
pub open spec fn effective_key(targets: Seq<ReviewTarget>, v: Seq<TargetView>, i: int) -> KeyView {
    (
        seq![targets[i].physical_page_index as int, targets[i].top_key as int, v[i].5 as int],
        seq![lowercase_text(v[i].3), v[i].0],
    )
}

pub open spec fn effective_keys(targets: Seq<ReviewTarget>, v: Seq<TargetView>) -> Seq<KeyView> {
    Seq::new(v.len(), |i: int| effective_key(targets, v, i))
}

/// The reviewed candidates `v` in effective order: by page, box top,
/// level, lowercased title and ID, candidates with equal keys in their
/// original order.
pub open spec fn effective_order(targets: Seq<ReviewTarget>, v: Seq<TargetView>) -> Seq<TargetView> {
    let order = stable_order_spec(effective_keys(targets, v), v.len() as int);
    Seq::new(v.len(), |k: int| v[order[k]])
}

/// The effective view of a generation under its reviews: the reviews must
/// be valid and made for this generation; their operations then apply in
/// order, the resulting hierarchy is checked, and the candidates come back
/// in effective order (see [`effective_order`]).
pub fn effective_targets(generation_digest: &str, targets: &[ReviewTarget], reviews: &BookmarkReviews) -> (r: Result<Vec<ReviewTarget>>)
    ensures
        !reviews.valid() ==> r is Err,
        reviews.valid() && reviews.base_generation_digest@ != generation_digest@ ==> is_fault(
            r,
            (false, "stale bookmark review generation"@),
        ),
        reviews.valid() && reviews.base_generation_digest@ == generation_digest@ ==> match apply_ops(
            tviews(targets@),
            reviews.operations@,
        ) {
            Err(f) => is_fault(r, f),
            Ok(v) => match hierarchy_fault_from(v, 0) {
                Some(m) => is_fault(r, (false, m)),
                None => r matches Ok(out) && tviews(out@) == effective_order(targets@, v),
            },
        },
{
    match reviews.validate() {
        Err(e) => return Err(e),
        Ok(()) => {},
    }
    if !str_eq(reviews.base_generation_digest.as_str(), generation_digest) {
        return fault_doc("stale bookmark review generation");
    }
    let out = match apply_review_operations(targets, reviews.operations.as_slice()) {
        Err(e) => return Err(e),
        Ok(out) => out,
    };
    match check_hierarchy(&out) {
        Err(e) => return Err(e),
        Ok(()) => {},
    }
    let ghost v = tviews(out@);
    proof {
        lemma_reviews_keep_candidates(tviews(targets@), reviews.operations@);
    }
    assert(v.len() == targets@.len());
    let mut keys: Vec<SortKey> = Vec::new();
    let mut i: usize = 0;
    while i < out.len()
        invariant
            v == tviews(out@),
            v.len() == targets@.len(),
            out@.len() == targets@.len(),
            i <= out@.len(),
            keys@.len() == i,
            forall|t: int| 0 <= t < i ==> key_view(#[trigger] keys@[t]) == effective_key(targets@, v, t),
        decreases out.len() - i,
    {
        let mut numbers: Vec<i64> = Vec::new();
        numbers.push(targets[i].physical_page_index as i64);
        numbers.push(targets[i].top_key);
        numbers.push(out[i].effective_level as i64);
        let mut texts: Vec<String> = Vec::new();
        texts.push(lowercase_text_of(out[i].effective_title.as_str()));
        texts.push(out[i].candidate_id.clone());
        let k = SortKey { numbers, texts };
        assert(v[i as int] == tview(out@[i as int]));
        assert(key_view(k).0 =~= effective_key(targets@, v, i as int).0);
        assert(key_view(k).1 =~= effective_key(targets@, v, i as int).1);
        keys.push(k);
        i = i + 1;
    }
    assert(key_views(keys@) =~= effective_keys(targets@, v));
    let order = stable_order(keys.as_slice());
    proof {
        crate::sorting::lemma_stable_order(effective_keys(targets@, v), v.len() as int);
    }
    let ghost ord = stable_order_spec(effective_keys(targets@, v), v.len() as int);
    let mut sorted: Vec<ReviewTarget> = Vec::new();
    let mut k: usize = 0;
    while k < order.len()
        invariant
            v == tviews(out@),
            order@.len() == v.len(),
            out@.len() == v.len(),
            ord == stable_order_spec(effective_keys(targets@, v), v.len() as int),
            forall|t: int| 0 <= t < order@.len() ==> order@[t] as int == #[trigger] ord[t],
            forall|t: int| 0 <= t < v.len() ==> 0 <= #[trigger] ord[t] < v.len(),
            k <= order@.len(),
            sorted@.len() == k,
            forall|t: int| 0 <= t < k ==> tview(#[trigger] sorted@[t]) == v[ord[t]],
        decreases order.len() - k,
    {
        assert(0 <= ord[k as int] < v.len());
        let j = order[k];
        assert(v[j as int] == tview(out@[j as int]));
        let t = out[j].clone_target();
        sorted.push(t);
        k = k + 1;
    }
    assert(tviews(sorted@) =~= effective_order(targets@, v));
    Ok(sorted)
}

/// Reviews change fields only: every candidate keeps its place, its ID and
/// its generator, whatever operations apply.
pub proof fn lemma_reviews_keep_candidates(ts: Seq<TargetView>, ops: Seq<ReviewOperation>)
    ensures
        apply_ops(ts, ops) matches Ok(v) ==> v.len() == ts.len() && forall|i: int|
            0 <= i < ts.len() ==> #[trigger] v[i].0 == ts[i].0 && v[i].1 == ts[i].1,
    decreases ops.len(),
{
    if ops.len() > 0 {
        lemma_reviews_keep_candidates(ts, ops.drop_last());
        match apply_ops(ts, ops.drop_last()) {
            Ok(t2) => {
                lemma_find_from(t2, ops.last().candidate_id@, 0);
            },
            Err(_) => {},
        }
    }
}

/// An accepted hierarchy gives every candidate with a parent an existing,
/// strictly shallower parent.
pub proof fn lemma_accepted_hierarchy_is_shallower(ts: Seq<TargetView>, k: int)
    requires
        0 <= k <= ts.len(),
        hierarchy_fault_from(ts, k) is None,
    ensures
        forall|i: int|
            k <= i < ts.len() && #[trigger] ts[i].4 is Some ==> {
                let p = ts[i].4->0;
                &&& p != ts[i].0
                &&& 0 <= find(ts, p) < ts.len()
                &&& ts[find(ts, p)].0 == p
                &&& ts[find(ts, p)].5 < ts[i].5
                &&& chain_ends(ts, p)
            },
    decreases ts.len() - k,
{
    if k < ts.len() {
        lemma_accepted_hierarchy_is_shallower(ts, k + 1);
        if ts[k].4 is Some {
            lemma_find_from(ts, ts[k].4->0, 0);
        }
    }
}

/// The compact JSON text of a review action, tagged by `kind`.
pub open spec fn action_json(a: ReviewAction) -> Seq<char> {
    match a {
        ReviewAction::Confirm => "{\"kind\":\"confirm\"}"@,
        ReviewAction::Reject => "{\"kind\":\"reject\"}"@,
        ReviewAction::Edit { title } => "{\"kind\":\"edit\",\"title\":"@ + json_string(title@) + "}"@,
        ReviewAction::Reparent { parent_id, level } => "{\"kind\":\"reparent\",\"parent_id\":"@ + (match parent_id {
            Some(p) => json_string(p@),
            None => "null"@,
        }) + ",\"level\":"@ + decimal(level as nat) + "}"@,
    }
}

/// `review-` and the first 32 hex digits of the SHA-256 of the candidate
/// ID, the action's JSON text and the operation's ordinal as eight
/// little-endian bytes.
pub open spec fn operation_id_spec(candidate_id: Seq<char>, a: ReviewAction, ordinal: u64) -> Seq<char> {
    "review-"@ + hex_of(
        sha256(
            vstd::utf8::encode_utf8(candidate_id) + vstd::utf8::encode_utf8(action_json(a)) + spec_u64_to_le_bytes(
                ordinal,
            ),
        ),
    ).take(32)
}

fn action_text(a: &ReviewAction) -> (s: String)
    ensures
        s@ == action_json(*a),
{
    let mut s = String::new();
    match a {
        ReviewAction::Confirm => push_str(&mut s, "{\"kind\":\"confirm\"}"),
        ReviewAction::Reject => push_str(&mut s, "{\"kind\":\"reject\"}"),
        ReviewAction::Edit { title } => {
            push_str(&mut s, "{\"kind\":\"edit\",\"title\":");
            push_json_string(&mut s, title.as_str());
            push_str(&mut s, "}");
        },
        ReviewAction::Reparent { parent_id, level } => {
            push_str(&mut s, "{\"kind\":\"reparent\",\"parent_id\":");
            match parent_id {
                Some(p) => push_json_string(&mut s, p.as_str()),
                None => push_str(&mut s, "null"),
            }
            push_str(&mut s, ",\"level\":");
            push_decimal(&mut s, *level as u64);
            push_str(&mut s, "}");
        },
    }
    s
}

/// The stable ID of the `ordinal`-th review operation.
pub fn operation_id(candidate_id: &str, a: &ReviewAction, ordinal: u64) -> (id: String)
    ensures
        id@ == operation_id_spec(candidate_id@, *a, ordinal),
{
    let json = action_text(a);
    let mut seed: Vec<u8> = Vec::new();
    push_bytes(&mut seed, candidate_id.as_bytes());
    push_bytes(&mut seed, json.as_str().as_bytes());
    let le = u64_to_le_bytes(ordinal);
    push_bytes(&mut seed, le.as_slice());
    let digest = sha256_hex(seed.as_slice());
    let hex = chars_of(digest.as_str());
    let mut short: Vec<char> = Vec::new();
    let mut i: usize = 0;
    while i < 32
        invariant
            hex@.len() == 64,
            i <= 32,
            short@ == hex@.take(i as int),
        decreases 32 - i,
    {
        short.push(hex[i]);
        i = i + 1;
        assert(short@ =~= hex@.take(i as int));
    }
    let mut id = String::new();
    push_str(&mut id, "review-");
    let tail = crate::text::string_of(short.as_slice());
    push_str(&mut id, tail.as_str());
    id
}

/// Whether the candidate IDs of `targets` are those of the snapshot, in
/// order.
pub open spec fn targets_of(targets: Seq<ReviewTarget>, snapshot: SnapshotRecord) -> bool {
    &&& targets.len() == snapshot.candidates@.len()
    &&& forall|i: int| 0 <= i < targets.len() ==> #[trigger] targets[i].candidate_id@ == snapshot.candidates@[i].candidate_id@
}

/// The rules a review store's operations must satisfy.
pub open spec fn ops_valid(ops: Seq<ReviewOperation>) -> bool {
    &&& ops.len() <= MAX_REVIEWS
    &&& forall|i: int| 0 <= i < ops.len() ==> #[trigger] ops[i].operation_id@.len() > 0 && ops[i].candidate_id@.len() > 0
    &&& forall|i: int, j: int| 0 <= i < j < ops.len() ==> #[trigger] ops[i].operation_id@ != #[trigger] ops[j].operation_id@
}

/// Whether a store with these operations is valid and its effective view
/// is consistent.
pub open spec fn extended_ok(ops: Seq<ReviewOperation>, targets: Seq<ReviewTarget>) -> bool {
    &&& ops_valid(ops)
    &&& apply_ops(tviews(targets), ops) matches Ok(v) && hierarchy_fault_from(v, 0) is None
}

/// The operation `append` adds.
pub open spec fn appended_op(reviews: BookmarkReviews, candidate_id: Seq<char>, a: ReviewAction) -> (Seq<char>, Seq<char>, ReviewAction) {
    (operation_id_spec(candidate_id, a, reviews.operations@.len() as u64), candidate_id, a)
}

/// Appends one review operation to `reviews`, after checking the snapshot
/// (`canonical` is its canonical JSON text), the review store, that the
/// store is for this snapshot, that the candidate exists, and that the
/// effective view with the new operation is consistent. `targets` are the
/// snapshot's candidates as reviews read them. On any failure `reviews` is
/// left as it was.
pub fn append(
    snapshot: &SnapshotRecord,
    canonical: &[u8],
    targets: &[ReviewTarget],
    reviews: &mut BookmarkReviews,
    candidate_id: String,
    action: ReviewAction,
) -> (r: Result<()>)
    requires
        targets_of(targets@, *snapshot),
        old(reviews).operations@.len() < usize::MAX,
    ensures
        r is Err ==> final(reviews).schema == old(reviews).schema && final(reviews).schema_version == old(
            reviews,
        ).schema_version && final(reviews).base_generation_digest == old(reviews).base_generation_digest
            && final(reviews).operations@ == old(reviews).operations@,
        snapshot_fault(*snapshot, canonical@) matches Some(m) ==> r matches Err(CoreError::InvalidDocument(e)) && e@ == m,
        snapshot_fault(*snapshot, canonical@) is None && !old(reviews).valid() ==> r is Err,
        snapshot_fault(*snapshot, canonical@) is None && old(reviews).valid() && old(reviews).base_generation_digest@
            != snapshot.generation_digest@ ==> is_fault(r, (false, "stale bookmark review generation"@)),
        snapshot_fault(*snapshot, canonical@) is None && old(reviews).valid() && old(reviews).base_generation_digest@
            == snapshot.generation_digest@ && !(exists|i: int|
            0 <= i < targets@.len() && #[trigger] targets@[i].candidate_id@ == candidate_id@) ==> is_fault(
            r,
            (false, "review candidate does not exist"@),
        ),
        r is Ok ==> {
            let op = appended_op(*old(reviews), candidate_id@, action);
            &&& final(reviews).schema == old(reviews).schema
            &&& final(reviews).schema_version == old(reviews).schema_version
            &&& final(reviews).base_generation_digest == old(reviews).base_generation_digest
            &&& final(reviews).operations@.len() == old(reviews).operations@.len() + 1
            &&& forall|i: int| 0 <= i < old(reviews).operations@.len() ==> #[trigger] final(reviews).operations@[i] == old(reviews).operations@[i]
            &&& final(reviews).operations@.last().operation_id@ == op.0
            &&& final(reviews).operations@.last().candidate_id@ == op.1
            &&& final(reviews).operations@.last().operation == op.2
            &&& final(reviews).valid()
            &&& apply_ops(tviews(targets@), final(reviews).operations@) matches Ok(v) && hierarchy_fault_from(v, 0) is None
        },
        snapshot_fault(*snapshot, canonical@) is None && old(reviews).valid() && old(reviews).base_generation_digest@
            == snapshot.generation_digest@ && (exists|i: int|
            0 <= i < targets@.len() && #[trigger] targets@[i].candidate_id@ == candidate_id@) && r is Err ==> exists|x: ReviewOperation|
            #![auto]
            x.operation_id@ == appended_op(*old(reviews), candidate_id@, action).0 && x.candidate_id@ == candidate_id@
                && x.operation == action && !extended_ok(old(reviews).operations@.push(x), targets@),
{
    match snapshot.validate(canonical) {
        Err(e) => return Err(e),
        Ok(()) => {},
    }
    match reviews.validate() {
        Err(e) => return Err(e),
        Ok(()) => {},
    }
    if !str_eq(reviews.base_generation_digest.as_str(), snapshot.generation_digest.as_str()) {
        return fault_doc("stale bookmark review generation");
    }
    let mut found = false;
    let mut i: usize = 0;
    while i < targets.len()
        invariant
            i <= targets@.len(),
            found == exists|k: int| 0 <= k < i && #[trigger] targets@[k].candidate_id@ == candidate_id@,
        decreases targets.len() - i,
    {
        if str_eq(targets[i].candidate_id.as_str(), candidate_id.as_str()) {
            found = true;
        }
        i = i + 1;
    }
    if !found {
        return fault_doc("review candidate does not exist");
    }
    let ordinal = reviews.operations.len() as u64;
    let id = operation_id(candidate_id.as_str(), &action, ordinal);
    reviews.operations.push(ReviewOperation { operation_id: id, candidate_id, operation: action });
    match effective_targets(snapshot.generation_digest.as_str(), targets, reviews) {
        Ok(_) => Ok(()),
        Err(e) => {
            let ghost x = reviews.operations@.last();
            reviews.operations.pop();
            assert(reviews.operations@ =~= old(reviews).operations@);
            Err(e)
        },
    }
}

} // verus!
