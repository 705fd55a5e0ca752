//! Body-heading similarity: bounded character edit similarity combined
//! with token overlap. No NLP model, no unbounded comparison.

use vstd::prelude::*;
use vstd::seq_lib::*;
use vstd::set_lib::*;

use crate::text::{
    chars_eq, chars_of, contains_word, copy_chars, lemma_push_to_set, split_whitespace, split_ws,
};

verus! {

/// Levenshtein distance: the least number of single-character insertions,
/// deletions and substitutions that turn `a` into `b`.
pub open spec fn edit_distance(a: Seq<char>, b: Seq<char>) -> nat
    decreases a.len() + b.len(),
{
    if a.len() == 0 {
        b.len()
    } else if b.len() == 0 {
        a.len()
    } else {
        let sub = edit_distance(a.drop_last(), b.drop_last()) + if a.last() == b.last() {
            0nat
        } else {
            1nat
        };
        let del = edit_distance(a.drop_last(), b) + 1;
        let ins = edit_distance(a, b.drop_last()) + 1;
        if sub <= del && sub <= ins {
            sub
        } else if del <= ins {
            del
        } else {
            ins
        }
    }
}

/// Edit distance never exceeds the combined length.
pub proof fn lemma_edit_distance_bounded(a: Seq<char>, b: Seq<char>)
    ensures
        edit_distance(a, b) <= a.len() + b.len(),
    decreases a.len() + b.len(),
{
    if a.len() > 0 && b.len() > 0 {
        lemma_edit_distance_bounded(a.drop_last(), b);
    }
}

/// Edit distance is symmetric.
pub proof fn lemma_edit_distance_symmetric(a: Seq<char>, b: Seq<char>)
    ensures
        edit_distance(a, b) == edit_distance(b, a),
    decreases a.len() + b.len(),
{
    if a.len() > 0 && b.len() > 0 {
        lemma_edit_distance_symmetric(a.drop_last(), b.drop_last());
        lemma_edit_distance_symmetric(a.drop_last(), b);
        lemma_edit_distance_symmetric(a, b.drop_last());
    }
}

/// Edit distance of a sequence to itself is zero.
pub proof fn lemma_edit_distance_self(a: Seq<char>)
    ensures
        edit_distance(a, a) == 0,
    decreases a.len(),
{
    if a.len() > 0 {
        lemma_edit_distance_self(a.drop_last());
    }
}

/// Computes [`edit_distance`] with the two-row dynamic program.
pub fn levenshtein(a: &Vec<char>, b: &Vec<char>) -> (d: usize)
    requires
        a@.len() + b@.len() < usize::MAX,
    ensures
        d == edit_distance(a@, b@),
{
    let m = b.len();
    let mut previous: Vec<usize> = Vec::new();
    let mut j: usize = 0;
    while j <= m
        invariant
            m == b@.len(),
            a@.len() + b@.len() < usize::MAX,
            j <= m + 1,
            previous@.len() == j,
            forall|k: int| 0 <= k < j ==> #[trigger] previous@[k] == k,
        decreases m + 1 - j,
    {
        previous.push(j);
        j = j + 1;
    }
    assert forall|k: int| 0 <= k <= m implies #[trigger] previous@[k] == edit_distance(
        a@.take(0),
        b@.take(k),
    ) by {
        assert(a@.take(0).len() == 0);
    }
    let mut i: usize = 0;
    while i < a.len()
        invariant
            m == b@.len(),
            a@.len() + b@.len() < usize::MAX,
            i <= a@.len(),
            previous@.len() == m + 1,
            forall|k: int| 0 <= k <= m ==> #[trigger] previous@[k] == edit_distance(
                a@.take(i as int),
                b@.take(k),
            ),
        decreases a.len() - i,
    {
        let ghost ai = a@.take(i as int);
        let ghost ai1 = a@.take(i + 1 as int);
        assert(ai1.drop_last() == ai);
        assert(ai1.last() == a@[i as int]);
        let mut current: Vec<usize> = Vec::new();
        assert(b@.take(0).len() == 0);
        current.push(i + 1);
        let mut j: usize = 0;
        while j < m
            invariant
                m == b@.len(),
                a@.len() + b@.len() < usize::MAX,
                i < a@.len(),
                ai == a@.take(i as int),
                ai1 == a@.take(i + 1 as int),
                ai1.drop_last() == ai,
                ai1.last() == a@[i as int],
                j <= m,
                previous@.len() == m + 1,
                current@.len() == j + 1,
                forall|k: int| 0 <= k <= m ==> #[trigger] previous@[k] == edit_distance(
                    ai,
                    b@.take(k),
                ),
                forall|k: int| 0 <= k <= j ==> #[trigger] current@[k] == edit_distance(
                    ai1,
                    b@.take(k),
                ),
            decreases m - j,
        {
            let ghost bj1 = b@.take(j + 1 as int);
            assert(bj1.drop_last() == b@.take(j as int));
            assert(bj1.last() == b@[j as int]);
            proof {
                lemma_edit_distance_bounded(ai, b@.take(j as int));
                lemma_edit_distance_bounded(ai, bj1);
                lemma_edit_distance_bounded(ai1, b@.take(j as int));
            }
            let differ: usize = if a[i] != b[j] { 1 } else { 0 };
            let substitution = previous[j] + differ;
            let deletion = previous[j + 1] + 1;
            let insertion = current[j] + 1;
            let best = if substitution <= deletion && substitution <= insertion {
                substitution
            } else if deletion <= insertion {
                deletion
            } else {
                insertion
            };
            current.push(best);
            j = j + 1;
        }
        previous = current;
        i = i + 1;
    }
    assert(a@.take(a@.len() as int) == a@);
    assert(b@.take(m as int) == b@);
    previous[m]
}

/// The comparison window: at most the first 256 characters.
pub open spec fn window(s: Seq<char>) -> Seq<char> {
    if s.len() <= 256 {
        s
    } else {
        s.take(256)
    }
}

/// Character similarity in permille.
pub open spec fn char_similarity(left: Seq<char>, right: Seq<char>) -> nat {
    let a = window(left);
    let b = window(right);
    let longest: nat = if a.len() >= b.len() {
        a.len()
    } else {
        b.len()
    };
    let diff: nat = if a.len() >= b.len() {
        (a.len() - b.len()) as nat
    } else {
        (b.len() - a.len()) as nat
    };
    if longest == 0 {
        0
    } else if diff * 2 > longest {
        0
    } else if edit_distance(a, b) >= longest {
        0
    } else {
        ((longest - edit_distance(a, b)) * 1000 / longest as int) as nat
    }
}

fn window_of(s: &str) -> (v: Vec<char>)
    ensures
        v@ == window(s@),
{
    let mut v = chars_of(s);
    if v.len() > 256 {
        v.truncate(256);
    }
    v
}

/// Character similarity of two strings, in permille.
pub fn character_similarity(left: &str, right: &str) -> (r: u32)
    ensures
        r == char_similarity(left@, right@),
{
    let a = window_of(left);
    let b = window_of(right);
    let longest = if a.len() >= b.len() {
        a.len()
    } else {
        b.len()
    };
    if longest == 0 {
        return 0;
    }
    let diff = if a.len() >= b.len() {
        a.len() - b.len()
    } else {
        b.len() - a.len()
    };
    if diff * 2 > longest {
        return 0;
    }
    let distance = levenshtein(&a, &b);
    if distance >= longest {
        0
    } else {
        proof {
            assert((longest - distance) * 1000 / longest as int <= 1000) by (nonlinear_arith)
                requires
                    longest > 0,
                    distance < longest,
            ;
        }
        ((longest - distance) * 1000 / longest) as u32
    }
}

/// The set of whitespace-separated words of `s`.
pub open spec fn word_set(s: Seq<char>) -> Set<Seq<char>> {
    split_ws(s).to_set()
}

/// Token overlap (Jaccard index of the word sets) in permille.
pub open spec fn token_similarity_spec(left: Seq<char>, right: Seq<char>) -> nat {
    let a = word_set(left);
    let b = word_set(right);
    if a.len() == 0 || b.len() == 0 {
        0
    } else {
        ((a.intersect(b).len() * 1000) as int / (a + b).len() as int) as nat
    }
}

/// The distinct words of `s`, in first-occurrence order.
fn distinct_words(s: &str) -> (d: Vec<Vec<char>>)
    ensures
        d.deep_view().no_duplicates(),
        d.deep_view().to_set() == word_set(s@),
{
    let chars = chars_of(s);
    let words = split_whitespace(chars.as_slice());
    let ghost ws = words.deep_view();
    let mut d: Vec<Vec<char>> = Vec::new();
    let mut k: usize = 0;
    while k < words.len()
        invariant
            ws == words.deep_view(),
            ws == split_ws(s@),
            k <= ws.len(),
            d.deep_view().no_duplicates(),
            d.deep_view().to_set() == ws.take(k as int).to_set(),
        decreases words.len() - k,
    {
        let ghost before = d.deep_view();
        assert(ws.take(k + 1 as int) == ws.take(k as int).push(ws[k as int]));
        assert(words[k as int]@ =~= ws[k as int]);
        proof {
            lemma_push_to_set(ws.take(k as int), ws[k as int]);
        }
        if !contains_word(&d, &words[k]) {
            let w = copy_chars(&words[k]);
            assert(w.deep_view() =~= w@);
            d.push(w);
            assert(d.deep_view() =~= before.push(ws[k as int]));
            proof {
                lemma_push_to_set(before, ws[k as int]);
                assert forall|x: int, y: int|
                    0 <= x < d.deep_view().len() && 0 <= y < d.deep_view().len() && x != y
                        implies d.deep_view()[x] != d.deep_view()[y] by {
                    if y == d.deep_view().len() - 1 {
                        assert(before.contains(before[x]));
                    } else if x == d.deep_view().len() - 1 {
                        assert(before.contains(before[y]));
                    }
                }
            }
        } else {
            proof {
                assert(before.to_set().contains(ws[k as int]));
                assert(before.to_set().insert(ws[k as int]) =~= before.to_set());
            }
        }
        k = k + 1;
    }
    assert(ws.take(ws.len() as int) == ws);
    d
}

/// Token overlap of two strings, in permille.
pub fn token_similarity(left: &str, right: &str) -> (r: u32)
    ensures
        r == token_similarity_spec(left@, right@),
{
    let a = distinct_words(left);
    let b = distinct_words(right);
    let ghost sa = a.deep_view();
    let ghost sb = b.deep_view();
    proof {
        sa.unique_seq_to_set();
        sb.unique_seq_to_set();
    }
    if a.len() == 0 || b.len() == 0 {
        return 0;
    }
    let mut intersection: usize = 0;
    let ghost mut common: Seq<Seq<char>> = seq![];
    let mut k: usize = 0;
    while k < a.len()
        invariant
            sa == a.deep_view(),
            sb == b.deep_view(),
            sa.no_duplicates(),
            k <= sa.len(),
            intersection == common.len(),
            intersection <= k,
            common.no_duplicates(),
            common.to_set() == sa.take(k as int).to_set().intersect(sb.to_set()),
            forall|x: int| 0 <= x < common.len() ==> sa.take(k as int).contains(#[trigger] common[x]),
        decreases a.len() - k,
    {
        assert(sa.take(k + 1 as int) == sa.take(k as int).push(sa[k as int]));
        assert(a[k as int]@ =~= sa[k as int]);
        proof {
            lemma_push_to_set(sa.take(k as int), sa[k as int]);
        }
        let ghost old_common = common;
        if contains_word(&b, &a[k]) {
            let ghost before = common;
            proof {
                common = common.push(sa[k as int]);
                lemma_push_to_set(before, sa[k as int]);
                assert forall|x: int, y: int|
                    0 <= x < common.len() && 0 <= y < common.len() && x != y implies common[x]
                    != common[y] by {
                    if y == common.len() - 1 {
                        assert(sa.take(k as int).contains(before[x]));
                    } else if x == common.len() - 1 {
                        assert(sa.take(k as int).contains(before[y]));
                    }
                }
                assert(common.to_set() =~= sa.take(k + 1 as int).to_set().intersect(sb.to_set()));
            }
            intersection = intersection + 1;
        } else {
            proof {
                assert(common.to_set() =~= sa.take(k + 1 as int).to_set().intersect(sb.to_set()));
            }
        }
        proof {
            assert forall|x: int| 0 <= x < common.len() implies sa.take(k + 1 as int).contains(
                #[trigger] common[x],
            ) by {
                if x < old_common.len() {
                    assert(common[x] == old_common[x]);
                    let j = choose|j: int|
                        0 <= j < sa.take(k as int).len() && sa.take(k as int)[j] == old_common[x];
                    assert(sa.take(k + 1 as int)[j] == common[x]);
                } else {
                    assert(sa.take(k + 1 as int)[k as int] == common[x]);
                }
            }
        }
        k = k + 1;
    }
    assert(sa.take(sa.len() as int) == sa);
    proof {
        common.unique_seq_to_set();
        lemma_set_intersect_union_lens(sa.to_set(), sb.to_set());
    }
    proof {
        lemma_len_intersect(sa.to_set(), sb.to_set());
        lemma_len_intersect(sb.to_set(), sa.to_set());
        assert(sa.to_set().intersect(sb.to_set()) =~= sb.to_set().intersect(sa.to_set()));
    }
    let union: u128 = (a.len() as u128) + (b.len() as u128) - (intersection as u128);
    let wide: u128 = intersection as u128;
    proof {
        assert((wide * 1000) as int / union as int <= 1000) by (nonlinear_arith)
            requires
                wide <= union,
                union > 0,
        ;
    }
    ((wide * 1000) / union) as u32
}

/// Combined similarity in permille (0..=1000).
pub open spec fn similarity_spec(left: Seq<char>, right: Seq<char>) -> nat {
    if left.len() == 0 || right.len() == 0 {
        0
    } else if left == right {
        1000
    } else {
        (char_similarity(left, right) * 6 + token_similarity_spec(left, right) * 4) / 10
    }
}

/// Similarity in permille (0..=1000): bounded character edit similarity
/// combined with token overlap.
pub fn similarity(left: &str, right: &str) -> (r: u32)
    ensures
        r == similarity_spec(left@, right@),
        r <= 1000,
{
    let l = chars_of(left);
    let rr = chars_of(right);
    if l.len() == 0 || rr.len() == 0 {
        return 0;
    }
    if chars_eq(l.as_slice(), rr.as_slice()) {
        return 1_000;
    }
    let character = character_similarity(left, right);
    let token = token_similarity(left, right);
    proof {
        lemma_similarity_parts_bounded(left@, right@);
    }
    (character * 6 + token * 4) / 10
}

proof fn lemma_similarity_parts_bounded(left: Seq<char>, right: Seq<char>)
    ensures
        char_similarity(left, right) <= 1000,
        token_similarity_spec(left, right) <= 1000,
{
    let a = window(left);
    let b = window(right);
    let longest: nat = if a.len() >= b.len() {
        a.len()
    } else {
        b.len()
    };
    if longest > 0 && edit_distance(a, b) < longest {
        let d = edit_distance(a, b);
        assert((longest - d) * 1000 / longest as int <= 1000) by (nonlinear_arith)
            requires
                longest > 0,
                d < longest,
        ;
    }
    let sa = word_set(left);
    let sb = word_set(right);
    if sa.len() > 0 && sb.len() > 0 {
        split_ws(left).lemma_cardinality_of_set();
        split_ws(right).lemma_cardinality_of_set();
        lemma_set_intersect_union_lens(sa, sb);
        lemma_len_intersect(sa, sb);
        lemma_len_intersect(sb, sa);
        assert(sa.intersect(sb) =~= sb.intersect(sa));
        let i = sa.intersect(sb).len();
        let u = (sa + sb).len();
        assert((i * 1000) as int / u as int <= 1000) by (nonlinear_arith)
            requires
                i <= u,
                u > 0,
        ;
    }
}

/// Similarity is symmetric and bounded by 1000; a non-empty text is fully
/// similar to itself.
pub proof fn lemma_similarity_symmetric_bounded(left: Seq<char>, right: Seq<char>)
    ensures
        similarity_spec(left, right) == similarity_spec(right, left),
        similarity_spec(left, right) <= 1000,
        left.len() > 0 ==> similarity_spec(left, left) == 1000,
{
    lemma_similarity_parts_bounded(left, right);
    lemma_edit_distance_symmetric(window(left), window(right));
    assert(word_set(left).intersect(word_set(right)) =~= word_set(right).intersect(
        word_set(left),
    ));
    assert(word_set(left) + word_set(right) =~= word_set(right) + word_set(left));
}

} // verus!
