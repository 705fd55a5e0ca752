//! A stable order over keys made of numbers and texts, as used to order
//! review issues by ID, text chunks by page and structural path, and
//! reviewed bookmarks by page, position, level, title and ID.
//!
//! Text is ordered character by character by code point, with a proper
//! prefix first; for UTF-8 this is the byte order in which Rust compares
//! strings.

use vstd::prelude::*;

use crate::text::chars_of;

verus! {

/// Whether `a` comes strictly before `b`.
pub open spec fn text_before(a: Seq<char>, b: Seq<char>) -> bool
    decreases a.len(),
{
    if a.len() == 0 {
        b.len() > 0
    } else if b.len() == 0 {
        false
    } else if a[0] != b[0] {
        a[0] < b[0]
    } else {
        text_before(a.drop_first(), b.drop_first())
    }
}

/// Whether the numbers `a` come strictly before the numbers `b`, compared
/// one by one, a proper prefix first.
pub open spec fn numbers_before(a: Seq<int>, b: Seq<int>) -> bool
    decreases a.len(),
{
    if a.len() == 0 {
        b.len() > 0
    } else if b.len() == 0 {
        false
    } else if a[0] != b[0] {
        a[0] < b[0]
    } else {
        numbers_before(a.drop_first(), b.drop_first())
    }
}

/// Whether the texts `a` come strictly before the texts `b`, compared one
/// by one, a proper prefix first.
pub open spec fn texts_before(a: Seq<Seq<char>>, b: Seq<Seq<char>>) -> bool
    decreases a.len(),
{
    if a.len() == 0 {
        b.len() > 0
    } else if b.len() == 0 {
        false
    } else if a[0] != b[0] {
        text_before(a[0], b[0])
    } else {
        texts_before(a.drop_first(), b.drop_first())
    }
}

/// A sort key: some numbers, then some texts.
#[derive(Debug, Clone)]
pub struct SortKey {
    pub numbers: Vec<i64>,
    pub texts: Vec<String>,
}

/// The plain value of a sort key.
pub type KeyView = (Seq<int>, Seq<Seq<char>>);

pub open spec fn key_view(k: SortKey) -> KeyView {
    (k.numbers@.map_values(|x: i64| x as int), k.texts@.map_values(|t: String| t@))
}

pub open spec fn key_views(keys: Seq<SortKey>) -> Seq<KeyView> {
    keys.map_values(|k: SortKey| key_view(k))
}

/// Whether key `a` comes strictly before key `b`: by the numbers, then by
/// the texts.
pub open spec fn key_before(a: KeyView, b: KeyView) -> bool {
    numbers_before(a.0, b.0) || (a.0 == b.0 && texts_before(a.1, b.1))
}

/// Whether two keys are equal.
pub open spec fn same_key(a: KeyView, b: KeyView) -> bool {
    a.0 == b.0 && a.1 == b.1
}

/// The first position from `q` on in `order` whose key comes after key `x`,
/// or the end.
pub open spec fn first_after(keys: Seq<KeyView>, order: Seq<int>, x: int, q: int) -> int
    decreases order.len() - q,
{
    if q >= order.len() || q < 0 {
        order.len() as int
    } else if key_before(keys[x], keys[order[q]]) {
        q
    } else {
        first_after(keys, order, x, q + 1)
    }
}

/// The stable order of the first `n` keys: each key in turn goes after
/// every earlier key that does not come after it.
pub open spec fn stable_order_spec(keys: Seq<KeyView>, n: int) -> Seq<int>
    decreases n,
{
    if n <= 0 {
        Seq::empty()
    } else {
        let o = stable_order_spec(keys, n - 1);
        o.insert(first_after(keys, o, n - 1, 0), n - 1)
    }
}

proof fn lemma_text_irreflexive(a: Seq<char>)
    ensures
        !text_before(a, a),
    decreases a.len(),
{
    if a.len() > 0 {
        lemma_text_irreflexive(a.drop_first());
    }
}

proof fn lemma_text_transitive(a: Seq<char>, b: Seq<char>, c: Seq<char>)
    requires
        text_before(a, b),
        text_before(b, c),
    ensures
        text_before(a, c),
    decreases a.len(),
{
    if a.len() > 0 && b.len() > 0 && c.len() > 0 && a[0] == b[0] && b[0] == c[0] {
        lemma_text_transitive(a.drop_first(), b.drop_first(), c.drop_first());
    }
}

proof fn lemma_text_total(a: Seq<char>, b: Seq<char>)
    ensures
        a == b || text_before(a, b) || text_before(b, a),
    decreases a.len(),
{
    if a.len() > 0 && b.len() > 0 {
        if a[0] == b[0] {
            lemma_text_total(a.drop_first(), b.drop_first());
            if a.drop_first() == b.drop_first() {
                assert(a =~= seq![a[0]] + a.drop_first());
                assert(b =~= seq![b[0]] + b.drop_first());
            }
        }
    } else if a.len() == 0 && b.len() == 0 {
        assert(a =~= b);
    }
}

proof fn lemma_numbers_order(a: Seq<int>, b: Seq<int>, c: Seq<int>)
    ensures
        !numbers_before(a, a),
        numbers_before(a, b) && numbers_before(b, c) ==> numbers_before(a, c),
        a == b || numbers_before(a, b) || numbers_before(b, a),
    decreases a.len(),
{
    if a.len() > 0 {
        if b.len() > 0 && c.len() > 0 {
            lemma_numbers_order(a.drop_first(), b.drop_first(), c.drop_first());
        } else if b.len() > 0 {
            lemma_numbers_order(a.drop_first(), b.drop_first(), b.drop_first());
        } else {
            lemma_numbers_order(a.drop_first(), a.drop_first(), a.drop_first());
        }
    }
    if a.len() > 0 && b.len() > 0 && a[0] == b[0] && a.drop_first() == b.drop_first() {
        assert(a =~= seq![a[0]] + a.drop_first());
        assert(b =~= seq![b[0]] + b.drop_first());
    }
    if a.len() == 0 && b.len() == 0 {
        assert(a =~= b);
    }
}

proof fn lemma_texts_order(a: Seq<Seq<char>>, b: Seq<Seq<char>>, c: Seq<Seq<char>>)
    ensures
        !texts_before(a, a),
        texts_before(a, b) && texts_before(b, c) ==> texts_before(a, c),
        a == b || texts_before(a, b) || texts_before(b, a),
    decreases a.len(),
{
    if a.len() > 0 {
        lemma_text_irreflexive(a[0]);
        if b.len() > 0 && c.len() > 0 {
            lemma_texts_order(a.drop_first(), b.drop_first(), c.drop_first());
            lemma_text_total(a[0], b[0]);
            if text_before(a[0], b[0]) && text_before(b[0], c[0]) {
                lemma_text_transitive(a[0], b[0], c[0]);
            }
            if text_before(a[0], b[0]) && text_before(b[0], a[0]) {
                lemma_text_transitive(a[0], b[0], a[0]);
            }
            if text_before(a[0], b[0]) && text_before(b[0], c[0]) && a[0] == c[0] {
                lemma_text_transitive(a[0], b[0], a[0]);
            }
        } else if b.len() > 0 {
            lemma_texts_order(a.drop_first(), b.drop_first(), b.drop_first());
            lemma_text_total(a[0], b[0]);
        } else {
            lemma_texts_order(a.drop_first(), a.drop_first(), a.drop_first());
        }
    }
    if a.len() > 0 && b.len() > 0 && a[0] == b[0] && a.drop_first() == b.drop_first() {
        assert(a =~= seq![a[0]] + a.drop_first());
        assert(b =~= seq![b[0]] + b.drop_first());
    }
    if a.len() == 0 && b.len() == 0 {
        assert(a =~= b);
    }
}

pub(crate) proof fn lemma_key_order(a: KeyView, b: KeyView, c: KeyView)
    ensures
        !key_before(a, a),
        key_before(a, b) && key_before(b, c) ==> key_before(a, c),
        same_key(a, b) || key_before(a, b) || key_before(b, a),
        same_key(a, b) ==> !key_before(a, b),
        same_key(a, b) && key_before(a, c) ==> key_before(b, c),
        same_key(a, b) && key_before(c, a) ==> key_before(c, b),
{
    lemma_numbers_order(a.0, b.0, c.0);
    lemma_numbers_order(b.0, c.0, a.0);
    lemma_numbers_order(a.0, a.0, a.0);
    lemma_texts_order(a.1, b.1, c.1);
    lemma_texts_order(a.1, a.1, a.1);
}

/// The first `n` keys in stable order are a rearrangement of the positions
/// `0..n`, each key is never after the next, and equal keys keep the order
/// they came in.
pub proof fn lemma_stable_order(keys: Seq<KeyView>, n: int)
    requires
        0 <= n <= keys.len(),
    ensures
        stable_order_spec(keys, n).len() == n,
        forall|i: int| 0 <= i < n ==> 0 <= #[trigger] stable_order_spec(keys, n)[i] < n,
        forall|i: int, j: int|
            0 <= i < j < n ==> stable_order_spec(keys, n)[i] != stable_order_spec(keys, n)[j],
        forall|i: int, j: int|
            0 <= i < j < n ==> !key_before(
                keys[stable_order_spec(keys, n)[j]],
                keys[stable_order_spec(keys, n)[i]],
            ),
        forall|i: int, j: int|
            0 <= i < j < n && same_key(keys[stable_order_spec(keys, n)[i]], keys[stable_order_spec(keys, n)[j]])
                ==> stable_order_spec(keys, n)[i] < stable_order_spec(keys, n)[j],
    decreases n,
{
    if n > 0 {
        lemma_stable_order(keys, n - 1);
        let o = stable_order_spec(keys, n - 1);
        let x = n - 1;
        let p = first_after(keys, o, x, 0);
        lemma_first_after(keys, o, x, 0);
        o.insert_ensures(p, x);
        let r = o.insert(p, x);
        assert(r == stable_order_spec(keys, n));
        assert forall|i: int, j: int| 0 <= i < j < n implies !key_before(keys[r[j]], keys[r[i]]) && (same_key(
            keys[r[i]],
            keys[r[j]],
        ) ==> r[i] < r[j]) by {
            lemma_key_order(keys[r[i]], keys[r[j]], keys[x]);
            lemma_key_order(keys[r[j]], keys[r[i]], keys[x]);
            if i == p {
                // r[j] == o[j - 1] lies at or after the first key after x.
                assert(r[j] == o[j - 1]);
                if p < o.len() {
                    lemma_key_order(keys[o[j - 1]], keys[o[p]], keys[x]);
                    lemma_key_order(keys[x], keys[o[p]], keys[o[j - 1]]);
                    lemma_key_order(keys[o[j - 1]], keys[x], keys[o[p]]);
                    if j - 1 > p {
                        assert(!key_before(keys[o[j - 1]], keys[o[p]]));
                    }
                }
            } else if j == p {
                assert(r[i] == o[i]);
            } else if j < p {
                assert(r[i] == o[i] && r[j] == o[j]);
            } else if i > p {
                assert(r[i] == o[i - 1] && r[j] == o[j - 1]);
            } else {
                assert(r[i] == o[i] && r[j] == o[j - 1]);
            }
        }
        assert forall|i: int| 0 <= i < n implies 0 <= #[trigger] r[i] < n by {
            if i < p {
                assert(r[i] == o[i]);
            } else if i > p {
                assert(r[i] == o[i - 1]);
            }
        }
        assert forall|i: int, j: int| 0 <= i < j < n implies r[i] != r[j] by {
            if i < p && j < p {
                assert(r[i] == o[i] && r[j] == o[j]);
            } else if i < p && j > p {
                assert(r[i] == o[i] && r[j] == o[j - 1]);
            } else if i > p && j > p {
                assert(r[i] == o[i - 1] && r[j] == o[j - 1]);
            } else if i == p {
                assert(r[j] == o[j - 1]);
            } else {
                assert(r[i] == o[i]);
            }
        }
    }
}

proof fn lemma_first_after(keys: Seq<KeyView>, order: Seq<int>, x: int, q: int)
    requires
        0 <= q <= order.len(),
    ensures
        q <= first_after(keys, order, x, q) <= order.len(),
        forall|t: int| q <= t < first_after(keys, order, x, q) ==> !key_before(keys[x], #[trigger] keys[order[t]]),
        first_after(keys, order, x, q) < order.len() ==> key_before(
            keys[x],
            keys[order[first_after(keys, order, x, q)]],
        ),
    decreases order.len() - q,
{
    if q < order.len() && !key_before(keys[x], keys[order[q]]) {
        lemma_first_after(keys, order, x, q + 1);
    }
}

/// Whether `a` comes strictly before `b`, character by character.
fn text_less(a: &[char], b: &[char]) -> (r: bool)
    ensures
        r == text_before(a@, b@),
{
    let mut i: usize = 0;
    assert(a@.skip(0) =~= a@);
    assert(b@.skip(0) =~= b@);
    while i < a.len() && i < b.len() && a[i] == b[i]
        invariant
            i <= a@.len(),
            i <= b@.len(),
            a@.take(i as int) == b@.take(i as int),
            text_before(a@, b@) == text_before(a@.skip(i as int), b@.skip(i as int)),
        decreases a.len() - i,
    {
        proof {
            assert(a@.skip(i as int).drop_first() =~= a@.skip(i + 1 as int));
            assert(b@.skip(i as int).drop_first() =~= b@.skip(i + 1 as int));
            assert(a@.take(i + 1 as int) =~= a@.take(i as int).push(a@[i as int]));
            assert(b@.take(i + 1 as int) =~= b@.take(i as int).push(b@[i as int]));
        }
        i = i + 1;
    }
    if i == a.len() {
        i < b.len()
    } else if i == b.len() {
        false
    } else {
        a[i] < b[i]
    }
}

fn numbers_less(a: &[i64], b: &[i64]) -> (r: bool)
    ensures
        r == numbers_before(a@.map_values(|x: i64| x as int), b@.map_values(|x: i64| x as int)),
{
    let ghost av = a@.map_values(|x: i64| x as int);
    let ghost bv = b@.map_values(|x: i64| x as int);
    let mut i: usize = 0;
    assert(av.skip(0) =~= av);
    assert(bv.skip(0) =~= bv);
    while i < a.len() && i < b.len() && a[i] == b[i]
        invariant
            i <= a@.len(),
            i <= b@.len(),
            av == a@.map_values(|x: i64| x as int),
            bv == b@.map_values(|x: i64| x as int),
            numbers_before(av, bv) == numbers_before(av.skip(i as int), bv.skip(i as int)),
        decreases a.len() - i,
    {
        proof {
            assert(av.skip(i as int).drop_first() =~= av.skip(i + 1 as int));
            assert(bv.skip(i as int).drop_first() =~= bv.skip(i + 1 as int));
        }
        i = i + 1;
    }
    if i == a.len() {
        i < b.len()
    } else if i == b.len() {
        false
    } else {
        a[i] < b[i]
    }
}

fn texts_less(a: &[String], b: &[String]) -> (r: bool)
    ensures
        r == texts_before(a@.map_values(|t: String| t@), b@.map_values(|t: String| t@)),
{
    let ghost av = a@.map_values(|t: String| t@);
    let ghost bv = b@.map_values(|t: String| t@);
    let mut i: usize = 0;
    assert(av.skip(0) =~= av);
    assert(bv.skip(0) =~= bv);
    loop
        invariant
            i <= a@.len(),
            i <= b@.len(),
            av == a@.map_values(|t: String| t@),
            bv == b@.map_values(|t: String| t@),
            texts_before(av, bv) == texts_before(av.skip(i as int), bv.skip(i as int)),
        decreases a.len() - i,
    {
        if i == a.len() {
            return i < b.len();
        }
        if i == b.len() {
            return false;
        }
        let x = chars_of(a[i].as_str());
        let y = chars_of(b[i].as_str());
        if text_less(x.as_slice(), y.as_slice()) {
            proof {
                lemma_text_irreflexive(x@);
            }
            return true;
        }
        if text_less(y.as_slice(), x.as_slice()) {
            proof {
                lemma_text_irreflexive(x@);
            }
            return false;
        }
        proof {
            lemma_text_total(x@, y@);
            assert(av.skip(i as int).drop_first() =~= av.skip(i + 1 as int));
            assert(bv.skip(i as int).drop_first() =~= bv.skip(i + 1 as int));
        }
        i = i + 1;
    }
}

/// The key made of one number and one text.
pub fn key_of(number: i64, text: &str) -> (k: SortKey)
    ensures
        key_view(k) == (seq![number as int], seq![text@]),
{
    let mut numbers: Vec<i64> = Vec::new();
    numbers.push(number);
    let mut texts: Vec<String> = Vec::new();
    texts.push(text.to_owned());
    let k = SortKey { numbers, texts };
    assert(key_view(k).0 =~= seq![number as int]);
    assert(key_view(k).1 =~= seq![text@]);
    k
}

/// Whether key `a` comes strictly before key `b`.
pub(crate) fn key_less(a: &SortKey, b: &SortKey) -> (r: bool)
    ensures
        r == key_before(key_view(*a), key_view(*b)),
{
    if numbers_less(a.numbers.as_slice(), b.numbers.as_slice()) {
        return true;
    }
    if numbers_less(b.numbers.as_slice(), a.numbers.as_slice()) {
        proof {
            lemma_numbers_order(key_view(*a).0, key_view(*b).0, key_view(*b).0);
        }
        return false;
    }
    proof {
        lemma_numbers_order(key_view(*a).0, key_view(*b).0, key_view(*b).0);
    }
    texts_less(a.texts.as_slice(), b.texts.as_slice())
}

/// The positions of `keys` in stable order: by number, then by text, equal
/// keys in the order they came.
pub fn stable_order(keys: &[SortKey]) -> (r: Vec<usize>)
    ensures
        r@.len() == keys@.len(),
        forall|i: int| 0 <= i < r@.len() ==> r@[i] as int == #[trigger] stable_order_spec(key_views(keys@), keys@.len() as int)[i],
{
    let mut order: Vec<usize> = Vec::new();
    let mut n: usize = 0;
    while n < keys.len()
        invariant
            n <= keys@.len(),
            order@.len() == n,
            forall|i: int| 0 <= i < n ==> order@[i] as int == #[trigger] stable_order_spec(key_views(keys@), n as int)[i],
        decreases keys.len() - n,
    {
        proof {
            lemma_stable_order(key_views(keys@), n as int);
        }
        let ghost o = stable_order_spec(key_views(keys@), n as int);
        let mut q: usize = 0;
        while q < order.len() && !key_less(&keys[n], &keys[order[q]])
            invariant
                n < keys@.len(),
                order@.len() == n,
                o == stable_order_spec(key_views(keys@), n as int),
                o.len() == n,
                forall|i: int| 0 <= i < n ==> 0 <= #[trigger] o[i] < n,
                forall|i: int| 0 <= i < n ==> order@[i] as int == #[trigger] o[i],
                q <= n,
                first_after(key_views(keys@), o, n as int, 0) == first_after(key_views(keys@), o, n as int, q as int),
            decreases n - q,
        {
            q = q + 1;
        }
        order.insert(q, n);
        proof {
            o.insert_ensures(q as int, n as int);
            assert forall|i: int| 0 <= i < n + 1 implies order@[i] as int == #[trigger] stable_order_spec(
                key_views(keys@),
                n + 1 as int,
            )[i] by {
                assert(stable_order_spec(key_views(keys@), n + 1 as int) == o.insert(q as int, n as int));
                if i > q {
                    assert(order@[i] == order@[i]);
                }
            }
        }
        n = n + 1;
    }
    order
}

} // verus!
