//! Character-level text helpers shared by the parsers and exporters.
//!
//! Text is handled as a sequence of Unicode scalar values (`Seq<char>`, the
//! view of `str` and `String`). The classification predicates here restate
//! the Unicode property tables that std documents for `char`.

use vstd::prelude::*;

verus! {

broadcast use vstd::string::group_string_axioms;

/// The characters of `s`, in order.
pub fn chars_of(s: &str) -> (v: Vec<char>)
    ensures
        v@ == s@,
{
    let mut v: Vec<char> = Vec::new();
    for c in it: s.chars()
        invariant
            v@ == it.seq().take(it.index() as int),
            it.seq() == s@,
    {
        v.push(c);
    }
    v
}

/// Appends one character to a string (`String::push`).
#[verifier::external_body]
fn push_char(s: &mut String, c: char)
    ensures
        final(s)@ == old(s)@.push(c),
{
    s.push(c);
}

/// The string made of the characters of `v`, in order.
pub fn string_of(v: &[char]) -> (s: String)
    ensures
        s@ == v@,
{
    let mut s = String::new();
    let mut i: usize = 0;
    while i < v.len()
        invariant
            i <= v@.len(),
            s@ == v@.take(i as int),
        decreases v.len() - i,
    {
        push_char(&mut s, v[i]);
        i = i + 1;
        assert(v@.take(i as int) == v@.take(i - 1 as int).push(v@[i - 1]));
    }
    assert(v@.take(v@.len() as int) == v@);
    s
}

/// Unicode `White_Space`, the property `char::is_whitespace` reports.
pub open spec fn is_white_space(c: char) -> bool {
    let u = c as u32;
    (0x9 <= u && u <= 0xD) || u == 0x20 || u == 0x85 || u == 0xA0 || u == 0x1680 || (0x2000 <= u
        && u <= 0x200A) || u == 0x2028 || u == 0x2029 || u == 0x202F || u == 0x205F || u == 0x3000
}

/// Executable [`is_white_space`].
pub fn white_space(c: char) -> (b: bool)
    ensures
        b == is_white_space(c),
{
    let u = c as u32;
    (0x9 <= u && u <= 0xD) || u == 0x20 || u == 0x85 || u == 0xA0 || u == 0x1680 || (0x2000 <= u
        && u <= 0x200A) || u == 0x2028 || u == 0x2029 || u == 0x202F || u == 0x205F || u == 0x3000
}

/// Unicode general category `Cc`, the property `char::is_control` reports.
pub open spec fn is_control_char(c: char) -> bool {
    let u = c as u32;
    u <= 0x1F || (0x7F <= u && u <= 0x9F)
}

/// Executable [`is_control_char`].
pub fn control_char(c: char) -> (b: bool)
    ensures
        b == is_control_char(c),
{
    let u = c as u32;
    u <= 0x1F || (0x7F <= u && u <= 0x9F)
}

pub open spec fn is_ascii_digit(c: char) -> bool {
    '0' <= c && c <= '9'
}

pub open spec fn is_ascii_alpha(c: char) -> bool {
    ('a' <= c && c <= 'z') || ('A' <= c && c <= 'Z')
}

pub open spec fn is_lower_hex(c: char) -> bool {
    is_ascii_digit(c) || ('a' <= c && c <= 'f')
}

/// The whitespace-separated words of `s`, as `str::split_whitespace` yields
/// them: maximal runs of non-whitespace characters, in order.
pub open spec fn split_ws(s: Seq<char>) -> Seq<Seq<char>>
    decreases s.len(),
{
    if s.len() == 0 {
        seq![]
    } else {
        let rest = split_ws(s.drop_last());
        let c = s.last();
        if is_white_space(c) {
            rest
        } else if s.len() >= 2 && !is_white_space(s[s.len() - 2]) {
            rest.drop_last().push(rest.last().push(c))
        } else {
            rest.push(seq![c])
        }
    }
}

/// Words joined by single spaces (`join(" ")`).
pub open spec fn join_space(t: Seq<Seq<char>>) -> Seq<char>
    decreases t.len(),
{
    if t.len() == 0 {
        seq![]
    } else if t.len() == 1 {
        t[0]
    } else {
        join_space(t.drop_last()) + seq![' '] + t.last()
    }
}

proof fn lemma_split_ws_nonempty(s: Seq<char>)
    requires
        s.len() > 0,
        !is_white_space(s.last()),
    ensures
        split_ws(s).len() > 0,
        split_ws(s).last().len() > 0,
        split_ws(s).last().last() == s.last(),
    decreases s.len(),
{
    let rest = split_ws(s.drop_last());
    if s.len() >= 2 && !is_white_space(s[s.len() - 2]) {
        lemma_split_ws_nonempty(s.drop_last());
    }
}

/// Every word of `split_ws` is non-empty and whitespace-free.
pub proof fn lemma_split_ws_words(s: Seq<char>)
    ensures
        forall|k: int|
            0 <= k < split_ws(s).len() ==> #[trigger] split_ws(s)[k].len() > 0 && forall|j: int|
                0 <= j < split_ws(s)[k].len() ==> !is_white_space(#[trigger] split_ws(s)[k][j]),
    decreases s.len(),
{
    if s.len() > 0 {
        lemma_split_ws_words(s.drop_last());
        let rest = split_ws(s.drop_last());
        let c = s.last();
        if !is_white_space(c) && s.len() >= 2 && !is_white_space(s[s.len() - 2]) {
            lemma_split_ws_nonempty(s.drop_last());
            let r = split_ws(s);
            assert forall|k: int| 0 <= k < r.len() implies #[trigger] r[k].len() > 0
                && forall|j: int| 0 <= j < r[k].len() ==> !is_white_space(#[trigger] r[k][j]) by {
                if k < r.len() - 1 {
                    assert(r[k] == rest[k]);
                } else {
                    assert(r[k] == rest.last().push(c));
                    assert forall|j: int| 0 <= j < r[k].len() implies !is_white_space(
                        #[trigger] r[k][j],
                    ) by {
                        if j < r[k].len() - 1 {
                            assert(r[k][j] == rest[rest.len() - 1][j]);
                        }
                    }
                }
            }
        }
    }
}

/// Splits `s` into its whitespace-separated words.
pub fn split_whitespace(s: &[char]) -> (words: Vec<Vec<char>>)
    ensures
        words.deep_view() == split_ws(s@),
{
    let mut done: Vec<Vec<char>> = Vec::new();
    let mut cur: Vec<char> = Vec::new();
    let mut i: usize = 0;
    while i < s.len()
        invariant
            i <= s@.len(),
            cur@.len() > 0 ==> i > 0 && !is_white_space(s@[i - 1]),
            cur@.len() == 0 ==> (i == 0 || is_white_space(s@[i - 1])),
            split_ws(s@.take(i as int)) == if cur@.len() == 0 {
                done.deep_view()
            } else {
                done.deep_view().push(cur@)
            },
        decreases s.len() - i,
    {
        let c = s[i];
        let ghost prefix = s@.take(i + 1 as int);
        assert(prefix.drop_last() == s@.take(i as int));
        assert(prefix.last() == c);
        if white_space(c) {
            if cur.len() > 0 {
                let ghost before = done.deep_view();
                let w = cur;
                assert(w.deep_view() =~= w@);
                done.push(w);
                cur = Vec::new();
                assert(done.deep_view() =~= before.push(w@));
            }
            assert(split_ws(prefix) == split_ws(s@.take(i as int)));
        } else {
            let ghost dv = done.deep_view();
            let ghost old_cur = cur@;
            if cur.len() > 0 {
                assert(prefix[prefix.len() - 2] == s@[i - 1]);
                assert(split_ws(prefix) == dv.push(old_cur).drop_last().push(
                    dv.push(old_cur).last().push(c),
                ));
                assert(dv.push(old_cur).drop_last() =~= dv);
                assert(dv.push(old_cur).last() == old_cur);
            } else {
                if i > 0 {
                    assert(prefix[prefix.len() - 2] == s@[i - 1]);
                }
                assert(split_ws(prefix) == dv.push(seq![c]));
            }
            cur.push(c);
            assert(cur@ == old_cur.push(c));
            assert(done.deep_view() == dv);
            assert(split_ws(prefix) =~~= done.deep_view().push(cur@));
        }
        i = i + 1;
    }
    assert(s@.take(s@.len() as int) == s@);
    if cur.len() > 0 {
        let ghost before = done.deep_view();
        let ghost last = cur@;
        assert(cur.deep_view() =~= cur@);
        done.push(cur);
        assert(done.deep_view() =~= before.push(last));
    }
    done
}

/// Joins `words` with single spaces.
pub fn join_with_space(words: &Vec<Vec<char>>) -> (r: Vec<char>)
    ensures
        r@ == join_space(words.deep_view()),
{
    let mut r: Vec<char> = Vec::new();
    let mut i: usize = 0;
    while i < words.len()
        invariant
            i <= words.deep_view().len(),
            r@ == join_space(words.deep_view().take(i as int)),
        decreases words.len() - i,
    {
        let ghost t = words.deep_view().take(i + 1 as int);
        assert(t.drop_last() == words.deep_view().take(i as int));
        if i > 0 {
            r.push(' ');
        }
        let mut j: usize = 0;
        let ghost base = r@;
        while j < words[i].len()
            invariant
                i < words.deep_view().len(),
                j <= words[i as int]@.len(),
                r@ == base + words[i as int]@.take(j as int),
            decreases words[i as int]@.len() - j,
        {
            r.push(words[i][j]);
            j = j + 1;
            assert(words[i as int]@.take(j as int) == words[i as int]@.take(j - 1 as int).push(
                words[i as int]@[j - 1],
            ));
        }
        assert(words[i as int]@.take(j as int) == words[i as int]@);
        assert(t.last() == words.deep_view()[i as int]);
        i = i + 1;
    }
    assert(words.deep_view().take(words.deep_view().len() as int) == words.deep_view());
    r
}

} // verus!

verus! {

/// Whether two character sequences are equal.
pub fn chars_eq(a: &[char], b: &[char]) -> (r: bool)
    ensures
        r == (a@ == b@),
{
    if a.len() != b.len() {
        return false;
    }
    let mut i: usize = 0;
    while i < a.len()
        invariant
            a@.len() == b@.len(),
            i <= a@.len(),
            forall|k: int| 0 <= k < i ==> a@[k] == b@[k],
        decreases a.len() - i,
    {
        if a[i] != b[i] {
            return false;
        }
        i = i + 1;
    }
    assert(a@ =~= b@);
    true
}

/// Whether `list` holds a word equal to `w`.
pub fn contains_word(list: &Vec<Vec<char>>, w: &Vec<char>) -> (r: bool)
    ensures
        r == list.deep_view().contains(w@),
{
    let mut i: usize = 0;
    while i < list.len()
        invariant
            i <= list.deep_view().len(),
            forall|k: int| 0 <= k < i ==> list.deep_view()[k] != w@,
        decreases list.len() - i,
    {
        assert(list.deep_view()[i as int] =~= list[i as int]@);
        if chars_eq(list[i].as_slice(), w.as_slice()) {
            assert(list.deep_view()[i as int] == w@);
            return true;
        }
        i = i + 1;
    }
    false
}

} // verus!

verus! {

/// A fresh copy of a character vector.
pub fn copy_chars(v: &Vec<char>) -> (r: Vec<char>)
    ensures
        r@ == v@,
{
    let mut r: Vec<char> = Vec::new();
    let mut i: usize = 0;
    while i < v.len()
        invariant
            i <= v@.len(),
            r@ == v@.take(i as int),
        decreases v.len() - i,
    {
        r.push(v[i]);
        i = i + 1;
        assert(v@.take(i as int) == v@.take(i - 1 as int).push(v@[i - 1]));
    }
    assert(v@.take(v@.len() as int) == v@);
    r
}

/// Pushing onto a sequence inserts into its set of elements.
pub proof fn lemma_push_to_set<A>(sq: Seq<A>, e: A)
    ensures
        sq.push(e).to_set() == sq.to_set().insert(e),
{
    assert(sq.push(e) =~= sq + seq![e]);
    Seq::lemma_to_set_insert_commutes(sq, e);
}

} // verus!

verus! {

/// Whether two strings hold the same characters.
pub fn str_eq(a: &str, b: &str) -> (r: bool)
    ensures
        r == (a@ == b@),
{
    let x = chars_of(a);
    let y = chars_of(b);
    chars_eq(x.as_slice(), y.as_slice())
}

/// Appends `t` to `s` (`String::push_str`).
#[verifier::external_body]
pub fn push_str(s: &mut String, t: &str)
    ensures
        final(s)@ == old(s)@ + t@,
{
    s.push_str(t);
}

/// `a` followed by `b`, as a new string.
pub fn concat(a: &str, b: &str) -> (r: String)
    ensures
        r@ == a@ + b@,
{
    let mut r = a.to_owned();
    push_str(&mut r, b);
    r
}

/// `0` through `9` and `a` through `f`.
pub fn lower_hex_char(c: char) -> (b: bool)
    ensures
        b == is_lower_hex(c),
{
    ('0' <= c && c <= '9') || ('a' <= c && c <= 'f')
}

/// A lowercase SHA-256 hex digest: exactly 64 characters from `0-9a-f`.
pub open spec fn is_digest(s: Seq<char>) -> bool {
    s.len() == 64 && forall|i: int| 0 <= i < s.len() ==> is_lower_hex(#[trigger] s[i])
}

/// Whether `s` is a lowercase SHA-256 hex digest. (A non-ASCII character
/// can never be a hex digit, so counting characters and counting bytes
/// agree on every string this accepts.)
pub fn is_digest_str(s: &str) -> (b: bool)
    ensures
        b == is_digest(s@),
{
    let v = chars_of(s);
    if v.len() != 64 {
        return false;
    }
    let mut i: usize = 0;
    while i < v.len()
        invariant
            v@ == s@,
            i <= v@.len(),
            forall|k: int| 0 <= k < i ==> is_lower_hex(#[trigger] v@[k]),
        decreases v.len() - i,
    {
        if !lower_hex_char(v[i]) {
            return false;
        }
        i = i + 1;
    }
    true
}

} // verus!

verus! {

/// The character sequences of a list of strings.
pub open spec fn views(v: Seq<String>) -> Seq<Seq<char>> {
    v.map_values(|s: String| s@)
}

/// Appends a copy of `code` to a list of strings.
pub fn push_owned(list: &mut Vec<String>, code: &str)
    ensures
        final(list)@.len() == old(list)@.len() + 1,
        views(final(list)@) == views(old(list)@).push(code@),
{
    let ghost before = list@;
    list.push(code.to_owned());
    assert(views(list@) =~= views(before).push(code@));
}

} // verus!

verus! {

/// The number of bytes UTF-8 uses for one character.
pub open spec fn utf8_width(c: char) -> nat {
    let u = c as u32;
    if u < 0x80 {
        1
    } else if u < 0x800 {
        2
    } else if u < 0x10000 {
        3
    } else {
        4
    }
}

/// The length in bytes of the UTF-8 text of `s` (what `str::len` reports).
pub open spec fn utf8_len(s: Seq<char>) -> nat
    decreases s.len(),
{
    if s.len() == 0 {
        0
    } else {
        utf8_len(s.drop_last()) + utf8_width(s.last())
    }
}

proof fn lemma_utf8_len_monotone(s: Seq<char>, i: int)
    requires
        0 <= i <= s.len(),
    ensures
        utf8_len(s.take(i)) <= utf8_len(s),
    decreases s.len() - i,
{
    if i < s.len() {
        lemma_utf8_len_monotone(s, i + 1);
        assert(s.take(i + 1).drop_last() == s.take(i));
    } else {
        assert(s.take(i) == s);
    }
}

/// Whether the UTF-8 text of `s` takes at most `limit` bytes.
pub fn utf8_len_at_most(s: &str, limit: usize) -> (b: bool)
    ensures
        b == (utf8_len(s@) <= limit),
{
    let v = chars_of(s);
    let mut total: usize = 0;
    let mut i: usize = 0;
    while i < v.len()
        invariant
            v@ == s@,
            i <= v@.len(),
            total == utf8_len(v@.take(i as int)),
            total <= limit,
        decreases v.len() - i,
    {
        let u = v[i] as u32;
        let w: usize = if u < 0x80 {
            1
        } else if u < 0x800 {
            2
        } else if u < 0x10000 {
            3
        } else {
            4
        };
        assert(v@.take(i + 1 as int).drop_last() == v@.take(i as int));
        if w > limit - total {
            proof {
                lemma_utf8_len_monotone(v@, i + 1);
            }
            return false;
        }
        total = total + w;
        i = i + 1;
    }
    assert(v@.take(v@.len() as int) == v@);
    true
}

} // verus!

verus! {

/// `s` without its leading white space.
pub open spec fn trim_start_ws(s: Seq<char>) -> Seq<char>
    decreases s.len(),
{
    if s.len() > 0 && is_white_space(s[0]) {
        trim_start_ws(s.drop_first())
    } else {
        s
    }
}

/// `s` without its trailing white space.
pub open spec fn trim_end_ws(s: Seq<char>) -> Seq<char>
    decreases s.len(),
{
    if s.len() > 0 && is_white_space(s.last()) {
        trim_end_ws(s.drop_last())
    } else {
        s
    }
}

/// `s` without leading and trailing white space (`str::trim`).
pub open spec fn trim_ws(s: Seq<char>) -> Seq<char> {
    trim_start_ws(trim_end_ws(s))
}

/// The characters of `v` without leading and trailing white space.
pub fn trimmed(v: &[char]) -> (r: Vec<char>)
    ensures
        r@ == trim_ws(v@),
{
    let mut e = v.len();
    assert(v@.take(e as int) == v@);
    while e > 0 && white_space(v[e - 1])
        invariant
            e <= v@.len(),
            trim_end_ws(v@) == trim_end_ws(v@.take(e as int)),
        decreases e,
    {
        assert(v@.take(e as int).drop_last() == v@.take(e - 1 as int));
        e = e - 1;
    }
    let ghost t = v@.take(e as int);
    assert(trim_end_ws(t) == t);
    let mut b: usize = 0;
    assert(t.skip(0) == t);
    while b < e && white_space(v[b])
        invariant
            b <= e <= v@.len(),
            t == v@.take(e as int),
            trim_start_ws(t) == trim_start_ws(t.skip(b as int)),
        decreases e - b,
    {
        assert(t.skip(b as int).drop_first() == t.skip(b + 1 as int));
        assert(t.skip(b as int)[0] == v@[b as int]);
        b = b + 1;
    }
    let mut r: Vec<char> = Vec::new();
    let mut i = b;
    while i < e
        invariant
            b <= i <= e <= v@.len(),
            r@ == v@.subrange(b as int, i as int),
        decreases e - i,
    {
        r.push(v[i]);
        i = i + 1;
        assert(r@ =~= v@.subrange(b as int, i as int));
    }
    assert(r@ =~= t.skip(b as int));
    r
}

} // verus!

verus! {

/// `s` split at every `sep` (`str::split`): one more piece than separators.
pub open spec fn split_on(s: Seq<char>, sep: char) -> Seq<Seq<char>>
    decreases s.len(),
{
    if s.len() == 0 {
        seq![seq![]]
    } else {
        let rest = split_on(s.drop_last(), sep);
        if s.last() == sep {
            rest.push(seq![])
        } else {
            rest.update(rest.len() - 1, rest.last().push(s.last()))
        }
    }
}

pub proof fn lemma_split_on_nonempty(s: Seq<char>, sep: char)
    ensures
        split_on(s, sep).len() > 0,
    decreases s.len(),
{
    if s.len() > 0 {
        lemma_split_on_nonempty(s.drop_last(), sep);
    }
}

/// Splits `v` at every `sep`.
pub fn split_chars(v: &[char], sep: char) -> (parts: Vec<Vec<char>>)
    ensures
        parts.deep_view() == split_on(v@, sep),
{
    let mut done: Vec<Vec<char>> = Vec::new();
    let mut cur: Vec<char> = Vec::new();
    let mut i: usize = 0;
    while i < v.len()
        invariant
            i <= v@.len(),
            split_on(v@.take(i as int), sep) == done.deep_view().push(cur@),
        decreases v.len() - i,
    {
        let c = v[i];
        let ghost prefix = v@.take(i + 1 as int);
        assert(prefix.drop_last() == v@.take(i as int));
        let ghost dv = done.deep_view();
        let ghost old_cur = cur@;
        if c == sep {
            let w = cur;
            assert(w.deep_view() =~= w@);
            done.push(w);
            cur = Vec::new();
            assert(done.deep_view() =~= dv.push(old_cur));
            assert(split_on(prefix, sep) =~~= done.deep_view().push(cur@));
        } else {
            cur.push(c);
            assert(split_on(prefix, sep) =~~= dv.push(old_cur).update(dv.len() as int, old_cur.push(c)));
            assert(split_on(prefix, sep) =~~= done.deep_view().push(cur@));
        }
        i = i + 1;
    }
    assert(v@.take(v@.len() as int) == v@);
    let ghost dv = done.deep_view();
    let ghost last = cur@;
    assert(cur.deep_view() =~= cur@);
    done.push(cur);
    assert(done.deep_view() =~= dv.push(last));
    done
}

/// Whether `s` begins with `p`.
pub fn starts_with(s: &str, p: &str) -> (b: bool)
    ensures
        b == (p@.len() <= s@.len() && s@.take(p@.len() as int) == p@),
{
    let a = chars_of(s);
    let b = chars_of(p);
    if b.len() > a.len() {
        return false;
    }
    let mut i: usize = 0;
    while i < b.len()
        invariant
            a@ == s@,
            b@ == p@,
            b@.len() <= a@.len(),
            i <= b@.len(),
            forall|k: int| 0 <= k < i ==> a@[k] == b@[k],
        decreases b.len() - i,
    {
        if a[i] != b[i] {
            assert(s@.take(p@.len() as int)[i as int] != p@[i as int]);
            return false;
        }
        i = i + 1;
    }
    assert(s@.take(p@.len() as int) =~= p@);
    true
}

/// Whether one of `list` holds the characters of `s`.
pub fn list_contains(list: &[String], s: &str) -> (b: bool)
    ensures
        b == views(list@).contains(s@),
{
    let mut i: usize = 0;
    while i < list.len()
        invariant
            i <= list@.len(),
            forall|k: int| 0 <= k < i ==> list@[k]@ != s@,
        decreases list.len() - i,
    {
        if str_eq(list[i].as_str(), s) {
            assert(views(list@)[i as int] == s@);
            return true;
        }
        i = i + 1;
    }
    assert forall|k: int| 0 <= k < views(list@).len() implies views(list@)[k] != s@ by {
        assert(views(list@)[k] == list@[k]@);
    }
    false
}

} // verus!

verus! {

pub proof fn lemma_views_push(v: Seq<String>, s: String)
    ensures
        views(v.push(s)) == views(v).push(s@),
{
    assert(views(v.push(s)) =~= views(v).push(s@));
}

} // verus!
