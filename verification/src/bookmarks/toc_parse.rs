//! Printed contents-line parsing: numbering, leader runs and trailing
//! printed page labels.
//!
//! Everything here is textual and works on the characters of a line. Which
//! parsed entry may become a bookmark is decided later, in `align` and
//! `scoring`.

use vstd::prelude::*;

use crate::bookmarks::text_index::{
    index_keys, merge_new, primary_key, primary_spec, secondary_key, secondary_spec, tokens_spec,
    truncated,
};
use crate::text::{
    chars_of, control_char, is_ascii_alpha, is_ascii_digit, is_control_char, is_white_space,
    push_owned, split_chars, split_on, split_whitespace, split_ws, str_eq, string_of, trim_ws,
    trimmed, utf8_len, utf8_len_at_most, views, white_space,
};

verus! {

broadcast use vstd::string::group_string_axioms;

// ---------------------------------------------------------------------------
// Character classes
// ---------------------------------------------------------------------------

/// Characters used as dot leaders in printed contents lists.
pub open spec fn is_leader(c: char) -> bool {
    c == '.' || c == '\u{00b7}' || c == '\u{2022}' || c == '\u{2024}' || c == '\u{2026}' || c
        == '\u{2027}' || c == '\u{ff0e}' || c == '\u{3002}' || c == '_' || c == '-' || c
        == '\u{2500}'
}

/// Executable [`is_leader`].
pub fn leader(c: char) -> (b: bool)
    ensures
        b == is_leader(c),
{
    c == '.' || c == '\u{00b7}' || c == '\u{2022}' || c == '\u{2024}' || c == '\u{2026}' || c
        == '\u{2027}' || c == '\u{ff0e}' || c == '\u{3002}' || c == '_' || c == '-' || c
        == '\u{2500}'
}

/// The character classes that the parsers trim.
#[derive(Clone, Copy, Debug, PartialEq, Eq, Structural)]
pub enum CharClass {
    /// Unicode white space.
    Space,
    /// A leader character or a comma.
    LeaderOrComma,
    /// A leader character or white space.
    LeaderOrSpace,
    /// What may close a numbering token: `.`, `、`, `．`, `)`, `）`.
    NumberingEnd,
}

pub open spec fn in_class(c: char, k: CharClass) -> bool {
    match k {
        CharClass::Space => is_white_space(c),
        CharClass::LeaderOrComma => is_leader(c) || c == ',',
        CharClass::LeaderOrSpace => is_leader(c) || is_white_space(c),
        CharClass::NumberingEnd => c == '.' || c == '\u{3001}' || c == '\u{ff0e}' || c == ')' || c
            == '\u{ff09}',
    }
}

fn class_has(c: char, k: CharClass) -> (b: bool)
    ensures
        b == in_class(c, k),
{
    match k {
        CharClass::Space => white_space(c),
        CharClass::LeaderOrComma => leader(c) || c == ',',
        CharClass::LeaderOrSpace => leader(c) || white_space(c),
        CharClass::NumberingEnd => c == '.' || c == '\u{3001}' || c == '\u{ff0e}' || c == ')' || c
            == '\u{ff09}',
    }
}

/// `s` without its trailing characters of class `k`.
pub open spec fn trim_end_class(s: Seq<char>, k: CharClass) -> Seq<char>
    decreases s.len(),
{
    if s.len() > 0 && in_class(s.last(), k) {
        trim_end_class(s.drop_last(), k)
    } else {
        s
    }
}

/// `s` without its leading characters of class `k`.
pub open spec fn trim_start_class(s: Seq<char>, k: CharClass) -> Seq<char>
    decreases s.len(),
{
    if s.len() > 0 && in_class(s[0], k) {
        trim_start_class(s.drop_first(), k)
    } else {
        s
    }
}

/// Length of `v` once its trailing characters of class `k` are removed.
fn trimmed_end(v: &[char], k: CharClass) -> (e: usize)
    ensures
        e <= v@.len(),
        v@.take(e as int) == trim_end_class(v@, k),
{
    let mut e = v.len();
    assert(v@.take(e as int) == v@);
    while e > 0 && class_has(v[e - 1], k)
        invariant
            e <= v@.len(),
            trim_end_class(v@, k) == trim_end_class(v@.take(e as int), k),
        decreases e,
    {
        assert(v@.take(e as int).drop_last() == v@.take(e - 1 as int));
        e = e - 1;
    }
    e
}

/// Position of the first character of `v` not of class `k`.
fn trimmed_start(v: &[char], k: CharClass) -> (b: usize)
    ensures
        b <= v@.len(),
        v@.skip(b as int) == trim_start_class(v@, k),
{
    let mut b: usize = 0;
    assert(v@.skip(0) == v@);
    while b < v.len() && class_has(v[b], k)
        invariant
            b <= v@.len(),
            trim_start_class(v@, k) == trim_start_class(v@.skip(b as int), k),
        decreases v.len() - b,
    {
        assert(v@.skip(b as int).drop_first() == v@.skip(b + 1 as int));
        b = b + 1;
    }
    b
}

/// The characters `v[a..b]`.
fn slice_of(v: &[char], a: usize, b: usize) -> (r: Vec<char>)
    requires
        a <= b <= v@.len(),
    ensures
        r@ == v@.subrange(a as int, b as int),
{
    let mut r: Vec<char> = Vec::new();
    let mut i = a;
    while i < b
        invariant
            a <= i <= b <= v@.len(),
            r@ == v@.subrange(a as int, i as int),
        decreases b - i,
    {
        r.push(v[i]);
        i = i + 1;
        assert(r@ =~= v@.subrange(a as int, i as int));
    }
    r
}

pub open spec fn all_digits(s: Seq<char>) -> bool {
    forall|i: int| 0 <= i < s.len() ==> is_ascii_digit(#[trigger] s[i])
}

pub open spec fn all_alpha(s: Seq<char>) -> bool {
    forall|i: int| 0 <= i < s.len() ==> is_ascii_alpha(#[trigger] s[i])
}

fn digits_only(v: &[char]) -> (b: bool)
    ensures
        b == all_digits(v@),
{
    let mut i: usize = 0;
    while i < v.len()
        invariant
            i <= v@.len(),
            forall|k: int| 0 <= k < i ==> is_ascii_digit(#[trigger] v@[k]),
        decreases v.len() - i,
    {
        if !('0' <= v[i] && v[i] <= '9') {
            return false;
        }
        i = i + 1;
    }
    true
}

fn alpha_only(v: &[char]) -> (b: bool)
    ensures
        b == all_alpha(v@),
{
    let mut i: usize = 0;
    while i < v.len()
        invariant
            i <= v@.len(),
            forall|k: int| 0 <= k < i ==> is_ascii_alpha(#[trigger] v@[k]),
        decreases v.len() - i,
    {
        let c = v[i];
        if !(('a' <= c && c <= 'z') || ('A' <= c && c <= 'Z')) {
            return false;
        }
        i = i + 1;
    }
    true
}

/// The decimal value of a digit string.
pub open spec fn digits_value(s: Seq<char>) -> int
    decreases s.len(),
{
    if s.len() == 0 {
        0
    } else {
        digits_value(s.drop_last()) * 10 + (s.last() as int - '0' as int)
    }
}

pub open spec fn pow10(n: nat) -> nat
    decreases n,
{
    if n == 0 {
        1
    } else {
        10 * pow10((n - 1) as nat)
    }
}

proof fn lemma_pow10_le(a: nat, b: nat)
    requires
        a <= b,
    ensures
        pow10(a) <= pow10(b),
    decreases b,
{
    if a < b {
        lemma_pow10_le(a, (b - 1) as nat);
    }
}

proof fn lemma_digits_value_bound(s: Seq<char>)
    requires
        all_digits(s),
    ensures
        0 <= digits_value(s) < pow10(s.len()),
    decreases s.len(),
{
    if s.len() > 0 {
        assert(all_digits(s.drop_last())) by {
            assert forall|i: int| 0 <= i < s.drop_last().len() implies is_ascii_digit(
                #[trigger] s.drop_last()[i],
            ) by {
                assert(s.drop_last()[i] == s[i]);
            }
        }
        assert(is_ascii_digit(s[s.len() - 1]));
        lemma_digits_value_bound(s.drop_last());
    }
}

/// The value of a string of at most nine decimal digits.
fn parse_digits(v: &[char]) -> (n: u32)
    requires
        all_digits(v@),
        v@.len() <= 9,
    ensures
        n == digits_value(v@),
{
    let mut n: u32 = 0;
    let mut i: usize = 0;
    while i < v.len()
        invariant
            i <= v@.len() <= 9,
            all_digits(v@),
            n == digits_value(v@.take(i as int)),
        decreases v.len() - i,
    {
        let ghost prefix = v@.take(i + 1 as int);
        assert(prefix.drop_last() == v@.take(i as int));
        assert(all_digits(prefix)) by {
            assert forall|k: int| 0 <= k < prefix.len() implies is_ascii_digit(#[trigger] prefix[k]) by {
                assert(prefix[k] == v@[k]);
            }
        }
        assert(is_ascii_digit(v@[i as int]));
        proof {
            lemma_digits_value_bound(prefix);
            lemma_pow10_le(prefix.len(), 9);
            assert(pow10(9) == 1_000_000_000) by {
                reveal_with_fuel(pow10, 10);
            }
        }
        let d = (v[i] as u32) - ('0' as u32);
        n = n * 10 + d;
        i = i + 1;
    }
    assert(v@.take(v@.len() as int) == v@);
    n
}

// ---------------------------------------------------------------------------
// Leader runs
// ---------------------------------------------------------------------------

/// Length of the leader run in effect after reading `s`: leaders count,
/// plain spaces between them are skipped, anything else resets the run.
pub open spec fn leader_run(s: Seq<char>) -> nat
    decreases s.len(),
{
    if s.len() == 0 {
        0
    } else if is_leader(s.last()) {
        leader_run(s.drop_last()) + 1
    } else if s.last() == ' ' {
        leader_run(s.drop_last())
    } else {
        0
    }
}

/// Whether `s` shows a run of at least three leaders (spaces allowed between).
pub open spec fn shows_leader_run(s: Seq<char>) -> bool {
    exists|k: int| 0 < k <= s.len() && leader_run(#[trigger] s.take(k)) >= 3
}

/// Whether `text` contains a dot-leader run.
pub fn has_leader_run(text: &str) -> (b: bool)
    ensures
        b == shows_leader_run(text@),
{
    let v = chars_of(text);
    let mut run: u32 = 0;
    let mut i: usize = 0;
    while i < v.len()
        invariant
            v@ == text@,
            i <= v@.len(),
            run == leader_run(v@.take(i as int)),
            run < 3,
            forall|k: int| 0 < k <= i ==> leader_run(#[trigger] v@.take(k)) < 3,
        decreases v.len() - i,
    {
        let c = v[i];
        assert(v@.take(i + 1 as int).drop_last() == v@.take(i as int));
        if leader(c) {
            run = run + 1;
            if run >= 3 {
                assert(leader_run(v@.take(i + 1 as int)) >= 3);
                return true;
            }
        } else if c != ' ' {
            run = 0;
        }
        i = i + 1;
    }
    false
}

// ---------------------------------------------------------------------------
// Roman numerals
// ---------------------------------------------------------------------------

/// The value of one Roman digit, either case; 0 for any other character.
pub open spec fn roman_digit(c: char) -> int {
    if c == 'i' || c == 'I' {
        1
    } else if c == 'v' || c == 'V' {
        5
    } else if c == 'x' || c == 'X' {
        10
    } else if c == 'l' || c == 'L' {
        50
    } else if c == 'c' || c == 'C' {
        100
    } else if c == 'd' || c == 'D' {
        500
    } else if c == 'm' || c == 'M' {
        1000
    } else {
        0
    }
}

fn roman_digit_of(c: char) -> (v: u32)
    ensures
        v == roman_digit(c),
{
    if c == 'i' || c == 'I' {
        1
    } else if c == 'v' || c == 'V' {
        5
    } else if c == 'x' || c == 'X' {
        10
    } else if c == 'l' || c == 'L' {
        50
    } else if c == 'c' || c == 'C' {
        100
    } else if c == 'd' || c == 'D' {
        500
    } else if c == 'm' || c == 'M' {
        1000
    } else {
        0
    }
}

/// The right-to-left reading of `s[k..]`: the running total, the largest
/// digit seen so far, and whether the reading is still valid (every
/// character is a Roman digit and no subtraction goes below zero).
pub open spec fn roman_scan(s: Seq<char>, k: int) -> (int, int, bool)
    decreases s.len() - k,
{
    if k >= s.len() {
        (0, 0, true)
    } else if k < 0 {
        (0, 0, false)
    } else {
        let (total, previous, ok) = roman_scan(s, k + 1);
        let v = roman_digit(s[k]);
        if !ok || v == 0 {
            (total, previous, false)
        } else if v < previous {
            if v > total {
                (total, previous, false)
            } else {
                (total - v, previous, true)
            }
        } else {
            (total + v, v, true)
        }
    }
}

/// The value of a Roman numeral of 1 to 15 letters, if it reads as one
/// between 1 and 5000.
pub open spec fn roman_value(s: Seq<char>) -> Option<u32> {
    let (total, _previous, ok) = roman_scan(s, 0);
    if s.len() == 0 || s.len() > 15 || !ok || total <= 0 || total > 5000 {
        None
    } else {
        Some(total as u32)
    }
}

/// Whether `a` and `b` are the same character up to ASCII case.
pub open spec fn same_ignoring_ascii_case(a: char, b: char) -> bool {
    ||| a == b
    ||| ('A' <= a <= 'Z' && (b as u32) == (a as u32) + 32)
    ||| ('A' <= b <= 'Z' && (a as u32) == (b as u32) + 32)
}

/// Law: the Roman digits have their standard values in either case, and
/// every other character is not a Roman digit.
pub proof fn lemma_roman_digit_values(c: char)
    ensures
        roman_digit('i') == 1 && roman_digit('I') == 1,
        roman_digit('v') == 5 && roman_digit('V') == 5,
        roman_digit('x') == 10 && roman_digit('X') == 10,
        roman_digit('l') == 50 && roman_digit('L') == 50,
        roman_digit('c') == 100 && roman_digit('C') == 100,
        roman_digit('d') == 500 && roman_digit('D') == 500,
        roman_digit('m') == 1000 && roman_digit('M') == 1000,
        !(c == 'i' || c == 'I' || c == 'v' || c == 'V' || c == 'x' || c == 'X' || c == 'l' || c == 'L'
            || c == 'c' || c == 'C' || c == 'd' || c == 'D' || c == 'm' || c == 'M') ==> roman_digit(c)
            == 0,
{
}

proof fn lemma_roman_digit_case(a: char, b: char)
    requires
        same_ignoring_ascii_case(a, b),
    ensures
        roman_digit(a) == roman_digit(b),
{
}

proof fn lemma_roman_scan_case(s: Seq<char>, t: Seq<char>, k: int)
    requires
        s.len() == t.len(),
        forall|j: int| 0 <= j < s.len() ==> same_ignoring_ascii_case(#[trigger] s[j], t[j]),
    ensures
        roman_scan(s, k) == roman_scan(t, k),
    decreases s.len() - k,
{
    if 0 <= k < s.len() {
        lemma_roman_scan_case(s, t, k + 1);
        lemma_roman_digit_case(s[k], t[k]);
    }
}

/// Law: a Roman numeral reads the same whatever the case of its letters:
/// two texts that differ only in ASCII case have the same value.
pub proof fn lemma_roman_value_ignores_case(s: Seq<char>, t: Seq<char>)
    requires
        s.len() == t.len(),
        forall|j: int| 0 <= j < s.len() ==> same_ignoring_ascii_case(#[trigger] s[j], t[j]),
    ensures
        roman_value(s) == roman_value(t),
{
    lemma_roman_scan_case(s, t, 0);
}

/// The sum of the digit values of `s[k..]`.
pub open spec fn digit_sum(s: Seq<char>, k: int) -> int
    decreases s.len() - k,
{
    if k < 0 || k >= s.len() {
        0
    } else {
        roman_digit(s[k]) + digit_sum(s, k + 1)
    }
}

proof fn lemma_non_increasing_scan(s: Seq<char>, k: int)
    requires
        0 <= k <= s.len(),
        forall|j: int| k <= j < s.len() ==> #[trigger] roman_digit(s[j]) > 0,
        forall|j: int| k <= j < s.len() - 1 ==> roman_digit(#[trigger] s[j]) >= roman_digit(s[j + 1]),
    ensures
        roman_scan(s, k).2,
        roman_scan(s, k).0 == digit_sum(s, k),
        k < s.len() ==> roman_scan(s, k).1 == roman_digit(s[k]),
        k == s.len() ==> roman_scan(s, k).1 == 0,
    decreases s.len() - k,
{
    if k < s.len() {
        lemma_non_increasing_scan(s, k + 1);
        assert(roman_digit(s[k]) > 0);
        if k + 1 < s.len() {
            assert(roman_digit(s[k]) >= roman_digit(s[k + 1]));
        }
    }
}

/// Law: a numeral whose digits never grow from left to right is worth the
/// sum of its digits (when it has 1 to 15 letters and that sum is at most
/// 5000); a letter that is not a Roman digit makes any text unreadable.
pub proof fn lemma_roman_value_of_non_increasing(s: Seq<char>)
    ensures
        (forall|j: int| 0 <= j < s.len() ==> #[trigger] roman_digit(s[j]) > 0) && (forall|j: int|
            0 <= j < s.len() - 1 ==> roman_digit(#[trigger] s[j]) >= roman_digit(s[j + 1])) && 1 <= s.len()
            <= 15 && digit_sum(s, 0) <= 5000 ==> roman_value(s) == Some(digit_sum(s, 0) as u32),
        (exists|j: int| 0 <= j < s.len() && #[trigger] roman_digit(s[j]) == 0) ==> roman_value(s) is None,
{
    if (forall|j: int| 0 <= j < s.len() ==> #[trigger] roman_digit(s[j]) > 0) && (forall|j: int|
        0 <= j < s.len() - 1 ==> roman_digit(#[trigger] s[j]) >= roman_digit(s[j + 1])) {
        lemma_non_increasing_scan(s, 0);
        if s.len() > 0 {
            assert(roman_digit(s[0]) > 0);
            lemma_digit_sum_positive(s, 0);
        }
    }
    if exists|j: int| 0 <= j < s.len() && #[trigger] roman_digit(s[j]) == 0 {
        let j = choose|j: int| 0 <= j < s.len() && #[trigger] roman_digit(s[j]) == 0;
        lemma_roman_scan_bad_digit(s, j);
        lemma_roman_scan_fails(s, 0, j);
    }
}

/// Law: a smaller digit written before a numeral whose digits never grow
/// is subtracted from it (when the result stays a numeral of at most 15
/// letters worth 1 to 5000).
pub proof fn lemma_roman_subtractive_prefix(s: Seq<char>)
    requires
        2 <= s.len() <= 15,
        forall|j: int| 1 <= j < s.len() ==> #[trigger] roman_digit(s[j]) > 0,
        forall|j: int| 1 <= j < s.len() - 1 ==> roman_digit(#[trigger] s[j]) >= roman_digit(s[j + 1]),
        0 < roman_digit(s[0]) < roman_digit(s[1]),
        roman_digit(s[0]) < digit_sum(s, 1) <= 5000 + roman_digit(s[0]),
    ensures
        roman_value(s) == Some((digit_sum(s, 1) - roman_digit(s[0])) as u32),
{
    lemma_non_increasing_scan(s, 1);
}

proof fn lemma_digit_sum_positive(s: Seq<char>, k: int)
    requires
        0 <= k < s.len(),
        forall|j: int| 0 <= j < s.len() ==> #[trigger] roman_digit(s[j]) > 0,
    ensures
        digit_sum(s, k) > 0,
    decreases s.len() - k,
{
    assert(roman_digit(s[k]) > 0);
    if k + 1 < s.len() {
        lemma_digit_sum_positive(s, k + 1);
    } else {
        assert(digit_sum(s, k + 1) == 0);
    }
}

proof fn lemma_roman_scan_bad_digit(s: Seq<char>, j: int)
    requires
        0 <= j < s.len(),
        roman_digit(s[j]) == 0,
    ensures
        !roman_scan(s, j).2,
{
}

proof fn lemma_roman_scan_fails(s: Seq<char>, j: int, k: int)
    requires
        0 <= j <= k <= s.len(),
        !roman_scan(s, k).2,
    ensures
        !roman_scan(s, j).2,
    decreases k - j,
{
    if j < k {
        lemma_roman_scan_fails(s, j + 1, k);
    }
}

fn roman_chars(s: &[char]) -> (r: Option<u32>)
    ensures
        r == roman_value(s@),
{
    let n = s.len();
    if n == 0 || n > 15 {
        return None;
    }
    let mut total: u32 = 0;
    let mut previous: u32 = 0;
    let mut k = n;
    while k > 0
        invariant
            n == s@.len(),
            0 < n <= 15,
            k <= n,
            roman_scan(s@, k as int) == (total as int, previous as int, true),
            total <= 1000 * (n - k),
            previous <= 1000,
        decreases k,
    {
        k = k - 1;
        let v = roman_digit_of(s[k]);
        if v == 0 {
            proof {
                lemma_roman_scan_fails(s@, 0, k as int);
            }
            return None;
        }
        if v < previous {
            if v > total {
                proof {
                    lemma_roman_scan_fails(s@, 0, k as int);
                }
                return None;
            }
            total = total - v;
        } else {
            total = total + v;
            previous = v;
        }
    }
    if total > 0 && total <= 5000 {
        Some(total)
    } else {
        None
    }
}

/// Parses a Roman numeral (either case) between 1 and 5000.
pub fn parse_roman(token: &str) -> (r: Option<u32>)
    ensures
        r == roman_value(token@),
{
    let v = chars_of(token);
    roman_chars(v.as_slice())
}

// ---------------------------------------------------------------------------
// Trailing printed page labels
// ---------------------------------------------------------------------------

#[derive(Debug, Clone, Copy, PartialEq, Eq, Structural)]
pub enum NumberingFamily {
    Arabic,
    Roman,
}

impl NumberingFamily {
    pub fn as_str(self) -> (s: &'static str)
        ensures
            s@ == match self {
                NumberingFamily::Arabic => "arabic"@,
                NumberingFamily::Roman => "roman"@,
            },
    {
        match self {
            NumberingFamily::Arabic => "arabic",
            NumberingFamily::Roman => "roman",
        }
    }
}

/// A printed page label read from the end of a contents line.
#[derive(Debug, Clone)]
pub struct PrintedNumber {
    /// The whole last token, kept as evidence.
    pub raw: String,
    pub value: u32,
    pub family: NumberingFamily,
}

/// The plain value of a printed label.
pub open spec fn printed_view(p: Option<PrintedNumber>) -> Option<(Seq<char>, u32, NumberingFamily)> {
    match p {
        Some(p) => Some((p.raw@, p.value, p.family)),
        None => None,
    }
}

pub open spec fn is_range_dash(c: char) -> bool {
    c == '-' || c == '\u{2013}' || c == '\u{2014}'
}

/// The part of `s` before its first range dash.
pub open spec fn before_dash(s: Seq<char>) -> Seq<char>
    decreases s.len(),
{
    if s.len() == 0 {
        s
    } else if is_range_dash(s[0]) {
        seq![]
    } else {
        seq![s[0]] + before_dash(s.drop_first())
    }
}

/// The label that ends a contents line: the last word, stripped of leaders
/// and commas on both sides; of a range only the first page counts. Up to
/// five ASCII digits read as an Arabic number, otherwise a Roman numeral.
pub open spec fn printed_spec(text: Seq<char>) -> Option<(Seq<char>, u32, NumberingFamily)> {
    let words = split_ws(text);
    if words.len() == 0 {
        None
    } else {
        let last = words.last();
        let trimmed = trim_end_class(trim_start_class(last, CharClass::LeaderOrComma), CharClass::LeaderOrComma);
        if trimmed.len() == 0 {
            None
        } else {
            let head = before_dash(trimmed);
            if head.len() > 0 && head.len() <= 5 && all_digits(head) {
                Some((last, digits_value(head) as u32, NumberingFamily::Arabic))
            } else {
                match roman_value(head) {
                    Some(v) => Some((last, v, NumberingFamily::Roman)),
                    None => None,
                }
            }
        }
    }
}

/// Position of the first range dash in `v`, or its length.
fn first_dash(v: &[char]) -> (e: usize)
    ensures
        e <= v@.len(),
        v@.take(e as int) == before_dash(v@),
{
    let mut e: usize = 0;
    assert(v@.skip(0) =~= v@);
    assert(v@.take(0) + before_dash(v@) =~= before_dash(v@));
    while e < v.len() && !(v[e] == '-' || v[e] == '\u{2013}' || v[e] == '\u{2014}')
        invariant
            e <= v@.len(),
            before_dash(v@) == v@.take(e as int) + before_dash(v@.skip(e as int)),
        decreases v.len() - e,
    {
        let ghost rest = v@.skip(e as int);
        assert(rest.drop_first() == v@.skip(e + 1 as int));
        assert(v@.take(e + 1 as int) == v@.take(e as int) + seq![v@[e as int]]);
        assert(rest[0] == v@[e as int]);
        assert(before_dash(rest) == seq![rest[0]] + before_dash(rest.drop_first()));
        assert(v@.take(e as int) + before_dash(rest) =~= v@.take(e + 1 as int) + before_dash(
            v@.skip(e + 1 as int),
        ));
        e = e + 1;
    }
    assert(v@.take(e as int) + seq![] == v@.take(e as int));
    e
}

/// The trailing printed page token of a contents line, if the last token
/// resolves to a page number. Ranges keep only the first page; the whole
/// token is retained as evidence.
pub fn trailing_printed_number(text: &str) -> (r: Option<PrintedNumber>)
    ensures
        printed_view(r) == printed_spec(text@),
{
    let chars = chars_of(text);
    let words = split_whitespace(chars.as_slice());
    let ghost wv = words.deep_view();
    if words.len() == 0 {
        return None;
    }
    let last = &words[words.len() - 1];
    assert(last@ == wv.last());
    let b = trimmed_start(last.as_slice(), CharClass::LeaderOrComma);
    let front = slice_of(last.as_slice(), b, last.len());
    assert(front@ == last@.skip(b as int));
    let e = trimmed_end(front.as_slice(), CharClass::LeaderOrComma);
    if e == 0 {
        return None;
    }
    let trimmed = slice_of(front.as_slice(), 0, e);
    assert(trimmed@ == front@.take(e as int));
    let d = first_dash(trimmed.as_slice());
    let head = slice_of(trimmed.as_slice(), 0, d);
    assert(head@ == trimmed@.take(d as int));
    if head.len() > 0 && head.len() <= 5 && digits_only(head.as_slice()) {
        let value = parse_digits(head.as_slice());
        return Some(PrintedNumber { raw: string_of(last.as_slice()), value, family: NumberingFamily::Arabic });
    }
    match roman_chars(head.as_slice()) {
        Some(value) => Some(PrintedNumber { raw: string_of(last.as_slice()), value, family: NumberingFamily::Roman }),
        None => None,
    }
}

// ---------------------------------------------------------------------------
// Numbering prefixes
// ---------------------------------------------------------------------------

/// A decimal numbering component: one to four ASCII digits.
pub open spec fn decimal_part(p: Seq<char>) -> bool {
    0 < p.len() <= 4 && all_digits(p)
}

/// The level that a CJK chapter marker (`第N章`, `第N节`, ...) ends with;
/// 0 when its last character marks no level.
pub open spec fn cjk_level(c: char) -> u32 {
    if c == '章' || c == '部' || c == '編' || c == '编' {
        1
    } else if c == '节' || c == '節' {
        2
    } else {
        0
    }
}

/// The explicit numbering of a heading, read from its first word:
/// a decimal path (`1`, `1.2`, up to six parts of up to four digits),
/// a Roman numeral of up to eight letters, or a CJK chapter marker.
/// Closing `.`, `、`, `．`, `)` and `）` are ignored.
pub open spec fn numbering_spec(text: Seq<char>) -> (Option<Seq<char>>, Seq<u32>) {
    let words = split_ws(text);
    if words.len() == 0 {
        (None, seq![])
    } else {
        let token = words[0];
        let core = trim_end_class(token, CharClass::NumberingEnd);
        let parts = split_on(core, '.');
        if core.len() == 0 {
            (None, seq![])
        } else if parts.len() <= 6 && forall|i: int| 0 <= i < parts.len() ==> decimal_part(#[trigger] parts[i]) {
            (Some(token), parts.map_values(|p: Seq<char>| digits_value(p) as u32))
        } else if core.len() <= 8 && all_alpha(core) && roman_value(core) is Some {
            (Some(token), seq![roman_value(core)->0])
        } else if token.len() >= 3 && token[0] == '第' && cjk_level(token.last()) > 0 {
            (Some(token), seq![cjk_level(token.last())])
        } else {
            (None, seq![])
        }
    }
}

/// Whether every piece is a decimal numbering component.
fn all_decimal(parts: &Vec<Vec<char>>) -> (b: bool)
    ensures
        b == forall|i: int| 0 <= i < parts.deep_view().len() ==> decimal_part(#[trigger] parts.deep_view()[i]),
{
    let mut i: usize = 0;
    while i < parts.len()
        invariant
            i <= parts.deep_view().len(),
            forall|k: int| 0 <= k < i ==> decimal_part(#[trigger] parts.deep_view()[k]),
        decreases parts.len() - i,
    {
        assert(parts.deep_view()[i as int] =~= parts[i as int]@);
        let p = &parts[i];
        if !(p.len() > 0 && p.len() <= 4 && digits_only(p.as_slice())) {
            return false;
        }
        i = i + 1;
    }
    true
}

/// Explicit numbering path of a heading (`1`, `1.2`, `1.2.3`, `IV.`, `第三章`):
/// the numbering token, when there is one, and the path it denotes.
pub fn numbering_prefix(text: &str) -> (r: (Option<String>, Vec<u32>))
    ensures
        (match r.0 {
            Some(t) => Some(t@),
            None => None::<Seq<char>>,
        }) == numbering_spec(text@).0,
        r.1@ == numbering_spec(text@).1,
{
    let chars = chars_of(text);
    let words = split_whitespace(chars.as_slice());
    let ghost wv = words.deep_view();
    if words.len() == 0 {
        return (None, Vec::new());
    }
    let token = &words[0];
    assert(token@ == wv[0]);
    let e = trimmed_end(token.as_slice(), CharClass::NumberingEnd);
    let core = slice_of(token.as_slice(), 0, e);
    assert(core@ == token@.take(e as int));
    if core.len() == 0 {
        return (None, Vec::new());
    }
    let parts = split_chars(core.as_slice(), '.');
    if parts.len() <= 6 && all_decimal(&parts) {
        let mut path: Vec<u32> = Vec::new();
        let mut i: usize = 0;
        let ghost pv = parts.deep_view();
        while i < parts.len()
            invariant
                pv == parts.deep_view(),
                i <= pv.len(),
                forall|k: int| 0 <= k < pv.len() ==> decimal_part(#[trigger] pv[k]),
                path@ == pv.take(i as int).map_values(|p: Seq<char>| digits_value(p) as u32),
            decreases parts.len() - i,
        {
            assert(pv[i as int] =~= parts[i as int]@);
            assert(decimal_part(pv[i as int]));
            let value = parse_digits(parts[i].as_slice());
            path.push(value);
            i = i + 1;
            assert(path@ =~= pv.take(i as int).map_values(|p: Seq<char>| digits_value(p) as u32));
        }
        assert(pv.take(pv.len() as int) == pv);
        return (Some(string_of(token.as_slice())), path);
    }
    if core.len() <= 8 && alpha_only(core.as_slice()) {
        match roman_chars(core.as_slice()) {
            Some(value) => {
                let mut path: Vec<u32> = Vec::new();
                path.push(value);
                assert(path@ =~= seq![value]);
                return (Some(string_of(token.as_slice())), path);
            },
            None => {},
        }
    }
    if token.len() >= 3 && token[0] == '第' {
        let last = token[token.len() - 1];
        let level: u32 = if last == '章' || last == '部' || last == '編' || last == '编' {
            1
        } else if last == '节' || last == '節' {
            2
        } else {
            0
        };
        if level > 0 {
            let mut path: Vec<u32> = Vec::new();
            path.push(level);
            assert(path@ =~= seq![level]);
            return (Some(string_of(token.as_slice())), path);
        }
    }
    (None, Vec::new())
}

// ---------------------------------------------------------------------------
// Title extraction
// ---------------------------------------------------------------------------

/// `s` without `suffix` at its end, when it ends with it.
pub open spec fn strip_suffix(s: Seq<char>, suffix: Seq<char>) -> Seq<char> {
    if suffix.len() <= s.len() && s.subrange(s.len() - suffix.len(), s.len() as int) == suffix {
        s.take(s.len() - suffix.len())
    } else {
        s
    }
}

/// A contents line without its printed page token and the leader run in
/// front of it, trimmed of white space.
pub open spec fn strip_tail_spec(text: Seq<char>, raw: Option<Seq<char>>) -> Seq<char> {
    let remaining = trim_end_class(text, CharClass::Space);
    let without = match raw {
        Some(r) => strip_suffix(remaining, r),
        None => remaining,
    };
    let core = trim_end_class(without, CharClass::LeaderOrSpace);
    trim_start_class(trim_end_class(core, CharClass::Space), CharClass::Space)
}

/// Whether `v` ends with `suffix`.
fn ends_with(v: &[char], suffix: &[char]) -> (b: bool)
    ensures
        b == (suffix@.len() <= v@.len() && v@.subrange(v@.len() - suffix@.len(), v@.len() as int)
            == suffix@),
{
    if suffix.len() > v.len() {
        return false;
    }
    let n = v.len();
    let start = n - suffix.len();
    let mut i: usize = 0;
    while i < suffix.len()
        invariant
            n == v@.len(),
            start + suffix@.len() == v@.len(),
            suffix@.len() <= v@.len(),
            start == v@.len() - suffix@.len(),
            i <= suffix@.len(),
            forall|k: int| 0 <= k < i ==> v@[start + k] == suffix@[k],
        decreases suffix.len() - i,
    {
        if v[start + i] != suffix[i] {
            assert(v@.subrange(start as int, v@.len() as int)[i as int] != suffix@[i as int]);
            return false;
        }
        i = i + 1;
    }
    assert(v@.subrange(start as int, v@.len() as int) =~= suffix@);
    true
}

/// Removes only the trailing printed page token and the leader run in front
/// of it. Numbering, case, punctuation and Unicode are kept as they are.
pub fn strip_printed_tail(text: &str, printed: Option<&PrintedNumber>) -> (r: String)
    ensures
        r@ == strip_tail_spec(
            text@,
            match printed {
                Some(p) => Some(p.raw@),
                None => None,
            },
        ),
{
    let chars = chars_of(text);
    let e = trimmed_end(chars.as_slice(), CharClass::Space);
    let remaining = slice_of(chars.as_slice(), 0, e);
    assert(remaining@ == chars@.take(e as int));
    let without = match printed {
        Some(p) => {
            let raw = chars_of(p.raw.as_str());
            if ends_with(remaining.as_slice(), raw.as_slice()) {
                slice_of(remaining.as_slice(), 0, remaining.len() - raw.len())
            } else {
                remaining
            }
        },
        None => remaining,
    };
    let e1 = trimmed_end(without.as_slice(), CharClass::LeaderOrSpace);
    let core = slice_of(without.as_slice(), 0, e1);
    assert(core@ == without@.take(e1 as int));
    let e2 = trimmed_end(core.as_slice(), CharClass::Space);
    let core2 = slice_of(core.as_slice(), 0, e2);
    assert(core2@ == core@.take(e2 as int));
    let b = trimmed_start(core2.as_slice(), CharClass::Space);
    let out = slice_of(core2.as_slice(), b, core2.len());
    assert(out@ == core2@.skip(b as int));
    string_of(out.as_slice())
}

} // verus!

verus! {

// ---------------------------------------------------------------------------
// Contents entry text
// ---------------------------------------------------------------------------

/// The heading of a contents page itself, in any of the supported languages.
pub open spec fn is_contents_keyword(key: Seq<char>) -> bool {
    ||| key == "contents"@
    ||| key == "table of contents"@
    ||| key == "目录"@
    ||| key == "目次"@
    ||| key == "sommaire"@
    ||| key == "indice"@
    ||| key == "índice"@
    ||| key == "inhalt"@
    ||| key == "inhaltsverzeichnis"@
    ||| key == "table des matières"@
    ||| key == "sumário"@
    ||| key == "содержание"@
}

/// Whether a match key names the contents page itself.
pub fn contents_keyword(key: &str) -> (b: bool)
    ensures
        b == is_contents_keyword(key@),
{
    str_eq(key, "contents") || str_eq(key, "table of contents") || str_eq(key, "目录")
        || str_eq(key, "目次") || str_eq(key, "sommaire") || str_eq(key, "indice")
        || str_eq(key, "índice") || str_eq(key, "inhalt") || str_eq(key, "inhaltsverzeichnis")
        || str_eq(key, "table des matières") || str_eq(key, "sumário") || str_eq(key, "содержание")
}

/// A key made only of ASCII digits and spaces: a bare page number.
pub open spec fn digits_and_spaces(key: Seq<char>) -> bool {
    forall|i: int| 0 <= i < key.len() ==> #[trigger] is_ascii_digit(key[i]) || key[i] == ' '
}

/// A control character other than a tab.
pub open spec fn has_stray_control(s: Seq<char>) -> bool {
    exists|i: int| 0 <= i < s.len() && #[trigger] is_control_char(s[i]) && s[i] != '\t'
}

/// The printed label that survives: a label without a dot leader counts only
/// when other lines of the page show the same trailing-number column.
pub open spec fn kept_printed(
    joined: Seq<char>,
    printed: Option<(Seq<char>, u32, NumberingFamily)>,
    column_consensus: bool,
) -> Option<(Seq<char>, u32, NumberingFamily)> {
    if printed is Some && !shows_leader_run(joined) && !column_consensus {
        None
    } else {
        printed
    }
}

/// The title of an entry: its joined text without the surviving printed tail.
pub open spec fn entry_title(
    joined: Seq<char>,
    printed: Option<(Seq<char>, u32, NumberingFamily)>,
    column_consensus: bool,
) -> Seq<char> {
    strip_tail_spec(
        joined,
        match kept_printed(joined, printed, column_consensus) {
            Some(p) => Some(p.0),
            None => None,
        },
    )
}

/// Whether a title can be a contents entry at all: it is not blank, not over
/// the byte budget, holds no control character but tabs, and its match key is
/// neither empty, nor a bare number, nor the contents heading itself.
pub open spec fn entry_title_kept(title: Seq<char>, max_title_bytes: u32) -> bool {
    &&& trim_ws(title).len() > 0
    &&& utf8_len(title) <= max_title_bytes
    &&& !has_stray_control(title)
    &&& primary_spec(title).len() > 0
    &&& !digits_and_spaces(primary_spec(title))
    &&& !is_contents_keyword(primary_spec(title))
}

/// The reason codes an entry carries from parsing.
pub open spec fn entry_reasons(
    joined: Seq<char>,
    printed: Option<(Seq<char>, u32, NumberingFamily)>,
    column_consensus: bool,
    merged_lines: u32,
) -> Seq<Seq<char>> {
    let dropped = printed is Some && kept_printed(joined, printed, column_consensus) is None;
    let a: Seq<Seq<char>> = if dropped { seq!["printed_page_without_consensus"@] } else { seq![] };
    let b: Seq<Seq<char>> = if merged_lines > 1 { a.push("toc_continuation_merged"@) } else { a };
    if kept_printed(joined, printed, column_consensus) is None { b.push("toc_no_printed_page"@) } else { b }
}

/// The textual part of a parsed contents entry.
#[derive(Debug, Clone)]
pub struct TocEntryText {
    pub raw_title: String,
    pub primary_key: String,
    pub secondary_key: String,
    pub tokens: Vec<String>,
    pub numbering_prefix: Option<String>,
    pub numbering_path: Vec<u32>,
    pub has_leader: bool,
    pub printed: Option<PrintedNumber>,
    pub reason_codes: Vec<String>,
}

/// Turns the joined text of a grouped contents entry (its lines, trimmed and
/// joined with a space) into an entry, or drops it. `printed` is the trailing
/// printed label of the group's last line, `column_consensus` whether at least
/// two lines of the page end in a printed label, and `merged_lines` how many
/// lines were grouped.
#[verifier::loop_isolation(false)]
pub fn toc_entry_text(
    joined: &str,
    printed: Option<PrintedNumber>,
    column_consensus: bool,
    merged_lines: u32,
    max_title_bytes: u32,
) -> (r: Option<TocEntryText>)
    ensures
        r is Some <==> entry_title_kept(
            entry_title(joined@, printed_view(printed), column_consensus),
            max_title_bytes,
        ),
        r matches Some(e) ==> {
            let title = entry_title(joined@, printed_view(printed), column_consensus);
            &&& e.raw_title@ == title
            &&& e.primary_key@ == primary_spec(title)
            &&& e.secondary_key@ == secondary_spec(primary_spec(title))
            &&& views(e.tokens@) == truncated(
                merge_new(
                    tokens_spec(primary_spec(title)),
                    tokens_spec(secondary_spec(primary_spec(title))),
                ),
                512,
            )
            &&& (match e.numbering_prefix {
                Some(t) => Some(t@),
                None => None::<Seq<char>>,
            }) == numbering_spec(title).0
            &&& e.numbering_path@ == numbering_spec(title).1
            &&& e.has_leader == shows_leader_run(joined@)
            &&& printed_view(e.printed) == kept_printed(joined@, printed_view(printed), column_consensus)
            &&& views(e.reason_codes@) == entry_reasons(
                joined@,
                printed_view(printed),
                column_consensus,
                merged_lines,
            )
        },
{
    let has_leader = has_leader_run(joined);
    let mut reason_codes: Vec<String> = Vec::new();
    let mut printed = printed;
    let ghost given = printed_view(printed);
    if printed.is_some() && !has_leader && !column_consensus {
        printed = None;
        push_owned(&mut reason_codes, "printed_page_without_consensus");
    }
    assert(printed_view(printed) == kept_printed(joined@, given, column_consensus));
    let raw_title = strip_printed_tail(joined, printed.as_ref());
    let ghost title = raw_title@;
    assert(title == entry_title(joined@, given, column_consensus));
    let title_chars = chars_of(raw_title.as_str());
    let bare = trimmed(title_chars.as_slice());
    if bare.len() == 0 {
        return None;
    }
    if !utf8_len_at_most(raw_title.as_str(), max_title_bytes as usize) {
        return None;
    }
    let mut i: usize = 0;
    while i < title_chars.len()
        invariant
            i <= title_chars@.len(),
            title_chars@ == title,
            title == entry_title(joined@, given, column_consensus),
            forall|k: int| 0 <= k < i ==> !(#[trigger] is_control_char(title[k]) && title[k] != '\t'),
        decreases title_chars.len() - i,
    {
        if control_char(title_chars[i]) && title_chars[i] != '\t' {
            assert(is_control_char(title[i as int]) && title[i as int] != '\t');
            return None;
        }
        i = i + 1;
    }
    let key = primary_key(raw_title.as_str());
    let key_chars = chars_of(key.as_str());
    if key_chars.len() == 0 {
        return None;
    }
    let mut only_digits = true;
    let mut j: usize = 0;
    while j < key_chars.len()
        invariant
            j <= key_chars@.len(),
            key_chars@ == primary_spec(title),
            only_digits == forall|k: int| 0 <= k < j ==> #[trigger] is_ascii_digit(key_chars@[k]) || key_chars@[k] == ' ',
        decreases key_chars.len() - j,
    {
        let c = key_chars[j];
        let ghost before = only_digits;
        if !(('0' <= c && c <= '9') || c == ' ') {
            only_digits = false;
        }
        assert(is_ascii_digit(key_chars@[j as int]) == ('0' <= c && c <= '9'));
        assert(only_digits == (before && (is_ascii_digit(key_chars@[j as int]) || key_chars@[j as int] == ' ')));
        j = j + 1;
    }
    if only_digits {
        return None;
    }
    if contents_keyword(key.as_str()) {
        return None;
    }
    if merged_lines > 1 {
        push_owned(&mut reason_codes, "toc_continuation_merged");
    }
    if printed.is_none() {
        push_owned(&mut reason_codes, "toc_no_printed_page");
    }
    let (numbering_prefix, numbering_path) = numbering_prefix(raw_title.as_str());
    let secondary = secondary_key(key.as_str());
    let tokens = index_keys(key.as_str(), secondary.as_str());
    Some(TocEntryText {
        raw_title,
        primary_key: key,
        secondary_key: secondary,
        tokens,
        numbering_prefix,
        numbering_path,
        has_leader,
        printed,
        reason_codes,
    })
}

} // verus!
