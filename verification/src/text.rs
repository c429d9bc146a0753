//! Character-level primitives shared by the changelog grammar and the commit
//! classifier: whitespace, trimming, prefixes, searching and line splitting.
//!
//! Every executable function works on `Vec<char>` and is specified over
//! `Seq<char>`, the view that `str` and `String` have.

use vstd::prelude::*;

verus! {

/// `String::push` appends the character to the end of the string.
pub assume_specification[ String::push ](s: &mut String, c: char)
    ensures
        final(s)@ == old(s)@.push(c),
;

/// The characters with the Unicode property `White_Space`.
pub open spec fn is_whitespace(c: char) -> bool {
    ('\u{9}' <= c && c <= '\u{d}') || c == ' ' || c == '\u{85}' || c == '\u{a0}' || c
        == '\u{1680}' || ('\u{2000}' <= c && c <= '\u{200a}') || c == '\u{2028}' || c
        == '\u{2029}' || c == '\u{202f}' || c == '\u{205f}' || c == '\u{3000}'
}

pub fn char_is_whitespace(c: char) -> (r: bool)
    ensures
        r == is_whitespace(c),
{
    ('\u{9}' <= c && c <= '\u{d}') || c == ' ' || c == '\u{85}' || c == '\u{a0}' || c
        == '\u{1680}' || ('\u{2000}' <= c && c <= '\u{200a}') || c == '\u{2028}' || c
        == '\u{2029}' || c == '\u{202f}' || c == '\u{205f}' || c == '\u{3000}'
}

/// `s` without its leading whitespace.
pub open spec fn trim_start(s: Seq<char>) -> Seq<char>
    decreases s.len(),
{
    if s.len() > 0 && is_whitespace(s[0]) {
        trim_start(s.skip(1))
    } else {
        s
    }
}

/// `s` without its trailing whitespace.
pub open spec fn trim_end(s: Seq<char>) -> Seq<char>
    decreases s.len(),
{
    if s.len() > 0 && is_whitespace(s.last()) {
        trim_end(s.drop_last())
    } else {
        s
    }
}

/// `s` without leading and trailing whitespace.
pub open spec fn trim(s: Seq<char>) -> Seq<char> {
    trim_end(trim_start(s))
}

/// Whether `s` holds nothing but whitespace.
pub open spec fn is_blank(s: Seq<char>) -> bool {
    trim(s).len() == 0
}

/// Whether `s` is already trimmed: it neither starts nor ends with whitespace.
pub open spec fn is_trimmed(s: Seq<char>) -> bool {
    s.len() > 0 ==> !is_whitespace(s[0]) && !is_whitespace(s.last())
}

pub open spec fn has_prefix(s: Seq<char>, p: Seq<char>) -> bool {
    p.len() <= s.len() && s.take(p.len() as int) == p
}

/// `s` without the prefix `p` when it has it, else `s` itself.
pub open spec fn strip_prefix(s: Seq<char>, p: Seq<char>) -> Seq<char> {
    if has_prefix(s, p) {
        s.skip(p.len() as int)
    } else {
        s
    }
}

/// The index of the first `c` in `s`, or `s.len()` when there is none.
pub open spec fn index_of(s: Seq<char>, c: char) -> int
    decreases s.len(),
{
    if s.len() == 0 || s[0] == c {
        0
    } else {
        1 + index_of(s.skip(1), c)
    }
}

/// Whether `p` occurs in `s` at index `i`.
pub open spec fn occurs_at(s: Seq<char>, p: Seq<char>, i: int) -> bool {
    0 <= i && i + p.len() <= s.len() && s.subrange(i, i + p.len()) == p
}

/// The index of the first occurrence of `p` in `s`, or `s.len()` when `p`
/// does not occur (an empty `p` occurs at 0).
pub open spec fn find(s: Seq<char>, p: Seq<char>) -> int
    decreases s.len(),
{
    if has_prefix(s, p) {
        0
    } else if s.len() == 0 {
        0
    } else {
        1 + find(s.skip(1), p)
    }
}

pub open spec fn contains(s: Seq<char>, p: Seq<char>) -> bool {
    exists|i: int| occurs_at(s, p, i)
}

/// `s` with every non-overlapping occurrence of the non-empty `p`, taken
/// from the left, replaced by `to`.
pub open spec fn replace_all(s: Seq<char>, p: Seq<char>, to: Seq<char>) -> Seq<char>
    decreases s.len(),
{
    if p.len() == 0 || s.len() == 0 {
        s
    } else if has_prefix(s, p) {
        to + replace_all(s.skip(p.len() as int), p, to)
    } else {
        seq![s[0]] + replace_all(s.skip(1), p, to)
    }
}

/// The lines of `s`: the pieces between line feeds.
pub open spec fn split_lines(s: Seq<char>) -> Seq<Seq<char>>
    decreases s.len(),
{
    let i = index_of(s, '\n');
    if i < 0 || i >= s.len() {
        seq![s]
    } else {
        seq![s.take(i)] + split_lines(s.skip(i + 1))
    }
}

/// The first line of `s`.
pub open spec fn first_line(s: Seq<char>) -> Seq<char> {
    s.take(index_of(s, '\n'))
}

/// Strict lexicographic order on character sequences, which is the order
/// of the strings they spell.
pub open spec fn text_lt(a: Seq<char>, b: Seq<char>) -> bool
    decreases a.len(),
{
    if b.len() == 0 {
        false
    } else if a.len() == 0 {
        true
    } else if a[0] != b[0] {
        a[0] < b[0]
    } else {
        text_lt(a.skip(1), b.skip(1))
    }
}

/// The views of a vector of character vectors.
pub open spec fn views(v: Seq<Vec<char>>) -> Seq<Seq<char>> {
    Seq::new(v.len(), |i: int| v[i]@)
}

/// The views of a vector of strings.
pub open spec fn string_views(v: Seq<String>) -> Seq<Seq<char>> {
    Seq::new(v.len(), |i: int| v[i]@)
}

pub proof fn lemma_index_of_bounds(s: Seq<char>, c: char)
    ensures
        0 <= index_of(s, c) <= s.len(),
        index_of(s, c) < s.len() ==> s[index_of(s, c)] == c,
        forall|i: int| 0 <= i < index_of(s, c) ==> s[i] != c,
    decreases s.len(),
{
    if s.len() == 0 || s[0] == c {
    } else {
        lemma_index_of_bounds(s.skip(1), c);
        assert forall|i: int| 0 <= i < index_of(s, c) implies s[i] != c by {
            if i > 0 {
                assert(s.skip(1)[i - 1] == s[i]);
            }
        }
    }
}

/// The first index that holds `c` after a run without it is `index_of`.
pub proof fn lemma_index_of_is(s: Seq<char>, c: char, k: int)
    requires
        0 <= k <= s.len(),
        forall|i: int| 0 <= i < k ==> s[i] != c,
        k < s.len() ==> s[k] == c,
    ensures
        index_of(s, c) == k,
    decreases s.len(),
{
    if s.len() == 0 || s[0] == c {
    } else {
        assert forall|i: int| 0 <= i < k - 1 implies s.skip(1)[i] != c by {
            assert(s.skip(1)[i] == s[i + 1]);
        }
        lemma_index_of_is(s.skip(1), c, k - 1);
    }
}

pub proof fn lemma_trim_start_is(s: Seq<char>, k: int)
    requires
        0 <= k <= s.len(),
        forall|i: int| 0 <= i < k ==> is_whitespace(s[i]),
        k < s.len() ==> !is_whitespace(s[k]),
    ensures
        trim_start(s) == s.skip(k),
    decreases k,
{
    if k == 0 {
        assert(s.skip(0) == s);
    } else {
        assert forall|i: int| 0 <= i < k - 1 implies is_whitespace(s.skip(1)[i]) by {
            assert(s.skip(1)[i] == s[i + 1]);
        }
        lemma_trim_start_is(s.skip(1), k - 1);
        assert(s.skip(1).skip(k - 1) == s.skip(k));
    }
}

pub proof fn lemma_trim_end_is(s: Seq<char>, k: int)
    requires
        0 <= k <= s.len(),
        forall|i: int| k <= i < s.len() ==> is_whitespace(s[i]),
        k > 0 ==> !is_whitespace(s[k - 1]),
    ensures
        trim_end(s) == s.take(k),
    decreases s.len() - k,
{
    if k == s.len() {
        assert(s.take(k) == s);
    } else {
        lemma_trim_end_is(s.drop_last(), k);
        assert(s.drop_last().take(k) == s.take(k));
    }
}

/// A trimmed sequence has no whitespace at either end, and trimming leaves
/// a trimmed sequence as it is.
pub proof fn lemma_trim_is_trimmed(s: Seq<char>)
    ensures
        is_trimmed(trim(s)),
        is_trimmed(s) ==> trim(s) == s,
        trim(s).len() <= s.len(),
{
    lemma_trim_start_shape(s);
    lemma_trim_end_shape(trim_start(s));
}

pub proof fn lemma_trim_start_shape(s: Seq<char>)
    ensures
        trim_start(s).len() <= s.len(),
        trim_start(s).len() > 0 ==> !is_whitespace(trim_start(s)[0]),
        trim_start(s) == s.skip(s.len() - trim_start(s).len()),
        forall|i: int| 0 <= i < s.len() - trim_start(s).len() ==> is_whitespace(s[i]),
    decreases s.len(),
{
    if s.len() > 0 && is_whitespace(s[0]) {
        let t = s.skip(1);
        lemma_trim_start_shape(t);
        let k = t.len() - trim_start(t).len();
        assert(t.skip(k) == s.skip(k + 1));
        assert forall|i: int| 0 <= i < s.len() - trim_start(s).len() implies is_whitespace(
            s[i],
        ) by {
            if i > 0 {
                assert(t[i - 1] == s[i]);
            }
        }
    } else {
        assert(s.skip(0) == s);
    }
}

pub proof fn lemma_trim_end_shape(s: Seq<char>)
    ensures
        trim_end(s).len() <= s.len(),
        trim_end(s).len() > 0 ==> !is_whitespace(trim_end(s).last()),
        trim_end(s) == s.take(trim_end(s).len() as int),
        forall|i: int| trim_end(s).len() <= i < s.len() ==> is_whitespace(s[i]),
    decreases s.len(),
{
    if s.len() > 0 && is_whitespace(s.last()) {
        let t = s.drop_last();
        lemma_trim_end_shape(t);
        assert(t.take(trim_end(t).len() as int) == s.take(trim_end(t).len() as int));
        assert forall|i: int| trim_end(s).len() <= i < s.len() implies is_whitespace(s[i]) by {
            if i < t.len() {
                assert(t[i] == s[i]);
            }
        }
    } else {
        assert(s.take(s.len() as int) == s);
    }
}

/// A copy of `v[from..to]`.
pub fn slice_of(v: &Vec<char>, from: usize, to: usize) -> (r: Vec<char>)
    requires
        from <= to <= v.len(),
    ensures
        r@ == v@.subrange(from as int, to as int),
{
    let mut r: Vec<char> = Vec::new();
    let mut i: usize = from;
    while i < to
        invariant
            from <= i <= to <= v.len(),
            r@ == v@.subrange(from as int, i as int),
        decreases to - i,
    {
        r.push(v[i]);
        i += 1;
        assert(r@ == v@.subrange(from as int, i as int));
    }
    r
}

/// The characters of a string.
pub fn to_chars(s: &str) -> (v: Vec<char>)
    ensures
        v@ == s@,
{
    let mut v: Vec<char> = Vec::new();
    for c in it: s.chars()
        invariant
            v@ == it.seq().take(it.index() as int),
            it.seq() == s@,
    {
        v.push(c);
    }
    v
}

/// The string that the characters spell.
pub fn from_chars(v: &Vec<char>) -> (s: String)
    ensures
        s@ == v@,
{
    let mut s = String::new();
    let mut i: usize = 0;
    while i < v.len()
        invariant
            i <= v.len(),
            s@ == v@.take(i as int),
        decreases v.len() - i,
    {
        s.push(v[i]);
        i += 1;
    }
    s
}

/// Appends the characters of `src` to `dst`.
pub fn push_all(dst: &mut Vec<char>, src: &Vec<char>)
    ensures
        final(dst)@ == old(dst)@ + src@,
{
    let mut i: usize = 0;
    while i < src.len()
        invariant
            i <= src.len(),
            dst@ == old(dst)@ + src@.take(i as int),
        decreases src.len() - i,
    {
        dst.push(src[i]);
        i += 1;
        assert(dst@ == old(dst)@ + src@.take(i as int));
    }
    assert(src@.take(src.len() as int) == src@);
}

/// Whether two strings spell the same characters.
pub fn same_text(a: &str, b: &str) -> (r: bool)
    ensures
        r == (a@ == b@),
{
    let x = to_chars(a);
    let y = to_chars(b);
    same_chars(&x, &y)
}

pub fn same_chars(a: &Vec<char>, b: &Vec<char>) -> (r: bool)
    ensures
        r == (a@ == b@),
{
    if a.len() != b.len() {
        return false;
    }
    let mut i: usize = 0;
    while i < a.len()
        invariant
            i <= a.len(),
            a.len() == b.len(),
            a@.take(i as int) == b@.take(i as int),
        decreases a.len() - i,
    {
        if a[i] != b[i] {
            return false;
        }
        i += 1;
        assert(a@.take(i as int) == a@.take(i - 1).push(a@[i - 1]));
        assert(b@.take(i as int) == b@.take(i - 1).push(b@[i - 1]));
    }
    assert(a@.take(a.len() as int) == a@);
    assert(b@.take(b.len() as int) == b@);
    true
}

/// Whether `v` starts with `p` at index `at`.
pub fn matches_at(v: &Vec<char>, p: &Vec<char>, at: usize) -> (r: bool)
    requires
        at <= v.len(),
    ensures
        r == has_prefix(v@.skip(at as int), p@),
{
    if p.len() > v.len() - at {
        return false;
    }
    let mut i: usize = 0;
    while i < p.len()
        invariant
            i <= p.len(),
            at + p.len() <= v.len(),
            v@.skip(at as int).take(i as int) == p@.take(i as int),
        decreases p.len() - i,
    {
        if v[at + i] != p[i] {
            assert(v@.skip(at as int).take(p.len() as int)[i as int] != p@[i as int]);
            return false;
        }
        i += 1;
        assert(v@.skip(at as int).take(i as int) == v@.skip(at as int).take(i - 1).push(
            v@[at + i - 1],
        ));
        assert(p@.take(i as int) == p@.take(i - 1).push(p@[i - 1]));
    }
    assert(p@.take(p.len() as int) == p@);
    true
}

pub fn starts_with(v: &Vec<char>, p: &str) -> (r: bool)
    ensures
        r == has_prefix(v@, p@),
{
    let pat = to_chars(p);
    assert(v@.skip(0) == v@);
    matches_at(v, &pat, 0)
}

/// The input without leading and trailing whitespace.
pub fn trimmed(v: &Vec<char>) -> (r: Vec<char>)
    ensures
        r@ == trim(v@),
{
    let mut start: usize = 0;
    while start < v.len() && char_is_whitespace(v[start])
        invariant
            start <= v.len(),
            forall|i: int| 0 <= i < start ==> is_whitespace(v@[i]),
        decreases v.len() - start,
    {
        start += 1;
    }
    let mut end: usize = v.len();
    while end > start && char_is_whitespace(v[end - 1])
        invariant
            start <= end <= v.len(),
            forall|i: int| end <= i < v.len() ==> is_whitespace(v@[i]),
        decreases end,
    {
        end -= 1;
    }
    proof {
        lemma_trim_start_is(v@, start as int);
        let t = v@.skip(start as int);
        assert forall|i: int| end - start <= i < t.len() implies is_whitespace(t[i]) by {
            assert(t[i] == v@[i + start]);
        }
        lemma_trim_end_is(t, end - start);
        assert(t.take(end - start) == v@.subrange(start as int, end as int));
    }
    slice_of(v, start, end)
}

/// The input without trailing whitespace.
pub fn trimmed_end(v: &Vec<char>) -> (r: Vec<char>)
    ensures
        r@ == trim_end(v@),
{
    let mut end: usize = v.len();
    while end > 0 && char_is_whitespace(v[end - 1])
        invariant
            end <= v.len(),
            forall|i: int| end <= i < v.len() ==> is_whitespace(v@[i]),
        decreases end,
    {
        end -= 1;
    }
    proof {
        lemma_trim_end_is(v@, end as int);
        assert(v@.take(end as int) == v@.subrange(0, end as int));
    }
    slice_of(v, 0, end)
}

/// The index of the first `c` in `v`, or `v.len()`.
pub fn position_of(v: &Vec<char>, c: char) -> (r: usize)
    ensures
        r == index_of(v@, c),
        r <= v.len(),
{
    let mut i: usize = 0;
    while i < v.len() && v[i] != c
        invariant
            i <= v.len(),
            forall|j: int| 0 <= j < i ==> v@[j] != c,
        decreases v.len() - i,
    {
        i += 1;
    }
    proof {
        lemma_index_of_is(v@, c, i as int);
    }
    i
}

pub proof fn lemma_find_bounds(s: Seq<char>, p: Seq<char>)
    ensures
        0 <= find(s, p) <= s.len(),
        find(s, p) < s.len() || p.len() == 0 ==> occurs_at(s, p, find(s, p)),
        forall|i: int| 0 <= i < find(s, p) ==> !occurs_at(s, p, i),
        find(s, p) == s.len() && p.len() > 0 ==> !contains(s, p),
    decreases s.len(),
{
    if p.len() == 0 {
        assert(s.take(0) =~= p);
    }
    if has_prefix(s, p) {
        assert(s.subrange(0, p.len() as int) == s.take(p.len() as int));
    } else if s.len() == 0 {
        assert forall|i: int| !occurs_at(s, p, i) by {
            if occurs_at(s, p, i) {
                assert(s.subrange(0, 0) == s.take(0));
            }
        }
    } else {
        let t = s.skip(1);
        lemma_find_bounds(t, p);
        let k = find(t, p);
        if k < t.len() || p.len() == 0 {
            assert(t.subrange(k, k + p.len()) == s.subrange(k + 1, k + 1 + p.len()));
        }
        assert forall|i: int| 0 <= i < find(s, p) implies !occurs_at(s, p, i) by {
            if i == 0 {
                if occurs_at(s, p, 0) {
                    assert(s.subrange(0, p.len() as int) == s.take(p.len() as int));
                }
            } else if occurs_at(s, p, i) {
                assert(t.subrange(i - 1, i - 1 + p.len()) == s.subrange(i, i + p.len()));
                assert(occurs_at(t, p, i - 1));
            }
        }
        if find(s, p) == s.len() && p.len() > 0 {
            assert forall|i: int| !occurs_at(s, p, i) by {
                if occurs_at(s, p, i) {
                    assert(i < s.len());
                }
            }
        }
    }
}

/// The first occurrence found after a run of positions without one is `find`.
pub proof fn lemma_find_is(s: Seq<char>, p: Seq<char>, k: int)
    requires
        0 <= k <= s.len(),
        forall|i: int| 0 <= i < k ==> !has_prefix(s.skip(i), p),
        k < s.len() ==> has_prefix(s.skip(k), p),
    ensures
        find(s, p) == k,
    decreases k,
{
    assert(s.skip(0) == s);
    if k == 0 {
    } else {
        assert forall|i: int| 0 <= i < k - 1 implies !has_prefix(s.skip(1).skip(i), p) by {
            assert(s.skip(1).skip(i) == s.skip(i + 1));
        }
        if k < s.len() {
            assert(s.skip(1).skip(k - 1) == s.skip(k));
        }
        lemma_find_is(s.skip(1), p, k - 1);
    }
}

/// The index of the first occurrence of `p` in `v`, or `v.len()`.
pub fn find_in(v: &Vec<char>, p: &Vec<char>) -> (r: usize)
    ensures
        r == find(v@, p@),
        r <= v.len(),
{
    let mut i: usize = 0;
    while i < v.len()
        invariant
            i <= v.len(),
            forall|j: int| 0 <= j < i ==> !has_prefix(v@.skip(j), p@),
        decreases v.len() - i,
    {
        if matches_at(v, p, i) {
            proof {
                lemma_find_is(v@, p@, i as int);
            }
            return i;
        }
        i += 1;
    }
    proof {
        lemma_find_is(v@, p@, i as int);
    }
    i
}

/// Whether `p` occurs somewhere in `v`.
pub fn contains_text(v: &Vec<char>, p: &str) -> (r: bool)
    ensures
        r == contains(v@, p@),
{
    let pat = to_chars(p);
    let at = find_in(v, &pat);
    proof {
        lemma_find_bounds(v@, p@);
        if pat.len() == 0 {
            assert(occurs_at(v@, p@, find(v@, p@)));
        }
    }
    at < v.len() || pat.len() == 0
}

/// The character of a decimal digit.
pub open spec fn digit_char(d: nat) -> char {
    if d == 0 {
        '0'
    } else if d == 1 {
        '1'
    } else if d == 2 {
        '2'
    } else if d == 3 {
        '3'
    } else if d == 4 {
        '4'
    } else if d == 5 {
        '5'
    } else if d == 6 {
        '6'
    } else if d == 7 {
        '7'
    } else if d == 8 {
        '8'
    } else {
        '9'
    }
}

pub open spec fn is_digit(c: char) -> bool {
    '0' <= c && c <= '9'
}

/// The decimal numeral of `n`, without leading zeros.
pub open spec fn decimal(n: nat) -> Seq<char>
    decreases n,
{
    if n < 10 {
        seq![digit_char(n)]
    } else {
        decimal(n / 10).push(digit_char(n % 10))
    }
}

/// A numeral is a non-empty run of digits.
pub proof fn lemma_decimal_digits(n: nat)
    ensures
        decimal(n).len() > 0,
        forall|i: int| 0 <= i < decimal(n).len() ==> is_digit(#[trigger] decimal(n)[i]),
    decreases n,
{
    if n >= 10 {
        lemma_decimal_digits(n / 10);
    }
}

/// Different numbers have different numerals.
pub proof fn lemma_decimal_injective(n: nat, m: nat)
    requires
        decimal(n) == decimal(m),
    ensures
        n == m,
    decreases n,
{
    lemma_decimal_digits(n / 10);
    lemma_decimal_digits(m / 10);
    if n < 10 && m < 10 {
        assert(decimal(n)[0] == digit_char(n));
        assert(decimal(m)[0] == digit_char(m));
    } else if n >= 10 && m >= 10 {
        let a = decimal(n / 10);
        let b = decimal(m / 10);
        assert(a.push(digit_char(n % 10)).drop_last() == a);
        assert(b.push(digit_char(m % 10)).drop_last() == b);
        assert(a.push(digit_char(n % 10)).last() == digit_char(n % 10));
        assert(b.push(digit_char(m % 10)).last() == digit_char(m % 10));
        lemma_decimal_injective(n / 10, m / 10);
    } else if n < 10 {
        assert(decimal(n).len() == 1);
        assert(decimal(m).len() == decimal(m / 10).len() + 1);
    } else {
        assert(decimal(m).len() == 1);
        assert(decimal(n).len() == decimal(n / 10).len() + 1);
    }
}

/// Two texts that are each a run of characters of one sort, followed by
/// nothing or by a character of another sort, are the same only if their
/// runs are the same and what follows them is.
pub proof fn lemma_split_run(
    sort: spec_fn(char) -> bool,
    run1: Seq<char>,
    rest1: Seq<char>,
    run2: Seq<char>,
    rest2: Seq<char>,
)
    requires
        forall|i: int| 0 <= i < run1.len() ==> sort(#[trigger] run1[i]),
        forall|i: int| 0 <= i < run2.len() ==> sort(#[trigger] run2[i]),
        rest1.len() > 0 ==> !sort(rest1[0]),
        rest2.len() > 0 ==> !sort(rest2[0]),
        run1 + rest1 == run2 + rest2,
    ensures
        run1 == run2,
        rest1 == rest2,
{
    let whole = run1 + rest1;
    if run1.len() < run2.len() {
        assert((run1 + rest1).len() == (run2 + rest2).len());
        assert(whole[run1.len() as int] == rest1[0]);
        assert((run2 + rest2)[run1.len() as int] == run2[run1.len() as int]);
    } else if run2.len() < run1.len() {
        assert((run1 + rest1).len() == (run2 + rest2).len());
        assert((run2 + rest2)[run2.len() as int] == rest2[0]);
        assert(whole[run2.len() as int] == run1[run2.len() as int]);
    }
    assert(whole.take(run1.len() as int) =~= run1);
    assert((run2 + rest2).take(run2.len() as int) =~= run2);
    assert(whole.skip(run1.len() as int) =~= rest1);
    assert((run2 + rest2).skip(run2.len() as int) =~= rest2);
}

fn digit_of(d: u64) -> (c: char)
    requires
        d < 10,
    ensures
        c == digit_char(d as nat),
{
    if d == 0 {
        '0'
    } else if d == 1 {
        '1'
    } else if d == 2 {
        '2'
    } else if d == 3 {
        '3'
    } else if d == 4 {
        '4'
    } else if d == 5 {
        '5'
    } else if d == 6 {
        '6'
    } else if d == 7 {
        '7'
    } else if d == 8 {
        '8'
    } else {
        '9'
    }
}

/// The decimal numeral of `n`.
pub fn decimal_chars(n: u64) -> (r: Vec<char>)
    ensures
        r@ == decimal(n as nat),
    decreases n,
{
    if n < 10 {
        let mut r: Vec<char> = Vec::new();
        r.push(digit_of(n));
        r
    } else {
        let mut r = decimal_chars(n / 10);
        r.push(digit_of(n % 10));
        r
    }
}

/// Whether `a` comes before `b` in lexicographic order.
pub fn chars_lt(a: &Vec<char>, b: &Vec<char>) -> (r: bool)
    ensures
        r == text_lt(a@, b@),
{
    let mut i: usize = 0;
    proof {
        assert(a@.skip(0) == a@);
        assert(b@.skip(0) == b@);
    }
    while i < a.len() && i < b.len()
        invariant
            i <= a.len(),
            i <= b.len(),
            text_lt(a@, b@) == text_lt(a@.skip(i as int), b@.skip(i as int)),
        decreases a.len() - i,
    {
        proof {
            assert(a@.skip(i as int)[0] == a@[i as int]);
            assert(b@.skip(i as int)[0] == b@[i as int]);
            assert(a@.skip(i as int).skip(1) == a@.skip(i + 1));
            assert(b@.skip(i as int).skip(1) == b@.skip(i + 1));
        }
        if a[i] != b[i] {
            return a[i] < b[i];
        }
        i += 1;
    }
    i < b.len()
}

pub proof fn lemma_text_lt_irreflexive(a: Seq<char>)
    ensures
        !text_lt(a, a),
    decreases a.len(),
{
    if a.len() > 0 {
        lemma_text_lt_irreflexive(a.skip(1));
    }
}

pub proof fn lemma_text_lt_transitive(a: Seq<char>, b: Seq<char>, c: Seq<char>)
    requires
        text_lt(a, b),
        text_lt(b, c),
    ensures
        text_lt(a, c),
    decreases a.len(),
{
    if a.len() > 0 && b.len() > 0 && c.len() > 0 && a[0] == b[0] && b[0] == c[0] {
        lemma_text_lt_transitive(a.skip(1), b.skip(1), c.skip(1));
    }
}

/// Of two different sequences one comes before the other.
pub proof fn lemma_text_lt_total(a: Seq<char>, b: Seq<char>)
    ensures
        text_lt(a, b) || text_lt(b, a) || a == b,
    decreases a.len(),
{
    if a.len() == 0 || b.len() == 0 {
        if a.len() == 0 && b.len() == 0 {
            assert(a =~= b);
        }
    } else if a[0] == b[0] {
        lemma_text_lt_total(a.skip(1), b.skip(1));
        if a.skip(1) == b.skip(1) {
            assert(a =~= seq![a[0]] + a.skip(1));
            assert(b =~= seq![b[0]] + b.skip(1));
        }
    }
}

/// Unfolds `replace_all` at a position where the pattern does not start.
pub proof fn lemma_replace_all_skip(s: Seq<char>, p: Seq<char>, to: Seq<char>, i: int)
    requires
        0 <= i < s.len(),
        p.len() > 0,
        !has_prefix(s.skip(i), p),
    ensures
        replace_all(s.skip(i), p, to) == seq![s[i]] + replace_all(s.skip(i + 1), p, to),
{
    assert(s.skip(i)[0] == s[i]);
    assert(s.skip(i).skip(1) == s.skip(i + 1));
}

/// Unfolds `replace_all` at a position where the pattern starts.
pub proof fn lemma_replace_all_match(s: Seq<char>, p: Seq<char>, to: Seq<char>, i: int)
    requires
        0 <= i < s.len(),
        p.len() > 0,
        has_prefix(s.skip(i), p),
    ensures
        replace_all(s.skip(i), p, to) == to + replace_all(s.skip(i + p.len()), p, to),
{
    assert(s.skip(i).skip(p.len() as int) == s.skip(i + p.len()));
}

/// `v` with every occurrence of `p` replaced by `to`.
pub fn replaced(v: &Vec<char>, p: &Vec<char>, to: &Vec<char>) -> (r: Vec<char>)
    ensures
        r@ == replace_all(v@, p@, to@),
{
    let mut out: Vec<char> = Vec::new();
    if p.len() == 0 {
        push_all(&mut out, v);
        assert(out@ =~= v@);
        return out;
    }
    let mut i: usize = 0;
    proof {
        assert(v@.skip(0) == v@);
        assert(out@ + replace_all(v@, p@, to@) =~= replace_all(v@, p@, to@));
    }
    while i < v.len()
        invariant
            i <= v.len(),
            p.len() > 0,
            replace_all(v@, p@, to@) == out@ + replace_all(v@.skip(i as int), p@, to@),
        decreases v.len() - i,
    {
        let ghost before = out@;
        if matches_at(v, p, i) {
            proof {
                lemma_replace_all_match(v@, p@, to@, i as int);
            }
            push_all(&mut out, to);
            i += p.len();
            assert(before + (to@ + replace_all(v@.skip(i as int), p@, to@)) =~= out@
                + replace_all(v@.skip(i as int), p@, to@));
        } else {
            proof {
                lemma_replace_all_skip(v@, p@, to@, i as int);
            }
            out.push(v[i]);
            i += 1;
            assert(before + (seq![v@[i - 1]] + replace_all(v@.skip(i as int), p@, to@)) =~= out@
                + replace_all(v@.skip(i as int), p@, to@));
        }
    }
    assert(v@.skip(v.len() as int) =~= Seq::<char>::empty());
    assert(out@ + Seq::<char>::empty() =~= out@);
    out
}

/// Unfolds `split_lines` over a first line that ends at index `k`.
pub proof fn lemma_split_lines_step(s: Seq<char>, k: int)
    requires
        0 <= k < s.len(),
        s[k] == '\n',
        forall|i: int| 0 <= i < k ==> s[i] != '\n',
    ensures
        split_lines(s) == seq![s.take(k)] + split_lines(s.skip(k + 1)),
{
    lemma_index_of_is(s, '\n', k);
}

/// A text without a line feed is its own single line.
pub proof fn lemma_split_lines_last(s: Seq<char>)
    requires
        forall|i: int| 0 <= i < s.len() ==> s[i] != '\n',
    ensures
        split_lines(s) == seq![s],
{
    lemma_index_of_is(s, '\n', s.len() as int);
}

/// The lines of a text.
pub fn lines_of(v: &Vec<char>) -> (r: Vec<Vec<char>>)
    ensures
        views(r@) == split_lines(v@),
        r.len() >= 1,
{
    let mut lines: Vec<Vec<char>> = Vec::new();
    let mut start: usize = 0;
    let mut i: usize = 0;
    proof {
        assert(v@.skip(0) == v@);
        assert(views(lines@) + split_lines(v@) =~= split_lines(v@));
    }
    while i < v.len()
        invariant
            start <= i <= v.len(),
            split_lines(v@) == views(lines@) + split_lines(v@.skip(start as int)),
            forall|j: int| start <= j < i ==> v@[j] != '\n',
        decreases v.len() - i,
    {
        if v[i] == '\n' {
            let line = slice_of(v, start, i);
            proof {
                let rest = v@.skip(start as int);
                assert forall|j: int| 0 <= j < i - start implies rest[j] != '\n' by {
                    assert(rest[j] == v@[start + j]);
                }
                lemma_split_lines_step(rest, i - start);
                assert(rest.take(i - start) == line@);
                assert(rest.skip(i - start + 1) == v@.skip(i + 1));
                assert(views(lines@.push(line)) =~= views(lines@) + seq![line@]);
            }
            lines.push(line);
            start = i + 1;
        }
        i += 1;
    }
    let line = slice_of(v, start, v.len());
    proof {
        let rest = v@.skip(start as int);
        assert forall|j: int| 0 <= j < rest.len() implies rest[j] != '\n' by {
            assert(rest[j] == v@[start + j]);
        }
        lemma_split_lines_last(rest);
        assert(rest == line@);
        assert(views(lines@.push(line)) =~= views(lines@) + seq![line@]);
    }
    lines.push(line);
    lines
}

/// The characters of `a` followed by those of `b`.
pub fn joined(a: &str, b: &str) -> (r: String)
    ensures
        r@ == a@ + b@,
{
    let mut out = to_chars(a);
    let tail = to_chars(b);
    push_all(&mut out, &tail);
    from_chars(&out)
}

/// What occurs in a text occurs in every text around it.
pub proof fn lemma_contains_within(a: Seq<char>, b: Seq<char>, c: Seq<char>, p: Seq<char>)
    requires
        contains(b, p),
    ensures
        contains(a + b + c, p),
{
    let i = choose|i: int| occurs_at(b, p, i);
    let whole = a + b + c;
    assert(whole.subrange(a.len() + i, a.len() + i + p.len()) =~= b.subrange(i, i + p.len()));
    assert(occurs_at(whole, p, a.len() + i));
}

} // verus!
