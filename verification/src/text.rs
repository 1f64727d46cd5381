//! Strings as sequences of characters: conversion, search and decimal numbers.

use vstd::prelude::*;
use vstd::slice::slice_subrange;

verus! {

/// The characters of `s`, in order.
pub fn chars_of(s: &str) -> (v: Vec<char>)
    ensures
        v@ == s@,
{
    let mut v: Vec<char> = Vec::new();
    for c in it: s.chars()
        invariant
            v@ == it.seq().take(it.index() as int),
            it.seq() == s@,
    {
        v.push(c);
    }
    v
}

/// `String::push` of std: the string grows by the one character `c` at its end.
#[verifier::external_body]
pub(crate) fn append_char(s: &mut String, c: char)
    ensures
        final(s)@ == old(s)@.push(c),
{
    s.push(c);
}

/// Appends the characters `chars[from..to]` to `out`.
pub fn append_range(out: &mut String, chars: &[char], from: usize, to: usize)
    requires
        from <= to <= chars@.len(),
    ensures
        final(out)@ == old(out)@ + chars@.subrange(from as int, to as int),
{
    let mut i: usize = from;
    while i < to
        invariant
            from <= i <= to <= chars@.len(),
            out@ == old(out)@ + chars@.subrange(from as int, i as int),
        decreases to - i,
    {
        append_char(out, chars[i]);
        i += 1;
    }
}

/// The string made of the characters `chars[from..to]`.
pub fn string_of(chars: &[char], from: usize, to: usize) -> (s: String)
    requires
        from <= to <= chars@.len(),
    ensures
        s@ == chars@.subrange(from as int, to as int),
{
    let mut s = String::new();
    append_range(&mut s, chars, from, to);
    s
}

/// `pattern` stands in `s` at position `at`.
pub open spec fn occurs_at(s: Seq<char>, pattern: Seq<char>, at: int) -> bool {
    &&& 0 <= at
    &&& at + pattern.len() <= s.len()
    &&& s.subrange(at, at + pattern.len()) == pattern
}

/// Whether `pattern` stands in `s` at position `at`.
pub fn matches_at(s: &[char], pattern: &[char], at: usize) -> (r: bool)
    ensures
        r == occurs_at(s@, pattern@, at as int),
{
    if pattern.len() > s.len() || at > s.len() - pattern.len() {
        return false;
    }
    let mut i: usize = 0;
    while i < pattern.len()
        invariant
            at + pattern.len() <= s.len(),
            i <= pattern.len(),
            forall|k: int| 0 <= k < i ==> s@[at + k] == pattern@[k],
        decreases pattern.len() - i,
    {
        if s[at + i] != pattern[i] {
            assert(s@.subrange(at as int, at + pattern@.len())[i as int] != pattern@[i as int]);
            return false;
        }
        i += 1;
    }
    assert(s@.subrange(at as int, at + pattern@.len()) =~= pattern@);
    true
}

/// Whether the characters `s` spell `word`.
pub fn spells(s: &[char], word: &str) -> (r: bool)
    ensures
        r == (s@ == word@),
{
    let letters = chars_of(word);
    if s.len() != letters.len() {
        return false;
    }
    let r = matches_at(s, letters.as_slice(), 0);
    assert(s@.subrange(0, s@.len() as int) =~= s@);
    r
}

/// The position of the first `c` in `s`, or the length of `s` if it holds none.
pub open spec fn position_of(s: Seq<char>, c: char) -> int
    decreases s.len(),
{
    if s.len() == 0 {
        0
    } else if s[0] == c {
        0
    } else {
        1 + position_of(s.drop_first(), c)
    }
}

/// `position_of` is the least position that holds `c`.
pub proof fn lemma_position_of(s: Seq<char>, c: char)
    ensures
        0 <= position_of(s, c) <= s.len(),
        position_of(s, c) < s.len() ==> s[position_of(s, c)] == c,
        forall|i: int| 0 <= i < position_of(s, c) ==> s[i] != c,
    decreases s.len(),
{
    if s.len() > 0 && s[0] != c {
        let rest = s.drop_first();
        lemma_position_of(rest, c);
        assert forall|i: int| 0 <= i < position_of(s, c) implies s[i] != c by {
            if i > 0 {
                assert(s[i] == rest[i - 1]);
            }
        }
    }
}

/// A position that holds `c` with no `c` before it is `position_of`; so is the length of a
/// sequence without `c`.
pub proof fn lemma_position_found(s: Seq<char>, c: char, at: int)
    requires
        0 <= at <= s.len(),
        at < s.len() ==> s[at] == c,
        forall|i: int| 0 <= i < at ==> s[i] != c,
    ensures
        position_of(s, c) == at,
{
    lemma_position_of(s, c);
    let p = position_of(s, c);
    if p < at {
        assert(s[p] == c);
    }
}

/// The position of the first `c` in `s`, or the length of `s` if it holds none.
pub fn find_char(s: &[char], c: char) -> (at: usize)
    ensures
        at == position_of(s@, c),
{
    let mut i: usize = 0;
    while i < s.len() && s[i] != c
        invariant
            i <= s.len(),
            forall|k: int| 0 <= k < i ==> s@[k] != c,
        decreases s.len() - i,
    {
        i += 1;
    }
    proof {
        lemma_position_found(s@, c, i as int);
    }
    i
}

/// The parts of `s` between the separators `c`: one part more than there are separators.
pub open spec fn split(s: Seq<char>, c: char) -> Seq<Seq<char>>
    decreases s.len(),
{
    let at = position_of(s, c);
    if 0 <= at < s.len() {
        seq![s.take(at)] + split(s.skip(at + 1), c)
    } else {
        seq![s]
    }
}

/// The strings of a vector as sequences of characters.
pub open spec fn texts(v: Seq<String>) -> Seq<Seq<char>> {
    Seq::new(v.len(), |i: int| v[i]@)
}

/// The parts of `s` between the separators `c`.
pub fn split_at_char(s: &[char], c: char) -> (parts: Vec<String>)
    ensures
        texts(parts@) == split(s@, c),
{
    let mut parts: Vec<String> = Vec::new();
    let mut from: usize = 0;
    assert(s@.skip(0) =~= s@);
    assert(texts(parts@) =~= Seq::<Seq<char>>::empty());
    loop
        invariant
            from <= s.len(),
            split(s@, c) == texts(parts@) + split(s@.skip(from as int), c),
        decreases s.len() - from,
    {
        let rest = slice_subrange(s, from, s.len());
        assert(rest@ =~= s@.skip(from as int));
        let at = find_char(rest, c);
        let ghost before = texts(parts@);
        proof {
            lemma_position_of(rest@, c);
        }
        if at < rest.len() {
            let part = string_of(rest, 0, at);
            assert(part@ =~= rest@.take(at as int));
            parts.push(part);
            assert(texts(parts@) =~= before + seq![rest@.take(at as int)]);
            assert(rest@.skip(at + 1) =~= s@.skip(from + at + 1));
            from = from + at + 1;
        } else {
            let part = string_of(rest, 0, rest.len());
            assert(part@ =~= rest@);
            parts.push(part);
            assert(texts(parts@) =~= before + seq![rest@]);
            return parts;
        }
    }
}

/// The characters that std counts as white space: those with the Unicode property
/// `White_Space`.
pub open spec fn is_whitespace(c: char) -> bool {
    ||| c == ' '
    ||| '\u{9}' <= c <= '\u{d}'
    ||| c == '\u{85}'
    ||| c == '\u{a0}'
    ||| c == '\u{1680}'
    ||| '\u{2000}' <= c <= '\u{200a}'
    ||| c == '\u{2028}'
    ||| c == '\u{2029}'
    ||| c == '\u{202f}'
    ||| c == '\u{205f}'
    ||| c == '\u{3000}'
}

/// Whether `c` is white space.
pub fn whitespace(c: char) -> (r: bool)
    ensures
        r == is_whitespace(c),
{
    c == ' ' || ('\u{9}' <= c && c <= '\u{d}') || c == '\u{85}' || c == '\u{a0}' || c == '\u{1680}'
        || ('\u{2000}' <= c && c <= '\u{200a}') || c == '\u{2028}' || c == '\u{2029}' || c
        == '\u{202f}' || c == '\u{205f}' || c == '\u{3000}'
}

/// `s` without the white space that it starts with.
pub open spec fn trimmed_start(s: Seq<char>) -> Seq<char>
    decreases s.len(),
{
    if s.len() > 0 && is_whitespace(s[0]) {
        trimmed_start(s.drop_first())
    } else {
        s
    }
}

/// `s` without the white space that it ends with.
pub open spec fn trimmed_end(s: Seq<char>) -> Seq<char>
    decreases s.len(),
{
    if s.len() > 0 && is_whitespace(s.last()) {
        trimmed_end(s.drop_last())
    } else {
        s
    }
}

/// `s` without the white space at its start and at its end.
pub open spec fn trimmed(s: Seq<char>) -> Seq<char> {
    trimmed_end(trimmed_start(s))
}

/// The bounds of `s[from..to]` without the white space at its start and at its end.
pub fn trim_bounds(s: &[char], from: usize, to: usize) -> (bounds: (usize, usize))
    requires
        from <= to <= s.len(),
    ensures
        from <= bounds.0 <= bounds.1 <= to,
        s@.subrange(bounds.0 as int, bounds.1 as int) == trimmed(s@.subrange(from as int, to as int)),
{
    let ghost whole = s@.subrange(from as int, to as int);
    let mut a: usize = from;
    while a < to && whitespace(s[a])
        invariant
            from <= a <= to <= s.len(),
            trimmed_start(whole) == trimmed_start(s@.subrange(a as int, to as int)),
        decreases to - a,
    {
        assert(s@.subrange(a as int, to as int).drop_first() =~= s@.subrange(a + 1, to as int));
        a += 1;
    }
    let ghost started = s@.subrange(a as int, to as int);
    assert(trimmed_start(whole) == started);
    let mut b: usize = to;
    while a < b && whitespace(s[b - 1])
        invariant
            a <= b <= to <= s.len(),
            trimmed_end(started) == trimmed_end(s@.subrange(a as int, b as int)),
        decreases b - a,
    {
        assert(s@.subrange(a as int, b as int).drop_last() =~= s@.subrange(a as int, b - 1));
        b -= 1;
    }
    (a, b)
}

/// `s` without the copies of `prefix` that it starts with, one behind the other.
pub open spec fn without_prefixes(s: Seq<char>, prefix: Seq<char>) -> Seq<char>
    decreases s.len(),
{
    if prefix.len() > 0 && occurs_at(s, prefix, 0) {
        without_prefixes(s.skip(prefix.len() as int), prefix)
    } else {
        s
    }
}

/// The position in `s[from..to]` behind the copies of `prefix` that it starts with.
pub fn skip_prefixes(s: &[char], from: usize, to: usize, prefix: &[char]) -> (at: usize)
    requires
        from <= to <= s.len(),
    ensures
        from <= at <= to,
        s@.subrange(at as int, to as int) == without_prefixes(
            s@.subrange(from as int, to as int),
            prefix@,
        ),
{
    let ghost whole = s@.subrange(from as int, to as int);
    let mut at: usize = from;
    if prefix.len() == 0 {
        return at;
    }
    loop
        invariant
            from <= at <= to <= s.len(),
            prefix.len() > 0,
            whole == s@.subrange(from as int, to as int),
            without_prefixes(whole, prefix@) == without_prefixes(
                s@.subrange(at as int, to as int),
                prefix@,
            ),
        decreases to - at,
    {
        let ghost rest = s@.subrange(at as int, to as int);
        let fits = prefix.len() <= to - at;
        let found = fits && matches_at(s, prefix, at);
        if !found {
            proof {
                if occurs_at(rest, prefix@, 0) {
                    assert(rest.subrange(0, prefix@.len() as int) =~= s@.subrange(
                        at as int,
                        at + prefix@.len(),
                    ));
                }
            }
            return at;
        }
        proof {
            assert(rest.subrange(0, prefix@.len() as int) =~= s@.subrange(
                at as int,
                at + prefix@.len(),
            ));
            assert(rest.skip(prefix@.len() as int) =~= s@.subrange(at + prefix@.len(), to as int));
        }
        at += prefix.len();
    }
}

/// The position of the first copy of `pattern` in `s`, or the length of `s` if it holds
/// none.
pub open spec fn first_occurrence(s: Seq<char>, pattern: Seq<char>) -> int
    decreases s.len(),
{
    if occurs_at(s, pattern, 0) {
        0
    } else if s.len() == 0 {
        0
    } else {
        1 + first_occurrence(s.drop_first(), pattern)
    }
}

/// The position of the first copy of `pattern` in `s`, or the length of `s` if it holds
/// none.
pub fn find_text(s: &[char], pattern: &[char]) -> (at: usize)
    ensures
        at == first_occurrence(s@, pattern@),
        at <= s.len(),
{
    let mut at: usize = 0;
    assert(s@.skip(0) =~= s@);
    while at < s.len()
        invariant
            at <= s.len(),
            first_occurrence(s@, pattern@) == at + first_occurrence(s@.skip(at as int), pattern@),
        decreases s.len() - at,
    {
        let ghost rest = s@.skip(at as int);
        let found = matches_at(s, pattern, at);
        proof {
            if at + pattern@.len() <= s@.len() {
                assert(rest.subrange(0, pattern@.len() as int) =~= s@.subrange(
                    at as int,
                    at + pattern@.len(),
                ));
            }
        }
        if found {
            return at;
        }
        assert(rest.drop_first() =~= s@.skip(at + 1));
        at += 1;
    }
    proof {
        let rest = s@.skip(at as int);
        assert(rest.len() == 0);
        if occurs_at(rest, pattern@, 0) {
            assert(pattern@.len() == 0);
        }
    }
    at
}

/// The decimal digit for `d`, for `d` below ten.
pub open spec fn digit_char(d: nat) -> char {
    if d == 0 {
        '0'
    } else if d == 1 {
        '1'
    } else if d == 2 {
        '2'
    } else if d == 3 {
        '3'
    } else if d == 4 {
        '4'
    } else if d == 5 {
        '5'
    } else if d == 6 {
        '6'
    } else if d == 7 {
        '7'
    } else if d == 8 {
        '8'
    } else {
        '9'
    }
}

/// The decimal numeral of `n`: no sign, no leading zero but for zero itself.
pub open spec fn decimal(n: nat) -> Seq<char>
    decreases n,
{
    if n < 10 {
        seq![digit_char(n)]
    } else {
        decimal(n / 10).push(digit_char(n % 10))
    }
}

/// The number that the decimal digit `c` stands for.
pub open spec fn digit_value(c: char) -> nat {
    if c == '1' {
        1
    } else if c == '2' {
        2
    } else if c == '3' {
        3
    } else if c == '4' {
        4
    } else if c == '5' {
        5
    } else if c == '6' {
        6
    } else if c == '7' {
        7
    } else if c == '8' {
        8
    } else if c == '9' {
        9
    } else {
        0
    }
}

/// The number that the decimal numeral `s` stands for.
pub open spec fn decimal_value(s: Seq<char>) -> nat
    decreases s.len(),
{
    if s.len() == 0 {
        0
    } else {
        decimal_value(s.drop_last()) * 10 + digit_value(s.last())
    }
}

/// A decimal numeral stands for the number it was made of: no two numbers have the same
/// numeral.
pub proof fn lemma_decimal_value(n: nat)
    ensures
        decimal_value(decimal(n)) == n,
        decimal(n).len() > 0,
    decreases n,
{
    if n < 10 {
        assert(decimal(n).drop_last() =~= Seq::<char>::empty());
        assert(decimal_value(decimal(n).drop_last()) == 0);
    } else {
        lemma_decimal_value(n / 10);
        assert(decimal(n).drop_last() =~= decimal(n / 10));
    }
}

fn digit_of(d: u128) -> (c: char)
    requires
        d < 10,
    ensures
        c == digit_char(d as nat),
{
    if d == 0 {
        '0'
    } else if d == 1 {
        '1'
    } else if d == 2 {
        '2'
    } else if d == 3 {
        '3'
    } else if d == 4 {
        '4'
    } else if d == 5 {
        '5'
    } else if d == 6 {
        '6'
    } else if d == 7 {
        '7'
    } else if d == 8 {
        '8'
    } else {
        '9'
    }
}

/// Appends the decimal numeral of `n` to `out`.
pub fn append_decimal(out: &mut String, n: u128)
    ensures
        final(out)@ == old(out)@ + decimal(n as nat),
    decreases n,
{
    if n >= 10 {
        append_decimal(out, n / 10);
    }
    append_char(out, digit_of(n % 10));
}

/// The decimal numeral of `n` as a string.
pub fn decimal_string(n: u128) -> (s: String)
    ensures
        s@ == decimal(n as nat),
{
    let mut s = String::new();
    append_decimal(&mut s, n);
    s
}

} // verus!
