//! Character sequences: conversion between strings and vectors of
//! characters, and substitution of one sequence by another wherever the
//! first ends a line.

use vstd::prelude::*;

verus! {

/// Whether `from` stands at the start of `text` and ends a line there: a
/// line feed or the end of the text follows it.
pub open spec fn ends_line_at_start(text: Seq<char>, from: Seq<char>) -> bool {
    from.is_prefix_of(text) && (text.len() == from.len() || text[from.len() as int] == '\n')
}

/// `text` with `to` in place of `from` wherever `from` ends a line. The text
/// is searched from left to right and the search goes on behind each place
/// found, so that the places do not overlap. An empty `from` is found
/// nowhere.
pub open spec fn replaced_at_line_ends(text: Seq<char>, from: Seq<char>, to: Seq<char>) -> Seq<
    char,
>
    decreases text.len(),
{
    if text.len() == 0 || from.len() == 0 {
        text
    } else if ends_line_at_start(text, from) {
        to + replaced_at_line_ends(text.skip(from.len() as int), from, to)
    } else {
        seq![text[0]] + replaced_at_line_ends(text.skip(1), from, to)
    }
}

/// Where `from` ends no line of `text`, nothing is replaced.
pub proof fn lemma_replaced_without_occurrence(text: Seq<char>, from: Seq<char>, to: Seq<char>)
    requires
        forall|i: int| 0 <= i < text.len() ==> !ends_line_at_start(#[trigger] text.skip(i), from),
    ensures
        replaced_at_line_ends(text, from, to) == text,
    decreases text.len(),
{
    if text.len() > 0 && from.len() > 0 {
        let rest = text.skip(1);
        assert(text.skip(0) == text);
        assert forall|i: int| 0 <= i < rest.len() implies !ends_line_at_start(
            #[trigger] rest.skip(i),
            from,
        ) by {
            assert(rest.skip(i) == text.skip(i + 1));
        }
        lemma_replaced_without_occurrence(rest, from, to);
        assert(seq![text[0]] + rest == text);
    }
}

/// The characters of `s`, in order.
pub fn to_chars(s: &str) -> (chars: Vec<char>)
    ensures
        chars@ == s@,
{
    let mut chars: Vec<char> = Vec::new();
    for c in it: s.chars()
        invariant
            it.seq() == s@,
            chars@ == s@.take(it.index()),
    {
        chars.push(c);
    }
    assert(s@.take(s@.len() as int) == s@);
    chars
}

/// Collects characters into a `String` with std's `FromIterator<&char>`
/// for `String`; the string holds exactly the characters given, in order.
#[verifier::external_body]
pub(crate) fn from_chars(chars: &Vec<char>) -> (s: String)
    ensures
        s@ == chars@,
{
    chars.iter().collect()
}

/// Appends the characters of `tail` to `out`.
pub fn push_all(out: &mut Vec<char>, tail: &Vec<char>)
    ensures
        final(out)@ == old(out)@ + tail@,
{
    let mut j: usize = 0;
    while j < tail.len()
        invariant
            j <= tail.len(),
            out@ == old(out)@ + tail@.take(j as int),
        decreases tail.len() - j,
    {
        out.push(tail[j]);
        j += 1;
    }
    assert(tail@.take(tail@.len() as int) == tail@);
}

/// Whether `needle` stands in `text` at position `at`.
pub fn occurs_at(text: &Vec<char>, at: usize, needle: &Vec<char>) -> (found: bool)
    requires
        at <= text.len(),
    ensures
        found == needle@.is_prefix_of(text@.skip(at as int)),
{
    let m: usize = needle.len();
    if m > text.len() - at {
        return false;
    }
    let ghost rest = text@.skip(at as int);
    let mut j: usize = 0;
    while j < m
        invariant
            j <= m,
            m == needle.len(),
            at + m <= text.len(),
            rest == text@.skip(at as int),
            needle@.take(j as int) == rest.subrange(0, j as int),
        decreases m - j,
    {
        if text[at + j] != needle[j] {
            assert(rest.subrange(0, m as int)[j as int] != needle@[j as int]);
            return false;
        }
        assert(needle@.take(j + 1) == needle@.take(j as int).push(needle@[j as int]));
        assert(rest.subrange(0, j + 1) == rest.subrange(0, j as int).push(rest[j as int]));
        j += 1;
    }
    assert(needle@.take(m as int) == needle@);
    true
}

/// Whether `needle` stands in `text` at position `at` and ends a line
/// there.
pub fn ends_line_at(text: &Vec<char>, at: usize, needle: &Vec<char>) -> (found: bool)
    requires
        at <= text.len(),
    ensures
        found == ends_line_at_start(text@.skip(at as int), needle@),
{
    if !occurs_at(text, at, needle) {
        return false;
    }
    let behind: usize = at + needle.len();
    behind == text.len() || text[behind] == '\n'
}

/// Puts `to` in place of `from` wherever `from` ends a line of `text`.
pub fn replace_at_line_ends(text: &Vec<char>, from: &Vec<char>, to: &Vec<char>) -> (out: Vec<char>)
    ensures
        out@ == replaced_at_line_ends(text@, from@, to@),
{
    let n: usize = text.len();
    let m: usize = from.len();
    let mut out: Vec<char> = Vec::new();
    let mut i: usize = 0;
    assert(text@.skip(0) == text@);
    while i < n
        invariant
            i <= n,
            n == text.len(),
            m == from.len(),
            replaced_at_line_ends(text@, from@, to@) == out@ + replaced_at_line_ends(
                text@.skip(i as int),
                from@,
                to@,
            ),
        decreases n - i,
    {
        let ghost rest = text@.skip(i as int);
        let ghost before = out@;
        if m > 0 && ends_line_at(text, i, from) {
            push_all(&mut out, to);
            assert(rest.skip(m as int) == text@.skip(i + m));
            assert(before + (to@ + replaced_at_line_ends(rest.skip(m as int), from@, to@)) == out@
                + replaced_at_line_ends(rest.skip(m as int), from@, to@));
            i += m;
        } else {
            out.push(text[i]);
            if m > 0 {
                assert(rest.skip(1) == text@.skip(i + 1));
                assert(before + (seq![rest[0]] + replaced_at_line_ends(rest.skip(1), from@, to@))
                    == out@ + replaced_at_line_ends(rest.skip(1), from@, to@));
            } else {
                assert(rest == seq![rest[0]] + text@.skip(i + 1));
                assert(before + rest == out@ + text@.skip(i + 1));
            }
            i += 1;
        }
    }
    assert(text@.skip(n as int).len() == 0);
    out
}

} // verus!
