//! Character-level text handling: conversion between strings and character
//! vectors, trimming, and splitting into lines.
//!
//! Specifications are stated over `Seq<char>`, the view of `str` and `String`.

use vstd::prelude::*;

verus! {

/// Whether `c` counts as white space when text is trimmed. This is the answer
/// of `char::is_whitespace`, which depends on the character alone.
pub uninterp spec fn is_whitespace(c: char) -> bool;

/// `char::is_whitespace` reports whether the character has the Unicode
/// `White_Space` property; the contract only gives that answer its name.
pub assume_specification[ char::is_whitespace ](c: char) -> (b: bool)
    ensures
        b == is_whitespace(c),
;

/// `String::push` appends one character to the end of the string.
pub assume_specification[ String::push ](s: &mut String, c: char)
    ensures
        final(s)@ == old(s)@.push(c),
;

/// The views of a sequence of strings.
pub open spec fn strs(v: Seq<String>) -> Seq<Seq<char>> {
    v.map_values(|s: String| s@)
}

/// The views of a sequence that grew by one string grow by that string's view.
pub proof fn lemma_strs_push(v: Seq<String>, s: String)
    ensures
        strs(v.push(s)) == strs(v).push(s@),
{
    assert(strs(v.push(s)) =~= strs(v).push(s@));
}

/// The views of a sequence of character vectors.
pub open spec fn rows(v: Seq<Vec<char>>) -> Seq<Seq<char>> {
    v.map_values(|r: Vec<char>| r@)
}

/// `s` without its leading white space.
pub open spec fn trim_start(s: Seq<char>) -> Seq<char>
    decreases s.len(),
{
    if s.len() > 0 && is_whitespace(s[0]) {
        trim_start(s.skip(1))
    } else {
        s
    }
}

/// `s` without its trailing white space.
pub open spec fn trim_end(s: Seq<char>) -> Seq<char>
    decreases s.len(),
{
    if s.len() > 0 && is_whitespace(s.last()) {
        trim_end(s.drop_last())
    } else {
        s
    }
}

/// `s` without leading and trailing white space.
pub open spec fn trim(s: Seq<char>) -> Seq<char> {
    trim_end(trim_start(s))
}

/// The index of the first line feed in `s`, or `s.len()` if there is none.
pub open spec fn first_newline(s: Seq<char>) -> int
    decreases s.len(),
{
    if s.len() == 0 || s[0] == '\n' {
        0
    } else {
        1 + first_newline(s.skip(1))
    }
}

/// A line without the carriage return that preceded its line feed.
pub open spec fn strip_cr(line: Seq<char>) -> Seq<char> {
    if line.len() > 0 && line.last() == '\r' {
        line.drop_last()
    } else {
        line
    }
}

/// The lines of `s`. A line ends at a line feed, or at a carriage return
/// directly followed by one; the terminator is not part of the line. A final
/// line needs no terminator, and a terminator at the very end opens no further
/// line.
pub open spec fn lines(s: Seq<char>) -> Seq<Seq<char>>
    decreases s.len(),
{
    if s.len() == 0 {
        Seq::empty()
    } else {
        let i = first_newline(s);
        if 0 <= i < s.len() {
            seq![strip_cr(s.take(i))] + lines(s.skip(i + 1))
        } else {
            seq![s]
        }
    }
}

/// Skipping leading white space does not change what `trim_start` returns.
pub proof fn lemma_trim_start_skip(s: Seq<char>, k: int)
    requires
        0 <= k <= s.len(),
        forall|j: int| 0 <= j < k ==> is_whitespace(#[trigger] s[j]),
    ensures
        trim_start(s) == trim_start(s.skip(k)),
    decreases k,
{
    if k == 0 {
        assert(s.skip(0) =~= s);
    } else {
        lemma_trim_start_skip(s, k - 1);
        let t = s.skip(k - 1);
        assert(t.len() > 0 && is_whitespace(t[0]));
        assert(t.skip(1) =~= s.skip(k));
    }
}

/// Dropping trailing white space does not change what `trim_end` returns.
pub proof fn lemma_trim_end_take(s: Seq<char>, k: int)
    requires
        0 <= k <= s.len(),
        forall|j: int| k <= j < s.len() ==> is_whitespace(#[trigger] s[j]),
    ensures
        trim_end(s) == trim_end(s.take(k)),
    decreases s.len() - k,
{
    if k == s.len() {
        assert(s.take(k) =~= s);
    } else {
        lemma_trim_end_take(s, k + 1);
        let t = s.take(k + 1);
        assert(t.len() > 0 && is_whitespace(t.last()));
        assert(t.drop_last() =~= s.take(k));
    }
}

/// `first_newline` finds the line feed at `k` when none stands before it, and
/// the end of the text when there is none at all.
pub proof fn lemma_first_newline(s: Seq<char>, k: int)
    requires
        0 <= k <= s.len(),
        forall|j: int| 0 <= j < k ==> #[trigger] s[j] != '\n',
        k < s.len() ==> s[k] == '\n',
    ensures
        first_newline(s) == k,
    decreases k,
{
    if k > 0 {
        let t = s.skip(1);
        assert forall|j: int| 0 <= j < k - 1 implies #[trigger] t[j] != '\n' by {
            assert(t[j] == s[j + 1]);
        }
        lemma_first_newline(t, k - 1);
    }
}

/// The characters of `s`, in order.
pub fn to_chars(s: &str) -> (out: Vec<char>)
    ensures
        out@ == s@,
{
    let mut out: Vec<char> = Vec::new();
    for c in it: s.chars()
        invariant
            out@ == it.seq().take(it.index() as int),
            it.seq() == s@,
    {
        out.push(c);
    }
    out
}

/// The string made of the characters of `chars`, in order.
pub fn from_chars(chars: &Vec<char>) -> (out: String)
    ensures
        out@ == chars@,
{
    let mut out = String::new();
    let mut i: usize = 0;
    while i < chars.len()
        invariant
            i <= chars.len(),
            out@ == chars@.take(i as int),
        decreases chars.len() - i,
    {
        out.push(chars[i]);
        i += 1;
    }
    out
}

/// The characters of `v` from index `from` up to, not including, `to`.
pub fn sub_chars(v: &Vec<char>, from: usize, to: usize) -> (out: Vec<char>)
    requires
        from <= to <= v.len(),
    ensures
        out@ == v@.subrange(from as int, to as int),
{
    let mut out: Vec<char> = Vec::new();
    let mut i: usize = from;
    while i < to
        invariant
            from <= i <= to <= v.len(),
            out@ == v@.subrange(from as int, i as int),
        decreases to - i,
    {
        out.push(v[i]);
        i += 1;
    }
    out
}

/// Appends the characters of `more` to `out`.
pub fn append_chars(out: &mut Vec<char>, more: &Vec<char>)
    ensures
        final(out)@ == old(out)@ + more@,
{
    let mut i: usize = 0;
    proof {
        assert(out@ + more@.take(0) =~= out@);
    }
    while i < more.len()
        invariant
            i <= more.len(),
            out@ == old(out)@ + more@.take(i as int),
        decreases more.len() - i,
    {
        proof {
            assert((old(out)@ + more@.take(i as int)).push(more@[i as int]) =~= old(out)@
                + more@.take(i + 1));
        }
        out.push(more[i]);
        i += 1;
    }
    proof {
        assert(more@.take(more.len() as int) =~= more@);
    }
}

/// Whether two character vectors hold the same text.
pub fn chars_eq(a: &Vec<char>, b: &Vec<char>) -> (same: bool)
    ensures
        same == (a@ == b@),
{
    if a.len() != b.len() {
        return false;
    }
    let mut i: usize = 0;
    while i < a.len()
        invariant
            i <= a.len(),
            a.len() == b.len(),
            a@.take(i as int) == b@.take(i as int),
        decreases a.len() - i,
    {
        if a[i] != b[i] {
            return false;
        }
        assert(a@.take(i + 1) =~= a@.take(i as int).push(a@[i as int]));
        assert(b@.take(i + 1) =~= b@.take(i as int).push(b@[i as int]));
        i += 1;
    }
    assert(a@.take(a.len() as int) =~= a@);
    assert(b@.take(b.len() as int) =~= b@);
    true
}

/// `v` without leading and trailing white space.
pub fn trim_chars(v: &Vec<char>) -> (out: Vec<char>)
    ensures
        out@ == trim(v@),
{
    let mut from: usize = 0;
    while from < v.len() && v[from].is_whitespace()
        invariant
            from <= v.len(),
            forall|j: int| 0 <= j < from ==> is_whitespace(#[trigger] v@[j]),
        decreases v.len() - from,
    {
        from += 1;
    }
    let mut to: usize = v.len();
    while to > from && v[to - 1].is_whitespace()
        invariant
            from <= to <= v.len(),
            forall|j: int| to <= j < v.len() ==> is_whitespace(#[trigger] v@[j]),
        decreases to,
    {
        to -= 1;
    }
    proof {
        lemma_trim_start_skip(v@, from as int);
        let head = v@.skip(from as int);
        assert(trim_start(head) == head);
        lemma_trim_end_take(head, to - from);
        let body = head.take(to - from);
        assert(body =~= v@.subrange(from as int, to as int));
        assert(trim_end(body) == body);
    }
    sub_chars(v, from, to)
}

/// `v` without trailing white space.
pub fn trim_end_chars(v: &Vec<char>) -> (out: Vec<char>)
    ensures
        out@ == trim_end(v@),
{
    let mut to: usize = v.len();
    while to > 0 && v[to - 1].is_whitespace()
        invariant
            to <= v.len(),
            forall|j: int| to <= j < v.len() ==> is_whitespace(#[trigger] v@[j]),
        decreases to,
    {
        to -= 1;
    }
    proof {
        lemma_trim_end_take(v@, to as int);
        let body = v@.take(to as int);
        assert(body =~= v@.subrange(0, to as int));
        assert(trim_end(body) == body);
    }
    sub_chars(v, 0, to)
}

/// The lines of `v`, each as a vector of its own.
pub fn split_lines(v: &Vec<char>) -> (out: Vec<Vec<char>>)
    ensures
        rows(out@) == lines(v@),
{
    let mut out: Vec<Vec<char>> = Vec::new();
    let mut start: usize = 0;
    let mut i: usize = 0;
    proof {
        assert(v@.skip(0) =~= v@);
        assert(rows(out@) + lines(v@) =~= lines(v@));
    }
    while i < v.len()
        invariant
            start <= i <= v.len(),
            forall|j: int| start <= j < i ==> #[trigger] v@[j] != '\n',
            lines(v@) == rows(out@) + lines(v@.skip(start as int)),
        decreases v.len() - i,
    {
        if v[i] == '\n' {
            let end: usize = if i > start && v[i - 1] == '\r' {
                i - 1
            } else {
                i
            };
            let line = sub_chars(v, start, end);
            proof {
                let rest = v@.skip(start as int);
                assert forall|j: int| 0 <= j < i - start implies #[trigger] rest[j] != '\n' by {
                    assert(rest[j] == v@[start + j]);
                }
                lemma_first_newline(rest, i - start);
                assert(rest.take(i - start) =~= v@.subrange(start as int, i as int));
                assert(line@ =~= strip_cr(rest.take(i - start)));
                assert(rest.skip(i - start + 1) =~= v@.skip(i + 1));
                assert(rows(out@.push(line)) =~= rows(out@).push(line@));
                assert(rows(out@) + (seq![line@] + lines(v@.skip(i + 1))) =~= rows(out@).push(
                    line@,
                ) + lines(v@.skip(i + 1)));
            }
            out.push(line);
            start = i + 1;
        }
        i += 1;
    }
    if start < v.len() {
        let line = sub_chars(v, start, v.len());
        proof {
            let rest = v@.skip(start as int);
            assert forall|j: int| 0 <= j < rest.len() implies #[trigger] rest[j] != '\n' by {
                assert(rest[j] == v@[start + j]);
            }
            lemma_first_newline(rest, rest.len() as int);
            assert(line@ =~= rest);
            assert(rows(out@.push(line)) =~= rows(out@).push(line@));
            assert(rows(out@) + seq![rest] =~= rows(out@).push(rest));
        }
        out.push(line);
    } else {
        assert(rows(out@) + lines(v@.skip(start as int)) =~= rows(out@));
    }
    out
}

} // verus!
