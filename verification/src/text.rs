//! Character sequences: conversion, trimming, splitting on whitespace and
//! joining with single spaces.

use vstd::prelude::*;
use crate::chars::{is_alphabetic, is_alphabetic_char, is_whitespace, is_whitespace_char};

verus! {

/// The characters of a string.
pub fn chars_of(s: &str) -> (v: Vec<char>)
    ensures
        v@ == s@,
{
    let mut v: Vec<char> = Vec::new();
    for c in iter: s.chars()
        invariant
            v@ == iter.seq().take(iter.index() as int),
    {
        v.push(c);
    }
    v
}

/// The views of a list of words.
pub open spec fn views(ws: Seq<Vec<char>>) -> Seq<Seq<char>> {
    ws.map_values(|w: Vec<char>| w@)
}

/// `s` with the leading characters that satisfy `p` removed.
pub open spec fn trim_start_by(s: Seq<char>, p: spec_fn(char) -> bool) -> Seq<char>
    decreases s.len(),
{
    if s.len() > 0 && p(s[0]) {
        trim_start_by(s.drop_first(), p)
    } else {
        s
    }
}

/// `s` with the trailing characters that satisfy `p` removed.
pub open spec fn trim_end_by(s: Seq<char>, p: spec_fn(char) -> bool) -> Seq<char>
    decreases s.len(),
{
    if s.len() > 0 && p(s.last()) {
        trim_end_by(s.drop_last(), p)
    } else {
        s
    }
}

/// `s` with leading and trailing characters that satisfy `p` removed.
pub open spec fn trim_by(s: Seq<char>, p: spec_fn(char) -> bool) -> Seq<char> {
    trim_end_by(trim_start_by(s, p), p)
}

/// `str::trim`: leading and trailing whitespace removed.
pub open spec fn trim(s: Seq<char>) -> Seq<char> {
    trim_by(s, in_class(CharClass::Whitespace))
}

/// `str::split_whitespace`: the maximal runs of non-whitespace characters, in order.
pub open spec fn split_words(s: Seq<char>) -> Seq<Seq<char>>
    decreases s.len(),
{
    if s.len() == 0 {
        seq![]
    } else {
        let init = split_words(s.drop_last());
        let c = s.last();
        if is_whitespace_char(c) {
            init
        } else if s.len() >= 2 && !is_whitespace_char(s[s.len() - 2]) {
            init.drop_last().push(init.last().push(c))
        } else {
            init.push(seq![c])
        }
    }
}

/// The words joined with one space between neighbours.
pub open spec fn join_words(ws: Seq<Seq<char>>) -> Seq<char>
    decreases ws.len(),
{
    if ws.len() == 0 {
        seq![]
    } else if ws.len() == 1 {
        ws[0]
    } else {
        join_words(ws.drop_last()) + seq![' '] + ws.last()
    }
}

pub proof fn lemma_trim_start_by(s: Seq<char>, p: spec_fn(char) -> bool, k: int)
    requires
        0 <= k <= s.len(),
        forall|i: int| 0 <= i < k ==> p(#[trigger] s[i]),
        k == s.len() || !p(s[k]),
    ensures
        trim_start_by(s, p) == s.skip(k),
    decreases k,
{
    if k == 0 {
        assert(s.skip(0) =~= s);
    } else {
        assert forall|i: int| 0 <= i < k - 1 implies p(#[trigger] s.drop_first()[i]) by {
            assert(s.drop_first()[i] == s[i + 1]);
        }
        lemma_trim_start_by(s.drop_first(), p, k - 1);
        assert(s.drop_first().skip(k - 1) =~= s.skip(k));
    }
}

pub proof fn lemma_trim_end_by(s: Seq<char>, p: spec_fn(char) -> bool, m: int)
    requires
        0 <= m <= s.len(),
        forall|i: int| m <= i < s.len() ==> p(#[trigger] s[i]),
        m == 0 || !p(s[m - 1]),
    ensures
        trim_end_by(s, p) == s.take(m),
    decreases s.len() - m,
{
    if m == s.len() {
        assert(s.take(m) =~= s);
    } else {
        assert forall|i: int| m <= i < s.drop_last().len() implies p(
            #[trigger] s.drop_last()[i],
        ) by {
            assert(s.drop_last()[i] == s[i]);
        }
        lemma_trim_end_by(s.drop_last(), p, m);
        assert(s.drop_last().take(m) =~= s.take(m));
    }
}

/// The characters that `trim_chars` strips.
pub enum CharClass {
    /// Whitespace, as `str::trim` strips it.
    Whitespace,
    /// Anything that is not alphabetic, as `trim_matches(|c| !c.is_alphabetic())` strips it.
    NonAlphabetic,
}

/// Membership in a `CharClass`.
pub open spec fn in_class(class: CharClass) -> spec_fn(char) -> bool {
    match class {
        CharClass::Whitespace => |c: char| is_whitespace_char(c),
        CharClass::NonAlphabetic => |c: char| !is_alphabetic_char(c),
    }
}

fn is_in_class(c: char, class: &CharClass) -> (b: bool)
    ensures
        b == in_class(*class)(c),
{
    match class {
        CharClass::Whitespace => is_whitespace(c),
        CharClass::NonAlphabetic => !is_alphabetic(c),
    }
}

/// `s` with the leading and trailing characters of `class` removed.
pub fn trim_chars(s: &[char], class: CharClass) -> (r: Vec<char>)
    ensures
        r@ == trim_by(s@, in_class(class)),
{
    let ghost p = in_class(class);
    let n: usize = s.len();
    let mut start: usize = 0;
    while start < n && is_in_class(s[start], &class)
        invariant
            start <= n == s@.len(),
            p == in_class(class),
            forall|i: int| 0 <= i < start ==> p(#[trigger] s@[i]),
        decreases n - start,
    {
        start += 1;
    }
    proof {
        lemma_trim_start_by(s@, p, start as int);
    }
    let ghost t = s@.skip(start as int);
    let mut end: usize = n;
    while end > start && is_in_class(s[end - 1], &class)
        invariant
            start <= end <= n == s@.len(),
            t == s@.skip(start as int),
            p == in_class(class),
            forall|i: int| end <= i < n ==> p(#[trigger] s@[i]),
        decreases end - start,
    {
        end -= 1;
    }
    proof {
        assert forall|i: int| end - start <= i < t.len() implies p(#[trigger] t[i]) by {
            assert(t[i] == s@[i + start]);
        }
        if end > start {
            assert(t[end - start - 1] == s@[end - 1]);
        }
        lemma_trim_end_by(t, p, end - start);
    }
    let mut r: Vec<char> = Vec::new();
    let mut i: usize = start;
    while i < end
        invariant
            start <= i <= end <= n == s@.len(),
            r@ == s@.subrange(start as int, i as int),
        decreases end - i,
    {
        r.push(s[i]);
        i += 1;
    }
    assert(r@ =~= t.take(end - start));
    r
}

/// Exec form of `trim`.
pub fn trim_whitespace(s: &[char]) -> (r: Vec<char>)
    ensures
        r@ == trim(s@),
{
    trim_chars(s, CharClass::Whitespace)
}

/// Exec form of `split_words`.
pub fn split_whitespace(s: &[char]) -> (ws: Vec<Vec<char>>)
    ensures
        views(ws@) == split_words(s@),
{
    let mut ws: Vec<Vec<char>> = Vec::new();
    let mut cur: Vec<char> = Vec::new();
    let mut i: usize = 0;
    while i < s.len()
        invariant
            i <= s@.len(),
            cur@.len() > 0 ==> views(ws@).push(cur@) == split_words(s@.take(i as int)) && i > 0
                && !is_whitespace_char(s@[i - 1]),
            cur@.len() == 0 ==> views(ws@) == split_words(s@.take(i as int)) && (i == 0
                || is_whitespace_char(s@[i - 1])),
        decreases s@.len() - i,
    {
        let c = s[i];
        let ghost prev = s@.take(i as int);
        let ghost next = s@.take(i + 1);
        assert(next.drop_last() =~= prev);
        assert(next.last() == c);
        if i > 0 {
            assert(next[next.len() - 2] == s@[i - 1]);
        }
        if is_whitespace(c) {
            if cur.len() > 0 {
                ws.push(cur);
                cur = Vec::new();
                assert(views(ws@) =~= split_words(prev));
            }
        } else {
            let ghost old_ws = views(ws@);
            let ghost old_cur = cur@;
            let was_open = cur.len() > 0;
            cur.push(c);
            if was_open {
                assert(old_ws.push(old_cur).drop_last() =~= old_ws);
                assert(old_ws.push(cur@) =~= old_ws.push(old_cur).drop_last().push(
                    old_ws.push(old_cur).last().push(c),
                ));
            } else {
                assert(cur@ =~= seq![c]);
            }
        }
        i += 1;
    }
    assert(s@.take(s@.len() as int) =~= s@);
    if cur.len() > 0 {
        let ghost old_ws = views(ws@);
        ws.push(cur);
        assert(views(ws@) =~= old_ws.push(views(ws@).last()));
    }
    ws
}

/// Exec form of `join_words`.
pub fn join_with_spaces(ws: &[Vec<char>]) -> (r: Vec<char>)
    ensures
        r@ == join_words(views(ws@)),
{
    let mut r: Vec<char> = Vec::new();
    let mut i: usize = 0;
    while i < ws.len()
        invariant
            i <= ws@.len(),
            r@ == join_words(views(ws@).take(i as int)),
        decreases ws@.len() - i,
    {
        let ghost prefix = views(ws@).take(i + 1);
        assert(prefix.drop_last() =~= views(ws@).take(i as int));
        assert(prefix.last() == ws@[i as int]@);
        if i > 0 {
            r.push(' ');
        }
        let w = &ws[i];
        let mut j: usize = 0;
        let ghost base = r@;
        while j < w.len()
            invariant
                j <= w@.len(),
                r@ == base + w@.take(j as int),
            decreases w@.len() - j,
        {
            r.push(w[j]);
            j += 1;
            assert(w@.take(j as int) =~= w@.take(j - 1).push(w@[j - 1]));
        }
        assert(w@.take(w@.len() as int) =~= w@);
        i += 1;
        if i == 1 {
            assert(r@ =~= join_words(prefix));
        }
    }
    assert(views(ws@).take(ws@.len() as int) =~= views(ws@));
    r
}

/// Calls `String`'s `FromIterator<&char>`: the string holds exactly these characters.
#[verifier::external_body]
pub(crate) fn string_from_chars(v: &[char]) -> (s: String)
    ensures
        s@ == v@,
{
    v.iter().collect()
}


/// The characters of `s` that are not whitespace, in order.
pub open spec fn non_space(s: Seq<char>) -> Seq<char> {
    s.filter(|c: char| !is_whitespace_char(c))
}

/// Exec form of `non_space`.
pub fn non_space_chars(s: &[char]) -> (r: Vec<char>)
    ensures
        r@ == non_space(s@),
{
    let mut r: Vec<char> = Vec::new();
    let mut i: usize = 0;
    while i < s.len()
        invariant
            i <= s@.len(),
            r@ == non_space(s@.take(i as int)),
        decreases s@.len() - i,
    {
        proof {
            assert(s@.take(i + 1) =~= s@.take(i as int).push(s@[i as int]));
            s@.take(i as int).lemma_filter_push(s@[i as int], |c: char| !is_whitespace_char(c));
        }
        if !is_whitespace(s[i]) {
            r.push(s[i]);
        }
        i += 1;
    }
    assert(s@.take(s@.len() as int) =~= s@);
    r
}

/// Whether two character sequences are equal.
pub fn chars_equal(a: &[char], b: &[char]) -> (r: bool)
    ensures
        r == (a@ == b@),
{
    if a.len() != b.len() {
        return false;
    }
    let mut i: usize = 0;
    while i < a.len()
        invariant
            i <= a@.len() == b@.len(),
            forall|j: int| 0 <= j < i ==> a@[j] == b@[j],
        decreases a@.len() - i,
    {
        if a[i] != b[i] {
            return false;
        }
        i += 1;
    }
    assert(a@ =~= b@);
    true
}


/// A fresh vector holding the characters of `s`.
pub fn copy_chars(s: &[char]) -> (r: Vec<char>)
    ensures
        r@ == s@,
{
    let mut r: Vec<char> = Vec::new();
    let mut i: usize = 0;
    while i < s.len()
        invariant
            i <= s@.len(),
            r@ == s@.take(i as int),
        decreases s@.len() - i,
    {
        r.push(s[i]);
        i += 1;
        assert(r@ =~= s@.take(i as int));
    }
    assert(s@.take(s@.len() as int) =~= s@);
    r
}


/// Appends the characters of `b` to `a`.
pub fn append_chars(a: &mut Vec<char>, b: &[char])
    ensures
        final(a)@ == old(a)@ + b@,
{
    let ghost start = a@;
    let mut i: usize = 0;
    while i < b.len()
        invariant
            i <= b@.len(),
            a@ == start + b@.take(i as int),
        decreases b@.len() - i,
    {
        a.push(b[i]);
        i += 1;
        assert(a@ =~= start + b@.take(i as int));
    }
    assert(b@.take(b@.len() as int) =~= b@);
}

} // verus!
