//! Recognising transcriptions that are model garbage rather than speech.

use vstd::prelude::*;
use crate::chars::{
    ascii_lower, ascii_punctuation, byte_len, byte_len_capped, is_alphabetic,
    is_alphabetic_char, is_ascii_punct, is_control, is_control_char, lowercase, to_ascii_lower,
    to_lowercase,
};
use crate::text::{
    chars_equal, chars_of, non_space, non_space_chars, split_whitespace, split_words, trim,
    trim_whitespace, views,
};

verus! {

/// How many characters of `s` are ASCII punctuation.
pub open spec fn punct_count(s: Seq<char>) -> nat {
    s.filter(|c: char| is_ascii_punct(c)).len()
}

/// How many characters of `s` are alphabetic.
pub open spec fn alpha_count(s: Seq<char>) -> nat {
    s.filter(|c: char| is_alphabetic_char(c)).len()
}

/// Words whose lowercase form is `lower`.
pub open spec fn lowercases_to(lower: Seq<char>) -> spec_fn(Seq<char>) -> bool {
    |w: Seq<char>| lowercase(w) == lower
}

/// A control character other than '\n', '\r', '\t', or a character of the
/// Private Use Area (U+E000..=U+F8FF) or the Specials block (U+FFF0..=U+FFFF).
pub open spec fn is_garbage_char(c: char) -> bool {
    (is_control_char(c) && c != '\n' && c != '\r' && c != '\t') || (0xE000 <= (c as u32)
        <= 0xF8FF) || (0xFFF0 <= (c as u32) <= 0xFFFF)
}

/// Non-empty, and every character is ASCII punctuation.
pub open spec fn all_punctuation(ns: Seq<char>) -> bool {
    ns.len() > 0 && forall|i: int| 0 <= i < ns.len() ==> is_ascii_punct(#[trigger] ns[i])
}

/// At most 5 bytes, and at least half of the non-whitespace characters are punctuation.
pub open spec fn short_and_punctuated(t: Seq<char>) -> bool {
    let ns = non_space(t);
    byte_len(t) <= 5 && ns.len() > 0 && 2 * punct_count(ns) >= ns.len()
}

/// At least 4 words, and more than 75% of them equal the first one, ignoring case.
pub open spec fn first_word_dominates(t: Seq<char>) -> bool {
    let ws = split_words(t);
    ws.len() >= 4 && 4 * ws.filter(lowercases_to(lowercase(ws[0]))).len() > 3 * ws.len()
}

/// Some character is a garbage character.
pub open spec fn has_garbage_char(t: Seq<char>) -> bool {
    exists|i: int| 0 <= i < t.len() && is_garbage_char(#[trigger] t[i])
}

/// At most 3 bytes and no alphabetic character.
pub open spec fn short_without_letters(t: Seq<char>) -> bool {
    byte_len(t) <= 3 && alpha_count(t) == 0
}

/// The garbage that a model produces under GPU contention: after trimming,
/// the text is empty, all punctuation, short and mostly punctuation,
/// dominated by one repeated word, holds a garbage character, or is very
/// short without any letter.
pub open spec fn gpu_garbage(text: Seq<char>) -> bool {
    let t = trim(text);
    ||| t.len() == 0
    ||| all_punctuation(non_space(t))
    ||| short_and_punctuated(t)
    ||| first_word_dominates(t)
    ||| has_garbage_char(t)
    ||| short_without_letters(t)
}

fn count_punct(s: &[char]) -> (n: usize)
    ensures
        n == punct_count(s@),
{
    let mut n: usize = 0;
    let mut i: usize = 0;
    while i < s.len()
        invariant
            i <= s@.len(),
            n == punct_count(s@.take(i as int)),
            n <= i,
        decreases s@.len() - i,
    {
        proof {
            assert(s@.take(i + 1) =~= s@.take(i as int).push(s@[i as int]));
            s@.take(i as int).lemma_filter_push(s@[i as int], |c: char| is_ascii_punct(c));
        }
        if ascii_punctuation(s[i]) {
            n += 1;
        }
        i += 1;
    }
    assert(s@.take(s@.len() as int) =~= s@);
    n
}

fn count_alpha(s: &[char]) -> (n: usize)
    ensures
        n == alpha_count(s@),
{
    let mut n: usize = 0;
    let mut i: usize = 0;
    while i < s.len()
        invariant
            i <= s@.len(),
            n == alpha_count(s@.take(i as int)),
            n <= i,
        decreases s@.len() - i,
    {
        proof {
            assert(s@.take(i + 1) =~= s@.take(i as int).push(s@[i as int]));
            s@.take(i as int).lemma_filter_push(s@[i as int], |c: char| is_alphabetic_char(c));
        }
        if is_alphabetic(s[i]) {
            n += 1;
        }
        i += 1;
    }
    assert(s@.take(s@.len() as int) =~= s@);
    n
}

fn all_ascii_punctuation(s: &[char]) -> (b: bool)
    ensures
        b == all_punctuation(s@),
{
    if s.len() == 0 {
        return false;
    }
    let mut i: usize = 0;
    while i < s.len()
        invariant
            i <= s@.len(),
            forall|j: int| 0 <= j < i ==> is_ascii_punct(#[trigger] s@[j]),
        decreases s@.len() - i,
    {
        if !ascii_punctuation(s[i]) {
            return false;
        }
        i += 1;
    }
    true
}

fn garbage_char(c: char) -> (b: bool)
    ensures
        b == is_garbage_char(c),
{
    let n: u32 = c as u32;
    (is_control(c) && c != '\n' && c != '\r' && c != '\t') || (0xE000 <= n && n <= 0xF8FF) || (
    0xFFF0 <= n && n <= 0xFFFF)
}

fn any_garbage_char(t: &[char]) -> (b: bool)
    ensures
        b == has_garbage_char(t@),
{
    let mut i: usize = 0;
    while i < t.len()
        invariant
            i <= t@.len(),
            forall|j: int| 0 <= j < i ==> !is_garbage_char(#[trigger] t@[j]),
        decreases t@.len() - i,
    {
        if garbage_char(t[i]) {
            return true;
        }
        i += 1;
    }
    false
}

fn first_word_dominates_exec(t: &[char]) -> (b: bool)
    ensures
        b == first_word_dominates(t@),
{
    let words = split_whitespace(t);
    let ghost ws = views(words@);
    if words.len() < 4 {
        return false;
    }
    let first = to_lowercase(words[0].as_slice());
    let ghost pred = lowercases_to(first@);
    let mut count: usize = 0;
    let mut i: usize = 0;
    while i < words.len()
        invariant
            i <= words@.len(),
            ws == views(words@),
            pred == lowercases_to(first@),
            count == ws.take(i as int).filter(pred).len(),
            count <= i,
        decreases words@.len() - i,
    {
        proof {
            assert(ws.take(i + 1) =~= ws.take(i as int).push(ws[i as int]));
            ws.take(i as int).lemma_filter_push(ws[i as int], pred);
        }
        let lower = to_lowercase(words[i].as_slice());
        if chars_equal(lower.as_slice(), first.as_slice()) {
            count += 1;
        }
        i += 1;
    }
    assert(ws.take(ws.len() as int) =~= ws);
    (count as u128) * 4 > (words.len() as u128) * 3
}

/// Core of `is_gpu_contention_hallucination`, on characters.
pub fn gpu_garbage_chars(text: &[char]) -> (b: bool)
    ensures
        b == gpu_garbage(text@),
{
    let t = trim_whitespace(text);
    if t.len() == 0 {
        return true;
    }
    let ns = non_space_chars(t.as_slice());
    if all_ascii_punctuation(ns.as_slice()) {
        return true;
    }
    let bytes: usize = byte_len_capped(t.as_slice(), 5);
    if bytes <= 5 && ns.len() > 0 {
        let punct: usize = count_punct(ns.as_slice());
        if (punct as u128) * 2 >= ns.len() as u128 {
            return true;
        }
    }
    if first_word_dominates_exec(t.as_slice()) {
        return true;
    }
    if any_garbage_char(t.as_slice()) {
        return true;
    }
    if bytes <= 3 {
        let alpha: usize = count_alpha(t.as_slice());
        if alpha == 0 {
            return true;
        }
    }
    false
}

/// Detects GPU contention-induced hallucinations.
///
/// Under heavy GPU load the model can produce garbage such as all
/// punctuation ("!!!!!!!!"), short text with excessive punctuation ("a!"),
/// repetitive single-word nonsense ("you you you you"), or text holding
/// non-printable characters. Returns true if the text looks like that.
pub fn is_gpu_contention_hallucination(text: &str) -> (b: bool)
    ensures
        b == gpu_garbage(text@),
{
    let chars = chars_of(text);
    gpu_garbage_chars(chars.as_slice())
}


/// Phrases that the model produces on silence or noise.
pub open spec fn hallucination_phrases() -> Seq<Seq<char>> {
    seq![
        "thank you for watching"@,
        "thanks for watching"@,
        "please subscribe"@,
        "subtitled by"@,
        "transcribed by"@,
        "[music]"@,
        "[applause]"@,
    ]
}

fn hallucination_phrase(k: usize) -> (p: &'static str)
    requires
        k < 7,
    ensures
        p@ == hallucination_phrases()[k as int],
{
    match k {
        0 => "thank you for watching",
        1 => "thanks for watching",
        2 => "please subscribe",
        3 => "subtitled by",
        4 => "transcribed by",
        5 => "[music]",
        _ => "[applause]",
    }
}

/// `needle` occurs in `haystack` as a contiguous run.
pub open spec fn contains_seq(haystack: Seq<char>, needle: Seq<char>) -> bool {
    exists|i: int|
        0 <= i <= haystack.len() - needle.len() && #[trigger] haystack.subrange(
            i,
            i + needle.len(),
        ) == needle
}

/// The lowercase text holds the lowercase form of a known hallucination phrase.
pub open spec fn has_known_phrase(t: Seq<char>) -> bool {
    exists|k: int|
        0 <= k < 7 && contains_seq(lowercase(t), lowercase(#[trigger] hallucination_phrases()[k]))
}

/// Fewer than 30% of the non-whitespace characters are alphabetic.
pub open spec fn mostly_non_alphabetic(t: Seq<char>) -> bool {
    let total: nat = non_space(t).len();
    total > 0 && 10 * alpha_count(t) < 3 * total
}

/// Every character of `s` is `a` or `b`.
pub open spec fn covered_by(s: Seq<char>, a: char, b: char) -> bool {
    forall|i: int| 0 <= i < s.len() ==> #[trigger] s[i] == a || s[i] == b
}

/// `s` holds at most two distinct characters.
pub open spec fn at_most_two_distinct(s: Seq<char>) -> bool {
    exists|a: char, b: char| #[trigger] covered_by(s, a, b)
}

/// `s` with every ASCII letter in lowercase.
pub open spec fn ascii_lower_all(s: Seq<char>) -> Seq<char> {
    s.map_values(|c: char| ascii_lower(c))
}

/// At least 10 non-whitespace characters, and at most two distinct ones
/// when ASCII case is ignored.
pub open spec fn few_distinct_chars(t: Seq<char>) -> bool {
    let s = ascii_lower_all(non_space(t));
    s.len() >= 10 && at_most_two_distinct(s)
}

/// A likely hallucination: after trimming, the text is GPU-contention
/// garbage, shorter than 2 characters, holds a known hallucination phrase,
/// is mostly non-alphabetic, or is 10+ characters of only 1-2 distinct ones.
pub open spec fn likely_hallucination(text: Seq<char>) -> bool {
    let t = trim(text);
    ||| gpu_garbage(t)
    ||| t.len() < 2
    ||| has_known_phrase(t)
    ||| mostly_non_alphabetic(t)
    ||| few_distinct_chars(t)
}

fn contains_chars(haystack: &[char], needle: &[char]) -> (b: bool)
    ensures
        b == contains_seq(haystack@, needle@),
{
    let ghost h = haystack@;
    let ghost n = needle@;
    if needle.len() > haystack.len() {
        return false;
    }
    let last: usize = haystack.len() - needle.len();
    let mut i: usize = 0;
    while i <= last
        invariant
            h == haystack@,
            n == needle@,
            last == h.len() - n.len(),
            forall|k: int| 0 <= k < i ==> #[trigger] h.subrange(k, k + n.len()) != n,
        decreases last + 1 - i,
    {
        let mut j: usize = 0;
        let mut agree = true;
        while agree && j < needle.len()
            invariant
                h == haystack@,
                n == needle@,
                i <= last == h.len() - n.len(),
                i + n.len() <= h.len(),
                h.len() == haystack.len(),
                n.len() == needle.len(),
                j <= n.len(),
                forall|m: int| 0 <= m < j ==> h[i + m] == n[m],
                !agree ==> j < n.len() && h[i + j] != n[j as int],
            decreases n.len() - j + if agree { 1int } else { 0int },
        {
            if haystack[i + j] == needle[j] {
                j += 1;
            } else {
                agree = false;
            }
        }
        if j == needle.len() {
            assert(h.subrange(i as int, i + n.len()) =~= n);
            return true;
        }
        assert(h.subrange(i as int, i + n.len())[j as int] != n[j as int]);
        if i == last {
            return false;
        }
        i += 1;
    }
    false
}

proof fn lemma_three_distinct(s: Seq<char>, p: int, q: int, r: int)
    requires
        0 <= p < s.len(),
        0 <= q < s.len(),
        0 <= r < s.len(),
        s[p] != s[q],
        s[q] != s[r],
        s[p] != s[r],
    ensures
        !at_most_two_distinct(s),
{
    assert forall|a: char, b: char| !#[trigger] covered_by(s, a, b) by {
        if covered_by(s, a, b) {
            assert(s[p] == a || s[p] == b);
            assert(s[q] == a || s[q] == b);
            assert(s[r] == a || s[r] == b);
        }
    }
}

fn two_or_fewer_distinct(s: &[char]) -> (b: bool)
    ensures
        b == at_most_two_distinct(s@),
{
    if s.len() == 0 {
        assert(covered_by(s@, 'a', 'a'));
        return true;
    }
    let a = s[0];
    let mut j: usize = 1;
    while j < s.len() && s[j] == a
        invariant
            1 <= j <= s@.len(),
            a == s@[0],
            forall|i: int| 0 <= i < j ==> s@[i] == a,
        decreases s@.len() - j,
    {
        j += 1;
    }
    if j == s.len() {
        assert(covered_by(s@, a, a));
        return true;
    }
    let b = s[j];
    let mut k: usize = j + 1;
    while k < s.len()
        invariant
            j < k <= s@.len(),
            a == s@[0],
            b == s@[j as int],
            a != b,
            forall|i: int| 0 <= i < k ==> s@[i] == a || s@[i] == b,
        decreases s@.len() - k,
    {
        if s[k] != a && s[k] != b {
            proof {
                lemma_three_distinct(s@, 0, j as int, k as int);
            }
            return false;
        }
        k += 1;
    }
    assert(covered_by(s@, a, b));
    true
}

fn ascii_lower_chars(s: &[char]) -> (r: Vec<char>)
    ensures
        r@ == ascii_lower_all(s@),
{
    let mut r: Vec<char> = Vec::new();
    let mut i: usize = 0;
    while i < s.len()
        invariant
            i <= s@.len(),
            r@ == ascii_lower_all(s@.take(i as int)),
        decreases s@.len() - i,
    {
        r.push(to_ascii_lower(s[i]));
        i += 1;
        assert(ascii_lower_all(s@.take(i as int)) =~= ascii_lower_all(s@.take(i - 1)).push(
            ascii_lower(s@[i - 1]),
        ));
    }
    assert(s@.take(s@.len() as int) =~= s@);
    r
}

/// Core of `is_likely_hallucination`, on characters.
pub fn likely_hallucination_chars(text: &[char]) -> (b: bool)
    ensures
        b == likely_hallucination(text@),
{
    let t = trim_whitespace(text);
    if gpu_garbage_chars(t.as_slice()) {
        return true;
    }
    if t.len() < 2 {
        return true;
    }
    let lower = to_lowercase(t.as_slice());
    let mut k: usize = 0;
    while k < 7
        invariant
            k <= 7,
            t@ == trim(text@),
            lower@ == lowercase(t@),
            forall|m: int|
                0 <= m < k ==> !contains_seq(
                    lowercase(t@),
                    lowercase(#[trigger] hallucination_phrases()[m]),
                ),
        decreases 7 - k,
    {
        let phrase = chars_of(hallucination_phrase(k));
        let phrase_lower = to_lowercase(phrase.as_slice());
        if contains_chars(lower.as_slice(), phrase_lower.as_slice()) {
            assert(phrase_lower@ == lowercase(hallucination_phrases()[k as int]));
            assert(has_known_phrase(t@));
            return true;
        }
        k += 1;
    }
    let alpha: usize = count_alpha(t.as_slice());
    let ns = non_space_chars(t.as_slice());
    if ns.len() > 0 && (alpha as u128) * 10 < (ns.len() as u128) * 3 {
        return true;
    }
    let folded = ascii_lower_chars(ns.as_slice());
    if folded.len() >= 10 && two_or_fewer_distinct(folded.as_slice()) {
        return true;
    }
    false
}

/// Detects if text is likely a hallucination (garbage output) of the model.
///
/// True if the trimmed text is GPU-contention garbage, is shorter than 2
/// characters, holds a known hallucination phrase (case-insensitive), has more
/// than 70% non-alphabetic characters, or is 10+ characters made of only
/// 1-2 distinct characters.
pub fn is_likely_hallucination(text: &str) -> (b: bool)
    ensures
        b == likely_hallucination(text@),
{
    let chars = chars_of(text);
    likely_hallucination_chars(chars.as_slice())
}

} // verus!
