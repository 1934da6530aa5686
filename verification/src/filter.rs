//! Cleaning transcriptions: repeated punctuation, single-letter
//! hallucinations, filler words, stutters and extra whitespace.

use vstd::prelude::*;
use crate::chars::{is_alphabetic, is_alphabetic_char, lowercase, to_lowercase};
use crate::pattern::{
    compile, escape, regex_compiles, regex_escaped, regex_replace_all, replace_all, Pattern,
    PatternError,
};
use crate::text::{
    append_chars, chars_equal, chars_of, copy_chars, join_with_spaces, join_words,
    split_whitespace, split_words, string_from_chars, trim, trim_whitespace, views,
};

verus! {

/// The index just past the run of words, starting at `from`, that satisfy `p`.
pub open spec fn run_end(ws: Seq<Seq<char>>, p: spec_fn(Seq<char>) -> bool, from: int) -> int
    decreases ws.len() - from,
{
    if 0 <= from < ws.len() && p(ws[from]) {
        run_end(ws, p, from + 1)
    } else {
        from
    }
}

pub proof fn lemma_run_end_bounds(ws: Seq<Seq<char>>, p: spec_fn(Seq<char>) -> bool, from: int)
    requires
        0 <= from,
    ensures
        from <= run_end(ws, p, from),
        from <= ws.len() ==> run_end(ws, p, from) <= ws.len(),
        forall|k: int| from <= k < run_end(ws, p, from) ==> p(#[trigger] ws[k]),
        run_end(ws, p, from) < ws.len() ==> !p(ws[run_end(ws, p, from)]),
    decreases ws.len() - from,
{
    if 0 <= from < ws.len() && p(ws[from]) {
        lemma_run_end_bounds(ws, p, from + 1);
    }
}

/// A word whose lowercase form is the single character `target`.
pub open spec fn is_letter_word(target: char) -> spec_fn(Seq<char>) -> bool {
    |w: Seq<char>| lowercase(w).len() == 1 && lowercase(w)[0] == target
}

/// A word whose lowercase form is a single alphabetic character.
pub open spec fn single_letter(w: Seq<char>) -> bool {
    lowercase(w).len() == 1 && is_alphabetic_char(lowercase(w)[0])
}

/// The words from index `i` on, with every run of 5 or more words that are
/// the same single letter (ignoring case) left out. A run starts at a
/// single-letter word and takes the following words with the same
/// lowercase letter; shorter runs are kept word by word.
pub open spec fn drop_letter_runs_from(ws: Seq<Seq<char>>, i: int) -> Seq<Seq<char>>
    decreases ws.len() - i,
{
    if i < 0 || i >= ws.len() {
        seq![]
    } else {
        let end: int = run_end(ws, is_letter_word(lowercase(ws[i])[0]), i + 1);
        proof {
            lemma_run_end_bounds(ws, is_letter_word(lowercase(ws[i])[0]), i + 1);
        }
        if single_letter(ws[i]) && end - i >= 5 {
            drop_letter_runs_from(ws, end)
        } else {
            seq![ws[i]].add(drop_letter_runs_from(ws, i + 1))
        }
    }
}

/// `remove_repeated_single_chars`: the text unchanged when it has no word,
/// else its words without long single-letter runs, joined by single spaces.
pub open spec fn without_letter_runs(text: Seq<char>) -> Seq<char> {
    let ws = split_words(text);
    if ws.len() == 0 {
        text
    } else {
        join_words(drop_letter_runs_from(ws, 0))
    }
}

/// A word whose lowercase form is `lower`.
pub open spec fn is_same_word(lower: Seq<char>) -> spec_fn(Seq<char>) -> bool {
    |w: Seq<char>| lowercase(w) == lower
}

/// One or two characters, all alphabetic.
pub open spec fn short_alphabetic(lower: Seq<char>) -> bool {
    lower.len() <= 2 && forall|k: int| 0 <= k < lower.len() ==> is_alphabetic_char(
        #[trigger] lower[k],
    )
}

/// The words from index `i` on, with every run of 3 or more consecutive
/// copies (ignoring case) of a short alphabetic word collapsed to its first
/// word; shorter runs are kept.
pub open spec fn collapse_from(ws: Seq<Seq<char>>, i: int) -> Seq<Seq<char>>
    decreases ws.len() - i,
{
    if i < 0 || i >= ws.len() {
        seq![]
    } else {
        let lower = lowercase(ws[i]);
        let end: int = run_end(ws, is_same_word(lower), i + 1);
        proof {
            lemma_run_end_bounds(ws, is_same_word(lower), i + 1);
        }
        if short_alphabetic(lower) && end - i >= 3 {
            seq![ws[i]].add(collapse_from(ws, end))
        } else {
            seq![ws[i]].add(collapse_from(ws, i + 1))
        }
    }
}

/// `collapse_stutters`: the text unchanged when it has no word, else its
/// words with stutters collapsed, joined by single spaces.
pub open spec fn collapsed(text: Seq<char>) -> Seq<char> {
    let ws = split_words(text);
    if ws.len() == 0 {
        text
    } else {
        join_words(collapse_from(ws, 0))
    }
}

fn letter_word(w: &[char], target: char) -> (b: bool)
    ensures
        b == is_letter_word(target)(w@),
{
    let lower = to_lowercase(w);
    lower.len() == 1 && lower[0] == target
}

fn drop_letter_runs(words: &Vec<Vec<char>>) -> (r: Vec<Vec<char>>)
    ensures
        views(r@) == drop_letter_runs_from(views(words@), 0),
{
    let ghost ws = views(words@);
    let mut r: Vec<Vec<char>> = Vec::new();
    let mut i: usize = 0;
    while i < words.len()
        invariant
            i <= words@.len(),
            ws == views(words@),
            views(r@) + drop_letter_runs_from(ws, i as int) == drop_letter_runs_from(ws, 0),
        decreases words@.len() - i,
    {
        let lower = to_lowercase(words[i].as_slice());
        let ghost p = is_letter_word(lower@[0]);
        proof {
            lemma_run_end_bounds(ws, p, i + 1);
        }
        if lower.len() == 1 && is_alphabetic(lower[0]) {
            let target = lower[0];
            let mut count: usize = 1;
            let mut more = true;
            while more && i + count < words.len()
                invariant
                    1 <= count,
                    i + count <= words@.len(),
                    words@.len() == words.len(),
                    ws == views(words@),
                    p == is_letter_word(target),
                    run_end(ws, p, i + 1) == run_end(ws, p, (i + count) as int),
                    !more ==> run_end(ws, p, (i + count) as int) == i + count,
                decreases words@.len() - i - count + if more { 1int } else { 0int },
            {
                if letter_word(words[i + count].as_slice(), target) {
                    count += 1;
                } else {
                    more = false;
                }
            }
            if count >= 5 {
                i += count;
                continue;
            }
        }
        let ghost before = views(r@);
        r.push(copy_chars(words[i].as_slice()));
        assert(views(r@) =~= before.push(ws[i as int]));
        assert(before.push(ws[i as int]) + drop_letter_runs_from(ws, i + 1) =~= before + (seq![
            ws[i as int],
        ].add(drop_letter_runs_from(ws, i + 1))));
        i += 1;
    }
    assert(views(r@) + drop_letter_runs_from(ws, i as int) =~= views(r@));
    r
}

/// Removes runs of 5 or more repeated single letters, like "f f f f f":
/// a hallucination pattern, not a stutter (stutters are collapsed at 3+).
pub fn remove_repeated_single_chars(text: &[char]) -> (r: Vec<char>)
    ensures
        r@ == without_letter_runs(text@),
{
    let words = split_whitespace(text);
    if words.len() == 0 {
        return copy_chars(text);
    }
    let kept = drop_letter_runs(&words);
    join_with_spaces(kept.as_slice())
}


fn all_alphabetic(s: &[char]) -> (b: bool)
    ensures
        b == forall|k: int| 0 <= k < s@.len() ==> is_alphabetic_char(#[trigger] s@[k]),
{
    let mut i: usize = 0;
    while i < s.len()
        invariant
            i <= s@.len(),
            forall|k: int| 0 <= k < i ==> is_alphabetic_char(#[trigger] s@[k]),
        decreases s@.len() - i,
    {
        if !is_alphabetic(s[i]) {
            return false;
        }
        i += 1;
    }
    true
}

fn collapse_words(words: &Vec<Vec<char>>) -> (r: Vec<Vec<char>>)
    ensures
        views(r@) == collapse_from(views(words@), 0),
{
    let ghost ws = views(words@);
    let mut r: Vec<Vec<char>> = Vec::new();
    let mut i: usize = 0;
    while i < words.len()
        invariant
            i <= words@.len(),
            ws == views(words@),
            views(r@) + collapse_from(ws, i as int) == collapse_from(ws, 0),
        decreases words@.len() - i,
    {
        let lower = to_lowercase(words[i].as_slice());
        let ghost p = is_same_word(lower@);
        proof {
            lemma_run_end_bounds(ws, p, i + 1);
        }
        let mut step: usize = 1;
        if lower.len() <= 2 && all_alphabetic(lower.as_slice()) {
            let mut count: usize = 1;
            let mut more = true;
            while more && i + count < words.len()
                invariant
                    1 <= count,
                    i + count <= words@.len(),
                    words@.len() == words.len(),
                    ws == views(words@),
                    p == is_same_word(lower@),
                    run_end(ws, p, i + 1) == run_end(ws, p, (i + count) as int),
                    !more ==> run_end(ws, p, (i + count) as int) == i + count,
                decreases words@.len() - i - count + if more { 1int } else { 0int },
            {
                let next = to_lowercase(words[i + count].as_slice());
                if chars_equal(next.as_slice(), lower.as_slice()) {
                    count += 1;
                } else {
                    more = false;
                }
            }
            if count >= 3 {
                step = count;
            }
        }
        let ghost before = views(r@);
        r.push(copy_chars(words[i].as_slice()));
        assert(views(r@) =~= before.push(ws[i as int]));
        assert(before.push(ws[i as int]) + collapse_from(ws, i + step) =~= before + (seq![
            ws[i as int],
        ].add(collapse_from(ws, i + step))));
        i += step;
    }
    assert(views(r@) + collapse_from(ws, i as int) =~= views(r@));
    r
}

/// Collapses 3 or more consecutive repetitions of a 1-2 letter word to a
/// single instance: "wh wh wh wh" becomes "wh", "I I I I" becomes "I".
pub fn collapse_stutters(text: &[char]) -> (r: Vec<char>)
    ensures
        r@ == collapsed(text@),
{
    let words = split_whitespace(text);
    if words.len() == 0 {
        return copy_chars(text);
    }
    let kept = collapse_words(&words);
    join_with_spaces(kept.as_slice())
}


/// Runs of repeated punctuation and what each run becomes:
/// "!!!" to "!", "???" to "?", "...." to "...", ",,," to ",", "---" to "--".
pub open spec fn punct_rules() -> Seq<(Seq<char>, Seq<char>)> {
    seq![
        ("!{3,}"@, "!"@),
        ("\\?{3,}"@, "?"@),
        ("\\.{4,}"@, "..."@),
        (",{3,}"@, ","@),
        ("-{3,}"@, "--"@),
    ]
}

/// Filler words removed from transcriptions.
pub open spec fn filler_words() -> Seq<Seq<char>> {
    seq![
        "uh"@,
        "um"@,
        "uhm"@,
        "umm"@,
        "uhh"@,
        "uhhh"@,
        "ah"@,
        "eh"@,
        "hmm"@,
        "hm"@,
        "mmm"@,
        "mm"@,
        "mh"@,
        "ha"@,
        "ehh"@,
    ]
}

/// The pattern for a filler word: the word, case-insensitive, between word
/// boundaries, with an optional comma or period after it.
pub open spec fn filler_source(word: Seq<char>) -> Seq<char> {
    "(?i)\\b"@ + regex_escaped(word) + "\\b[,.]?"@
}

/// Each filler pattern, replaced by nothing.
pub open spec fn filler_rules() -> Seq<(Seq<char>, Seq<char>)> {
    filler_words().map_values(|w: Seq<char>| (filler_source(w), ""@))
}

/// Two or more whitespace characters.
pub open spec fn space_source() -> Seq<char> {
    "\\s{2,}"@
}

/// `text` after replacing all matches of each rule's pattern with its
/// replacement, rule after rule.
pub open spec fn replace_in_turn(text: Seq<char>, rules: Seq<(Seq<char>, Seq<char>)>) -> Seq<char>
    decreases rules.len(),
{
    if rules.len() == 0 {
        text
    } else {
        regex_replace_all(rules.last().0, replace_in_turn(text, rules.drop_last()), rules.last().1)
    }
}

/// Every pattern that the filter uses compiles.
pub open spec fn all_rules_compile() -> bool {
    &&& forall|k: int| 0 <= k < 5 ==> regex_compiles(#[trigger] punct_rules()[k].0)
    &&& forall|k: int| 0 <= k < 15 ==> regex_compiles(#[trigger] filler_rules()[k].0)
    &&& regex_compiles(space_source())
}

/// The cleaned transcription: repeated punctuation collapsed, long
/// single-letter runs removed, filler words removed, stutters collapsed,
/// runs of whitespace made single spaces, and the ends trimmed.
pub open spec fn filtered(text: Seq<char>) -> Seq<char> {
    let t1 = replace_in_turn(text, punct_rules());
    let t2 = without_letter_runs(t1);
    let t3 = replace_in_turn(t2, filler_rules());
    let t4 = collapsed(t3);
    let t5 = regex_replace_all(space_source(), t4, " "@);
    trim(t5)
}

fn punct_rule(k: usize) -> (r: (&'static str, &'static str))
    requires
        k < 5,
    ensures
        r.0@ == punct_rules()[k as int].0,
        r.1@ == punct_rules()[k as int].1,
{
    match k {
        0 => ("!{3,}", "!"),
        1 => ("\\?{3,}", "?"),
        2 => ("\\.{4,}", "..."),
        3 => (",{3,}", ","),
        _ => ("-{3,}", "--"),
    }
}

fn filler_word(k: usize) -> (w: &'static str)
    requires
        k < 15,
    ensures
        w@ == filler_words()[k as int],
{
    match k {
        0 => "uh",
        1 => "um",
        2 => "uhm",
        3 => "umm",
        4 => "uhh",
        5 => "uhhh",
        6 => "ah",
        7 => "eh",
        8 => "hmm",
        9 => "hm",
        10 => "mmm",
        11 => "mm",
        12 => "mh",
        13 => "ha",
        _ => "ehh",
    }
}

fn filler_pattern_source(word: &str) -> (s: String)
    ensures
        s@ == filler_source(word@),
{
    let mut v = chars_of("(?i)\\b");
    let escaped = escape(word);
    let escaped_chars = chars_of(escaped.as_str());
    append_chars(&mut v, escaped_chars.as_slice());
    let tail = chars_of("\\b[,.]?");
    append_chars(&mut v, tail.as_slice());
    string_from_chars(v.as_slice())
}

/// The compiled patterns of the transcription filter.
pub struct FilterPatterns {
    punct: Vec<Pattern>,
    fillers: Vec<Pattern>,
    spaces: Pattern,
}

impl FilterPatterns {
    /// Each pattern was compiled from the source the filter rules give it.
    pub closed spec fn wf(&self) -> bool {
        &&& self.punct@.len() == 5
        &&& forall|k: int| 0 <= k < 5 ==> (#[trigger] self.punct@[k]).source() == punct_rules()[k].0
        &&& self.fillers@.len() == 15
        &&& forall|k: int|
            0 <= k < 15 ==> (#[trigger] self.fillers@[k]).source() == filler_rules()[k].0
        &&& self.spaces.source() == space_source()
    }

    /// Compiles every pattern of the filter; fails exactly when one of them
    /// does not compile.
    pub fn new() -> (r: Result<FilterPatterns, PatternError>)
        ensures
            r is Ok <==> all_rules_compile(),
            r matches Ok(p) ==> p.wf(),
    {
        let mut punct: Vec<Pattern> = Vec::new();
        let mut k: usize = 0;
        while k < 5
            invariant
                k <= 5,
                punct@.len() == k,
                forall|j: int| 0 <= j < k ==> (#[trigger] punct@[j]).source() == punct_rules()[j].0,
                forall|j: int| 0 <= j < k ==> regex_compiles(#[trigger] punct_rules()[j].0),
            decreases 5 - k,
        {
            let (source, _) = punct_rule(k);
            match compile(source) {
                Ok(p) => punct.push(p),
                Err(e) => {
                    return Err(e);
                },
            }
            k += 1;
        }
        let mut fillers: Vec<Pattern> = Vec::new();
        let mut k: usize = 0;
        while k < 15
            invariant
                k <= 15,
                fillers@.len() == k,
                forall|j: int|
                    0 <= j < k ==> (#[trigger] fillers@[j]).source() == filler_rules()[j].0,
                forall|j: int| 0 <= j < k ==> regex_compiles(#[trigger] filler_rules()[j].0),
            decreases 15 - k,
        {
            let source = filler_pattern_source(filler_word(k));
            assert(filler_rules()[k as int].0 == filler_source(filler_words()[k as int]));
            match compile(source.as_str()) {
                Ok(p) => fillers.push(p),
                Err(e) => {
                    return Err(e);
                },
            }
            k += 1;
        }
        match compile("\\s{2,}") {
            Ok(spaces) => Ok(FilterPatterns { punct, fillers, spaces }),
            Err(e) => Err(e),
        }
    }
}

/// `filter_transcription_output` with the patterns already compiled.
pub fn filter_with(text: &str, patterns: &FilterPatterns) -> (r: String)
    requires
        patterns.wf(),
    ensures
        r@ == filtered(text@),
{
    let mut t: String = text.to_owned();
    let mut k: usize = 0;
    while k < 5
        invariant
            k <= 5,
            patterns.wf(),
            t@ == replace_in_turn(text@, punct_rules().take(k as int)),
        decreases 5 - k,
    {
        let (_, replacement) = punct_rule(k);
        assert(punct_rules().take(k + 1).drop_last() =~= punct_rules().take(k as int));
        t = replace_all(&patterns.punct[k], t.as_str(), replacement);
        k += 1;
    }
    assert(punct_rules().take(5) =~= punct_rules());
    let ghost t1 = t@;
    let chars = chars_of(t.as_str());
    let kept = remove_repeated_single_chars(chars.as_slice());
    t = string_from_chars(kept.as_slice());
    let ghost t2 = t@;
    let mut k: usize = 0;
    while k < 15
        invariant
            k <= 15,
            patterns.wf(),
            t@ == replace_in_turn(t2, filler_rules().take(k as int)),
        decreases 15 - k,
    {
        assert(filler_rules().take(k + 1).drop_last() =~= filler_rules().take(k as int));
        t = replace_all(&patterns.fillers[k], t.as_str(), "");
        k += 1;
    }
    assert(filler_rules().take(15) =~= filler_rules());
    let chars = chars_of(t.as_str());
    let collapsed_chars = collapse_stutters(chars.as_slice());
    t = string_from_chars(collapsed_chars.as_slice());
    t = replace_all(&patterns.spaces, t.as_str(), " ");
    let chars = chars_of(t.as_str());
    let trimmed = trim_whitespace(chars.as_slice());
    string_from_chars(trimmed.as_slice())
}

/// Filters transcription output by removing filler words, stutter
/// artifacts and hallucinated letter runs: repeated punctuation is
/// collapsed ("!!!" becomes "!"), runs of 5+ single letters are removed
/// ("f f f f f"), filler words (uh, um, hmm, ...) are removed, repeated 1-2
/// letter stutters are collapsed ("wh wh wh" becomes "wh"), and excess
/// whitespace is cleaned up. Should a pattern fail to compile, the text is
/// returned unchanged.
pub fn filter_transcription_output(text: &str) -> (r: String)
    ensures
        all_rules_compile() ==> r@ == filtered(text@),
        !all_rules_compile() ==> r@ == text@,
{
    match FilterPatterns::new() {
        Ok(patterns) => filter_with(text, &patterns),
        Err(_) => text.to_owned(),
    }
}

} // verus!
