//! Properties that relate the library's functions to each other.

use vstd::prelude::*;
use crate::chars::{byte_len, is_alphabetic_char, is_whitespace_char, lowercase};
use crate::custom_words::{
    candidates_upto, choice_at, cleaned, considered, edit_distance, leading_non_alpha, lowered,
    punct_prefix, punct_suffix, rewritten_words, trailing_non_alpha, word_candidates,
    WordCandidate,
};
use crate::filter::{
    collapse_from, collapsed, drop_letter_runs_from, filler_rules, filler_words, filtered,
    is_letter_word, is_same_word, lemma_run_end_bounds, punct_rules, replace_in_turn, run_end,
    short_alphabetic, single_letter, space_source, without_letter_runs,
};
use crate::hallucination::{
    contains_seq, first_word_dominates, gpu_garbage, has_known_phrase, hallucination_phrases,
    likely_hallucination, lowercases_to,
};
use crate::pattern::{is_meta_character, regex_escaped, regex_replace_all};
use crate::text::{
    in_class, join_words, split_words, trim, trim_by, trim_end_by, trim_start_by, CharClass,
};

verus! {

proof fn lemma_trim_start_first(s: Seq<char>, p: spec_fn(char) -> bool)
    ensures
        trim_start_by(s, p).len() == 0 || !p(trim_start_by(s, p)[0]),
    decreases s.len(),
{
    if s.len() > 0 && p(s[0]) {
        lemma_trim_start_first(s.drop_first(), p);
    }
}

proof fn lemma_trim_end_shape(s: Seq<char>, p: spec_fn(char) -> bool)
    ensures
        trim_end_by(s, p).len() <= s.len(),
        trim_end_by(s, p) == s.take(trim_end_by(s, p).len() as int),
        trim_end_by(s, p).len() == 0 || !p(trim_end_by(s, p).last()),
        s.len() > 0 && !p(s[0]) ==> trim_end_by(s, p).len() > 0,
    decreases s.len(),
{
    if s.len() > 0 && p(s.last()) {
        lemma_trim_end_shape(s.drop_last(), p);
        let r = trim_end_by(s.drop_last(), p);
        assert(s.drop_last().take(r.len() as int) =~= s.take(r.len() as int));
    } else {
        assert(s.take(s.len() as int) =~= s);
    }
}

/// Trimming leaves nothing to trim: the result is empty, or its first and
/// last characters are kept by the predicate.
pub proof fn lemma_trim_by_ends(s: Seq<char>, p: spec_fn(char) -> bool)
    ensures
        trim_by(s, p).len() == 0 || (!p(trim_by(s, p)[0]) && !p(trim_by(s, p).last())),
{
    let t = trim_start_by(s, p);
    lemma_trim_start_first(s, p);
    lemma_trim_end_shape(t, p);
    let u = trim_end_by(t, p);
    if u.len() > 0 {
        assert(u[0] == t.take(u.len() as int)[0]);
    }
}

/// Trimming twice is trimming once.
pub proof fn lemma_trim_idempotent(s: Seq<char>, p: spec_fn(char) -> bool)
    ensures
        trim_by(trim_by(s, p), p) == trim_by(s, p),
{
    let u = trim_by(s, p);
    lemma_trim_by_ends(s, p);
    if u.len() == 0 {
        assert(trim_start_by(u, p) == u);
    } else {
        assert(trim_start_by(u, p) == u);
        assert(trim_end_by(u, p) == u);
    }
}

/// The GPU-contention check ignores surrounding whitespace.
pub proof fn law_gpu_garbage_ignores_surrounding_whitespace(text: Seq<char>)
    ensures
        gpu_garbage(trim(text)) == gpu_garbage(text),
{
    lemma_trim_idempotent(text, in_class(CharClass::Whitespace));
}

/// The hallucination check ignores surrounding whitespace.
pub proof fn law_likely_hallucination_ignores_surrounding_whitespace(text: Seq<char>)
    ensures
        likely_hallucination(trim(text)) == likely_hallucination(text),
{
    lemma_trim_idempotent(text, in_class(CharClass::Whitespace));
}

/// GPU-contention garbage is always judged a likely hallucination.
pub proof fn law_gpu_garbage_is_likely_hallucination(text: Seq<char>)
    requires
        gpu_garbage(text),
    ensures
        likely_hallucination(text),
{
    law_gpu_garbage_ignores_surrounding_whitespace(text);
}

/// Text that is empty or only whitespace is judged garbage by both checks.
pub proof fn law_blank_text_is_hallucination(text: Seq<char>)
    requires
        trim(text).len() == 0,
    ensures
        gpu_garbage(text),
        likely_hallucination(text),
{
    law_gpu_garbage_is_likely_hallucination(text);
}

/// The filtered transcription neither starts nor ends with whitespace.
pub proof fn law_filtered_has_no_surrounding_whitespace(text: Seq<char>)
    ensures
        filtered(text).len() == 0 || (!is_whitespace_char(filtered(text)[0])
            && !is_whitespace_char(filtered(text).last())),
{
    let t1 = replace_in_turn(text, punct_rules());
    let t3 = replace_in_turn(without_letter_runs(t1), filler_rules());
    let t5 = regex_replace_all(space_source(), collapsed(t3), " "@);
    lemma_trim_by_ends(t5, in_class(CharClass::Whitespace));
}

/// Three consecutive words from position `k` on that are the same 1-2
/// letter word, ignoring case.
pub open spec fn stutter_at(ws: Seq<Seq<char>>, k: int) -> bool {
    &&& 0 <= k
    &&& k + 2 < ws.len()
    &&& short_alphabetic(lowercase(ws[k]))
    &&& lowercase(ws[k + 1]) == lowercase(ws[k])
    &&& lowercase(ws[k + 2]) == lowercase(ws[k])
}

proof fn lemma_collapse_from_head(ws: Seq<Seq<char>>, j: int)
    requires
        0 <= j < ws.len(),
    ensures
        collapse_from(ws, j).len() >= 1,
        collapse_from(ws, j)[0] == ws[j],
{
}

proof fn lemma_collapse_from_no_stutter(ws: Seq<Seq<char>>, i: int)
    requires
        0 <= i,
    ensures
        forall|k: int| !stutter_at(collapse_from(ws, i), k),
    decreases ws.len() - i,
{
    if i < ws.len() {
        let x = lowercase(ws[i]);
        let p = is_same_word(x);
        let end: int = run_end(ws, p, i + 1);
        lemma_run_end_bounds(ws, p, i + 1);
        let out = collapse_from(ws, i);
        let e: int = if short_alphabetic(x) && end - i >= 3 {
            end
        } else {
            i + 1
        };
        let rest = collapse_from(ws, e);
        assert(out == seq![ws[i]].add(rest));
        lemma_collapse_from_no_stutter(ws, e);
        assert forall|k: int| !stutter_at(out, k) by {
            if k >= 1 && stutter_at(out, k) {
                assert(out[k] == rest[k - 1]);
                assert(out[k + 1] == rest[k]);
                assert(out[k + 2] == rest[k + 1]);
                assert(stutter_at(rest, k - 1));
            }
            if k == 0 && stutter_at(out, 0) {
                lemma_collapse_from_head(ws, e);
                assert(rest[0] == ws[e]);
                if e == end {
                    assert(!p(ws[end]));
                } else {
                    assert(p(ws[i + 1]));
                    assert(run_end(ws, p, i + 1) == run_end(ws, p, i + 2));
                    lemma_run_end_bounds(ws, p, i + 2);
                    assert(end == i + 2);
                    assert(lowercase(ws[i + 1]) == x);
                    assert(collapse_from(ws, i + 1) == seq![ws[i + 1]].add(
                        collapse_from(ws, i + 2),
                    ));
                    lemma_collapse_from_head(ws, i + 2);
                    assert(rest[1] == ws[i + 2]);
                    assert(!p(ws[i + 2]));
                }
            }
        }
    }
}

/// After collapsing, no 1-2 letter word is repeated three or more times in a row.
pub proof fn law_collapse_leaves_no_stutter(ws: Seq<Seq<char>>)
    ensures
        forall|k: int| !stutter_at(collapse_from(ws, 0), k),
{
    lemma_collapse_from_no_stutter(ws, 0);
}

proof fn lemma_collapse_from_identity(ws: Seq<Seq<char>>, i: int)
    requires
        0 <= i <= ws.len(),
        forall|k: int| !stutter_at(ws, k),
    ensures
        collapse_from(ws, i) == ws.skip(i),
    decreases ws.len() - i,
{
    if i < ws.len() {
        let x = lowercase(ws[i]);
        let p = is_same_word(x);
        let end: int = run_end(ws, p, i + 1);
        lemma_run_end_bounds(ws, p, i + 1);
        if short_alphabetic(x) && end - i >= 3 {
            assert(p(ws[i + 1]));
            assert(p(ws[i + 2]));
            assert(stutter_at(ws, i));
        }
        lemma_collapse_from_identity(ws, i + 1);
        assert(seq![ws[i]].add(ws.skip(i + 1)) =~= ws.skip(i));
    } else {
        assert(ws.skip(i) =~= Seq::<Seq<char>>::empty());
    }
}

/// Collapsing stutters a second time changes nothing.
pub proof fn law_collapse_idempotent(ws: Seq<Seq<char>>)
    ensures
        collapse_from(collapse_from(ws, 0), 0) == collapse_from(ws, 0),
{
    let once = collapse_from(ws, 0);
    law_collapse_leaves_no_stutter(ws);
    lemma_collapse_from_identity(once, 0);
    assert(once.skip(0) =~= once);
}

/// Choosing no custom word for any word keeps every word as it is.
pub proof fn law_no_choice_keeps_words(
    ws: Seq<Seq<char>>,
    custom: Seq<Seq<char>>,
    choices: Seq<Option<usize>>,
)
    requires
        forall|i: int| 0 <= i < choices.len() ==> (#[trigger] choices[i]) is None,
    ensures
        rewritten_words(ws, custom, choices) == ws,
{
    assert forall|i: int| 0 <= i < ws.len() implies #[trigger] rewritten_words(
        ws,
        custom,
        choices,
    )[i] == ws[i] by {
        if 0 <= i < choices.len() {
            assert(choices[i] is None);
        }
        assert(choice_at(choices, custom.len() as int, i) is None);
    }
    assert(rewritten_words(ws, custom, choices) =~= ws);
}

proof fn lemma_no_candidates_for_empty(clean: Seq<char>, lowers: Seq<Seq<char>>, n: int)
    requires
        clean.len() == 0,
    ensures
        candidates_upto(clean, lowers, n) == Seq::<crate::custom_words::WordCandidate>::empty(),
    decreases n,
{
    if n > 0 {
        lemma_no_candidates_for_empty(clean, lowers, n - 1);
    }
}

/// A word that is empty once stripped of non-letters and lowercased (pure
/// punctuation, digits) gets no candidate, so it is never corrected.
pub proof fn law_word_without_letters_has_no_candidates(word: Seq<char>, lowers: Seq<Seq<char>>)
    requires
        cleaned(word).len() == 0,
    ensures
        word_candidates(word, lowers).len() == 0,
{
    lemma_no_candidates_for_empty(cleaned(word), lowers, lowers.len() as int);
}

proof fn lemma_leading_non_alpha_run(w: Seq<char>)
    ensures
        leading_non_alpha(w) <= w.len(),
        forall|i: int| 0 <= i < leading_non_alpha(w) ==> !is_alphabetic_char(#[trigger] w[i]),
        leading_non_alpha(w) < w.len() ==> is_alphabetic_char(w[leading_non_alpha(w) as int]),
    decreases w.len(),
{
    if w.len() > 0 && !is_alphabetic_char(w[0]) {
        lemma_leading_non_alpha_run(w.drop_first());
        assert forall|i: int| 0 <= i < leading_non_alpha(w) implies !is_alphabetic_char(
            #[trigger] w[i],
        ) by {
            if i > 0 {
                assert(w[i] == w.drop_first()[i - 1]);
            }
        }
        if leading_non_alpha(w) < w.len() {
            assert(w[leading_non_alpha(w) as int] == w.drop_first()[leading_non_alpha(
                w.drop_first(),
            ) as int]);
        }
    }
}

proof fn lemma_trailing_non_alpha_run(w: Seq<char>)
    ensures
        trailing_non_alpha(w) <= w.len(),
        forall|i: int|
            w.len() - trailing_non_alpha(w) <= i < w.len() ==> !is_alphabetic_char(
                #[trigger] w[i],
            ),
        trailing_non_alpha(w) < w.len() ==> is_alphabetic_char(
            w[w.len() - trailing_non_alpha(w) - 1],
        ),
    decreases w.len(),
{
    if w.len() > 0 && !is_alphabetic_char(w.last()) {
        let d = w.drop_last();
        lemma_trailing_non_alpha_run(d);
        assert forall|i: int|
            w.len() - trailing_non_alpha(w) <= i < w.len() implies !is_alphabetic_char(
            #[trigger] w[i],
        ) by {
            if i < w.len() - 1 {
                assert(w[i] == d[i]);
            }
        }
        if trailing_non_alpha(w) < w.len() {
            assert(w[w.len() - trailing_non_alpha(w) - 1] == d[d.len() - trailing_non_alpha(d)
                - 1]);
        }
    }
}

/// The punctuation of a word is its longest non-alphabetic prefix and
/// suffix; when the word holds a letter, they do not overlap, and the word
/// is the prefix, a core that starts and ends with a letter, and the suffix.
pub proof fn law_punctuation_split(w: Seq<char>)
    ensures
        forall|i: int|
            0 <= i < punct_prefix(w).len() ==> !is_alphabetic_char(#[trigger] punct_prefix(w)[i]),
        leading_non_alpha(w) < w.len() ==> is_alphabetic_char(w[leading_non_alpha(w) as int]),
        forall|i: int|
            0 <= i < punct_suffix(w).len() ==> !is_alphabetic_char(#[trigger] punct_suffix(w)[i]),
        trailing_non_alpha(w) < w.len() ==> is_alphabetic_char(
            w[w.len() - trailing_non_alpha(w) - 1],
        ),
        (exists|i: int| 0 <= i < w.len() && is_alphabetic_char(#[trigger] w[i])) ==> {
            &&& leading_non_alpha(w) + trailing_non_alpha(w) < w.len()
            &&& w == punct_prefix(w) + w.subrange(
                leading_non_alpha(w) as int,
                w.len() - trailing_non_alpha(w),
            ) + punct_suffix(w)
        },
{
    let lead = leading_non_alpha(w) as int;
    let trail = trailing_non_alpha(w) as int;
    lemma_leading_non_alpha_run(w);
    lemma_trailing_non_alpha_run(w);
    assert forall|i: int| 0 <= i < punct_prefix(w).len() implies !is_alphabetic_char(
        #[trigger] punct_prefix(w)[i],
    ) by {
        assert(punct_prefix(w)[i] == w[i]);
    }
    assert forall|i: int| 0 <= i < punct_suffix(w).len() implies !is_alphabetic_char(
        #[trigger] punct_suffix(w)[i],
    ) by {
        assert(punct_suffix(w)[i] == w[w.len() - trail + i]);
    }
    if exists|i: int| 0 <= i < w.len() && is_alphabetic_char(#[trigger] w[i]) {
        let a = choose|i: int| 0 <= i < w.len() && is_alphabetic_char(#[trigger] w[i]);
        assert(lead <= a);
        assert(a < w.len() - trail);
        assert(w =~= punct_prefix(w) + w.subrange(lead, w.len() - trail) + punct_suffix(w));
    }
}

/// A word as `split_words` produces them: not empty, no whitespace.
pub open spec fn is_plain_word(w: Seq<char>) -> bool {
    w.len() > 0 && forall|k: int| 0 <= k < w.len() ==> !is_whitespace_char(#[trigger] w[k])
}

/// Every word of the list is a plain word.
pub open spec fn all_plain_words(ws: Seq<Seq<char>>) -> bool {
    forall|i: int| 0 <= i < ws.len() ==> is_plain_word(#[trigger] ws[i])
}

proof fn lemma_split_words_plain(s: Seq<char>)
    ensures
        all_plain_words(split_words(s)),
        split_words(s).len() > 0 && !is_whitespace_char(s.last()) ==> split_words(s).last()
            .last() == s.last(),
        s.len() > 0 && !is_whitespace_char(s.last()) ==> split_words(s).len() > 0,
    decreases s.len(),
{
    if s.len() > 0 {
        let init = split_words(s.drop_last());
        lemma_split_words_plain(s.drop_last());
        let c = s.last();
        if !is_whitespace_char(c) {
            if s.len() >= 2 && !is_whitespace_char(s[s.len() - 2]) {
                assert(s.drop_last().last() == s[s.len() - 2]);
                let w = init.last().push(c);
                assert(is_plain_word(w)) by {
                    assert forall|k: int| 0 <= k < w.len() implies !is_whitespace_char(
                        #[trigger] w[k],
                    ) by {
                        if k < w.len() - 1 {
                            assert(w[k] == init.last()[k]);
                            assert(is_plain_word(init[init.len() - 1]));
                        }
                    }
                }
                assert forall|i: int| 0 <= i < split_words(s).len() implies is_plain_word(
                    #[trigger] split_words(s)[i],
                ) by {
                    if i < init.len() - 1 {
                        assert(split_words(s)[i] == init[i]);
                    }
                }
            } else {
                assert(is_plain_word(seq![c]));
                assert forall|i: int| 0 <= i < split_words(s).len() implies is_plain_word(
                    #[trigger] split_words(s)[i],
                ) by {
                    if i < init.len() {
                        assert(split_words(s)[i] == init[i]);
                    }
                }
            }
        }
    }
}

proof fn lemma_split_append_word(x: Seq<char>, w: Seq<char>, k: int)
    requires
        x.len() == 0 || is_whitespace_char(x.last()),
        is_plain_word(w),
        1 <= k <= w.len(),
    ensures
        split_words(x + w.take(k)) == split_words(x).push(w.take(k)),
    decreases k,
{
    let s = x + w.take(k);
    assert(s.drop_last() =~= x + w.take(k - 1));
    assert(s.last() == w[k - 1]);
    if k == 1 {
        assert(x + w.take(0) =~= x);
        if s.len() >= 2 {
            assert(s[s.len() - 2] == x.last());
        }
        assert(w.take(1) =~= seq![w[0]]);
    } else {
        lemma_split_append_word(x, w, k - 1);
        assert(s[s.len() - 2] == w[k - 2]);
        let init = split_words(x).push(w.take(k - 1));
        assert(init.drop_last() =~= split_words(x));
        assert(init.last().push(w[k - 1]) =~= w.take(k));
    }
}

/// Joining plain words with single spaces and splitting the result on
/// whitespace gives the words back.
pub proof fn law_split_join_roundtrip(ws: Seq<Seq<char>>)
    requires
        all_plain_words(ws),
    ensures
        split_words(join_words(ws)) == ws,
    decreases ws.len(),
{
    if ws.len() == 1 {
        lemma_split_append_word(Seq::empty(), ws[0], ws[0].len() as int);
        assert(Seq::<char>::empty() + ws[0].take(ws[0].len() as int) =~= ws[0]);
        assert(Seq::<Seq<char>>::empty().push(ws[0]) =~= ws);
    } else if ws.len() >= 2 {
        let front = ws.drop_last();
        assert(all_plain_words(front)) by {
            assert forall|i: int| 0 <= i < front.len() implies is_plain_word(
                #[trigger] front[i],
            ) by {
                assert(front[i] == ws[i]);
            }
        }
        law_split_join_roundtrip(front);
        let x = join_words(front) + seq![' '];
        assert(x.drop_last() =~= join_words(front));
        assert(split_words(x) == front);
        let w = ws.last();
        assert(is_plain_word(ws[ws.len() - 1]));
        lemma_split_append_word(x, w, w.len() as int);
        assert(w.take(w.len() as int) =~= w);
        assert(front.push(w) =~= ws);
    }
}

proof fn lemma_collapse_from_plain(ws: Seq<Seq<char>>, i: int)
    requires
        0 <= i,
        all_plain_words(ws),
    ensures
        all_plain_words(collapse_from(ws, i)),
        i < ws.len() ==> collapse_from(ws, i).len() > 0,
    decreases ws.len() - i,
{
    if i < ws.len() {
        let x = lowercase(ws[i]);
        let p = is_same_word(x);
        let end: int = run_end(ws, p, i + 1);
        lemma_run_end_bounds(ws, p, i + 1);
        let e: int = if short_alphabetic(x) && end - i >= 3 {
            end
        } else {
            i + 1
        };
        lemma_collapse_from_plain(ws, e);
        let out = collapse_from(ws, i);
        let rest = collapse_from(ws, e);
        assert(out == seq![ws[i]].add(rest));
        assert forall|k: int| 0 <= k < out.len() implies is_plain_word(#[trigger] out[k]) by {
            if k > 0 {
                assert(out[k] == rest[k - 1]);
            }
        }
    }
}

/// Collapsing stutters in a text a second time changes nothing.
pub proof fn law_collapse_stutters_idempotent(text: Seq<char>)
    ensures
        collapsed(collapsed(text)) == collapsed(text),
{
    let ws = split_words(text);
    if ws.len() > 0 {
        lemma_split_words_plain(text);
        let once = collapse_from(ws, 0);
        lemma_collapse_from_plain(ws, 0);
        law_split_join_roundtrip(once);
        law_collapse_idempotent(ws);
    }
}

/// No 1-2 letter word occurs three or more times in a row in a text
/// whose stutters were collapsed.
pub proof fn law_collapsed_text_has_no_stutter(text: Seq<char>)
    ensures
        forall|k: int| !stutter_at(split_words(collapsed(text)), k),
{
    let ws = split_words(text);
    if ws.len() > 0 {
        lemma_split_words_plain(text);
        lemma_collapse_from_plain(ws, 0);
        law_split_join_roundtrip(collapse_from(ws, 0));
        law_collapse_leaves_no_stutter(ws);
    } else {
        assert forall|k: int| !stutter_at(split_words(collapsed(text)), k) by {
            assert(split_words(collapsed(text)) == ws);
        }
    }
}

proof fn lemma_edit_distance_self(a: Seq<char>)
    ensures
        edit_distance(a, a) == 0,
    decreases a.len(),
{
    if a.len() > 0 {
        lemma_edit_distance_self(a.drop_last());
    }
}

proof fn lemma_candidates_include(clean: Seq<char>, lowers: Seq<Seq<char>>, j: int, n: int)
    requires
        0 <= j < n <= lowers.len(),
        considered(clean, lowers[j]),
    ensures
        exists|k: int|
            0 <= k < candidates_upto(clean, lowers, n).len() && #[trigger] candidates_upto(
                clean,
                lowers,
                n,
            )[k].index == j as usize && candidates_upto(clean, lowers, n)[k].distance
                == edit_distance(clean, lowers[j]) as usize,
    decreases n,
{
    let c = candidates_upto(clean, lowers, n);
    let before = candidates_upto(clean, lowers, n - 1);
    if j == n - 1 {
        assert(c == before.push(crate::custom_words::candidate(clean, lowers, j)));
        assert(c[before.len() as int].index == j as usize);
    } else {
        lemma_candidates_include(clean, lowers, j, n - 1);
        let k = choose|k: int|
            0 <= k < before.len() && #[trigger] before[k].index == j as usize
                && before[k].distance == edit_distance(clean, lowers[j]) as usize;
        assert(c[k] == before[k]);
    }
}

/// Custom words are matched case-insensitively: a word whose cleaned form
/// (letters stripped of surrounding punctuation, lowercased) is the
/// lowercase form of custom word `j`, and at most 50 bytes, gets a
/// candidate for `j` at distance 0.
pub proof fn law_custom_words_match_ignoring_case(word: Seq<char>, custom: Seq<Seq<char>>, j: int)
    requires
        0 <= j < custom.len(),
        cleaned(word) == lowercase(custom[j]),
        cleaned(word).len() > 0,
        byte_len(cleaned(word)) <= 50,
    ensures
        exists|k: int|
            0 <= k < word_candidates(word, lowered(custom)).len() && (#[trigger] word_candidates(
                word,
                lowered(custom),
            )[k]).index == j as usize && word_candidates(word, lowered(custom))[k].distance == 0,
{
    let lowers = lowered(custom);
    assert(lowers[j] == lowercase(custom[j]));
    lemma_edit_distance_self(cleaned(word));
    assert(considered(cleaned(word), lowers[j]));
    lemma_candidates_include(cleaned(word), lowers, j, lowers.len() as int);
    let c = candidates_upto(cleaned(word), lowers, lowers.len() as int);
    let k = choose|k: int|
        0 <= k < c.len() && #[trigger] c[k].index == j as usize && c[k].distance
            == edit_distance(cleaned(word), lowers[j]) as usize;
    assert(c == word_candidates(word, lowered(custom)));
    assert(c[k].distance == 0);
}

proof fn lemma_no_meta_escape(w: Seq<char>)
    requires
        forall|i: int| 0 <= i < w.len() ==> !is_meta_character(#[trigger] w[i]),
    ensures
        regex_escaped(w) == w,
    decreases w.len(),
{
    if w.len() > 0 {
        lemma_no_meta_escape(w.drop_last());
        assert(w.drop_last().push(w.last()) =~= w);
    }
}

/// Fillers are removed only as whole words: each filler pattern is the
/// case-insensitive flag `(?i)`, a word boundary `\b`, the filler word
/// itself (it holds no regex meta character, so escaping leaves it as it
/// is), another word boundary `\b`, and an optional comma or period; the
/// match is replaced by nothing.
pub proof fn law_fillers_are_whole_words(k: int)
    requires
        0 <= k < 15,
    ensures
        forall|i: int|
            0 <= i < filler_words()[k].len() ==> !is_meta_character(#[trigger] filler_words()[k][i]),
        filler_rules()[k].0 == seq!['(', '?', 'i', ')', '\\', 'b'] + filler_words()[k] + seq![
            '\\',
            'b',
            '[',
            ',',
            '.',
            ']',
            '?',
        ],
        filler_rules()[k].1.len() == 0,
{
    reveal_strlit("uh");
    reveal_strlit("um");
    reveal_strlit("uhm");
    reveal_strlit("umm");
    reveal_strlit("uhh");
    reveal_strlit("uhhh");
    reveal_strlit("ah");
    reveal_strlit("eh");
    reveal_strlit("hmm");
    reveal_strlit("hm");
    reveal_strlit("mmm");
    reveal_strlit("mm");
    reveal_strlit("mh");
    reveal_strlit("ha");
    reveal_strlit("ehh");
    reveal_strlit("(?i)\\b");
    reveal_strlit("\\b[,.]?");
    reveal_strlit("");
    let w = filler_words()[k];
    assert forall|i: int| 0 <= i < w.len() implies !is_meta_character(#[trigger] w[i]) by {
        assert(w[i] == 'u' || w[i] == 'h' || w[i] == 'm' || w[i] == 'a' || w[i] == 'e');
    }
    lemma_no_meta_escape(w);
    assert("(?i)\\b"@ =~= seq!['(', '?', 'i', ')', '\\', 'b']);
    assert("\\b[,.]?"@ =~= seq!['\\', 'b', '[', ',', '.', ']', '?']);
}

/// A run of characters occurs in any text made of something, the run, and
/// something else.
pub proof fn law_contains_anywhere(a: Seq<char>, n: Seq<char>, b: Seq<char>)
    ensures
        contains_seq(a + n + b, n),
{
    let h = a + n + b;
    assert(h.subrange(a.len() as int, (a.len() + n.len()) as int) =~= n);
}

/// What a run of characters occurs in is made of something, the run, and
/// something else.
pub proof fn law_contains_splits(h: Seq<char>, n: Seq<char>)
    requires
        contains_seq(h, n),
    ensures
        exists|a: Seq<char>, b: Seq<char>| h == a + n + b,
{
    let i = choose|i: int|
        0 <= i <= h.len() - n.len() && #[trigger] h.subrange(i, i + n.len()) == n;
    assert(h == h.take(i) + n + h.skip(i + n.len()));
}

/// A known hallucination phrase anywhere in the text, in any case, makes
/// the text a likely hallucination.
pub proof fn law_known_phrase_anywhere_is_hallucination(
    text: Seq<char>,
    k: int,
    a: Seq<char>,
    b: Seq<char>,
)
    requires
        0 <= k < 7,
        lowercase(trim(text)) == a + lowercase(hallucination_phrases()[k]) + b,
    ensures
        has_known_phrase(trim(text)),
        likely_hallucination(text),
{
    law_contains_anywhere(a, lowercase(hallucination_phrases()[k]), b);
}

proof fn lemma_filter_only_first(s: Seq<Seq<char>>, p: spec_fn(Seq<char>) -> bool)
    requires
        forall|i: int| 0 < i < s.len() ==> !p(#[trigger] s[i]),
    ensures
        s.filter(p).len() <= 1,
    decreases s.len(),
{
    reveal(Seq::filter);
    if s.len() > 1 {
        let d = s.drop_last();
        assert forall|i: int| 0 < i < d.len() implies !p(#[trigger] d[i]) by {
            assert(d[i] == s[i]);
        }
        lemma_filter_only_first(d, p);
        assert(!p(s.last()));
    } else if s.len() == 1 {
        assert(s.drop_last().filter(p).len() == 0) by {
            reveal(Seq::filter);
        }
    }
}

/// The dominance count is the number of words equal to the first one
/// ignoring case: a text whose words are pairwise different ignoring case is
/// never dominated by its first word.
pub proof fn law_distinct_words_not_dominated(t: Seq<char>)
    requires
        forall|i: int, j: int|
            0 <= i < j < split_words(t).len() ==> lowercase(#[trigger] split_words(t)[i])
                != lowercase(#[trigger] split_words(t)[j]),
    ensures
        !first_word_dominates(t),
{
    let ws = split_words(t);
    if ws.len() >= 4 {
        let p = lowercases_to(lowercase(ws[0]));
        assert forall|i: int| 0 < i < ws.len() implies !p(#[trigger] ws[i]) by {
            assert(lowercase(ws[0]) != lowercase(ws[i]));
        }
        lemma_filter_only_first(ws, p);
    }
}

proof fn lemma_run_end_of_block(ws: Seq<Seq<char>>, p: spec_fn(Seq<char>) -> bool, e: int, k: int)
    requires
        0 <= k <= e <= ws.len(),
        forall|m: int| k <= m < e ==> p(#[trigger] ws[m]),
        e == ws.len() || !p(ws[e]),
    ensures
        run_end(ws, p, k) == e,
    decreases e - k,
{
    if k < e {
        lemma_run_end_of_block(ws, p, e, k + 1);
    }
}

/// Every maximal run of 5 or more words that are the same single letter
/// (ignoring case) is removed, wherever it stands, the end of the text
/// included: dropping runs from its first word on gives what dropping runs
/// from just past it gives.
pub proof fn law_letter_runs_removed(ws: Seq<Seq<char>>, i: int, n: int)
    requires
        0 <= i,
        n >= 5,
        i + n <= ws.len(),
        single_letter(ws[i]),
        forall|m: int|
            i < m < i + n ==> lowercase(#[trigger] ws[m]) == seq![lowercase(ws[i])[0]],
        i + n == ws.len() || lowercase(ws[i + n]) != seq![lowercase(ws[i])[0]],
    ensures
        drop_letter_runs_from(ws, i) == drop_letter_runs_from(ws, i + n),
{
    let t = lowercase(ws[i])[0];
    let p = is_letter_word(t);
    assert forall|m: int| i + 1 <= m < i + n implies p(#[trigger] ws[m]) by {
        assert(lowercase(ws[m]) == seq![t]);
    }
    if i + n < ws.len() && p(ws[i + n]) {
        assert(lowercase(ws[i + n]) =~= seq![t]);
    }
    lemma_run_end_of_block(ws, p, i + n, i + 1);
}

} // verus!
