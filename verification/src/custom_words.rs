//! Correcting transcribed words towards a list of custom words.
//!
//! Choosing the best candidate weighs similarity scores in floating point,
//! which this library leaves to its caller; the library lists the
//! candidates of each word with their scores, and rewrites the text once a
//! choice is made for each word.

use vstd::prelude::*;
use vstd::string::StrSliceExecFns;
use crate::chars::{
    byte_len, byte_len_capped, char_uppercase, is_alphabetic, is_alphabetic_char, is_uppercase,
    is_uppercase_char, lowercase, to_lowercase, to_uppercase, to_uppercase_char, uppercase,
};
use crate::text::{
    append_chars, chars_of, copy_chars, in_class, join_with_spaces, join_words, split_whitespace,
    split_words, string_from_chars, trim_by, trim_chars, views, CharClass,
};

verus! {

/// Minimum number of single-character insertions, deletions and
/// substitutions that turn `a` into `b`.
pub open spec fn edit_distance(a: Seq<char>, b: Seq<char>) -> nat
    decreases a.len() + b.len(),
{
    if a.len() == 0 {
        b.len()
    } else if b.len() == 0 {
        a.len()
    } else {
        let substitute: nat = edit_distance(a.drop_last(), b.drop_last()) + if a.last() == b.last() {
            0nat
        } else {
            1nat
        };
        let delete: nat = edit_distance(a.drop_last(), b) + 1;
        let insert: nat = edit_distance(a, b.drop_last()) + 1;
        if substitute <= delete && substitute <= insert {
            substitute
        } else if delete <= insert {
            delete
        } else {
            insert
        }
    }
}

/// What `natural::phonetics::soundex` returns for the two words: whether
/// their Soundex codes are equal.
pub uninterp spec fn sounds_alike(a: Seq<char>, b: Seq<char>) -> bool;

/// Calls `strsim::levenshtein` on the strings made of `a` and `b`. Claims
/// that it returns the Levenshtein distance over characters, as its
/// documentation states.
#[verifier::external_body]
fn levenshtein(a: &[char], b: &[char]) -> (d: usize)
    ensures
        d == edit_distance(a@, b@),
{
    let a: String = a.iter().collect();
    let b: String = b.iter().collect();
    strsim::levenshtein(&a, &b)
}

/// Calls `natural::phonetics::soundex` on the strings made of `a` and `b`;
/// the result is the name above. The function indexes the first character
/// of each word, so both must be non-empty.
#[verifier::external_body]
fn soundex(a: &[char], b: &[char]) -> (r: bool)
    requires
        a@.len() > 0,
        b@.len() > 0,
    ensures
        r == sounds_alike(a@, b@),
{
    let a: String = a.iter().collect();
    let b: String = b.iter().collect();
    natural::phonetics::soundex(&a, &b)
}

/// Every character of `s` is uppercase (true for the empty word).
pub open spec fn all_uppercase(s: Seq<char>) -> bool {
    forall|i: int| 0 <= i < s.len() ==> is_uppercase_char(#[trigger] s[i])
}

/// The first character that `char::to_uppercase` yields for `c`, or `c` itself.
pub open spec fn upper_first(c: char) -> char {
    let u = char_uppercase(c);
    if u.len() > 0 {
        u[0]
    } else {
        c
    }
}

/// The alphabetic characters of `s`, in order.
pub open spec fn letters(s: Seq<char>) -> Seq<char> {
    s.filter(|c: char| is_alphabetic_char(c))
}

/// `replacement` in the case pattern of the letters of `original`
/// (punctuation and digits play no part): unchanged when `original` is not
/// empty but has no letter, all uppercase when every letter is uppercase
/// (also for the empty word), capitalised when the first letter is
/// uppercase, and unchanged otherwise.
pub open spec fn case_preserved(original: Seq<char>, replacement: Seq<char>) -> Seq<char> {
    let l = letters(original);
    if original.len() > 0 && l.len() == 0 {
        replacement
    } else if all_uppercase(l) {
        uppercase(replacement)
    } else if l.len() > 0 && is_uppercase_char(l[0]) {
        if replacement.len() > 0 {
            replacement.update(0, upper_first(replacement[0]))
        } else {
            replacement
        }
    } else {
        replacement
    }
}

fn letters_of(s: &[char]) -> (r: Vec<char>)
    ensures
        r@ == letters(s@),
{
    let mut r: Vec<char> = Vec::new();
    let mut i: usize = 0;
    while i < s.len()
        invariant
            i <= s@.len(),
            r@ == letters(s@.take(i as int)),
        decreases s@.len() - i,
    {
        proof {
            assert(s@.take(i + 1) =~= s@.take(i as int).push(s@[i as int]));
            s@.take(i as int).lemma_filter_push(s@[i as int], |c: char| is_alphabetic_char(c));
        }
        if is_alphabetic(s[i]) {
            r.push(s[i]);
        }
        i += 1;
    }
    assert(s@.take(s@.len() as int) =~= s@);
    r
}

fn case_preserved_chars(original: &[char], replacement: &[char]) -> (r: Vec<char>)
    ensures
        r@ == case_preserved(original@, replacement@),
{
    let l = letters_of(original);
    let mut all_upper = true;
    let mut i: usize = 0;
    while i < l.len()
        invariant
            i <= l@.len(),
            all_upper == forall|k: int| 0 <= k < i ==> is_uppercase_char(#[trigger] l@[k]),
        decreases l@.len() - i,
    {
        if !is_uppercase(l[i]) {
            all_upper = false;
        }
        i += 1;
    }
    if original.len() > 0 && l.len() == 0 {
        copy_chars(replacement)
    } else if all_upper {
        to_uppercase(replacement)
    } else if l.len() > 0 && is_uppercase(l[0]) {
        let mut r = copy_chars(replacement);
        if r.len() > 0 {
            let up = to_uppercase_char(r[0]);
            let first = if up.len() > 0 {
                up[0]
            } else {
                r[0]
            };
            r.set(0, first);
        }
        r
    } else {
        copy_chars(replacement)
    }
}

/// Preserves the case pattern of the original word when applying a
/// replacement: the letters of the word decide, its punctuation does not.
pub fn preserve_case_pattern(original: &str, replacement: &str) -> (r: String)
    ensures
        r@ == case_preserved(original@, replacement@),
{
    let o = chars_of(original);
    let rep = chars_of(replacement);
    let r = case_preserved_chars(o.as_slice(), rep.as_slice());
    string_from_chars(r.as_slice())
}

/// How many leading characters of `w` are not alphabetic.
pub open spec fn leading_non_alpha(w: Seq<char>) -> nat
    decreases w.len(),
{
    if w.len() > 0 && !is_alphabetic_char(w[0]) {
        1 + leading_non_alpha(w.drop_first())
    } else {
        0
    }
}

/// How many trailing characters of `w` are not alphabetic.
pub open spec fn trailing_non_alpha(w: Seq<char>) -> nat
    decreases w.len(),
{
    if w.len() > 0 && !is_alphabetic_char(w.last()) {
        1 + trailing_non_alpha(w.drop_last())
    } else {
        0
    }
}

/// The leading punctuation of `w`: its longest prefix of non-alphabetic characters.
pub open spec fn punct_prefix(w: Seq<char>) -> Seq<char> {
    w.take(leading_non_alpha(w) as int)
}

/// The trailing punctuation of `w`: its longest suffix of non-alphabetic characters.
pub open spec fn punct_suffix(w: Seq<char>) -> Seq<char> {
    w.skip(w.len() - trailing_non_alpha(w))
}

fn count_leading_non_alpha(w: &[char]) -> (n: usize)
    ensures
        n == leading_non_alpha(w@),
        n <= w@.len(),
{
    let mut n: usize = 0;
    assert(w@.skip(0) =~= w@);
    while n < w.len() && !is_alphabetic(w[n])
        invariant
            n <= w@.len(),
            leading_non_alpha(w@) == n + leading_non_alpha(w@.skip(n as int)),
        decreases w@.len() - n,
    {
        assert(w@.skip(n as int).drop_first() =~= w@.skip(n + 1));
        n += 1;
    }
    n
}

fn count_trailing_non_alpha(w: &[char]) -> (n: usize)
    ensures
        n == trailing_non_alpha(w@),
        n <= w@.len(),
{
    let len: usize = w.len();
    let mut n: usize = 0;
    assert(w@.take(len as int) =~= w@);
    while n < len && !is_alphabetic(w[len - 1 - n])
        invariant
            n <= len == w@.len(),
            trailing_non_alpha(w@) == n + trailing_non_alpha(w@.take(len - n)),
        decreases len - n,
    {
        assert(w@.take(len - n).drop_last() =~= w@.take(len - n - 1));
        n += 1;
    }
    n
}

/// Extracts the punctuation prefix and suffix of a word: its longest
/// prefix and its longest suffix made of non-alphabetic characters.
pub fn extract_punctuation(word: &str) -> (r: (&str, &str))
    ensures
        r.0@ == punct_prefix(word@),
        r.1@ == punct_suffix(word@),
{
    let w = chars_of(word);
    let lead: usize = count_leading_non_alpha(w.as_slice());
    let trail: usize = count_trailing_non_alpha(w.as_slice());
    let len: usize = w.len();
    (word.substring_char(0, lead), word.substring_char(len - trail, len))
}

/// A custom word that a transcribed word may be corrected to, with what the
/// choice between candidates weighs.
pub struct WordCandidate {
    /// Position of the custom word in the list.
    pub index: usize,
    /// Levenshtein distance between the cleaned word and the lowercase custom word.
    pub distance: usize,
    /// The larger of their lengths in bytes.
    pub max_len: usize,
    /// Whether the two sound alike (Soundex).
    pub sounds_alike: bool,
}

/// A word stripped of leading and trailing non-alphabetic characters, in lowercase.
pub open spec fn cleaned(word: Seq<char>) -> Seq<char> {
    lowercase(trim_by(word, in_class(CharClass::NonAlphabetic)))
}

/// The custom words in lowercase.
pub open spec fn lowered(custom: Seq<Seq<char>>) -> Seq<Seq<char>> {
    custom.map_values(|w: Seq<char>| lowercase(w))
}

/// The views of a list of strings.
pub open spec fn string_views(ws: Seq<String>) -> Seq<Seq<char>> {
    ws.map_values(|w: String| w@)
}

/// A cleaned word is compared with a lowercase custom word: it is not
/// empty, at most 50 bytes, and their lengths in bytes differ by at most 5.
pub open spec fn considered(clean: Seq<char>, custom_lower: Seq<char>) -> bool {
    &&& clean.len() > 0
    &&& byte_len(clean) <= 50
    &&& byte_len(clean) <= byte_len(custom_lower) + 5
    &&& byte_len(custom_lower) <= byte_len(clean) + 5
}

/// The candidate that the custom word at `j` makes for a cleaned word.
pub open spec fn candidate(clean: Seq<char>, lowers: Seq<Seq<char>>, j: int) -> WordCandidate {
    WordCandidate {
        index: j as usize,
        distance: edit_distance(clean, lowers[j]) as usize,
        max_len: (if byte_len(clean) >= byte_len(lowers[j]) {
            byte_len(clean)
        } else {
            byte_len(lowers[j])
        }) as usize,
        sounds_alike: sounds_alike(clean, lowers[j]),
    }
}

/// The candidates among the first `n` custom words, in list order.
pub open spec fn candidates_upto(clean: Seq<char>, lowers: Seq<Seq<char>>, n: int) -> Seq<
    WordCandidate,
>
    decreases n,
{
    if n <= 0 {
        seq![]
    } else {
        let before = candidates_upto(clean, lowers, n - 1);
        if considered(clean, lowers[n - 1]) {
            before.push(candidate(clean, lowers, n - 1))
        } else {
            before
        }
    }
}

/// The candidates of a transcribed word.
pub open spec fn word_candidates(word: Seq<char>, lowers: Seq<Seq<char>>) -> Seq<WordCandidate> {
    candidates_upto(cleaned(word), lowers, lowers.len() as int)
}

/// Every comparison that would be made has a non-empty custom word, which
/// Soundex needs.
pub open spec fn soundex_defined(words: Seq<Seq<char>>, lowers: Seq<Seq<char>>) -> bool {
    forall|i: int, j: int|
        0 <= i < words.len() && 0 <= j < lowers.len() && considered(
            #[trigger] cleaned(words[i]),
            #[trigger] lowers[j],
        ) ==> lowers[j].len() > 0
}

fn lower_custom_words(custom_words: &[String]) -> (r: Vec<Vec<char>>)
    ensures
        views(r@) == lowered(string_views(custom_words@)),
{
    let ghost target = lowered(string_views(custom_words@));
    let mut r: Vec<Vec<char>> = Vec::new();
    let mut i: usize = 0;
    while i < custom_words.len()
        invariant
            i <= custom_words@.len(),
            target == lowered(string_views(custom_words@)),
            views(r@) == target.take(i as int),
        decreases custom_words@.len() - i,
    {
        let w = chars_of(custom_words[i].as_str());
        let lower = to_lowercase(w.as_slice());
        assert(w@ == custom_words@[i as int]@);
        assert(target[i as int] == lower@);
        let ghost before = views(r@);
        r.push(lower);
        assert(views(r@) =~= before.push(lower@));
        i += 1;
        assert(views(r@) =~= target.take(i as int));
    }
    assert(target.take(custom_words@.len() as int) =~= target);
    r
}

/// The candidates of one cleaned word, or `None` when Soundex would be
/// asked about an empty custom word.
fn candidates_of(clean: &[char], lowers: &Vec<Vec<char>>) -> (r: Option<Vec<WordCandidate>>)
    ensures
        r is Some <==> forall|j: int|
            0 <= j < lowers@.len() && considered(clean@, #[trigger] views(lowers@)[j])
                ==> views(lowers@)[j].len() > 0,
        r matches Some(v) ==> v@ == candidates_upto(
            clean@,
            views(lowers@),
            lowers@.len() as int,
        ),
{
    let ghost ls = views(lowers@);
    let mut v: Vec<WordCandidate> = Vec::new();
    let clean_len: usize = byte_len_capped(clean, 50);
    if clean.len() == 0 || clean_len > 50 {
        let mut j: usize = 0;
        while j < lowers.len()
            invariant
                j <= lowers@.len(),
                ls == views(lowers@),
                clean@.len() == 0 || byte_len(clean@) > 50,
                candidates_upto(clean@, ls, j as int) == Seq::<WordCandidate>::empty(),
            decreases lowers@.len() - j,
        {
            j += 1;
        }
        return Some(v);
    }
    let mut j: usize = 0;
    while j < lowers.len()
        invariant
            j <= lowers@.len(),
            ls == views(lowers@),
            clean@.len() > 0,
            clean_len == byte_len(clean@) <= 50,
            v@ == candidates_upto(clean@, ls, j as int),
            forall|m: int|
                0 <= m < j && considered(clean@, #[trigger] ls[m]) ==> ls[m].len() > 0,
        decreases lowers@.len() - j,
    {
        let lower = &lowers[j];
        assert(lower@ == ls[j as int]);
        let custom_len: usize = byte_len_capped(lower.as_slice(), clean_len + 5);
        if custom_len <= clean_len + 5 && clean_len <= custom_len + 5 {
            if lower.len() == 0 {
                return None;
            }
            let distance: usize = levenshtein(clean, lower.as_slice());
            let max_len: usize = if clean_len >= custom_len {
                clean_len
            } else {
                custom_len
            };
            let alike = soundex(clean, lower.as_slice());
            v.push(WordCandidate { index: j, distance, max_len, sounds_alike: alike });
        }
        j += 1;
    }
    Some(v)
}

/// For each whitespace-separated word of `text`, the custom words it may be
/// corrected to. `None` exactly when some comparison would hand Soundex an
/// empty custom word, which it cannot encode.
pub fn custom_word_candidates(text: &str, custom_words: &[String]) -> (r: Option<
    Vec<Vec<WordCandidate>>,
>)
    ensures
        r is Some <==> soundex_defined(
            split_words(text@),
            lowered(string_views(custom_words@)),
        ),
        r matches Some(v) ==> v@.len() == split_words(text@).len() && forall|i: int|
            0 <= i < v@.len() ==> (#[trigger] v@[i])@ == word_candidates(
                split_words(text@)[i],
                lowered(string_views(custom_words@)),
            ),
{
    let ghost ls = lowered(string_views(custom_words@));
    let lowers = lower_custom_words(custom_words);
    let chars = chars_of(text);
    let words = split_whitespace(chars.as_slice());
    let ghost ws = views(words@);
    let mut out: Vec<Vec<WordCandidate>> = Vec::new();
    let mut i: usize = 0;
    while i < words.len()
        invariant
            i <= words@.len(),
            ws == views(words@),
            ws == split_words(text@),
            ls == views(lowers@),
            ls == lowered(string_views(custom_words@)),
            out@.len() == i,
            forall|k: int|
                0 <= k < i ==> (#[trigger] out@[k])@ == word_candidates(ws[k], ls),
            forall|k: int, j: int|
                0 <= k < i && 0 <= j < ls.len() && considered(
                    #[trigger] cleaned(ws[k]),
                    #[trigger] ls[j],
                ) ==> ls[j].len() > 0,
        decreases words@.len() - i,
    {
        let stripped = trim_chars(words[i].as_slice(), CharClass::NonAlphabetic);
        let clean = to_lowercase(stripped.as_slice());
        assert(clean@ == cleaned(ws[i as int]));
        match candidates_of(clean.as_slice(), &lowers) {
            Some(c) => {
                out.push(c);
            },
            None => {
                proof {
                    let j = choose|j: int|
                        0 <= j < lowers@.len() && considered(clean@, #[trigger] views(lowers@)[j])
                            && !(views(lowers@)[j].len() > 0);
                    assert(considered(cleaned(ws[i as int]), ls[j]));
                }
                return None;
            },
        }
        i += 1;
    }
    Some(out)
}

/// A word corrected to `replacement`: its punctuation prefix, the
/// replacement in the word's case pattern, and its punctuation suffix.
pub open spec fn corrected(word: Seq<char>, replacement: Seq<char>) -> Seq<char> {
    punct_prefix(word) + case_preserved(word, replacement) + punct_suffix(word)
}

/// The custom word chosen for word `i`, if any: the entry of `choices` at
/// `i`, when there is one and it names one of the `n` custom words.
pub open spec fn choice_at(choices: Seq<Option<usize>>, n: int, i: int) -> Option<int> {
    if 0 <= i < choices.len() && choices[i] is Some && (choices[i]->0 as int) < n {
        Some(choices[i]->0 as int)
    } else {
        None
    }
}

/// The words with each chosen correction applied.
pub open spec fn rewritten_words(
    ws: Seq<Seq<char>>,
    custom: Seq<Seq<char>>,
    choices: Seq<Option<usize>>,
) -> Seq<Seq<char>> {
    Seq::new(
        ws.len(),
        |i: int|
            match choice_at(choices, custom.len() as int, i) {
                Some(j) => corrected(ws[i], custom[j]),
                None => ws[i],
            },
    )
}

fn corrected_chars(word: &[char], replacement: &[char]) -> (r: Vec<char>)
    ensures
        r@ == corrected(word@, replacement@),
{
    let lead: usize = count_leading_non_alpha(word);
    let trail: usize = count_trailing_non_alpha(word);
    let len: usize = word.len();
    let mut v: Vec<char> = Vec::new();
    let mut k: usize = 0;
    while k < lead
        invariant
            k <= lead <= word@.len(),
            v@ == word@.take(k as int),
        decreases lead - k,
    {
        v.push(word[k]);
        k += 1;
        assert(v@ =~= word@.take(k as int));
    }
    let middle = case_preserved_chars(word, replacement);
    append_chars(&mut v, middle.as_slice());
    let mut k: usize = len - trail;
    let ghost base = v@;
    while k < len
        invariant
            trail <= len == word@.len(),
            len - trail <= k <= len,
            v@ == base + word@.subrange(len - trail, k as int),
        decreases len - k,
    {
        v.push(word[k]);
        k += 1;
        assert(v@ =~= base + word@.subrange(len - trail, k as int));
    }
    assert(word@.subrange(len - trail, len as int) =~= word@.skip(len - trail));
    v
}

/// Rewrites `text` with a chosen custom word (or none) for each of its
/// whitespace-separated words: a chosen word is replaced by the custom word
/// in its case pattern, keeping its punctuation, and the words are joined by
/// single spaces. A choice that is missing or names no custom word keeps
/// the word. With no custom words at all, the text is returned unchanged.
pub fn apply_word_choices(text: &str, custom_words: &[String], choices: &[Option<usize>]) -> (r:
    String)
    ensures
        custom_words@.len() == 0 ==> r@ == text@,
        custom_words@.len() > 0 ==> r@ == join_words(
            rewritten_words(split_words(text@), string_views(custom_words@), choices@),
        ),
{
    if custom_words.len() == 0 {
        return text.to_owned();
    }
    let chars = chars_of(text);
    let words = split_whitespace(chars.as_slice());
    let ghost ws = views(words@);
    let ghost custom = string_views(custom_words@);
    let ghost target = rewritten_words(ws, custom, choices@);
    let mut out: Vec<Vec<char>> = Vec::new();
    let mut i: usize = 0;
    while i < words.len()
        invariant
            i <= words@.len(),
            ws == views(words@),
            ws == split_words(text@),
            custom == string_views(custom_words@),
            target == rewritten_words(ws, custom, choices@),
            views(out@) == target.take(i as int),
        decreases words@.len() - i,
    {
        let ghost before = views(out@);
        let mut chosen: Option<usize> = None;
        if i < choices.len() {
            if let Some(j) = choices[i] {
                if j < custom_words.len() {
                    chosen = Some(j);
                }
            }
        }
        match chosen {
            Some(j) => {
                let rep = chars_of(custom_words[j].as_str());
                out.push(corrected_chars(words[i].as_slice(), rep.as_slice()));
            },
            None => {
                out.push(copy_chars(words[i].as_slice()));
            },
        }
        assert(views(out@) =~= before.push(target[i as int]));
        i += 1;
        assert(target.take(i as int) =~= before.push(target[i - 1]));
    }
    assert(target.take(words@.len() as int) =~= target);
    let joined = join_with_spaces(out.as_slice());
    string_from_chars(joined.as_slice())
}

} // verus!
