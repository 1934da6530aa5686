//! Regular expressions from the `regex` crate, behind trusted wrappers.

use vstd::prelude::*;

verus! {

#[verifier::external_type_specification]
#[verifier::external_body]
pub struct ExRegex(regex::Regex);

#[verifier::external_type_specification]
#[verifier::external_body]
pub struct ExRegexError(regex::Error);

/// Whether `regex::Regex::new` accepts `source`.
pub uninterp spec fn regex_compiles(source: Seq<char>) -> bool;

/// What `regex::Regex::replace_all` returns for the regex compiled from
/// `source`, applied to `haystack` with the replacement string `replacement`.
pub uninterp spec fn regex_replace_all(
    source: Seq<char>,
    haystack: Seq<char>,
    replacement: Seq<char>,
) -> Seq<char>;

/// A character with a meaning in regex syntax.
pub open spec fn is_meta_character(c: char) -> bool {
    c == '\\' || c == '.' || c == '+' || c == '*' || c == '?' || c == '(' || c == ')' || c == '|'
        || c == '[' || c == ']' || c == '{' || c == '}' || c == '^' || c == '$' || c == '#' || c
        == '&' || c == '-' || c == '~'
}

/// `text` with a backslash put before every meta character.
pub open spec fn regex_escaped(text: Seq<char>) -> Seq<char>
    decreases text.len(),
{
    if text.len() == 0 {
        text
    } else if is_meta_character(text.last()) {
        regex_escaped(text.drop_last()) + seq!['\\', text.last()]
    } else {
        regex_escaped(text.drop_last()).push(text.last())
    }
}

/// A compiled regular expression together with the source it was compiled
/// from. Only `compile` builds one, so `source` is always the text that
/// `compiled` came from.
pub struct Pattern {
    source: String,
    compiled: regex::Regex,
}

impl Pattern {
    /// The source text of the regular expression.
    pub closed spec fn source(&self) -> Seq<char> {
        self.source@
    }
}

/// A regular expression that did not compile.
#[derive(Debug)]
pub enum PatternError {
    Invalid,
}

/// Calls `regex::Regex::new(source)`. Claims that the call succeeds exactly
/// when `source` compiles (a name for that fact) and that the pattern it
/// returns records `source`.
#[verifier::external_body]
fn regex_new(source: &str) -> (r: Result<Pattern, regex::Error>)
    ensures
        r is Ok <==> regex_compiles(source@),
        r matches Ok(p) ==> p.source() == source@,
{
    match regex::Regex::new(source) {
        Ok(compiled) => Ok(Pattern { source: source.to_string(), compiled }),
        Err(e) => Err(e),
    }
}

/// Compiles `source`, reporting a failure as `PatternError::Invalid`.
pub fn compile(source: &str) -> (r: Result<Pattern, PatternError>)
    ensures
        r is Ok <==> regex_compiles(source@),
        r matches Ok(p) ==> p.source() == source@,
{
    match regex_new(source) {
        Ok(p) => Ok(p),
        Err(_) => Err(PatternError::Invalid),
    }
}

/// Calls `regex::Regex::replace_all` with a plain replacement string and
/// returns the result as an owned string; the result is the name above,
/// applied to the pattern's source.
#[verifier::external_body]
pub(crate) fn replace_all(p: &Pattern, haystack: &str, replacement: &str) -> (r: String)
    ensures
        r@ == regex_replace_all(p.source(), haystack@, replacement@),
{
    p.compiled.replace_all(haystack, replacement).into_owned()
}

/// Calls `regex::escape`, which puts a backslash before each meta character
/// (`regex_syntax::escape_into` with `is_meta_character`), as stated above.
#[verifier::external_body]
pub(crate) fn escape(text: &str) -> (r: String)
    ensures
        r@ == regex_escaped(text@),
{
    regex::escape(text)
}

} // verus!
