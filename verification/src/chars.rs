//! Character classes used by the text rules.

use vstd::prelude::*;

verus! {

/// Number of bytes in the UTF-8 encoding of `c`.
pub open spec fn utf8_width(c: char) -> nat {
    let n: u32 = c as u32;
    if n < 0x80 {
        1
    } else if n < 0x800 {
        2
    } else if n < 0x10000 {
        3
    } else {
        4
    }
}

/// Number of bytes in the UTF-8 encoding of `s` (what `str::len` reports).
pub open spec fn byte_len(s: Seq<char>) -> nat
    decreases s.len(),
{
    if s.len() == 0 {
        0
    } else {
        byte_len(s.drop_last()) + utf8_width(s.last())
    }
}

/// `char::is_ascii_punctuation`: the four ASCII punctuation ranges.
pub open spec fn is_ascii_punct(c: char) -> bool {
    let n: u32 = c as u32;
    (0x21 <= n <= 0x2F) || (0x3A <= n <= 0x40) || (0x5B <= n <= 0x60) || (0x7B <= n <= 0x7E)
}

/// Exec form of `utf8_width` (`char::len_utf8`).
pub fn utf8_width_of(c: char) -> (w: usize)
    ensures
        w == utf8_width(c),
{
    let n: u32 = c as u32;
    if n < 0x80 {
        1
    } else if n < 0x800 {
        2
    } else if n < 0x10000 {
        3
    } else {
        4
    }
}

/// Exec form of `is_ascii_punct`.
pub fn ascii_punctuation(c: char) -> (b: bool)
    ensures
        b == is_ascii_punct(c),
{
    let n: u32 = c as u32;
    (0x21 <= n && n <= 0x2F) || (0x3A <= n && n <= 0x40) || (0x5B <= n && n <= 0x60) || (0x7B
        <= n && n <= 0x7E)
}


/// The Unicode White_Space property (PropList.txt): U+0009..=U+000D, U+0020,
/// U+0085, U+00A0, U+1680, U+2000..=U+200A, U+2028, U+2029, U+202F, U+205F
/// and U+3000.
pub open spec fn is_whitespace_char(c: char) -> bool {
    let n: u32 = c as u32;
    ||| 0x09 <= n <= 0x0D
    ||| n == 0x20
    ||| n == 0x85
    ||| n == 0xA0
    ||| n == 0x1680
    ||| 0x2000 <= n <= 0x200A
    ||| n == 0x2028
    ||| n == 0x2029
    ||| n == 0x202F
    ||| n == 0x205F
    ||| n == 0x3000
}

/// Calls `char::is_whitespace`, which reports the White_Space property above.
#[verifier::external_body]
pub(crate) fn is_whitespace(c: char) -> (b: bool)
    ensures
        b == is_whitespace_char(c),
{
    c.is_whitespace()
}


/// What `char::is_alphabetic` reports for `c` (the Unicode Alphabetic property).
pub uninterp spec fn is_alphabetic_char(c: char) -> bool;

/// General category Cc (control codes): U+0000..=U+001F and U+007F..=U+009F.
pub open spec fn is_control_char(c: char) -> bool {
    let n: u32 = c as u32;
    n <= 0x1F || (0x7F <= n <= 0x9F)
}

/// What `char::is_uppercase` reports for `c` (the Unicode Uppercase property).
pub uninterp spec fn is_uppercase_char(c: char) -> bool;

/// The characters that `char::to_uppercase` yields for `c`.
pub uninterp spec fn char_uppercase(c: char) -> Seq<char>;

/// What `str::to_lowercase` returns for the string made of `s`.
pub uninterp spec fn lowercase(s: Seq<char>) -> Seq<char>;

/// What `str::to_uppercase` returns for the string made of `s`.
pub uninterp spec fn uppercase(s: Seq<char>) -> Seq<char>;

/// Calls `char::is_alphabetic`; the result is the name above.
#[verifier::external_body]
pub(crate) fn is_alphabetic(c: char) -> (b: bool)
    ensures
        b == is_alphabetic_char(c),
{
    c.is_alphabetic()
}

/// Calls `char::is_control`, which reports general category Cc, stated above.
#[verifier::external_body]
pub(crate) fn is_control(c: char) -> (b: bool)
    ensures
        b == is_control_char(c),
{
    c.is_control()
}

/// Calls `char::is_uppercase`; the result is the name above.
#[verifier::external_body]
pub(crate) fn is_uppercase(c: char) -> (b: bool)
    ensures
        b == is_uppercase_char(c),
{
    c.is_uppercase()
}

/// Calls `char::to_uppercase` and collects what it yields; the result is the name above.
#[verifier::external_body]
pub(crate) fn to_uppercase_char(c: char) -> (r: Vec<char>)
    ensures
        r@ == char_uppercase(c),
{
    c.to_uppercase().collect()
}

/// Calls `str::to_lowercase` on the string made of `s`; the result is the name above.
#[verifier::external_body]
pub(crate) fn to_lowercase(s: &[char]) -> (r: Vec<char>)
    ensures
        r@ == lowercase(s@),
{
    let text: String = s.iter().collect();
    text.to_lowercase().chars().collect()
}

/// Calls `str::to_uppercase` on the string made of `s`; the result is the name above.
#[verifier::external_body]
pub(crate) fn to_uppercase(s: &[char]) -> (r: Vec<char>)
    ensures
        r@ == uppercase(s@),
{
    let text: String = s.iter().collect();
    text.to_uppercase().chars().collect()
}

/// `char::to_ascii_lowercase`: 'A'..='Z' become 'a'..='z', every other char is unchanged.
pub open spec fn ascii_lower(c: char) -> char {
    if 0x41 <= (c as u32) <= 0x5A {
        ((c as u32) + 32) as char
    } else {
        c
    }
}

/// Exec form of `ascii_lower`.
pub fn to_ascii_lower(c: char) -> (r: char)
    ensures
        r == ascii_lower(c),
{
    let n: u32 = c as u32;
    if 0x41 <= n && n <= 0x5A {
        let b: u8 = (n as u8) + 32;
        b as char
    } else {
        c
    }
}

/// `byte_len(s)`, computed only as far as needed to compare it with `cap`:
/// the result is `byte_len(s)` when that is at most `cap`, and `cap + 1` otherwise.
pub fn byte_len_capped(s: &[char], cap: usize) -> (n: usize)
    requires
        cap < usize::MAX,
    ensures
        byte_len(s@) <= cap ==> n == byte_len(s@),
        byte_len(s@) > cap ==> n == cap + 1,
{
    let mut n: usize = 0;
    let mut i: usize = 0;
    while i < s.len()
        invariant
            i <= s@.len(),
            cap < usize::MAX,
            n == byte_len(s@.take(i as int)),
            n <= cap,
        decreases s@.len() - i,
    {
        assert(s@.take(i + 1).drop_last() =~= s@.take(i as int));
        let w: usize = utf8_width_of(s[i]);
        if w > cap - n {
            proof {
                lemma_byte_len_prefix_le(s@, i + 1);
            }
            return cap + 1;
        }
        n += w;
        i += 1;
    }
    assert(s@.take(s@.len() as int) =~= s@);
    n
}

/// The bytes of a prefix are at most the bytes of the whole.
pub proof fn lemma_byte_len_prefix_le(s: Seq<char>, k: int)
    requires
        0 <= k <= s.len(),
    ensures
        byte_len(s.take(k)) <= byte_len(s),
    decreases s.len() - k,
{
    if k < s.len() {
        lemma_byte_len_prefix_le(s, k + 1);
        assert(s.take(k + 1).drop_last() =~= s.take(k));
    } else {
        assert(s.take(k) =~= s);
    }
}

/// Bytes add up over concatenation.
pub proof fn lemma_byte_len_concat(a: Seq<char>, b: Seq<char>)
    ensures
        byte_len(a + b) == byte_len(a) + byte_len(b),
    decreases b.len(),
{
    if b.len() == 0 {
        assert(a + b =~= a);
    } else {
        lemma_byte_len_concat(a, b.drop_last());
        assert((a + b).drop_last() =~= a + b.drop_last());
    }
}

/// `byte_len` is the length of the UTF-8 encoding, which is what `str::len` reports.
pub proof fn lemma_byte_len_is_utf8_len(s: Seq<char>)
    ensures
        byte_len(s) == vstd::utf8::encode_utf8(s).len(),
    decreases s.len(),
{
    if s.len() > 0 {
        let one = seq![s[0]];
        lemma_byte_len_is_utf8_len(s.drop_first());
        assert(s =~= one + s.drop_first());
        lemma_byte_len_concat(one, s.drop_first());
        assert(one.drop_last() =~= Seq::<char>::empty());
        assert(byte_len(one.drop_last()) == 0);
        assert(byte_len(one) == utf8_width(s[0]));
        let v: u32 = s[0] as u32;
        vstd::utf8::char_is_scalar(s[0]);
        assert(vstd::utf8::encode_scalar(v).len() == utf8_width(s[0]));
    }
}

} // verus!
