//! Character classes of the assembly dialect and maximal runs of them.

use vstd::prelude::*;

verus! {

/// The code point of `c`.
pub fn char_code(c: char) -> (n: u32)
    ensures
        n == c as u32,
        n as int == c as int,
{
    c as u32
}

pub open spec fn spec_is_space(c: char) -> bool {
    c == ' ' || c == '\t' || c == '\n' || c == '\u{c}'
}

/// Space, tab, newline or form feed.
#[verifier::when_used_as_spec(spec_is_space)]
pub fn is_space(c: char) -> (b: bool)
    ensures
        b == spec_is_space(c),
{
    c == ' ' || c == '\t' || c == '\n' || c == '\u{c}'
}

pub open spec fn spec_is_digit(c: char) -> bool {
    '0' <= c <= '9'
}

/// A decimal digit.
#[verifier::when_used_as_spec(spec_is_digit)]
pub fn is_digit(c: char) -> (b: bool)
    ensures
        b == spec_is_digit(c),
{
    '0' <= c && c <= '9'
}

pub open spec fn spec_is_lower(c: char) -> bool {
    'a' <= c <= 'z'
}

/// A lower-case ASCII letter.
#[verifier::when_used_as_spec(spec_is_lower)]
pub fn is_lower(c: char) -> (b: bool)
    ensures
        b == spec_is_lower(c),
{
    'a' <= c && c <= 'z'
}

pub open spec fn spec_is_upper(c: char) -> bool {
    'A' <= c <= 'Z'
}

/// An upper-case ASCII letter.
#[verifier::when_used_as_spec(spec_is_upper)]
pub fn is_upper(c: char) -> (b: bool)
    ensures
        b == spec_is_upper(c),
{
    'A' <= c && c <= 'Z'
}

pub open spec fn spec_is_hex_digit(c: char) -> bool {
    is_digit(c) || 'a' <= c <= 'f' || 'A' <= c <= 'F'
}

/// A hexadecimal digit of either case.
#[verifier::when_used_as_spec(spec_is_hex_digit)]
pub fn is_hex_digit(c: char) -> (b: bool)
    ensures
        b == spec_is_hex_digit(c),
{
    is_digit(c) || ('a' <= c && c <= 'f') || ('A' <= c && c <= 'F')
}

pub open spec fn spec_is_word_start(c: char) -> bool {
    is_lower(c) || is_upper(c) || c == '_'
}

/// A character that may begin an identifier: a letter or an underscore.
#[verifier::when_used_as_spec(spec_is_word_start)]
pub fn is_word_start(c: char) -> (b: bool)
    ensures
        b == spec_is_word_start(c),
{
    is_lower(c) || is_upper(c) || c == '_'
}

pub open spec fn spec_is_word_char(c: char) -> bool {
    is_word_start(c) || is_digit(c)
}

/// A character that may continue an identifier: a letter, a digit or an underscore.
#[verifier::when_used_as_spec(spec_is_word_char)]
pub fn is_word_char(c: char) -> (b: bool)
    ensures
        b == spec_is_word_char(c),
{
    is_word_start(c) || is_digit(c)
}

pub open spec fn spec_is_register_char(c: char) -> bool {
    is_lower(c) || is_digit(c)
}

/// A character of a register name after the `$`: a lower-case letter or a digit.
#[verifier::when_used_as_spec(spec_is_register_char)]
pub fn is_register_char(c: char) -> (b: bool)
    ensures
        b == spec_is_register_char(c),
{
    is_lower(c) || is_digit(c)
}

/// The sets of characters of which the lexer reads maximal runs.
#[derive(Clone, Copy, Debug, PartialEq, Eq, Structural)]
pub enum CharClass {
    /// Blank characters between tokens.
    Space,
    /// Identifier characters.
    Word,
    /// Decimal digits.
    Digit,
    /// Hexadecimal digits.
    Hex,
    /// Characters of a register name.
    Register,
    /// Everything up to the end of the line: the body of a comment.
    Comment,
    /// Everything but a double quote: the body of a string literal.
    Text,
}

pub open spec fn spec_in_class(k: CharClass, c: char) -> bool {
    match k {
        CharClass::Space => is_space(c),
        CharClass::Word => is_word_char(c),
        CharClass::Digit => is_digit(c),
        CharClass::Hex => is_hex_digit(c),
        CharClass::Register => is_register_char(c),
        CharClass::Comment => c != '\n',
        CharClass::Text => c != '"',
    }
}

/// Whether `c` belongs to the class `k`.
#[verifier::when_used_as_spec(spec_in_class)]
pub fn in_class(k: CharClass, c: char) -> (b: bool)
    ensures
        b == spec_in_class(k, c),
{
    match k {
        CharClass::Space => is_space(c),
        CharClass::Word => is_word_char(c),
        CharClass::Digit => is_digit(c),
        CharClass::Hex => is_hex_digit(c),
        CharClass::Register => is_register_char(c),
        CharClass::Comment => c != '\n',
        CharClass::Text => c != '"',
    }
}

/// Every character of `s` belongs to the class `k`.
pub open spec fn all_in_class(s: Seq<char>, k: CharClass) -> bool {
    forall|n: int| 0 <= n < s.len() ==> in_class(k, #[trigger] s[n])
}

/// The end of the longest run of characters of class `k` that starts at `i`:
/// the first index from `i` on that holds no such character, or the length of `s`.
pub open spec fn run_end(s: Seq<char>, i: int, k: CharClass) -> int
    decreases s.len() - i,
{
    if 0 <= i < s.len() && in_class(k, s[i]) {
        run_end(s, i + 1, k)
    } else {
        i
    }
}

/// What `run_end` yields lies between `i` and the end, everything before it
/// is of the class, and the character at it, if any, is not.
pub proof fn lemma_run_end(s: Seq<char>, i: int, k: CharClass)
    requires
        0 <= i <= s.len(),
    ensures
        i <= run_end(s, i, k) <= s.len(),
        forall|n: int| i <= n < run_end(s, i, k) ==> in_class(k, #[trigger] s[n]),
        run_end(s, i, k) < s.len() ==> !in_class(k, s[run_end(s, i, k)]),
        all_in_class(s.subrange(i, run_end(s, i, k)), k),
    decreases s.len() - i,
{
    if i < s.len() && in_class(k, s[i]) {
        lemma_run_end(s, i + 1, k);
    }
}

/// A run that is known to stop at `j` is the one that `run_end` finds.
pub proof fn lemma_run_end_is(s: Seq<char>, i: int, j: int, k: CharClass)
    requires
        0 <= i <= j <= s.len(),
        forall|n: int| i <= n < j ==> in_class(k, #[trigger] s[n]),
        j < s.len() ==> !in_class(k, s[j]),
    ensures
        run_end(s, i, k) == j,
    decreases j - i,
{
    if i < j {
        lemma_run_end_is(s, i + 1, j, k);
    }
}

/// Walks over the longest run of class `k` from `i` on.
pub fn scan_run(v: &Vec<char>, i: usize, k: CharClass) -> (j: usize)
    requires
        i <= v.len(),
    ensures
        j == run_end(v@, i as int, k),
        i <= j <= v.len(),
{
    let mut j: usize = i;
    while j < v.len() && in_class(k, v[j])
        invariant
            i <= j <= v.len(),
            run_end(v@, i as int, k) == run_end(v@, j as int, k),
        decreases v.len() - j,
    {
        j += 1;
    }
    j
}

} // verus!
