//! The lexical analyzer: from source text to tokens with their spans.
//!
//! At each place the lexer takes the longest token that starts there. A word
//! that spells a mnemonic is an instruction; a word followed at once by a
//! colon is a label, whatever it spells. Blank characters and comments, which
//! run from a `;` to the end of the line, separate tokens and are dropped.
//!
//! Numerals are read as unsigned 32-bit values. A decimal numeral may carry a
//! minus sign: `-n` stands for the two's complement of `n`, for `n` up to
//! 2147483648. A numeral outside these ranges is a lexical error at its
//! first character.

pub mod tokens;

use vstd::prelude::*;
use vstd::string::StringExecFns;

use crate::canonical::lemma_lex_ok;
use crate::canonical::tokens_ok;
use crate::chars::CharClass;
use crate::chars::is_digit;
use crate::chars::is_hex_digit;
use crate::chars::is_space;
use crate::chars::is_word_start;
use crate::chars::lemma_run_end;
use crate::chars::run_end;
use crate::chars::scan_run;
use crate::lexer::tokens::handle_type;
use crate::lexer::tokens::spanned_views;
use crate::lexer::tokens::Spanned;
use crate::lexer::tokens::SpannedView;
use crate::lexer::tokens::Token;
use crate::lexer::tokens::TokenView;
use crate::lexer::tokens::Type;
use crate::lexer::tokens::type_text;
use crate::mnemonic::find_mnemonic;
use crate::mnemonic::is_mnemonic;
use crate::mnemonic::range_is;
use crate::text::byte_offset;
use crate::text::numeral_value;
use crate::text::read_numeral;
use crate::text::SourceText;
use crate::text::string_from;

verus! {

/// Why a text could not be split into tokens.
#[derive(Clone, Copy, Debug, PartialEq, Eq, Structural)]
pub enum LexicalError {
    /// No token starts at the byte offset `position`.
    InvalidCharacter { position: usize },
}

/// A token found in a text, with the indices of its first character and of
/// the character after its last.
pub ghost struct Lexeme {
    pub start: int,
    pub token: TokenView,
    pub end: int,
}

/// Where the blank characters and comments that start at `i` end.
pub open spec fn skip_blank(s: Seq<char>, i: int) -> int
    decreases s.len() - i,
{
    if 0 <= i < s.len() && is_space(s[i]) {
        skip_blank(s, i + 1)
    } else if 0 <= i < s.len() && s[i] == ';' {
        proof {
            lemma_run_end(s, i + 1, CharClass::Comment);
        }
        skip_blank(s, run_end(s, i + 1, CharClass::Comment))
    } else {
        i
    }
}

/// Whether the word `w` stands in `s` at index `i`.
pub open spec fn has_word(s: Seq<char>, i: int, w: Seq<char>) -> bool {
    0 <= i && i + w.len() <= s.len() && s.subrange(i, i + w.len()) == w
}

/// The value of the negative numeral `-m`: the two's complement of `m`.
pub open spec fn negated(m: nat) -> u32
    recommends
        m <= 0x8000_0000,
{
    if m == 0 {
        0u32
    } else {
        (0x1_0000_0000 - m) as u32
    }
}

/// The token that starts with a letter or an underscore at `i`.
pub open spec fn scan_word(s: Seq<char>, i: int) -> Option<(TokenView, int)> {
    let j = run_end(s, i + 1, CharClass::Word);
    let w = s.subrange(i, j);
    if j < s.len() && s[j] == ':' {
        Some((TokenView::Label(w), j + 1))
    } else if is_mnemonic(w) {
        Some((TokenView::Instruction(w), j))
    } else {
        Some((TokenView::Identifier(w), j))
    }
}

/// The register that starts with the `$` at `i`.
pub open spec fn scan_register(s: Seq<char>, i: int) -> Option<(TokenView, int)> {
    let j = run_end(s, i + 1, CharClass::Register);
    if j == i + 1 {
        None
    } else {
        Some((TokenView::Register(s.subrange(i, j)), j))
    }
}

/// The directive that starts with the `.` at `i`.
pub open spec fn scan_directive(s: Seq<char>, i: int) -> Option<(TokenView, int)> {
    if has_word(s, i, ".data"@) {
        Some((TokenView::DataSection, i + 5))
    } else if has_word(s, i, ".text"@) {
        Some((TokenView::TextSection, i + 5))
    } else if has_word(s, i, ".global"@) {
        Some((TokenView::GlobalSection, i + 7))
    } else if has_word(s, i, ".globl"@) {
        Some((TokenView::GlobalSection, i + 6))
    } else if has_word(s, i, type_text(Type::Asciiz)) {
        Some((TokenView::Type(Type::Asciiz), i + 7))
    } else if has_word(s, i, type_text(Type::Space)) {
        Some((TokenView::Type(Type::Space), i + 6))
    } else {
        None
    }
}

/// Whether a hexadecimal numeral starts at `i`: `0x` or `0X` and a digit.
pub open spec fn hex_starts(s: Seq<char>, i: int) -> bool {
    &&& i + 2 < s.len()
    &&& s[i] == '0'
    &&& (s[i + 1] == 'x' || s[i + 1] == 'X')
    &&& is_hex_digit(s[i + 2])
}

/// The numeral that starts with a digit or a minus sign at `i`.
pub open spec fn scan_number(s: Seq<char>, i: int) -> Option<(TokenView, int)> {
    if s[i] == '-' {
        let j = run_end(s, i + 1, CharClass::Digit);
        let m = numeral_value(s.subrange(i + 1, j), 10);
        if j > i + 1 && m <= 0x8000_0000 {
            Some((TokenView::Number(negated(m)), j))
        } else {
            None
        }
    } else if hex_starts(s, i) {
        let j = run_end(s, i + 2, CharClass::Hex);
        let n = numeral_value(s.subrange(i + 2, j), 16);
        if n <= 0xffff_ffff {
            Some((TokenView::Number(n as u32), j))
        } else {
            None
        }
    } else {
        let j = run_end(s, i, CharClass::Digit);
        let n = numeral_value(s.subrange(i, j), 10);
        if n <= 0xffff_ffff {
            Some((TokenView::Number(n as u32), j))
        } else {
            None
        }
    }
}

/// The string literal that starts with the quote at `i`.
pub open spec fn scan_string(s: Seq<char>, i: int) -> Option<(TokenView, int)> {
    let j = run_end(s, i + 1, CharClass::Text);
    if j < s.len() {
        Some((TokenView::String(s.subrange(i + 1, j)), j + 1))
    } else {
        None
    }
}

/// The punctuation mark at `i`.
pub open spec fn scan_mark(s: Seq<char>, i: int) -> Option<(TokenView, int)> {
    let c = s[i];
    if c == '[' {
        Some((TokenView::OpenBracket, i + 1))
    } else if c == ']' {
        Some((TokenView::CloseBracket, i + 1))
    } else if c == '(' {
        Some((TokenView::OpenParen, i + 1))
    } else if c == ')' {
        Some((TokenView::CloseParen, i + 1))
    } else if c == ',' {
        Some((TokenView::Comma, i + 1))
    } else {
        None
    }
}

/// The token that starts at `i` and the index after it, or `None` where no
/// token starts at `i`.
pub open spec fn scan_token(s: Seq<char>, i: int) -> Option<(TokenView, int)>
    recommends
        0 <= i < s.len(),
{
    let c = s[i];
    if is_word_start(c) {
        scan_word(s, i)
    } else if c == '$' {
        scan_register(s, i)
    } else if c == '.' {
        scan_directive(s, i)
    } else if is_digit(c) || c == '-' {
        scan_number(s, i)
    } else if c == '"' {
        scan_string(s, i)
    } else {
        scan_mark(s, i)
    }
}

/// A token is not empty and ends within the text.
pub proof fn lemma_scan_token_advances(s: Seq<char>, i: int)
    requires
        0 <= i < s.len(),
    ensures
        match scan_token(s, i) {
            Some((_, j)) => i < j <= s.len(),
            None => true,
        },
{
    lemma_run_end(s, i + 1, CharClass::Word);
    lemma_run_end(s, i + 1, CharClass::Register);
    lemma_run_end(s, i + 1, CharClass::Digit);
    lemma_run_end(s, i + 1, CharClass::Text);
    lemma_run_end(s, i, CharClass::Digit);
    if i + 2 <= s.len() {
        lemma_run_end(s, i + 2, CharClass::Hex);
    }
    reveal_strlit(".data");
    reveal_strlit(".text");
    reveal_strlit(".global");
    reveal_strlit(".globl");
    reveal_strlit(".asciiz");
    reveal_strlit(".space");
}

/// Blank characters are skipped forwards, never past the end.
pub proof fn lemma_skip_blank(s: Seq<char>, i: int)
    requires
        0 <= i <= s.len(),
    ensures
        i <= skip_blank(s, i) <= s.len(),
        skip_blank(s, i) < s.len() ==> !is_space(s[skip_blank(s, i)]) && s[skip_blank(s, i)]
            != ';',
        skip_blank(s, skip_blank(s, i)) == skip_blank(s, i),
    decreases s.len() - i,
{
    if i < s.len() && is_space(s[i]) {
        lemma_skip_blank(s, i + 1);
    } else if i < s.len() && s[i] == ';' {
        lemma_run_end(s, i + 1, CharClass::Comment);
        lemma_skip_blank(s, run_end(s, i + 1, CharClass::Comment));
    }
}

/// The tokens of `s` from index `i` on, or the index at which no token
/// starts.
pub open spec fn scan_all(s: Seq<char>, i: int) -> Result<Seq<Lexeme>, int>
    decreases s.len() - i,
{
    let k = skip_blank(s, i);
    if 0 <= i <= k < s.len() {
        match scan_token(s, k) {
            None => Err(k),
            Some((token, j)) => {
                proof {
                    lemma_scan_token_advances(s, k);
                }
                match scan_all(s, j) {
                    Ok(rest) => Ok(seq![Lexeme { start: k, token, end: j }] + rest),
                    Err(e) => Err(e),
                }
            },
        }
    } else {
        Ok(Seq::empty())
    }
}

/// A lexeme with its indices turned into byte offsets.
pub open spec fn spanned_of(s: Seq<char>, l: Lexeme) -> SpannedView {
    SpannedView { start: byte_offset(s, l.start), token: l.token, end: byte_offset(s, l.end) }
}

/// Lexemes with their indices turned into byte offsets.
pub open spec fn spans_of(s: Seq<char>, found: Seq<Lexeme>) -> Seq<SpannedView> {
    found.map_values(|l: Lexeme| spanned_of(s, l))
}

/// The tokens of the text `s` with their byte spans, or the byte offset at
/// which no token starts.
pub open spec fn lex(s: Seq<char>) -> Result<Seq<SpannedView>, nat> {
    match scan_all(s, 0) {
        Ok(found) => Ok(spans_of(s, found)),
        Err(k) => Err(byte_offset(s, k)),
    }
}

/// Whether the outcome `r` of the lexer shows the outcome `model`: the same
/// tokens with the same spans, or an error at the same byte offset.
pub open spec fn finds(r: Result<Vec<Spanned>, LexicalError>, model: Result<Seq<SpannedView>, nat>) -> bool {
    match r {
        Ok(tokens) => model == Ok::<Seq<SpannedView>, nat>(spanned_views(tokens@)),
        Err(LexicalError::InvalidCharacter { position }) => model == Err::<Seq<SpannedView>, nat>(
            position as nat,
        ),
    }
}

/// The result of scanning with the lexemes `found` put in front.
pub open spec fn after(found: Seq<Lexeme>, rest: Result<Seq<Lexeme>, int>) -> Result<
    Seq<Lexeme>,
    int,
> {
    match rest {
        Ok(more) => Ok(found + more),
        Err(e) => Err(e),
    }
}

/// Skips the blank characters and comments from `i` on.
pub fn skip(v: &Vec<char>, i: usize) -> (k: usize)
    requires
        i <= v.len(),
    ensures
        k == skip_blank(v@, i as int),
        i <= k <= v.len(),
{
    let mut k: usize = i;
    loop
        invariant
            i <= k <= v.len(),
            skip_blank(v@, i as int) == skip_blank(v@, k as int),
        decreases v.len() - k,
    {
        if k < v.len() && is_space(v[k]) {
            k += 1;
        } else if k < v.len() && v[k] == ';' {
            k = scan_run(v, k + 1, CharClass::Comment);
        } else {
            return k;
        }
    }
}

/// Whether `word` stands in `v` at index `i`.
pub fn starts_with(v: &Vec<char>, i: usize, word: &str) -> (r: bool)
    requires
        i <= v.len(),
        vstd::string::is_ascii(word),
    ensures
        r == has_word(v@, i as int, word@),
{
    broadcast use vstd::string::is_ascii_spec_bytes;

    let n: usize = word.as_bytes().len();
    if n > v.len() - i {
        false
    } else {
        range_is(v, i, i + n, word)
    }
}

/// Reads the token that starts at index `i`.
pub fn next_token(v: &Vec<char>, i: usize) -> (r: Option<(Token, usize)>)
    requires
        i < v.len(),
    ensures
        match r {
            Some((token, j)) => scan_token(v@, i as int) == Some((token@, j as int)) && i < j
                <= v.len(),
            None => scan_token(v@, i as int) is None,
        },
{
    proof {
        lemma_scan_token_advances(v@, i as int);
    }
    let c = v[i];
    if is_word_start(c) {
        let j = scan_run(v, i + 1, CharClass::Word);
        if j < v.len() && v[j] == ':' {
            Some((Token::Label(string_from(v, i, j)), j + 1))
        } else if find_mnemonic(v, i, j).is_some() {
            Some((Token::Instruction(string_from(v, i, j)), j))
        } else {
            Some((Token::Identifier(string_from(v, i, j)), j))
        }
    } else if c == '$' {
        let j = scan_run(v, i + 1, CharClass::Register);
        if j == i + 1 {
            None
        } else {
            Some((Token::Register(string_from(v, i, j)), j))
        }
    } else if c == '.' {
        read_directive(v, i)
    } else if is_digit(c) || c == '-' {
        read_number(v, i)
    } else if c == '"' {
        let j = scan_run(v, i + 1, CharClass::Text);
        if j < v.len() {
            Some((Token::String(string_from(v, i + 1, j)), j + 1))
        } else {
            None
        }
    } else if c == '[' {
        Some((Token::OpenBracket, i + 1))
    } else if c == ']' {
        Some((Token::CloseBracket, i + 1))
    } else if c == '(' {
        Some((Token::OpenParen, i + 1))
    } else if c == ')' {
        Some((Token::CloseParen, i + 1))
    } else if c == ',' {
        Some((Token::Comma, i + 1))
    } else {
        None
    }
}

/// Reads the directive that starts at index `i`.
pub fn read_directive(v: &Vec<char>, i: usize) -> (r: Option<(Token, usize)>)
    requires
        i < v.len(),
    ensures
        match r {
            Some((token, j)) => scan_directive(v@, i as int) == Some((token@, j as int)),
            None => scan_directive(v@, i as int) is None,
        },
{
    proof {
        reveal_strlit(".data");
        reveal_strlit(".text");
        reveal_strlit(".global");
        reveal_strlit(".globl");
        reveal_strlit(".asciiz");
        reveal_strlit(".space");
    }
    if starts_with(v, i, ".data") {
        Some((Token::DataSection, i + 5))
    } else if starts_with(v, i, ".text") {
        Some((Token::TextSection, i + 5))
    } else if starts_with(v, i, ".global") {
        Some((Token::GlobalSection, i + 7))
    } else if starts_with(v, i, ".globl") {
        Some((Token::GlobalSection, i + 6))
    } else if starts_with(v, i, ".asciiz") {
        let word = string_from(v, i, i + 7);
        Some((Token::Type(handle_type(word.as_str())), i + 7))
    } else if starts_with(v, i, ".space") {
        let word = string_from(v, i, i + 6);
        Some((Token::Type(handle_type(word.as_str())), i + 6))
    } else {
        None
    }
}

/// Reads the numeral that starts at index `i`.
pub fn read_number(v: &Vec<char>, i: usize) -> (r: Option<(Token, usize)>)
    requires
        i < v.len(),
        is_digit(v@[i as int]) || v@[i as int] == '-',
    ensures
        match r {
            Some((token, j)) => scan_number(v@, i as int) == Some((token@, j as int)),
            None => scan_number(v@, i as int) is None,
        },
{
    if v[i] == '-' {
        let j = scan_run(v, i + 1, CharClass::Digit);
        if j == i + 1 {
            return None;
        }
        proof {
            lemma_run_end(v@, i + 1, CharClass::Digit);
        }
        match read_numeral(v, i + 1, j, false, 0x8000_0000) {
            Some(m) => {
                let n: u32 = if m == 0 {
                    0
                } else {
                    (0x1_0000_0000u64 - m) as u32
                };
                Some((Token::Number(n), j))
            },
            None => None,
        }
    } else if v.len() - i > 2 && v[i] == '0' && (v[i + 1] == 'x' || v[i + 1] == 'X')
        && is_hex_digit(v[i + 2]) {
        let j = scan_run(v, i + 2, CharClass::Hex);
        proof {
            lemma_run_end(v@, i + 2, CharClass::Hex);
        }
        match read_numeral(v, i + 2, j, true, 0xffff_ffff) {
            Some(n) => Some((Token::Number(n as u32), j)),
            None => None,
        }
    } else {
        let j = scan_run(v, i, CharClass::Digit);
        proof {
            lemma_run_end(v@, i as int, CharClass::Digit);
        }
        match read_numeral(v, i, j, false, 0xffff_ffff) {
            Some(n) => Some((Token::Number(n as u32), j)),
            None => None,
        }
    }
}

/// Splits `source` into tokens. Each token has the byte offsets of its
/// first byte and of the byte after its last. Where at some place no token
/// starts, the result is an error with the byte offset of that place. The
/// tokens are well formed: a name has the shape of its kind, an identifier
/// is no mnemonic, a string holds no quote.
pub fn tokenize(source: &str) -> (r: Result<Vec<Spanned>, LexicalError>)
    ensures
        finds(r, lex(source@)),
        r is Ok ==> tokens_ok(spanned_views(r->Ok_0@)),
{
    let text = SourceText::new(source);
    let ghost s = source@;
    let n: usize = text.chars.len();
    let mut tokens: Vec<Spanned> = Vec::new();
    let ghost mut found: Seq<Lexeme> = Seq::empty();
    let mut i: usize = 0;
    loop
        invariant
            text.wf(),
            text.chars@ == s,
            s == source@,
            n == s.len(),
            0 <= i <= n,
            scan_all(s, 0) == after(found, scan_all(s, i as int)),
            tokens@.len() == found.len(),
            forall|t: int| 0 <= t < found.len() ==> (#[trigger] tokens@[t])@ == spanned_of(s, found[t]),
        decreases n - i,
    {
        let k = skip(&text.chars, i);
        if k >= n {
            proof {
                assert(found + Seq::<Lexeme>::empty() =~= found);
                assert(spanned_views(tokens@) =~= spans_of(s, found));
                lemma_lex_ok(s);
            }
            return Ok(tokens);
        }
        match next_token(&text.chars, k) {
            None => {
                return Err(LexicalError::InvalidCharacter { position: text.offsets[k] });
            },
            Some((token, j)) => {
                let ghost lexeme = Lexeme { start: k as int, token: token@, end: j as int };
                let item = Spanned { start: text.offsets[k], token, end: text.offsets[j] };
                proof {
                    match scan_all(s, j as int) {
                        Ok(more) => {
                            assert(found.push(lexeme) + more =~= found + (seq![lexeme] + more));
                        },
                        Err(_) => {},
                    }
                    found = found.push(lexeme);
                }
                tokens.push(item);
                i = j;
            },
        }
    }
}

/// A text to be split into tokens, with the name of the file that it was
/// read from.
#[derive(Clone, Debug, PartialEq, Eq)]
pub struct Lexer {
    pub source_code: String,
    pub filepath: String,
}

impl Lexer {
    /// A lexer for the text `source_code`, read from `filepath`.
    pub fn new(source_code: &str, filepath: &str) -> (lexer: Lexer)
        ensures
            lexer.source_code@ == source_code@,
            lexer.filepath@ == filepath@,
    {
        Lexer {
            source_code: String::from_str(source_code),
            filepath: String::from_str(filepath),
        }
    }

    /// The tokens of the source text: see [`tokenize`].
    pub fn tokens(&self) -> (r: Result<Vec<Spanned>, LexicalError>)
        ensures
            finds(r, lex(self.source_code@)),
            r is Ok ==> tokens_ok(spanned_views(r->Ok_0@)),
    {
        tokenize(self.source_code.as_str())
    }
}

} // verus!
