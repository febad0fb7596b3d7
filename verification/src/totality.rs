//! What holds of the lexer on every text.
//!
//! - Coverage: the tokens of a text that the lexer accepts, with the blank
//!   characters and comments between them, cover the text, and their spans
//!   stand in the order of the text.
//! - Longest match: the text of each token is that of one token, and no
//!   longer text that starts at the same place has that shape.
//! - Totality: a text that is made of the texts of tokens, with blank
//!   characters or comments between them, is accepted. A numeral counts as
//!   the text of a token only within its range.

use vstd::prelude::*;

use crate::canonical::is_plain;
use crate::canonical::is_register_name;
use crate::canonical::is_word;
use crate::chars::all_in_class;
use crate::chars::CharClass;
use crate::chars::in_class;
use crate::chars::is_digit;
use crate::chars::is_word_start;
use crate::chars::lemma_run_end;
use crate::chars::run_end;
use crate::lexer::hex_starts;
use crate::chars::is_space;
use crate::chars::lemma_run_end_is;
use crate::lexer::has_word;
use crate::lexer::lemma_scan_token_advances;
use crate::lexer::lemma_skip_blank;
use crate::lexer::lex;
use crate::lexer::Lexeme;
use crate::lexer::scan_all;
use crate::lexer::scan_token;
use crate::lexer::skip_blank;
use crate::lexer::spanned_of;
use crate::lexer::spans_of;
use crate::lexer::tokens::SpannedView;
use crate::lexer::tokens::TokenView;
use crate::mnemonic::mnemonic_of;
use crate::parser::after_operands;
use crate::parser::lemma_operands_fit;
use crate::parser::parse_data_section;
use crate::parser::parse_operands;
use crate::parser::parse_program;
use crate::parser::parse_source;
use crate::parser::parse_statements;
use crate::parser::parse_variables;
use crate::parser::ParseErrorView;
use crate::parser::Piece;
use crate::parser::spec_pieces;
use crate::roundtrip::is_blank;
use crate::text::byte_offset;
use crate::text::lemma_byte_offset_monotonic;
use crate::text::numeral_value;

verus! {

/// Whether the lexemes `found` account for the text from index `i` on:
/// each starts where the blank characters and comments after the one before
/// it end, each is the token that the lexer reads at its start, and after
/// the last only blank characters and comments follow.
pub open spec fn covers(s: Seq<char>, found: Seq<Lexeme>, i: int) -> bool
    decreases found.len(),
{
    if found.len() == 0 {
        skip_blank(s, i) == s.len()
    } else {
        &&& found[0].start == skip_blank(s, i)
        &&& i <= found[0].start < found[0].end <= s.len()
        &&& scan_token(s, found[0].start) == Some((found[0].token, found[0].end))
        &&& covers(s, found.drop_first(), found[0].end)
    }
}

/// The tokens that the lexer finds from `i` on, with what it skips
/// between them, cover the text from `i` on.
pub proof fn lemma_scan_covers(s: Seq<char>, i: int)
    requires
        0 <= i <= s.len(),
    ensures
        match scan_all(s, i) {
            Ok(found) => covers(s, found, i),
            Err(_) => true,
        },
    decreases s.len() - i,
{
    lemma_skip_blank(s, i);
    let k = skip_blank(s, i);
    if k < s.len() {
        lemma_scan_token_advances(s, k);
        match scan_token(s, k) {
            Some((token, j)) => {
                lemma_scan_covers(s, j);
                match scan_all(s, j) {
                    Ok(rest) => {
                        let found = seq![Lexeme { start: k, token, end: j }] + rest;
                        assert(found.drop_first() =~= rest);
                    },
                    Err(_) => {},
                }
            },
            None => {},
        }
    }
}

/// Coverage: the tokens of a text that the lexer accepts, with the blank
/// characters and comments that it skips, cover the text exactly.
pub proof fn lemma_tokens_cover(s: Seq<char>)
    ensures
        match scan_all(s, 0) {
            Ok(found) => covers(s, found, 0),
            Err(_) => true,
        },
{
    lemma_scan_covers(s, 0);
}

/// Whether the spans stand in the order of the text from the byte offset
/// `from` on, each of them not empty, and end within `limit` bytes.
pub open spec fn in_order(ts: Seq<SpannedView>, from: nat, limit: nat) -> bool
    decreases ts.len(),
{
    if ts.len() == 0 {
        from <= limit
    } else {
        from <= ts[0].start < ts[0].end && in_order(ts.drop_first(), ts[0].end, limit)
    }
}

/// The lexemes that cover a text from `i` on have their byte spans in the
/// order of the text.
pub proof fn lemma_covers_in_order(s: Seq<char>, found: Seq<Lexeme>, i: int)
    requires
        0 <= i <= s.len(),
        covers(s, found, i),
    ensures
        in_order(spans_of(s, found), byte_offset(s, i), byte_offset(s, s.len() as int)),
    decreases found.len(),
{
    let ts = spans_of(s, found);
    if found.len() == 0 {
        lemma_byte_offset_monotonic(s, i, s.len() as int);
    } else {
        let first = found[0];
        lemma_byte_offset_monotonic(s, i, first.start);
        lemma_byte_offset_monotonic(s, first.start, first.end);
        lemma_covers_in_order(s, found.drop_first(), first.end);
        assert(ts.drop_first() =~= spans_of(s, found.drop_first()));
        assert(ts[0] == spanned_of(s, first));
    }
}

/// The tokens of a text have their spans in the order of the text: none is
/// empty, none starts before the one before it has ended, and the last ends
/// within the bytes of the text.
pub proof fn lemma_spans_in_order(s: Seq<char>)
    ensures
        match lex(s) {
            Ok(ts) => in_order(ts, 0, vstd::utf8::encode_utf8(s).len()),
            Err(_) => true,
        },
{
    lemma_scan_covers(s, 0);
    match scan_all(s, 0) {
        Ok(found) => {
            lemma_covers_in_order(s, found, 0);
            lemma_byte_offset_monotonic(s, 0, s.len() as int);
            crate::text::lemma_byte_offset_zero(s);
        },
        Err(_) => {},
    }
}

/// At least one decimal digit.
pub open spec fn is_digits(w: Seq<char>) -> bool {
    w.len() >= 1 && all_in_class(w, CharClass::Digit)
}

/// A minus sign and at least one decimal digit.
pub open spec fn is_minus_digits(w: Seq<char>) -> bool {
    w.len() >= 2 && w[0] == '-' && all_in_class(w.subrange(1, w.len() as int), CharClass::Digit)
}

/// `0x` or `0X` and at least one hexadecimal digit.
pub open spec fn is_hex_digits(w: Seq<char>) -> bool {
    &&& w.len() >= 3
    &&& w[0] == '0'
    &&& (w[1] == 'x' || w[1] == 'X')
    &&& all_in_class(w.subrange(2, w.len() as int), CharClass::Hex)
}

/// A decimal numeral that fits in 32 bits.
pub open spec fn is_decimal(w: Seq<char>) -> bool {
    is_digits(w) && numeral_value(w, 10) <= 0xffff_ffff
}

/// A minus sign and a decimal numeral of at most 2147483648.
pub open spec fn is_negative(w: Seq<char>) -> bool {
    is_minus_digits(w) && numeral_value(w.subrange(1, w.len() as int), 10) <= 0x8000_0000
}

/// `0x` or `0X` and a hexadecimal numeral that fits in 32 bits.
pub open spec fn is_hexadecimal(w: Seq<char>) -> bool {
    is_hex_digits(w) && numeral_value(w.subrange(2, w.len() as int), 16) <= 0xffff_ffff
}

/// A text without a quote, between two quotes.
pub open spec fn is_quoted(w: Seq<char>) -> bool {
    w.len() >= 2 && w[0] == '"' && w[w.len() - 1] == '"' && is_plain(w.subrange(1, w.len() - 1))
}

/// A word and a colon.
pub open spec fn is_label_text(w: Seq<char>) -> bool {
    w.len() >= 2 && w[w.len() - 1] == ':' && is_word(w.subrange(0, w.len() - 1))
}

/// One of the directives.
pub open spec fn is_directive(w: Seq<char>) -> bool {
    w == ".data"@ || w == ".text"@ || w == ".global"@ || w == ".globl"@ || w == ".asciiz"@ || w
        == ".space"@
}

/// One of the punctuation marks.
pub open spec fn is_mark_text(w: Seq<char>) -> bool {
    w.len() == 1 && (w[0] == '[' || w[0] == ']' || w[0] == '(' || w[0] == ')' || w[0] == ',')
}

/// Whether `w` is the text of one token: a word, a label, a register, a
/// directive, a numeral within its range, a string literal or a mark.
pub open spec fn is_lexeme(w: Seq<char>) -> bool {
    ||| is_word(w)
    ||| is_label_text(w)
    ||| is_register_name(w)
    ||| is_directive(w)
    ||| is_decimal(w)
    ||| is_negative(w)
    ||| is_hexadecimal(w)
    ||| is_quoted(w)
    ||| is_mark_text(w)
}

/// Whether `w` has the shape of the text of one token: that of a lexeme,
/// but for the range of a numeral.
pub open spec fn has_token_shape(w: Seq<char>) -> bool {
    ||| is_word(w)
    ||| is_label_text(w)
    ||| is_register_name(w)
    ||| is_directive(w)
    ||| is_digits(w)
    ||| is_minus_digits(w)
    ||| is_hex_digits(w)
    ||| is_quoted(w)
    ||| is_mark_text(w)
}

/// Makes the characters of the directives known to the verifier.
pub proof fn lemma_directive_spellings()
    ensures
        ".data"@ =~= seq!['.', 'd', 'a', 't', 'a'],
        ".text"@ =~= seq!['.', 't', 'e', 'x', 't'],
        ".globl"@ =~= seq!['.', 'g', 'l', 'o', 'b', 'l'],
        ".global"@ =~= seq!['.', 'g', 'l', 'o', 'b', 'a', 'l'],
        ".asciiz"@ =~= seq!['.', 'a', 's', 'c', 'i', 'i', 'z'],
        ".space"@ =~= seq!['.', 's', 'p', 'a', 'c', 'e'],
{
    reveal_strlit(".data");
    reveal_strlit(".text");
    reveal_strlit(".globl");
    reveal_strlit(".global");
    reveal_strlit(".asciiz");
    reveal_strlit(".space");
}

/// The text of the token that the lexer reads at `k` is the text of one
/// token.
pub proof fn lemma_token_is_lexeme(s: Seq<char>, k: int)
    requires
        0 <= k < s.len(),
    ensures
        match scan_token(s, k) {
            Some((_, j)) => is_lexeme(s.subrange(k, j)),
            None => true,
        },
{
    lemma_directive_spellings();
    lemma_scan_token_advances(s, k);
    match scan_token(s, k) {
        Some((token, j)) => {
            let w = s.subrange(k, j);
            assert(w[0] == s[k]);
            if is_word_start(s[k]) {
                let e = run_end(s, k + 1, CharClass::Word);
                lemma_run_end(s, k + 1, CharClass::Word);
                let name = s.subrange(k, e);
                assert(is_word(name)) by {
                    assert(name[0] == s[k]);
                    assert forall|n: int| 0 <= n < name.len() implies in_class(
                        CharClass::Word,
                        #[trigger] name[n],
                    ) by {
                        assert(name[n] == s[k + n]);
                    }
                }
                if j == e + 1 {
                    assert(w[w.len() - 1] == s[e]);
                    assert(w.subrange(0, w.len() - 1) =~= name);
                }
            } else if s[k] == '$' {
                lemma_run_end(s, k + 1, CharClass::Register);
                assert forall|n: int| 1 <= n < w.len() implies crate::chars::is_register_char(
                    #[trigger] w[n],
                ) by {
                    assert(w[n] == s[k + n]);
                }
            } else if s[k] == '.' {
            } else if s[k] == '-' {
                lemma_run_end(s, k + 1, CharClass::Digit);
                assert(w.subrange(1, w.len() as int) =~= s.subrange(k + 1, j));
            } else if is_digit(s[k]) {
                if hex_starts(s, k) {
                    lemma_run_end(s, k + 2, CharClass::Hex);
                    assert(w[1] == s[k + 1]);
                    assert(w.subrange(2, w.len() as int) =~= s.subrange(k + 2, j));
                } else {
                    lemma_run_end(s, k, CharClass::Digit);
                }
            } else if s[k] == '"' {
                lemma_run_end(s, k + 1, CharClass::Text);
                assert(w[w.len() - 1] == s[j - 1]);
                assert(w.subrange(1, w.len() - 1) =~= s.subrange(k + 1, j - 1));
            } else {
            }
        },
        None => {},
    }
}

/// Where the token that starts at `k` ends, or `k` where none starts
/// there.
pub open spec fn token_end(s: Seq<char>, k: int) -> int {
    match scan_token(s, k) {
        Some((_, j)) => j,
        None => k,
    }
}

/// Longest match: no text that starts where a token starts and is longer
/// than the token has the shape of the text of one token.
pub proof fn lemma_longest_match(s: Seq<char>, k: int, longer: int)
    requires
        0 <= k < s.len(),
        scan_token(s, k) is Some,
        token_end(s, k) < longer <= s.len(),
    ensures
        !has_token_shape(s.subrange(k, longer)),
{
    lemma_directive_spellings();
    lemma_scan_token_advances(s, k);
    let j = token_end(s, k);
    let w = s.subrange(k, longer);
    assert(w[0] == s[k]);
    assert(w.len() >= 2);
    assert(w[w.len() - 1] == s[longer - 1]);
    if is_word_start(s[k]) {
        let e = run_end(s, k + 1, CharClass::Word);
        lemma_run_end(s, k + 1, CharClass::Word);
        assert(w[e - k] == s[e]);
        if is_label_text(w) {
            let name = w.subrange(0, w.len() - 1);
            if e < longer - 1 {
                assert(name[e - k] == s[e]);
                assert(in_class(CharClass::Word, name[e - k]));
            }
        }
    } else if s[k] == '$' {
        lemma_run_end(s, k + 1, CharClass::Register);
        assert(w[j - k] == s[j]);
    } else if s[k] == '.' {
        assert(w.len() == longer - k);
    } else if s[k] == '-' {
        lemma_run_end(s, k + 1, CharClass::Digit);
        if is_minus_digits(w) {
            let digits = w.subrange(1, w.len() as int);
            assert(digits[j - k - 1] == s[j]);
            assert(in_class(CharClass::Digit, digits[j - k - 1]));
        }
    } else if is_digit(s[k]) {
        assert(w[1] == s[k + 1]);
        if hex_starts(s, k) {
            lemma_run_end(s, k + 2, CharClass::Hex);
            if is_hex_digits(w) {
                let digits = w.subrange(2, w.len() as int);
                assert(digits[j - k - 2] == s[j]);
                assert(in_class(CharClass::Hex, digits[j - k - 2]));
            }
            if is_digits(w) {
                assert(in_class(CharClass::Digit, w[1]));
            }
        } else {
            lemma_run_end(s, k, CharClass::Digit);
            assert(w[j - k] == s[j]);
            if is_hex_digits(w) {
                let digits = w.subrange(2, w.len() as int);
                assert(digits[0] == s[k + 2]);
                assert(in_class(CharClass::Hex, digits[0]));
                if j > k + 1 {
                    assert(in_class(CharClass::Digit, s[k + 1]));
                }
            }
        }
    } else if s[k] == '"' {
        lemma_run_end(s, k + 1, CharClass::Text);
        if is_quoted(w) {
            let body = w.subrange(1, w.len() - 1);
            assert(body[j - k - 2] == s[j - 1]);
            assert(in_class(CharClass::Text, body[j - k - 2]));
        }
    } else {
    }
}

/// The lexer reads the text of one token as one token, where a blank
/// character, a comment or the end of the text follows it.
pub proof fn lemma_scan_spaced_lexeme(s: Seq<char>, k: int, w: Seq<char>)
    requires
        is_lexeme(w),
        has_word(s, k, w),
        k + w.len() == s.len() || is_space(s[k + w.len()]) || s[k + w.len()] == ';',
    ensures
        k < s.len(),
        !is_space(s[k]),
        s[k] != ';',
        match scan_token(s, k) {
            Some((_, j)) => j == k + w.len(),
            None => false,
        },
{
    let e = k + w.len();
    let sub = s.subrange(k, e);
    assert(sub == w);
    assert(w.len() > 0) by {
        reveal_strlit(".data");
        reveal_strlit(".text");
        reveal_strlit(".global");
        reveal_strlit(".globl");
        reveal_strlit(".asciiz");
        reveal_strlit(".space");
    }
    assert(sub[0] == s[k]);
    if is_word(w) {
        assert forall|n: int| k + 1 <= n < e implies in_class(CharClass::Word, #[trigger] s[n]) by {
            assert(sub[n - k] == s[n]);
            assert(in_class(CharClass::Word, w[n - k]));
        }
        lemma_run_end_is(s, k + 1, e, CharClass::Word);
    } else if is_label_text(w) {
        let name = w.subrange(0, w.len() - 1);
        assert(name[0] == w[0]);
        assert(sub[w.len() - 1] == s[e - 1]);
        assert forall|n: int| k + 1 <= n < e - 1 implies in_class(
            CharClass::Word,
            #[trigger] s[n],
        ) by {
            assert(sub[n - k] == s[n]);
            assert(name[n - k] == w[n - k]);
            assert(in_class(CharClass::Word, name[n - k]));
        }
        lemma_run_end_is(s, k + 1, e - 1, CharClass::Word);
    } else if is_register_name(w) {
        assert forall|n: int| k + 1 <= n < e implies in_class(
            CharClass::Register,
            #[trigger] s[n],
        ) by {
            assert(sub[n - k] == s[n]);
            assert(crate::chars::is_register_char(w[n - k]));
        }
        lemma_run_end_is(s, k + 1, e, CharClass::Register);
    } else if is_directive(w) {
        reveal_strlit(".data");
        reveal_strlit(".text");
        reveal_strlit(".global");
        reveal_strlit(".globl");
        reveal_strlit(".asciiz");
        reveal_strlit(".space");
        assert(sub[1] == s[k + 1]);
        if w.len() > 5 {
            assert(sub[5] == s[k + 5]);
        }
        if has_word(s, k, ".data"@) {
            assert(s.subrange(k, k + 5)[1] == s[k + 1]);
        }
        if has_word(s, k, ".text"@) {
            assert(s.subrange(k, k + 5)[1] == s[k + 1]);
        }
        if has_word(s, k, ".global"@) {
            assert(s.subrange(k, k + 7)[1] == s[k + 1]);
            assert(s.subrange(k, k + 7)[5] == s[k + 5]);
        }
        if has_word(s, k, ".globl"@) {
            assert(s.subrange(k, k + 6)[1] == s[k + 1]);
            assert(s.subrange(k, k + 6)[5] == s[k + 5]);
        }
        if has_word(s, k, ".asciiz"@) {
            assert(s.subrange(k, k + 7)[1] == s[k + 1]);
        }
        if has_word(s, k, ".space"@) {
            assert(s.subrange(k, k + 6)[1] == s[k + 1]);
        }
    } else if is_decimal(w) {
        assert(in_class(CharClass::Digit, w[0]));
        assert forall|n: int| k <= n < e implies in_class(CharClass::Digit, #[trigger] s[n]) by {
            assert(sub[n - k] == s[n]);
            assert(in_class(CharClass::Digit, w[n - k]));
        }
        lemma_run_end_is(s, k, e, CharClass::Digit);
        if k + 1 < e {
            assert(in_class(CharClass::Digit, s[k + 1]));
        }
    } else if is_negative(w) {
        let digits = w.subrange(1, w.len() as int);
        assert forall|n: int| k + 1 <= n < e implies in_class(CharClass::Digit, #[trigger] s[n]) by {
            assert(sub[n - k] == s[n]);
            assert(digits[n - k - 1] == w[n - k]);
            assert(in_class(CharClass::Digit, digits[n - k - 1]));
        }
        lemma_run_end_is(s, k + 1, e, CharClass::Digit);
        assert(s.subrange(k + 1, e) =~= digits) by {
            assert forall|n: int| 0 <= n < digits.len() implies s[k + 1 + n] == digits[n] by {
                assert(sub[n + 1] == s[k + 1 + n]);
            }
        }
    } else if is_hexadecimal(w) {
        let digits = w.subrange(2, w.len() as int);
        assert(sub[1] == s[k + 1]);
        assert(sub[2] == s[k + 2]);
        assert(digits[0] == w[2]);
        assert(in_class(CharClass::Hex, digits[0]));
        assert forall|n: int| k + 2 <= n < e implies in_class(CharClass::Hex, #[trigger] s[n]) by {
            assert(sub[n - k] == s[n]);
            assert(digits[n - k - 2] == w[n - k]);
            assert(in_class(CharClass::Hex, digits[n - k - 2]));
        }
        lemma_run_end_is(s, k + 2, e, CharClass::Hex);
        assert(s.subrange(k + 2, e) =~= digits) by {
            assert forall|n: int| 0 <= n < digits.len() implies s[k + 2 + n] == digits[n] by {
                assert(sub[n + 2] == s[k + 2 + n]);
            }
        }
    } else if is_quoted(w) {
        let body = w.subrange(1, w.len() - 1);
        assert(sub[w.len() - 1] == s[e - 1]);
        assert forall|n: int| k + 1 <= n < e - 1 implies in_class(
            CharClass::Text,
            #[trigger] s[n],
        ) by {
            assert(sub[n - k] == s[n]);
            assert(body[n - k - 1] == w[n - k]);
            assert(in_class(CharClass::Text, body[n - k - 1]));
        }
        lemma_run_end_is(s, k + 1, e - 1, CharClass::Text);
    } else {
    }
}

/// Whether `g` holds, from index `i` on, only blank characters and
/// comments, each comment ended by the end of its line.
pub open spec fn gap_from(g: Seq<char>, i: int) -> bool
    decreases g.len() - i,
{
    if !(0 <= i < g.len()) {
        true
    } else if is_space(g[i]) {
        gap_from(g, i + 1)
    } else if g[i] == ';' {
        proof {
            lemma_run_end(g, i + 1, CharClass::Comment);
        }
        run_end(g, i + 1, CharClass::Comment) < g.len() && gap_from(
            g,
            run_end(g, i + 1, CharClass::Comment),
        )
    } else {
        false
    }
}

/// Whether `g` may stand between two tokens: whether it holds only blank
/// characters and comments, each comment ended by the end of its line.
pub open spec fn is_gap(g: Seq<char>) -> bool {
    gap_from(g, 0)
}

/// Whether `t` may stand after the last token: whether it holds only blank
/// characters and comments. The last comment need not be ended.
pub open spec fn is_trailing(t: Seq<char>) -> bool {
    skip_blank(t, 0) == t.len()
}

/// A run in a text is the run in what is left of the text from `i` on.
pub proof fn lemma_run_end_suffix(s: Seq<char>, i: int, j: int, k: CharClass)
    requires
        0 <= i,
        0 <= j,
        i + j <= s.len(),
    ensures
        run_end(s, i + j, k) == i + run_end(s.subrange(i, s.len() as int), j, k),
    decreases s.len() - i - j,
{
    let rest = s.subrange(i, s.len() as int);
    if i + j < s.len() {
        assert(rest[j] == s[i + j]);
        if in_class(k, s[i + j]) {
            lemma_run_end_suffix(s, i, j + 1, k);
        }
    }
}

/// What is skipped in a text is what is skipped in what is left of the
/// text from `i` on.
pub proof fn lemma_skip_suffix(s: Seq<char>, i: int, j: int)
    requires
        0 <= i,
        0 <= j,
        i + j <= s.len(),
    ensures
        skip_blank(s, i + j) == i + skip_blank(s.subrange(i, s.len() as int), j),
    decreases s.len() - i - j,
{
    let rest = s.subrange(i, s.len() as int);
    if i + j < s.len() {
        assert(rest[j] == s[i + j]);
        if is_space(s[i + j]) {
            lemma_skip_suffix(s, i, j + 1);
        } else if s[i + j] == ';' {
            lemma_run_end_suffix(s, i, j + 1, CharClass::Comment);
            lemma_run_end(rest, j + 1, CharClass::Comment);
            lemma_skip_suffix(s, i, run_end(rest, j + 1, CharClass::Comment));
        }
    }
}

/// The lexer skips a gap that stands in a text at `i`, from each place of
/// the gap from which it holds blank characters and ended comments only.
pub proof fn lemma_skip_gap(s: Seq<char>, i: int, g: Seq<char>, j: int)
    requires
        has_word(s, i, g),
        0 <= j <= g.len(),
        gap_from(g, j),
    ensures
        skip_blank(s, i + j) == skip_blank(s, i + g.len()),
    decreases g.len() - j,
{
    if j < g.len() {
        assert(s.subrange(i, i + g.len())[j] == s[i + j]);
        if is_space(g[j]) {
            lemma_skip_gap(s, i, g, j + 1);
        } else {
            let k = run_end(g, j + 1, CharClass::Comment);
            lemma_run_end(g, j + 1, CharClass::Comment);
            assert forall|n: int| i + j + 1 <= n < i + k implies in_class(
                CharClass::Comment,
                #[trigger] s[n],
            ) by {
                assert(s.subrange(i, i + g.len())[n - i] == s[n]);
                assert(in_class(CharClass::Comment, g[n - i]));
            }
            assert(s.subrange(i, i + g.len())[k] == s[i + k]);
            lemma_run_end_is(s, i + j + 1, i + k, CharClass::Comment);
            lemma_skip_gap(s, i, g, k);
        }
    }
}

/// Blank characters alone may stand between two tokens and after the last.
pub proof fn lemma_blank_is_gap(g: Seq<char>, j: int)
    requires
        is_blank(g),
        0 <= j <= g.len(),
    ensures
        gap_from(g, j),
        skip_blank(g, j) == g.len(),
    decreases g.len() - j,
{
    if j < g.len() {
        assert(in_class(CharClass::Space, g[j]));
        lemma_blank_is_gap(g, j + 1);
    }
}

/// The text of one token with what stands before it.
pub ghost struct Chunk {
    pub gap: Seq<char>,
    pub word: Seq<char>,
}

/// The text of a row of chunks: each gap and then its word.
pub open spec fn chunks_text(chunks: Seq<Chunk>) -> Seq<char>
    decreases chunks.len(),
{
    if chunks.len() == 0 {
        Seq::empty()
    } else {
        chunks[0].gap + chunks[0].word + chunks_text(chunks.drop_first())
    }
}

/// Whether each word is the text of one token and each gap holds blank
/// characters and ended comments only, and is not empty but before the
/// first word.
pub open spec fn chunks_ok(chunks: Seq<Chunk>) -> bool {
    forall|n: int|
        0 <= n < chunks.len() ==> is_lexeme((#[trigger] chunks[n]).word) && is_gap(chunks[n].gap)
            && (n > 0 ==> chunks[n].gap.len() > 0)
}

/// Whether the lexemes are one for each chunk, each the word of its
/// chunk.
pub open spec fn reads_words(s: Seq<char>, found: Seq<Lexeme>, chunks: Seq<Chunk>) -> bool {
    &&& found.len() == chunks.len()
    &&& forall|n: int|
        0 <= n < found.len() ==> 0 <= (#[trigger] found[n]).start <= found[n].end <= s.len()
            && s.subrange(found[n].start, found[n].end) == chunks[n].word
}

/// The lexer accepts the text of a row of chunks from `i` on and finds
/// one token for each word.
pub proof fn lemma_scan_chunks(s: Seq<char>, i: int, chunks: Seq<Chunk>, tail: Seq<char>)
    requires
        0 <= i <= s.len(),
        s.subrange(i, s.len() as int) == chunks_text(chunks) + tail,
        chunks_ok(chunks),
        is_trailing(tail),
        chunks.len() > 0 && i > 0 ==> chunks[0].gap.len() > 0,
    ensures
        match scan_all(s, i) {
            Ok(found) => reads_words(s, found, chunks),
            Err(_) => false,
        },
    decreases chunks.len(),
{
    let text = s.subrange(i, s.len() as int);
    if chunks.len() == 0 {
        assert(text =~= tail);
        lemma_skip_suffix(s, i, 0);
    } else {
        let c = chunks[0];
        let rest = chunks.drop_first();
        let w = c.word;
        let k = i + c.gap.len();
        let e = k + w.len();
        let after = chunks_text(rest) + tail;
        assert(text =~= c.gap + w + after);
        assert(e <= s.len()) by {
            assert(text.len() == c.gap.len() + w.len() + after.len());
        }
        assert(s.subrange(i, k) =~= c.gap) by {
            assert forall|n: int| 0 <= n < c.gap.len() implies s[i + n] == c.gap[n] by {
                assert(text[n] == s[i + n]);
            }
        }
        lemma_skip_gap(s, i, c.gap, 0);
        assert(s.subrange(k, e) =~= w) by {
            assert forall|n: int| 0 <= n < w.len() implies s[k + n] == w[n] by {
                assert(text[k - i + n] == s[k + n]);
            }
        }
        assert(s.subrange(e, s.len() as int) =~= after) by {
            assert forall|n: int| 0 <= n < after.len() implies s[e + n] == after[n] by {
                assert(text[e - i + n] == s[e + n]);
            }
        }
        assert forall|n: int| 0 <= n < rest.len() implies is_lexeme((#[trigger] rest[n]).word)
            && is_gap(rest[n].gap) && rest[n].gap.len() > 0 by {
            assert(rest[n] == chunks[n + 1]);
        }
        assert(e == s.len() || is_space(s[e]) || s[e] == ';') by {
            if e < s.len() {
                assert(s[e] == after[0]);
                if rest.len() == 0 {
                    assert(chunks_text(rest) =~= Seq::<char>::empty());
                    assert(after[0] == tail[0]);
                } else {
                    let next = rest[0];
                    assert(chunks_text(rest) == next.gap + next.word + chunks_text(
                        rest.drop_first(),
                    ));
                    assert(after[0] == next.gap[0]);
                    assert(gap_from(next.gap, 0));
                }
            }
        }
        lemma_scan_spaced_lexeme(s, k, w);
        lemma_skip_blank(s, k);
        assert(skip_blank(s, k) == k);
        lemma_scan_chunks(s, e, rest, tail);
        let more = scan_all(s, e)->Ok_0;
        let found = scan_all(s, i)->Ok_0;
        assert(found[0].start == k && found[0].end == e);
        assert forall|n: int| 0 <= n < found.len() implies 0 <= (#[trigger] found[n]).start
            <= found[n].end <= s.len() && s.subrange(found[n].start, found[n].end)
            == chunks[n].word by {
            if n > 0 {
                assert(found[n] == more[n - 1]);
                assert(rest[n - 1] == chunks[n]);
            }
        }
    }
}

/// Totality: the lexer accepts every text that is made of the texts of
/// tokens with blank characters or comments between them, and reads each
/// of these texts as one token. Blank characters and comments may stand
/// before the first and after the last.
pub proof fn lemma_lexer_accepts_spaced_tokens(chunks: Seq<Chunk>, tail: Seq<char>)
    requires
        chunks_ok(chunks),
        is_trailing(tail),
    ensures
        lex(chunks_text(chunks) + tail) is Ok,
        match scan_all(chunks_text(chunks) + tail, 0) {
            Ok(found) => reads_words(chunks_text(chunks) + tail, found, chunks),
            Err(_) => false,
        },
{
    let s = chunks_text(chunks) + tail;
    assert(s.subrange(0, s.len() as int) =~= s);
    lemma_scan_chunks(s, 0, chunks, tail);
}

/// Whether the outcome is an error that says that no token starts at
/// some place.
pub open spec fn is_lexical_error<T>(r: Result<T, ParseErrorView>) -> bool {
    r is Err && r->Err_0 is InvalidToken
}

/// The parser gives no lexical error for the operands of an instruction.
pub proof fn lemma_operands_error(ts: Seq<SpannedView>, pos: int, pieces: Seq<Piece>, k: int)
    ensures
        !is_lexical_error(parse_operands(ts, pos, pieces, k)),
    decreases pieces.len() - k,
{
    if 0 <= k < pieces.len() {
        lemma_operands_error(ts, pos + 1, pieces, k + 1);
    }
}

/// The parser gives no lexical error for statements.
pub proof fn lemma_statements_error(ts: Seq<SpannedView>, pos: int)
    ensures
        !is_lexical_error(parse_statements(ts, pos)),
    decreases ts.len() - pos,
{
    if 0 <= pos < ts.len() {
        match ts[pos].token {
            TokenView::Label(name) => {
                lemma_statements_error(ts, pos + 1);
            },
            TokenView::Instruction(word) => {
                match mnemonic_of(word) {
                    Some(m) => {
                        lemma_operands_error(ts, pos + 1, spec_pieces(m), 0);
                        if parse_operands(ts, pos + 1, spec_pieces(m), 0) is Ok {
                            lemma_operands_fit(ts, pos + 1, spec_pieces(m), 0);
                            lemma_statements_error(ts, after_operands(pos, m));
                        }
                    },
                    None => {},
                }
            },
            _ => {},
        }
    }
}

/// The parser gives no lexical error for variables.
pub proof fn lemma_variables_error(ts: Seq<SpannedView>, pos: int, seen: Seq<Seq<char>>)
    ensures
        !is_lexical_error(parse_variables(ts, pos, seen)),
    decreases ts.len() - pos,
{
    if 0 <= pos && pos + 2 < ts.len() && ts[pos].token is Label {
        lemma_variables_error(ts, pos + 3, seen.push(ts[pos].token->Label_0));
    }
}

/// A lexical error comes from the lexer alone: the parser gives none for
/// tokens, whatever they are.
pub proof fn lemma_program_error(ts: Seq<SpannedView>)
    ensures
        !is_lexical_error(parse_program(ts)),
{
    lemma_variables_error(ts, 1, Seq::empty());
    match parse_data_section(ts) {
        Ok((variables, pos)) => {
            lemma_statements_error(ts, pos + 3);
        },
        Err(_) => {},
    }
}

/// A text that is made of the texts of tokens, with blank characters or
/// comments between them, gives no lexical error: it is a program, or the
/// parser refuses one of its tokens or its end.
pub proof fn lemma_spaced_tokens_give_no_lexical_error(chunks: Seq<Chunk>, tail: Seq<char>)
    requires
        chunks_ok(chunks),
        is_trailing(tail),
    ensures
        !is_lexical_error(parse_source(chunks_text(chunks) + tail)),
{
    lemma_lexer_accepts_spaced_tokens(chunks, tail);
    lemma_program_error(lex(chunks_text(chunks) + tail)->Ok_0);
}

} // verus!
