//! Printing a program and parsing the text again gives the program back.

use vstd::prelude::*;

use crate::ast::ArgumentView;
use crate::ast::InstructionView;
use crate::ast::ProgramView;
use crate::ast::StatementView;
use crate::ast::to_string::program_text;
use crate::ast::VariableView;
use crate::canonical::canonical;
use crate::canonical::is_word;
use crate::canonical::lemma_parsed_source_is_canonical;
use crate::canonical::names_distinct;
use crate::canonical::operands_fit;
use crate::canonical::statement_ok;
use crate::canonical::statements_ok;
use crate::canonical::token_ok;
use crate::canonical::variable_ok;
use crate::canonical::variables_ok;
use crate::canonical::lemma_written_operands;
use crate::canonical::written_operands;
use crate::canonical::yields_operand;
use crate::parser::operands_of;
use crate::chars::all_in_class;
use crate::chars::CharClass;
use crate::chars::in_class;
use crate::chars::is_space;
use crate::chars::is_word_char;
use crate::chars::lemma_run_end_is;
use crate::chars::run_end;
use crate::layout::fixed_token;
use crate::layout::header_items;
use crate::layout::Item;
use crate::layout::lemma_render_program;
use crate::layout::lemma_spellings;
use crate::layout::lexeme_text;
use crate::layout::operand_items;
use crate::layout::operand_token;
use crate::layout::piece_gap;
use crate::layout::program_items;
use crate::layout::program_tail;
use crate::layout::render;
use crate::layout::statement_items;
use crate::layout::statements_items;
use crate::layout::variable_items;
use crate::layout::variables_items;
use crate::lexer::has_word;
use crate::lexer::lemma_skip_blank;
use crate::lexer::Lexeme;
use crate::lexer::scan_all;
use crate::lexer::scan_token;
use crate::lexer::skip_blank;
use crate::lexer::spanned_of;
use crate::lexer::spans_of;
use crate::lexer::tokens::SpannedView;
use crate::lexer::tokens::TokenView;
use crate::lexer::tokens::Type;
use crate::mnemonic::lemma_mnemonic_of_text;
use crate::mnemonic::lemma_mnemonic_shape;
use crate::mnemonic::lemma_mnemonic_spelled;
use crate::mnemonic::mnemonic_of;
use crate::mnemonic::Mnemonic;
use crate::mnemonic::mnemonic_text;
use crate::parser::after_operands;
use crate::parser::Form;
use crate::parser::form_pieces;
use crate::parser::parse;
use crate::parser::parse_operands;
use crate::parser::parse_program;
use crate::parser::parse_source;
use crate::parser::parse_statements;
use crate::parser::parse_variables;
use crate::parser::ParseError;
use crate::parser::ParseErrorView;
use crate::parser::Piece;
use crate::parser::piece_accepts;
use crate::parser::spec_pieces;
use crate::text::dec_text;
use crate::text::lemma_decimal_round_trip;

verus! {

/// A character after which a word, a register or a numeral has ended: one
/// that is neither a letter, a digit or an underscore, nor a colon.
pub open spec fn is_boundary(c: char) -> bool {
    !is_word_char(c) && c != ':'
}

/// Whether the token ends where its text ends, whatever follows it.
pub open spec fn self_delimited(t: TokenView) -> bool {
    !(t is Instruction || t is Identifier || t is Register || t is Number)
}

/// Whether the token at `k` is followed by the end of the text or by a
/// character that is no part of it.
pub open spec fn ends_at(s: Seq<char>, e: int, t: TokenView) -> bool {
    self_delimited(t) || e == s.len() || is_boundary(s[e])
}

/// A word that stands at `k` and ends before `e` is the run of word
/// characters there.
proof fn lemma_scan_word_run(s: Seq<char>, k: int, w: Seq<char>)
    requires
        is_word(w),
        has_word(s, k, w),
        k + w.len() == s.len() || !is_word_char(s[k + w.len()]),
    ensures
        run_end(s, k + 1, CharClass::Word) == k + w.len(),
        s.subrange(k, k + w.len()) == w,
        crate::chars::is_word_start(s[k]),
{
    let sub = s.subrange(k, k + w.len());
    assert forall|n: int| k + 1 <= n < k + w.len() implies in_class(CharClass::Word, #[trigger] s[n]) by {
        assert(sub[n - k] == s[n]);
        assert(in_class(CharClass::Word, w[n - k]));
    }
    assert(sub[0] == s[k]);
    lemma_run_end_is(s, k + 1, k + w.len(), CharClass::Word);
}

/// The lexer reads a well-formed token where the printer has written it,
/// if the token is followed by the end of the text or by a character that
/// is no part of it.
pub proof fn lemma_scan_lexeme(s: Seq<char>, k: int, t: TokenView)
    requires
        token_ok(t),
        has_word(s, k, lexeme_text(t)),
        ends_at(s, k + lexeme_text(t).len(), t),
    ensures
        lexeme_text(t).len() > 0,
        k < s.len(),
        scan_token(s, k) == Some((t, k + lexeme_text(t).len())),
        !is_space(s[k]),
        s[k] != ';',
{
    lemma_spellings();
    let w = lexeme_text(t);
    let e = k + w.len();
    let sub = s.subrange(k, e);
    assert(sub == w);
    match t {
        TokenView::Instruction(name) => {
            lemma_mnemonic_spelled(name);
            lemma_mnemonic_shape(mnemonic_of(name)->0);
            lemma_scan_word_run(s, k, w);
        },
        TokenView::Identifier(name) => {
            lemma_scan_word_run(s, k, w);
        },
        TokenView::Label(name) => {
            assert(w.len() == name.len() + 1);
            assert(sub[name.len() as int] == s[k + name.len()]);
            assert(s[k + name.len()] == ':');
            assert(s.subrange(k, k + name.len()) =~= name) by {
                assert forall|n: int| 0 <= n < name.len() implies s[k + n] == name[n] by {
                    assert(sub[n] == s[k + n]);
                }
            }
            lemma_scan_word_run(s, k, name);
        },
        TokenView::Register(name) => {
            assert(sub[0] == s[k]);
            assert forall|n: int| k + 1 <= n < e implies in_class(
                CharClass::Register,
                #[trigger] s[n],
            ) by {
                assert(sub[n - k] == s[n]);
                assert(crate::chars::is_register_char(name[n - k]));
            }
            lemma_run_end_is(s, k + 1, e, CharClass::Register);
        },
        TokenView::Number(n) => {
            lemma_decimal_round_trip(n as nat);
            assert(sub[0] == s[k]);
            assert(in_class(CharClass::Digit, w[0]));
            assert forall|i: int| k <= i < e implies in_class(CharClass::Digit, #[trigger] s[i]) by {
                assert(sub[i - k] == s[i]);
                assert(in_class(CharClass::Digit, w[i - k]));
            }
            lemma_run_end_is(s, k, e, CharClass::Digit);
            if k + 1 < s.len() {
                if k + 1 < e {
                    assert(in_class(CharClass::Digit, s[k + 1]));
                }
            }
        },
        TokenView::String(text) => {
            assert(w.len() == text.len() + 2);
            assert(sub[0] == s[k]);
            assert(sub[text.len() as int + 1] == s[k + text.len() + 1]);
            assert forall|i: int| k + 1 <= i < e - 1 implies in_class(
                CharClass::Text,
                #[trigger] s[i],
            ) by {
                assert(sub[i - k] == s[i]);
                assert(in_class(CharClass::Text, text[i - k - 1]));
            }
            lemma_run_end_is(s, k + 1, e - 1, CharClass::Text);
            assert(s.subrange(k + 1, e - 1) =~= text) by {
                assert forall|n: int| 0 <= n < text.len() implies s[k + 1 + n] == text[n] by {
                    assert(sub[n + 1] == s[k + 1 + n]);
                }
            }
        },
        TokenView::DataSection => {
            assert(sub[0] == s[k]);
        },
        TokenView::TextSection => {
            assert(sub[0] == s[k]);
            assert(sub[1] == s[k + 1]);
            assert(!has_word(s, k, ".data"@)) by {
                if has_word(s, k, ".data"@) {
                    assert(s.subrange(k, k + 5)[1] == s[k + 1]);
                }
            }
        },
        TokenView::GlobalSection => {
            assert(sub[0] == s[k]);
            assert(sub[1] == s[k + 1]);
            assert(sub[5] == s[k + 5]);
            assert(!has_word(s, k, ".data"@)) by {
                if has_word(s, k, ".data"@) {
                    assert(s.subrange(k, k + 5)[1] == s[k + 1]);
                }
            }
            assert(!has_word(s, k, ".text"@)) by {
                if has_word(s, k, ".text"@) {
                    assert(s.subrange(k, k + 5)[1] == s[k + 1]);
                }
            }
            assert(!has_word(s, k, ".global"@)) by {
                if has_word(s, k, ".global"@) {
                    assert(s.subrange(k, k + 7)[5] == s[k + 5]);
                }
            }
        },
        TokenView::Type(ty) => {
            assert(sub[0] == s[k]);
            assert(sub[1] == s[k + 1]);
            assert(!has_word(s, k, ".data"@)) by {
                if has_word(s, k, ".data"@) {
                    assert(s.subrange(k, k + 5)[1] == s[k + 1]);
                }
            }
            assert(!has_word(s, k, ".text"@)) by {
                if has_word(s, k, ".text"@) {
                    assert(s.subrange(k, k + 5)[1] == s[k + 1]);
                }
            }
            assert(!has_word(s, k, ".global"@)) by {
                if has_word(s, k, ".global"@) {
                    assert(s.subrange(k, k + 7)[1] == s[k + 1]);
                }
            }
            assert(!has_word(s, k, ".globl"@)) by {
                if has_word(s, k, ".globl"@) {
                    assert(s.subrange(k, k + 6)[1] == s[k + 1]);
                }
            }
            if ty == Type::Space {
                assert(!has_word(s, k, ".asciiz"@)) by {
                    if has_word(s, k, ".asciiz"@) {
                        assert(s.subrange(k, k + 7)[1] == s[k + 1]);
                    }
                }
            }
        },
        _ => {
            assert(sub[0] == s[k]);
        },
    }
}

/// The lexer reads the numeral that the printer writes for a number as that
/// number.
pub proof fn lemma_printed_number_is_read_back(n: u32)
    ensures
        scan_token(dec_text(n as nat), 0) == Some(
            (TokenView::Number(n), dec_text(n as nat).len() as int),
        ),
{
    let s = dec_text(n as nat);
    assert(s.subrange(0, s.len() as int) =~= s);
    lemma_scan_lexeme(s, 0, TokenView::Number(n));
}

/// A word and a colon are read as one label, whatever the word is.
pub proof fn lemma_label_is_one_token(w: Seq<char>)
    requires
        is_word(w),
    ensures
        scan_token(w + ":"@, 0) == Some((TokenView::Label(w), w.len() as int + 1)),
{
    lemma_spellings();
    let s = w + ":"@;
    assert(s.subrange(0, s.len() as int) =~= s);
    lemma_scan_lexeme(s, 0, TokenView::Label(w));
}

/// A text of blank characters only.
pub open spec fn is_blank(g: Seq<char>) -> bool {
    all_in_class(g, CharClass::Space)
}

/// Whether the token is a punctuation mark.
pub open spec fn is_mark(t: TokenView) -> bool {
    t is Comma || t is OpenParen || t is CloseParen || t is OpenBracket || t is CloseBracket
}

/// Whether the item `b` may follow the item `a`: there is a gap between
/// them, or one of the two tokens ends the other.
pub open spec fn joint_ok(a: Item, b: Item) -> bool {
    b.gap.len() > 0 || is_mark(b.token) || self_delimited(a.token)
}

/// Whether the lexer can read the row of items back: the gaps are blank,
/// the tokens are well formed, and no token runs into the next.
pub open spec fn items_ok(items: Seq<Item>) -> bool {
    &&& forall|n: int|
        0 <= n < items.len() ==> is_blank((#[trigger] items[n]).gap) && token_ok(items[n].token)
    &&& forall|n: int| 0 <= n < items.len() - 1 ==> joint_ok(#[trigger] items[n], items[n + 1])
}

/// Blank characters are skipped up to the first character that is none.
pub proof fn lemma_skip_spaces(s: Seq<char>, i: int, j: int)
    requires
        0 <= i <= j <= s.len(),
        forall|n: int| i <= n < j ==> is_space(#[trigger] s[n]),
    ensures
        skip_blank(s, i) == skip_blank(s, j),
    decreases j - i,
{
    if i < j {
        lemma_skip_spaces(s, i + 1, j);
    }
}

/// The lexer reads the tokens of a row of well-formed items back from
/// their text, each with the place where it stands, whatever blank
/// characters follow the last.
pub proof fn lemma_scan_items(s: Seq<char>, i: int, items: Seq<Item>, tail: Seq<char>) -> (found:
    Seq<Lexeme>)
    requires
        0 <= i <= s.len(),
        s.subrange(i, s.len() as int) == render(items) + tail,
        items_ok(items),
        is_blank(tail),
    ensures
        scan_all(s, i) == Ok::<Seq<Lexeme>, int>(found),
        found.len() == items.len(),
        forall|n: int| 0 <= n < items.len() ==> (#[trigger] found[n]).token == items[n].token,
    decreases items.len(),
{
    let text = s.subrange(i, s.len() as int);
    if items.len() == 0 {
        assert forall|n: int| i <= n < s.len() implies is_space(#[trigger] s[n]) by {
            assert(text[n - i] == s[n]);
            assert(in_class(CharClass::Space, tail[n - i]));
        }
        lemma_skip_spaces(s, i, s.len() as int);
        Seq::empty()
    } else {
        let it = items[0];
        let rest = items.drop_first();
        let w = lexeme_text(it.token);
        let k = i + it.gap.len();
        let e = k + w.len();
        let after = render(rest) + tail;
        assert(text =~= it.gap + w + after);
        assert(e <= s.len()) by {
            assert(text.len() == it.gap.len() + w.len() + after.len());
        }
        assert forall|n: int| i <= n < k implies is_space(#[trigger] s[n]) by {
            assert(text[n - i] == s[n]);
            assert(in_class(CharClass::Space, it.gap[n - i]));
        }
        lemma_skip_spaces(s, i, k);
        assert(s.subrange(k, e) =~= w) by {
            assert forall|n: int| 0 <= n < w.len() implies s[k + n] == w[n] by {
                assert(text[k - i + n] == s[k + n]);
            }
        }
        assert(s.subrange(e, s.len() as int) =~= after) by {
            assert forall|n: int| 0 <= n < after.len() implies s[e + n] == after[n] by {
                assert(text[e - i + n] == s[e + n]);
            }
        }
        assert forall|n: int| 0 <= n < rest.len() implies is_blank((#[trigger] rest[n]).gap)
            && token_ok(rest[n].token) by {
            assert(rest[n] == items[n + 1]);
        }
        assert forall|n: int| 0 <= n < rest.len() - 1 implies joint_ok(
            #[trigger] rest[n],
            rest[n + 1],
        ) by {
            assert(rest[n] == items[n + 1]);
            assert(rest[n + 1] == items[n + 2]);
        }
        assert(ends_at(s, e, it.token)) by {
            if e < s.len() && !self_delimited(it.token) {
                assert(s[e] == after[0]);
                if rest.len() == 0 {
                    assert(render(rest) =~= Seq::<char>::empty());
                    assert(after[0] == tail[0]);
                    assert(in_class(CharClass::Space, tail[0]));
                } else {
                    let next = rest[0];
                    assert(next == items[1]);
                    assert(joint_ok(items[0], items[1]));
                    let head = next.gap + lexeme_text(next.token);
                    assert(render(rest) == head + render(rest.drop_first()));
                    if next.gap.len() > 0 {
                        assert(after[0] == next.gap[0]);
                        assert(in_class(CharClass::Space, next.gap[0]));
                    } else {
                        lemma_spellings();
                        assert(is_mark(next.token));
                        assert(lexeme_text(next.token).len() == 1);
                        assert(after[0] == lexeme_text(next.token)[0]);
                    }
                }
            }
        }
        lemma_scan_lexeme(s, k, it.token);
        lemma_skip_blank(s, k);
        assert(skip_blank(s, k) == k);
        let more = lemma_scan_items(s, e, rest, tail);
        let found = seq![Lexeme { start: k, token: it.token, end: e }] + more;
        assert forall|n: int| 0 <= n < items.len() implies (#[trigger] found[n]).token
            == items[n].token by {
            if n > 0 {
                assert(found[n] == more[n - 1]);
                assert(rest[n - 1] == items[n]);
            }
        }
        found
    }
}

/// The text that the printer writes for a well-formed token is read as
/// that token alone, with a span over the whole text.
pub proof fn lemma_token_text_is_read_back(t: TokenView)
    requires
        token_ok(t),
    ensures
        scan_all(lexeme_text(t), 0) == Ok::<Seq<Lexeme>, int>(
            seq![Lexeme { start: 0, token: t, end: lexeme_text(t).len() as int }],
        ),
{
    let s = lexeme_text(t);
    let item = Item { gap: Seq::empty(), token: t };
    assert(render(seq![item]) + Seq::<char>::empty() =~= s) by {
        crate::layout::lemma_render_one(item);
    }
    assert(s.subrange(0, s.len() as int) =~= s);
    assert(items_ok(seq![item]));
    let found = lemma_scan_items(s, 0, seq![item], Seq::empty());
    lemma_scan_lexeme(s, 0, t);
    lemma_skip_blank(s, 0);
    lemma_skip_blank(s, s.len() as int);
    assert(found =~= seq![Lexeme { start: 0, token: t, end: s.len() as int }]);
}

/// Two rows that the lexer can read back make one such row, if the
/// second starts with a gap.
pub proof fn lemma_items_ok_concat(a: Seq<Item>, b: Seq<Item>)
    requires
        items_ok(a),
        items_ok(b),
        b.len() > 0 ==> b[0].gap.len() > 0,
    ensures
        items_ok(a + b),
{
    let all = a + b;
    assert forall|n: int| 0 <= n < all.len() implies is_blank((#[trigger] all[n]).gap)
        && token_ok(all[n].token) by {
        if n < a.len() {
            assert(all[n] == a[n]);
        } else {
            assert(all[n] == b[n - a.len()]);
        }
    }
    assert forall|n: int| 0 <= n < all.len() - 1 implies joint_ok(#[trigger] all[n], all[n + 1]) by {
        if n + 1 < a.len() {
            assert(all[n] == a[n]);
            assert(all[n + 1] == a[n + 1]);
        } else if n + 1 == a.len() {
            assert(all[n + 1] == b[0]);
        } else {
            assert(all[n] == b[n - a.len()]);
            assert(all[n + 1] == b[n - a.len() + 1]);
        }
    }
}

/// Whether the token of the piece at index `k` does not run into that of
/// the next piece: it is a comma or an opening parenthesis, or the next is
/// a mark.
pub open spec fn sound_at(pieces: Seq<Piece>, k: int) -> bool {
    ||| pieces[k] == Piece::Comma
    ||| pieces[k] == Piece::OpenParen
    ||| pieces[k + 1] == Piece::Comma
    ||| pieces[k + 1] == Piece::OpenParen
    ||| pieces[k + 1] == Piece::CloseParen
}

/// Whether in the row of pieces no token runs into the next.
pub open spec fn pieces_sound(pieces: Seq<Piece>) -> bool {
    forall|k: int| 0 <= k < pieces.len() - 1 ==> #[trigger] sound_at(pieces, k)
}

/// In the pieces of every form no token runs into the next.
pub proof fn lemma_form_sound(f: Form)
    ensures
        pieces_sound(form_pieces(f)),
{
    let pieces = form_pieces(f);
    assert forall|k: int| 0 <= k < pieces.len() - 1 implies #[trigger] sound_at(pieces, k) by {
        if k == 0 {
        } else if k == 1 {
        } else if k == 2 {
        } else if k == 3 {
        } else if k == 4 {
        }
    }
}

/// In the pieces of every mnemonic no token runs into the next.
pub proof fn lemma_pieces_sound(m: Mnemonic)
    ensures
        pieces_sound(spec_pieces(m)),
{
    lemma_form_sound(crate::parser::spec_form(m));
}

/// The items of the operands are one for each piece, the first of them
/// after the gap of its piece, and the lexer can read them back.
pub proof fn lemma_operand_items_ok(pieces: Seq<Piece>, k: int, args: Seq<ArgumentView>)
    requires
        0 <= k <= pieces.len(),
        pieces_sound(pieces),
        operands_fit(pieces, k, args),
    ensures
        operand_items(pieces, k, args).len() == pieces.len() - k,
        items_ok(operand_items(pieces, k, args)),
        k < pieces.len() ==> operand_items(pieces, k, args)[0].gap == piece_gap(pieces, k),
        k < pieces.len() ==> operand_items(pieces, k, args)[0].token == if yields_operand(
            pieces[k],
        ) {
            operand_token(args[0])
        } else {
            fixed_token(pieces[k])
        },
    decreases pieces.len() - k,
{
    lemma_gaps();
    if k < pieces.len() {
        let rest_args = if yields_operand(pieces[k]) {
            args.drop_first()
        } else {
            args
        };
        lemma_operand_items_ok(pieces, k + 1, rest_args);
        let items = operand_items(pieces, k, args);
        let rest = operand_items(pieces, k + 1, rest_args);
        let head = items[0];
        assert(items =~= seq![head] + rest);
        assert(is_blank(head.gap));
        assert(token_ok(head.token));
        assert forall|n: int| 0 <= n < items.len() implies is_blank((#[trigger] items[n]).gap)
            && token_ok(items[n].token) by {
            if n > 0 {
                assert(items[n] == rest[n - 1]);
            }
        }
        assert forall|n: int| 0 <= n < items.len() - 1 implies joint_ok(
            #[trigger] items[n],
            items[n + 1],
        ) by {
            if n > 0 {
                assert(items[n] == rest[n - 1]);
                assert(items[n + 1] == rest[n]);
            } else {
                assert(items[1] == rest[0]);
                assert(sound_at(pieces, k));
            }
        }
    }
}

/// The gaps that the printer writes are blank and not empty.
pub proof fn lemma_gaps()
    ensures
        is_blank(" "@) && " "@.len() == 1,
        is_blank("\n"@) && "\n"@.len() == 1,
        is_blank("\n\t"@) && "\n\t"@.len() == 2,
        is_blank("\n\n\t"@) && "\n\n\t"@.len() == 3,
        is_blank(Seq::<char>::empty()),
{
    reveal_strlit(" ");
    reveal_strlit("\n");
    reveal_strlit("\n\t");
    reveal_strlit("\n\n\t");
}

/// The lexer can read the items of a well-formed statement back, and
/// they start with a gap.
pub proof fn lemma_statement_items_ok(s: StatementView)
    requires
        statement_ok(s),
    ensures
        items_ok(statement_items(s)),
        statement_items(s).len() > 0,
        statement_items(s)[0].gap.len() > 0,
{
    lemma_gaps();
    match s {
        StatementView::Label(name) => {
            let head = Item { gap: "\n"@, token: TokenView::Label(name) };
            assert(statement_items(s) =~= seq![head]);
            assert(statement_items(s)[0] == head);
        },
        StatementView::Instruction(i) => {
            let pieces = spec_pieces(i.mnemonic);
            let head = Item {
                gap: "\n\t"@,
                token: TokenView::Instruction(mnemonic_text(i.mnemonic)),
            };
            let rest = operand_items(pieces, 0, written_operands(i));
            assert(statement_items(s) == seq![head] + rest);
            assert(is_blank(head.gap) && token_ok(head.token)) by {
                lemma_mnemonic_of_text(i.mnemonic);
            }
            assert(items_ok(seq![head])) by {
                assert(seq![head][0] == head);
            }
            assert(items_ok(rest) && (rest.len() > 0 ==> rest[0].gap.len() > 0)) by {
                lemma_pieces_sound(i.mnemonic);
                lemma_operand_items_ok(pieces, 0, written_operands(i));
            }
            lemma_items_ok_concat(seq![head], rest);
            assert((seq![head] + rest)[0] == head);
        },
    }
}

/// The lexer can read the items of well-formed statements back.
pub proof fn lemma_statements_items_ok(statements: Seq<StatementView>)
    requires
        statements_ok(statements),
    ensures
        items_ok(statements_items(statements)),
        statements.len() > 0 ==> statements_items(statements).len() > 0 && statements_items(
            statements,
        )[0].gap.len() > 0,
    decreases statements.len(),
{
    if statements.len() > 0 {
        let front = statements.drop_last();
        assert forall|n: int| 0 <= n < front.len() implies statement_ok(#[trigger] front[n]) by {
            assert(front[n] == statements[n]);
        }
        lemma_statements_items_ok(front);
        lemma_statement_items_ok(statements.last());
        lemma_items_ok_concat(statements_items(front), statement_items(statements.last()));
    }
}

/// The lexer can read the items of well-formed variables back.
pub proof fn lemma_variables_items_ok(variables: Seq<VariableView>)
    requires
        variables_ok(variables),
    ensures
        items_ok(variables_items(variables)),
        variables_items(variables).len() == 3 * variables.len(),
        variables.len() > 0 ==> variables_items(variables)[0].gap.len() > 0,
    decreases variables.len(),
{
    lemma_gaps();
    if variables.len() > 0 {
        let front = variables.drop_last();
        assert forall|n: int| 0 <= n < front.len() implies variable_ok(#[trigger] front[n]) by {
            assert(front[n] == variables[n]);
        }
        lemma_variables_items_ok(front);
        let v = variables.last();
        assert(variable_ok(v));
        assert(items_ok(variable_items(v)));
        lemma_items_ok_concat(variables_items(front), variable_items(v));
    }
}

/// The lexer can read the items of a canonical program back.
pub proof fn lemma_program_items_ok(p: ProgramView)
    requires
        canonical(p),
    ensures
        items_ok(program_items(p)),
        is_blank(program_tail(p)),
{
    lemma_gaps();
    let first = seq![Item { gap: Seq::empty(), token: TokenView::DataSection }];
    let variables = variables_items(p.data_section.variables);
    let header = header_items(p.text_section.entrypoint);
    let statements = statements_items(p.text_section.statements);
    lemma_variables_items_ok(p.data_section.variables);
    lemma_statements_items_ok(p.text_section.statements);
    assert(items_ok(first));
    assert(items_ok(header));
    lemma_items_ok_concat(first, variables);
    lemma_items_ok_concat(first + variables, header);
    lemma_items_ok_concat(first + variables + header, statements);
}

/// Whether the tokens from `pos` on are those of the row of items.
pub open spec fn spells(ts: Seq<SpannedView>, pos: int, items: Seq<Item>) -> bool {
    &&& 0 <= pos
    &&& pos + items.len() <= ts.len()
    &&& forall|n: int| 0 <= n < items.len() ==> (#[trigger] ts[pos + n]).token == items[n].token
}

/// Tokens that spell two rows spell the first row and, after it, the
/// second.
pub proof fn lemma_spells_split(ts: Seq<SpannedView>, pos: int, a: Seq<Item>, b: Seq<Item>)
    requires
        spells(ts, pos, a + b),
    ensures
        spells(ts, pos, a),
        spells(ts, pos + a.len(), b),
{
    let all = a + b;
    assert forall|n: int| 0 <= n < a.len() implies (#[trigger] ts[pos + n]).token
        == a[n].token by {
        assert(all[n] == a[n]);
    }
    assert forall|n: int| 0 <= n < b.len() implies (#[trigger] ts[pos + a.len() + n]).token
        == b[n].token by {
        assert(all[a.len() + n] == b[n]);
        assert(ts[pos + (a.len() + n)].token == all[a.len() + n].token);
    }
}

/// The parser reads the operands back from the tokens that spell their
/// items.
pub proof fn lemma_parse_operand_items(
    ts: Seq<SpannedView>,
    pos: int,
    pieces: Seq<Piece>,
    k: int,
    args: Seq<ArgumentView>,
)
    requires
        0 <= k <= pieces.len(),
        pieces_sound(pieces),
        operands_fit(pieces, k, args),
        spells(ts, pos, operand_items(pieces, k, args)),
    ensures
        parse_operands(ts, pos, pieces, k) == Ok::<Seq<ArgumentView>, ParseErrorView>(args),
    decreases pieces.len() - k,
{
    lemma_operand_items_ok(pieces, k, args);
    if k < pieces.len() {
        let rest_args = if yields_operand(pieces[k]) {
            args.drop_first()
        } else {
            args
        };
        let items = operand_items(pieces, k, args);
        let rest = operand_items(pieces, k + 1, rest_args);
        assert(items =~= seq![items[0]] + rest);
        lemma_spells_split(ts, pos, seq![items[0]], rest);
        lemma_parse_operand_items(ts, pos + 1, pieces, k + 1, rest_args);
        assert(ts[pos + 0].token == items[0].token);
        if yields_operand(pieces[k]) {
            assert(piece_accepts(pieces[k], ts[pos].token) == Some(Some(args[0])));
            assert(seq![args[0]] + rest_args =~= args);
        } else {
            assert(piece_accepts(pieces[k], ts[pos].token) == Some(None::<ArgumentView>));
        }
    } else {
        assert(args =~= Seq::<ArgumentView>::empty());
    }
}

/// The items of two rows of statements are those of the first row and
/// then those of the second.
pub proof fn lemma_statements_items_concat(a: Seq<StatementView>, b: Seq<StatementView>)
    ensures
        statements_items(a + b) == statements_items(a) + statements_items(b),
    decreases b.len(),
{
    if b.len() == 0 {
        assert(a + b =~= a);
        assert(statements_items(a) + statements_items(b) =~= statements_items(a));
    } else {
        lemma_statements_items_concat(a, b.drop_last());
        assert((a + b).drop_last() =~= a + b.drop_last());
        assert((a + b).last() == b.last());
        assert(statements_items(a + b) =~= statements_items(a) + statements_items(b));
    }
}

/// The items of two rows of variables are those of the first row and
/// then those of the second.
pub proof fn lemma_variables_items_concat(a: Seq<VariableView>, b: Seq<VariableView>)
    ensures
        variables_items(a + b) == variables_items(a) + variables_items(b),
    decreases b.len(),
{
    if b.len() == 0 {
        assert(a + b =~= a);
        assert(variables_items(a) + variables_items(b) =~= variables_items(a));
    } else {
        lemma_variables_items_concat(a, b.drop_last());
        assert((a + b).drop_last() =~= a + b.drop_last());
        assert((a + b).last() == b.last());
        assert(variables_items(a + b) =~= variables_items(a) + variables_items(b));
    }
}

/// The items of a row of statements are those of the first statement and
/// then those of the others.
pub proof fn lemma_statements_items_first(statements: Seq<StatementView>)
    requires
        statements.len() > 0,
    ensures
        statements_items(statements) == statement_items(statements[0]) + statements_items(
            statements.drop_first(),
        ),
{
    let first = statements[0];
    let rest = statements.drop_first();
    assert(statements =~= seq![first] + rest);
    lemma_statements_items_concat(seq![first], rest);
    assert(statements_items(seq![first]) =~= statement_items(first)) by {
        assert(seq![first].drop_last() =~= Seq::<StatementView>::empty());
        reveal_with_fuel(statements_items, 2);
    }
}

/// The parser reads the operands of a well-formed instruction back from
/// the tokens that spell the items of the instruction.
pub proof fn lemma_parse_instruction_items(ts: Seq<SpannedView>, pos: int, i: InstructionView)
    requires
        crate::canonical::instruction_ok(i),
        spells(ts, pos, statement_items(StatementView::Instruction(i))),
    ensures
        pos < ts.len(),
        ts[pos].token == TokenView::Instruction(mnemonic_text(i.mnemonic)),
        mnemonic_of(mnemonic_text(i.mnemonic)) == Some(i.mnemonic),
        statement_items(StatementView::Instruction(i)).len() == 1 + spec_pieces(i.mnemonic).len(),
        parse_operands(ts, pos + 1, spec_pieces(i.mnemonic), 0) == Ok::<
            Seq<ArgumentView>,
            ParseErrorView,
        >(written_operands(i)),
        operands_of(i.mnemonic, written_operands(i)) == i.args,
{
    lemma_written_operands(i);
    let pieces = spec_pieces(i.mnemonic);
    let operands = operand_items(pieces, 0, written_operands(i));
    let head = Item { gap: "\n\t"@, token: TokenView::Instruction(mnemonic_text(i.mnemonic)) };
    let lead = seq![head];
    assert(statement_items(StatementView::Instruction(i)) == lead + operands);
    lemma_pieces_sound(i.mnemonic);
    lemma_operand_items_ok(pieces, 0, written_operands(i));
    lemma_mnemonic_of_text(i.mnemonic);
    lemma_spells_split(ts, pos, lead, operands);
    assert(ts[pos + 0].token == lead[0].token);
    lemma_parse_operand_items(ts, pos + 1, pieces, 0, written_operands(i));
}

/// The parser reads well-formed statements back from the tokens that
/// spell their items, where these are the last tokens.
pub proof fn lemma_parse_statement_items(
    ts: Seq<SpannedView>,
    pos: int,
    statements: Seq<StatementView>,
)
    requires
        statements_ok(statements),
        spells(ts, pos, statements_items(statements)),
        ts.len() == pos + statements_items(statements).len(),
    ensures
        parse_statements(ts, pos) == Ok::<Seq<StatementView>, ParseErrorView>(statements),
    decreases statements.len(),
{
    if statements.len() == 0 {
        assert(statements =~= Seq::<StatementView>::empty());
    } else {
        let first = statements[0];
        let rest = statements.drop_first();
        let head = statement_items(first);
        lemma_statements_items_first(statements);
        lemma_spells_split(ts, pos, head, statements_items(rest));
        assert(statement_ok(first));
        assert(statements_ok(rest)) by {
            assert forall|n: int| 0 <= n < rest.len() implies statement_ok(#[trigger] rest[n]) by {
                assert(rest[n] == statements[n + 1]);
            }
        }
        assert(seq![first] + rest =~= statements);
        match first {
            StatementView::Label(name) => {
                assert(head.len() == 1);
                assert(ts[pos + 0].token == head[0].token);
                lemma_parse_statement_items(ts, pos + 1, rest);
            },
            StatementView::Instruction(i) => {
                lemma_parse_instruction_items(ts, pos, i);
                lemma_parse_statement_items(ts, after_operands(pos, i.mnemonic), rest);
            },
        }
    }
}

/// The items of a row of variables are those of the first variable and
/// then those of the others.
pub proof fn lemma_variables_items_first(variables: Seq<VariableView>)
    requires
        variables.len() > 0,
    ensures
        variables_items(variables) == variable_items(variables[0]) + variables_items(
            variables.drop_first(),
        ),
{
    let first = variables[0];
    let rest = variables.drop_first();
    assert(variables =~= seq![first] + rest);
    lemma_variables_items_concat(seq![first], rest);
    assert(variables_items(seq![first]) =~= variable_items(first)) by {
        assert(seq![first].drop_last() =~= Seq::<VariableView>::empty());
        reveal_with_fuel(variables_items, 2);
    }
}

/// The parser reads variables of different names back from the tokens
/// that spell their items, where no label follows them and none of the
/// names is in `seen`.
pub proof fn lemma_parse_variable_items(
    ts: Seq<SpannedView>,
    pos: int,
    variables: Seq<VariableView>,
    seen: Seq<Seq<char>>,
)
    requires
        spells(ts, pos, variables_items(variables)),
        pos + 3 * variables.len() < ts.len() ==> !(ts[pos + 3 * variables.len()].token is Label),
        names_distinct(variables),
        forall|n: int| 0 <= n < variables.len() ==> !seen.contains((#[trigger] variables[n]).name),
    ensures
        variables_items(variables).len() == 3 * variables.len(),
        parse_variables(ts, pos, seen) == Ok::<(Seq<VariableView>, int), ParseErrorView>(
            (variables, pos + 3 * variables.len()),
        ),
    decreases variables.len(),
{
    if variables.len() == 0 {
        assert(variables =~= Seq::<VariableView>::empty());
    } else {
        let first = variables[0];
        let rest = variables.drop_first();
        let head = variable_items(first);
        let after = seen.push(first.name);
        lemma_variables_items_first(variables);
        lemma_spells_split(ts, pos, head, variables_items(rest));
        assert(names_distinct(rest)) by {
            assert forall|i: int, j: int| 0 <= i < j < rest.len() implies (#[trigger] rest[i]).name
                != (#[trigger] rest[j]).name by {
                assert(rest[i] == variables[i + 1]);
                assert(rest[j] == variables[j + 1]);
            }
        }
        assert forall|n: int| 0 <= n < rest.len() implies !after.contains(
            (#[trigger] rest[n]).name,
        ) by {
            assert(rest[n] == variables[n + 1]);
            assert(!seen.contains(variables[n + 1].name));
            assert(variables[0].name != variables[n + 1].name);
            if after.contains(rest[n].name) {
                let k = choose|k: int| 0 <= k < after.len() && after[k] == rest[n].name;
                if k < seen.len() {
                    assert(seen[k] == rest[n].name);
                }
            }
        }
        lemma_parse_variable_items(ts, pos + 3, rest, after);
        assert(ts[pos + 0].token == head[0].token);
        assert(ts[pos + 1].token == head[1].token);
        assert(ts[pos + 2].token == head[2].token);
        assert(!seen.contains(variables[0].name));
        assert(seq![first] + rest =~= variables);
    }
}

/// The parser reads a canonical program back from the tokens that spell
/// its items.
pub proof fn lemma_parse_program_items(ts: Seq<SpannedView>, p: ProgramView)
    requires
        canonical(p),
        ts.len() == program_items(p).len(),
        spells(ts, 0, program_items(p)),
    ensures
        parse_program(ts) == Ok::<ProgramView, ParseErrorView>(p),
{
    let first = seq![Item { gap: Seq::empty(), token: TokenView::DataSection }];
    let variables = variables_items(p.data_section.variables);
    let header = header_items(p.text_section.entrypoint);
    let statements = statements_items(p.text_section.statements);
    let count: int = p.data_section.variables.len() as int;
    lemma_spells_split(ts, 0, first + variables + header, statements);
    lemma_spells_split(ts, 0, first + variables, header);
    lemma_spells_split(ts, 0, first, variables);
    assert(ts[0int + 0].token == first[0].token);
    lemma_variables_items_ok(p.data_section.variables);
    let at: int = 1 + 3 * count;
    assert(ts[at + 0].token == header[0].token);
    assert(ts[at + 1].token == header[1].token);
    assert(ts[at + 2].token == header[2].token);
    lemma_parse_variable_items(ts, 1, p.data_section.variables, Seq::empty());
    lemma_parse_statement_items(ts, at + 3, p.text_section.statements);
}

/// Parsing the text of a canonical program gives the program.
pub proof fn lemma_print_then_parse(p: ProgramView)
    requires
        canonical(p),
    ensures
        parse_source(program_text(p)) == Ok::<ProgramView, ParseErrorView>(p),
{
    let s = program_text(p);
    let items = program_items(p);
    lemma_render_program(p);
    lemma_program_items_ok(p);
    assert(s.subrange(0, s.len() as int) =~= s);
    let found = lemma_scan_items(s, 0, items, program_tail(p));
    let ts = spans_of(s, found);
    assert forall|n: int| 0 <= n < items.len() implies (#[trigger] ts[0 + n]).token
        == items[n].token by {
        assert(ts[n] == spanned_of(s, found[n]));
    }
    lemma_parse_program_items(ts, p);
}

/// Round trip: where a text is a program, parsing what the printer writes
/// for the program gives the same program again.
pub proof fn lemma_round_trip(source: Seq<char>)
    requires
        parse_source(source) is Ok,
    ensures
        parse_source(program_text(parse_source(source)->Ok_0)) == parse_source(source),
{
    lemma_parsed_source_is_canonical(source);
    lemma_print_then_parse(parse_source(source)->Ok_0);
}

/// The printer writes different canonical programs differently.
pub proof fn lemma_printer_is_injective(p: ProgramView, q: ProgramView)
    requires
        canonical(p),
        canonical(q),
        program_text(p) == program_text(q),
    ensures
        p == q,
{
    lemma_print_then_parse(p);
    lemma_print_then_parse(q);
}

/// Printing is idempotent under parsing: the text of the program of a
/// printed canonical program is that printed text.
pub proof fn lemma_printed_text_is_stable(p: ProgramView)
    requires
        canonical(p),
    ensures
        parse_source(program_text(p)) is Ok,
        program_text(parse_source(program_text(p))->Ok_0) == program_text(p),
{
    lemma_print_then_parse(p);
}

/// Writes the program of the text `source` anew, in the one way in which
/// the printer writes it: without comments, with the same blank characters
/// between the tokens everywhere, each number as a decimal numeral. The new
/// text is a program too, and the same one: parsing it gives the tree of
/// `source`, with every name, number and offset that `source` holds. Where
/// `source` is no program, the result is the error of the parser.
pub fn reformat(source: &str) -> (r: Result<String, ParseError>)
    ensures
        match r {
            Ok(text) => parse_source(source@) is Ok && text@ == program_text(
                parse_source(source@)->Ok_0,
            ) && parse_source(text@) == parse_source(source@),
            Err(e) => parse_source(source@) == Err::<ProgramView, ParseErrorView>(e@),
        },
{
    match parse(source) {
        Ok(program) => {
            proof {
                lemma_round_trip(source@);
            }
            Ok(program.to_string())
        },
        Err(e) => Err(e),
    }
}

} // verus!
