use celestial_hub_astrolabe::lexer::tokenize;
use celestial_hub_astrolabe::lexer::tokens::handle_type;
use celestial_hub_astrolabe::lexer::tokens::Spanned;
use celestial_hub_astrolabe::lexer::tokens::Token;
use celestial_hub_astrolabe::lexer::tokens::TokenKind;
use celestial_hub_astrolabe::lexer::tokens::Type;
use celestial_hub_astrolabe::lexer::Lexer;
use celestial_hub_astrolabe::lexer::LexicalError;

fn tokens_of(source: &str) -> Vec<Token> {
    tokenize(source).unwrap().into_iter().map(|t| t.token).collect()
}

fn spanned(start: usize, token: Token, end: usize) -> Spanned {
    Spanned { start, token, end }
}

fn word(name: &str) -> Token {
    Token::Identifier(name.to_string())
}

fn op(name: &str) -> Token {
    Token::Instruction(name.to_string())
}

#[test]
fn empty_text_has_no_tokens() {
    assert_eq!(tokenize(""), Ok(vec![]));
    assert_eq!(tokenize(" \t\n\u{c}"), Ok(vec![]));
    assert_eq!(tokenize("; only a comment"), Ok(vec![]));
}

#[test]
fn every_mnemonic_is_an_instruction() {
    let names = [
        "li", "la", "syscall", "move", "jal", "sub", "add", "jr", "addi", "andi", "j", "sw", "lw",
        "slt", "sle", "sgt", "sge", "seq", "sne", "beqz", "bnez", "bltz", "bgtz", "blez", "bgez",
        "blt", "bgt", "ble", "bge", "beq", "bne",
    ];
    for name in names {
        assert_eq!(tokens_of(name), vec![op(name)], "{}", name);
    }
}

#[test]
fn longer_word_is_an_identifier() {
    assert_eq!(tokens_of("lix"), vec![word("lix")]);
    assert_eq!(tokens_of("jalr"), vec![word("jalr")]);
    assert_eq!(tokens_of("Add"), vec![word("Add")]);
    assert_eq!(tokens_of("_start x9 a_b"), vec![word("_start"), word("x9"), word("a_b")]);
}

#[test]
fn directives_are_keywords() {
    assert_eq!(
        tokens_of(".data .text .global .globl .asciiz .space"),
        vec![
            Token::DataSection,
            Token::TextSection,
            Token::GlobalSection,
            Token::GlobalSection,
            Token::Type(Type::Asciiz),
            Token::Type(Type::Space),
        ]
    );
}

#[test]
fn directive_ends_where_its_text_ends() {
    assert_eq!(tokens_of(".datax"), vec![Token::DataSection, word("x")]);
    assert_eq!(tokens_of(".globally"), vec![Token::GlobalSection, word("ly")]);
}

#[test]
fn unknown_directive_is_an_error() {
    assert_eq!(tokenize("  .word"), Err(LexicalError::InvalidCharacter { position: 2 }));
    assert_eq!(tokenize("."), Err(LexicalError::InvalidCharacter { position: 0 }));
}

#[test]
fn register_keeps_its_dollar() {
    assert_eq!(
        tokenize("$t0 $zero"),
        Ok(vec![
            spanned(0, Token::Register("$t0".to_string()), 3),
            spanned(4, Token::Register("$zero".to_string()), 9),
        ])
    );
}

#[test]
fn register_needs_a_name() {
    assert_eq!(tokenize("$"), Err(LexicalError::InvalidCharacter { position: 0 }));
    assert_eq!(tokenize("li $T0"), Err(LexicalError::InvalidCharacter { position: 3 }));
}

#[test]
fn register_ends_before_an_upper_case_letter() {
    assert_eq!(tokens_of("$t0X"), vec![Token::Register("$t0".to_string()), word("X")]);
}

#[test]
fn label_loses_its_colon() {
    assert_eq!(tokens_of("main: loop_1:"), vec![
        Token::Label("main".to_string()),
        Token::Label("loop_1".to_string()),
    ]);
}

#[test]
fn colon_alone_is_an_error() {
    assert_eq!(tokenize("main :"), Err(LexicalError::InvalidCharacter { position: 5 }));
}

#[test]
fn numerals_of_both_bases() {
    assert_eq!(tokens_of("0 7 42 0x0 0xFF 0Xab"), vec![
        Token::Number(0),
        Token::Number(7),
        Token::Number(42),
        Token::Number(0),
        Token::Number(255),
        Token::Number(171),
    ]);
}

#[test]
fn zero_before_x_without_digit_is_a_decimal_zero() {
    assert_eq!(tokens_of("0xg"), vec![Token::Number(0), word("xg")]);
    assert_eq!(tokens_of("0x"), vec![Token::Number(0), word("x")]);
}

#[test]
fn numeral_ends_before_a_letter() {
    assert_eq!(tokens_of("12abc"), vec![Token::Number(12), word("abc")]);
    assert_eq!(tokens_of("0x1Ag"), vec![Token::Number(26), word("g")]);
}

#[test]
fn minus_needs_digits() {
    assert_eq!(tokenize("-"), Err(LexicalError::InvalidCharacter { position: 0 }));
    assert_eq!(tokenize("5 -x"), Err(LexicalError::InvalidCharacter { position: 2 }));
    assert_eq!(tokenize("--5"), Err(LexicalError::InvalidCharacter { position: 0 }));
}

#[test]
fn negative_numerals_wrap() {
    assert_eq!(tokens_of("-1"), vec![Token::Number(u32::MAX)]);
    assert_eq!(tokens_of("-2147483647"), vec![Token::Number(2147483649)]);
    assert_eq!(tokens_of("-0x10"), vec![Token::Number(0), word("x10")]);
}

#[test]
fn string_loses_its_quotes() {
    assert_eq!(
        tokenize("\"hello, world\" \"\""),
        Ok(vec![
            spanned(0, Token::String("hello, world".to_string()), 14),
            spanned(15, Token::String(String::new()), 17),
        ])
    );
}

#[test]
fn string_may_hold_anything_but_a_quote() {
    assert_eq!(tokens_of("\"a;b\nc\\\""), vec![Token::String("a;b\nc\\".to_string())]);
}

#[test]
fn string_without_end_is_an_error() {
    assert_eq!(tokenize("li \"abc"), Err(LexicalError::InvalidCharacter { position: 3 }));
}

#[test]
fn punctuation_marks() {
    assert_eq!(tokens_of("[](),"), vec![
        Token::OpenBracket,
        Token::CloseBracket,
        Token::OpenParen,
        Token::CloseParen,
        Token::Comma,
    ]);
}

#[test]
fn comment_runs_to_the_end_of_the_line() {
    assert_eq!(
        tokenize("li ; load\n$t0 ; \"not a string\n,"),
        Ok(vec![
            spanned(0, op("li"), 2),
            spanned(10, Token::Register("$t0".to_string()), 13),
            spanned(30, Token::Comma, 31),
        ])
    );
}

#[test]
fn spans_are_byte_offsets() {
    // The comment holds a two-byte and a three-byte character.
    let source = "; \u{e9}\u{20ac}\nli \"\u{1f600}\" x";
    assert_eq!(
        tokenize(source),
        Ok(vec![
            spanned(8, op("li"), 10),
            spanned(11, Token::String("\u{1f600}".to_string()), 17),
            spanned(18, word("x"), 19),
        ])
    );
    assert_eq!(&source[11..17], "\"\u{1f600}\"");
}

#[test]
fn error_position_is_a_byte_offset() {
    assert_eq!(tokenize("\"\u{e9}\" \u{e9}"), Err(LexicalError::InvalidCharacter { position: 5 }));
    assert_eq!(tokenize("li\r\n"), Err(LexicalError::InvalidCharacter { position: 2 }));
    assert_eq!(tokenize("a @ b"), Err(LexicalError::InvalidCharacter { position: 2 }));
}

#[test]
fn lexing_stops_at_the_first_error() {
    assert_eq!(tokenize("li # $ @"), Err(LexicalError::InvalidCharacter { position: 3 }));
}

#[test]
fn spaced_tokens_are_accepted() {
    let words = ["add", "loop:", "$t0", ".globl", "99", "-3", "0x1f", "\"a b\"", "(", "name"];
    let source = format!("  {}\n", words.join(" \t"));
    assert_eq!(tokenize(&source).unwrap().len(), words.len());
}

#[test]
fn tokens_between_comments_are_accepted() {
    let words = ["add", "loop:", "$t0", ".globl", "99", "-3", "0x1f", "\"a ; b\"", "(", "name"];
    let source = format!("; first\n{} ; last", words.join(" ; note\n\t"));
    let tokens = tokenize(&source).unwrap();
    assert_eq!(tokens.len(), words.len());
    for (t, w) in tokens.iter().zip(words) {
        assert_eq!(&source[t.start..t.end], w);
    }
}

#[test]
fn tokens_and_gaps_cover_the_text() {
    let source = "  li $t0, 5 ; five\n\tsyscall\n";
    let tokens = tokenize(source).unwrap();
    let mut at = 0;
    for t in &tokens {
        assert!(at <= t.start && t.start < t.end && t.end <= source.len());
        let gap = &source[at..t.start];
        let mut in_comment = false;
        for c in gap.chars() {
            if c == ';' {
                in_comment = true;
            } else if c == '\n' {
                in_comment = false;
            } else {
                assert!(in_comment || c == ' ' || c == '\t');
            }
        }
        at = t.end;
    }
    assert_eq!(&source[at..], "\n");
    assert_eq!(tokens.len(), 5);
}

#[test]
fn lexer_holds_its_text_and_path() {
    let lexer = Lexer::new("li $t0, 1", "dir/prog.s");
    assert_eq!(lexer.source_code, "li $t0, 1");
    assert_eq!(lexer.filepath, "dir/prog.s");
    assert_eq!(lexer.tokens(), tokenize("li $t0, 1"));
    assert_eq!(lexer.tokens().unwrap().len(), 4);
}

#[test]
fn type_directive_names_its_type() {
    assert_eq!(handle_type(".asciiz"), Type::Asciiz);
    assert_eq!(handle_type(".space"), Type::Space);
}

#[test]
fn kinds_of_tokens() {
    assert_eq!(op("li").kind(), TokenKind::Instruction);
    assert_eq!(Token::Number(1).kind(), TokenKind::Number);
    assert_eq!(Token::String("s".to_string()).kind(), TokenKind::String);
    assert_eq!(Token::Type(Type::Space).kind(), TokenKind::Type);
    assert_eq!(TokenKind::GlobalSection.describe(), ".global");
    assert_eq!(TokenKind::OpenParen.describe(), "(");
    assert_eq!(TokenKind::Identifier.describe(), "identifier");
}

#[test]
fn duplicate_is_equal() {
    let t = Token::Label("x".to_string());
    assert_eq!(t.duplicate(), t);
    assert_eq!(Token::Comma.duplicate(), Token::Comma);
}
