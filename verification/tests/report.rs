use celestial_hub_astrolabe::lexer::tokens::Spanned;
use celestial_hub_astrolabe::lexer::tokens::Token;
use celestial_hub_astrolabe::lexer::tokens::TokenKind;
use celestial_hub_astrolabe::parser::parse;
use celestial_hub_astrolabe::parser::report::describe_kinds;
use celestial_hub_astrolabe::parser::report::file_name;
use celestial_hub_astrolabe::parser::ParseError;

#[test]
fn file_name_is_what_follows_the_last_slash() {
    assert_eq!(file_name("examples/hello.s"), "hello.s");
    assert_eq!(file_name("/a/b/c.asm"), "c.asm");
    assert_eq!(file_name("plain.s"), "plain.s");
    assert_eq!(file_name("dir/"), "");
    assert_eq!(file_name(""), "");
    assert_eq!(file_name("/"), "");
    assert_eq!(file_name("a//b"), "b");
}

#[test]
fn kinds_are_described_in_a_list() {
    assert_eq!(describe_kinds(&vec![]), "");
    assert_eq!(describe_kinds(&vec![TokenKind::Comma]), ",");
    assert_eq!(describe_kinds(&vec![TokenKind::Label, TokenKind::Instruction]), "label, instruction");
    assert_eq!(
        describe_kinds(&vec![TokenKind::DataSection, TokenKind::TextSection, TokenKind::GlobalSection]),
        ".data, .text, .global"
    );
    assert_eq!(
        describe_kinds(&vec![
            TokenKind::Type,
            TokenKind::Register,
            TokenKind::Identifier,
            TokenKind::Number,
            TokenKind::String,
            TokenKind::OpenBracket,
            TokenKind::CloseBracket,
            TokenKind::OpenParen,
            TokenKind::CloseParen,
        ]),
        "type, register, identifier, number, string, [, ], (, )"
    );
}

#[test]
fn invalid_token_reports_its_place() {
    let error = ParseError::InvalidToken { location: 7 };
    assert_eq!(error.span(), 7..7);
    assert_eq!(error.title(), "Invalid token");
    assert_eq!(error.expected_text(), "");
}

#[test]
fn unrecognized_token_reports_its_span_and_what_was_expected() {
    let error = ParseError::UnrecognizedToken {
        token: Spanned { start: 3, token: Token::Comma, end: 4 },
        expected: vec![TokenKind::Number, TokenKind::Identifier],
    };
    assert_eq!(error.span(), 3..4);
    assert_eq!(error.title(), "Unrecognized token");
    assert_eq!(error.expected_text(), "number, identifier");
}

#[test]
fn unexpected_end_reports_the_end() {
    let error = parse(".text .globl").unwrap_err();
    assert_eq!(error, ParseError::UnexpectedEnd { location: 12, expected: vec![TokenKind::Identifier] });
    assert_eq!(error.span(), 12..12);
    assert_eq!(error.title(), "Unexpected end of input");
    assert_eq!(error.expected_text(), "identifier");
}
