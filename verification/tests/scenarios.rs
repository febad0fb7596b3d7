use celestial_hub_astrolabe::ast::Instruction;
use celestial_hub_astrolabe::ast::InstructionArgument;
use celestial_hub_astrolabe::ast::Register;
use celestial_hub_astrolabe::ast::Statement;
use celestial_hub_astrolabe::lexer::tokenize;
use celestial_hub_astrolabe::lexer::tokens::Spanned;
use celestial_hub_astrolabe::lexer::tokens::Token;
use celestial_hub_astrolabe::lexer::tokens::TokenKind;
use celestial_hub_astrolabe::lexer::tokens::Type;
use celestial_hub_astrolabe::lexer::tokens::Value;
use celestial_hub_astrolabe::lexer::Lexer;
use celestial_hub_astrolabe::lexer::LexicalError;
use celestial_hub_astrolabe::parser::parse;
use celestial_hub_astrolabe::parser::ParseError;
use celestial_hub_astrolabe::parser::Parser;

fn kinds(source: &str) -> Vec<Token> {
    tokenize(source).unwrap().into_iter().map(|t| t.token).collect()
}

fn reg(name: &str) -> InstructionArgument {
    InstructionArgument::Register(Register { name: name.to_string() })
}

const PROGRAM: &str = ".data\nmsg: .asciiz \"hi\"\n.text\n.globl main\nmain:\n    li $t0, 5\n    add $t1, $t0, $t0\n    syscall\n";

#[test]
fn end_to_end_program_parses_to_the_expected_tree() {
    let program = Parser::new().parse(Lexer::new(PROGRAM, "demo.s")).unwrap();
    assert_eq!(program.data_section.variables.len(), 1);
    let variable = &program.data_section.variables[0];
    assert_eq!(variable.name, "msg");
    assert_eq!(variable.type_(), Type::Asciiz);
    assert_eq!(variable.value, Value::String("hi".to_string()));
    assert_eq!(program.text_section.entrypoint, "main");
    assert_eq!(
        program.text_section.statements,
        vec![
            Statement::Label("main".to_string()),
            Statement::Instruction(Instruction::Li(vec![reg("$t0"), InstructionArgument::Immediate(5)])),
            Statement::Instruction(Instruction::Add(vec![reg("$t1"), reg("$t0"), reg("$t0")])),
            Statement::Instruction(Instruction::Syscall),
        ]
    );
}

#[test]
fn end_to_end_program_prints_and_parses_again() {
    let program = parse(PROGRAM).unwrap();
    let text = program.to_string();
    assert_eq!(
        text,
        ".data\nmsg: .asciiz \"hi\"\n\n\t.text\n\t.globl main\nmain:\n\tli $t0, 5\n\tadd $t1, $t0, $t0\n\tsyscall"
    );
    assert_eq!(parse(&text).unwrap(), program);
}

#[test]
fn hexadecimal_and_decimal_numerals_agree() {
    assert_eq!(kinds("0x1A"), vec![Token::Number(26)]);
    assert_eq!(kinds("26"), vec![Token::Number(26)]);
    assert_eq!(kinds("0X1a"), vec![Token::Number(26)]);
}

#[test]
fn negative_numeral_is_its_twos_complement() {
    assert_eq!(kinds("-5"), vec![Token::Number(4294967291)]);
    assert_eq!(kinds("4294967291"), vec![Token::Number(4294967291)]);
    assert_eq!(InstructionArgument::Immediate(4294967291).to_string(), "4294967291");
    assert_eq!(kinds("-0"), vec![Token::Number(0)]);
    assert_eq!(kinds("-2147483648"), vec![Token::Number(2147483648)]);
}

#[test]
fn numerals_out_of_range_are_lexical_errors() {
    assert_eq!(tokenize("4294967296"), Err(LexicalError::InvalidCharacter { position: 0 }));
    assert_eq!(tokenize(" -2147483649"), Err(LexicalError::InvalidCharacter { position: 1 }));
    assert_eq!(tokenize("0x100000000"), Err(LexicalError::InvalidCharacter { position: 0 }));
    assert_eq!(kinds("4294967295"), vec![Token::Number(u32::MAX)]);
    assert_eq!(kinds("0xffffffff"), vec![Token::Number(u32::MAX)]);
    assert_eq!(kinds("00000000000000000000007"), vec![Token::Number(7)]);
}

#[test]
fn word_with_colon_is_one_label() {
    assert_eq!(
        tokenize("loop:"),
        Ok(vec![Spanned { start: 0, token: Token::Label("loop".to_string()), end: 5 }])
    );
    assert_eq!(kinds("add:"), vec![Token::Label("add".to_string())]);
}

#[test]
fn two_registers_for_add_are_rejected() {
    let source = ".text\n.globl main\nadd $t0, $t1";
    match parse(source) {
        Err(ParseError::UnexpectedEnd { location, expected }) => {
            assert_eq!(location, source.len());
            assert_eq!(expected, vec![TokenKind::Comma]);
        }
        other => panic!("unexpected outcome: {:?}", other),
    }
    let source = ".text\n.globl main\nadd $t0, $t1\nsyscall";
    match parse(source) {
        Err(ParseError::UnrecognizedToken { token, expected }) => {
            assert_eq!(token, Spanned { start: 31, token: Token::Instruction("syscall".to_string()), end: 38 });
            assert_eq!(expected, vec![TokenKind::Comma]);
        }
        other => panic!("unexpected outcome: {:?}", other),
    }
}

#[test]
fn memory_reference_prints_as_it_was_written() {
    let program = parse(".text\n.globl main\nsw $t0, 0($t1)").unwrap();
    let statement = &program.text_section.statements[0];
    assert_eq!(
        statement,
        &Statement::Instruction(Instruction::Sw(vec![
            reg("$t0"),
            InstructionArgument::Literal("0($t1)".to_string()),
        ]))
    );
    match statement {
        Statement::Instruction(i) => assert_eq!(i.to_string(), "sw $t0, 0($t1)"),
        Statement::Label(_) => unreachable!(),
    }
}

#[test]
fn unknown_mnemonic_is_an_unrecognized_token() {
    match parse(".text\n.globl main\nfrobnicate $t0") {
        Err(ParseError::UnrecognizedToken { token, expected }) => {
            assert_eq!(token, Spanned { start: 18, token: Token::Identifier("frobnicate".to_string()), end: 28 });
            assert_eq!(expected, vec![TokenKind::Label, TokenKind::Instruction]);
        }
        other => panic!("unexpected outcome: {:?}", other),
    }
}

fn printed(line: &str) -> String {
    let source = format!(".data\n.text\n.global main\nmain:\n{}\n", line);
    let program = Parser::new().parse(Lexer::new(&source, "a.s")).unwrap();
    match &program.text_section.statements[1] {
        Statement::Instruction(i) => i.to_string(),
        Statement::Label(_) => unreachable!(),
    }
}

#[test]
fn offset_that_is_parsed_is_the_offset_that_is_printed() {
    assert_eq!(printed("lw $t0, 4($t1)"), "lw $t0, 4($t1)");
    assert_eq!(printed("sw $t0, 8($t1)"), "sw $t0, 8($t1)");
    assert_eq!(printed("sw $t0, 0($t1)"), "sw $t0, 0($t1)");
    assert_eq!(printed("lw $ra, 0x20($sp)"), "lw $ra, 32($sp)");
}
