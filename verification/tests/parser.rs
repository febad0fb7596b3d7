use celestial_hub_astrolabe::ast::Instruction;
use celestial_hub_astrolabe::ast::InstructionArgument;
use celestial_hub_astrolabe::ast::Program;
use celestial_hub_astrolabe::ast::Register;
use celestial_hub_astrolabe::ast::Statement;
use celestial_hub_astrolabe::ast::Variable;
use celestial_hub_astrolabe::lexer::tokens::Spanned;
use celestial_hub_astrolabe::lexer::tokens::Token;
use celestial_hub_astrolabe::lexer::tokens::TokenKind;
use celestial_hub_astrolabe::lexer::tokens::Type;
use celestial_hub_astrolabe::lexer::tokens::Value;
use celestial_hub_astrolabe::lexer::Lexer;
use celestial_hub_astrolabe::parser::parse;
use celestial_hub_astrolabe::parser::parse_tokens;
use celestial_hub_astrolabe::parser::ParseError;
use celestial_hub_astrolabe::parser::Parser;

const HEAD: &str = ".text\n.global main\n";

fn r(name: &str) -> InstructionArgument {
    InstructionArgument::Register(Register { name: name.to_string() })
}

fn imm(n: u32) -> InstructionArgument {
    InstructionArgument::Immediate(n)
}

fn memory(text: &str) -> InstructionArgument {
    InstructionArgument::Literal(text.to_string())
}

fn label(name: &str) -> InstructionArgument {
    InstructionArgument::Label(name.to_string())
}

fn one(line: &str) -> Instruction {
    let program = parse(&format!("{}{}", HEAD, line)).unwrap();
    assert_eq!(program.text_section.statements.len(), 1);
    match program.text_section.statements.into_iter().next().unwrap() {
        Statement::Instruction(i) => i,
        Statement::Label(_) => panic!("a label"),
    }
}

fn refused(source: &str) -> (Spanned, Vec<TokenKind>) {
    match parse(source) {
        Err(ParseError::UnrecognizedToken { token, expected }) => (token, expected),
        other => panic!("unexpected outcome: {:?}", other),
    }
}

fn ended(source: &str) -> (usize, Vec<TokenKind>) {
    match parse(source) {
        Err(ParseError::UnexpectedEnd { location, expected }) => (location, expected),
        other => panic!("unexpected outcome: {:?}", other),
    }
}

#[test]
fn smallest_program() {
    let program = parse(".text .globl start").unwrap();
    assert_eq!(program.data_section.variables, vec![]);
    assert_eq!(program.text_section.entrypoint, "start");
    assert_eq!(program.text_section.statements, vec![]);
}

#[test]
fn data_section_may_be_empty_or_missing() {
    let with = parse(".data\n.text\n.global main\nsyscall").unwrap();
    let without = parse(".text\n.global main\nsyscall").unwrap();
    assert_eq!(with, without);
    assert_eq!(with.data_section.variables.len(), 0);
}

#[test]
fn variables_keep_their_order() {
    let program = parse(
        ".data\nmsg: .asciiz \"hi\"\nbuf: .space 64\nend: .asciiz \"\"\n.text\n.globl main\n",
    )
    .unwrap();
    assert_eq!(
        program.data_section.variables,
        vec![
            Variable { name: "msg".to_string(), value: Value::String("hi".to_string()) },
            Variable { name: "buf".to_string(), value: Value::Bytes(64) },
            Variable { name: "end".to_string(), value: Value::String(String::new()) },
        ]
    );
    assert_eq!(program.data_section.variables[1].type_(), Type::Space);
    assert_eq!(program.data_section.variables[2].type_(), Type::Asciiz);
}

#[test]
fn variable_names_are_unique() {
    let (token, expected) =
        refused(".data\na: .space 1\nb: .space 2\na: .asciiz \"x\"\n.text .globl main");
    assert_eq!(token, Spanned { start: 30, token: Token::Label("a".to_string()), end: 32 });
    assert_eq!(expected, vec![TokenKind::Label, TokenKind::TextSection]);
    assert!(parse(".data\na: .space 1\nA: .space 1\n.text .globl a\na:").is_ok());
}

#[test]
fn repeated_name_is_refused_before_a_later_error() {
    let (token, _) = refused(".data\na: .space 1\na: 5");
    assert_eq!(token, Spanned { start: 18, token: Token::Label("a".to_string()), end: 20 });
}

#[test]
fn value_must_be_of_the_type() {
    let (token, expected) = refused(".data\nbuf: .space \"x\"\n.text .globl main");
    assert_eq!(token, Spanned { start: 18, token: Token::String("x".to_string()), end: 21 });
    assert_eq!(expected, vec![TokenKind::Number]);
    let (token, expected) = refused(".data\nmsg: .asciiz 4\n.text .globl main");
    assert_eq!(token, Spanned { start: 19, token: Token::Number(4), end: 20 });
    assert_eq!(expected, vec![TokenKind::String]);
}

#[test]
fn variable_needs_its_type() {
    let (token, expected) = refused(".data\nmsg: \"x\"\n.text .globl main");
    assert_eq!(token.token, Token::String("x".to_string()));
    assert_eq!(expected, vec![TokenKind::Type]);
    assert_eq!(ended(".data\nmsg:"), (10, vec![TokenKind::Type]));
    assert_eq!(ended(".data\nmsg: .space"), (17, vec![TokenKind::Number]));
}

#[test]
fn text_section_is_required() {
    assert_eq!(ended(""), (0, vec![TokenKind::DataSection, TokenKind::TextSection]));
    assert_eq!(ended(".data"), (5, vec![TokenKind::Label, TokenKind::TextSection]));
    assert_eq!(
        ended(".data\nx: .space 1"),
        (17, vec![TokenKind::Label, TokenKind::TextSection])
    );
    let (token, expected) = refused("syscall");
    assert_eq!(token, Spanned { start: 0, token: Token::Instruction("syscall".to_string()), end: 7 });
    assert_eq!(expected, vec![TokenKind::DataSection, TokenKind::TextSection]);
}

#[test]
fn sections_stand_in_their_order() {
    let (token, expected) = refused(".text .globl main\n.data");
    assert_eq!(token, Spanned { start: 18, token: Token::DataSection, end: 23 });
    assert_eq!(expected, vec![TokenKind::Label, TokenKind::Instruction]);
    let (token, expected) = refused(".data .data .text .globl main");
    assert_eq!(token, Spanned { start: 6, token: Token::DataSection, end: 11 });
    assert_eq!(expected, vec![TokenKind::Label, TokenKind::TextSection]);
}

#[test]
fn entry_point_is_required() {
    assert_eq!(ended(".text"), (5, vec![TokenKind::GlobalSection]));
    assert_eq!(ended(".text .globl"), (12, vec![TokenKind::Identifier]));
    let (token, expected) = refused(".text\nmain:");
    assert_eq!(token.token, Token::Label("main".to_string()));
    assert_eq!(expected, vec![TokenKind::GlobalSection]);
    let (token, expected) = refused(".text .global main:");
    assert_eq!(token.token, Token::Label("main".to_string()));
    assert_eq!(expected, vec![TokenKind::Identifier]);
}

#[test]
fn entry_point_may_not_be_a_mnemonic() {
    let (token, expected) = refused(".text .global add");
    assert_eq!(token.token, Token::Instruction("add".to_string()));
    assert_eq!(expected, vec![TokenKind::Identifier]);
}

#[test]
fn labels_and_instructions_alternate_freely() {
    let program = parse(".text .globl main\nmain: loop:\nsyscall end:").unwrap();
    assert_eq!(
        program.text_section.statements,
        vec![
            Statement::Label("main".to_string()),
            Statement::Label("loop".to_string()),
            Statement::Instruction(Instruction::Syscall),
            Statement::Label("end".to_string()),
        ]
    );
}

#[test]
fn three_registers() {
    let args = vec![r("$t0"), r("$t1"), r("$t2")];
    assert_eq!(one("add $t0, $t1, $t2"), Instruction::Add(args.clone()));
    assert_eq!(one("sub $t0, $t1, $t2"), Instruction::Sub(args.clone()));
    assert_eq!(one("slt $t0, $t1, $t2"), Instruction::Slt(args.clone()));
    assert_eq!(one("sle $t0, $t1, $t2"), Instruction::Sle(args.clone()));
    assert_eq!(one("sgt $t0, $t1, $t2"), Instruction::Sgt(args.clone()));
    assert_eq!(one("sge $t0, $t1, $t2"), Instruction::Sge(args.clone()));
    assert_eq!(one("seq $t0, $t1, $t2"), Instruction::SetEq(args.clone()));
    assert_eq!(one("sne $t0, $t1, $t2"), Instruction::Sne(args));
}

#[test]
fn two_registers_and_a_number() {
    assert_eq!(one("addi $t0, $t1, 4"), Instruction::Addi(vec![r("$t0"), r("$t1"), imm(4)]));
    assert_eq!(one("andi $t0, $t1, 0xff"), Instruction::Andi(vec![r("$t0"), r("$t1"), imm(255)]));
    assert_eq!(
        one("addi $sp, $sp, -4"),
        Instruction::Addi(vec![r("$sp"), r("$sp"), imm(4294967292)])
    );
}

#[test]
fn two_registers_and_a_label() {
    let args = vec![r("$t0"), r("$t1"), label("done")];
    assert_eq!(one("beq $t0, $t1, done"), Instruction::Beq(args.clone()));
    assert_eq!(one("bne $t0, $t1, done"), Instruction::Bne(args.clone()));
    assert_eq!(one("blt $t0, $t1, done"), Instruction::Blt(args.clone()));
    assert_eq!(one("bgt $t0, $t1, done"), Instruction::Bgt(args.clone()));
    assert_eq!(one("ble $t0, $t1, done"), Instruction::Ble(args.clone()));
    assert_eq!(one("bge $t0, $t1, done"), Instruction::Bge(args));
}

#[test]
fn register_and_label() {
    let args = vec![r("$a0"), label("msg")];
    assert_eq!(one("beqz $a0, msg"), Instruction::Beqz(args.clone()));
    assert_eq!(one("bnez $a0, msg"), Instruction::Bnez(args.clone()));
    assert_eq!(one("bltz $a0, msg"), Instruction::Bltz(args.clone()));
    assert_eq!(one("bgtz $a0, msg"), Instruction::Bgtz(args.clone()));
    assert_eq!(one("blez $a0, msg"), Instruction::Blez(args.clone()));
    assert_eq!(one("bgez $a0, msg"), Instruction::Bgez(args));
}

#[test]
fn load_immediate_takes_a_number_or_a_name() {
    assert_eq!(one("li $v0, 4"), Instruction::Li(vec![r("$v0"), imm(4)]));
    assert_eq!(
        one("li $v0, PRINT"),
        Instruction::Li(vec![r("$v0"), InstructionArgument::Literal("PRINT".to_string())])
    );
    let (token, expected) = refused(".text .globl main\nli $v0, $v1");
    assert_eq!(token.token, Token::Register("$v1".to_string()));
    assert_eq!(expected, vec![TokenKind::Number, TokenKind::Identifier]);
}

#[test]
fn load_address_takes_a_name() {
    assert_eq!(
        one("la $a0, msg"),
        Instruction::La(vec![r("$a0"), InstructionArgument::Literal("msg".to_string())])
    );
    let (token, expected) = refused(".text .globl main\nla $a0, 4");
    assert_eq!(token.token, Token::Number(4));
    assert_eq!(expected, vec![TokenKind::Identifier]);
}

#[test]
fn jumps() {
    assert_eq!(one("j loop"), Instruction::J(vec![label("loop")]));
    assert_eq!(one("jal print"), Instruction::Jal(vec![label("print")]));
    assert_eq!(one("jr $ra"), Instruction::Jr(vec![r("$ra")]));
    assert_eq!(one("move $t0, $t1"), Instruction::Move(vec![r("$t0"), r("$t1")]));
}

#[test]
fn memory_reference_is_one_operand() {
    assert_eq!(one("lw $t0, 0($sp)"), Instruction::Lw(vec![r("$t0"), memory("0($sp)")]));
    assert_eq!(one("sw $t0, 0($sp)"), Instruction::Sw(vec![r("$t0"), memory("0($sp)")]));
    assert_eq!(one("lw $t0, 8($sp)"), Instruction::Lw(vec![r("$t0"), memory("8($sp)")]));
    assert_eq!(one("sw $t0 , 4 ( $t1 )"), Instruction::Sw(vec![r("$t0"), memory("4($t1)")]));
}

#[test]
fn memory_reference_keeps_its_offset() {
    assert_ne!(one("lw $t0, 4($t1)"), one("lw $t0, 8($t1)"));
    assert_ne!(one("lw $t0, 4($t1)"), one("lw $t0, 4($t2)"));
    assert_eq!(one("lw $t0, 0x10($t1)"), Instruction::Lw(vec![r("$t0"), memory("16($t1)")]));
    assert_eq!(one("lw $t0, 007($t1)"), Instruction::Lw(vec![r("$t0"), memory("7($t1)")]));
    assert_eq!(one("lw $t0, -4($sp)"), Instruction::Lw(vec![r("$t0"), memory("4294967292($sp)")]));
    assert_eq!(
        one("sw $t0, 4294967295($sp)"),
        Instruction::Sw(vec![r("$t0"), memory("4294967295($sp)")])
    );
}

#[test]
fn memory_reference_needs_its_form() {
    let (token, expected) = refused(".text .globl main\nlw $t0, $t1");
    assert_eq!(token.token, Token::Register("$t1".to_string()));
    assert_eq!(expected, vec![TokenKind::Number]);
    let (token, expected) = refused(".text .globl main\nsw $t0, 0 $t1");
    assert_eq!(token.token, Token::Register("$t1".to_string()));
    assert_eq!(expected, vec![TokenKind::OpenParen]);
    let (token, expected) = refused(".text .globl main\nsw $t0, 0(4)");
    assert_eq!(token.token, Token::Number(4));
    assert_eq!(expected, vec![TokenKind::Register]);
    assert_eq!(ended(".text .globl main\nsw $t0, 0($t1"), (31, vec![TokenKind::CloseParen]));
}

#[test]
fn too_many_operands_are_rejected() {
    let (token, expected) = refused(".text .globl main\nadd $t0, $t1, $t2, $t3");
    assert_eq!(token, Spanned { start: 35, token: Token::Comma, end: 36 });
    assert_eq!(expected, vec![TokenKind::Label, TokenKind::Instruction]);
    let (token, _) = refused(".text .globl main\nsyscall $t0");
    assert_eq!(token.token, Token::Register("$t0".to_string()));
}

#[test]
fn operand_of_the_wrong_kind_is_rejected() {
    let (token, expected) = refused(".text .globl main\nadd $t0, $t1, 5");
    assert_eq!(token, Spanned { start: 32, token: Token::Number(5), end: 33 });
    assert_eq!(expected, vec![TokenKind::Register]);
    let (token, expected) = refused(".text .globl main\nj 5");
    assert_eq!(token.token, Token::Number(5));
    assert_eq!(expected, vec![TokenKind::Identifier]);
    let (token, expected) = refused(".text .globl main\naddi $t0, $t1, x");
    assert_eq!(token.token, Token::Identifier("x".to_string()));
    assert_eq!(expected, vec![TokenKind::Number]);
    let (token, expected) = refused(".text .globl main\nmove $t0 $t1");
    assert_eq!(token.token, Token::Register("$t1".to_string()));
    assert_eq!(expected, vec![TokenKind::Comma]);
}

#[test]
fn brackets_are_no_part_of_the_grammar() {
    let (token, expected) = refused(".text .globl main\n[");
    assert_eq!(token.token, Token::OpenBracket);
    assert_eq!(expected, vec![TokenKind::Label, TokenKind::Instruction]);
}

#[test]
fn lexical_error_is_an_invalid_token() {
    assert_eq!(parse(".text .globl main\nli $t0, #5"), Err(ParseError::InvalidToken { location: 26 }));
    assert_eq!(parse("?"), Err(ParseError::InvalidToken { location: 0 }));
}

#[test]
fn lexical_error_comes_before_a_syntax_error() {
    assert_eq!(parse("syscall ?"), Err(ParseError::InvalidToken { location: 8 }));
}

#[test]
fn parser_reads_from_a_lexer() {
    let parser = Parser::new();
    let source = ".data\nn: .space 4\n.text\n.global main\nmain:\n\tlw $t0, 0($gp)\n";
    assert_eq!(parser.parse(Lexer::new(source, "a/b.s")), parse(source));
    assert_eq!(Parser::default(), parser);
    assert!(parser.parse(Lexer::new(source, "a/b.s")).is_ok());
}

#[test]
fn tokens_made_by_hand_are_parsed() {
    let at = |token: Token| Spanned { start: 0, token, end: 0 };
    let tokens = vec![
        at(Token::TextSection),
        at(Token::GlobalSection),
        at(Token::Identifier("main".to_string())),
        at(Token::Instruction("jr".to_string())),
        at(Token::Register("$ra".to_string())),
    ];
    let program: Program = parse_tokens(&tokens).unwrap();
    assert_eq!(program.text_section.statements, vec![Statement::Instruction(Instruction::Jr(vec![r("$ra")]))]);
}

#[test]
fn instruction_token_with_an_unknown_name_is_refused() {
    let tokens = vec![
        Spanned { start: 0, token: Token::TextSection, end: 5 },
        Spanned { start: 6, token: Token::GlobalSection, end: 12 },
        Spanned { start: 13, token: Token::Identifier("main".to_string()), end: 17 },
        Spanned { start: 18, token: Token::Instruction("nop".to_string()), end: 21 },
    ];
    match parse_tokens(&tokens) {
        Err(ParseError::UnrecognizedToken { token, expected }) => {
            assert_eq!(token, tokens[3]);
            assert_eq!(expected, vec![TokenKind::Label, TokenKind::Instruction]);
        }
        other => panic!("unexpected outcome: {:?}", other),
    }
}

#[test]
fn no_tree_is_built_on_an_error() {
    assert!(parse(".text .globl main\nsyscall\nadd $t0").is_err());
}
