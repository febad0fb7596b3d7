use celestial_hub_astrolabe::ast::DataSection;
use celestial_hub_astrolabe::ast::Instruction;
use celestial_hub_astrolabe::ast::InstructionArgument;
use celestial_hub_astrolabe::ast::Program;
use celestial_hub_astrolabe::ast::Register;
use celestial_hub_astrolabe::ast::Statement;
use celestial_hub_astrolabe::ast::TextSection;
use celestial_hub_astrolabe::ast::Variable;
use celestial_hub_astrolabe::canonical::has_distinct_names;
use celestial_hub_astrolabe::canonical::is_name_text;
use celestial_hub_astrolabe::canonical::is_plain_text;
use celestial_hub_astrolabe::canonical::is_register_text;
use celestial_hub_astrolabe::canonical::is_word_text;
use celestial_hub_astrolabe::lexer::tokenize;
use celestial_hub_astrolabe::memory::memory_reference_text;
use celestial_hub_astrolabe::memory::read_memory_reference;
use celestial_hub_astrolabe::lexer::tokens::Token;
use celestial_hub_astrolabe::lexer::tokens::Value;
use celestial_hub_astrolabe::parser::parse;
use celestial_hub_astrolabe::parser::Piece;

fn r(name: &str) -> InstructionArgument {
    InstructionArgument::Register(Register { name: name.to_string() })
}

fn program(variables: Vec<Variable>, statements: Vec<Statement>, entrypoint: &str) -> Program {
    Program {
        data_section: DataSection { variables },
        text_section: TextSection { statements, entrypoint: entrypoint.to_string() },
    }
}

#[test]
fn shapes_of_names() {
    assert!(is_word_text("main") && is_word_text("_x1") && is_word_text("add") && is_word_text("A"));
    assert!(!is_word_text("") && !is_word_text("1x") && !is_word_text("a-b") && !is_word_text("a b"));
    assert!(is_name_text("main") && !is_name_text("add") && !is_name_text("syscall") && !is_name_text("$t0"));
    assert!(is_register_text("$t0") && is_register_text("$0") && is_register_text("$zero"));
    assert!(!is_register_text("$") && !is_register_text("t0") && !is_register_text("$T0") && !is_register_text("$t_0"));
    assert!(is_plain_text("") && is_plain_text("a b\nc") && !is_plain_text("say \"hi\""));
}

#[test]
fn operands_fit_their_pieces() {
    assert!(r("$t0").fits(Piece::Register));
    assert!(!r("t0").fits(Piece::Register));
    assert!(!r("$t0").fits(Piece::Target));
    assert!(InstructionArgument::Immediate(1).fits(Piece::Immediate));
    assert!(InstructionArgument::Immediate(1).fits(Piece::Value));
    assert!(!InstructionArgument::Immediate(1).fits(Piece::Register));
    assert!(InstructionArgument::Label("l".to_string()).fits(Piece::Target));
    assert!(!InstructionArgument::Label("l".to_string()).fits(Piece::Value));
    assert!(!InstructionArgument::Label("add".to_string()).fits(Piece::Target));
    assert!(InstructionArgument::Literal("l".to_string()).fits(Piece::Value));
    assert!(InstructionArgument::Literal("l".to_string()).fits(Piece::Name));
    assert!(!InstructionArgument::Literal("l".to_string()).fits(Piece::Target));
    assert!(!r("$t0").fits(Piece::Comma));
}

#[test]
fn instructions_with_the_right_operands_are_canonical() {
    assert!(Instruction::Syscall.is_canonical());
    assert!(Instruction::Add(vec![r("$a"), r("$b"), r("$c")]).is_canonical());
    assert!(Instruction::Lw(vec![r("$a"), InstructionArgument::Literal("12($b)".to_string())]).is_canonical());
    assert!(Instruction::Sw(vec![r("$a"), InstructionArgument::Literal("0($sp)".to_string())]).is_canonical());
    assert!(Instruction::Li(vec![r("$a"), InstructionArgument::Immediate(3)]).is_canonical());
    assert!(Instruction::J(vec![InstructionArgument::Label("x".to_string())]).is_canonical());
}

#[test]
fn instructions_with_other_operands_are_not_canonical() {
    assert!(!Instruction::Add(vec![r("$a"), r("$b")]).is_canonical());
    assert!(!Instruction::Add(vec![r("$a"), r("$b"), r("$c"), r("$d")]).is_canonical());
    assert!(!Instruction::Add(vec![r("$a"), r("$b"), InstructionArgument::Immediate(1)]).is_canonical());
    assert!(!Instruction::Add(vec![]).is_canonical());
    assert!(!Instruction::Lw(vec![r("$a"), InstructionArgument::Immediate(0), r("$b")]).is_canonical());
    assert!(!Instruction::Lw(vec![r("$a"), r("$b")]).is_canonical());
    assert!(!Instruction::Lw(vec![r("a"), InstructionArgument::Literal("0($b)".to_string())]).is_canonical());
    assert!(!Instruction::Lw(vec![r("$a"), InstructionArgument::Literal("00($b)".to_string())]).is_canonical());
    assert!(!Instruction::Lw(vec![r("$a"), InstructionArgument::Literal("x($b)".to_string())]).is_canonical());
    assert!(!Instruction::Lw(vec![r("$a"), InstructionArgument::Label("0($b)".to_string())]).is_canonical());
    assert!(!Instruction::J(vec![InstructionArgument::Literal("x".to_string())]).is_canonical());
    assert!(!Instruction::Jr(vec![r("ra")]).is_canonical());
}

#[test]
fn every_tree_is_printed() {
    let odd = Instruction::Add(vec![r("$a")]);
    assert!(!odd.is_canonical());
    assert_eq!(odd.to_string(), "add $a");
    assert_eq!(Instruction::Sw(vec![r("$a")]).to_string(), "sw $a");
    assert_eq!(Instruction::Lw(vec![]).to_string(), "lw ");
    assert_eq!(Instruction::Lw(vec![r("a"), r("b")]).to_string(), "lw a, b");
    assert_eq!(Statement::Label("not a word".to_string()).to_string(), "not a word:");
}

#[test]
fn memory_reference_is_made_and_taken_apart() {
    assert_eq!(memory_reference_text(8, "$sp"), "8($sp)");
    assert_eq!(memory_reference_text(0, "$t1"), "0($t1)");
    assert_eq!(memory_reference_text(u32::MAX, "$0"), "4294967295($0)");
    assert_eq!(read_memory_reference("8($sp)"), Some((8, "$sp".to_string())));
    assert_eq!(read_memory_reference("0($t1)"), Some((0, "$t1".to_string())));
    assert_eq!(read_memory_reference("120($a0)"), Some((120, "$a0".to_string())));
    assert_eq!(read_memory_reference("4294967295($0)"), Some((u32::MAX, "$0".to_string())));
    for text in [
        "", "8", "($sp)", "8($sp", "8$sp)", "8(sp)", "8($)", "8($SP)", "08($sp)", "00($sp)",
        "4294967296($sp)", "8 ($sp)", "8($sp) ", "-8($sp)", "0x8($sp)", "8($sp)x", "8(($sp)", "8($s p)",
    ] {
        assert_eq!(read_memory_reference(text), None, "{:?}", text);
    }
}

#[test]
fn statements_and_variables() {
    assert!(Statement::Label("add".to_string()).is_canonical());
    assert!(!Statement::Label("1st".to_string()).is_canonical());
    assert!(Variable { name: "v".to_string(), value: Value::Bytes(0) }.is_canonical());
    assert!(Variable { name: "v".to_string(), value: Value::String("x".to_string()) }.is_canonical());
    assert!(!Variable { name: "v".to_string(), value: Value::String("\"".to_string()) }.is_canonical());
    assert!(!Variable { name: "".to_string(), value: Value::Bytes(0) }.is_canonical());
}

#[test]
fn names_must_differ() {
    let v = |name: &str| Variable { name: name.to_string(), value: Value::Bytes(1) };
    assert!(has_distinct_names(&vec![]));
    assert!(has_distinct_names(&vec![v("a"), v("b"), v("c")]));
    assert!(!has_distinct_names(&vec![v("a"), v("b"), v("a")]));
    assert!(!has_distinct_names(&vec![v("a"), v("a")]));
}

#[test]
fn parsed_programs_are_canonical() {
    let p = parse(".data\nx: .space 4\n.text .globl main\nmain: lw $t0, 0($gp)\nj main").unwrap();
    assert!(p.is_canonical());
}

#[test]
fn programs_made_by_hand_may_not_be_canonical() {
    let good = program(vec![], vec![Statement::Instruction(Instruction::Syscall)], "main");
    assert!(good.is_canonical());
    assert_eq!(parse(&good.to_string()).unwrap(), good);
    let bad_entry = program(vec![], vec![], "add");
    assert!(!bad_entry.is_canonical());
    assert!(parse(&bad_entry.to_string()).is_err());
    let v = |name: &str| Variable { name: name.to_string(), value: Value::Bytes(1) };
    assert!(!program(vec![v("a"), v("a")], vec![], "main").is_canonical());
    assert!(!program(vec![v("a b")], vec![], "main").is_canonical());
    let bad_statement = program(vec![], vec![Statement::Instruction(Instruction::Jr(vec![]))], "main");
    assert!(!bad_statement.is_canonical());
    let without_reference = program(vec![], vec![Statement::Instruction(Instruction::Sw(vec![]))], "main");
    assert!(!without_reference.is_canonical());
}

#[test]
fn tokens_of_the_lexer_are_well_formed() {
    for t in tokenize("add x: $t0 y 5 \"s\" .data , (").unwrap() {
        assert!(t.token.is_well_formed(), "{:?}", t.token);
    }
    assert!(!Token::Instruction("nop".to_string()).is_well_formed());
    assert!(!Token::Identifier("add".to_string()).is_well_formed());
    assert!(!Token::Identifier("a b".to_string()).is_well_formed());
    assert!(!Token::Register("t0".to_string()).is_well_formed());
    assert!(!Token::Label("".to_string()).is_well_formed());
    assert!(!Token::String("\"".to_string()).is_well_formed());
    assert!(Token::Label("add".to_string()).is_well_formed());
    assert!(Token::Number(7).is_well_formed());
}
