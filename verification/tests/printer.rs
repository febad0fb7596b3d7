use celestial_hub_astrolabe::ast::to_string::write_args;
use celestial_hub_astrolabe::ast::DataSection;
use celestial_hub_astrolabe::ast::Instruction;
use celestial_hub_astrolabe::ast::InstructionArgument;
use celestial_hub_astrolabe::ast::Operand;
use celestial_hub_astrolabe::ast::Program;
use celestial_hub_astrolabe::ast::Register;
use celestial_hub_astrolabe::ast::Statement;
use celestial_hub_astrolabe::ast::TextSection;
use celestial_hub_astrolabe::ast::Variable;
use celestial_hub_astrolabe::lexer::tokens::Type;
use celestial_hub_astrolabe::lexer::tokens::Value;
use celestial_hub_astrolabe::mnemonic::mnemonic_named;
use celestial_hub_astrolabe::mnemonic::Mnemonic;

fn r(name: &str) -> InstructionArgument {
    InstructionArgument::Register(Register { name: name.to_string() })
}

fn imm(n: u32) -> InstructionArgument {
    InstructionArgument::Immediate(n)
}

fn label(name: &str) -> InstructionArgument {
    InstructionArgument::Label(name.to_string())
}

#[test]
fn operands_print_as_their_text() {
    assert_eq!(r("$t0").to_string(), "$t0");
    assert_eq!(label("loop").to_string(), "loop");
    assert_eq!(InstructionArgument::Literal("SIZE".to_string()).to_string(), "SIZE");
}

#[test]
fn immediates_print_as_decimal_numerals() {
    assert_eq!(imm(0).to_string(), "0");
    assert_eq!(imm(9).to_string(), "9");
    assert_eq!(imm(10).to_string(), "10");
    assert_eq!(imm(26).to_string(), "26");
    assert_eq!(imm(1000).to_string(), "1000");
    assert_eq!(imm(u32::MAX).to_string(), "4294967295");
}

#[test]
fn operands_are_joined_by_comma_and_space() {
    assert_eq!(write_args(&[]), "");
    assert_eq!(write_args(&[r("$t0")]), "$t0");
    assert_eq!(write_args(&[r("$t0"), imm(5)]), "$t0, 5");
    assert_eq!(write_args(&[r("$t0"), r("$t1"), label("x")]), "$t0, $t1, x");
}

#[test]
fn instructions_print_mnemonic_and_operands() {
    assert_eq!(Instruction::Syscall.to_string(), "syscall");
    assert_eq!(Instruction::Li(vec![r("$t0"), imm(5)]).to_string(), "li $t0, 5");
    assert_eq!(Instruction::Add(vec![r("$t1"), r("$t0"), r("$t0")]).to_string(), "add $t1, $t0, $t0");
    assert_eq!(Instruction::J(vec![label("loop")]).to_string(), "j loop");
    assert_eq!(Instruction::SetEq(vec![r("$a"), r("$b"), r("$c")]).to_string(), "seq $a, $b, $c");
    assert_eq!(Instruction::Bnez(vec![r("$a"), label("l")]).to_string(), "bnez $a, l");
}

#[test]
fn memory_instructions_print_a_memory_reference() {
    let at = |text: &str| InstructionArgument::Literal(text.to_string());
    assert_eq!(Instruction::Sw(vec![r("$t0"), at("0($t1)")]).to_string(), "sw $t0, 0($t1)");
    assert_eq!(Instruction::Sw(vec![r("$t0"), at("8($t1)")]).to_string(), "sw $t0, 8($t1)");
    assert_eq!(Instruction::Lw(vec![r("$t0"), at("4($sp)")]).to_string(), "lw $t0, 4($sp)");
}

#[test]
fn statements_print_on_their_own() {
    assert_eq!(Statement::Label("main".to_string()).to_string(), "main:");
    assert_eq!(Statement::Instruction(Instruction::Syscall).to_string(), "\tsyscall");
    assert_eq!(Statement::Instruction(Instruction::Jr(vec![r("$ra")])).to_string(), "\tjr $ra");
}

#[test]
fn variables_print_name_directive_and_value() {
    let text = Variable { name: "msg".to_string(), value: Value::String("hi there".to_string()) };
    assert_eq!(text.to_string(), "msg: .asciiz \"hi there\"");
    assert_eq!(text.type_(), Type::Asciiz);
    let bytes = Variable { name: "buf".to_string(), value: Value::Bytes(128) };
    assert_eq!(bytes.to_string(), "buf: .space 128");
    assert_eq!(bytes.type_(), Type::Space);
}

#[test]
fn data_section_prints_a_line_for_each_variable() {
    assert_eq!(DataSection::default().to_string(), ".data\n");
    let one = DataSection { variables: vec![Variable { name: "a".to_string(), value: Value::Bytes(1) }] };
    assert_eq!(one.to_string(), ".data\na: .space 1\n");
    let two = DataSection {
        variables: vec![
            Variable { name: "a".to_string(), value: Value::Bytes(1) },
            Variable { name: "b".to_string(), value: Value::String(String::new()) },
        ],
    };
    assert_eq!(two.to_string(), ".data\na: .space 1\nb: .asciiz \"\"\n");
}

#[test]
fn text_section_prints_headers_and_statements() {
    let empty = TextSection::default();
    assert_eq!(empty.entrypoint, "main");
    assert_eq!(empty.statements, vec![]);
    assert_eq!(empty.to_string(), "\t.text\n\t.globl main\n");
    let section = TextSection {
        statements: vec![
            Statement::Label("start".to_string()),
            Statement::Instruction(Instruction::Syscall),
        ],
        entrypoint: "start".to_string(),
    };
    assert_eq!(section.to_string(), "\t.text\n\t.globl start\nstart:\n\tsyscall");
}

#[test]
fn program_prints_both_sections() {
    let program = Program { data_section: DataSection::default(), text_section: TextSection::default() };
    assert_eq!(program.to_string(), ".data\n\n\t.text\n\t.globl main\n");
}

#[test]
fn instruction_of_every_name() {
    let args = vec![r("$t0")];
    assert_eq!(Instruction::new("li".to_string(), args.clone()), Instruction::Li(args.clone()));
    assert_eq!(Instruction::new("la".to_string(), args.clone()), Instruction::La(args.clone()));
    assert_eq!(Instruction::new("move".to_string(), args.clone()), Instruction::Move(args.clone()));
    assert_eq!(Instruction::new("jal".to_string(), args.clone()), Instruction::Jal(args.clone()));
    assert_eq!(Instruction::new("sub".to_string(), args.clone()), Instruction::Sub(args.clone()));
    assert_eq!(Instruction::new("add".to_string(), args.clone()), Instruction::Add(args.clone()));
    assert_eq!(Instruction::new("jr".to_string(), args.clone()), Instruction::Jr(args.clone()));
    assert_eq!(Instruction::new("addi".to_string(), args.clone()), Instruction::Addi(args.clone()));
    assert_eq!(Instruction::new("andi".to_string(), args.clone()), Instruction::Andi(args.clone()));
    assert_eq!(Instruction::new("j".to_string(), args.clone()), Instruction::J(args.clone()));
    assert_eq!(Instruction::new("sw".to_string(), args.clone()), Instruction::Sw(args.clone()));
    assert_eq!(Instruction::new("lw".to_string(), args.clone()), Instruction::Lw(args.clone()));
    assert_eq!(Instruction::new("slt".to_string(), args.clone()), Instruction::Slt(args.clone()));
    assert_eq!(Instruction::new("sle".to_string(), args.clone()), Instruction::Sle(args.clone()));
    assert_eq!(Instruction::new("sgt".to_string(), args.clone()), Instruction::Sgt(args.clone()));
    assert_eq!(Instruction::new("sge".to_string(), args.clone()), Instruction::Sge(args.clone()));
    assert_eq!(Instruction::new("seq".to_string(), args.clone()), Instruction::SetEq(args.clone()));
    assert_eq!(Instruction::new("sne".to_string(), args.clone()), Instruction::Sne(args.clone()));
    assert_eq!(Instruction::new("beqz".to_string(), args.clone()), Instruction::Beqz(args.clone()));
    assert_eq!(Instruction::new("bnez".to_string(), args.clone()), Instruction::Bnez(args.clone()));
    assert_eq!(Instruction::new("bltz".to_string(), args.clone()), Instruction::Bltz(args.clone()));
    assert_eq!(Instruction::new("bgtz".to_string(), args.clone()), Instruction::Bgtz(args.clone()));
    assert_eq!(Instruction::new("blez".to_string(), args.clone()), Instruction::Blez(args.clone()));
    assert_eq!(Instruction::new("bgez".to_string(), args.clone()), Instruction::Bgez(args.clone()));
    assert_eq!(Instruction::new("blt".to_string(), args.clone()), Instruction::Blt(args.clone()));
    assert_eq!(Instruction::new("bgt".to_string(), args.clone()), Instruction::Bgt(args.clone()));
    assert_eq!(Instruction::new("ble".to_string(), args.clone()), Instruction::Ble(args.clone()));
    assert_eq!(Instruction::new("bge".to_string(), args.clone()), Instruction::Bge(args.clone()));
    assert_eq!(Instruction::new("beq".to_string(), args.clone()), Instruction::Beq(args.clone()));
    assert_eq!(Instruction::new("bne".to_string(), args.clone()), Instruction::Bne(args));
}

#[test]
fn syscall_takes_no_operands() {
    assert_eq!(Instruction::new("syscall".to_string(), vec![r("$t0")]), Instruction::Syscall);
    assert_eq!(Instruction::with_mnemonic(Mnemonic::Syscall, vec![imm(1)]), Instruction::Syscall);
    assert_eq!(Instruction::Syscall.args(), None);
    assert_eq!(Instruction::Syscall.mnemonic(), Mnemonic::Syscall);
}

#[test]
fn instruction_gives_its_parts() {
    let i = Instruction::with_mnemonic(Mnemonic::Blt, vec![r("$a"), r("$b"), label("c")]);
    assert_eq!(i, Instruction::Blt(vec![r("$a"), r("$b"), label("c")]));
    assert_eq!(i.mnemonic(), Mnemonic::Blt);
    assert_eq!(i.args(), Some(&vec![r("$a"), r("$b"), label("c")]));
}

#[test]
fn mnemonics_are_found_by_name() {
    assert_eq!(mnemonic_named("seq"), Some(Mnemonic::SetEq));
    assert_eq!(mnemonic_named("bnez"), Some(Mnemonic::Bnez));
    assert_eq!(mnemonic_named("j"), Some(Mnemonic::J));
    assert_eq!(mnemonic_named("jal"), Some(Mnemonic::Jal));
    assert_eq!(mnemonic_named("ja"), None);
    assert_eq!(mnemonic_named(""), None);
    assert_eq!(mnemonic_named("ADD"), None);
    assert_eq!(mnemonic_named("mul"), None);
    assert_eq!(Mnemonic::SetEq.name(), "seq");
    assert_eq!(Mnemonic::Syscall.name(), "syscall");
}

#[test]
fn operand_with_signed_immediate_is_plain_data() {
    assert_eq!(Operand::Immediate(-1), Operand::Immediate(-1));
    assert_ne!(Operand::Label("a".to_string()), Operand::Register(Register { name: "a".to_string() }));
}
