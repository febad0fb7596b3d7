use celestial_hub_astrolabe::ast::Program;
use celestial_hub_astrolabe::lexer::tokenize;
use celestial_hub_astrolabe::lexer::tokens::Token;
use celestial_hub_astrolabe::parser::parse;
use celestial_hub_astrolabe::parser::ParseError;
use celestial_hub_astrolabe::roundtrip::reformat;

fn round_trip(source: &str) -> Program {
    let program = parse(source).unwrap();
    let text = program.to_string();
    assert_eq!(parse(&text).unwrap(), program, "{}", text);
    assert_eq!(parse(&text).unwrap().to_string(), text);
    program
}

#[test]
fn round_trip_of_the_smallest_program() {
    let program = round_trip(".text .global x");
    assert_eq!(program.to_string(), ".data\n\n\t.text\n\t.globl x\n");
}

#[test]
fn round_trip_of_every_form() {
    round_trip(
        ".data
         greeting: .asciiz \"Hello; world: $t0, (x)\"
         buffer: .space 0x40
         .text
         .global main
         main:
            li $v0, 4
            li $v0, EXIT
            la $a0, greeting
            move $t0, $a0
            lw $t1, 0($sp)
            sw $t1, 4($sp)
            add $t0, $t1, $t2
            sub $t0, $t1, $t2
            addi $t0, $t0, -1
            andi $t0, $t0, 0xFF
            slt $t0, $t1, $t2
            sle $t0, $t1, $t2
            sgt $t0, $t1, $t2
            sge $t0, $t1, $t2
            seq $t0, $t1, $t2
            sne $t0, $t1, $t2
         loop:
            beq $t0, $t1, done
            bne $t0, $t1, done
            blt $t0, $t1, done
            bgt $t0, $t1, done
            ble $t0, $t1, done
            bge $t0, $t1, done
            beqz $t0, done
            bnez $t0, done
            bltz $t0, done
            bgtz $t0, done
            blez $t0, done
            bgez $t0, done
            j loop
            jal helper
         done:
            jr $ra
            syscall ; the end
        ",
    );
}

#[test]
fn round_trip_keeps_names_that_look_like_keywords() {
    let program = round_trip(".text .globl data\ndata: text:\nj global\nli $t0, asciiz");
    assert_eq!(program.text_section.entrypoint, "data");
}

#[test]
fn round_trip_of_a_label_named_like_a_mnemonic() {
    let program = round_trip(".data\nadd: .space 4\n.text .globl main\nsyscall:\nsyscall");
    assert_eq!(program.data_section.variables[0].name, "add");
}

#[test]
fn round_trip_of_numbers_at_the_limits() {
    round_trip(".data\nz: .space 0\nm: .space 4294967295\n.text .globl main\nli $t0, -1\nli $t1, -2147483648");
}

#[test]
fn printed_text_is_canonical() {
    let program = parse("  .text\t.global  main ; entry\n main:  lw   $t0 ,8( $sp )\n").unwrap();
    assert_eq!(program.to_string(), ".data\n\n\t.text\n\t.globl main\nmain:\n\tlw $t0, 8($sp)");
}

#[test]
fn round_trip_keeps_every_offset() {
    let program = round_trip(".text .globl main\nlw $t0, 4($t1)\nsw $t0, 8($t1)\nlw $t0, 0($t1)\nsw $t0, -8($sp)");
    assert_eq!(
        program.to_string(),
        ".data\n\n\t.text\n\t.globl main\n\tlw $t0, 4($t1)\n\tsw $t0, 8($t1)\n\tlw $t0, 0($t1)\n\tsw $t0, 4294967288($sp)"
    );
}

#[test]
fn printed_number_is_read_back() {
    for n in [0u32, 1, 9, 10, 99, 100, 26, 2147483648, 4294967291, u32::MAX] {
        let text = celestial_hub_astrolabe::ast::InstructionArgument::Immediate(n).to_string();
        let tokens = tokenize(&text).unwrap();
        assert_eq!(tokens.len(), 1);
        assert_eq!(tokens[0].token, Token::Number(n));
        assert_eq!((tokens[0].start, tokens[0].end), (0, text.len()));
    }
}

#[test]
fn reformat_writes_the_canonical_text() {
    let text = reformat(".text .global main main: add $t0,$t1,$t2 ; sum").unwrap();
    assert_eq!(text, ".data\n\n\t.text\n\t.globl main\nmain:\n\tadd $t0, $t1, $t2");
    assert_eq!(reformat(&text).unwrap(), text);
}

#[test]
fn reformat_passes_the_error_on() {
    assert_eq!(reformat("li $t0, 1 !"), Err(ParseError::InvalidToken { location: 10 }));
    assert!(matches!(reformat(".data"), Err(ParseError::UnexpectedEnd { .. })));
}
