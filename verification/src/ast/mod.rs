//! The syntax tree of a program.
//!
//! A program owns a data section, which lists its variables in the order of
//! their layout, and a text section, which lists its statements and names
//! its entry point. Each type has a view that holds its strings as sequences
//! of characters and its vectors as sequences; the contracts of the lexer,
//! the parser and the printer speak of these views.

pub mod to_string;

use vstd::prelude::*;
use vstd::string::StringExecFns;

use crate::lexer::tokens::Type;
use crate::lexer::tokens::type_of_value;
use crate::lexer::tokens::Value;
use crate::lexer::tokens::ValueView;
use crate::mnemonic::is_mnemonic;
use crate::mnemonic::lemma_mnemonic_spelled;
use crate::mnemonic::mnemonic_text;
use crate::mnemonic::Mnemonic;
use crate::mnemonic::mnemonic_named;
use crate::mnemonic::mnemonic_of;

verus! {

/// A range of byte offsets in the source.
pub type Location = std::ops::Range<usize>;

/// A whole program: its data section and its text section.
#[derive(Clone, Debug, PartialEq)]
pub struct Program {
    pub data_section: DataSection,
    pub text_section: TextSection,
}

/// The variables of a program, in the order of their layout.
#[derive(Clone, Debug, PartialEq)]
pub struct DataSection {
    pub variables: Vec<Variable>,
}

/// The statements of a program in their order, and the name of the label at
/// which execution starts.
#[derive(Clone, Debug, PartialEq)]
pub struct TextSection {
    pub statements: Vec<Statement>,
    pub entrypoint: String,
}

/// A variable of the data section. Its type is that of its value.
#[derive(Clone, Debug, PartialEq)]
pub struct Variable {
    pub name: String,
    pub value: Value,
}

/// A statement of the text section. A label marks the place of the
/// statement that follows it.
#[derive(Clone, Debug, PartialEq)]
pub enum Statement {
    Instruction(Instruction),
    Label(String),
}

/// An instruction with its operands, one variant for each mnemonic.
#[derive(Clone, Debug, PartialEq)]
pub enum Instruction {
    /// Load immediate: `li $t0, 5`.
    Li(Vec<InstructionArgument>),
    /// Load address: `la $a0, msg`.
    La(Vec<InstructionArgument>),
    /// System call, without operands.
    Syscall,
    /// Copy a register: `move $t0, $t1`.
    Move(Vec<InstructionArgument>),
    /// Jump and link: `jal label`.
    Jal(Vec<InstructionArgument>),
    /// Subtract: `sub $t0, $t1, $t2`.
    Sub(Vec<InstructionArgument>),
    /// Add: `add $t0, $t1, $t2`.
    Add(Vec<InstructionArgument>),
    /// Jump to the address in a register: `jr $ra`.
    Jr(Vec<InstructionArgument>),
    /// Add an immediate: `addi $t0, $t1, 4`.
    Addi(Vec<InstructionArgument>),
    /// Bitwise and with an immediate: `andi $t0, $t1, 255`.
    Andi(Vec<InstructionArgument>),
    /// Jump: `j label`.
    J(Vec<InstructionArgument>),
    /// Store word: `sw $t0, 0($t1)`.
    Sw(Vec<InstructionArgument>),
    /// Load word: `lw $t0, 0($t1)`.
    Lw(Vec<InstructionArgument>),
    /// Set if less than: `slt $t0, $t1, $t2`.
    Slt(Vec<InstructionArgument>),
    /// Set if less than or equal: `sle $t0, $t1, $t2`.
    Sle(Vec<InstructionArgument>),
    /// Set if greater than: `sgt $t0, $t1, $t2`.
    Sgt(Vec<InstructionArgument>),
    /// Set if greater than or equal: `sge $t0, $t1, $t2`.
    Sge(Vec<InstructionArgument>),
    /// Set if equal: `seq $t0, $t1, $t2`.
    SetEq(Vec<InstructionArgument>),
    /// Set if not equal: `sne $t0, $t1, $t2`.
    Sne(Vec<InstructionArgument>),
    /// Branch if zero: `beqz $t0, label`.
    Beqz(Vec<InstructionArgument>),
    /// Branch if not zero: `bnez $t0, label`.
    Bnez(Vec<InstructionArgument>),
    /// Branch if less than zero: `bltz $t0, label`.
    Bltz(Vec<InstructionArgument>),
    /// Branch if greater than zero: `bgtz $t0, label`.
    Bgtz(Vec<InstructionArgument>),
    /// Branch if less than or equal to zero: `blez $t0, label`.
    Blez(Vec<InstructionArgument>),
    /// Branch if greater than or equal to zero: `bgez $t0, label`.
    Bgez(Vec<InstructionArgument>),
    /// Branch if less than: `blt $t0, $t1, label`.
    Blt(Vec<InstructionArgument>),
    /// Branch if greater than: `bgt $t0, $t1, label`.
    Bgt(Vec<InstructionArgument>),
    /// Branch if less than or equal: `ble $t0, $t1, label`.
    Ble(Vec<InstructionArgument>),
    /// Branch if greater than or equal: `bge $t0, $t1, label`.
    Bge(Vec<InstructionArgument>),
    /// Branch if equal: `beq $t0, $t1, label`.
    Beq(Vec<InstructionArgument>),
    /// Branch if not equal: `bne $t0, $t1, label`.
    Bne(Vec<InstructionArgument>),
}

/// An operand of an instruction.
#[derive(Clone, Debug, PartialEq)]
pub enum InstructionArgument {
    /// A register.
    Register(Register),
    /// A number.
    Immediate(u32),
    /// The name of a label.
    Label(String),
    /// A name that stands for a value and is no label.
    Literal(String),
}

/// A register, known by its name, which starts with `$`.
#[derive(Clone, Debug, PartialEq)]
pub struct Register {
    pub name: String,
}

/// An operand with a signed immediate.
#[derive(Clone, Debug, PartialEq)]
pub enum Operand {
    Immediate(i32),
    Register(Register),
    Label(String),
}

impl View for Register {
    type V = Seq<char>;

    open spec fn view(&self) -> Seq<char> {
        self.name@
    }
}

/// An `InstructionArgument` with its names as sequences of characters.
pub ghost enum ArgumentView {
    Register(Seq<char>),
    Immediate(u32),
    Label(Seq<char>),
    Literal(Seq<char>),
}

impl View for InstructionArgument {
    type V = ArgumentView;

    open spec fn view(&self) -> ArgumentView {
        match self {
            InstructionArgument::Register(r) => ArgumentView::Register(r@),
            InstructionArgument::Immediate(n) => ArgumentView::Immediate(*n),
            InstructionArgument::Label(l) => ArgumentView::Label(l@),
            InstructionArgument::Literal(l) => ArgumentView::Literal(l@),
        }
    }
}

/// The views of a sequence of operands.
pub open spec fn argument_views(args: Seq<InstructionArgument>) -> Seq<ArgumentView> {
    args.map_values(|a: InstructionArgument| a@)
}

/// An `Instruction` as its mnemonic and the views of its operands.
pub ghost struct InstructionView {
    pub mnemonic: Mnemonic,
    pub args: Seq<ArgumentView>,
}

impl Instruction {
    /// The mnemonic of the instruction.
    pub open spec fn spec_mnemonic(&self) -> Mnemonic {
        match self {
            Instruction::Li(_) => Mnemonic::Li,
            Instruction::La(_) => Mnemonic::La,
            Instruction::Syscall => Mnemonic::Syscall,
            Instruction::Move(_) => Mnemonic::Move,
            Instruction::Jal(_) => Mnemonic::Jal,
            Instruction::Sub(_) => Mnemonic::Sub,
            Instruction::Add(_) => Mnemonic::Add,
            Instruction::Jr(_) => Mnemonic::Jr,
            Instruction::Addi(_) => Mnemonic::Addi,
            Instruction::Andi(_) => Mnemonic::Andi,
            Instruction::J(_) => Mnemonic::J,
            Instruction::Sw(_) => Mnemonic::Sw,
            Instruction::Lw(_) => Mnemonic::Lw,
            Instruction::Slt(_) => Mnemonic::Slt,
            Instruction::Sle(_) => Mnemonic::Sle,
            Instruction::Sgt(_) => Mnemonic::Sgt,
            Instruction::Sge(_) => Mnemonic::Sge,
            Instruction::SetEq(_) => Mnemonic::SetEq,
            Instruction::Sne(_) => Mnemonic::Sne,
            Instruction::Beqz(_) => Mnemonic::Beqz,
            Instruction::Bnez(_) => Mnemonic::Bnez,
            Instruction::Bltz(_) => Mnemonic::Bltz,
            Instruction::Bgtz(_) => Mnemonic::Bgtz,
            Instruction::Blez(_) => Mnemonic::Blez,
            Instruction::Bgez(_) => Mnemonic::Bgez,
            Instruction::Blt(_) => Mnemonic::Blt,
            Instruction::Bgt(_) => Mnemonic::Bgt,
            Instruction::Ble(_) => Mnemonic::Ble,
            Instruction::Bge(_) => Mnemonic::Bge,
            Instruction::Beq(_) => Mnemonic::Beq,
            Instruction::Bne(_) => Mnemonic::Bne,
        }
    }

    /// The operands of the instruction; `syscall` has none.
    pub open spec fn spec_args(&self) -> Seq<InstructionArgument> {
        match self {
            Instruction::Li(args) => args@,
            Instruction::La(args) => args@,
            Instruction::Syscall => Seq::empty(),
            Instruction::Move(args) => args@,
            Instruction::Jal(args) => args@,
            Instruction::Sub(args) => args@,
            Instruction::Add(args) => args@,
            Instruction::Jr(args) => args@,
            Instruction::Addi(args) => args@,
            Instruction::Andi(args) => args@,
            Instruction::J(args) => args@,
            Instruction::Sw(args) => args@,
            Instruction::Lw(args) => args@,
            Instruction::Slt(args) => args@,
            Instruction::Sle(args) => args@,
            Instruction::Sgt(args) => args@,
            Instruction::Sge(args) => args@,
            Instruction::SetEq(args) => args@,
            Instruction::Sne(args) => args@,
            Instruction::Beqz(args) => args@,
            Instruction::Bnez(args) => args@,
            Instruction::Bltz(args) => args@,
            Instruction::Bgtz(args) => args@,
            Instruction::Blez(args) => args@,
            Instruction::Bgez(args) => args@,
            Instruction::Blt(args) => args@,
            Instruction::Bgt(args) => args@,
            Instruction::Ble(args) => args@,
            Instruction::Bge(args) => args@,
            Instruction::Beq(args) => args@,
            Instruction::Bne(args) => args@,
        }
    }

    /// The instruction of the mnemonic `m` with the operands `args`. A
    /// `syscall` takes no operands, and `args` is dropped for it.
    pub fn with_mnemonic(m: Mnemonic, args: Vec<InstructionArgument>) -> (i: Instruction)
        ensures
            i.spec_mnemonic() == m,
            i.spec_args() == if m == Mnemonic::Syscall {
                Seq::<InstructionArgument>::empty()
            } else {
                args@
            },
    {
        match m {
            Mnemonic::Li => Instruction::Li(args),
            Mnemonic::La => Instruction::La(args),
            Mnemonic::Syscall => Instruction::Syscall,
            Mnemonic::Move => Instruction::Move(args),
            Mnemonic::Jal => Instruction::Jal(args),
            Mnemonic::Sub => Instruction::Sub(args),
            Mnemonic::Add => Instruction::Add(args),
            Mnemonic::Jr => Instruction::Jr(args),
            Mnemonic::Addi => Instruction::Addi(args),
            Mnemonic::Andi => Instruction::Andi(args),
            Mnemonic::J => Instruction::J(args),
            Mnemonic::Sw => Instruction::Sw(args),
            Mnemonic::Lw => Instruction::Lw(args),
            Mnemonic::Slt => Instruction::Slt(args),
            Mnemonic::Sle => Instruction::Sle(args),
            Mnemonic::Sgt => Instruction::Sgt(args),
            Mnemonic::Sge => Instruction::Sge(args),
            Mnemonic::SetEq => Instruction::SetEq(args),
            Mnemonic::Sne => Instruction::Sne(args),
            Mnemonic::Beqz => Instruction::Beqz(args),
            Mnemonic::Bnez => Instruction::Bnez(args),
            Mnemonic::Bltz => Instruction::Bltz(args),
            Mnemonic::Bgtz => Instruction::Bgtz(args),
            Mnemonic::Blez => Instruction::Blez(args),
            Mnemonic::Bgez => Instruction::Bgez(args),
            Mnemonic::Blt => Instruction::Blt(args),
            Mnemonic::Bgt => Instruction::Bgt(args),
            Mnemonic::Ble => Instruction::Ble(args),
            Mnemonic::Bge => Instruction::Bge(args),
            Mnemonic::Beq => Instruction::Beq(args),
            Mnemonic::Bne => Instruction::Bne(args),
        }
    }

    /// The instruction whose mnemonic is spelled `name`, with the operands
    /// `args`. The name must be that of a mnemonic.
    pub fn new(name: String, args: Vec<InstructionArgument>) -> (i: Instruction)
        requires
            is_mnemonic(name@),
        ensures
            Some(i.spec_mnemonic()) == mnemonic_of(name@),
            mnemonic_text(i.spec_mnemonic()) == name@,
            i.spec_args() == if i.spec_mnemonic() == Mnemonic::Syscall {
                Seq::<InstructionArgument>::empty()
            } else {
                args@
            },
    {
        proof {
            lemma_mnemonic_spelled(name@);
        }
        match mnemonic_named(name.as_str()) {
            Some(m) => Instruction::with_mnemonic(m, args),
            None => vstd::pervasive::unreached(),
        }
    }

    /// The mnemonic of the instruction.
    pub fn mnemonic(&self) -> (m: Mnemonic)
        ensures
            m == self.spec_mnemonic(),
    {
        match self {
            Instruction::Li(_) => Mnemonic::Li,
            Instruction::La(_) => Mnemonic::La,
            Instruction::Syscall => Mnemonic::Syscall,
            Instruction::Move(_) => Mnemonic::Move,
            Instruction::Jal(_) => Mnemonic::Jal,
            Instruction::Sub(_) => Mnemonic::Sub,
            Instruction::Add(_) => Mnemonic::Add,
            Instruction::Jr(_) => Mnemonic::Jr,
            Instruction::Addi(_) => Mnemonic::Addi,
            Instruction::Andi(_) => Mnemonic::Andi,
            Instruction::J(_) => Mnemonic::J,
            Instruction::Sw(_) => Mnemonic::Sw,
            Instruction::Lw(_) => Mnemonic::Lw,
            Instruction::Slt(_) => Mnemonic::Slt,
            Instruction::Sle(_) => Mnemonic::Sle,
            Instruction::Sgt(_) => Mnemonic::Sgt,
            Instruction::Sge(_) => Mnemonic::Sge,
            Instruction::SetEq(_) => Mnemonic::SetEq,
            Instruction::Sne(_) => Mnemonic::Sne,
            Instruction::Beqz(_) => Mnemonic::Beqz,
            Instruction::Bnez(_) => Mnemonic::Bnez,
            Instruction::Bltz(_) => Mnemonic::Bltz,
            Instruction::Bgtz(_) => Mnemonic::Bgtz,
            Instruction::Blez(_) => Mnemonic::Blez,
            Instruction::Bgez(_) => Mnemonic::Bgez,
            Instruction::Blt(_) => Mnemonic::Blt,
            Instruction::Bgt(_) => Mnemonic::Bgt,
            Instruction::Ble(_) => Mnemonic::Ble,
            Instruction::Bge(_) => Mnemonic::Bge,
            Instruction::Beq(_) => Mnemonic::Beq,
            Instruction::Bne(_) => Mnemonic::Bne,
        }
    }

    /// The operands of the instruction, or `None` for a `syscall`.
    pub fn args(&self) -> (r: Option<&Vec<InstructionArgument>>)
        ensures
            match r {
                Some(args) => args@ == self.spec_args() && self.spec_mnemonic()
                    != Mnemonic::Syscall,
                None => self.spec_mnemonic() == Mnemonic::Syscall,
            },
    {
        match self {
            Instruction::Li(args) => Some(args),
            Instruction::La(args) => Some(args),
            Instruction::Syscall => None,
            Instruction::Move(args) => Some(args),
            Instruction::Jal(args) => Some(args),
            Instruction::Sub(args) => Some(args),
            Instruction::Add(args) => Some(args),
            Instruction::Jr(args) => Some(args),
            Instruction::Addi(args) => Some(args),
            Instruction::Andi(args) => Some(args),
            Instruction::J(args) => Some(args),
            Instruction::Sw(args) => Some(args),
            Instruction::Lw(args) => Some(args),
            Instruction::Slt(args) => Some(args),
            Instruction::Sle(args) => Some(args),
            Instruction::Sgt(args) => Some(args),
            Instruction::Sge(args) => Some(args),
            Instruction::SetEq(args) => Some(args),
            Instruction::Sne(args) => Some(args),
            Instruction::Beqz(args) => Some(args),
            Instruction::Bnez(args) => Some(args),
            Instruction::Bltz(args) => Some(args),
            Instruction::Bgtz(args) => Some(args),
            Instruction::Blez(args) => Some(args),
            Instruction::Bgez(args) => Some(args),
            Instruction::Blt(args) => Some(args),
            Instruction::Bgt(args) => Some(args),
            Instruction::Ble(args) => Some(args),
            Instruction::Bge(args) => Some(args),
            Instruction::Beq(args) => Some(args),
            Instruction::Bne(args) => Some(args),
        }
    }
}

impl View for Instruction {
    type V = InstructionView;

    open spec fn view(&self) -> InstructionView {
        InstructionView {
            mnemonic: self.spec_mnemonic(),
            args: argument_views(self.spec_args()),
        }
    }
}

/// A `Statement` with the view of what it holds.
pub ghost enum StatementView {
    Instruction(InstructionView),
    Label(Seq<char>),
}

impl View for Statement {
    type V = StatementView;

    open spec fn view(&self) -> StatementView {
        match self {
            Statement::Instruction(i) => StatementView::Instruction(i@),
            Statement::Label(l) => StatementView::Label(l@),
        }
    }
}

/// The views of a sequence of statements.
pub open spec fn statement_views(statements: Seq<Statement>) -> Seq<StatementView> {
    statements.map_values(|s: Statement| s@)
}

/// A `Variable` with the views of its name and of its value.
pub ghost struct VariableView {
    pub name: Seq<char>,
    pub value: ValueView,
}

impl View for Variable {
    type V = VariableView;

    open spec fn view(&self) -> VariableView {
        VariableView { name: self.name@, value: self.value@ }
    }
}

impl Variable {
    /// The type of the variable: that of its value.
    pub fn type_(&self) -> (t: Type)
        ensures
            t == type_of_value(self.value@),
    {
        match &self.value {
            Value::String(_) => Type::Asciiz,
            Value::Bytes(_) => Type::Space,
        }
    }
}

/// The views of a sequence of variables.
pub open spec fn variable_views(variables: Seq<Variable>) -> Seq<VariableView> {
    variables.map_values(|v: Variable| v@)
}

/// A `DataSection` as the views of its variables.
pub ghost struct DataSectionView {
    pub variables: Seq<VariableView>,
}

impl View for DataSection {
    type V = DataSectionView;

    open spec fn view(&self) -> DataSectionView {
        DataSectionView { variables: variable_views(self.variables@) }
    }
}

/// A `TextSection` as the views of its statements and of its entry point.
pub ghost struct TextSectionView {
    pub statements: Seq<StatementView>,
    pub entrypoint: Seq<char>,
}

impl View for TextSection {
    type V = TextSectionView;

    open spec fn view(&self) -> TextSectionView {
        TextSectionView {
            statements: statement_views(self.statements@),
            entrypoint: self.entrypoint@,
        }
    }
}

/// A `Program` as the views of its two sections.
pub ghost struct ProgramView {
    pub data_section: DataSectionView,
    pub text_section: TextSectionView,
}

impl View for Program {
    type V = ProgramView;

    open spec fn view(&self) -> ProgramView {
        ProgramView { data_section: self.data_section@, text_section: self.text_section@ }
    }
}

impl Default for DataSection {
    /// A data section without variables.
    fn default() -> (d: DataSection)
        ensures
            d@.variables == Seq::<VariableView>::empty(),
    {
        let d = DataSection { variables: Vec::new() };
        assert(d@.variables =~= Seq::<VariableView>::empty());
        d
    }
}

impl Default for TextSection {
    /// A text section without statements, whose entry point is `main`.
    fn default() -> (t: TextSection)
        ensures
            t@.statements == Seq::<StatementView>::empty(),
            t@.entrypoint == "main"@,
    {
        let t = TextSection {
            statements: Vec::new(),
            entrypoint: String::from_str("main"),
        };
        assert(t@.statements =~= Seq::<StatementView>::empty());
        t
    }
}

} // verus!
