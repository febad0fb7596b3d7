//! The canonical printer: a program as assembly text.
//!
//! The text starts with the `.data` header; each variable follows on a line
//! of its own as `name: .directive value`, a string in double quotes and a
//! size as a decimal numeral. After an empty line come the `.text` header and
//! the `.globl` line with the entry point, both indented by a tab, and then
//! each statement on a line of its own: a label as `name:`, an instruction
//! indented by a tab, its operands separated by `, `. The second operand of
//! the two instructions that address memory, `lw` and `sw`, is the memory
//! reference, which holds its own text: `sw $t0, 8($t1)`. Every tree can be
//! printed.

use vstd::prelude::*;
use vstd::string::StringExecFns;

use crate::ast::argument_views;
use crate::ast::ArgumentView;
use crate::ast::DataSection;
use crate::ast::Instruction;
use crate::ast::InstructionArgument;
use crate::ast::InstructionView;
use crate::ast::Program;
use crate::ast::ProgramView;
use crate::ast::Statement;
use crate::ast::StatementView;
use crate::ast::TextSection;
use crate::ast::Variable;
use crate::ast::VariableView;
use crate::lexer::tokens::type_of_value;
use crate::lexer::tokens::type_text;
use crate::lexer::tokens::Value;
use crate::lexer::tokens::ValueView;
use crate::mnemonic::Mnemonic;
use crate::mnemonic::mnemonic_text;
use crate::text::dec_text;
use crate::text::push_decimal;

verus! {

/// The text of an operand: a name as it is, a number as a decimal numeral.
pub open spec fn argument_text(a: ArgumentView) -> Seq<char> {
    match a {
        ArgumentView::Register(name) => name,
        ArgumentView::Immediate(n) => dec_text(n as nat),
        ArgumentView::Label(name) => name,
        ArgumentView::Literal(name) => name,
    }
}

/// The texts of the operands, separated by a comma and a space.
pub open spec fn join_arguments(args: Seq<ArgumentView>) -> Seq<char>
    decreases args.len(),
{
    if args.len() == 0 {
        Seq::empty()
    } else if args.len() == 1 {
        argument_text(args[0])
    } else {
        join_arguments(args.drop_last()) + ", "@ + argument_text(args.last())
    }
}

/// Whether the instruction addresses memory: `lw` and `sw` do.
pub open spec fn is_memory_form(m: Mnemonic) -> bool {
    m == Mnemonic::Lw || m == Mnemonic::Sw
}

/// The text of an instruction: the mnemonic and, after a space, the
/// operands; a `syscall` is the mnemonic alone. A memory reference is
/// written as the operand holds it, offset and base register.
pub open spec fn instruction_text(i: InstructionView) -> Seq<char> {
    if i.mnemonic == Mnemonic::Syscall {
        mnemonic_text(i.mnemonic)
    } else {
        mnemonic_text(i.mnemonic) + " "@ + join_arguments(i.args)
    }
}

/// The text of a statement: an instruction after a tab, a label before a
/// colon.
pub open spec fn statement_text(s: StatementView) -> Seq<char> {
    match s {
        StatementView::Instruction(i) => "\t"@ + instruction_text(i),
        StatementView::Label(name) => name + ":"@,
    }
}

/// The statements, each on a new line.
pub open spec fn statement_lines(statements: Seq<StatementView>) -> Seq<char>
    decreases statements.len(),
{
    if statements.len() == 0 {
        Seq::empty()
    } else {
        statement_lines(statements.drop_last()) + "\n"@ + statement_text(statements.last())
    }
}

/// The text of a value: a string in double quotes, a size as a numeral.
pub open spec fn value_text(v: ValueView) -> Seq<char> {
    match v {
        ValueView::String(s) => "\""@ + s + "\""@,
        ValueView::Bytes(n) => dec_text(n as nat),
    }
}

/// The text of a variable: its name and a colon, its type directive, its
/// value.
pub open spec fn variable_text(v: VariableView) -> Seq<char> {
    v.name + ": "@ + type_text(type_of_value(v.value)) + " "@ + value_text(v.value)
}

/// The variables, each on a new line.
pub open spec fn variable_lines(variables: Seq<VariableView>) -> Seq<char>
    decreases variables.len(),
{
    if variables.len() == 0 {
        Seq::empty()
    } else {
        variable_lines(variables.drop_last()) + "\n"@ + variable_text(variables.last())
    }
}

/// The text of the data section: the header and the variables, each line
/// ended.
pub open spec fn data_section_text(variables: Seq<VariableView>) -> Seq<char> {
    ".data"@ + variable_lines(variables) + "\n"@
}

/// The text of the text section: the header, the entry point, and the
/// statements; the last line is ended only where there is no statement.
pub open spec fn text_section_text(statements: Seq<StatementView>, entrypoint: Seq<char>) -> Seq<
    char,
> {
    "\t.text\n\t.globl "@ + entrypoint + if statements.len() == 0 {
        "\n"@
    } else {
        statement_lines(statements)
    }
}

/// The text of a program: the data section, an empty line, the text
/// section.
pub open spec fn program_text(p: ProgramView) -> Seq<char> {
    data_section_text(p.data_section.variables) + "\n"@ + text_section_text(
        p.text_section.statements,
        p.text_section.entrypoint,
    )
}

/// Appends the text of an operand to `out`.
pub fn push_argument(out: &mut String, a: &InstructionArgument)
    ensures
        final(out)@ == old(out)@ + argument_text(a@),
{
    match a {
        InstructionArgument::Register(r) => out.append(r.name.as_str()),
        InstructionArgument::Immediate(n) => push_decimal(out, *n),
        InstructionArgument::Label(l) => out.append(l.as_str()),
        InstructionArgument::Literal(l) => out.append(l.as_str()),
    }
}

/// Appends the texts of the operands, separated by a comma and a space.
pub fn push_arguments(out: &mut String, args: &[InstructionArgument])
    ensures
        final(out)@ == old(out)@ + join_arguments(argument_views(args@)),
{
    let ghost views = argument_views(args@);
    let mut i: usize = 0;
    assert(views.take(0) =~= Seq::<ArgumentView>::empty());
    assert(old(out)@ + Seq::<char>::empty() =~= old(out)@);
    while i < args.len()
        invariant
            0 <= i <= args.len(),
            views == argument_views(args@),
            out@ == old(out)@ + join_arguments(views.take(i as int)),
        decreases args.len() - i,
    {
        let ghost before = views.take(i as int);
        let ghost now = views.take(i + 1);
        proof {
            assert(now.drop_last() =~= before);
            assert(now.last() == args@[i as int]@);
            assert(before.len() == i);
        }
        if i > 0 {
            out.append(", ");
        }
        push_argument(out, &args[i]);
        proof {
            if i == 0 {
                assert(now[0] == args@[i as int]@);
                assert(join_arguments(before) =~= Seq::<char>::empty());
                assert(out@ =~= old(out)@ + join_arguments(now));
            } else {
                assert(out@ =~= old(out)@ + join_arguments(now));
            }
        }
        i += 1;
    }
    assert(views.take(args.len() as int) =~= views);
}

/// The texts of the operands, separated by a comma and a space.
pub fn write_args(args: &[InstructionArgument]) -> (s: String)
    ensures
        s@ == join_arguments(argument_views(args@)),
{
    let mut s = String::new();
    push_arguments(&mut s, args);
    assert(Seq::<char>::empty() + join_arguments(argument_views(args@)) =~= join_arguments(
        argument_views(args@),
    ));
    s
}

/// Appends the text of an instruction to `out`.
pub fn push_instruction(out: &mut String, i: &Instruction)
    ensures
        final(out)@ == old(out)@ + instruction_text(i@),
{
    let m = i.mnemonic();
    out.append(m.name());
    match i.args() {
        None => {},
        Some(args) => {
            assert(argument_views(args@) == i@.args);
            out.append(" ");
            push_arguments(out, args.as_slice());
            assert(final(out)@ =~= old(out)@ + instruction_text(i@));
        },
    }
}

/// Appends the text of a statement to `out`.
pub fn push_statement(out: &mut String, s: &Statement)
    ensures
        final(out)@ == old(out)@ + statement_text(s@),
{
    match s {
        Statement::Instruction(i) => {
            out.append("\t");
            push_instruction(out, i);
            assert(final(out)@ =~= old(out)@ + statement_text(s@));
        },
        Statement::Label(l) => {
            out.append(l.as_str());
            out.append(":");
            assert(final(out)@ =~= old(out)@ + statement_text(s@));
        },
    }
}

/// Appends the text of a variable to `out`.
pub fn push_variable(out: &mut String, v: &Variable)
    ensures
        final(out)@ == old(out)@ + variable_text(v@),
{
    out.append(v.name.as_str());
    out.append(": ");
    match &v.value {
        Value::String(s) => {
            out.append(".asciiz");
            out.append(" ");
            out.append("\"");
            out.append(s.as_str());
            out.append("\"");
            assert(final(out)@ =~= old(out)@ + variable_text(v@));
        },
        Value::Bytes(n) => {
            out.append(".space");
            out.append(" ");
            push_decimal(out, *n);
            assert(final(out)@ =~= old(out)@ + variable_text(v@));
        },
    }
}

/// Appends the text of the data section to `out`.
pub fn push_data_section(out: &mut String, d: &DataSection)
    ensures
        final(out)@ == old(out)@ + data_section_text(d@.variables),
{
    let ghost views = d@.variables;
    out.append(".data");
    let mut i: usize = 0;
    assert(views.take(0) =~= Seq::<VariableView>::empty());
    assert(out@ =~= old(out)@ + ".data"@ + variable_lines(views.take(0)));
    while i < d.variables.len()
        invariant
            0 <= i <= d.variables.len(),
            views == d@.variables,
            out@ == old(out)@ + ".data"@ + variable_lines(views.take(i as int)),
        decreases d.variables.len() - i,
    {
        proof {
            assert(views.take(i + 1).drop_last() =~= views.take(i as int));
            assert(views.take(i + 1).last() == d.variables@[i as int]@);
        }
        out.append("\n");
        push_variable(out, &d.variables[i]);
        assert(out@ =~= old(out)@ + ".data"@ + variable_lines(views.take(i + 1)));
        i += 1;
    }
    assert(views.take(d.variables.len() as int) =~= views);
    out.append("\n");
    assert(final(out)@ =~= old(out)@ + data_section_text(d@.variables));
}

/// Appends the text of the text section to `out`.
pub fn push_text_section(out: &mut String, t: &TextSection)
    ensures
        final(out)@ == old(out)@ + text_section_text(t@.statements, t@.entrypoint),
{
    let ghost views = t@.statements;
    let ghost head = old(out)@ + "\t.text\n\t.globl "@ + t@.entrypoint;
    out.append("\t.text\n\t.globl ");
    out.append(t.entrypoint.as_str());
    if t.statements.len() == 0 {
        out.append("\n");
        assert(final(out)@ =~= old(out)@ + text_section_text(t@.statements, t@.entrypoint));
        return ;
    }
    let mut i: usize = 0;
    assert(views.take(0) =~= Seq::<StatementView>::empty());
    assert(out@ =~= head + statement_lines(views.take(0)));
    while i < t.statements.len()
        invariant
            0 <= i <= t.statements.len(),
            views == t@.statements,
            out@ == head + statement_lines(views.take(i as int)),
        decreases t.statements.len() - i,
    {
        proof {
            assert(views.take(i + 1).drop_last() =~= views.take(i as int));
            assert(views.take(i + 1).last() == t.statements@[i as int]@);
            assert(views[i as int] == t.statements@[i as int]@);
        }
        out.append("\n");
        push_statement(out, &t.statements[i]);
        assert(out@ =~= head + statement_lines(views.take(i + 1)));
        i += 1;
    }
    assert(views.take(t.statements.len() as int) =~= views);
    assert(final(out)@ =~= old(out)@ + text_section_text(t@.statements, t@.entrypoint));
}

impl InstructionArgument {
    /// The operand as assembly text.
    pub fn to_string(&self) -> (s: String)
        ensures
            s@ == argument_text(self@),
    {
        let mut s = String::new();
        push_argument(&mut s, self);
        assert(s@ =~= argument_text(self@));
        s
    }
}

impl Instruction {
    /// The instruction as assembly text.
    pub fn to_string(&self) -> (s: String)
        ensures
            s@ == instruction_text(self@),
    {
        let mut s = String::new();
        push_instruction(&mut s, self);
        assert(s@ =~= instruction_text(self@));
        s
    }
}

impl Statement {
    /// The statement as assembly text.
    pub fn to_string(&self) -> (s: String)
        ensures
            s@ == statement_text(self@),
    {
        let mut s = String::new();
        push_statement(&mut s, self);
        assert(s@ =~= statement_text(self@));
        s
    }
}

impl Variable {
    /// The variable as assembly text.
    pub fn to_string(&self) -> (s: String)
        ensures
            s@ == variable_text(self@),
    {
        let mut s = String::new();
        push_variable(&mut s, self);
        assert(s@ =~= variable_text(self@));
        s
    }
}

impl DataSection {
    /// The data section as assembly text.
    pub fn to_string(&self) -> (s: String)
        ensures
            s@ == data_section_text(self@.variables),
    {
        let mut s = String::new();
        push_data_section(&mut s, self);
        assert(s@ =~= data_section_text(self@.variables));
        s
    }
}

impl TextSection {
    /// The text section as assembly text.
    pub fn to_string(&self) -> (s: String)
        ensures
            s@ == text_section_text(self@.statements, self@.entrypoint),
    {
        let mut s = String::new();
        push_text_section(&mut s, self);
        assert(s@ =~= text_section_text(self@.statements, self@.entrypoint));
        s
    }
}

impl Program {
    /// The program as assembly text.
    pub fn to_string(&self) -> (s: String)
        ensures
            s@ == program_text(self@),
    {
        let mut s = String::new();
        push_data_section(&mut s, &self.data_section);
        s.append("\n");
        push_text_section(&mut s, &self.text_section);
        assert(s@ =~= program_text(self@));
        s
    }
}

} // verus!
