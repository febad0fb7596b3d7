//! The printed text of a program as a row of tokens, each after a gap of
//! blank characters.

use vstd::prelude::*;

use crate::ast::ArgumentView;
use crate::ast::InstructionView;
use crate::ast::ProgramView;
use crate::ast::StatementView;
use crate::ast::to_string::argument_text;
use crate::ast::to_string::instruction_text;
use crate::ast::to_string::is_memory_form;
use crate::ast::to_string::join_arguments;
use crate::ast::to_string::program_text;
use crate::ast::to_string::statement_lines;
use crate::ast::to_string::statement_text;
use crate::ast::to_string::value_text;
use crate::ast::to_string::variable_lines;
use crate::ast::to_string::variable_text;
use crate::ast::VariableView;
use crate::canonical::canonical;
use crate::canonical::instruction_ok;
use crate::canonical::operands_fit;
use crate::canonical::statement_ok;
use crate::canonical::statements_ok;
use crate::canonical::written_operands;
use crate::canonical::yields_operand;
use crate::memory::lemma_memory_text_parts;
use crate::lexer::tokens::TokenView;
use crate::lexer::tokens::type_of_value;
use crate::lexer::tokens::type_text;
use crate::lexer::tokens::ValueView;
use crate::mnemonic::Mnemonic;
use crate::mnemonic::mnemonic_text;
use crate::parser::Piece;
use crate::parser::spec_pieces;
use crate::text::dec_text;

verus! {

/// A token of a printed text with the blank characters before it.
pub ghost struct Item {
    pub gap: Seq<char>,
    pub token: TokenView,
}

/// How the printer writes a token.
pub open spec fn lexeme_text(t: TokenView) -> Seq<char> {
    match t {
        TokenView::Instruction(w) => w,
        TokenView::DataSection => ".data"@,
        TokenView::TextSection => ".text"@,
        TokenView::GlobalSection => ".globl"@,
        TokenView::Type(t) => type_text(t),
        TokenView::Register(n) => n,
        TokenView::Label(n) => n + ":"@,
        TokenView::Identifier(n) => n,
        TokenView::Number(n) => dec_text(n as nat),
        TokenView::String(s) => "\""@ + s + "\""@,
        TokenView::OpenBracket => "["@,
        TokenView::CloseBracket => "]"@,
        TokenView::OpenParen => "("@,
        TokenView::CloseParen => ")"@,
        TokenView::Comma => ","@,
    }
}

/// The text of a row of items: each gap and then its token.
pub open spec fn render(items: Seq<Item>) -> Seq<char>
    decreases items.len(),
{
    if items.len() == 0 {
        Seq::empty()
    } else {
        items[0].gap + lexeme_text(items[0].token) + render(items.drop_first())
    }
}

/// The text of two rows is the text of the first and then that of the
/// second.
pub proof fn lemma_render_concat(a: Seq<Item>, b: Seq<Item>)
    ensures
        render(a + b) == render(a) + render(b),
    decreases a.len(),
{
    if a.len() == 0 {
        assert(a + b =~= b);
        assert(render(a) + render(b) =~= render(b));
    } else {
        lemma_render_concat(a.drop_first(), b);
        assert((a + b).drop_first() =~= a.drop_first() + b);
        assert(render(a + b) =~= render(a) + render(b));
    }
}

/// The text of a row of one item.
pub proof fn lemma_render_one(it: Item)
    ensures
        render(seq![it]) == it.gap + lexeme_text(it.token),
{
    assert(seq![it].drop_first() =~= Seq::<Item>::empty());
    assert(render(seq![it]) =~= it.gap + lexeme_text(it.token)) by {
        reveal_with_fuel(render, 2);
    }
}

/// The token that writes the operand `a`.
pub open spec fn operand_token(a: ArgumentView) -> TokenView {
    match a {
        ArgumentView::Register(n) => TokenView::Register(n),
        ArgumentView::Immediate(n) => TokenView::Number(n),
        ArgumentView::Label(n) => TokenView::Identifier(n),
        ArgumentView::Literal(n) => TokenView::Identifier(n),
    }
}

/// The token that the printer writes for a piece that stands for no
/// operand.
pub open spec fn fixed_token(p: Piece) -> TokenView {
    match p {
        Piece::OpenParen => TokenView::OpenParen,
        Piece::CloseParen => TokenView::CloseParen,
        _ => TokenView::Comma,
    }
}

/// The gap before the token of the piece at index `k`: a space before the
/// first operand and after a comma.
pub open spec fn piece_gap(pieces: Seq<Piece>, k: int) -> Seq<char> {
    if k == 0 || pieces[k - 1] == Piece::Comma {
        " "@
    } else {
        Seq::empty()
    }
}

/// The items that write the operands `args` for the pieces from index `k`
/// on.
pub open spec fn operand_items(pieces: Seq<Piece>, k: int, args: Seq<ArgumentView>) -> Seq<Item>
    decreases pieces.len() - k,
{
    if !(0 <= k < pieces.len()) {
        Seq::empty()
    } else if yields_operand(pieces[k]) {
        seq![Item { gap: piece_gap(pieces, k), token: operand_token(args[0]) }] + operand_items(
            pieces,
            k + 1,
            args.drop_first(),
        )
    } else {
        seq![Item { gap: piece_gap(pieces, k), token: fixed_token(pieces[k]) }] + operand_items(
            pieces,
            k + 1,
            args,
        )
    }
}

/// The items that write a statement, on a new line.
pub open spec fn statement_items(s: StatementView) -> Seq<Item> {
    match s {
        StatementView::Label(name) => seq![Item { gap: "\n"@, token: TokenView::Label(name) }],
        StatementView::Instruction(i) => seq![
            Item { gap: "\n\t"@, token: TokenView::Instruction(mnemonic_text(i.mnemonic)) },
        ] + operand_items(spec_pieces(i.mnemonic), 0, written_operands(i)),
    }
}

/// The items that write the statements.
pub open spec fn statements_items(statements: Seq<StatementView>) -> Seq<Item>
    decreases statements.len(),
{
    if statements.len() == 0 {
        Seq::empty()
    } else {
        statements_items(statements.drop_last()) + statement_items(statements.last())
    }
}

/// The token that writes a value.
pub open spec fn value_token(v: ValueView) -> TokenView {
    match v {
        ValueView::String(s) => TokenView::String(s),
        ValueView::Bytes(n) => TokenView::Number(n),
    }
}

/// The items that write a variable, on a new line.
pub open spec fn variable_items(v: VariableView) -> Seq<Item> {
    seq![
        Item { gap: "\n"@, token: TokenView::Label(v.name) },
        Item { gap: " "@, token: TokenView::Type(type_of_value(v.value)) },
        Item { gap: " "@, token: value_token(v.value) },
    ]
}

/// The items that write the variables.
pub open spec fn variables_items(variables: Seq<VariableView>) -> Seq<Item>
    decreases variables.len(),
{
    if variables.len() == 0 {
        Seq::empty()
    } else {
        variables_items(variables.drop_last()) + variable_items(variables.last())
    }
}

/// The items that write the headers of the text section and the entry
/// point.
pub open spec fn header_items(entrypoint: Seq<char>) -> Seq<Item> {
    seq![
        Item { gap: "\n\n\t"@, token: TokenView::TextSection },
        Item { gap: "\n\t"@, token: TokenView::GlobalSection },
        Item { gap: " "@, token: TokenView::Identifier(entrypoint) },
    ]
}

/// The items that write a program.
pub open spec fn program_items(p: ProgramView) -> Seq<Item> {
    seq![Item { gap: Seq::empty(), token: TokenView::DataSection }] + variables_items(
        p.data_section.variables,
    ) + header_items(p.text_section.entrypoint) + statements_items(p.text_section.statements)
}

/// What the printer writes after the last token of a program.
pub open spec fn program_tail(p: ProgramView) -> Seq<char> {
    if p.text_section.statements.len() == 0 {
        "\n"@
    } else {
        Seq::empty()
    }
}

/// Makes the characters of the texts between the tokens known to the
/// verifier.
pub proof fn lemma_spellings()
    ensures
        " "@ =~= seq![' '],
        "\n"@ =~= seq!['\n'],
        "\t"@ =~= seq!['\t'],
        "\n\t"@ =~= seq!['\n', '\t'],
        "\n\n\t"@ =~= seq!['\n', '\n', '\t'],
        ", "@ =~= seq![',', ' '],
        ": "@ =~= seq![':', ' '],
        ":"@ =~= seq![':'],
        ","@ =~= seq![','],
        "("@ =~= seq!['('],
        ")"@ =~= seq![')'],
        "["@ =~= seq!['['],
        "]"@ =~= seq![']'],
        "\""@ =~= seq!['"'],
        ".data"@ =~= seq!['.', 'd', 'a', 't', 'a'],
        ".text"@ =~= seq!['.', 't', 'e', 'x', 't'],
        ".globl"@ =~= seq!['.', 'g', 'l', 'o', 'b', 'l'],
        ".global"@ =~= seq!['.', 'g', 'l', 'o', 'b', 'a', 'l'],
        ".asciiz"@ =~= seq!['.', 'a', 's', 'c', 'i', 'i', 'z'],
        ".space"@ =~= seq!['.', 's', 'p', 'a', 'c', 'e'],
        "\t.text\n\t.globl "@ =~= seq![
            '\t',
            '.',
            't',
            'e',
            'x',
            't',
            '\n',
            '\t',
            '.',
            'g',
            'l',
            'o',
            'b',
            'l',
            ' ',
        ],
        dec_text(0) =~= seq!['0'],
{
    reveal_strlit(" ");
    reveal_strlit("\n");
    reveal_strlit("\t");
    reveal_strlit("\n\t");
    reveal_strlit("\n\n\t");
    reveal_strlit(", ");
    reveal_strlit(": ");
    reveal_strlit(":");
    reveal_strlit(",");
    reveal_strlit("(");
    reveal_strlit(")");
    reveal_strlit("[");
    reveal_strlit("]");
    reveal_strlit("\"");
    reveal_strlit(".data");
    reveal_strlit(".text");
    reveal_strlit(".globl");
    reveal_strlit(".global");
    reveal_strlit(".asciiz");
    reveal_strlit(".space");
    reveal_strlit("\t.text\n\t.globl ");
}

/// One operand is written after a space.
pub proof fn lemma_render_one_operand(pieces: Seq<Piece>, args: Seq<ArgumentView>)
    requires
        pieces.len() == 1,
        yields_operand(pieces[0]),
        operands_fit(pieces, 0, args),
    ensures
        args.len() == 1,
        render(operand_items(pieces, 0, args)) == " "@ + join_arguments(args),
{
    reveal_with_fuel(operands_fit, 3);
    reveal_with_fuel(operand_items, 3);
    reveal_with_fuel(render, 3);
    reveal_with_fuel(join_arguments, 3);
    lemma_spellings();
    assert(args.drop_first().len() == 0);
    assert(operand_items(pieces, 1, args.drop_first()) =~= Seq::<Item>::empty());
    let items = operand_items(pieces, 0, args);
    assert(items =~= seq![Item { gap: " "@, token: operand_token(args[0]) }]);
    lemma_render_one(items[0]);
    lemma_operand_token_text(pieces[0], args[0]);
    assert(render(items) =~= " "@ + join_arguments(args));
}

/// A token that writes an operand is spelled as the printer spells the
/// operand.
pub proof fn lemma_operand_token_text(p: Piece, a: ArgumentView)
    requires
        crate::canonical::operand_ok(p, a),
    ensures
        lexeme_text(operand_token(a)) == argument_text(a),
{
}

/// Two operands are written after a space, with a comma and a space
/// between them.
pub proof fn lemma_render_two_operands(pieces: Seq<Piece>, args: Seq<ArgumentView>)
    requires
        pieces.len() == 3,
        yields_operand(pieces[0]),
        pieces[1] == Piece::Comma,
        yields_operand(pieces[2]),
        operands_fit(pieces, 0, args),
    ensures
        args.len() == 2,
        render(operand_items(pieces, 0, args)) == " "@ + join_arguments(args),
{
    reveal_with_fuel(operands_fit, 5);
    reveal_with_fuel(operand_items, 5);
    reveal_with_fuel(join_arguments, 3);
    lemma_spellings();
    let rest = args.drop_first();
    assert(rest.drop_first().len() == 0);
    assert(rest[0] == args[1]);
    let a = Item { gap: " "@, token: operand_token(args[0]) };
    let b = Item { gap: Seq::empty(), token: TokenView::Comma };
    let c = Item { gap: " "@, token: operand_token(args[1]) };
    assert(operand_items(pieces, 3, rest.drop_first()) =~= Seq::<Item>::empty());
    assert(operand_items(pieces, 2, rest) =~= seq![c]);
    assert(operand_items(pieces, 1, rest) =~= seq![b] + seq![c]);
    assert(operand_items(pieces, 0, args) =~= seq![a] + (seq![b] + seq![c]));
    lemma_render_concat(seq![a], seq![b] + seq![c]);
    lemma_render_concat(seq![b], seq![c]);
    lemma_render_one(a);
    lemma_render_one(b);
    lemma_render_one(c);
    lemma_operand_token_text(pieces[0], args[0]);
    lemma_operand_token_text(pieces[2], args[1]);
    assert(args.drop_last() =~= seq![args[0]]);
    assert(join_arguments(args) =~= argument_text(args[0]) + ", "@ + argument_text(args[1]));
    assert(render(operand_items(pieces, 0, args)) =~= " "@ + join_arguments(args));
}

/// Three operands are written after a space, with a comma and a space
/// between each two of them.
pub proof fn lemma_render_three_operands(pieces: Seq<Piece>, args: Seq<ArgumentView>)
    requires
        pieces.len() == 5,
        yields_operand(pieces[0]),
        pieces[1] == Piece::Comma,
        yields_operand(pieces[2]),
        pieces[3] == Piece::Comma,
        yields_operand(pieces[4]),
        operands_fit(pieces, 0, args),
    ensures
        args.len() == 3,
        render(operand_items(pieces, 0, args)) == " "@ + join_arguments(args),
{
    reveal_with_fuel(operands_fit, 7);
    reveal_with_fuel(operand_items, 7);
    reveal_with_fuel(join_arguments, 4);
    lemma_spellings();
    let r1 = args.drop_first();
    let r2 = r1.drop_first();
    assert(r2.drop_first().len() == 0);
    assert(r1[0] == args[1]);
    assert(r2[0] == args[2]);
    let a = Item { gap: " "@, token: operand_token(args[0]) };
    let b = Item { gap: Seq::empty(), token: TokenView::Comma };
    let c = Item { gap: " "@, token: operand_token(args[1]) };
    let e = Item { gap: " "@, token: operand_token(args[2]) };
    assert(operand_items(pieces, 5, r2.drop_first()) =~= Seq::<Item>::empty());
    assert(operand_items(pieces, 4, r2) =~= seq![e]);
    assert(operand_items(pieces, 3, r2) =~= seq![b] + seq![e]);
    assert(operand_items(pieces, 2, r1) =~= seq![c] + (seq![b] + seq![e]));
    assert(operand_items(pieces, 1, r1) =~= seq![b] + (seq![c] + (seq![b] + seq![e])));
    assert(operand_items(pieces, 0, args) =~= seq![a] + (seq![b] + (seq![c] + (seq![b] + seq![e]))));
    lemma_render_concat(seq![a], seq![b] + (seq![c] + (seq![b] + seq![e])));
    lemma_render_concat(seq![b], seq![c] + (seq![b] + seq![e]));
    lemma_render_concat(seq![c], seq![b] + seq![e]);
    lemma_render_concat(seq![b], seq![e]);
    lemma_render_one(a);
    lemma_render_one(b);
    lemma_render_one(c);
    lemma_render_one(e);
    lemma_operand_token_text(pieces[0], args[0]);
    lemma_operand_token_text(pieces[2], args[1]);
    lemma_operand_token_text(pieces[4], args[2]);
    let two = args.drop_last();
    assert(two.drop_last() =~= seq![args[0]]);
    assert(two.last() == args[1]);
    assert(join_arguments(two) =~= argument_text(args[0]) + ", "@ + argument_text(args[1]));
    assert(join_arguments(args) =~= argument_text(args[0]) + ", "@ + argument_text(args[1])
        + ", "@ + argument_text(args[2]));
    assert(render(operand_items(pieces, 0, args)) =~= " "@ + join_arguments(args));
}

/// The operands of an instruction that addresses memory are written as a
/// register, a comma, and the offset with the base register in
/// parentheses.
pub proof fn lemma_render_memory_operands(pieces: Seq<Piece>, found: Seq<ArgumentView>)
    requires
        pieces == spec_pieces(Mnemonic::Lw),
        operands_fit(pieces, 0, found),
    ensures
        found.len() == 3,
        render(operand_items(pieces, 0, found)) == " "@ + argument_text(found[0]) + ", "@
            + argument_text(found[1]) + "("@ + argument_text(found[2]) + ")"@,
{
    reveal_with_fuel(operands_fit, 8);
    reveal_with_fuel(operand_items, 8);
    lemma_spellings();
    let r1 = found.drop_first();
    let r2 = r1.drop_first();
    let r3 = r2.drop_first();
    assert(r3.len() == 0);
    assert(r1[0] == found[1]);
    assert(r2[0] == found[2]);
    let a = Item { gap: " "@, token: operand_token(found[0]) };
    let b = Item { gap: Seq::empty(), token: TokenView::Comma };
    let c = Item { gap: " "@, token: operand_token(found[1]) };
    let d = Item { gap: Seq::empty(), token: TokenView::OpenParen };
    let e = Item { gap: Seq::empty(), token: operand_token(found[2]) };
    let f = Item { gap: Seq::empty(), token: TokenView::CloseParen };
    assert(operand_items(pieces, 6, r3) =~= Seq::<Item>::empty());
    assert(operand_items(pieces, 5, r3) =~= seq![f]);
    assert(operand_items(pieces, 4, r2) =~= seq![e] + seq![f]);
    assert(operand_items(pieces, 3, r2) =~= seq![d] + (seq![e] + seq![f]));
    assert(operand_items(pieces, 2, r1) =~= seq![c] + (seq![d] + (seq![e] + seq![f])));
    assert(operand_items(pieces, 1, r1) =~= seq![b] + (seq![c] + (seq![d] + (seq![e] + seq![f]))));
    assert(operand_items(pieces, 0, found) =~= seq![a] + (seq![b] + (seq![c] + (seq![d] + (seq![e]
        + seq![f])))));
    lemma_render_concat(seq![a], seq![b] + (seq![c] + (seq![d] + (seq![e] + seq![f]))));
    lemma_render_concat(seq![b], seq![c] + (seq![d] + (seq![e] + seq![f])));
    lemma_render_concat(seq![c], seq![d] + (seq![e] + seq![f]));
    lemma_render_concat(seq![d], seq![e] + seq![f]);
    lemma_render_concat(seq![e], seq![f]);
    lemma_render_one(a);
    lemma_render_one(b);
    lemma_render_one(c);
    lemma_render_one(d);
    lemma_render_one(e);
    lemma_render_one(f);
    lemma_operand_token_text(pieces[0], found[0]);
    lemma_operand_token_text(pieces[2], found[1]);
    lemma_operand_token_text(pieces[4], found[2]);
    assert(render(operand_items(pieces, 0, found)) =~= " "@ + argument_text(found[0]) + ", "@
        + argument_text(found[1]) + "("@ + argument_text(found[2]) + ")"@);
}

/// The items of the operands of an instruction write what the printer
/// writes after the mnemonic.
pub proof fn lemma_render_operands(i: InstructionView)
    requires
        instruction_ok(i),
    ensures
        mnemonic_text(i.mnemonic) + render(
            operand_items(spec_pieces(i.mnemonic), 0, written_operands(i)),
        ) == instruction_text(i),
{
    let pieces = spec_pieces(i.mnemonic);
    let found = written_operands(i);
    let text = render(operand_items(pieces, 0, found));
    if i.mnemonic == Mnemonic::Syscall {
        assert(operand_items(pieces, 0, found) =~= Seq::<Item>::empty());
        assert(mnemonic_text(i.mnemonic) + text =~= instruction_text(i));
    } else if is_memory_form(i.mnemonic) {
        lemma_render_memory_operands(pieces, found);
        lemma_spellings();
        let reference = i.args[1]->Literal_0;
        lemma_memory_text_parts(reference);
        assert(reference == argument_text(found[1]) + "("@ + argument_text(found[2]) + ")"@);
        reveal_with_fuel(join_arguments, 3);
        assert(i.args.drop_last() =~= seq![i.args[0]]);
        assert(join_arguments(i.args) =~= argument_text(i.args[0]) + ", "@ + reference);
        assert(mnemonic_text(i.mnemonic) + text =~= instruction_text(i));
    } else {
        if pieces.len() == 1 {
            lemma_render_one_operand(pieces, found);
        } else if pieces.len() == 3 {
            lemma_render_two_operands(pieces, found);
        } else {
            lemma_render_three_operands(pieces, found);
        }
        assert(mnemonic_text(i.mnemonic) + text =~= instruction_text(i));
    }
}

/// The items of a statement write a new line and the statement.
pub proof fn lemma_render_statement(s: StatementView)
    requires
        statement_ok(s),
    ensures
        render(statement_items(s)) == "\n"@ + statement_text(s),
{
    lemma_spellings();
    match s {
        StatementView::Label(name) => {
            lemma_render_one(statement_items(s)[0]);
            assert(render(statement_items(s)) =~= "\n"@ + statement_text(s));
        },
        StatementView::Instruction(i) => {
            let head = Item { gap: "\n\t"@, token: TokenView::Instruction(mnemonic_text(i.mnemonic)) };
            let rest = operand_items(spec_pieces(i.mnemonic), 0, written_operands(i));
            lemma_render_concat(seq![head], rest);
            lemma_render_one(head);
            lemma_render_operands(i);
            assert(render(statement_items(s)) =~= "\n\t"@ + (mnemonic_text(i.mnemonic) + render(
                rest,
            )));
            assert("\n\t"@ =~= "\n"@ + "\t"@);
            assert(render(statement_items(s)) =~= "\n"@ + statement_text(s));
        },
    }
}

/// The items of the statements write the statements, each on a new line.
pub proof fn lemma_render_statements(statements: Seq<StatementView>)
    requires
        statements_ok(statements),
    ensures
        render(statements_items(statements)) == statement_lines(statements),
    decreases statements.len(),
{
    if statements.len() > 0 {
        let front = statements.drop_last();
        assert forall|n: int| 0 <= n < front.len() implies statement_ok(#[trigger] front[n]) by {
            assert(front[n] == statements[n]);
        }
        lemma_render_statements(front);
        lemma_render_statement(statements.last());
        lemma_render_concat(statements_items(front), statement_items(statements.last()));
        assert(render(statements_items(statements)) =~= statement_lines(statements));
    }
}

/// The items of a variable write a new line and the variable.
pub proof fn lemma_render_variable(v: VariableView)
    ensures
        render(variable_items(v)) == "\n"@ + variable_text(v),
{
    lemma_spellings();
    let a = variable_items(v)[0];
    let b = variable_items(v)[1];
    let c = variable_items(v)[2];
    assert(variable_items(v) =~= seq![a] + (seq![b] + seq![c]));
    lemma_render_concat(seq![a], seq![b] + seq![c]);
    lemma_render_concat(seq![b], seq![c]);
    lemma_render_one(a);
    lemma_render_one(b);
    lemma_render_one(c);
    assert(lexeme_text(c.token) == value_text(v.value));
    assert(": "@ =~= ":"@ + " "@);
    assert(render(variable_items(v)) =~= "\n"@ + variable_text(v));
}

/// The items of the variables write the variables, each on a new line.
pub proof fn lemma_render_variables(variables: Seq<VariableView>)
    ensures
        render(variables_items(variables)) == variable_lines(variables),
    decreases variables.len(),
{
    if variables.len() > 0 {
        let front = variables.drop_last();
        lemma_render_variables(front);
        lemma_render_variable(variables.last());
        lemma_render_concat(variables_items(front), variable_items(variables.last()));
        assert(render(variables_items(variables)) =~= variable_lines(variables));
    }
}

/// The items of a canonical program, and what follows the last of them,
/// write the text of the program.
pub proof fn lemma_render_program(p: ProgramView)
    requires
        canonical(p),
    ensures
        render(program_items(p)) + program_tail(p) == program_text(p),
{
    lemma_spellings();
    let first = Item { gap: Seq::empty(), token: TokenView::DataSection };
    let variables = variables_items(p.data_section.variables);
    let header = header_items(p.text_section.entrypoint);
    let statements = statements_items(p.text_section.statements);
    lemma_render_one(first);
    lemma_render_variables(p.data_section.variables);
    lemma_render_statements(p.text_section.statements);
    lemma_render_concat(seq![first] + variables + header, statements);
    lemma_render_concat(seq![first] + variables, header);
    lemma_render_concat(seq![first], variables);
    let a = header[0];
    let b = header[1];
    let c = header[2];
    assert(header =~= seq![a] + (seq![b] + seq![c]));
    lemma_render_concat(seq![a], seq![b] + seq![c]);
    lemma_render_concat(seq![b], seq![c]);
    lemma_render_one(a);
    lemma_render_one(b);
    lemma_render_one(c);
    assert(render(header) =~= "\n"@ + "\n"@ + "\t.text\n\t.globl "@ + p.text_section.entrypoint);
    if p.text_section.statements.len() == 0 {
        assert(render(statements) =~= Seq::<char>::empty());
    }
    assert(render(program_items(p)) + program_tail(p) =~= program_text(p));
}

} // verus!
