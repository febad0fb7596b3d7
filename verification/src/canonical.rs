//! What holds of the tokens that the lexer finds and of the programs that
//! the parser builds from them.
//!
//! A token of the lexer is well formed: a name has the shape that the lexer
//! asks of it, an identifier is no mnemonic, a string holds no quote. A
//! program built from such tokens is canonical: its names are well formed,
//! no two of its variables have the same name, and each instruction has the
//! operands that its mnemonic asks for, a memory reference among them as
//! one literal with the text `offset(register)`.
//!
//! Whether a program made by hand is canonical can be decided: see
//! [`Program::is_canonical`].

use vstd::prelude::*;

use crate::ast::argument_views;
use crate::ast::ArgumentView;
use crate::ast::Instruction;
use crate::ast::InstructionArgument;
use crate::ast::InstructionView;
use crate::ast::Program;
use crate::ast::ProgramView;
use crate::ast::Statement;
use crate::ast::StatementView;
use crate::ast::Variable;
use crate::ast::variable_views;
use crate::ast::VariableView;
use crate::chars::all_in_class;
use crate::chars::CharClass;
use crate::chars::in_class;
use crate::chars::is_register_char;
use crate::chars::is_word_start;
use crate::chars::lemma_run_end;
use crate::chars::run_end;
use crate::chars::scan_run;
use crate::lexer::lemma_scan_token_advances;
use crate::lexer::lemma_skip_blank;
use crate::lexer::lex;
use crate::lexer::scan_all;
use crate::lexer::scan_token;
use crate::lexer::skip_blank;
use crate::lexer::spans_of;
use crate::lexer::tokens::SpannedView;
use crate::lexer::tokens::Token;
use crate::lexer::tokens::TokenView;
use crate::lexer::tokens::Value;
use crate::lexer::tokens::ValueView;
use crate::memory::is_memory_text;
use crate::memory::lemma_memory_text;
use crate::memory::lemma_memory_text_parts;
use crate::memory::memory_base;
use crate::memory::memory_offset;
use crate::memory::memory_text;
use crate::memory::read_memory_reference;
use crate::mnemonic::is_mnemonic;
use crate::mnemonic::Mnemonic;
use crate::mnemonic::mnemonic_named;
use crate::parser::after_operands;
use crate::parser::Form;
use crate::parser::form_pieces;
use crate::parser::operands_of;
use crate::parser::spec_form;
use crate::parser::lemma_operands_fit;
use crate::parser::parse_operands;
use crate::parser::parse_program;
use crate::parser::parse_source;
use crate::parser::parse_statements;
use crate::parser::parse_variables;
use crate::parser::ParseErrorView;
use crate::parser::Piece;
use crate::parser::piece_accepts;
use crate::parser::pieces;
use crate::parser::spec_pieces;
use crate::text::SourceText;

verus! {

/// A word: a letter or an underscore, and then letters, digits and
/// underscores.
pub open spec fn is_word(w: Seq<char>) -> bool {
    w.len() >= 1 && is_word_start(w[0]) && all_in_class(w, CharClass::Word)
}

/// A name: a word that is no mnemonic.
pub open spec fn is_name(w: Seq<char>) -> bool {
    is_word(w) && !is_mnemonic(w)
}

/// The name of a register: a `$`, and then at least one lower-case letter
/// or digit.
pub open spec fn is_register_name(n: Seq<char>) -> bool {
    &&& n.len() >= 2
    &&& n[0] == '$'
    &&& forall|i: int| 1 <= i < n.len() ==> is_register_char(#[trigger] n[i])
}

/// A text without a double quote.
pub open spec fn is_plain(s: Seq<char>) -> bool {
    all_in_class(s, CharClass::Text)
}

/// Whether the token is one that the lexer can find.
pub open spec fn token_ok(t: TokenView) -> bool {
    match t {
        TokenView::Instruction(w) => is_mnemonic(w),
        TokenView::Register(n) => is_register_name(n),
        TokenView::Label(n) => is_word(n),
        TokenView::Identifier(n) => is_name(n),
        TokenView::String(s) => is_plain(s),
        _ => true,
    }
}

/// Whether every one of the tokens is one that the lexer can find.
pub open spec fn tokens_ok(ts: Seq<SpannedView>) -> bool {
    forall|n: int| 0 <= n < ts.len() ==> token_ok((#[trigger] ts[n]).token)
}

/// Whether the piece stands for an operand.
pub open spec fn yields_operand(p: Piece) -> bool {
    p == Piece::Register || p == Piece::Immediate || p == Piece::Target || p == Piece::Name || p
        == Piece::Value
}

/// Whether the operand `a` is one for which a well-formed token stands
/// at the piece `p`.
pub open spec fn operand_ok(p: Piece, a: ArgumentView) -> bool {
    match (p, a) {
        (Piece::Register, ArgumentView::Register(n)) => is_register_name(n),
        (Piece::Immediate, ArgumentView::Immediate(_)) => true,
        (Piece::Target, ArgumentView::Label(n)) => is_name(n),
        (Piece::Name, ArgumentView::Literal(n)) => is_name(n),
        (Piece::Value, ArgumentView::Immediate(_)) => true,
        (Piece::Value, ArgumentView::Literal(n)) => is_name(n),
        _ => false,
    }
}

/// Whether `args` are the operands for the pieces from index `k` on: one
/// for each piece that stands for an operand, in their order, each of the
/// kind that its piece asks for.
pub open spec fn operands_fit(pieces: Seq<Piece>, k: int, args: Seq<ArgumentView>) -> bool
    decreases pieces.len() - k,
{
    if !(0 <= k < pieces.len()) {
        args.len() == 0
    } else if yields_operand(pieces[k]) {
        args.len() > 0 && operand_ok(pieces[k], args[0]) && operands_fit(
            pieces,
            k + 1,
            args.drop_first(),
        )
    } else {
        operands_fit(pieces, k + 1, args)
    }
}

/// Whether the instruction addresses memory and has the two operands of
/// that form, the second of them a literal.
pub open spec fn holds_memory_reference(i: InstructionView) -> bool {
    spec_form(i.mnemonic) == Form::Memory && i.args.len() == 2 && i.args[1] is Literal
}

/// The operands of the instruction as its tokens write them: the operands
/// themselves, but that a memory reference is written as its offset and its
/// base register.
pub open spec fn written_operands(i: InstructionView) -> Seq<ArgumentView> {
    if holds_memory_reference(i) {
        seq![
            i.args[0],
            ArgumentView::Immediate(memory_offset(i.args[1]->Literal_0) as u32),
            ArgumentView::Register(memory_base(i.args[1]->Literal_0)),
        ]
    } else {
        i.args
    }
}

/// Whether the instruction has the operands that its mnemonic asks for. One
/// that addresses memory has a register and the text of a memory
/// reference.
pub open spec fn instruction_ok(i: InstructionView) -> bool {
    &&& spec_form(i.mnemonic) == Form::Memory ==> holds_memory_reference(i) && is_memory_text(
        i.args[1]->Literal_0,
    )
    &&& operands_fit(spec_pieces(i.mnemonic), 0, written_operands(i))
}

/// The operands of an instruction that addresses memory fit its pieces
/// where the first is a register and the base is one.
pub proof fn lemma_memory_operands_fit(first: ArgumentView, offset: u32, base: Seq<char>)
    ensures
        operands_fit(
            form_pieces(Form::Memory),
            0,
            seq![first, ArgumentView::Immediate(offset), ArgumentView::Register(base)],
        ) == (operand_ok(Piece::Register, first) && is_register_name(base)),
{
    reveal_with_fuel(operands_fit, 8);
    let all = seq![first, ArgumentView::Immediate(offset), ArgumentView::Register(base)];
    let r1 = all.drop_first();
    let r2 = r1.drop_first();
    assert(r1[0] == all[1]);
    assert(r2[0] == all[2]);
    assert(r2.drop_first().len() == 0);
    assert(r1.len() == 2);
    assert(r2.len() == 1);
}

/// The operands that fit the pieces of a mnemonic make a well-formed
/// instruction, whose operands are written as these.
pub proof fn lemma_operands_of_ok(m: Mnemonic, found: Seq<ArgumentView>)
    requires
        operands_fit(spec_pieces(m), 0, found),
    ensures
        instruction_ok(InstructionView { mnemonic: m, args: operands_of(m, found) }),
        written_operands(InstructionView { mnemonic: m, args: operands_of(m, found) }) == found,
{
    if spec_form(m) == Form::Memory {
        reveal_with_fuel(operands_fit, 8);
        let r1 = found.drop_first();
        let r2 = r1.drop_first();
        assert(r2.drop_first().len() == 0);
        assert(found.len() == 3);
        assert(r1[0] == found[1]);
        assert(r2[0] == found[2]);
        let offset = found[1]->Immediate_0;
        let base = found[2]->Register_0;
        lemma_memory_text(offset, base);
        let i = InstructionView { mnemonic: m, args: operands_of(m, found) };
        assert(i.args[1] == ArgumentView::Literal(memory_text(offset, base)));
        assert(written_operands(i) =~= found);
    }
}

/// The operands of a well-formed instruction are those that the parser
/// makes of the operands as they are written.
pub proof fn lemma_written_operands(i: InstructionView)
    requires
        instruction_ok(i),
    ensures
        operands_of(i.mnemonic, written_operands(i)) == i.args,
{
    if spec_form(i.mnemonic) == Form::Memory {
        lemma_memory_text_parts(i.args[1]->Literal_0);
        assert(operands_of(i.mnemonic, written_operands(i)) =~= i.args);
    }
}

/// Whether the statement is a label with a well-formed name or an
/// instruction with the operands that its mnemonic asks for.
pub open spec fn statement_ok(s: StatementView) -> bool {
    match s {
        StatementView::Instruction(i) => instruction_ok(i),
        StatementView::Label(name) => is_word(name),
    }
}

/// Whether the variable has a well-formed name and, where its value is a
/// string, one without a quote.
pub open spec fn variable_ok(v: VariableView) -> bool {
    is_word(v.name) && match v.value {
        ValueView::String(s) => is_plain(s),
        ValueView::Bytes(_) => true,
    }
}

/// Whether every one of the statements is well formed.
pub open spec fn statements_ok(statements: Seq<StatementView>) -> bool {
    forall|n: int| 0 <= n < statements.len() ==> statement_ok(#[trigger] statements[n])
}

/// Whether every one of the variables is well formed.
pub open spec fn variables_ok(variables: Seq<VariableView>) -> bool {
    forall|n: int| 0 <= n < variables.len() ==> variable_ok(#[trigger] variables[n])
}

/// Whether no two of the variables have the same name.
pub open spec fn names_distinct(variables: Seq<VariableView>) -> bool {
    forall|i: int, j: int|
        0 <= i < j < variables.len() ==> (#[trigger] variables[i]).name
            != (#[trigger] variables[j]).name
}

/// Whether the program is one that the parser can build from a text: its
/// variables and statements are well formed, no two variables have the
/// same name, and its entry point is a name.
pub open spec fn canonical(p: ProgramView) -> bool {
    &&& variables_ok(p.data_section.variables)
    &&& names_distinct(p.data_section.variables)
    &&& statements_ok(p.text_section.statements)
    &&& is_name(p.text_section.entrypoint)
}

/// The token that the lexer finds at `k` is well formed.
pub proof fn lemma_scan_token_ok(s: Seq<char>, k: int)
    requires
        0 <= k < s.len(),
    ensures
        match scan_token(s, k) {
            Some((token, _)) => token_ok(token),
            None => true,
        },
{
    lemma_run_end(s, k + 1, CharClass::Word);
    lemma_run_end(s, k + 1, CharClass::Register);
    lemma_run_end(s, k + 1, CharClass::Text);
    if is_word_start(s[k]) {
        let j = run_end(s, k + 1, CharClass::Word);
        let w = s.subrange(k, j);
        assert(w[0] == s[k]);
        assert forall|n: int| 0 <= n < w.len() implies crate::chars::in_class(
            CharClass::Word,
            #[trigger] w[n],
        ) by {
            assert(w[n] == s[k + n]);
        }
    } else if s[k] == '$' {
        let j = run_end(s, k + 1, CharClass::Register);
        let n = s.subrange(k, j);
        assert(n[0] == s[k]);
        assert forall|i: int| 1 <= i < n.len() implies is_register_char(#[trigger] n[i]) by {
            assert(n[i] == s[k + i]);
        }
    }
}

/// Every token that the lexer finds from `i` on is well formed.
pub proof fn lemma_scan_all_ok(s: Seq<char>, i: int)
    requires
        0 <= i <= s.len(),
    ensures
        match scan_all(s, i) {
            Ok(found) => forall|n: int| 0 <= n < found.len() ==> token_ok((#[trigger] found[n]).token),
            Err(_) => true,
        },
    decreases s.len() - i,
{
    lemma_skip_blank(s, i);
    let k = skip_blank(s, i);
    if k < s.len() {
        lemma_scan_token_ok(s, k);
        lemma_scan_token_advances(s, k);
        match scan_token(s, k) {
            Some((token, j)) => {
                lemma_scan_all_ok(s, j);
            },
            None => {},
        }
    }
}

/// Every token of a text is well formed.
pub proof fn lemma_lex_ok(s: Seq<char>)
    ensures
        match lex(s) {
            Ok(ts) => tokens_ok(ts),
            Err(_) => true,
        },
{
    lemma_scan_all_ok(s, 0);
    match scan_all(s, 0) {
        Ok(found) => {
            assert forall|n: int| 0 <= n < spans_of(s, found).len() implies token_ok(
                (#[trigger] spans_of(s, found)[n]).token,
            ) by {
                assert(spans_of(s, found)[n].token == found[n].token);
            }
        },
        Err(_) => {},
    }
}

/// The operands that well-formed tokens give for the pieces are those
/// that the pieces ask for.
pub proof fn lemma_operands_ok(ts: Seq<SpannedView>, pos: int, pieces: Seq<Piece>, k: int)
    requires
        tokens_ok(ts),
        0 <= k <= pieces.len(),
        0 <= pos <= ts.len(),
        parse_operands(ts, pos, pieces, k) is Ok,
    ensures
        operands_fit(pieces, k, parse_operands(ts, pos, pieces, k)->Ok_0),
    decreases pieces.len() - k,
{
    if k < pieces.len() {
        lemma_operands_ok(ts, pos + 1, pieces, k + 1);
        let rest = parse_operands(ts, pos + 1, pieces, k + 1)->Ok_0;
        assert(token_ok(ts[pos].token));
        match piece_accepts(pieces[k], ts[pos].token)->0 {
            Some(arg) => {
                assert((seq![arg] + rest).drop_first() =~= rest);
            },
            None => {},
        }
    }
}

/// The statements that well-formed tokens give are well formed.
pub proof fn lemma_statements_ok(ts: Seq<SpannedView>, pos: int)
    requires
        tokens_ok(ts),
        0 <= pos <= ts.len(),
        parse_statements(ts, pos) is Ok,
    ensures
        statements_ok(parse_statements(ts, pos)->Ok_0),
    decreases ts.len() - pos,
{
    if pos < ts.len() {
        assert(token_ok(ts[pos].token));
        match ts[pos].token {
            TokenView::Label(name) => {
                lemma_statements_ok(ts, pos + 1);
            },
            TokenView::Instruction(word) => {
                let m = crate::mnemonic::mnemonic_of(word)->0;
                lemma_operands_fit(ts, pos + 1, spec_pieces(m), 0);
                lemma_operands_ok(ts, pos + 1, spec_pieces(m), 0);
                lemma_operands_of_ok(m, parse_operands(ts, pos + 1, spec_pieces(m), 0)->Ok_0);
                lemma_statements_ok(ts, after_operands(pos, m));
            },
            _ => {},
        }
    }
}

/// The variables that the parser reads end within the tokens, and no two
/// of them have the same name, nor has one a name of `seen`.
pub proof fn lemma_variables_distinct(ts: Seq<SpannedView>, pos: int, seen: Seq<Seq<char>>)
    requires
        0 <= pos <= ts.len(),
        parse_variables(ts, pos, seen) is Ok,
    ensures
        pos <= parse_variables(ts, pos, seen)->Ok_0.1 <= ts.len(),
        names_distinct(parse_variables(ts, pos, seen)->Ok_0.0),
        forall|n: int|
            0 <= n < parse_variables(ts, pos, seen)->Ok_0.0.len() ==> !seen.contains(
                (#[trigger] parse_variables(ts, pos, seen)->Ok_0.0[n]).name,
            ),
    decreases ts.len() - pos,
{
    if pos < ts.len() && ts[pos].token is Label {
        let name = ts[pos].token->Label_0;
        let after = seen.push(name);
        lemma_variables_distinct(ts, pos + 3, after);
        let rest = parse_variables(ts, pos + 3, after)->Ok_0.0;
        let all = parse_variables(ts, pos, seen)->Ok_0.0;
        assert(all.drop_first() =~= rest);
        assert(after[seen.len() as int] == name);
        assert forall|n: int| 0 <= n < rest.len() implies (#[trigger] rest[n]).name != name
            && !seen.contains(rest[n].name) by {
            assert(!after.contains(rest[n].name));
            if seen.contains(rest[n].name) {
                let k = choose|k: int| 0 <= k < seen.len() && seen[k] == rest[n].name;
                assert(after[k] == rest[n].name);
            }
        }
        assert forall|n: int| 0 <= n < all.len() implies !seen.contains((#[trigger] all[n]).name) by {
            if n > 0 {
                assert(all[n] == rest[n - 1]);
            }
        }
        assert forall|i: int, j: int| 0 <= i < j < all.len() implies (#[trigger] all[i]).name
            != (#[trigger] all[j]).name by {
            assert(all[j] == rest[j - 1]);
            if i > 0 {
                assert(all[i] == rest[i - 1]);
            }
        }
    }
}

/// The variables that well-formed tokens give are well formed.
pub proof fn lemma_variables_ok(ts: Seq<SpannedView>, pos: int, seen: Seq<Seq<char>>)
    requires
        tokens_ok(ts),
        0 <= pos <= ts.len(),
        parse_variables(ts, pos, seen) is Ok,
    ensures
        variables_ok(parse_variables(ts, pos, seen)->Ok_0.0),
    decreases ts.len() - pos,
{
    if pos < ts.len() && ts[pos].token is Label {
        assert(token_ok(ts[pos].token));
        assert(token_ok(ts[pos + 2].token));
        lemma_variables_ok(ts, pos + 3, seen.push(ts[pos].token->Label_0));
    }
}

/// A program that is built from well-formed tokens is canonical.
pub proof fn lemma_parsed_is_canonical(ts: Seq<SpannedView>)
    requires
        tokens_ok(ts),
        parse_program(ts) is Ok,
    ensures
        canonical(parse_program(ts)->Ok_0),
{
    if crate::parser::has_data_section(ts) {
        lemma_variables_ok(ts, 1, Seq::empty());
        lemma_variables_distinct(ts, 1, Seq::empty());
    }
    let pos = crate::parser::parse_data_section(ts)->Ok_0.1;
    assert(token_ok(ts[pos + 2].token));
    lemma_statements_ok(ts, pos + 3);
}

/// A program that is built from a text is canonical.
pub proof fn lemma_parsed_source_is_canonical(source: Seq<char>)
    requires
        parse_source(source) is Ok,
    ensures
        canonical(parse_source(source)->Ok_0),
{
    lemma_lex_ok(source);
    lemma_parsed_is_canonical(lex(source)->Ok_0);
}

/// The operands that fit the pieces are as many as the pieces that stand
/// for an operand.
pub open spec fn operand_count(pieces: Seq<Piece>, k: int) -> nat
    decreases pieces.len() - k,
{
    if !(0 <= k < pieces.len()) {
        0
    } else if yields_operand(pieces[k]) {
        1 + operand_count(pieces, k + 1)
    } else {
        operand_count(pieces, k + 1)
    }
}

/// The parser gives one operand for each piece that stands for one.
pub proof fn lemma_operands_count(ts: Seq<SpannedView>, pos: int, pieces: Seq<Piece>, k: int)
    requires
        0 <= k <= pieces.len(),
        parse_operands(ts, pos, pieces, k) is Ok,
    ensures
        parse_operands(ts, pos, pieces, k)->Ok_0.len() == operand_count(pieces, k),
    decreases pieces.len() - k,
{
    if k < pieces.len() {
        lemma_operands_count(ts, pos + 1, pieces, k + 1);
    }
}

/// Where a statement has to start, an identifier is refused, whatever
/// follows it: no instruction is made up for an unknown mnemonic.
pub proof fn lemma_unknown_mnemonic_is_refused(ts: Seq<SpannedView>, pos: int)
    requires
        0 <= pos < ts.len(),
        ts[pos].token is Identifier,
    ensures
        parse_statements(ts, pos) == Err::<Seq<StatementView>, ParseErrorView>(
            ParseErrorView::UnrecognizedToken {
                token: ts[pos],
                expected: crate::parser::statement_starts(),
            },
        ),
{
}

/// An instruction that the parser accepts has as many operands written as
/// its mnemonic asks for, and as many tokens after the mnemonic as the
/// pieces of its mnemonic: none is left out and none is added.
pub proof fn lemma_arity(ts: Seq<SpannedView>, pos: int, m: Mnemonic)
    requires
        0 <= pos <= ts.len(),
        parse_operands(ts, pos, spec_pieces(m), 0) is Ok,
    ensures
        parse_operands(ts, pos, spec_pieces(m), 0)->Ok_0.len() == operand_count(spec_pieces(m), 0),
        pos + spec_pieces(m).len() <= ts.len(),
{
    lemma_operands_count(ts, pos, spec_pieces(m), 0);
    lemma_operands_fit(ts, pos, spec_pieces(m), 0);
}

/// Whether all characters of `v` from index `from` on belong to the class
/// `k`.
pub fn all_of_class(v: &Vec<char>, from: usize, k: CharClass) -> (r: bool)
    requires
        from <= v.len(),
    ensures
        r == forall|i: int| from <= i < v.len() ==> in_class(k, #[trigger] v@[i]),
{
    proof {
        lemma_run_end(v@, from as int, k);
    }
    scan_run(v, from, k) == v.len()
}

/// Whether `s` is a word.
pub fn is_word_text(s: &str) -> (r: bool)
    ensures
        r == is_word(s@),
{
    let text = SourceText::new(s);
    text.chars.len() >= 1 && is_word_start(text.chars[0]) && all_of_class(
        &text.chars,
        0,
        CharClass::Word,
    )
}

/// Whether `s` is a name: a word that is no mnemonic.
pub fn is_name_text(s: &str) -> (r: bool)
    ensures
        r == is_name(s@),
{
    is_word_text(s) && mnemonic_named(s).is_none()
}

/// Whether `s` is the name of a register.
pub fn is_register_text(s: &str) -> (r: bool)
    ensures
        r == is_register_name(s@),
{
    let text = SourceText::new(s);
    text.chars.len() >= 2 && text.chars[0] == '$' && all_of_class(
        &text.chars,
        1,
        CharClass::Register,
    )
}

/// Whether `s` holds no double quote.
pub fn is_plain_text(s: &str) -> (r: bool)
    ensures
        r == is_plain(s@),
{
    let text = SourceText::new(s);
    all_of_class(&text.chars, 0, CharClass::Text)
}

impl Token {
    /// Whether the token is one that the lexer can find.
    pub fn is_well_formed(&self) -> (r: bool)
        ensures
            r == token_ok(self@),
    {
        match self {
            Token::Instruction(name) => mnemonic_named(name.as_str()).is_some(),
            Token::Register(name) => is_register_text(name.as_str()),
            Token::Label(name) => is_word_text(name.as_str()),
            Token::Identifier(name) => is_name_text(name.as_str()),
            Token::String(text) => is_plain_text(text.as_str()),
            _ => true,
        }
    }
}

impl InstructionArgument {
    /// Whether the operand is one for which a well-formed token stands at
    /// the piece `p`.
    pub fn fits(&self, p: Piece) -> (r: bool)
        ensures
            r == operand_ok(p, self@),
    {
        match (p, self) {
            (Piece::Register, InstructionArgument::Register(register)) => is_register_text(
                register.name.as_str(),
            ),
            (Piece::Immediate, InstructionArgument::Immediate(_)) => true,
            (Piece::Target, InstructionArgument::Label(name)) => is_name_text(name.as_str()),
            (Piece::Name, InstructionArgument::Literal(name)) => is_name_text(name.as_str()),
            (Piece::Value, InstructionArgument::Immediate(_)) => true,
            (Piece::Value, InstructionArgument::Literal(name)) => is_name_text(name.as_str()),
            _ => false,
        }
    }
}

/// Whether the piece stands for an operand.
pub fn stands_for_operand(p: Piece) -> (r: bool)
    ensures
        r == yields_operand(p),
{
    match p {
        Piece::Register | Piece::Immediate | Piece::Target | Piece::Name | Piece::Value => true,
        _ => false,
    }
}

/// Whether `args` are the operands that the pieces ask for.
pub fn operands_are_fit(pieces: &Vec<Piece>, args: &[InstructionArgument]) -> (r: bool)
    ensures
        r == operands_fit(pieces@, 0, argument_views(args@)),
{
    let ghost views = argument_views(args@);
    let mut k: usize = 0;
    let mut j: usize = 0;
    assert(views.skip(0) =~= views);
    while k < pieces.len()
        invariant
            0 <= k <= pieces.len(),
            0 <= j <= args.len(),
            views == argument_views(args@),
            operands_fit(pieces@, 0, views) == operands_fit(pieces@, k as int, views.skip(j as int)),
        decreases pieces.len() - k,
    {
        if stands_for_operand(pieces[k]) {
            if j >= args.len() {
                return false;
            }
            assert(views.skip(j as int)[0] == args@[j as int]@);
            assert(views.skip(j as int).drop_first() =~= views.skip(j + 1));
            if !args[j].fits(pieces[k]) {
                return false;
            }
            j += 1;
        }
        k += 1;
    }
    j == args.len()
}

impl Instruction {
    /// Whether the instruction has the operands that its mnemonic asks
    /// for, each with a well-formed name.
    pub fn is_canonical(&self) -> (r: bool)
        ensures
            r == instruction_ok(self@),
    {
        let m = self.mnemonic();
        match self.args() {
            Some(args) => {
                assert(argument_views(args@) == self@.args);
                if m == Mnemonic::Lw || m == Mnemonic::Sw {
                    if args.len() != 2 {
                        return false;
                    }
                    assert(self@.args[0] == args@[0]@);
                    assert(self@.args[1] == args@[1]@);
                    match &args[1] {
                        InstructionArgument::Literal(text) => {
                            match read_memory_reference(text.as_str()) {
                                Some((offset, base)) => {
                                    proof {
                                        lemma_memory_operands_fit(self@.args[0], offset, base@);
                                    }
                                    args[0].fits(Piece::Register)
                                },
                                None => false,
                            }
                        },
                        _ => false,
                    }
                } else {
                    operands_are_fit(&pieces(m), args.as_slice())
                }
            },
            None => {
                assert(self@.args =~= Seq::<ArgumentView>::empty());
                true
            },
        }
    }
}

impl Statement {
    /// Whether the statement is a label with a well-formed name or an
    /// instruction with the operands that its mnemonic asks for.
    pub fn is_canonical(&self) -> (r: bool)
        ensures
            r == statement_ok(self@),
    {
        match self {
            Statement::Instruction(i) => i.is_canonical(),
            Statement::Label(name) => is_word_text(name.as_str()),
        }
    }
}

impl Variable {
    /// Whether the variable has a well-formed name and, where its value
    /// is a string, one without a quote.
    pub fn is_canonical(&self) -> (r: bool)
        ensures
            r == variable_ok(self@),
    {
        is_word_text(self.name.as_str()) && match &self.value {
            Value::String(s) => is_plain_text(s.as_str()),
            Value::Bytes(_) => true,
        }
    }
}

/// Whether no two of the variables have the same name.
pub fn has_distinct_names(variables: &Vec<Variable>) -> (r: bool)
    ensures
        r == names_distinct(variable_views(variables@)),
{
    let ghost views = variable_views(variables@);
    let mut j: usize = 0;
    while j < variables.len()
        invariant
            0 <= j <= variables.len(),
            views == variable_views(variables@),
            forall|a: int, b: int|
                0 <= a < b < j ==> (#[trigger] views[a]).name != (#[trigger] views[b]).name,
        decreases variables.len() - j,
    {
        let mut i: usize = 0;
        while i < j
            invariant
                0 <= i <= j < variables.len(),
                views == variable_views(variables@),
                forall|a: int| 0 <= a < i ==> (#[trigger] views[a]).name != views[j as int].name,
            decreases j - i,
        {
            assert(views[i as int] == variables@[i as int]@);
            assert(views[j as int] == variables@[j as int]@);
            if variables[i].name == variables[j].name {
                return false;
            }
            i += 1;
        }
        j += 1;
    }
    true
}

impl Program {
    /// Whether the program is canonical: whether it is one that the parser
    /// can build from a text. Printing such a program and parsing the text
    /// gives the program back.
    pub fn is_canonical(&self) -> (r: bool)
        ensures
            r == canonical(self@),
    {
        let mut i: usize = 0;
        while i < self.data_section.variables.len()
            invariant
                0 <= i <= self.data_section.variables.len(),
                forall|n: int|
                    0 <= n < i ==> variable_ok(#[trigger] self@.data_section.variables[n]),
            decreases self.data_section.variables.len() - i,
        {
            assert(self@.data_section.variables[i as int] == self.data_section.variables@[i as int]@);
            if !self.data_section.variables[i].is_canonical() {
                return false;
            }
            i += 1;
        }
        let mut k: usize = 0;
        while k < self.text_section.statements.len()
            invariant
                0 <= k <= self.text_section.statements.len(),
                variables_ok(self@.data_section.variables),
                forall|n: int|
                    0 <= n < k ==> statement_ok(#[trigger] self@.text_section.statements[n]),
            decreases self.text_section.statements.len() - k,
        {
            assert(self@.text_section.statements[k as int] == self.text_section.statements@[k as int]@);
            if !self.text_section.statements[k].is_canonical() {
                return false;
            }
            k += 1;
        }
        has_distinct_names(&self.data_section.variables) && is_name_text(
            self.text_section.entrypoint.as_str(),
        )
    }
}

} // verus!
