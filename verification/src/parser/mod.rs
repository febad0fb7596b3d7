//! The parser: from tokens to the syntax tree.
//!
//! A program is an optional data section, `.data` and its variables, and
//! then a text section: `.text`, `.global` (or `.globl`) with the name of the
//! entry point, and the statements. A variable is a label, a type directive
//! and a value of that type; no two variables have the same name. A
//! statement is a label or an instruction, and each mnemonic fixes how many
//! operands follow it and of what kind.
//!
//! The operand of `lw` and `sw` that addresses memory is written
//! `offset(register)`. It is one operand of the tree, a literal that holds
//! the offset as a decimal numeral and the register in parentheses.
//!
//! Parsing stops at the first token that the grammar does not accept there.

pub mod report;

use vstd::prelude::*;

use crate::ast::argument_views;
use crate::ast::ArgumentView;
use crate::ast::DataSection;
use crate::ast::DataSectionView;
use crate::ast::Instruction;
use crate::ast::InstructionArgument;
use crate::ast::InstructionView;
use crate::ast::Program;
use crate::ast::ProgramView;
use crate::ast::Register;
use crate::ast::Statement;
use crate::ast::statement_views;
use crate::ast::StatementView;
use crate::ast::TextSection;
use crate::ast::TextSectionView;
use crate::ast::Variable;
use crate::ast::variable_views;
use crate::ast::VariableView;
use crate::canonical::canonical;
use crate::canonical::lemma_parsed_is_canonical;
use crate::canonical::tokens_ok;
use crate::lexer::lex;
use crate::memory::memory_reference_text;
use crate::memory::memory_text;
use crate::lexer::Lexer;
use crate::lexer::LexicalError;
use crate::lexer::tokenize;
use crate::lexer::tokens::Spanned;
use crate::lexer::tokens::spanned_views;
use crate::lexer::tokens::SpannedView;
use crate::lexer::tokens::Token;
use crate::lexer::tokens::TokenKind;
use crate::lexer::tokens::TokenView;
use crate::lexer::tokens::Type;
use crate::lexer::tokens::Value;
use crate::lexer::tokens::ValueView;
use crate::mnemonic::Mnemonic;
use crate::mnemonic::mnemonic_named;
use crate::mnemonic::mnemonic_of;

verus! {

/// Why a text is no program.
#[derive(Clone, Debug, PartialEq, Eq)]
pub enum ParseError {
    /// No token starts at the byte offset `location`.
    InvalidToken { location: usize },
    /// The grammar does not accept `token` where it stands; it accepts a
    /// token of one of the kinds `expected`.
    UnrecognizedToken { token: Spanned, expected: Vec<TokenKind> },
    /// The tokens end where the grammar needs a token of one of the kinds
    /// `expected`. `location` is the byte offset after the last token, or
    /// zero where there is no token.
    UnexpectedEnd { location: usize, expected: Vec<TokenKind> },
}

/// A `ParseError` with the view of what it holds.
pub ghost enum ParseErrorView {
    InvalidToken { location: nat },
    UnrecognizedToken { token: SpannedView, expected: Seq<TokenKind> },
    UnexpectedEnd { location: nat, expected: Seq<TokenKind> },
}

impl View for ParseError {
    type V = ParseErrorView;

    open spec fn view(&self) -> ParseErrorView {
        match self {
            ParseError::InvalidToken { location } => ParseErrorView::InvalidToken {
                location: *location as nat,
            },
            ParseError::UnrecognizedToken { token, expected } => ParseErrorView::UnrecognizedToken {
                token: token@,
                expected: expected@,
            },
            ParseError::UnexpectedEnd { location, expected } => ParseErrorView::UnexpectedEnd {
                location: *location as nat,
                expected: expected@,
            },
        }
    }
}

/// One token of the operands of an instruction, as the grammar asks for it.
#[derive(Clone, Copy, Debug, PartialEq, Eq, Structural)]
pub enum Piece {
    /// A register, which becomes a register operand.
    Register,
    /// A number, which becomes an immediate operand.
    Immediate,
    /// An identifier that names a place to jump to, which becomes a label
    /// operand.
    Target,
    /// An identifier that names anything else, which becomes a literal
    /// operand.
    Name,
    /// A number, which becomes an immediate operand, or an identifier,
    /// which becomes a literal operand.
    Value,
    /// The comma between two operands.
    Comma,
    /// The parenthesis before the base register of a memory reference.
    OpenParen,
    /// The parenthesis after the base register of a memory reference.
    CloseParen,
}

/// The shapes that the operands of an instruction can have.
#[derive(Clone, Copy, Debug, PartialEq, Eq, Structural)]
pub enum Form {
    /// No operand: `syscall`.
    Bare,
    /// A label: `j label`.
    Target,
    /// A register: `jr $ra`.
    Register,
    /// A register and a number or a name: `li $t0, 5`.
    RegisterValue,
    /// A register and a name: `la $a0, msg`.
    RegisterName,
    /// Two registers: `move $t0, $t1`.
    TwoRegisters,
    /// A register and a label: `beqz $t0, label`.
    RegisterTarget,
    /// A register and a memory reference: `lw $t0, 8($t1)`.
    Memory,
    /// Three registers: `add $t0, $t1, $t2`.
    ThreeRegisters,
    /// Two registers and a number: `addi $t0, $t1, 4`.
    TwoRegistersImmediate,
    /// Two registers and a label: `beq $t0, $t1, label`.
    TwoRegistersTarget,
}

/// The shape of the operands of the mnemonic `m`.
pub open spec fn spec_form(m: Mnemonic) -> Form {
    match m {
        Mnemonic::Syscall => Form::Bare,
        Mnemonic::J | Mnemonic::Jal => Form::Target,
        Mnemonic::Jr => Form::Register,
        Mnemonic::Li => Form::RegisterValue,
        Mnemonic::Move => Form::TwoRegisters,
        Mnemonic::La => Form::RegisterName,
        Mnemonic::Beqz
        | Mnemonic::Bnez
        | Mnemonic::Bltz
        | Mnemonic::Bgtz
        | Mnemonic::Blez
        | Mnemonic::Bgez => Form::RegisterTarget,
        Mnemonic::Lw | Mnemonic::Sw => Form::Memory,
        Mnemonic::Add
        | Mnemonic::Sub
        | Mnemonic::Slt
        | Mnemonic::Sle
        | Mnemonic::Sgt
        | Mnemonic::Sge
        | Mnemonic::SetEq
        | Mnemonic::Sne => Form::ThreeRegisters,
        Mnemonic::Addi | Mnemonic::Andi => Form::TwoRegistersImmediate,
        Mnemonic::Beq
        | Mnemonic::Bne
        | Mnemonic::Blt
        | Mnemonic::Bgt
        | Mnemonic::Ble
        | Mnemonic::Bge => Form::TwoRegistersTarget,
    }
}

/// The tokens that write operands of the form `f`, in their order.
pub open spec fn form_pieces(f: Form) -> Seq<Piece> {
    match f {
        Form::Bare => seq![],
        Form::Target => seq![Piece::Target],
        Form::Register => seq![Piece::Register],
        Form::RegisterValue => seq![Piece::Register, Piece::Comma, Piece::Value],
        Form::RegisterName => seq![Piece::Register, Piece::Comma, Piece::Name],
        Form::TwoRegisters => seq![Piece::Register, Piece::Comma, Piece::Register],
        Form::RegisterTarget => seq![Piece::Register, Piece::Comma, Piece::Target],
        Form::Memory => seq![
            Piece::Register,
            Piece::Comma,
            Piece::Immediate,
            Piece::OpenParen,
            Piece::Register,
            Piece::CloseParen,
        ],
        Form::ThreeRegisters => seq![
            Piece::Register,
            Piece::Comma,
            Piece::Register,
            Piece::Comma,
            Piece::Register,
        ],
        Form::TwoRegistersImmediate => seq![
            Piece::Register,
            Piece::Comma,
            Piece::Register,
            Piece::Comma,
            Piece::Immediate,
        ],
        Form::TwoRegistersTarget => seq![
            Piece::Register,
            Piece::Comma,
            Piece::Register,
            Piece::Comma,
            Piece::Target,
        ],
    }
}

/// The tokens that follow the mnemonic `m`, in their order.
pub open spec fn spec_pieces(m: Mnemonic) -> Seq<Piece> {
    form_pieces(spec_form(m))
}

/// Whether the piece `p` accepts the token `t`, and the operand that the
/// token then stands for, if it stands for one.
pub open spec fn piece_accepts(p: Piece, t: TokenView) -> Option<Option<ArgumentView>> {
    match (p, t) {
        (Piece::Register, TokenView::Register(name)) => Some(Some(ArgumentView::Register(name))),
        (Piece::Immediate, TokenView::Number(n)) => Some(Some(ArgumentView::Immediate(n))),
        (Piece::Target, TokenView::Identifier(name)) => Some(Some(ArgumentView::Label(name))),
        (Piece::Name, TokenView::Identifier(name)) => Some(Some(ArgumentView::Literal(name))),
        (Piece::Value, TokenView::Number(n)) => Some(Some(ArgumentView::Immediate(n))),
        (Piece::Value, TokenView::Identifier(name)) => Some(Some(ArgumentView::Literal(name))),
        (Piece::Comma, TokenView::Comma) => Some(None),
        (Piece::OpenParen, TokenView::OpenParen) => Some(None),
        (Piece::CloseParen, TokenView::CloseParen) => Some(None),
        _ => None,
    }
}

/// The kinds of token that the piece `p` accepts.
pub open spec fn piece_expected(p: Piece) -> Seq<TokenKind> {
    match p {
        Piece::Register => seq![TokenKind::Register],
        Piece::Immediate => seq![TokenKind::Number],
        Piece::Target => seq![TokenKind::Identifier],
        Piece::Name => seq![TokenKind::Identifier],
        Piece::Value => seq![TokenKind::Number, TokenKind::Identifier],
        Piece::Comma => seq![TokenKind::Comma],
        Piece::OpenParen => seq![TokenKind::OpenParen],
        Piece::CloseParen => seq![TokenKind::CloseParen],
    }
}

/// The error for the place `pos`, where a token of one of the kinds
/// `expected` is needed: the token there is refused, or the tokens have
/// ended.
pub open spec fn refusal(ts: Seq<SpannedView>, pos: int, expected: Seq<TokenKind>) -> ParseErrorView {
    if 0 <= pos < ts.len() {
        ParseErrorView::UnrecognizedToken { token: ts[pos], expected }
    } else if ts.len() > 0 {
        ParseErrorView::UnexpectedEnd { location: ts[ts.len() - 1].end, expected }
    } else {
        ParseErrorView::UnexpectedEnd { location: 0, expected }
    }
}

/// The operands that the tokens from `pos` on give for the pieces from
/// index `k` on.
pub open spec fn parse_operands(ts: Seq<SpannedView>, pos: int, pieces: Seq<Piece>, k: int) -> Result<
    Seq<ArgumentView>,
    ParseErrorView,
>
    decreases pieces.len() - k,
{
    if !(0 <= k < pieces.len()) {
        Ok(Seq::empty())
    } else if 0 <= pos < ts.len() && piece_accepts(pieces[k], ts[pos].token) is Some {
        match parse_operands(ts, pos + 1, pieces, k + 1) {
            Ok(rest) => match piece_accepts(pieces[k], ts[pos].token)->0 {
                Some(arg) => Ok(seq![arg] + rest),
                None => Ok(rest),
            },
            Err(e) => Err(e),
        }
    } else {
        Err(refusal(ts, pos, piece_expected(pieces[k])))
    }
}

/// Where the operands are accepted, there is a token for each piece.
pub proof fn lemma_operands_fit(ts: Seq<SpannedView>, pos: int, pieces: Seq<Piece>, k: int)
    requires
        0 <= k <= pieces.len(),
        0 <= pos <= ts.len(),
        parse_operands(ts, pos, pieces, k) is Ok,
    ensures
        pos + pieces.len() - k <= ts.len(),
    decreases pieces.len() - k,
{
    if k < pieces.len() {
        lemma_operands_fit(ts, pos + 1, pieces, k + 1);
    }
}

/// The place after the instruction with the mnemonic `m` that starts at
/// `pos`.
pub open spec fn after_operands(pos: int, m: Mnemonic) -> int {
    pos + 1 + spec_pieces(m).len()
}

/// The kinds of token with which a statement starts.
pub open spec fn statement_starts() -> Seq<TokenKind> {
    seq![TokenKind::Label, TokenKind::Instruction]
}

/// The operands of an instruction of the mnemonic `m` for the operands
/// `found` that its tokens stand for: those operands, but that the offset
/// and the base register of a memory reference make one operand, a literal
/// with the text of the reference.
pub open spec fn operands_of(m: Mnemonic, found: Seq<ArgumentView>) -> Seq<ArgumentView> {
    if spec_form(m) == Form::Memory && found.len() == 3 {
        match (found[1], found[2]) {
            (ArgumentView::Immediate(offset), ArgumentView::Register(base)) => seq![
                found[0],
                ArgumentView::Literal(memory_text(offset, base)),
            ],
            _ => found,
        }
    } else {
        found
    }
}

/// The statements that the tokens from `pos` on give.
pub open spec fn parse_statements(ts: Seq<SpannedView>, pos: int) -> Result<
    Seq<StatementView>,
    ParseErrorView,
>
    decreases ts.len() - pos,
{
    if !(0 <= pos < ts.len()) {
        Ok(Seq::empty())
    } else {
        match ts[pos].token {
            TokenView::Label(name) => match parse_statements(ts, pos + 1) {
                Ok(rest) => Ok(seq![StatementView::Label(name)] + rest),
                Err(e) => Err(e),
            },
            TokenView::Instruction(word) => match mnemonic_of(word) {
                Some(m) => match parse_operands(ts, pos + 1, spec_pieces(m), 0) {
                    Ok(args) => {
                        proof {
                            lemma_operands_fit(ts, pos + 1, spec_pieces(m), 0);
                        }
                        match parse_statements(ts, after_operands(pos, m)) {
                            Ok(rest) => Ok(
                                seq![
                                    StatementView::Instruction(
                                        InstructionView {
                                            mnemonic: m,
                                            args: operands_of(m, args),
                                        },
                                    ),
                                ] + rest,
                            ),
                            Err(e) => Err(e),
                        }
                    },
                    Err(e) => Err(e),
                },
                None => Err(refusal(ts, pos, statement_starts())),
            },
            _ => Err(refusal(ts, pos, statement_starts())),
        }
    }
}

/// The value of type `t` for which the token stands, if it stands for one.
pub open spec fn value_of(t: Type, token: TokenView) -> Option<ValueView> {
    match (t, token) {
        (Type::Asciiz, TokenView::String(s)) => Some(ValueView::String(s)),
        (Type::Space, TokenView::Number(n)) => Some(ValueView::Bytes(n)),
        _ => None,
    }
}

/// The kind of token that writes a value of type `t`.
pub open spec fn value_kind(t: Type) -> Seq<TokenKind> {
    match t {
        Type::Asciiz => seq![TokenKind::String],
        Type::Space => seq![TokenKind::Number],
    }
}

/// The kinds of token that may stand where a variable may start.
pub open spec fn variable_starts() -> Seq<TokenKind> {
    seq![TokenKind::Label, TokenKind::TextSection]
}

/// The variables that the tokens from `pos` on give, and the place of the
/// first token after them. `seen` holds the names of the variables before
/// them: a variable of one of these names is refused at its label.
pub open spec fn parse_variables(ts: Seq<SpannedView>, pos: int, seen: Seq<Seq<char>>) -> Result<
    (Seq<VariableView>, int),
    ParseErrorView,
>
    decreases ts.len() - pos,
{
    if 0 <= pos < ts.len() && ts[pos].token is Label {
        let name = ts[pos].token->Label_0;
        if seen.contains(name) {
            Err(refusal(ts, pos, variable_starts()))
        } else if pos + 1 < ts.len() && ts[pos + 1].token is Type {
            let t = ts[pos + 1].token->Type_0;
            if pos + 2 < ts.len() && value_of(t, ts[pos + 2].token) is Some {
                let variable = VariableView { name, value: value_of(t, ts[pos + 2].token)->0 };
                match parse_variables(ts, pos + 3, seen.push(name)) {
                    Ok((rest, end)) => Ok((seq![variable] + rest, end)),
                    Err(e) => Err(e),
                }
            } else {
                Err(refusal(ts, pos + 2, value_kind(t)))
            }
        } else {
            Err(refusal(ts, pos + 1, seq![TokenKind::Type]))
        }
    } else {
        Ok((Seq::empty(), pos))
    }
}

/// Whether the tokens start with the header of a data section.
pub open spec fn has_data_section(ts: Seq<SpannedView>) -> bool {
    ts.len() > 0 && ts[0].token is DataSection
}

/// The variables of the data section, where there is one, and the place
/// of the first token after the section.
pub open spec fn parse_data_section(ts: Seq<SpannedView>) -> Result<
    (Seq<VariableView>, int),
    ParseErrorView,
> {
    if has_data_section(ts) {
        parse_variables(ts, 1, Seq::empty())
    } else {
        Ok((Seq::empty(), 0))
    }
}

/// The kinds of token that may stand where the text section has to start.
pub open spec fn text_section_starts(ts: Seq<SpannedView>) -> Seq<TokenKind> {
    if has_data_section(ts) {
        variable_starts()
    } else {
        seq![TokenKind::DataSection, TokenKind::TextSection]
    }
}

/// The text section that the tokens from `pos` on give.
pub open spec fn parse_text_section(ts: Seq<SpannedView>, pos: int) -> Result<
    TextSectionView,
    ParseErrorView,
> {
    if !(0 <= pos < ts.len() && ts[pos].token is TextSection) {
        Err(refusal(ts, pos, text_section_starts(ts)))
    } else if !(pos + 1 < ts.len() && ts[pos + 1].token is GlobalSection) {
        Err(refusal(ts, pos + 1, seq![TokenKind::GlobalSection]))
    } else if !(pos + 2 < ts.len() && ts[pos + 2].token is Identifier) {
        Err(refusal(ts, pos + 2, seq![TokenKind::Identifier]))
    } else {
        match parse_statements(ts, pos + 3) {
            Ok(statements) => Ok(
                TextSectionView { statements, entrypoint: ts[pos + 2].token->Identifier_0 },
            ),
            Err(e) => Err(e),
        }
    }
}

/// The program that the tokens `ts` write, or the first error in them.
pub open spec fn parse_program(ts: Seq<SpannedView>) -> Result<ProgramView, ParseErrorView> {
    match parse_data_section(ts) {
        Ok((variables, pos)) => match parse_text_section(ts, pos) {
            Ok(text_section) => Ok(
                ProgramView { data_section: DataSectionView { variables }, text_section },
            ),
            Err(e) => Err(e),
        },
        Err(e) => Err(e),
    }
}

/// The program that the text `source` writes, or the first error in it.
pub open spec fn parse_source(source: Seq<char>) -> Result<ProgramView, ParseErrorView> {
    match lex(source) {
        Ok(ts) => parse_program(ts),
        Err(location) => Err(ParseErrorView::InvalidToken { location }),
    }
}

/// Whether the outcome `model` is the value `value`.
pub open spec fn gives<T>(model: Result<T, ParseErrorView>, value: T) -> bool {
    model == Ok::<T, ParseErrorView>(value)
}

/// Whether the error `e` of a parse shows the outcome `model`.
pub open spec fn fails<T>(e: ParseError, model: Result<T, ParseErrorView>) -> bool {
    model == Err::<T, ParseErrorView>(e@)
}

/// Whether the outcome `r` of a parse shows the outcome `model`.
pub open spec fn shows(r: Result<Program, ParseError>, model: Result<ProgramView, ParseErrorView>) -> bool {
    match r {
        Ok(program) => gives(model, program@),
        Err(e) => fails(e, model),
    }
}

impl Piece {
    /// The kinds of token that the piece accepts.
    pub fn expected(self) -> (kinds: Vec<TokenKind>)
        ensures
            kinds@ == piece_expected(self),
    {
        let mut kinds: Vec<TokenKind> = Vec::new();
        match self {
            Piece::Register => kinds.push(TokenKind::Register),
            Piece::Immediate => kinds.push(TokenKind::Number),
            Piece::Target => kinds.push(TokenKind::Identifier),
            Piece::Name => kinds.push(TokenKind::Identifier),
            Piece::Value => {
                kinds.push(TokenKind::Number);
                kinds.push(TokenKind::Identifier);
            },
            Piece::Comma => kinds.push(TokenKind::Comma),
            Piece::OpenParen => kinds.push(TokenKind::OpenParen),
            Piece::CloseParen => kinds.push(TokenKind::CloseParen),
        }
        assert(kinds@ =~= piece_expected(self));
        kinds
    }

    /// Whether the piece accepts the token `t`, and the operand that the
    /// token then stands for, if it stands for one.
    pub fn accept(self, t: &Token) -> (r: Option<Option<InstructionArgument>>)
        ensures
            match r {
                Some(Some(arg)) => piece_accepts(self, t@) == Some(Some(arg@)),
                Some(None) => piece_accepts(self, t@) == Some(None::<ArgumentView>),
                None => piece_accepts(self, t@) is None,
            },
    {
        match (self, t) {
            (Piece::Register, Token::Register(name)) => Some(
                Some(InstructionArgument::Register(Register { name: name.clone() })),
            ),
            (Piece::Immediate, Token::Number(n)) => Some(Some(InstructionArgument::Immediate(*n))),
            (Piece::Target, Token::Identifier(name)) => Some(
                Some(InstructionArgument::Label(name.clone())),
            ),
            (Piece::Name, Token::Identifier(name)) => Some(
                Some(InstructionArgument::Literal(name.clone())),
            ),
            (Piece::Value, Token::Number(n)) => Some(Some(InstructionArgument::Immediate(*n))),
            (Piece::Value, Token::Identifier(name)) => Some(
                Some(InstructionArgument::Literal(name.clone())),
            ),
            (Piece::Comma, Token::Comma) => Some(None),
            (Piece::OpenParen, Token::OpenParen) => Some(None),
            (Piece::CloseParen, Token::CloseParen) => Some(None),
            _ => None,
        }
    }
}

/// The shape of the operands of the mnemonic `m`.
pub fn form(m: Mnemonic) -> (f: Form)
    ensures
        f == spec_form(m),
{
    match m {
        Mnemonic::Syscall => Form::Bare,
        Mnemonic::J | Mnemonic::Jal => Form::Target,
        Mnemonic::Jr => Form::Register,
        Mnemonic::Li => Form::RegisterValue,
        Mnemonic::Move => Form::TwoRegisters,
        Mnemonic::La => Form::RegisterName,
        Mnemonic::Beqz
        | Mnemonic::Bnez
        | Mnemonic::Bltz
        | Mnemonic::Bgtz
        | Mnemonic::Blez
        | Mnemonic::Bgez => Form::RegisterTarget,
        Mnemonic::Lw | Mnemonic::Sw => Form::Memory,
        Mnemonic::Add
        | Mnemonic::Sub
        | Mnemonic::Slt
        | Mnemonic::Sle
        | Mnemonic::Sgt
        | Mnemonic::Sge
        | Mnemonic::SetEq
        | Mnemonic::Sne => Form::ThreeRegisters,
        Mnemonic::Addi | Mnemonic::Andi => Form::TwoRegistersImmediate,
        Mnemonic::Beq
        | Mnemonic::Bne
        | Mnemonic::Blt
        | Mnemonic::Bgt
        | Mnemonic::Ble
        | Mnemonic::Bge => Form::TwoRegistersTarget,
    }
}

/// The tokens that follow the mnemonic `m`, in their order.
pub fn pieces(m: Mnemonic) -> (r: Vec<Piece>)
    ensures
        r@ == spec_pieces(m),
{
    let mut r: Vec<Piece> = Vec::new();
    match form(m) {
        Form::Bare => {},
        Form::Target => {
            r.push(Piece::Target);
        },
        Form::Register => {
            r.push(Piece::Register);
        },
        Form::RegisterValue => {
            r.push(Piece::Register);
            r.push(Piece::Comma);
            r.push(Piece::Value);
        },
        Form::RegisterName => {
            r.push(Piece::Register);
            r.push(Piece::Comma);
            r.push(Piece::Name);
        },
        Form::TwoRegisters => {
            r.push(Piece::Register);
            r.push(Piece::Comma);
            r.push(Piece::Register);
        },
        Form::RegisterTarget => {
            r.push(Piece::Register);
            r.push(Piece::Comma);
            r.push(Piece::Target);
        },
        Form::Memory => {
            r.push(Piece::Register);
            r.push(Piece::Comma);
            r.push(Piece::Immediate);
            r.push(Piece::OpenParen);
            r.push(Piece::Register);
            r.push(Piece::CloseParen);
        },
        Form::ThreeRegisters => {
            r.push(Piece::Register);
            r.push(Piece::Comma);
            r.push(Piece::Register);
            r.push(Piece::Comma);
            r.push(Piece::Register);
        },
        Form::TwoRegistersImmediate => {
            r.push(Piece::Register);
            r.push(Piece::Comma);
            r.push(Piece::Register);
            r.push(Piece::Comma);
            r.push(Piece::Immediate);
        },
        Form::TwoRegistersTarget => {
            r.push(Piece::Register);
            r.push(Piece::Comma);
            r.push(Piece::Register);
            r.push(Piece::Comma);
            r.push(Piece::Target);
        },
    }
    assert(r@ =~= spec_pieces(m));
    r
}

/// The error for the place `pos`, where a token of one of the kinds
/// `expected` is needed.
pub fn refuse(tokens: &Vec<Spanned>, pos: usize, expected: Vec<TokenKind>) -> (e: ParseError)
    ensures
        e@ == refusal(spanned_views(tokens@), pos as int, expected@),
{
    if pos < tokens.len() {
        let t = &tokens[pos];
        ParseError::UnrecognizedToken {
            token: Spanned { start: t.start, token: t.token.duplicate(), end: t.end },
            expected,
        }
    } else if tokens.len() > 0 {
        ParseError::UnexpectedEnd { location: tokens[tokens.len() - 1].end, expected }
    } else {
        ParseError::UnexpectedEnd { location: 0, expected }
    }
}

/// The outcome `rest` with the items `front` put before what it found.
pub open spec fn with_front<T>(front: Seq<T>, rest: Result<Seq<T>, ParseErrorView>) -> Result<
    Seq<T>,
    ParseErrorView,
> {
    match rest {
        Ok(more) => Ok(front + more),
        Err(e) => Err(e),
    }
}

/// Reads the operands of the mnemonic `m` from the tokens at `pos` on, and
/// gives them with the place of the first token after them.
pub fn read_operands(tokens: &Vec<Spanned>, pos: usize, m: Mnemonic) -> (r: Result<
    (Vec<InstructionArgument>, usize),
    ParseError,
>)
    requires
        pos <= tokens.len(),
    ensures
        match r {
            Ok((args, next)) => gives(
                parse_operands(spanned_views(tokens@), pos as int, spec_pieces(m), 0),
                argument_views(args@),
            ) && next == pos + spec_pieces(m).len() && next <= tokens.len(),
            Err(e) => fails(
                e,
                parse_operands(spanned_views(tokens@), pos as int, spec_pieces(m), 0),
            ),
        },
{
    let ghost ts = spanned_views(tokens@);
    let ps = pieces(m);
    let mut args: Vec<InstructionArgument> = Vec::new();
    let mut k: usize = 0;
    proof {
        assert(argument_views(args@) =~= Seq::<ArgumentView>::empty());
        match parse_operands(ts, pos as int, ps@, 0) {
            Ok(all) => assert(Seq::<ArgumentView>::empty() + all =~= all),
            Err(_) => {},
        }
    }
    while k < ps.len()
        invariant
            ts == spanned_views(tokens@),
            ps@ == spec_pieces(m),
            0 <= k <= ps.len(),
            pos + k <= tokens.len(),
            parse_operands(ts, pos as int, ps@, 0) == with_front(
                argument_views(args@),
                parse_operands(ts, pos + k, ps@, k as int),
            ),
        decreases ps.len() - k,
    {
        let at: usize = pos + k;
        if at >= tokens.len() {
            return Err(refuse(tokens, at, ps[k].expected()));
        }
        assert(ts[at as int] == tokens@[at as int]@);
        let ghost before = argument_views(args@);
        let ghost rest = parse_operands(ts, at + 1, ps@, k + 1);
        match ps[k].accept(&tokens[at].token) {
            None => {
                return Err(refuse(tokens, at, ps[k].expected()));
            },
            Some(None) => {},
            Some(Some(arg)) => {
                proof {
                    assert(argument_views(args@.push(arg)) =~= before.push(arg@));
                    match rest {
                        Ok(more) => assert(before.push(arg@) + more =~= before + (seq![arg@]
                            + more)),
                        Err(_) => {},
                    }
                }
                args.push(arg);
            },
        }
        k += 1;
    }
    proof {
        assert(argument_views(args@) + Seq::<ArgumentView>::empty() =~= argument_views(args@));
    }
    Ok((args, pos + k))
}

/// Makes the operands of an instruction of the mnemonic `m` of the
/// operands `found` that its tokens stand for: the offset and the base
/// register of a memory reference become one literal.
pub fn fold_operands(m: Mnemonic, found: Vec<InstructionArgument>) -> (args: Vec<
    InstructionArgument,
>)
    ensures
        argument_views(args@) == operands_of(m, argument_views(found@)),
{
    let ghost before = argument_views(found@);
    if form(m) != Form::Memory || found.len() != 3 {
        return found;
    }
    let mut args = found;
    assert(before[1] == args@[1]@ && before[2] == args@[2]@ && before[0] == args@[0]@);
    let base = args.pop();
    let offset = args.pop();
    match (offset, base) {
        (Some(InstructionArgument::Immediate(n)), Some(InstructionArgument::Register(r))) => {
            args.push(InstructionArgument::Literal(memory_reference_text(n, r.name.as_str())));
            assert(argument_views(args@) =~= operands_of(m, before));
        },
        (Some(second), Some(third)) => {
            args.push(second);
            args.push(third);
            assert(argument_views(args@) =~= before);
        },
        _ => {},
    }
    args
}

/// Reads the statements from the tokens at `start` on, up to the last token.
pub fn read_statements(tokens: &Vec<Spanned>, start: usize) -> (r: Result<
    Vec<Statement>,
    ParseError,
>)
    requires
        start <= tokens.len(),
    ensures
        match r {
            Ok(statements) => gives(
                parse_statements(spanned_views(tokens@), start as int),
                statement_views(statements@),
            ),
            Err(e) => fails(e, parse_statements(spanned_views(tokens@), start as int)),
        },
{
    let ghost ts = spanned_views(tokens@);
    let mut statements: Vec<Statement> = Vec::new();
    let mut pos: usize = start;
    proof {
        assert(statement_views(statements@) =~= Seq::<StatementView>::empty());
        match parse_statements(ts, start as int) {
            Ok(all) => assert(Seq::<StatementView>::empty() + all =~= all),
            Err(_) => {},
        }
    }
    while pos < tokens.len()
        invariant
            ts == spanned_views(tokens@),
            start <= pos <= tokens.len(),
            parse_statements(ts, start as int) == with_front(
                statement_views(statements@),
                parse_statements(ts, pos as int),
            ),
        decreases tokens.len() - pos,
    {
        assert(ts[pos as int] == tokens@[pos as int]@);
        let ghost before = statement_views(statements@);
        match &tokens[pos].token {
            Token::Label(name) => {
                let statement = Statement::Label(name.clone());
                proof {
                    assert(statement_views(statements@.push(statement)) =~= before.push(
                        statement@,
                    ));
                    match parse_statements(ts, pos + 1) {
                        Ok(more) => assert(before.push(statement@) + more =~= before + (
                        seq![statement@] + more)),
                        Err(_) => {},
                    }
                }
                statements.push(statement);
                pos += 1;
            },
            Token::Instruction(word) => {
                match mnemonic_named(word.as_str()) {
                    None => {
                        return Err(refuse(tokens, pos, statement_kinds()));
                    },
                    Some(m) => {
                        match read_operands(tokens, pos + 1, m) {
                            Err(e) => {
                                return Err(e);
                            },
                            Ok((args, next)) => {
                                let ghost found = argument_views(args@);
                                let args = fold_operands(m, args);
                                let statement = Statement::Instruction(
                                    Instruction::with_mnemonic(m, args),
                                );
                                proof {
                                    assert(statement@ == StatementView::Instruction(
                                        InstructionView {
                                            mnemonic: m,
                                            args: argument_views(args@),
                                        },
                                    )) by {
                                        if m == Mnemonic::Syscall {
                                            assert(found =~= Seq::<ArgumentView>::empty());
                                            assert(argument_views(args@) =~= argument_views(
                                                Seq::<InstructionArgument>::empty(),
                                            ));
                                        }
                                    }
                                    assert(statement_views(statements@.push(statement))
                                        =~= before.push(statement@));
                                    match parse_statements(ts, next as int) {
                                        Ok(more) => assert(before.push(statement@) + more
                                            =~= before + (seq![statement@] + more)),
                                        Err(_) => {},
                                    }
                                }
                                statements.push(statement);
                                pos = next;
                            },
                        }
                    },
                }
            },
            _ => {
                return Err(refuse(tokens, pos, statement_kinds()));
            },
        }
    }
    proof {
        assert(statement_views(statements@) + Seq::<StatementView>::empty() =~= statement_views(
            statements@,
        ));
    }
    Ok(statements)
}

/// The kinds of token with which a statement starts.
pub fn statement_kinds() -> (kinds: Vec<TokenKind>)
    ensures
        kinds@ == statement_starts(),
{
    let mut kinds: Vec<TokenKind> = Vec::new();
    kinds.push(TokenKind::Label);
    kinds.push(TokenKind::Instruction);
    assert(kinds@ =~= statement_starts());
    kinds
}

/// The one kind `kind`, as a list.
pub fn one_kind(kind: TokenKind) -> (kinds: Vec<TokenKind>)
    ensures
        kinds@ == seq![kind],
{
    let mut kinds: Vec<TokenKind> = Vec::new();
    kinds.push(kind);
    assert(kinds@ =~= seq![kind]);
    kinds
}

/// The outcome `rest` with the variables `front` put before what it found.
pub open spec fn with_variables(
    front: Seq<VariableView>,
    rest: Result<(Seq<VariableView>, int), ParseErrorView>,
) -> Result<(Seq<VariableView>, int), ParseErrorView> {
    match rest {
        Ok((more, end)) => Ok((front + more, end)),
        Err(e) => Err(e),
    }
}

/// The names of the variables.
pub open spec fn names_of(variables: Seq<VariableView>) -> Seq<Seq<char>> {
    variables.map_values(|v: VariableView| v.name)
}

/// Whether one of the variables has the name `name`.
pub fn is_declared(variables: &Vec<Variable>, name: &String) -> (r: bool)
    ensures
        r == names_of(variable_views(variables@)).contains(name@),
{
    let ghost names = names_of(variable_views(variables@));
    let mut i: usize = 0;
    while i < variables.len()
        invariant
            0 <= i <= variables.len(),
            names == names_of(variable_views(variables@)),
            forall|k: int| 0 <= k < i ==> names[k] != name@,
        decreases variables.len() - i,
    {
        assert(names[i as int] == variables@[i as int].name@);
        if variables[i].name == *name {
            return true;
        }
        i += 1;
    }
    false
}

/// The kinds of token that may stand where a variable may start.
pub fn variable_kinds() -> (kinds: Vec<TokenKind>)
    ensures
        kinds@ == variable_starts(),
{
    let mut kinds: Vec<TokenKind> = Vec::new();
    kinds.push(TokenKind::Label);
    kinds.push(TokenKind::TextSection);
    assert(kinds@ =~= variable_starts());
    kinds
}

/// Reads the variables from the tokens at `start` on, and gives them with
/// the place of the first token after them.
pub fn read_variables(tokens: &Vec<Spanned>, start: usize) -> (r: Result<
    (Vec<Variable>, usize),
    ParseError,
>)
    requires
        start <= tokens.len(),
    ensures
        match r {
            Ok((variables, next)) => gives(
                parse_variables(spanned_views(tokens@), start as int, Seq::empty()),
                (variable_views(variables@), next as int),
            ) && next <= tokens.len(),
            Err(e) => fails(e, parse_variables(spanned_views(tokens@), start as int, Seq::empty())),
        },
{
    let ghost ts = spanned_views(tokens@);
    let mut variables: Vec<Variable> = Vec::new();
    let mut pos: usize = start;
    proof {
        assert(variable_views(variables@) =~= Seq::<VariableView>::empty());
        assert(names_of(variable_views(variables@)) =~= Seq::<Seq<char>>::empty());
        match parse_variables(ts, start as int, Seq::empty()) {
            Ok((all, _)) => assert(Seq::<VariableView>::empty() + all =~= all),
            Err(_) => {},
        }
    }
    loop
        invariant
            ts == spanned_views(tokens@),
            start <= pos <= tokens.len(),
            parse_variables(ts, start as int, Seq::empty()) == with_variables(
                variable_views(variables@),
                parse_variables(ts, pos as int, names_of(variable_views(variables@))),
            ),
        decreases tokens.len() - pos,
    {
        let ghost before = variable_views(variables@);
        if pos >= tokens.len() {
            proof {
                assert(before + Seq::<VariableView>::empty() =~= before);
            }
            return Ok((variables, pos));
        }
        assert(ts[pos as int] == tokens@[pos as int]@);
        let name = match &tokens[pos].token {
            Token::Label(name) => name.clone(),
            _ => {
                proof {
                    assert(before + Seq::<VariableView>::empty() =~= before);
                }
                return Ok((variables, pos));
            },
        };
        if is_declared(&variables, &name) {
            return Err(refuse(tokens, pos, variable_kinds()));
        }
        if tokens.len() - pos < 2 {
            return Err(refuse(tokens, pos + 1, one_kind(TokenKind::Type)));
        }
        assert(ts[pos + 1] == tokens@[pos + 1]@);
        let t = match &tokens[pos + 1].token {
            Token::Type(t) => *t,
            _ => {
                return Err(refuse(tokens, pos + 1, one_kind(TokenKind::Type)));
            },
        };
        let wanted = match t {
            Type::Asciiz => TokenKind::String,
            Type::Space => TokenKind::Number,
        };
        assert(seq![wanted] =~= value_kind(t));
        if tokens.len() - pos < 3 {
            return Err(refuse(tokens, pos + 2, one_kind(wanted)));
        }
        assert(ts[pos + 2] == tokens@[pos + 2]@);
        let value = match (t, &tokens[pos + 2].token) {
            (Type::Asciiz, Token::String(s)) => Value::String(s.clone()),
            (Type::Space, Token::Number(n)) => Value::Bytes(*n),
            _ => {
                return Err(refuse(tokens, pos + 2, one_kind(wanted)));
            },
        };
        let variable = Variable { name, value };
        proof {
            assert(variable_views(variables@.push(variable)) =~= before.push(variable@));
            assert(names_of(before.push(variable@)) =~= names_of(before).push(variable@.name));
            match parse_variables(ts, pos + 3, names_of(before).push(variable@.name)) {
                Ok((more, _)) => assert(before.push(variable@) + more =~= before + (
                seq![variable@] + more)),
                Err(_) => {},
            }
        }
        variables.push(variable);
        pos += 3;
    }
}

/// Builds the program that the tokens write. The data section may be
/// missing, and the program has no variables then; the text section and
/// its entry point may not. Where the grammar does not accept a token, the
/// error holds that token and the kinds of token accepted in its place;
/// where the tokens end too early, the error says so.
pub fn parse_tokens(tokens: &Vec<Spanned>) -> (r: Result<Program, ParseError>)
    ensures
        shows(r, parse_program(spanned_views(tokens@))),
        r is Ok && tokens_ok(spanned_views(tokens@)) ==> canonical(r->Ok_0@),
{
    let ghost ts = spanned_views(tokens@);
    proof {
        if parse_program(ts) is Ok {
            if tokens_ok(ts) {
                lemma_parsed_is_canonical(ts);
            }
        }
    }
    let with_data = tokens.len() > 0 && match &tokens[0].token {
        Token::DataSection => true,
        _ => false,
    };
    proof {
        if tokens.len() > 0 {
            assert(ts[0] == tokens@[0]@);
        }
        assert(with_data == has_data_section(ts));
    }
    let (variables, pos) = if with_data {
        match read_variables(tokens, 1) {
            Ok(found) => found,
            Err(e) => {
                return Err(e);
            },
        }
    } else {
        let none: Vec<Variable> = Vec::new();
        assert(variable_views(none@) =~= Seq::<VariableView>::empty());
        (none, 0)
    };
    let mut starts: Vec<TokenKind> = Vec::new();
    if with_data {
        starts.push(TokenKind::Label);
    } else {
        starts.push(TokenKind::DataSection);
    }
    starts.push(TokenKind::TextSection);
    assert(starts@ =~= text_section_starts(ts));
    if pos >= tokens.len() {
        return Err(refuse(tokens, pos, starts));
    }
    assert(ts[pos as int] == tokens@[pos as int]@);
    match &tokens[pos].token {
        Token::TextSection => {},
        _ => {
            return Err(refuse(tokens, pos, starts));
        },
    }
    if tokens.len() - pos < 2 {
        return Err(refuse(tokens, pos + 1, one_kind(TokenKind::GlobalSection)));
    }
    assert(ts[pos + 1] == tokens@[pos + 1]@);
    match &tokens[pos + 1].token {
        Token::GlobalSection => {},
        _ => {
            return Err(refuse(tokens, pos + 1, one_kind(TokenKind::GlobalSection)));
        },
    }
    if tokens.len() - pos < 3 {
        return Err(refuse(tokens, pos + 2, one_kind(TokenKind::Identifier)));
    }
    assert(ts[pos + 2] == tokens@[pos + 2]@);
    let entrypoint = match &tokens[pos + 2].token {
        Token::Identifier(name) => name.clone(),
        _ => {
            return Err(refuse(tokens, pos + 2, one_kind(TokenKind::Identifier)));
        },
    };
    match read_statements(tokens, pos + 3) {
        Ok(statements) => Ok(
            Program {
                data_section: DataSection { variables },
                text_section: TextSection { statements, entrypoint },
            },
        ),
        Err(e) => Err(e),
    }
}

/// Splits `source` into tokens and builds the program that they write.
/// Where no token starts at some place of the text, the error is
/// `InvalidToken` with the byte offset of that place. A program that is
/// built is canonical, so the printer can print it, and parsing what the
/// printer writes gives the same program again.
pub fn parse(source: &str) -> (r: Result<Program, ParseError>)
    ensures
        shows(r, parse_source(source@)),
        r is Ok ==> canonical(r->Ok_0@),
{
    match tokenize(source) {
        Ok(tokens) => parse_tokens(&tokens),
        Err(LexicalError::InvalidCharacter { position }) => Err(
            ParseError::InvalidToken { location: position },
        ),
    }
}

/// The parser of the assembly dialect.
#[derive(Clone, Copy, Debug, PartialEq, Eq)]
pub struct Parser;

impl Parser {
    /// A parser.
    pub fn new() -> (parser: Parser) {
        Parser
    }

    /// Builds the program that the text of `lexer` writes: see [`parse`].
    pub fn parse(&self, lexer: Lexer) -> (r: Result<Program, ParseError>)
        ensures
            shows(r, parse_source(lexer.source_code@)),
            r is Ok ==> canonical(r->Ok_0@),
    {
        parse(lexer.source_code.as_str())
    }
}

impl Default for Parser {
    fn default() -> (parser: Parser) {
        Parser::new()
    }
}

} // verus!
