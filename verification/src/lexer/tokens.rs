//! The tokens that the lexer produces.

use vstd::prelude::*;
use vstd::string::StrSliceExecFns;

verus! {

/// The type of a variable of the data section.
#[derive(Clone, Copy, Debug, PartialEq, Eq, Structural)]
pub enum Type {
    /// A string, written `.asciiz`.
    Asciiz,
    /// A number of reserved bytes, written `.space`.
    Space,
}

/// The value of a variable of the data section. Each kind of value belongs
/// to one type, so a value carries its type with it.
#[derive(Clone, Debug, PartialEq, Eq)]
pub enum Value {
    /// The text of an `.asciiz` variable, without its quotes.
    String(String),
    /// The size of a `.space` variable.
    Bytes(u32),
}

/// A `Value` with its text as a sequence of characters.
pub ghost enum ValueView {
    String(Seq<char>),
    Bytes(u32),
}

impl View for Value {
    type V = ValueView;

    open spec fn view(&self) -> ValueView {
        match self {
            Value::String(s) => ValueView::String(s@),
            Value::Bytes(n) => ValueView::Bytes(*n),
        }
    }
}

/// The type to which a value belongs.
pub open spec fn type_of_value(v: ValueView) -> Type {
    match v {
        ValueView::String(_) => Type::Asciiz,
        ValueView::Bytes(_) => Type::Space,
    }
}

/// The spelling of a type directive.
pub open spec fn type_text(t: Type) -> Seq<char> {
    match t {
        Type::Asciiz => ".asciiz"@,
        Type::Space => ".space"@,
    }
}

/// The type that a type directive names. `slice` is the directive as it
/// stands in the source, `.asciiz` or `.space`.
pub fn handle_type(slice: &str) -> (t: Type)
    requires
        slice@ == type_text(Type::Asciiz) || slice@ == type_text(Type::Space),
    ensures
        slice@ == type_text(t),
        slice@ == ".asciiz"@ ==> t == Type::Asciiz,
        slice@ == ".space"@ ==> t == Type::Space,
{
    proof {
        reveal_strlit(".asciiz");
        reveal_strlit(".space");
    }
    if slice.get_char(1) == 'a' {
        Type::Asciiz
    } else {
        Type::Space
    }
}

/// A token of the assembly dialect.
#[derive(Clone, Debug, PartialEq, Eq)]
pub enum Token {
    /// An instruction mnemonic.
    Instruction(String),
    /// `.data`
    DataSection,
    /// `.text`
    TextSection,
    /// `.global` or `.globl`
    GlobalSection,
    /// `.asciiz` or `.space`
    Type(Type),
    /// A register, with its `$`.
    Register(String),
    /// An identifier that is followed at once by a colon; the colon is not
    /// part of the name.
    Label(String),
    /// An identifier that is no mnemonic and is not followed by a colon.
    Identifier(String),
    /// A decimal or hexadecimal numeral, as an unsigned 32-bit value.
    Number(u32),
    /// A string literal, without its quotes.
    String(String),
    /// `[`
    OpenBracket,
    /// `]`
    CloseBracket,
    /// `(`
    OpenParen,
    /// `)`
    CloseParen,
    /// `,`
    Comma,
}

/// A `Token` with its text as a sequence of characters.
pub ghost enum TokenView {
    Instruction(Seq<char>),
    DataSection,
    TextSection,
    GlobalSection,
    Type(Type),
    Register(Seq<char>),
    Label(Seq<char>),
    Identifier(Seq<char>),
    Number(u32),
    String(Seq<char>),
    OpenBracket,
    CloseBracket,
    OpenParen,
    CloseParen,
    Comma,
}

impl View for Token {
    type V = TokenView;

    open spec fn view(&self) -> TokenView {
        match self {
            Token::Instruction(s) => TokenView::Instruction(s@),
            Token::DataSection => TokenView::DataSection,
            Token::TextSection => TokenView::TextSection,
            Token::GlobalSection => TokenView::GlobalSection,
            Token::Type(t) => TokenView::Type(*t),
            Token::Register(s) => TokenView::Register(s@),
            Token::Label(s) => TokenView::Label(s@),
            Token::Identifier(s) => TokenView::Identifier(s@),
            Token::Number(n) => TokenView::Number(*n),
            Token::String(s) => TokenView::String(s@),
            Token::OpenBracket => TokenView::OpenBracket,
            Token::CloseBracket => TokenView::CloseBracket,
            Token::OpenParen => TokenView::OpenParen,
            Token::CloseParen => TokenView::CloseParen,
            Token::Comma => TokenView::Comma,
        }
    }
}

/// The kind of a token: its variant without what it carries.
#[derive(Clone, Copy, Debug, PartialEq, Eq, Structural)]
pub enum TokenKind {
    Instruction,
    DataSection,
    TextSection,
    GlobalSection,
    Type,
    Register,
    Label,
    Identifier,
    Number,
    String,
    OpenBracket,
    CloseBracket,
    OpenParen,
    CloseParen,
    Comma,
}

/// The kind of a token.
pub open spec fn kind_of(t: TokenView) -> TokenKind {
    match t {
        TokenView::Instruction(_) => TokenKind::Instruction,
        TokenView::DataSection => TokenKind::DataSection,
        TokenView::TextSection => TokenKind::TextSection,
        TokenView::GlobalSection => TokenKind::GlobalSection,
        TokenView::Type(_) => TokenKind::Type,
        TokenView::Register(_) => TokenKind::Register,
        TokenView::Label(_) => TokenKind::Label,
        TokenView::Identifier(_) => TokenKind::Identifier,
        TokenView::Number(_) => TokenKind::Number,
        TokenView::String(_) => TokenKind::String,
        TokenView::OpenBracket => TokenKind::OpenBracket,
        TokenView::CloseBracket => TokenKind::CloseBracket,
        TokenView::OpenParen => TokenKind::OpenParen,
        TokenView::CloseParen => TokenKind::CloseParen,
        TokenView::Comma => TokenKind::Comma,
    }
}

/// How a kind of token is described to a reader.
pub open spec fn kind_text(k: TokenKind) -> Seq<char> {
    match k {
        TokenKind::Instruction => "instruction"@,
        TokenKind::DataSection => ".data"@,
        TokenKind::TextSection => ".text"@,
        TokenKind::GlobalSection => ".global"@,
        TokenKind::Type => "type"@,
        TokenKind::Register => "register"@,
        TokenKind::Label => "label"@,
        TokenKind::Identifier => "identifier"@,
        TokenKind::Number => "number"@,
        TokenKind::String => "string"@,
        TokenKind::OpenBracket => "["@,
        TokenKind::CloseBracket => "]"@,
        TokenKind::OpenParen => "("@,
        TokenKind::CloseParen => ")"@,
        TokenKind::Comma => ","@,
    }
}

impl Token {
    /// The kind of the token.
    pub fn kind(&self) -> (k: TokenKind)
        ensures
            k == kind_of(self@),
    {
        match self {
            Token::Instruction(_) => TokenKind::Instruction,
            Token::DataSection => TokenKind::DataSection,
            Token::TextSection => TokenKind::TextSection,
            Token::GlobalSection => TokenKind::GlobalSection,
            Token::Type(_) => TokenKind::Type,
            Token::Register(_) => TokenKind::Register,
            Token::Label(_) => TokenKind::Label,
            Token::Identifier(_) => TokenKind::Identifier,
            Token::Number(_) => TokenKind::Number,
            Token::String(_) => TokenKind::String,
            Token::OpenBracket => TokenKind::OpenBracket,
            Token::CloseBracket => TokenKind::CloseBracket,
            Token::OpenParen => TokenKind::OpenParen,
            Token::CloseParen => TokenKind::CloseParen,
            Token::Comma => TokenKind::Comma,
        }
    }

    /// A copy of the token.
    pub fn duplicate(&self) -> (t: Token)
        ensures
            t@ == self@,
    {
        match self {
            Token::Instruction(s) => Token::Instruction(s.clone()),
            Token::DataSection => Token::DataSection,
            Token::TextSection => Token::TextSection,
            Token::GlobalSection => Token::GlobalSection,
            Token::Type(t) => Token::Type(*t),
            Token::Register(s) => Token::Register(s.clone()),
            Token::Label(s) => Token::Label(s.clone()),
            Token::Identifier(s) => Token::Identifier(s.clone()),
            Token::Number(n) => Token::Number(*n),
            Token::String(s) => Token::String(s.clone()),
            Token::OpenBracket => Token::OpenBracket,
            Token::CloseBracket => Token::CloseBracket,
            Token::OpenParen => Token::OpenParen,
            Token::CloseParen => Token::CloseParen,
            Token::Comma => Token::Comma,
        }
    }
}

impl TokenKind {
    /// The description of the kind, as a diagnostic shows it.
    pub fn describe(self) -> (s: &'static str)
        ensures
            s@ == kind_text(self),
    {
        match self {
            TokenKind::Instruction => "instruction",
            TokenKind::DataSection => ".data",
            TokenKind::TextSection => ".text",
            TokenKind::GlobalSection => ".global",
            TokenKind::Type => "type",
            TokenKind::Register => "register",
            TokenKind::Label => "label",
            TokenKind::Identifier => "identifier",
            TokenKind::Number => "number",
            TokenKind::String => "string",
            TokenKind::OpenBracket => "[",
            TokenKind::CloseBracket => "]",
            TokenKind::OpenParen => "(",
            TokenKind::CloseParen => ")",
            TokenKind::Comma => ",",
        }
    }
}

/// A token with the place in the source where it stands, as byte offsets:
/// `start` is the offset of its first byte and `end` the offset after its last.
#[derive(Clone, Debug, PartialEq, Eq)]
pub struct Spanned {
    pub start: usize,
    pub token: Token,
    pub end: usize,
}

/// A `Spanned` with the view of its token.
pub ghost struct SpannedView {
    pub start: nat,
    pub token: TokenView,
    pub end: nat,
}

impl View for Spanned {
    type V = SpannedView;

    open spec fn view(&self) -> SpannedView {
        SpannedView { start: self.start as nat, token: self.token@, end: self.end as nat }
    }
}

/// The views of a sequence of tokens.
pub open spec fn spanned_views(v: Seq<Spanned>) -> Seq<SpannedView> {
    v.map_values(|t: Spanned| t@)
}

} // verus!
