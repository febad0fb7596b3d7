//! What a diagnostic says of a parse error: where it is, what it is called,
//! and what would have been accepted at its place.

use vstd::prelude::*;
use vstd::string::StringExecFns;

use crate::ast::Location;
use crate::lexer::tokens::kind_text;
use crate::lexer::tokens::TokenKind;
use crate::parser::ParseError;
use crate::parser::ParseErrorView;
use crate::text::SourceText;
use crate::text::string_from;

verus! {

/// The bytes of the source that the error is about: the place at which no
/// token starts, the token that is refused, or the end of the tokens.
pub open spec fn error_span(e: ParseErrorView) -> (nat, nat) {
    match e {
        ParseErrorView::InvalidToken { location } => (location, location),
        ParseErrorView::UnrecognizedToken { token, expected } => (token.start, token.end),
        ParseErrorView::UnexpectedEnd { location, expected } => (location, location),
    }
}

/// The kinds of token that would have been accepted at the place of the
/// error; none where no token starts there at all.
pub open spec fn error_expected(e: ParseErrorView) -> Seq<TokenKind> {
    match e {
        ParseErrorView::InvalidToken { location } => Seq::empty(),
        ParseErrorView::UnrecognizedToken { token, expected } => expected,
        ParseErrorView::UnexpectedEnd { location, expected } => expected,
    }
}

/// What the error is called.
pub open spec fn error_title(e: ParseErrorView) -> Seq<char> {
    match e {
        ParseErrorView::InvalidToken { location } => "Invalid token"@,
        ParseErrorView::UnrecognizedToken { token, expected } => "Unrecognized token"@,
        ParseErrorView::UnexpectedEnd { location, expected } => "Unexpected end of input"@,
    }
}

/// The descriptions of the kinds, separated by a comma and a space.
pub open spec fn kinds_text(kinds: Seq<TokenKind>) -> Seq<char>
    decreases kinds.len(),
{
    if kinds.len() == 0 {
        Seq::empty()
    } else if kinds.len() == 1 {
        kind_text(kinds[0])
    } else {
        kinds_text(kinds.drop_last()) + ", "@ + kind_text(kinds.last())
    }
}

/// The index after the last `/` of `path`, or zero where it holds none.
pub open spec fn file_name_start(path: Seq<char>) -> int
    decreases path.len(),
{
    if path.len() == 0 {
        0
    } else if path.last() == '/' {
        path.len() as int
    } else {
        file_name_start(path.drop_last())
    }
}

/// The name of the file at `path`: what follows its last `/`.
pub open spec fn spec_file_name(path: Seq<char>) -> Seq<char> {
    path.subrange(file_name_start(path), path.len() as int)
}

/// The name starts within the path, after a `/` if it does not start the
/// path, and holds no `/`.
pub proof fn lemma_file_name_start(path: Seq<char>)
    ensures
        0 <= file_name_start(path) <= path.len(),
        file_name_start(path) > 0 ==> path[file_name_start(path) - 1] == '/',
        forall|i: int| file_name_start(path) <= i < path.len() ==> #[trigger] path[i] != '/',
    decreases path.len(),
{
    if path.len() > 0 && path.last() != '/' {
        lemma_file_name_start(path.drop_last());
        assert forall|i: int| file_name_start(path) <= i < path.len() implies #[trigger] path[i]
            != '/' by {
            if i < path.len() - 1 {
                assert(path.drop_last()[i] == path[i]);
            }
        }
    }
}

/// The name of the file at `path`: what follows its last `/`, or the whole
/// of it where it holds none.
pub fn file_name(path: &str) -> (name: String)
    ensures
        name@ == spec_file_name(path@),
{
    let text = SourceText::new(path);
    let n: usize = text.chars.len();
    let mut start: usize = n;
    assert(text.chars@.subrange(0, n as int) =~= text.chars@);
    while start > 0 && text.chars[start - 1] != '/'
        invariant
            0 <= start <= n,
            n == text.chars@.len(),
            file_name_start(text.chars@) == file_name_start(
                text.chars@.subrange(0, start as int),
            ),
        decreases start,
    {
        assert(text.chars@.subrange(0, start as int).drop_last() =~= text.chars@.subrange(
            0,
            start - 1,
        ));
        start -= 1;
    }
    string_from(&text.chars, start, n)
}

impl ParseError {
    /// The bytes of the source that the error is about.
    pub fn span(&self) -> (r: Location)
        ensures
            (r.start as nat, r.end as nat) == error_span(self@),
    {
        match self {
            ParseError::InvalidToken { location } => *location..*location,
            ParseError::UnrecognizedToken { token, expected } => token.start..token.end,
            ParseError::UnexpectedEnd { location, expected } => *location..*location,
        }
    }

    /// What the error is called.
    pub fn title(&self) -> (s: &'static str)
        ensures
            s@ == error_title(self@),
    {
        match self {
            ParseError::InvalidToken { location } => "Invalid token",
            ParseError::UnrecognizedToken { token, expected } => "Unrecognized token",
            ParseError::UnexpectedEnd { location, expected } => "Unexpected end of input",
        }
    }

    /// The descriptions of the kinds of token that would have been accepted
    /// at the place of the error, separated by a comma and a space.
    pub fn expected_text(&self) -> (s: String)
        ensures
            s@ == kinds_text(error_expected(self@)),
    {
        match self {
            ParseError::InvalidToken { location } => String::new(),
            ParseError::UnrecognizedToken { token, expected } => describe_kinds(expected),
            ParseError::UnexpectedEnd { location, expected } => describe_kinds(expected),
        }
    }
}

/// The descriptions of the kinds, separated by a comma and a space.
pub fn describe_kinds(kinds: &Vec<TokenKind>) -> (s: String)
    ensures
        s@ == kinds_text(kinds@),
{
    let mut s = String::new();
    let mut i: usize = 0;
    assert(kinds@.take(0) =~= Seq::<TokenKind>::empty());
    while i < kinds.len()
        invariant
            0 <= i <= kinds.len(),
            s@ == kinds_text(kinds@.take(i as int)),
        decreases kinds.len() - i,
    {
        let ghost before = kinds@.take(i as int);
        let ghost now = kinds@.take(i + 1);
        proof {
            assert(now.drop_last() =~= before);
            assert(now.last() == kinds@[i as int]);
        }
        if i > 0 {
            s.append(", ");
        }
        s.append(kinds[i].describe());
        proof {
            if i == 0 {
                assert(now[0] == kinds@[0]);
                assert(s@ =~= kinds_text(now));
            }
        }
        i += 1;
    }
    assert(kinds@.take(kinds.len() as int) =~= kinds@);
    s
}

} // verus!
