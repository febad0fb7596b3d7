//! Front end for a MIPS-like assembly dialect: a lexer, a parser that builds a
//! typed syntax tree, and a printer that renders the tree as canonical text.
//!
//! - [`lexer`] splits a source text into tokens with their byte spans.
//! - [`parser`] builds a [`ast::Program`] from the tokens, or reports the
//!   first token that the grammar does not accept.
//! - [`ast`] holds the syntax tree, and [`ast::to_string`] its printer.
//! - [`memory`] makes the text of a memory reference and takes it apart.
//! - [`canonical`] says which programs the parser can build, and decides it
//!   of a given program.
//! - [`roundtrip`] proves that printing such a program and parsing the text
//!   gives the program back; [`totality`] proves that the tokens of a text
//!   cover it, that each is the longest at its place, and that a text of
//!   well-formed tokens is accepted.
//! - [`layout`] describes the printed text as a row of tokens, for these
//!   proofs; [`chars`], [`text`] and [`mnemonic`] hold what the others share.
//!
//! Every function is verified against its contract, which is stated over
//! the views of the types: strings as sequences of characters, vectors as
//! sequences.

pub mod chars;
pub mod text;
pub mod mnemonic;
pub mod lexer;
pub mod ast;
pub mod parser;
pub mod memory;
pub mod canonical;
pub mod layout;
pub mod roundtrip;
pub mod totality;
