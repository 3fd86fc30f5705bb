//! Parsing of recipe records and of their requirement expressions, in
//! the two textual grammars the records use.

use vstd::prelude::*;

pub mod lexer;
pub mod numeric;
pub mod record;
pub mod text;

verus! {

/// What went wrong while parsing.
#[derive(Debug, Clone, Copy, PartialEq, Eq, Structural)]
pub enum ParseErrorKind {
    /// An identifier or a number failed to lex where one was required.
    MalformedToken,
    /// The input ended before a declared count of tokens was read.
    UnexpectedEnd,
    /// A field held text beyond its expression.
    TrailingUnconsumed,
    /// The record's form does not fit the requested instantiation.
    StructuralMismatch,
    /// An identifier lookup rejected an identifier during remapping.
    IdentifierNotFound,
}

/// A structured parse failure: the character position the parser was at,
/// and what it found there.
#[derive(Debug, Clone, Copy, PartialEq, Eq, Structural)]
pub struct ParseError {
    pub pos: usize,
    pub kind: ParseErrorKind,
}

} // verus!
