use vstd::prelude::*;

use crate::domain::requirement::Requirement;
use crate::keyword::{LexError, Token};
use crate::lexer::Span;

verus! {

/// Why a document could not be parsed.
#[derive(Debug)]
pub enum ParserError {
    /// The requirements block names a requirement outside `:strips` and `:typing`.
    UnsupportedRequirement(Requirement),
    /// A character that begins no token was reached.
    LexerError,
    /// An identifier or a variable was expected.
    ExpectedIdentifier,
    /// A token was expected; with the span of what was found there and the lexemes
    /// that follow it.
    ExpectedToken(Token, Span, Option<Vec<(Result<Token, LexError>, String)>>),
    /// An integer was expected, or an integer literal does not fit in 64 bits.
    ExpectedInteger,
    /// A decimal number was expected.
    ExpectedFloat,
    /// A complete document was read and more input follows it.
    ExpectedEndOfInput,
    /// The input ended before the document did. The parsers here read complete
    /// input and report a missing token as `ExpectedToken`; the variant is kept for
    /// callers that match on every kind of failure.
    IncompleteInput,
}

/// The error that reading a lexeme that is no token raises.
pub open spec fn lex_error(e: LexError) -> ParserError {
    match e {
        LexError::Unrecognized => ParserError::LexerError,
        LexError::IntegerOutOfRange => ParserError::ExpectedInteger,
    }
}

impl ParserError {
    /// The error that reading a lexeme that is no token raises.
    pub fn from_lex(e: LexError) -> (r: ParserError)
        ensures
            r == lex_error(e),
    {
        match e {
            LexError::Unrecognized => ParserError::LexerError,
            LexError::IntegerOutOfRange => ParserError::ExpectedInteger,
        }
    }
}

} // verus!
