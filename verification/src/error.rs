//! What a parse can fail with.

use vstd::prelude::*;
use std::num::ParseIntError;
use crate::lexer::{LexError, Token};

verus! {

/// std's error of an integer conversion. Nothing is known of a value but
/// that a conversion returned it.
#[verifier::external_type_specification]
#[verifier::external_body]
pub struct ExParseIntError(ParseIntError);

/// The failure of a parse. The first one met ends the parse.
#[derive(Debug)]
#[allow(inconsistent_fields)]
pub enum ParseError {
    /// The token `expected` was called for, `found` stands there.
    ExpectedDifferentToken { expected: Token, found: Token },
    /// One of the tokens `expected` was called for, `found` stands there.
    ExpectedDifferentTokens { expected: Vec<Token>, found: Token },
    /// No rule of the grammar starts with this token here.
    UnexpectedToken(Token),
    /// The next stretch of the text is no token.
    ErrorToken(LexError),
    /// A token was called for where the text ends.
    ExpectedToken,
    /// The digits of an integer literal do not fit its type.
    ParseInt(ParseIntError),
    /// A type annotation is missing where one is mandatory.
    MissingTypeAnnot,
    /// A code block is missing where one is mandatory.
    MissingCodeBlock,
    /// An initializer is missing where one is mandatory.
    MissingAssignment,
    /// The construct that this token starts is not supported.
    Unsupported(Token),
}

/// A `ParseError` as a mathematical value. What std reported of a failed
/// conversion is left out.
#[allow(inconsistent_fields)]
pub enum ParseErrorView {
    ExpectedDifferentToken { expected: Token, found: Token },
    ExpectedDifferentTokens { expected: Seq<Token>, found: Token },
    UnexpectedToken(Token),
    ErrorToken(LexError),
    ExpectedToken,
    ParseInt,
    MissingTypeAnnot,
    MissingCodeBlock,
    MissingAssignment,
    Unsupported(Token),
}

impl View for ParseError {
    type V = ParseErrorView;

    open spec fn view(&self) -> ParseErrorView {
        match self {
            ParseError::ExpectedDifferentToken { expected, found } => {
                ParseErrorView::ExpectedDifferentToken { expected: *expected, found: *found }
            },
            ParseError::ExpectedDifferentTokens { expected, found } => {
                ParseErrorView::ExpectedDifferentTokens { expected: expected@, found: *found }
            },
            ParseError::UnexpectedToken(token) => ParseErrorView::UnexpectedToken(*token),
            ParseError::ErrorToken(error) => ParseErrorView::ErrorToken(*error),
            ParseError::ExpectedToken => ParseErrorView::ExpectedToken,
            ParseError::ParseInt(_) => ParseErrorView::ParseInt,
            ParseError::MissingTypeAnnot => ParseErrorView::MissingTypeAnnot,
            ParseError::MissingCodeBlock => ParseErrorView::MissingCodeBlock,
            ParseError::MissingAssignment => ParseErrorView::MissingAssignment,
            ParseError::Unsupported(token) => ParseErrorView::Unsupported(*token),
        }
    }
}

/// A stretch of text that is no token fails the parse as such.
impl From<LexError> for ParseError {
    fn from(error: LexError) -> (converted: Self) {
        ParseError::ErrorToken(error)
    }
}

impl vstd::std_specs::convert::FromSpecImpl<LexError> for ParseError {
    open spec fn obeys_from_spec() -> bool {
        true
    }

    open spec fn from_spec(error: LexError) -> Self {
        ParseError::ErrorToken(error)
    }
}

} // verus!
