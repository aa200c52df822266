//! What can go wrong while parsing.

use vstd::prelude::*;

use crate::lexer::source_loc::MiniLoc;
use crate::lexer::token::Token;

verus! {

/// A problem found by the parser.
#[derive(Debug)]
pub enum ParserError {
    ExtraToken { token: Token },
    FictionalToken { location: MiniLoc },
    MissingParameterValue { token: Token },
    UnexpectedEOF { location: MiniLoc, expected: Vec<String> },
    WrongToken { token: Token, expected: Vec<String> },
}

} // verus!
