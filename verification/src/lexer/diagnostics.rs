//! What can go wrong while lexing.

use vstd::prelude::*;

use crate::lexer::source_loc::{SourceLoc, SourceLocV};

verus! {

/// A problem found by the lexer.
#[derive(Debug)]
pub enum LexerError {
    /// A position or length did not fit in 32 bits; `size` is the first such
    /// value and `line_num` the line reached so far.
    FileTooBig { size: usize, line_num: u32 },
    /// Text that starts no token.
    UnknownToken { culprit: String, source_loc: SourceLoc },
}

/// The mathematical content of a [`LexerError`].
pub enum LexerErrorV {
    FileTooBig { size: int, line_num: int },
    UnknownToken { culprit: Seq<char>, source_loc: SourceLocV },
}

impl View for LexerError {
    type V = LexerErrorV;

    open spec fn view(&self) -> LexerErrorV {
        match self {
            LexerError::FileTooBig { size, line_num } => LexerErrorV::FileTooBig {
                size: *size as int,
                line_num: *line_num as int,
            },
            LexerError::UnknownToken { culprit, source_loc } => LexerErrorV::UnknownToken {
                culprit: culprit@,
                source_loc: source_loc@,
            },
        }
    }
}

} // verus!
