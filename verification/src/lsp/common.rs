//! Positions of tokens as a language client counts them.

use vstd::prelude::*;

use crate::lexer::source_loc::SourceLoc;
use crate::lexer::token::Token;
use crate::lsp::diagnostics::{as_range, loc_fits, range3, LspRange};

verus! {

/// The span of a location on its line: from its column less one, its
/// length long.
pub fn source_loc_to_range(source_loc: &SourceLoc) -> (r: (u32, u32))
    requires
        source_loc.column >= 1,
        source_loc.column - 1 + source_loc.length <= u32::MAX,
    ensures
        r.0 == source_loc.column - 1,
        r.1 == source_loc.column - 1 + source_loc.length,
{
    (source_loc.column - 1, source_loc.column - 1 + source_loc.length)
}

/// The range of a location, lines and characters counted from 0.
pub fn source_loc_to_tower_range(source_loc: &SourceLoc) -> (r: LspRange)
    requires
        loc_fits(source_loc.line, source_loc.column, source_loc.length),
    ensures
        r == range3(source_loc.line, source_loc.column, source_loc.length),
{
    as_range(source_loc)
}

/// The range of a token, where its location fits in 32 bits.
pub fn token_range_opt(token: &Token) -> (r: Option<LspRange>)
    ensures
        r is Some == loc_fits(token.source_loc.line, token.source_loc.column, token.source_loc.length),
        r matches Some(range) ==> range == range3(token.source_loc.line, token.source_loc.column, token.source_loc.length),
{
    let l = &token.source_loc;
    if l.line >= 1 && l.column >= 1 && (l.column as u64) - 1 + (l.length as u64) <= u32::MAX as u64 {
        Some(as_range(l))
    } else {
        None
    }
}

} // verus!
