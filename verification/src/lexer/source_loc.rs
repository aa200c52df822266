//! Positions of tokens within a document.

use vstd::prelude::*;

use crate::common::doc_loc::DocLoc;

verus! {

/// A line and column, both counted from 1.
#[derive(Clone, Copy, Debug, Default)]
pub struct MiniLoc {
    pub line: u32,
    pub column: u32,
}

/// Where a token stands: its document, byte offset, line, column (from 1,
/// counted in bytes from the start of the line) and byte length.
#[derive(Debug, Eq, Hash, Ord, PartialEq, PartialOrd)]
pub struct SourceLoc {
    pub doc_loc: DocLoc,
    pub pos: u32,
    pub line: u32,
    pub column: u32,
    pub length: u32,
}

/// The mathematical content of a [`SourceLoc`].
pub struct SourceLocV {
    pub doc_loc: Seq<char>,
    pub pos: int,
    pub line: int,
    pub column: int,
    pub length: int,
}

impl View for SourceLoc {
    type V = SourceLocV;

    open spec fn view(&self) -> SourceLocV {
        SourceLocV {
            doc_loc: self.doc_loc@,
            pos: self.pos as int,
            line: self.line as int,
            column: self.column as int,
            length: self.length as int,
        }
    }
}

impl Clone for SourceLoc {
    fn clone(&self) -> (r: Self)
        ensures
            r == *self,
    {
        SourceLoc {
            doc_loc: self.doc_loc.clone(),
            pos: self.pos,
            line: self.line,
            column: self.column,
            length: self.length,
        }
    }
}

impl SourceLoc {
    /// The first position of the token and the position just after it.
    pub fn as_minis(&self) -> (r: (MiniLoc, MiniLoc))
        requires
            self.column + self.length <= u32::MAX,
        ensures
            r.0.line == self.line,
            r.0.column == self.column,
            r.1.line == self.line,
            r.1.column == self.column + self.length,
    {
        let start = MiniLoc { line: self.line, column: self.column };
        let end = MiniLoc { line: self.line, column: self.column + self.length };
        (start, end)
    }
}

} // verus!
