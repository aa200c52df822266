//! The syntax tree of Organic modules and the pieces the grammar's actions
//! are built from.

pub mod ast;
pub mod diagnostics;
pub mod lalrpop;
