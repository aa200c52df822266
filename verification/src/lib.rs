//! Language-server logic for the Organic music language: lexing, static
//! analysis, formatting and editor-facing views of diagnostics.

pub mod common;
pub mod lexer;
pub mod text;
pub mod analyzer;
pub mod parser;
pub mod lsp;
