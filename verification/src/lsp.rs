//! The editor-facing side: how types, diagnostics, hovers, completions and
//! formatted code are presented to a language client.

pub mod pretty_type;
pub mod kebab_cased;
pub mod debug_text;
pub mod diagnostics;
pub mod lines;
pub mod miniformat;
pub mod layout_laws;
pub mod document;
pub mod common;
pub mod builtins;
pub mod named_arg;
pub mod definition;
pub mod semantic_tokens;
pub mod requests;
pub mod completion;
pub mod code_action;
pub mod formatting;
pub mod full_analysis;
