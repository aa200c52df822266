use organic_lsp::analyzer::analyze;
use organic_lsp::analyzer::value::{Accidental, Note, PitchClass};
use organic_lsp::common::doc_loc::DocLoc;
use organic_lsp::lexer::lex;
use organic_lsp::lexer::source_loc::SourceLoc;
use organic_lsp::lexer::token::{Token, TokenType};
use organic_lsp::lsp::builtins::{builtin_docs, lookup_builtin_arg};
use organic_lsp::lsp::code_action::{actions_in_diagnostics, actions_in_selection, actions_under_cursor, ClientDiagnostic, RefactorKind};
use organic_lsp::lsp::completion::{completion, CompletionKind};
use organic_lsp::lsp::definition::{describe_note, note_semitones};
use organic_lsp::lsp::diagnostics::{code_number, document_diagnostics, DiagnosticCode, LspPosition, LspRange};
use organic_lsp::lsp::document::{build_document, Document, Entity};
use organic_lsp::lsp::full_analysis::reanalyze;
use organic_lsp::parser::diagnostics::ParserError;
use organic_lsp::lsp::formatting::{adjust_selection_end, selection_to_format, selection_tokens, SelectionError};
use organic_lsp::lsp::requests::{definition_token, hover, hover_note, prepare_rename, reference_tokens, rename_edits};
use organic_lsp::lsp::semantic_tokens::{calc_semantic_tokens, SemanticTokenData};
use organic_lsp::parser::ast::{Expr, Module, Operator, Statement, Symbol, VarDecl};

const URI: &str = "file://t.organic";

fn tok(tt: TokenType, line: u32, column: u32, length: u32) -> Token {
    Token { token_type: tt, source_loc: SourceLoc { doc_loc: DocLoc::new(URI), pos: 0, line, column, length } }
}

fn sym(name: &str, line: u32, column: u32) -> Symbol {
    Symbol { name: name.to_string(), token: tok(TokenType::Identifier(name.to_string()), line, column, name.len() as u32) }
}

fn num(value: &str, line: u32, column: u32) -> Expr {
    let t = tok(TokenType::Number(value.to_string()), line, column, value.len() as u32);
    Expr::Number { value: value.to_string(), token: t.clone(), start: t.clone(), end: t }
}

fn lval(name: &str, line: u32, column: u32) -> Expr {
    let s = sym(name, line, column);
    let t = s.token.clone();
    Expr::LValue { name: s, token: t.clone(), start: t.clone(), end: t }
}

fn decl(name: &str, line: u32, init: Expr) -> Statement {
    Statement::VariableDecl(VarDecl { name: sym(name, line, 1), init })
}

fn document(text: &str, statements: Vec<Statement>) -> Document {
    let doc_loc = DocLoc::new(URI);
    let (tokens, lexer_errors) = lex(&doc_loc, text);
    let mut analysis = analyze(Module { includes: Vec::new(), statements });
    let found = std::mem::take(&mut analysis.diagnostics);
    let diagnostics = document_diagnostics(found, None, lexer_errors);
    let ast = Module { includes: Vec::new(), statements: Vec::new() };
    build_document(text.to_string(), ast, diagnostics, analysis, &tokens)
}

fn pos(line: u32, character: u32) -> LspPosition {
    LspPosition { line, character }
}

fn range(l1: u32, c1: u32, l2: u32, c2: u32) -> LspRange {
    LspRange { start: pos(l1, c1), end: pos(l2, c2) }
}

fn x_then_y() -> Document {
    document("x = 1\ny = x", vec![decl("x", 1, num("1", 1, 5)), decl("y", 2, lval("x", 2, 5))])
}

#[test]
fn the_entities_of_a_document_are_placed_on_their_lines() {
    let doc = x_then_y();
    assert_eq!(doc.entities.len(), 2);
    assert!(matches!(doc.entities[1].get(&4), Some(Entity::LValue { addr }) if addr.name == "x"));
    assert!(matches!(doc.entities[0].get(&0), Some(Entity::LValue { addr }) if addr.name == "x"));
    assert!(matches!(doc.entities[0].get(&4), Some(Entity::NumberLiteral(v)) if v == "1"));
    assert_eq!(doc.tokens.len(), 2);
    assert_eq!(doc.last_var_names, vec!["x".to_string(), "y".to_string()]);
    assert!(doc.diagnostics.is_empty());
}

#[test]
fn hovers_describe_variables_and_literals() {
    let doc = x_then_y();
    let (text, r) = hover(&doc, 1, 4, "").unwrap();
    assert_eq!(text, "User-defined value\n```scala\nx: number\n```");
    assert_eq!(r, range(1, 4, 1, 5));
    let (text, _) = hover(&doc, 0, 4, "").unwrap();
    assert_eq!(text, "value of `number` literal: `1`");
    assert!(hover(&doc, 0, 2, "").is_none());
    assert!(hover(&doc, 9, 0, "").is_none());
}

#[test]
fn hovers_describe_builtins() {
    let doc = document("a = pi\nb = a4", vec![decl("a", 1, lval("pi", 1, 5)), decl("b", 2, lval("a4", 2, 5))]);
    let (text, _) = hover(&doc, 0, 4, "").unwrap();
    assert_eq!(text, "Built-in constant `pi` of type `number`");
    let note = hover_note(&doc, 1, 4).unwrap();
    assert_eq!(note, Note { pitch_class: PitchClass::A, accidental: Accidental::Natural, octave: 4 });
    assert_eq!(note_semitones(&note), 69);
    let (text, _) = hover(&doc, 1, 4, "440").unwrap();
    assert_eq!(text, "Built-in note `A4` (`440` Hz)");
    assert!(hover_note(&doc, 0, 4).is_none());
}

#[test]
fn notes_are_named_and_counted_in_semitones() {
    let bf3 = Note { pitch_class: PitchClass::B, accidental: Accidental::Flat, octave: 3 };
    assert_eq!(describe_note(&bf3), "Bb3");
    assert_eq!(note_semitones(&bf3), 58);
    let cs0 = Note { pitch_class: PitchClass::C, accidental: Accidental::Sharp, octave: 0 };
    assert_eq!(describe_note(&cs0), "C#0");
    assert_eq!(note_semitones(&cs0), 13);
}

#[test]
fn definitions_references_and_renames() {
    let doc = x_then_y();
    let def = definition_token(&doc, 1, 4).unwrap();
    assert_eq!((def.source_loc.line, def.source_loc.column), (1, 1));
    let refs = reference_tokens(&doc, 1, 4).unwrap();
    assert_eq!(refs.len(), 2);
    let edits = rename_edits(&doc, 0, 0, "z").unwrap();
    assert_eq!(edits.len(), 2);
    assert!(edits.iter().all(|(uri, _, t)| uri == URI && t == "z"));
    assert!(edits.iter().any(|(_, r, _)| *r == range(0, 0, 0, 1)));
    assert!(edits.iter().any(|(_, r, _)| *r == range(1, 4, 1, 5)));
    assert!(reference_tokens(&doc, 0, 4).is_none());
    let (r, name) = prepare_rename(&doc, 1, 0).unwrap();
    assert_eq!((r, name.as_str()), (range(1, 0, 1, 1), "y"));
    assert!(prepare_rename(&doc, 1, 2).is_none());
}

#[test]
fn semantic_tokens_are_relative_to_the_previous_one() {
    let doc = x_then_y();
    let data = calc_semantic_tokens(&DocLoc::new(URI), &doc).unwrap();
    let t = |a, b, c, d| SemanticTokenData { delta_line: a, delta_start: b, length: c, token_type: d, token_modifiers_bitset: 0 };
    assert_eq!(data, vec![t(0, 0, 1, 6), t(0, 4, 1, 2), t(1, 0, 1, 6), t(0, 4, 1, 6)]);
}

#[test]
fn completion_offers_matching_variables_and_functions() {
    let doc = document("sq = 1\nsi = sq", vec![decl("sq", 1, num("1", 1, 6)), decl("si", 2, lval("sq", 2, 6))]);
    let items = completion(&doc, 1, 2).unwrap();
    let got: Vec<(String, CompletionKind, String)> = items.into_iter().map(|i| (i.label, i.kind, i.detail)).collect();
    assert_eq!(
        got,
        vec![
            ("si".to_string(), CompletionKind::Variable, "User variable".to_string()),
            ("sine".to_string(), CompletionKind::Function, "FILL_IN".to_string()),
        ]
    );
    assert!(completion(&doc, 1, 0).is_none());
    assert!(completion(&doc, 1, 4).is_none());
}

#[test]
fn completion_offers_each_parameter_once() {
    let doc = document("vo = 1", vec![decl("vo", 1, num("1", 1, 6))]);
    let items = completion(&doc, 0, 2).unwrap();
    let labels: Vec<String> = items.iter().map(|i| i.label.clone()).collect();
    assert_eq!(labels, vec!["vo".to_string(), "volume".to_string()]);
    assert_eq!(items[1].kind, CompletionKind::Field);
}

#[test]
fn a_naming_lint_is_fixed_by_renaming_every_usage() {
    let doc = document(
        "note_len = 1\nb = note_len",
        vec![decl("note_len", 1, num("1", 1, 12)), decl("b", 2, lval("note_len", 2, 5))],
    );
    assert_eq!(doc.diagnostics.len(), 1);
    assert_eq!(doc.diagnostics[0].code, DiagnosticCode::Analyzer_Lint_SnakeCase);
    let d = ClientDiagnostic { range: doc.diagnostics[0].range, code: Some(code_number(DiagnosticCode::Analyzer_Lint_SnakeCase)) };
    let fixes = actions_in_diagnostics(&doc, &vec![d]).unwrap();
    assert_eq!(fixes.len(), 1);
    assert_eq!(fixes[0].title, "Use kebab-case name");
    assert!(fixes[0].is_preferred);
    assert_eq!(fixes[0].diagnostic, 0);
    assert_eq!(
        fixes[0].edits,
        vec![(range(0, 0, 0, 8), "note-len".to_string()), (range(1, 4, 1, 12), "note-len".to_string())]
    );
    let other = ClientDiagnostic { range: range(0, 0, 0, 8), code: Some(code_number(DiagnosticCode::Analyzer_Error_NoSuchFn)) };
    assert!(actions_in_diagnostics(&doc, &vec![other]).is_none());
}

fn document_with_ast(text: &str, statements: fn() -> Vec<Statement>) -> Document {
    let doc_loc = DocLoc::new(URI);
    let (tokens, lexer_errors) = lex(&doc_loc, text);
    let mut analysis = analyze(Module { includes: Vec::new(), statements: statements() });
    let found = std::mem::take(&mut analysis.diagnostics);
    let diagnostics = document_diagnostics(found, None, lexer_errors);
    let ast = Module { includes: Vec::new(), statements: statements() };
    build_document(text.to_string(), ast, diagnostics, analysis, &tokens)
}

fn sum_then_use() -> Vec<Statement> {
    let left = Box::new(num("1", 1, 5));
    let right = Box::new(num("2", 1, 9));
    let t = tok(TokenType::Plus, 1, 7, 1);
    let start = tok(TokenType::Number("1".to_string()), 1, 5, 1);
    let end = tok(TokenType::Number("2".to_string()), 1, 9, 1);
    let sum = Expr::Op { left, operator: Operator::Plus, right, token: t, start, end };
    vec![
        Statement::VariableDecl(VarDecl { name: sym("x", 1, 1), init: sum }),
        decl("y", 2, lval("x", 2, 5)),
    ]
}

#[test]
fn a_variable_used_at_the_cursor_is_inlined() {
    let doc = document_with_ast("x = 1\ny = x", || vec![decl("x", 1, num("1", 1, 5)), decl("y", 2, lval("x", 2, 5))]);
    let actions = actions_under_cursor(&doc, range(1, 4, 1, 4)).unwrap();
    assert_eq!(actions.len(), 1);
    assert_eq!(actions[0].kind, RefactorKind::Inline);
    assert_eq!(actions[0].title, "Inline variable definition");
    assert_eq!(actions[0].edits, vec![(range(1, 4, 1, 5), "1".to_string())]);
    assert!(actions_under_cursor(&doc, range(0, 0, 0, 0)).unwrap().is_empty());
    assert!(actions_under_cursor(&doc, range(1, 0, 1, 0)).unwrap().is_empty());
    assert!(actions_under_cursor(&doc, range(1, 4, 1, 5)).is_none());
}

#[test]
fn an_inlined_operation_is_put_in_parentheses() {
    let doc = document_with_ast("x = 1 + 2\ny = x", sum_then_use);
    let actions = actions_under_cursor(&doc, range(1, 4, 1, 4)).unwrap();
    assert_eq!(actions[0].edits, vec![(range(1, 4, 1, 5), "(1 + 2)".to_string())]);
}

#[test]
fn a_selection_is_extracted_into_a_new_variable() {
    let doc = x_then_y();
    let actions = actions_in_selection(&doc, range(0, 4, 0, 5)).unwrap();
    assert_eq!(actions.len(), 1);
    assert_eq!(actions[0].kind, RefactorKind::Extract);
    assert_eq!(actions[0].title, "Extract into a new variable");
    assert_eq!(
        actions[0].edits,
        vec![(range(0, 0, 0, 0), "new-var = 1\n".to_string()), (range(0, 4, 0, 5), "new-var".to_string())]
    );
    assert!(actions_in_selection(&doc, range(0, 3, 0, 5)).unwrap().is_empty());
    assert!(actions_in_selection(&doc, range(0, 4, 1, 1)).unwrap().is_empty());
    assert!(actions_in_selection(&doc, range(0, 4, 0, 4)).is_none());
    let taken = document("new-var = 1\ny = 2", vec![decl("new-var", 1, num("1", 1, 11)), decl("y", 2, num("2", 2, 5))]);
    assert!(actions_in_selection(&taken, range(1, 4, 1, 5)).unwrap().is_empty());
}

#[test]
fn selected_tokens_come_in_order_and_a_reversed_window_keeps_the_token_around_it() {
    let doc = x_then_y();
    let ts = selection_tokens(&doc, pos(0, 0), pos(1, 5)).unwrap();
    let places: Vec<(u32, u32)> = ts.iter().map(|t| (t.source_loc.line, t.source_loc.column)).collect();
    assert_eq!(places, vec![(1, 1), (1, 3), (1, 5), (2, 1), (2, 3), (2, 5)]);
    let wide = document("abc = 1", vec![decl("abc", 1, num("1", 1, 7))]);
    let back = selection_tokens(&wide, pos(0, 2), pos(0, 1)).unwrap();
    assert_eq!(back.len(), 1);
    assert_eq!(back[0].source_loc.column, 1);
    assert!(selection_tokens(&wide, pos(0, 5), pos(0, 4)).unwrap().is_empty());
}

#[test]
fn builtin_documentation() {
    assert_eq!(builtin_docs().len(), 32);
    assert_eq!(lookup_builtin_arg("sine", "frequency").as_deref(), Some("FILL_IN"));
    assert!(lookup_builtin_arg("sine", "nothing").is_none());
    assert!(lookup_builtin_arg("nothing", "frequency").is_none());
}

#[test]
fn selections_are_cut_to_whole_tokens() {
    let doc = x_then_y();
    assert_eq!(adjust_selection_end(&doc, 0, pos(1, 0)), pos(0, 5));
    assert_eq!(adjust_selection_end(&doc, 1, pos(1, 0)), pos(1, 0));
    let ts = selection_tokens(&doc, pos(0, 4), pos(1, 3)).unwrap();
    assert_eq!(ts.len(), 3);
    assert!(selection_tokens(&doc, pos(0, 0), pos(5, 0)).is_err());
}

#[test]
fn a_selection_to_format_runs_from_token_to_token() {
    let doc = x_then_y();
    let sel = selection_to_format(&doc, pos(0, 0), pos(1, 5)).unwrap();
    assert_eq!(sel.range, range(0, 0, 1, 5));
    assert_eq!(sel.indent_depth, 0);
    assert_eq!(sel.tokens.len(), 6);
    let first_line = selection_to_format(&doc, pos(0, 0), pos(1, 0)).unwrap();
    assert_eq!(first_line.range, range(0, 0, 0, 5));
    assert_eq!(first_line.tokens.len(), 3);
    let inner = selection_to_format(&doc, pos(0, 4), pos(0, 5)).unwrap();
    assert_eq!(inner.range, range(0, 4, 0, 5));
    assert_eq!(inner.indent_depth, 4);
    assert_eq!(inner.tokens.len(), 1);
    assert_eq!(selection_to_format(&doc, pos(0, 1), pos(1, 5)).unwrap_err(), SelectionError::IncompleteStatements);
    assert_eq!(selection_to_format(&doc, pos(0, 0), pos(0, 0)).unwrap_err(), SelectionError::IncompleteStatements);
}

#[test]
fn reanalysing_orders_diagnostics_by_kind() {
    let text = "noteAttack = 1\ny = zzz 'q";
    let module = Module {
        includes: Vec::new(),
        statements: vec![decl("noteAttack", 1, num("1", 1, 14)), decl("y", 2, lval("zzz", 2, 5))],
    };
    let ast = Module { includes: Vec::new(), statements: Vec::new() };
    let extra = ParserError::ExtraToken { token: tok(TokenType::Identifier("q".to_string()), 2, 10, 1) };
    let doc = reanalyze(&DocLoc::new(URI), text.to_string(), module, ast, Some(extra)).unwrap();
    assert_eq!(doc.contents, text);
    let codes: Vec<DiagnosticCode> = doc.diagnostics.iter().map(|d| d.code).collect();
    assert_eq!(
        codes,
        vec![
            DiagnosticCode::Analyzer_Error_NoSuchVariable,
            DiagnosticCode::Parser_Error_ExtraToken,
            DiagnosticCode::Lexer_Error_UnknownToken,
            DiagnosticCode::Analyzer_Lint_CamelCase,
        ]
    );
    assert_eq!(doc.tokens.len(), 2);
    assert_eq!(doc.last_var_names, vec!["noteAttack".to_string(), "y".to_string()]);
}

#[test]
fn an_unparsable_text_shows_the_parser_error_then_the_lexer_errors() {
    let text = "x = 'a 'b";
    let module = Module { includes: Vec::new(), statements: Vec::new() };
    let ast = Module { includes: Vec::new(), statements: Vec::new() };
    let extra = ParserError::ExtraToken { token: tok(TokenType::Identifier("a".to_string()), 1, 6, 1) };
    let doc = reanalyze(&DocLoc::new(URI), text.to_string(), module, ast, Some(extra)).unwrap();
    let codes: Vec<DiagnosticCode> = doc.diagnostics.iter().map(|d| d.code).collect();
    assert_eq!(
        codes,
        vec![
            DiagnosticCode::Parser_Error_ExtraToken,
            DiagnosticCode::Lexer_Error_UnknownToken,
            DiagnosticCode::Lexer_Error_UnknownToken,
        ]
    );
    let starts: Vec<u32> = doc.diagnostics.iter().map(|d| d.range.start.character).collect();
    assert_eq!(starts, vec![5, 4, 7]);
}

#[test]
fn reading_the_highlighting_back_gives_each_tokens_place() {
    let doc = document(
        "x = 1\n\n  y = x // note",
        vec![decl("x", 1, num("1", 1, 5)), decl("y", 3, lval("x", 3, 7))],
    );
    let data = calc_semantic_tokens(&DocLoc::new(URI), &doc).unwrap();
    let (mut line, mut column) = (1u32, 1u32);
    let mut places = Vec::new();
    for d in &data {
        line += d.delta_line;
        column = if d.delta_line == 0 { column + d.delta_start } else { 1 + d.delta_start };
        places.push((line, column, d.length));
    }
    assert_eq!(places, vec![(1, 1, 1), (1, 5, 1), (3, 3, 1), (3, 7, 1), (3, 9, 7)]);
}
