use organic_lsp::analyzer::diagnostics::{AnalyzerDiagnostic, AnalyzerDiagnosticType, AnalyzerErrorType, AnalyzerLintType, AnalyzerWarningType};
use organic_lsp::analyzer::organic_type::OrganicType;
use organic_lsp::common::doc_loc::DocLoc;
use organic_lsp::lexer::diagnostics::LexerError;
use organic_lsp::lexer::source_loc::{MiniLoc, SourceLoc};
use organic_lsp::lexer::token::{Token, TokenType};
use organic_lsp::lsp::diagnostics::{
    code_from_number, code_number, document_diagnostics, error_as_diagnostic, lint_as_diagnostic, warning_as_diagnostic,
    DiagnosticCode, LspError, LspPosition, LspRange, Severity,
};
use organic_lsp::parser::diagnostics::ParserError;

fn loc(doc: &str, pos: u32, line: u32, column: u32, length: u32) -> SourceLoc {
    SourceLoc { doc_loc: DocLoc::new(doc), pos, line, column, length }
}

fn ident(name: &str, line: u32, column: u32) -> Token {
    Token { token_type: TokenType::Identifier(name.to_string()), source_loc: loc("doc", 0, line, column, name.len() as u32) }
}

fn range(l1: u32, c1: u32, l2: u32, c2: u32) -> LspRange {
    LspRange { start: LspPosition { line: l1, character: c1 }, end: LspPosition { line: l2, character: c2 } }
}

#[test]
fn snake_case_lint_is_a_hint_suggesting_kebab_case() {
    let d = lint_as_diagnostic(&AnalyzerLintType::SnakeCase, ident("note_attack", 1, 1));
    assert_eq!(d.severity, Severity::Hint);
    assert_eq!(d.code, DiagnosticCode::Analyzer_Lint_SnakeCase);
    assert_eq!(d.range, range(0, 0, 0, 11));
    assert_eq!(
        d.message,
        "Variable `note_attack` should have a `kebab-case` name (e.g. `note-attack`), but it's in `snake_case`"
    );
    let d2 = lint_as_diagnostic(&AnalyzerLintType::SnakeCase, ident("note_length", 2, 1));
    assert_eq!(d2.range, range(1, 0, 1, 11));
    assert_eq!(
        d2.message,
        "Variable `note_length` should have a `kebab-case` name (e.g. `note-length`), but it's in `snake_case`"
    );
}

#[test]
fn camel_case_lint_message() {
    let d = lint_as_diagnostic(&AnalyzerLintType::CamelCase, ident("noteLength", 3, 5));
    assert_eq!(d.code, DiagnosticCode::Analyzer_Lint_CamelCase);
    assert_eq!(d.range, range(2, 4, 2, 14));
    assert_eq!(
        d.message,
        "Variable `noteLength` should have a `kebab-case` name (e.g. `note-length`), but it's in `camelCase`"
    );
}

#[test]
fn no_such_variable_and_type_mismatch_messages() {
    let d = error_as_diagnostic(LspError::LspAnalyzerError {
        typ: AnalyzerErrorType::NoSuchVariable,
        offender: ident("note_length", 3, 77),
    });
    assert_eq!(d.severity, Severity::Error);
    assert_eq!(d.code, DiagnosticCode::Analyzer_Error_NoSuchVariable);
    assert_eq!(d.message, "No such variable: Identifier(\"note_length\")");
    assert_eq!(d.range, range(2, 76, 2, 87));

    let d = error_as_diagnostic(LspError::LspAnalyzerError {
        typ: AnalyzerErrorType::TypeMismatch { expected: OrganicType::Number, got: OrganicType::Unknown },
        offender: ident("length", 3, 69),
    });
    assert_eq!(d.code, DiagnosticCode::Analyzer_Error_TypeMismatch);
    assert_eq!(
        d.message,
        "Could not match expected type `number` with actual type `???`, regarding value `Identifier(\"length\")`."
    );
    assert_eq!(d.range, range(2, 68, 2, 74));
}

#[test]
fn unknown_token_message_and_range() {
    let d = error_as_diagnostic(LspError::LspLexerError(LexerError::UnknownToken {
        culprit: "'".to_string(),
        source_loc: loc("doc", 9, 1, 10, 1),
    }));
    assert_eq!(d.message, "Unknown token: '");
    assert_eq!(d.code, DiagnosticCode::Lexer_Error_UnknownToken);
    assert_eq!(d.range, range(0, 9, 0, 10));
}

#[test]
fn file_too_big_message_and_range() {
    let d = error_as_diagnostic(LspError::LspLexerError(LexerError::FileTooBig { size: 4294967296, line_num: 7 }));
    assert_eq!(d.range, range(0, 0, 6, 0));
    assert_eq!(
        d.message,
        "This file is too large!  organic-lsp can only handle values up to 4294967295 characters in size, but this file has at least 4294967296 characters"
    );
    assert_eq!(d.code, DiagnosticCode::Lexer_Error_FileTooBig);
}

#[test]
fn parser_messages_show_locations_tokens_and_expectations() {
    let eof = error_as_diagnostic(LspError::LspParserError(ParserError::UnexpectedEOF {
        location: MiniLoc { line: 1, column: 21 },
        expected: vec!["\"=\"".to_string(), "\"(\"".to_string()],
    }));
    assert_eq!(eof.message, "Unexpected EOF at location MiniLoc { line: 1, column: 21 }\nExpected: $[\"\\\"=\\\"\", \"\\\"(\\\"\"]");
    assert_eq!(eof.range, range(0, 20, 0, 21));
    assert_eq!(eof.code, DiagnosticCode::Parser_Error_UnexpectedEOF);

    let token = Token {
        token_type: TokenType::Identifier("apples".to_string()),
        source_loc: loc("file://./tests/invalid_parse.organic", 4, 1, 5, 6),
    };
    let wrong = error_as_diagnostic(LspError::LspParserError(ParserError::WrongToken {
        token,
        expected: vec!["\"=\"".to_string(), "\"(\"".to_string()],
    }));
    assert_eq!(wrong.message, "Wrong token for this context: Token { token_type: Identifier(\"apples\"), source_loc: SourceLoc { doc_loc: DocLoc(\"file://./tests/invalid_parse.organic\"), pos: 4, line: 1, column: 5, length: 6 } }\nExpected: $[\"\\\"=\\\"\", \"\\\"(\\\"\"]");
    assert_eq!(wrong.range, range(0, 4, 0, 10));
    assert_eq!(wrong.code, DiagnosticCode::Parser_Error_WrongToken);
}

#[test]
fn missing_argument_message_shows_the_type_in_full() {
    let d = error_as_diagnostic(LspError::LspAnalyzerError {
        typ: AnalyzerErrorType::MissingArgument { name: "frequency".to_string(), typ: OrganicType::List(Box::new(OrganicType::Number)) },
        offender: ident("sine", 1, 1),
    });
    assert_eq!(d.message, "Missing argument of type \"List(Number)\" to function \"Identifier(\"sine\")\": frequency");
    assert_eq!(d.code, DiagnosticCode::Analyzer_Error_MissingArgument);
}

#[test]
fn warning_messages() {
    let d = warning_as_diagnostic(&AnalyzerWarningType::UselessFnBody, ident("f", 1, 1));
    assert_eq!(d.severity, Severity::Warning);
    assert_eq!(d.code, DiagnosticCode::Analyzer_Warning_UselessFnBody);
    assert_eq!(d.message, "This entire function body does nothing, since it does not call a function in its final statement");
    let d = warning_as_diagnostic(&AnalyzerWarningType::ArgOverridesPrevious, ident("x", 1, 3));
    assert_eq!(d.message, "This argument overrides a previous one of the same name");
    assert_eq!(d.range, range(0, 2, 0, 3));
}

#[test]
fn code_numbers_round_trip() {
    assert_eq!(code_number(DiagnosticCode::Lexer_Error_FileTooBig), 0);
    assert_eq!(code_number(DiagnosticCode::Analyzer_Lint_SnakeCase), 17);
    assert_eq!(code_number(DiagnosticCode::Analyzer_Warning_UselessFnBody), 20);
    for n in 0..21 {
        let c = code_from_number(n).unwrap();
        assert_eq!(code_number(c), n);
    }
    assert!(code_from_number(21).is_none());
    assert!(code_from_number(-1).is_none());
}

#[test]
fn document_diagnostics_order_errors_parser_lexer_then_the_rest() {
    let analyzer = vec![
        AnalyzerDiagnostic { typ: AnalyzerDiagnosticType::AnalyzerLint(AnalyzerLintType::SnakeCase), offender: ident("a_b", 1, 1) },
        AnalyzerDiagnostic { typ: AnalyzerDiagnosticType::AnalyzerError(AnalyzerErrorType::NoSuchFn), offender: ident("f", 2, 1) },
        AnalyzerDiagnostic { typ: AnalyzerDiagnosticType::AnalyzerWarning(AnalyzerWarningType::UselessFnBody), offender: ident("g", 3, 1) },
    ];
    let parser = Some(ParserError::FictionalToken { location: MiniLoc { line: 4, column: 2 } });
    let lexer = vec![LexerError::UnknownToken { culprit: "'".to_string(), source_loc: loc("doc", 0, 5, 1, 1) }];
    let ds = document_diagnostics(analyzer, parser, lexer);
    let codes: Vec<DiagnosticCode> = ds.iter().map(|d| d.code).collect();
    assert_eq!(
        codes,
        vec![
            DiagnosticCode::Analyzer_Error_NoSuchFn,
            DiagnosticCode::Parser_Error_FictionalToken,
            DiagnosticCode::Lexer_Error_UnknownToken,
            DiagnosticCode::Analyzer_Lint_SnakeCase,
            DiagnosticCode::Analyzer_Warning_UselessFnBody,
        ]
    );
    assert_eq!(ds[0].message, "No such function: Identifier(\"f\")");
    assert_eq!(ds[1].message, "Unparseable token type at location: MiniLoc { line: 4, column: 2 }");
    assert_eq!(ds[1].range, range(3, 1, 3, 2));
}
