//! Problems found in a document, as a language client shows them: a range,
//! a severity, a message and a numeric code.

use vstd::prelude::*;

use crate::analyzer::diagnostics::{
    AnalyzerDiagnostic, AnalyzerDiagnosticType, AnalyzerErrorType, AnalyzerLintType, AnalyzerWarningType,
};
use crate::lexer::diagnostics::LexerError;
use crate::lexer::source_loc::{MiniLoc, SourceLoc};
use crate::lexer::token::{Token, TokenType};
use crate::lsp::debug_text::{
    decimal, decimal_text, mini_loc_text, show_mini_loc, show_strings, show_token, show_token_type,
    show_type, strings_text, strings_view, token_text, token_type_text, type_text,
};
use crate::lsp::kebab_cased::{kebab_cased, kebab_spec};
use crate::lsp::pretty_type::{pretty_spec, pretty_type};
use crate::parser::diagnostics::ParserError;
use crate::text::{owned, push_str};

verus! {

/// A position in a document: line and character, both counted from 0.
#[derive(Clone, Copy, Debug, Eq, PartialEq, Structural)]
pub struct LspPosition {
    pub line: u32,
    pub character: u32,
}

/// A range of a document, from `start` up to `end`.
#[derive(Clone, Copy, Debug, Eq, PartialEq, Structural)]
pub struct LspRange {
    pub start: LspPosition,
    pub end: LspPosition,
}

/// How serious a diagnostic is.
#[derive(Clone, Copy, Debug, Eq, PartialEq, Structural)]
pub enum Severity {
    Error,
    Warning,
    Information,
    Hint,
}

/// The kind of a diagnostic; each has a number (see [`code_number`]).
#[derive(Clone, Copy, Debug, Eq, PartialEq, Structural)]
#[allow(non_camel_case_types)]
pub enum DiagnosticCode {
    Lexer_Error_FileTooBig,
    Lexer_Error_UnknownToken,
    Parser_Error_ExtraToken,
    Parser_Error_FictionalToken,
    Parser_Error_MissingParameterValue,
    Parser_Error_UnexpectedEOF,
    Parser_Error_WrongToken,
    Analyzer_Error_BadInternalState,
    Analyzer_Error_DuplicateParameter,
    Analyzer_Error_DuplicateVar,
    Analyzer_Error_ExtraArgument,
    Analyzer_Error_MissingArgument,
    Analyzer_Error_NoSuchFn,
    Analyzer_Error_NoSuchVariable,
    Analyzer_Error_TypeMismatch,
    Analyzer_Error_VarCannotInitInTermsOfSelf,
    Analyzer_Lint_CamelCase,
    Analyzer_Lint_SnakeCase,
    Analyzer_Warning_ArgOverridesPrevious,
    Analyzer_Warning_IntermediateCallInFnDef,
    Analyzer_Warning_UselessFnBody,
}

/// The number of each code: its place in the declaration, from 0.
pub open spec fn code_number_spec(c: DiagnosticCode) -> i32 {
    match c {
        DiagnosticCode::Lexer_Error_FileTooBig => 0,
        DiagnosticCode::Lexer_Error_UnknownToken => 1,
        DiagnosticCode::Parser_Error_ExtraToken => 2,
        DiagnosticCode::Parser_Error_FictionalToken => 3,
        DiagnosticCode::Parser_Error_MissingParameterValue => 4,
        DiagnosticCode::Parser_Error_UnexpectedEOF => 5,
        DiagnosticCode::Parser_Error_WrongToken => 6,
        DiagnosticCode::Analyzer_Error_BadInternalState => 7,
        DiagnosticCode::Analyzer_Error_DuplicateParameter => 8,
        DiagnosticCode::Analyzer_Error_DuplicateVar => 9,
        DiagnosticCode::Analyzer_Error_ExtraArgument => 10,
        DiagnosticCode::Analyzer_Error_MissingArgument => 11,
        DiagnosticCode::Analyzer_Error_NoSuchFn => 12,
        DiagnosticCode::Analyzer_Error_NoSuchVariable => 13,
        DiagnosticCode::Analyzer_Error_TypeMismatch => 14,
        DiagnosticCode::Analyzer_Error_VarCannotInitInTermsOfSelf => 15,
        DiagnosticCode::Analyzer_Lint_CamelCase => 16,
        DiagnosticCode::Analyzer_Lint_SnakeCase => 17,
        DiagnosticCode::Analyzer_Warning_ArgOverridesPrevious => 18,
        DiagnosticCode::Analyzer_Warning_IntermediateCallInFnDef => 19,
        DiagnosticCode::Analyzer_Warning_UselessFnBody => 20,
    }
}

/// The number of a code.
pub fn code_number(c: DiagnosticCode) -> (r: i32)
    ensures
        r == code_number_spec(c),
{
    match c {
        DiagnosticCode::Lexer_Error_FileTooBig => 0,
        DiagnosticCode::Lexer_Error_UnknownToken => 1,
        DiagnosticCode::Parser_Error_ExtraToken => 2,
        DiagnosticCode::Parser_Error_FictionalToken => 3,
        DiagnosticCode::Parser_Error_MissingParameterValue => 4,
        DiagnosticCode::Parser_Error_UnexpectedEOF => 5,
        DiagnosticCode::Parser_Error_WrongToken => 6,
        DiagnosticCode::Analyzer_Error_BadInternalState => 7,
        DiagnosticCode::Analyzer_Error_DuplicateParameter => 8,
        DiagnosticCode::Analyzer_Error_DuplicateVar => 9,
        DiagnosticCode::Analyzer_Error_ExtraArgument => 10,
        DiagnosticCode::Analyzer_Error_MissingArgument => 11,
        DiagnosticCode::Analyzer_Error_NoSuchFn => 12,
        DiagnosticCode::Analyzer_Error_NoSuchVariable => 13,
        DiagnosticCode::Analyzer_Error_TypeMismatch => 14,
        DiagnosticCode::Analyzer_Error_VarCannotInitInTermsOfSelf => 15,
        DiagnosticCode::Analyzer_Lint_CamelCase => 16,
        DiagnosticCode::Analyzer_Lint_SnakeCase => 17,
        DiagnosticCode::Analyzer_Warning_ArgOverridesPrevious => 18,
        DiagnosticCode::Analyzer_Warning_IntermediateCallInFnDef => 19,
        DiagnosticCode::Analyzer_Warning_UselessFnBody => 20,
    }
}

/// Each code has its own number, from 0 to 20, and the number gives the
/// code back.
pub proof fn lemma_code_numbers(c: DiagnosticCode, d: DiagnosticCode)
    ensures
        0 <= code_number_spec(c) <= 20,
        code_number_spec(c) == code_number_spec(d) ==> c == d,
{
}

/// The code with the given number, if there is one.
pub fn code_from_number(n: i32) -> (r: Option<DiagnosticCode>)
    ensures
        r matches Some(c) ==> code_number_spec(c) == n,
        r is None <==> !(0 <= n <= 20),
{
    match n {
        0 => Some(DiagnosticCode::Lexer_Error_FileTooBig),
        1 => Some(DiagnosticCode::Lexer_Error_UnknownToken),
        2 => Some(DiagnosticCode::Parser_Error_ExtraToken),
        3 => Some(DiagnosticCode::Parser_Error_FictionalToken),
        4 => Some(DiagnosticCode::Parser_Error_MissingParameterValue),
        5 => Some(DiagnosticCode::Parser_Error_UnexpectedEOF),
        6 => Some(DiagnosticCode::Parser_Error_WrongToken),
        7 => Some(DiagnosticCode::Analyzer_Error_BadInternalState),
        8 => Some(DiagnosticCode::Analyzer_Error_DuplicateParameter),
        9 => Some(DiagnosticCode::Analyzer_Error_DuplicateVar),
        10 => Some(DiagnosticCode::Analyzer_Error_ExtraArgument),
        11 => Some(DiagnosticCode::Analyzer_Error_MissingArgument),
        12 => Some(DiagnosticCode::Analyzer_Error_NoSuchFn),
        13 => Some(DiagnosticCode::Analyzer_Error_NoSuchVariable),
        14 => Some(DiagnosticCode::Analyzer_Error_TypeMismatch),
        15 => Some(DiagnosticCode::Analyzer_Error_VarCannotInitInTermsOfSelf),
        16 => Some(DiagnosticCode::Analyzer_Lint_CamelCase),
        17 => Some(DiagnosticCode::Analyzer_Lint_SnakeCase),
        18 => Some(DiagnosticCode::Analyzer_Warning_ArgOverridesPrevious),
        19 => Some(DiagnosticCode::Analyzer_Warning_IntermediateCallInFnDef),
        20 => Some(DiagnosticCode::Analyzer_Warning_UselessFnBody),
        _ => None,
    }
}

/// A diagnostic as a client receives it.
#[derive(Debug)]
pub struct DiagnosticInfo {
    pub range: LspRange,
    pub severity: Severity,
    pub message: String,
    pub code: DiagnosticCode,
}

/// An error of any stage.
#[derive(Debug)]
#[allow(clippy::enum_variant_names)]
pub enum LspError {
    LspLexerError(LexerError),
    LspParserError(ParserError),
    LspAnalyzerError { typ: AnalyzerErrorType, offender: Token },
}

/// Whether a token at `line`, `column` (both from 1) with `length` has a
/// range that fits in 32 bits.
pub open spec fn loc_fits(line: u32, column: u32, length: u32) -> bool {
    line >= 1 && column >= 1 && column - 1 + length <= u32::MAX
}

/// The range on one line from `column` (from 1), `length` characters long.
pub open spec fn range3(line: u32, column: u32, length: u32) -> LspRange {
    LspRange {
        start: LspPosition { line: (line - 1) as u32, character: (column - 1) as u32 },
        end: LspPosition { line: (line - 1) as u32, character: (column - 1 + length) as u32 },
    }
}

/// The range of `length` characters at `line`, `column` (from 1), counted
/// from 0.
pub fn as_range3(line: u32, column: u32, length: u32) -> (r: LspRange)
    requires
        loc_fits(line, column, length),
    ensures
        r == range3(line, column, length),
{
    LspRange {
        start: LspPosition { line: line - 1, character: column - 1 },
        end: LspPosition { line: line - 1, character: column - 1 + length },
    }
}

/// The range of a token's location.
pub fn as_range(source_loc: &SourceLoc) -> (r: LspRange)
    requires
        loc_fits(source_loc.line, source_loc.column, source_loc.length),
    ensures
        r == range3(source_loc.line, source_loc.column, source_loc.length),
{
    as_range3(source_loc.line, source_loc.column, source_loc.length)
}

/// The one-character range at a line and column.
pub fn as_range_mini(mini: MiniLoc) -> (r: LspRange)
    requires
        loc_fits(mini.line, mini.column, 1),
    ensures
        r == range3(mini.line, mini.column, 1),
{
    as_range3(mini.line, mini.column, 1)
}

/// Whether the ranges an error points at fit in 32 bits.
pub open spec fn error_fits(e: &LspError) -> bool {
    match e {
        LspError::LspLexerError(LexerError::FileTooBig { line_num, .. }) => *line_num >= 1,
        LspError::LspLexerError(LexerError::UnknownToken { source_loc, .. }) => loc_fits(
            source_loc.line,
            source_loc.column,
            source_loc.length,
        ),
        LspError::LspParserError(ParserError::ExtraToken { token })
        | LspError::LspParserError(ParserError::MissingParameterValue { token })
        | LspError::LspParserError(ParserError::WrongToken { token, .. })
        | LspError::LspAnalyzerError { offender: token, .. } => loc_fits(
            token.source_loc.line,
            token.source_loc.column,
            token.source_loc.length,
        ),
        LspError::LspParserError(ParserError::FictionalToken { location })
        | LspError::LspParserError(ParserError::UnexpectedEOF { location, .. }) => loc_fits(
            location.line,
            location.column,
            1,
        ),
    }
}

/// The range of a token.
pub open spec fn token_range(t: Token) -> LspRange {
    range3(t.source_loc.line, t.source_loc.column, t.source_loc.length)
}

/// The diagnostic for an error: its range, `Error` severity, its message and
/// its code.
pub open spec fn error_range(e: &LspError) -> LspRange {
    match e {
        LspError::LspLexerError(LexerError::FileTooBig { line_num, .. }) => LspRange {
            start: LspPosition { line: 0, character: 0 },
            end: LspPosition { line: (*line_num - 1) as u32, character: 0 },
        },
        LspError::LspLexerError(LexerError::UnknownToken { source_loc, .. }) => range3(
            source_loc.line,
            source_loc.column,
            source_loc.length,
        ),
        LspError::LspParserError(ParserError::ExtraToken { token })
        | LspError::LspParserError(ParserError::MissingParameterValue { token })
        | LspError::LspParserError(ParserError::WrongToken { token, .. })
        | LspError::LspAnalyzerError { offender: token, .. } => token_range(*token),
        LspError::LspParserError(ParserError::FictionalToken { location })
        | LspError::LspParserError(ParserError::UnexpectedEOF { location, .. }) => range3(
            location.line,
            location.column,
            1,
        ),
    }
}

/// The code of an error.
pub open spec fn error_code(e: &LspError) -> DiagnosticCode {
    match e {
        LspError::LspLexerError(LexerError::FileTooBig { .. }) => DiagnosticCode::Lexer_Error_FileTooBig,
        LspError::LspLexerError(LexerError::UnknownToken { .. }) => DiagnosticCode::Lexer_Error_UnknownToken,
        LspError::LspParserError(ParserError::ExtraToken { .. }) => DiagnosticCode::Parser_Error_ExtraToken,
        LspError::LspParserError(ParserError::FictionalToken { .. }) => DiagnosticCode::Parser_Error_FictionalToken,
        LspError::LspParserError(ParserError::MissingParameterValue { .. }) => DiagnosticCode::Parser_Error_MissingParameterValue,
        LspError::LspParserError(ParserError::UnexpectedEOF { .. }) => DiagnosticCode::Parser_Error_UnexpectedEOF,
        LspError::LspParserError(ParserError::WrongToken { .. }) => DiagnosticCode::Parser_Error_WrongToken,
        LspError::LspAnalyzerError { typ, .. } => match typ {
            AnalyzerErrorType::BadInternalState => DiagnosticCode::Analyzer_Error_BadInternalState,
            AnalyzerErrorType::DuplicateParameter => DiagnosticCode::Analyzer_Error_DuplicateParameter,
            AnalyzerErrorType::DuplicateVar => DiagnosticCode::Analyzer_Error_DuplicateVar,
            AnalyzerErrorType::ExtraArgument { .. } => DiagnosticCode::Analyzer_Error_ExtraArgument,
            AnalyzerErrorType::MissingArgument { .. } => DiagnosticCode::Analyzer_Error_MissingArgument,
            AnalyzerErrorType::NoSuchFn => DiagnosticCode::Analyzer_Error_NoSuchFn,
            AnalyzerErrorType::NoSuchVariable => DiagnosticCode::Analyzer_Error_NoSuchVariable,
            AnalyzerErrorType::TypeMismatch { .. } => DiagnosticCode::Analyzer_Error_TypeMismatch,
            AnalyzerErrorType::VarCannotInitInTermsOfSelf => DiagnosticCode::Analyzer_Error_VarCannotInitInTermsOfSelf,
        },
    }
}

/// The message of an error.
pub open spec fn error_message(e: &LspError) -> Seq<char> {
    match e {
        LspError::LspLexerError(LexerError::FileTooBig { size, .. }) =>
            "This file is too large!  organic-lsp can only handle values up to 4294967295 characters in size, but this file has at least "@
            + decimal(*size as nat) + " characters"@,
        LspError::LspLexerError(LexerError::UnknownToken { culprit, .. }) => "Unknown token: "@ + culprit@,
        LspError::LspParserError(ParserError::ExtraToken { token }) => "Token found after EOF: "@
            + token_type_text(token.token_type@),
        LspError::LspParserError(ParserError::FictionalToken { location }) =>
            "Unparseable token type at location: "@ + mini_loc_text(location.line as nat, location.column as nat),
        LspError::LspParserError(ParserError::MissingParameterValue { .. }) =>
            "Parameter name requires accompanying value"@,
        LspError::LspParserError(ParserError::UnexpectedEOF { location, expected }) =>
            "Unexpected EOF at location "@ + mini_loc_text(location.line as nat, location.column as nat)
            + "\nExpected: $"@ + strings_text(strings_view(expected@)),
        LspError::LspParserError(ParserError::WrongToken { token, expected }) =>
            "Wrong token for this context: "@ + token_text(token@) + "\nExpected: $"@ + strings_text(
                strings_view(expected@),
            ),
        LspError::LspAnalyzerError { typ, offender } => {
            let tt = token_type_text(offender.token_type@);
            match typ {
                AnalyzerErrorType::BadInternalState => "Fatal internal error on `"@ + tt + "`"@,
                AnalyzerErrorType::DuplicateParameter =>
                    "This function already has a parameter named \""@ + tt + "\""@,
                AnalyzerErrorType::DuplicateVar => "Duplicate variable: "@ + tt,
                AnalyzerErrorType::ExtraArgument { name } => "Unexpected argument to function \""@ + tt
                    + "\": "@ + name@,
                AnalyzerErrorType::MissingArgument { name, typ } => "Missing argument of type \""@
                    + type_text(typ@) + "\" to function \""@ + tt + "\": "@ + name@,
                AnalyzerErrorType::NoSuchFn => "No such function: "@ + tt,
                AnalyzerErrorType::NoSuchVariable => "No such variable: "@ + tt,
                AnalyzerErrorType::TypeMismatch { expected, got } => "Could not match expected type `"@
                    + pretty_spec(expected@) + "` with actual type `"@ + pretty_spec(got@)
                    + "`, regarding value `"@ + tt + "`."@,
                AnalyzerErrorType::VarCannotInitInTermsOfSelf => "`"@ + tt
                    + "` cannot be defined in terms of itself"@,
            }
        },
    }
}

/// The diagnostic for an error, as [`error_range`], [`error_message`] and
/// [`error_code`] say, with `Error` severity.
pub fn error_as_diagnostic(error: LspError) -> (r: DiagnosticInfo)
    requires
        error_fits(&error),
    ensures
        r.range == error_range(&error),
        r.severity == Severity::Error,
        r.message@ == error_message(&error),
        r.code == error_code(&error),
{
    let (range, message, code) = match &error {
        LspError::LspLexerError(LexerError::FileTooBig { size, line_num }) => {
            let range = LspRange {
                start: LspPosition { line: 0, character: 0 },
                end: LspPosition { line: *line_num - 1, character: 0 },
            };
            let mut msg = owned(
                "This file is too large!  organic-lsp can only handle values up to 4294967295 characters in size, but this file has at least ",
            );
            push_str(&mut msg, decimal_text(*size as u64).as_str());
            push_str(&mut msg, " characters");
            (range, msg, DiagnosticCode::Lexer_Error_FileTooBig)
        },
        LspError::LspLexerError(LexerError::UnknownToken { culprit, source_loc }) => {
            let mut msg = owned("Unknown token: ");
            push_str(&mut msg, culprit.as_str());
            (as_range(source_loc), msg, DiagnosticCode::Lexer_Error_UnknownToken)
        },
        LspError::LspParserError(ParserError::ExtraToken { token }) => {
            let mut msg = owned("Token found after EOF: ");
            push_str(&mut msg, show_token_type(&token.token_type).as_str());
            (as_range(&token.source_loc), msg, DiagnosticCode::Parser_Error_ExtraToken)
        },
        LspError::LspParserError(ParserError::FictionalToken { location }) => {
            let mut msg = owned("Unparseable token type at location: ");
            push_str(&mut msg, show_mini_loc(location).as_str());
            (as_range_mini(*location), msg, DiagnosticCode::Parser_Error_FictionalToken)
        },
        LspError::LspParserError(ParserError::MissingParameterValue { token }) => {
            let msg = owned("Parameter name requires accompanying value");
            (as_range(&token.source_loc), msg, DiagnosticCode::Parser_Error_MissingParameterValue)
        },
        LspError::LspParserError(ParserError::UnexpectedEOF { location, expected }) => {
            let mut msg = owned("Unexpected EOF at location ");
            push_str(&mut msg, show_mini_loc(location).as_str());
            push_str(&mut msg, "\nExpected: $");
            push_str(&mut msg, show_strings(expected).as_str());
            (as_range_mini(*location), msg, DiagnosticCode::Parser_Error_UnexpectedEOF)
        },
        LspError::LspParserError(ParserError::WrongToken { token, expected }) => {
            let mut msg = owned("Wrong token for this context: ");
            push_str(&mut msg, show_token(token).as_str());
            push_str(&mut msg, "\nExpected: $");
            push_str(&mut msg, show_strings(expected).as_str());
            (as_range(&token.source_loc), msg, DiagnosticCode::Parser_Error_WrongToken)
        },
        LspError::LspAnalyzerError { typ, offender } => {
            let tt = show_token_type(&offender.token_type);
            let range = as_range(&offender.source_loc);
            match typ {
                AnalyzerErrorType::BadInternalState => {
                    let mut msg = owned("Fatal internal error on `");
                    push_str(&mut msg, tt.as_str());
                    push_str(&mut msg, "`");
                    (range, msg, DiagnosticCode::Analyzer_Error_BadInternalState)
                },
                AnalyzerErrorType::DuplicateParameter => {
                    let mut msg = owned("This function already has a parameter named \"");
                    push_str(&mut msg, tt.as_str());
                    push_str(&mut msg, "\"");
                    (range, msg, DiagnosticCode::Analyzer_Error_DuplicateParameter)
                },
                AnalyzerErrorType::DuplicateVar => {
                    let mut msg = owned("Duplicate variable: ");
                    push_str(&mut msg, tt.as_str());
                    (range, msg, DiagnosticCode::Analyzer_Error_DuplicateVar)
                },
                AnalyzerErrorType::ExtraArgument { name } => {
                    let mut msg = owned("Unexpected argument to function \"");
                    push_str(&mut msg, tt.as_str());
                    push_str(&mut msg, "\": ");
                    push_str(&mut msg, name.as_str());
                    (range, msg, DiagnosticCode::Analyzer_Error_ExtraArgument)
                },
                AnalyzerErrorType::MissingArgument { name, typ } => {
                    let mut msg = owned("Missing argument of type \"");
                    push_str(&mut msg, show_type(typ).as_str());
                    push_str(&mut msg, "\" to function \"");
                    push_str(&mut msg, tt.as_str());
                    push_str(&mut msg, "\": ");
                    push_str(&mut msg, name.as_str());
                    (range, msg, DiagnosticCode::Analyzer_Error_MissingArgument)
                },
                AnalyzerErrorType::NoSuchFn => {
                    let mut msg = owned("No such function: ");
                    push_str(&mut msg, tt.as_str());
                    (range, msg, DiagnosticCode::Analyzer_Error_NoSuchFn)
                },
                AnalyzerErrorType::NoSuchVariable => {
                    let mut msg = owned("No such variable: ");
                    push_str(&mut msg, tt.as_str());
                    (range, msg, DiagnosticCode::Analyzer_Error_NoSuchVariable)
                },
                AnalyzerErrorType::TypeMismatch { expected, got } => {
                    let mut msg = owned("Could not match expected type `");
                    push_str(&mut msg, pretty_type(expected).as_str());
                    push_str(&mut msg, "` with actual type `");
                    push_str(&mut msg, pretty_type(got).as_str());
                    push_str(&mut msg, "`, regarding value `");
                    push_str(&mut msg, tt.as_str());
                    push_str(&mut msg, "`.");
                    (range, msg, DiagnosticCode::Analyzer_Error_TypeMismatch)
                },
                AnalyzerErrorType::VarCannotInitInTermsOfSelf => {
                    let mut msg = owned("`");
                    push_str(&mut msg, tt.as_str());
                    push_str(&mut msg, "` cannot be defined in terms of itself");
                    (range, msg, DiagnosticCode::Analyzer_Error_VarCannotInitInTermsOfSelf)
                },
            }
        },
    };
    DiagnosticInfo { range, severity: Severity::Error, message, code }
}

/// The message of a warning.
pub open spec fn warning_message(w: AnalyzerWarningType) -> Seq<char> {
    match w {
        AnalyzerWarningType::ArgOverridesPrevious => "This argument overrides a previous one of the same name"@,
        AnalyzerWarningType::IntermediateCallInFnDef =>
            "This function call does nothing, since it is not the last statement"@,
        AnalyzerWarningType::UselessFnBody =>
            "This entire function body does nothing, since it does not call a function in its final statement"@,
    }
}

/// The code of a warning.
pub open spec fn warning_code(w: AnalyzerWarningType) -> DiagnosticCode {
    match w {
        AnalyzerWarningType::ArgOverridesPrevious => DiagnosticCode::Analyzer_Warning_ArgOverridesPrevious,
        AnalyzerWarningType::IntermediateCallInFnDef => DiagnosticCode::Analyzer_Warning_IntermediateCallInFnDef,
        AnalyzerWarningType::UselessFnBody => DiagnosticCode::Analyzer_Warning_UselessFnBody,
    }
}

/// The diagnostic for a warning about `offender`, with `Warning` severity.
pub fn warning_as_diagnostic(warning: &AnalyzerWarningType, offender: Token) -> (r: DiagnosticInfo)
    requires
        loc_fits(offender.source_loc.line, offender.source_loc.column, offender.source_loc.length),
    ensures
        r.range == token_range(offender),
        r.severity == Severity::Warning,
        r.message@ == warning_message(*warning),
        r.code == warning_code(*warning),
{
    let range = as_range(&offender.source_loc);
    let (message, code) = match warning {
        AnalyzerWarningType::ArgOverridesPrevious => (
            owned("This argument overrides a previous one of the same name"),
            DiagnosticCode::Analyzer_Warning_ArgOverridesPrevious,
        ),
        AnalyzerWarningType::IntermediateCallInFnDef => (
            owned("This function call does nothing, since it is not the last statement"),
            DiagnosticCode::Analyzer_Warning_IntermediateCallInFnDef,
        ),
        AnalyzerWarningType::UselessFnBody => (
            owned(
                "This entire function body does nothing, since it does not call a function in its final statement",
            ),
            DiagnosticCode::Analyzer_Warning_UselessFnBody,
        ),
    };
    DiagnosticInfo { range, severity: Severity::Warning, message, code }
}

/// The message of a lint about the variable `name`.
pub open spec fn lint_message(l: AnalyzerLintType, name: Seq<char>) -> Seq<char> {
    "Variable `"@ + name + "` should have a `kebab-case` name (e.g. `"@ + kebab_spec(name) + (match l {
        AnalyzerLintType::CamelCase => "`), but it's in `camelCase`"@,
        AnalyzerLintType::SnakeCase => "`), but it's in `snake_case`"@,
    })
}

/// The code of a lint.
pub open spec fn lint_code(l: AnalyzerLintType) -> DiagnosticCode {
    match l {
        AnalyzerLintType::CamelCase => DiagnosticCode::Analyzer_Lint_CamelCase,
        AnalyzerLintType::SnakeCase => DiagnosticCode::Analyzer_Lint_SnakeCase,
    }
}

/// The diagnostic for a lint about the identifier `offender`, with `Hint`
/// severity; the message suggests the name in kebab case.
pub fn lint_as_diagnostic(lint: &AnalyzerLintType, offender: Token) -> (r: DiagnosticInfo)
    requires
        offender.token_type is Identifier,
        loc_fits(offender.source_loc.line, offender.source_loc.column, offender.source_loc.length),
    ensures
        r.range == token_range(offender),
        r.severity == Severity::Hint,
        r.message@ == lint_message(*lint, offender.token_type->Identifier_0@),
        r.code == lint_code(*lint),
{
    let range = as_range(&offender.source_loc);
    let name = match &offender.token_type {
        TokenType::Identifier(name) => name,
        _ => {
            proof {
                assert(false);
            }
            return DiagnosticInfo {
                range,
                severity: Severity::Hint,
                message: String::new(),
                code: DiagnosticCode::Analyzer_Lint_CamelCase,
            };
        },
    };
    let mut message = owned("Variable `");
    push_str(&mut message, name.as_str());
    push_str(&mut message, "` should have a `kebab-case` name (e.g. `");
    push_str(&mut message, kebab_cased(name.as_str()).as_str());
    let code = match lint {
        AnalyzerLintType::CamelCase => {
            push_str(&mut message, "`), but it's in `camelCase`");
            DiagnosticCode::Analyzer_Lint_CamelCase
        },
        AnalyzerLintType::SnakeCase => {
            push_str(&mut message, "`), but it's in `snake_case`");
            DiagnosticCode::Analyzer_Lint_SnakeCase
        },
    };
    DiagnosticInfo { range, severity: Severity::Hint, message, code }
}

/// The mathematical content of a [`DiagnosticInfo`].
pub struct DiagnosticV {
    pub range: LspRange,
    pub severity: Severity,
    pub message: Seq<char>,
    pub code: DiagnosticCode,
}

impl View for DiagnosticInfo {
    type V = DiagnosticV;

    open spec fn view(&self) -> DiagnosticV {
        DiagnosticV { range: self.range, severity: self.severity, message: self.message@, code: self.code }
    }
}

/// The diagnostic of an error.
pub open spec fn error_diag(e: &LspError) -> DiagnosticV {
    DiagnosticV { range: error_range(e), severity: Severity::Error, message: error_message(e), code: error_code(e) }
}

/// Whether an analyzer diagnostic can be shown: its token's range fits, and
/// a lint is about an identifier.
pub open spec fn analyzer_diag_fits(d: AnalyzerDiagnostic) -> bool {
    &&& loc_fits(d.offender.source_loc.line, d.offender.source_loc.column, d.offender.source_loc.length)
    &&& d.typ is AnalyzerLint ==> d.offender.token_type is Identifier
}

/// The diagnostic of an analyzer diagnostic: an error as [`error_diag`]
/// says, a lint with `Hint` severity, a warning with `Warning` severity.
pub open spec fn analyzer_diag(d: AnalyzerDiagnostic) -> DiagnosticV {
    match d.typ {
        AnalyzerDiagnosticType::AnalyzerError(e) => error_diag(&LspError::LspAnalyzerError { typ: e, offender: d.offender }),
        AnalyzerDiagnosticType::AnalyzerLint(l) => DiagnosticV {
            range: token_range(d.offender),
            severity: Severity::Hint,
            message: lint_message(l, d.offender.token_type->Identifier_0@),
            code: lint_code(l),
        },
        AnalyzerDiagnosticType::AnalyzerWarning(w) => DiagnosticV {
            range: token_range(d.offender),
            severity: Severity::Warning,
            message: warning_message(w),
            code: warning_code(w),
        },
    }
}

/// The diagnostics of the errors among `ds`, in order.
pub open spec fn analyzer_error_diags(ds: Seq<AnalyzerDiagnostic>) -> Seq<DiagnosticV>
    decreases ds.len(),
{
    if ds.len() == 0 {
        Seq::empty()
    } else if ds.last().typ is AnalyzerError {
        analyzer_error_diags(ds.drop_last()).push(analyzer_diag(ds.last()))
    } else {
        analyzer_error_diags(ds.drop_last())
    }
}

/// The diagnostics of the lints and warnings among `ds`, in order.
pub open spec fn analyzer_other_diags(ds: Seq<AnalyzerDiagnostic>) -> Seq<DiagnosticV>
    decreases ds.len(),
{
    if ds.len() == 0 {
        Seq::empty()
    } else if ds.last().typ is AnalyzerError {
        analyzer_other_diags(ds.drop_last())
    } else {
        analyzer_other_diags(ds.drop_last()).push(analyzer_diag(ds.last()))
    }
}

/// The diagnostics of lexer errors, in order.
pub open spec fn lexer_diags(es: Seq<LexerError>) -> Seq<DiagnosticV> {
    es.map_values(|e: LexerError| error_diag(&LspError::LspLexerError(e)))
}

/// The diagnostic of the parser's error, if there is one.
pub open spec fn parser_diags(p: Option<ParserError>) -> Seq<DiagnosticV> {
    match p {
        Some(e) => seq![error_diag(&LspError::LspParserError(e))],
        None => Seq::empty(),
    }
}

/// The views of diagnostics.
pub open spec fn diagnostics_view(ds: Seq<DiagnosticInfo>) -> Seq<DiagnosticV> {
    ds.map_values(|d: DiagnosticInfo| d@)
}

/// The diagnostic of one analyzer diagnostic.
pub fn analyzer_diagnostic(d: AnalyzerDiagnostic) -> (r: DiagnosticInfo)
    requires
        analyzer_diag_fits(d),
    ensures
        r@ == analyzer_diag(d),
{
    let AnalyzerDiagnostic { typ, offender } = d;
    match typ {
        AnalyzerDiagnosticType::AnalyzerError(e) => error_as_diagnostic(LspError::LspAnalyzerError { typ: e, offender }),
        AnalyzerDiagnosticType::AnalyzerLint(l) => lint_as_diagnostic(&l, offender),
        AnalyzerDiagnosticType::AnalyzerWarning(w) => warning_as_diagnostic(&w, offender),
    }
}

/// All diagnostics of a document: the analyzer's errors, then the parser's
/// error, then the lexer's errors, then the analyzer's lints and warnings,
/// each group in the order found.
pub fn document_diagnostics(
    analyzer: Vec<AnalyzerDiagnostic>,
    parser_error: Option<ParserError>,
    lexer_errors: Vec<LexerError>,
) -> (r: Vec<DiagnosticInfo>)
    requires
        forall|i: int| 0 <= i < analyzer@.len() ==> analyzer_diag_fits(#[trigger] analyzer@[i]),
        parser_error matches Some(e) ==> error_fits(&LspError::LspParserError(e)),
        forall|i: int| 0 <= i < lexer_errors@.len() ==> error_fits(&LspError::LspLexerError(#[trigger] lexer_errors@[i])),
    ensures
        diagnostics_view(r@) == analyzer_error_diags(analyzer@) + parser_diags(parser_error) + lexer_diags(
            lexer_errors@,
        ) + analyzer_other_diags(analyzer@),
{
    let ghost all = analyzer@;
    let mut errors: Vec<DiagnosticInfo> = Vec::new();
    let mut others: Vec<DiagnosticInfo> = Vec::new();
    let mut rest = analyzer;
    let ghost mut done: int = 0;
    proof {
        assert(rest@ =~= all.skip(0));
        assert(all.take(0) =~= Seq::<AnalyzerDiagnostic>::empty());
        assert(diagnostics_view(errors@) =~= Seq::<DiagnosticV>::empty());
        assert(diagnostics_view(others@) =~= Seq::<DiagnosticV>::empty());
    }
    while rest.len() > 0
        invariant
            0 <= done <= all.len(),
            rest@ == all.skip(done),
            forall|i: int| 0 <= i < all.len() ==> analyzer_diag_fits(#[trigger] all[i]),
            diagnostics_view(errors@) == analyzer_error_diags(all.take(done)),
            diagnostics_view(others@) == analyzer_other_diags(all.take(done)),
        decreases rest@.len(),
    {
        let d = rest.remove(0);
        let ghost t = all.take(done + 1);
        proof {
            assert(d == all[done]);
            assert(rest@ =~= all.skip(done + 1));
            assert(t.drop_last() =~= all.take(done));
            assert(t.last() == d);
        }
        let is_error = match &d.typ {
            AnalyzerDiagnosticType::AnalyzerError(_) => true,
            _ => false,
        };
        let ghost dv = analyzer_diag(d);
        let info = analyzer_diagnostic(d);
        if is_error {
            let ghost old_view = diagnostics_view(errors@);
            errors.push(info);
            proof {
                assert(diagnostics_view(errors@) =~= old_view.push(dv));
            }
        } else {
            let ghost old_view = diagnostics_view(others@);
            others.push(info);
            proof {
                assert(diagnostics_view(others@) =~= old_view.push(dv));
            }
        }
        proof {
            done = done + 1;
        }
    }
    proof {
        assert(all.take(done) =~= all);
    }
    let ghost ev = diagnostics_view(errors@);
    let mut r = errors;
    let ghost parser_part = parser_diags(parser_error);
    match parser_error {
        Some(e) => {
            r.push(error_as_diagnostic(LspError::LspParserError(e)));
        },
        None => {},
    }
    proof {
        assert(diagnostics_view(r@) =~= ev + parser_part);
    }
    let ghost lv = lexer_errors@;
    let ghost base = diagnostics_view(r@);
    let mut lex_rest = lexer_errors;
    let ghost mut k: int = 0;
    proof {
        assert(lex_rest@ =~= lv.skip(0));
        assert(lexer_diags(lv.take(0)) =~= Seq::<DiagnosticV>::empty());
        assert(diagnostics_view(r@) =~= base + lexer_diags(lv.take(0)));
    }
    while lex_rest.len() > 0
        invariant
            0 <= k <= lv.len(),
            lex_rest@ == lv.skip(k),
            forall|i: int| 0 <= i < lv.len() ==> error_fits(&LspError::LspLexerError(#[trigger] lv[i])),
            diagnostics_view(r@) == base + lexer_diags(lv.take(k)),
        decreases lex_rest@.len(),
    {
        let e = lex_rest.remove(0);
        proof {
            assert(e == lv[k]);
            assert(lex_rest@ =~= lv.skip(k + 1));
        }
        let ghost old_view = diagnostics_view(r@);
        let ghost eg = e;
        let info = error_as_diagnostic(LspError::LspLexerError(e));
        proof {
            assert(info@ == error_diag(&LspError::LspLexerError(eg)));
        }
        r.push(info);
        proof {
            assert(diagnostics_view(r@) =~= old_view.push(info@));
            assert(lexer_diags(lv.take(k + 1)) =~= lexer_diags(lv.take(k)).push(error_diag(&LspError::LspLexerError(eg))));
            assert(diagnostics_view(r@) =~= base + lexer_diags(lv.take(k + 1)));
            k = k + 1;
        }
    }
    proof {
        assert(lv.take(k) =~= lv);
    }
    let ghost before_others = diagnostics_view(r@);
    let ghost ov = diagnostics_view(others@);
    let mut others = others;
    r.append(&mut others);
    proof {
        assert(diagnostics_view(r@) =~= before_others + ov);
    }
    r
}

} // verus!
