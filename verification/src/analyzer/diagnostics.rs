//! What analysis reports.

use vstd::prelude::*;

use crate::analyzer::organic_type::{OrganicType, TypeV};
use crate::lexer::token::{Token, TokenV};

verus! {

/// A report about one token.
#[derive(Debug)]
pub struct AnalyzerDiagnostic {
    pub typ: AnalyzerDiagnosticType,
    pub offender: Token,
}

/// The three grades of report.
#[derive(Debug)]
pub enum AnalyzerDiagnosticType {
    AnalyzerError(AnalyzerErrorType),
    AnalyzerLint(AnalyzerLintType),
    AnalyzerWarning(AnalyzerWarningType),
}

/// Errors: the program is wrong.
#[derive(Debug)]
pub enum AnalyzerErrorType {
    BadInternalState,
    DuplicateParameter,
    DuplicateVar,
    ExtraArgument { name: String },
    MissingArgument { name: String, typ: OrganicType },
    NoSuchFn,
    NoSuchVariable,
    TypeMismatch { expected: OrganicType, got: OrganicType },
    VarCannotInitInTermsOfSelf,
}

/// Lints: names that are not in kebab-case.
#[derive(Clone, Copy, Debug, Eq, PartialEq)]
pub enum AnalyzerLintType {
    CamelCase,
    SnakeCase,
}

/// Warnings: code that does nothing.
#[derive(Clone, Copy, Debug, Eq, PartialEq)]
pub enum AnalyzerWarningType {
    ArgOverridesPrevious,
    IntermediateCallInFnDef,
    UselessFnBody,
}

/// The mathematical content of an [`AnalyzerErrorType`].
pub enum ErrorV {
    BadInternalState,
    DuplicateParameter,
    DuplicateVar,
    ExtraArgument { name: Seq<char> },
    MissingArgument { name: Seq<char>, typ: TypeV },
    NoSuchFn,
    NoSuchVariable,
    TypeMismatch { expected: TypeV, got: TypeV },
    VarCannotInitInTermsOfSelf,
}

/// The mathematical content of an [`AnalyzerDiagnosticType`].
pub enum DiagTypeV {
    Error(ErrorV),
    Lint(AnalyzerLintType),
    Warning(AnalyzerWarningType),
}

/// The mathematical content of an [`AnalyzerDiagnostic`].
pub struct DiagV {
    pub typ: DiagTypeV,
    pub offender: TokenV,
}

impl View for AnalyzerErrorType {
    type V = ErrorV;

    open spec fn view(&self) -> ErrorV {
        match self {
            AnalyzerErrorType::BadInternalState => ErrorV::BadInternalState,
            AnalyzerErrorType::DuplicateParameter => ErrorV::DuplicateParameter,
            AnalyzerErrorType::DuplicateVar => ErrorV::DuplicateVar,
            AnalyzerErrorType::ExtraArgument { name } => ErrorV::ExtraArgument { name: name@ },
            AnalyzerErrorType::MissingArgument { name, typ } => ErrorV::MissingArgument {
                name: name@,
                typ: typ@,
            },
            AnalyzerErrorType::NoSuchFn => ErrorV::NoSuchFn,
            AnalyzerErrorType::NoSuchVariable => ErrorV::NoSuchVariable,
            AnalyzerErrorType::TypeMismatch { expected, got } => ErrorV::TypeMismatch {
                expected: expected@,
                got: got@,
            },
            AnalyzerErrorType::VarCannotInitInTermsOfSelf => ErrorV::VarCannotInitInTermsOfSelf,
        }
    }
}

impl View for AnalyzerDiagnosticType {
    type V = DiagTypeV;

    open spec fn view(&self) -> DiagTypeV {
        match self {
            AnalyzerDiagnosticType::AnalyzerError(e) => DiagTypeV::Error(e@),
            AnalyzerDiagnosticType::AnalyzerLint(l) => DiagTypeV::Lint(*l),
            AnalyzerDiagnosticType::AnalyzerWarning(w) => DiagTypeV::Warning(*w),
        }
    }
}

impl View for AnalyzerDiagnostic {
    type V = DiagV;

    open spec fn view(&self) -> DiagV {
        DiagV { typ: self.typ@, offender: self.offender@ }
    }
}

pub open spec fn diags_view(s: Seq<AnalyzerDiagnostic>) -> Seq<DiagV> {
    s.map_values(|d: AnalyzerDiagnostic| d@)
}

pub open spec fn error_diag(typ: ErrorV, offender: TokenV) -> DiagV {
    DiagV { typ: DiagTypeV::Error(typ), offender }
}

pub open spec fn warning_diag(typ: AnalyzerWarningType, offender: TokenV) -> DiagV {
    DiagV { typ: DiagTypeV::Warning(typ), offender }
}

pub open spec fn lint_diag(typ: AnalyzerLintType, offender: TokenV) -> DiagV {
    DiagV { typ: DiagTypeV::Lint(typ), offender }
}

} // verus!
