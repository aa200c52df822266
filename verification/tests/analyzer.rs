use organic_lsp::analyzer::analysis::{Analysis, HighlightingType, NonVarToken};
use organic_lsp::analyzer::diagnostics::{AnalyzerDiagnosticType, AnalyzerErrorType, AnalyzerLintType, AnalyzerWarningType};
use organic_lsp::analyzer::function::{Function, ParamInfo};
use organic_lsp::analyzer::organic_type::OrganicType;
use organic_lsp::analyzer::value::TermDefn;
use organic_lsp::analyzer::{analyze, constants, note_names};
use organic_lsp::common::doc_loc::DocLoc;
use organic_lsp::lexer::source_loc::SourceLoc;
use organic_lsp::lexer::token::{Token, TokenType};
use organic_lsp::parser::ast::{Arg, Expr, Formal, FuncCall, FuncLiteral, Module, Operator, Statement, Symbol, VarDecl};

fn tok(tt: TokenType, line: u32, column: u32, length: u32) -> Token {
    Token { token_type: tt, source_loc: SourceLoc { doc_loc: DocLoc::new("doc"), pos: 0, line, column, length } }
}

fn sym(name: &str, line: u32, column: u32) -> Symbol {
    Symbol { name: name.to_string(), token: tok(TokenType::Identifier(name.to_string()), line, column, name.len() as u32) }
}

fn num(value: &str, line: u32, column: u32) -> Expr {
    let t = tok(TokenType::Number(value.to_string()), line, column, value.len() as u32);
    Expr::Number { value: value.to_string(), token: t.clone(), start: t.clone(), end: t }
}

fn text(value: &str, line: u32, column: u32) -> Expr {
    let t = tok(TokenType::String(value.to_string()), line, column, value.len() as u32 + 2);
    Expr::String { value: value.to_string(), token: t.clone(), start: t.clone(), end: t }
}

fn lval(name: &str, line: u32, column: u32) -> Expr {
    let s = sym(name, line, column);
    let t = s.token.clone();
    Expr::LValue { name: s, token: t.clone(), start: t.clone(), end: t }
}

fn decl(name: &str, line: u32, init: Expr) -> Statement {
    Statement::VariableDecl(VarDecl { name: sym(name, line, 1), init })
}

fn call(name: &str, line: u32, args: Vec<(&str, Expr)>) -> FuncCall {
    let mut column = name.len() as u32 + 2;
    let args = args
        .into_iter()
        .map(|(n, value)| {
            let a = Arg { name: sym(n, line, column), value };
            column += n.len() as u32 + 4;
            a
        })
        .collect();
    FuncCall { func: sym(name, line, 1), args }
}

fn module(statements: Vec<Statement>) -> Module {
    Module { includes: Vec::new(), statements }
}

fn kinds(a: &Analysis) -> Vec<String> {
    a.diagnostics
        .iter()
        .map(|d| match &d.typ {
            AnalyzerDiagnosticType::AnalyzerError(e) => format!("error:{}", match e {
                AnalyzerErrorType::BadInternalState => "BadInternalState".to_string(),
                AnalyzerErrorType::DuplicateParameter => "DuplicateParameter".to_string(),
                AnalyzerErrorType::DuplicateVar => "DuplicateVar".to_string(),
                AnalyzerErrorType::ExtraArgument { name } => format!("ExtraArgument({name})"),
                AnalyzerErrorType::MissingArgument { name, .. } => format!("MissingArgument({name})"),
                AnalyzerErrorType::NoSuchFn => "NoSuchFn".to_string(),
                AnalyzerErrorType::NoSuchVariable => "NoSuchVariable".to_string(),
                AnalyzerErrorType::TypeMismatch { .. } => "TypeMismatch".to_string(),
                AnalyzerErrorType::VarCannotInitInTermsOfSelf => "VarCannotInitInTermsOfSelf".to_string(),
            }),
            AnalyzerDiagnosticType::AnalyzerLint(AnalyzerLintType::CamelCase) => "lint:CamelCase".to_string(),
            AnalyzerDiagnosticType::AnalyzerLint(AnalyzerLintType::SnakeCase) => "lint:SnakeCase".to_string(),
            AnalyzerDiagnosticType::AnalyzerWarning(AnalyzerWarningType::ArgOverridesPrevious) => "warning:ArgOverridesPrevious".to_string(),
            AnalyzerDiagnosticType::AnalyzerWarning(AnalyzerWarningType::IntermediateCallInFnDef) => "warning:IntermediateCallInFnDef".to_string(),
            AnalyzerDiagnosticType::AnalyzerWarning(AnalyzerWarningType::UselessFnBody) => "warning:UselessFnBody".to_string(),
        })
        .collect()
}

#[test]
fn an_empty_module_has_no_diagnostics_and_knows_the_builtins() {
    let a = analyze(module(Vec::new()));
    assert!(a.diagnostics.is_empty());
    assert_eq!(a.definitions.len(), 13 + 32 + 210);
    assert!(a.definitions.iter().any(|(addr, d)| addr.name == "sine" && matches!(d, TermDefn::BuiltinFn { .. })));
    assert!(a.definitions.iter().any(|(addr, d)| addr.name == "as4" && matches!(d, TermDefn::BuiltinNote { .. })));
}

#[test]
fn snake_and_camel_case_names_are_linted() {
    let a = analyze(module(vec![decl("note_length", 1, num("1", 1, 15)), decl("noteAttack", 2, num("2", 2, 14))]));
    assert_eq!(kinds(&a), vec!["lint:SnakeCase", "lint:CamelCase"]);
    assert_eq!(a.diagnostics[0].offender.source_loc.line, 1);
    assert_eq!(a.diagnostics[1].offender.source_loc.line, 2);
}

#[test]
fn a_trailing_or_leading_underscore_is_snake_case() {
    let a = analyze(module(vec![decl("_x", 1, num("1", 1, 6)), decl("y_", 2, num("1", 2, 6))]));
    assert_eq!(kinds(&a), vec!["lint:SnakeCase", "lint:SnakeCase"]);
}

#[test]
fn declaring_a_name_twice_is_an_error() {
    let a = analyze(module(vec![decl("x", 1, num("1", 1, 5)), decl("x", 2, num("2", 2, 5))]));
    assert_eq!(kinds(&a), vec!["error:DuplicateVar"]);
    assert_eq!(a.diagnostics[0].offender.source_loc.line, 2);
}

#[test]
fn an_unknown_variable_and_function_are_errors() {
    let a = analyze(module(vec![
        decl("y", 1, lval("zzz", 1, 5)),
        Statement::FunctionCall(Box::new(call("nothing-here", 2, Vec::new()))),
    ]));
    assert_eq!(kinds(&a), vec!["error:NoSuchVariable", "error:NoSuchFn"]);
}

#[test]
fn a_variable_cannot_be_defined_in_terms_of_itself() {
    let a = analyze(module(vec![decl("w", 1, lval("w", 1, 5))]));
    assert_eq!(kinds(&a), vec!["error:VarCannotInitInTermsOfSelf", "error:NoSuchVariable"]);
}

#[test]
fn calls_are_checked_against_the_function_type() {
    let ok = analyze(module(vec![Statement::FunctionCall(Box::new(call("sine", 1, vec![("frequency", num("440", 1, 18))])))]));
    assert!(kinds(&ok).is_empty());
    assert!(ok.non_var_tokens.iter().any(|t| matches!(t, NonVarToken::NamedArg(..))));
    assert!(ok.non_var_tokens.iter().any(|t| matches!(t, NonVarToken::Number(..))));

    let missing = analyze(module(vec![Statement::FunctionCall(Box::new(call("sine", 1, Vec::new())))]));
    assert_eq!(kinds(&missing), vec!["error:MissingArgument(frequency)"]);

    let extra = analyze(module(vec![Statement::FunctionCall(Box::new(call(
        "sine",
        1,
        vec![("frequency", num("440", 1, 18)), ("bogus", num("1", 1, 30))],
    )))]));
    assert_eq!(kinds(&extra), vec!["error:ExtraArgument(bogus)"]);

    let mismatch = analyze(module(vec![Statement::FunctionCall(Box::new(call("sine", 1, vec![("frequency", text("x", 1, 18))])))]));
    assert_eq!(kinds(&mismatch), vec!["error:TypeMismatch"]);
}

#[test]
fn naming_an_argument_twice_is_warned_about() {
    let a = analyze(module(vec![Statement::FunctionCall(Box::new(call(
        "sine",
        1,
        vec![("frequency", num("1", 1, 18)), ("frequency", num("2", 1, 30))],
    )))]));
    assert_eq!(kinds(&a), vec!["warning:ArgOverridesPrevious"]);
}

#[test]
fn a_user_variable_is_defined_typed_and_used() {
    let a = analyze(module(vec![decl("x", 1, num("1", 1, 5)), decl("y", 2, lval("x", 2, 5))]));
    assert!(kinds(&a).is_empty());
    let x = a.definitions.iter().find(|(addr, _)| addr.name == "x").unwrap();
    assert!(matches!(x.1, TermDefn::UserDefined { .. }));
    let uses = &a.usages.iter().find(|(addr, _)| addr.name == "x").unwrap().1;
    assert_eq!(uses.len(), 2);
    let info = &a.defn_infos.iter().find(|(addr, _)| addr.name == "y").unwrap().1;
    assert_eq!(info.organic_type, OrganicType::Number);
}

#[test]
fn a_function_body_ending_in_a_declaration_is_useless() {
    let f = FuncLiteral {
        name: sym("f", 1, 1),
        formals: Vec::new(),
        body: vec![decl("inner", 2, num("1", 2, 9))],
    };
    let t = f.name.token.clone();
    let init = Expr::Function { value: f, token: t.clone(), start: t.clone(), end: t };
    let a = analyze(module(vec![Statement::VariableDecl(VarDecl { name: sym("f", 1, 1), init })]));
    assert!(kinds(&a).contains(&"warning:UselessFnBody".to_string()));
}

#[test]
fn the_builtin_tables() {
    let cs = constants();
    assert_eq!(cs.len(), 13);
    assert_eq!(cs[0].0, "backward");
    assert_eq!(cs[0].1, OrganicType::SequenceArg);
    assert_eq!(cs[3].0, "false");
    assert_eq!(cs[3].1, OrganicType::Boolean);
    let notes = note_names();
    assert_eq!(notes.len(), 210);
    assert_eq!(notes[0], "af0");
    assert_eq!(notes[10], "a0");
    assert_eq!(notes[20], "as0");
    assert_eq!(notes[209], "gs9");
}

#[test]
fn function_arity() {
    let f = Function { params: vec![ParamInfo("a".to_string(), OrganicType::Number, false)], return_type: OrganicType::Number };
    assert_eq!(f.arity(), 1);
}

fn op(left: Expr, operator: Operator, right: Expr, line: u32, column: u32) -> Expr {
    let t = tok(TokenType::Plus, line, column, 1);
    Expr::Op { left: Box::new(left), operator, right: Box::new(right), token: t.clone(), start: t.clone(), end: t }
}

fn negated(value: Expr, line: u32, column: u32) -> Expr {
    let t = tok(TokenType::Minus, line, column, 1);
    Expr::Negated { value: Box::new(value), token: t.clone(), start: t.clone(), end: t }
}

fn list(values: Vec<Expr>, line: u32, column: u32) -> Expr {
    let t = tok(TokenType::LeftBracket, line, column, 1);
    Expr::List { values, token: t.clone(), start: t.clone(), end: t }
}

fn type_of(a: &Analysis, name: &str) -> Option<OrganicType> {
    a.defn_infos.iter().find(|(addr, _)| addr.name == name).map(|(_, info)| match &info.organic_type {
        OrganicType::Number => OrganicType::Number,
        OrganicType::Boolean => OrganicType::Boolean,
        OrganicType::String => OrganicType::String,
        OrganicType::List(inner) => OrganicType::List(Box::new(match **inner {
            OrganicType::Number => OrganicType::Number,
            OrganicType::String => OrganicType::String,
            _ => OrganicType::Unknown,
        })),
        _ => OrganicType::Unknown,
    })
}

#[test]
fn calling_a_variable_that_is_not_a_function_is_a_mismatch() {
    let a = analyze(module(vec![
        decl("x", 1, num("1", 1, 5)),
        Statement::FunctionCall(Box::new(call("x", 2, vec![("a", num("2", 2, 6))]))),
    ]));
    assert_eq!(kinds(&a), vec!["error:TypeMismatch"]);
    match &a.diagnostics[0].typ {
        AnalyzerDiagnosticType::AnalyzerError(AnalyzerErrorType::TypeMismatch { expected, got }) => {
            assert_eq!(*expected, OrganicType::Number);
            match got {
                OrganicType::Function(f) => {
                    assert_eq!(f.params.len(), 1);
                    assert_eq!(f.params[0].0, "a");
                    assert_eq!(f.params[0].1, OrganicType::Number);
                    assert!(!f.params[0].2);
                    assert_eq!(f.return_type, OrganicType::Unknown);
                },
                _ => panic!("a call is given a function type"),
            }
        },
        _ => panic!("a mismatch was expected"),
    }
    assert_eq!(a.diagnostics[0].offender.source_loc.line, 2);
}

#[test]
fn arithmetic_wants_numbers_and_comparison_gives_a_boolean() {
    let a = analyze(module(vec![
        decl("s", 1, op(text("a", 1, 5), Operator::Plus, num("1", 1, 11), 1, 9)),
        decl("b", 2, op(num("1", 2, 5), Operator::LessThan, num("2", 2, 9), 2, 7)),
        decl("same", 3, op(num("1", 3, 5), Operator::Equals, text("x", 3, 10), 3, 7)),
    ]));
    assert_eq!(kinds(&a), vec!["error:TypeMismatch", "error:TypeMismatch"]);
    assert_eq!(a.diagnostics[0].offender.source_loc.line, 1);
    assert_eq!(a.diagnostics[0].offender.source_loc.column, 5);
    assert_eq!(a.diagnostics[1].offender.source_loc.line, 3);
    assert_eq!(a.diagnostics[1].offender.source_loc.column, 10);
    assert_eq!(type_of(&a, "s"), Some(OrganicType::Number));
    assert_eq!(type_of(&a, "b"), Some(OrganicType::Boolean));
    assert_eq!(type_of(&a, "same"), Some(OrganicType::Boolean));
}

#[test]
fn only_numbers_can_be_negated() {
    let a = analyze(module(vec![decl("n", 1, negated(num("3", 1, 6), 1, 5)), decl("m", 2, negated(text("q", 2, 6), 2, 5))]));
    assert_eq!(kinds(&a), vec!["error:TypeMismatch"]);
    assert_eq!(a.diagnostics[0].offender.source_loc.column, 5);
    assert_eq!(type_of(&a, "n"), Some(OrganicType::Number));
    assert_eq!(type_of(&a, "m"), None);
}

#[test]
fn a_list_has_the_common_type_of_its_elements() {
    let a = analyze(module(vec![
        decl("l", 1, list(vec![num("1", 1, 6), num("2", 1, 9)], 1, 5)),
        decl("empty", 2, list(Vec::new(), 2, 5)),
        decl("m", 3, list(vec![num("1", 3, 6), text("x", 3, 9)], 3, 5)),
        decl("u", 4, list(vec![lval("nope", 4, 6), lval("gone", 4, 12)], 4, 5)),
    ]));
    assert_eq!(type_of(&a, "l"), Some(OrganicType::List(Box::new(OrganicType::Number))));
    assert_eq!(type_of(&a, "empty"), Some(OrganicType::List(Box::new(OrganicType::Unknown))));
    assert_eq!(type_of(&a, "m"), None);
    assert_eq!(type_of(&a, "u"), None);
    assert_eq!(kinds(&a), vec!["error:NoSuchVariable"]);
}

#[test]
fn a_repeated_argument_name_is_marked_once_at_its_last_use() {
    let a = analyze(module(vec![Statement::FunctionCall(Box::new(call(
        "sine",
        1,
        vec![("frequency", num("1", 1, 18)), ("volume", num("2", 1, 30)), ("frequency", num("3", 1, 45))],
    )))]));
    let named: Vec<u32> = a
        .non_var_tokens
        .iter()
        .filter_map(|t| match t {
            NonVarToken::NamedArg(token, addr, _) => {
                assert_eq!(addr.name, "sine");
                Some(token.source_loc.column)
            },
            _ => None,
        })
        .collect();
    assert_eq!(named, vec![19, 29]);
    let numbers = a.non_var_tokens.iter().filter(|t| matches!(t, NonVarToken::Number(..))).count();
    assert_eq!(numbers, 3);
    assert!(matches!(a.non_var_tokens[0], NonVarToken::Number(..)));
    let uses = &a.usages.iter().find(|(addr, _)| addr.name == "sine").unwrap().1;
    assert_eq!(uses.len(), 1);
    assert_eq!(uses[0].source_loc.column, 1);
}

#[test]
fn a_call_giving_each_parameter_its_own_type_is_accepted() {
    let a = analyze(module(vec![
        decl("capped", 1, Expr::Call {
            call: call("limit", 1, vec![("max", num("1", 1, 20)), ("min", num("0", 1, 30)), ("value", num("2", 1, 40))]),
            token: tok(TokenType::Identifier("limit".to_string()), 1, 10, 5),
            start: tok(TokenType::Identifier("limit".to_string()), 1, 10, 5),
            end: tok(TokenType::RightParen, 1, 42, 1),
        }),
    ]));
    assert!(kinds(&a).is_empty());
    let info = &a.defn_infos.iter().find(|(addr, _)| addr.name == "capped").unwrap().1;
    assert_eq!(info.organic_type, OrganicType::Number);
}

#[test]
fn a_function_literal_has_its_parameters_and_its_body_s_type() {
    let f = FuncLiteral {
        name: sym("tone", 1, 1),
        formals: vec![Formal { name: sym("pitch", 1, 9), default: num("440", 1, 16) }],
        body: vec![
            Statement::FunctionCall(Box::new(call("noise", 2, Vec::new()))),
            Statement::FunctionCall(Box::new(call("sine", 3, vec![("frequency", lval("pitch", 3, 18))]))),
        ],
    };
    let t = f.name.token.clone();
    let init = Expr::Function { value: f, token: t.clone(), start: t.clone(), end: t };
    let a = analyze(module(vec![Statement::VariableDecl(VarDecl { name: sym("tone", 1, 1), init })]));
    assert_eq!(kinds(&a), vec!["warning:IntermediateCallInFnDef"]);
    let info = &a.defn_infos.iter().find(|(addr, _)| addr.name == "tone").unwrap().1;
    match &info.organic_type {
        OrganicType::Function(func) => {
            assert_eq!(func.params.len(), 1);
            assert_eq!(func.params[0].0, "pitch");
            assert_eq!(func.params[0].1, OrganicType::Number);
            assert!(func.params[0].2);
            assert_eq!(func.return_type, OrganicType::Number);
        },
        _ => panic!("a function literal has a function type"),
    }
    let pitch_uses = &a.usages.iter().find(|(addr, _)| addr.name == "pitch").unwrap().1;
    assert_eq!(pitch_uses.len(), 2);
}

#[test]
fn a_function_literal_operand_is_a_mismatch_for_arithmetic() {
    let f = FuncLiteral { name: sym("g", 1, 6), formals: Vec::new(), body: vec![decl("inner", 2, num("1", 2, 9))] };
    let t = f.name.token.clone();
    let literal = Expr::Function { value: f, token: t.clone(), start: t.clone(), end: t };
    let a = analyze(module(vec![decl("x", 1, op(literal, Operator::Plus, num("1", 3, 5), 3, 3))]));
    assert_eq!(kinds(&a), vec!["warning:UselessFnBody", "error:TypeMismatch"]);
    assert_eq!(a.diagnostics[1].offender.source_loc.line, 1);
    assert_eq!(type_of(&a, "x"), Some(OrganicType::Number));
}

#[test]
fn an_empty_function_body_changes_nothing_but_the_literal() {
    let f = FuncLiteral { name: sym("g", 1, 5), formals: Vec::new(), body: Vec::new() };
    let t = f.name.token.clone();
    let literal = Expr::Function { value: f, token: t.clone(), start: t.clone(), end: t };
    let a = analyze(module(vec![decl("g", 1, literal)]));
    assert!(kinds(&a).is_empty());
}

#[test]
fn a_parameter_is_known_as_one_and_used_at_its_own_token() {
    let f = FuncLiteral {
        name: sym("f", 1, 1),
        formals: vec![Formal { name: sym("a", 1, 3), default: num("1", 1, 6) }],
        body: vec![decl("inner", 2, lval("a", 2, 9))],
    };
    let t = f.name.token.clone();
    let init = Expr::Function { value: f, token: t.clone(), start: t.clone(), end: t };
    let a = analyze(module(vec![Statement::VariableDecl(VarDecl { name: sym("f", 1, 1), init })]));
    let info = a.defn_infos.iter().find(|(addr, _)| addr.name == "a").unwrap();
    assert_eq!(info.1.hl_type, HighlightingType::Parameter);
    assert_eq!(info.1.organic_type, OrganicType::Number);
    let uses = a.usages.iter().find(|(addr, _)| addr.name == "a").unwrap();
    assert!(uses.1.iter().any(|t| t.source_loc.line == 1 && t.source_loc.column == 3));
    assert!(uses.1.iter().any(|t| t.source_loc.line == 2 && t.source_loc.column == 9));
}
