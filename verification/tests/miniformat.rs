use organic_lsp::common::doc_loc::DocLoc;
use organic_lsp::lexer::source_loc::SourceLoc;
use organic_lsp::lexer::token::{Token, TokenType};
use organic_lsp::lsp::formatting::format_selection;
use organic_lsp::lsp::miniformat::{lay_out_args, lay_out_exprs, miniformat, render_string};
use organic_lsp::parser::ast::{Arg, Expr, Formal, FuncCall, FuncLiteral, Include, Module, Operator, Statement, Symbol, VarDecl};

fn tok() -> Token {
    Token {
        token_type: TokenType::Comma,
        source_loc: SourceLoc { doc_loc: DocLoc::new("doc"), pos: 0, line: 1, column: 1, length: 1 },
    }
}

fn sym(name: &str) -> Symbol {
    Symbol { name: name.to_string(), token: tok() }
}

fn num(v: &str) -> Expr {
    Expr::Number { value: v.to_string(), token: tok(), start: tok(), end: tok() }
}

fn lval(n: &str) -> Expr {
    Expr::LValue { name: sym(n), token: tok(), start: tok(), end: tok() }
}

fn call(name: &str, args: Vec<(&str, Expr)>) -> FuncCall {
    FuncCall { func: sym(name), args: args.into_iter().map(|(n, value)| Arg { name: sym(n), value }).collect() }
}

fn call_stmt(name: &str, args: Vec<(&str, Expr)>) -> Statement {
    Statement::FunctionCall(Box::new(call(name, args)))
}

fn decl(name: &str, init: Expr) -> Statement {
    Statement::VariableDecl(VarDecl { name: sym(name), init })
}

fn module(statements: Vec<Statement>) -> Module {
    Module { includes: Vec::new(), statements }
}

#[test]
fn a_call_that_fits_stays_on_one_line() {
    let m = module(vec![call_stmt("sine", vec![("frequency", num("440"))])]);
    assert_eq!(miniformat(&m, 110), "sine(frequency: 440)");
}

#[test]
fn a_call_that_does_not_fit_takes_one_line_per_argument() {
    let m = module(vec![call_stmt("sine", vec![("frequency", num("440")), ("volume", num("0.5"))])]);
    assert_eq!(miniformat(&m, 20), "sine(\n    frequency: 440,\n    volume: 0.5\n)");
    assert_eq!(miniformat(&m, 33), "sine(frequency: 440, volume: 0.5)");
    assert_eq!(miniformat(&m, 32), "sine(\n    frequency: 440,\n    volume: 0.5\n)");
}

#[test]
fn statements_are_separated_by_a_blank_line_next_to_a_multiline_one() {
    let m = module(vec![
        decl("x", num("1")),
        decl("y", num("2")),
        call_stmt("sine", vec![("frequency", num("440"))]),
        decl("z", num("3")),
    ]);
    assert_eq!(miniformat(&m, 110), "x = 1\ny = 2\nsine(frequency: 440)\nz = 3");
    assert_eq!(miniformat(&m, 10), "x = 1\ny = 2\n\nsine(\n    frequency: 440\n)\n\nz = 3");
}

#[test]
fn expressions_render_as_written() {
    let op = Expr::Op { left: Box::new(lval("a")), operator: Operator::LessOrEquals, right: Box::new(num("2")), token: tok(), start: tok(), end: tok() };
    let grouped = Expr::Grouping { value: Box::new(op), token: tok(), start: tok(), end: tok() };
    let neg = Expr::Negated { value: Box::new(grouped), token: tok(), start: tok(), end: tok() };
    let list = Expr::List { values: vec![num("1"), num("2"), neg], token: tok(), start: tok(), end: tok() };
    let m = module(vec![decl("v", list)]);
    assert_eq!(miniformat(&m, 110), "v = [1, 2, -(a <= 2)]");
}

#[test]
fn strings_are_escaped_and_includes_come_first() {
    let s = Expr::String { value: "a\"b\\c".to_string(), token: tok(), start: tok(), end: tok() };
    let m = Module { includes: vec![Include { path: "lib.organic".to_string() }], statements: vec![decl("s", s)] };
    assert_eq!(miniformat(&m, 110), "include(\"lib.organic\")\n\ns = \"a\\\"b\\\\c\"");
    assert_eq!(render_string("plain"), "\"plain\"");
}

#[test]
fn a_function_definition_indents_its_body() {
    let f = FuncLiteral {
        name: sym("f"),
        formals: vec![Formal { name: sym("x"), default: num("1") }],
        body: vec![decl("y", lval("x")), call_stmt("g", vec![("v", lval("y"))])],
    };
    let def = Expr::Function { value: f, token: tok(), start: tok(), end: tok() };
    let m = module(vec![decl("f", def)]);
    assert_eq!(miniformat(&m, 110), "f(x: 1) = {\n    y = x\n    g(v: y)\n}");
}

#[test]
fn an_empty_module_formats_to_nothing() {
    assert_eq!(miniformat(&module(Vec::new()), 110), "");
}

#[test]
fn a_formatted_selection_is_indented_to_where_it_starts() {
    let m = module(vec![call_stmt("sine", vec![("frequency", num("440")), ("volume", num("0.5"))])]);
    assert_eq!(format_selection(&m, 4), "sine(frequency: 440, volume: 0.5)");
    let pad = " ".repeat(80);
    assert_eq!(
        format_selection(&m, 80),
        format!("sine(\n{pad}    frequency: 440,\n{pad}    volume: 0.5\n{pad})")
    );
}

#[test]
fn items_go_on_one_line_where_it_fits_and_one_per_line_otherwise() {
    let xs = vec![num("1"), num("22"), lval("x")];
    assert_eq!(lay_out_exprs("[", ",", "]", &xs, 11), "[1, 22, x]");
    assert_eq!(lay_out_exprs("[", ",", "]", &xs, 10), "[1, 22, x]");
    assert_eq!(lay_out_exprs("[", ",", "]", &xs, 9), "[\n    1,\n    22,\n    x\n]");
    let args = vec![Arg { name: sym("a"), value: num("1") }, Arg { name: sym("b"), value: num("2") }];
    assert_eq!(lay_out_args("f(", ",", ")", &args, 20), "f(a: 1, b: 2)");
    assert_eq!(lay_out_args("f(", ",", ")", &args, 12), "f(\n    a: 1,\n    b: 2\n)");
}
