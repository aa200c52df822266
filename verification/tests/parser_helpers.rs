use organic_lsp::common::doc_loc::DocLoc;
use organic_lsp::lexer::lex;
use organic_lsp::lexer::source_loc::SourceLoc;
use organic_lsp::lexer::token::{Token, TokenType};
use organic_lsp::lsp::common::{source_loc_to_range, source_loc_to_tower_range, token_range_opt};
use organic_lsp::lsp::diagnostics::{LspPosition, LspRange};
use organic_lsp::parser::ast::Expr;
use organic_lsp::parser::diagnostics::ParserError;
use organic_lsp::parser::lalrpop::{as_args, as_formals, as_symbol, sequence, Param};

fn tok(tt: TokenType, line: u32, column: u32, length: u32) -> Token {
    Token { token_type: tt, source_loc: SourceLoc { doc_loc: DocLoc::new("doc"), pos: 7, line, column, length } }
}

fn num(v: &str, column: u32) -> Expr {
    let t = tok(TokenType::Number(v.to_string()), 1, column, v.len() as u32);
    Expr::Number { value: v.to_string(), token: t.clone(), start: t.clone(), end: t }
}

fn param(name: &str, column: u32, value: Option<Expr>) -> Param {
    let t = tok(TokenType::Identifier(name.to_string()), 1, column, name.len() as u32);
    Param { symbol: as_symbol(&t, "parameter"), value_option: value }
}

#[test]
fn symbols_take_the_identifiers_name() {
    let t = tok(TokenType::Identifier("freq".to_string()), 2, 3, 4);
    let s = as_symbol(&t, "name");
    assert_eq!(s.name, "freq");
    assert_eq!(s.token, t);
}

#[test]
fn parameters_with_values_become_arguments_and_formals() {
    let args = as_args(vec![param("a", 1, Some(num("1", 4))), param("b", 7, Some(num("2", 10)))]).unwrap();
    assert_eq!(args.len(), 2);
    assert_eq!(args[1].name.name, "b");
    assert!(matches!(&args[1].value, Expr::Number { value, .. } if value == "2"));
    let formals = as_formals(vec![param("x", 1, Some(num("3", 4)))]).unwrap();
    assert_eq!(formals[0].name.name, "x");
}

#[test]
fn the_first_parameter_without_a_value_is_an_error() {
    let r = as_args(vec![param("a", 1, Some(num("1", 4))), param("b", 7, None), param("c", 9, None)]);
    match r {
        Err(ParserError::MissingParameterValue { token }) => assert_eq!(token.source_loc.column, 7),
        _ => panic!("expected a missing value"),
    }
    assert!(as_formals(vec![param("z", 5, None)]).is_err());
}

#[test]
fn sequence_puts_the_head_first() {
    assert_eq!(sequence(1, vec![2, 3]), vec![1, 2, 3]);
    assert_eq!(sequence("x", Vec::new()), vec!["x"]);
}

#[test]
fn expressions_know_their_tokens() {
    let e = num("42", 9);
    assert_eq!(e.get_token().source_loc.column, 9);
    assert_eq!(e.get_start().source_loc.column, 9);
    assert_eq!(e.get_end().source_loc.column, 9);
}

#[test]
fn locations_become_ranges() {
    let l = SourceLoc { doc_loc: DocLoc::new("doc"), pos: 0, line: 3, column: 5, length: 4 };
    assert_eq!(source_loc_to_range(&l), (4, 8));
    let r = source_loc_to_tower_range(&l);
    assert_eq!(r, LspRange { start: LspPosition { line: 2, character: 4 }, end: LspPosition { line: 2, character: 8 } });
    let (start, end) = l.as_minis();
    assert_eq!((start.line, start.column, end.line, end.column), (3, 5, 3, 9));
    assert!(token_range_opt(&tok(TokenType::Comma, 0, 1, 1)).is_none());
}

#[test]
fn lexed_tokens_are_placed_and_in_order() {
    let (tokens, _) = lex(&DocLoc::new("doc"), "/* a\nb */ x = [1, 2]\n  // note\ny(v: \"s\")");
    assert!(!tokens.is_empty());
    for t in &tokens {
        assert!(t.source_loc.line >= 1 && t.source_loc.column >= 1 && t.source_loc.length >= 1);
        assert!(!matches!(t.token_type, TokenType::Newline | TokenType::Whitespace));
    }
    for w in tokens.windows(2) {
        let (a, b) = (&w[0].source_loc, &w[1].source_loc);
        assert!(b.line > a.line || (b.line == a.line && b.column > a.column));
    }
    assert_eq!(tokens[0].token_type, TokenType::BlockComment);
    assert_eq!((tokens[1].source_loc.line, tokens[1].source_loc.column), (2, 6));
}
