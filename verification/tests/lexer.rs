use organic_lsp::common::doc_loc::DocLoc;
use organic_lsp::lexer::diagnostics::LexerError;
use organic_lsp::lexer::lex;
use organic_lsp::lexer::token::TokenType;

fn kinds(text: &str) -> Vec<TokenType> {
    let (tokens, _) = lex(&DocLoc::new("file://x.organic"), text);
    tokens.into_iter().map(|t| t.token_type).collect()
}

#[test]
fn lexes_declaration_with_positions() {
    let (tokens, errors) = lex(&DocLoc::new("doc"), "ab = 1.5\ncd(x: \"hi\")");
    assert!(errors.is_empty());
    assert_eq!(tokens.len(), 9);
    assert_eq!(tokens[0].token_type, TokenType::Identifier("ab".to_string()));
    assert_eq!((tokens[0].source_loc.line, tokens[0].source_loc.column, tokens[0].source_loc.length), (1, 1, 2));
    assert_eq!(tokens[1].token_type, TokenType::Equals);
    assert_eq!(tokens[2].token_type, TokenType::Number("1.5".to_string()));
    assert_eq!((tokens[2].source_loc.pos, tokens[2].source_loc.column), (5, 6));
    assert_eq!(tokens[3].token_type, TokenType::Identifier("cd".to_string()));
    assert_eq!((tokens[3].source_loc.line, tokens[3].source_loc.column, tokens[3].source_loc.pos), (2, 1, 9));
    assert_eq!(tokens[6].token_type, TokenType::Colon);
    assert_eq!(tokens[7].token_type, TokenType::String("hi".to_string()));
    assert_eq!(tokens[7].source_loc.length, 4);
    assert_eq!(tokens[8].token_type, TokenType::RightParen);
}

#[test]
fn unknown_character_is_an_error() {
    let (tokens, errors) = lex(&DocLoc::new("doc"), "a 'b");
    assert_eq!(tokens.len(), 2);
    assert_eq!(errors.len(), 1);
    match &errors[0] {
        LexerError::UnknownToken { culprit, source_loc } => {
            assert_eq!(culprit, "'");
            assert_eq!((source_loc.line, source_loc.column, source_loc.length), (1, 3, 1));
        },
        other => panic!("unexpected {other:?}"),
    }
}

#[test]
fn comments_are_kept_and_block_comments_count_their_lines() {
    let (tokens, errors) = lex(&DocLoc::new("doc"), "a /* x\ny */ b // end");
    assert!(errors.is_empty());
    assert_eq!(tokens.len(), 4);
    assert_eq!(tokens[1].token_type, TokenType::BlockComment);
    assert_eq!((tokens[1].source_loc.line, tokens[1].source_loc.column, tokens[1].source_loc.length), (1, 3, 9));
    assert_eq!(tokens[2].token_type, TokenType::Identifier("b".to_string()));
    assert_eq!((tokens[2].source_loc.line, tokens[2].source_loc.column, tokens[2].source_loc.pos), (2, 6, 12));
    assert_eq!(tokens[3].token_type, TokenType::Comment);
    assert_eq!(tokens[3].source_loc.length, 6);
}

#[test]
fn operators_take_the_longest_match_and_names_may_hold_hyphens() {
    assert_eq!(
        kinds("a>=b<=c>d<e"),
        vec![
            TokenType::Identifier("a".to_string()),
            TokenType::GreaterThanEquals,
            TokenType::Identifier("b".to_string()),
            TokenType::LessThanEquals,
            TokenType::Identifier("c".to_string()),
            TokenType::GreaterThan,
            TokenType::Identifier("d".to_string()),
            TokenType::LessThan,
            TokenType::Identifier("e".to_string()),
        ]
    );
    assert_eq!(
        kinds("note-length - 2*3/4+1"),
        vec![
            TokenType::Identifier("note-length".to_string()),
            TokenType::Minus,
            TokenType::Number("2".to_string()),
            TokenType::Multiply,
            TokenType::Number("3".to_string()),
            TokenType::Divide,
            TokenType::Number("4".to_string()),
            TokenType::Plus,
            TokenType::Number("1".to_string()),
        ]
    );
}

#[test]
fn include_is_a_keyword_only_on_its_own() {
    assert_eq!(
        kinds("include includes"),
        vec![TokenType::Include, TokenType::Identifier("includes".to_string())]
    );
}

#[test]
fn tokens_come_in_order_of_position() {
    let (tokens, _) = lex(&DocLoc::new("doc"), "x = [1, 2]\n\ny = { z: x }");
    for pair in tokens.windows(2) {
        let (a, b) = (&pair[0].source_loc, &pair[1].source_loc);
        assert!(a.line < b.line || (a.line == b.line && a.column + a.length <= b.column));
        assert!(a.line >= 1 && a.column >= 1 && a.length >= 1);
    }
    assert_eq!(tokens.last().unwrap().source_loc.line, 3);
}

#[test]
fn crlf_line_ends_lex_without_errors() {
    let (tokens, errors) = lex(&DocLoc::new("doc"), "ab = 1\r\ncd = 2\r\n");
    assert!(errors.is_empty());
    assert_eq!(tokens.len(), 6);
    assert_eq!((tokens[2].source_loc.line, tokens[2].source_loc.column), (1, 6));
    assert_eq!(tokens[3].token_type, TokenType::Identifier("cd".to_string()));
    assert_eq!((tokens[3].source_loc.line, tokens[3].source_loc.column, tokens[3].source_loc.pos), (2, 1, 8));
}
