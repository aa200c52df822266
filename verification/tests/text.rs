use std::sync::Arc;

use organic_lsp::analyzer::function::{Function, ParamInfo};
use organic_lsp::analyzer::organic_type::OrganicType;
use organic_lsp::lsp::debug_text::{decimal_text, show_number, show_token_type, show_type};
use organic_lsp::lexer::token::TokenType;
use organic_lsp::lsp::kebab_cased::kebab_cased;
use organic_lsp::lsp::lines::{indent_text, is_multiline, line_count, width_of};
use organic_lsp::lsp::formatting::{formatting_edit, reindent};
use organic_lsp::lsp::pretty_type::pretty_type;

#[test]
fn kebab_cases_snake_and_camel_names() {
    assert_eq!(kebab_cased("note_attack"), "note-attack");
    assert_eq!(kebab_cased("noteAttack"), "note-attack");
    assert_eq!(kebab_cased("NoteAttack"), "note-attack");
    assert_eq!(kebab_cased("already-kebab"), "already-kebab");
    assert_eq!(kebab_cased(""), "");
}

#[test]
fn kebab_case_is_idempotent_on_examples() {
    for name in ["a_B_c", "XMLHttp", "plain", "x_y_z"] {
        let once = kebab_cased(name);
        assert_eq!(kebab_cased(&once), once);
        assert!(!once.contains('_'));
        assert!(!once.chars().any(|c| c.is_uppercase()));
    }
}

#[test]
fn pretty_types() {
    assert_eq!(pretty_type(&OrganicType::Number), "number");
    assert_eq!(pretty_type(&OrganicType::Boolean), "true/false");
    assert_eq!(pretty_type(&OrganicType::AudioEffect), "effect");
    assert_eq!(pretty_type(&OrganicType::Unknown), "???");
    assert_eq!(pretty_type(&OrganicType::List(Box::new(OrganicType::String))), "[text]");
    assert_eq!(pretty_type(&OrganicType::Generic("Input".to_string())), "<Input>");
    let f = Function {
        params: vec![
            ParamInfo("value".to_string(), OrganicType::Number, false),
            ParamInfo("mix".to_string(), OrganicType::Number, true),
        ],
        return_type: OrganicType::AudioEffect,
    };
    assert_eq!(pretty_type(&OrganicType::Function(Arc::new(f))), "((value: number, {mix: number}) => effect)");
}

#[test]
fn debug_texts_of_types_and_numbers() {
    let f = Function { params: vec![ParamInfo("x".to_string(), OrganicType::Number, false)], return_type: OrganicType::Number };
    assert_eq!(
        show_type(&OrganicType::Function(Arc::new(f))),
        "Function(Function { params: [ParamInfo(\"x\", Number, false)], return_type: Number })"
    );
    assert_eq!(show_type(&OrganicType::Generic("Input".to_string())), "Generic(\"Input\")");
    assert_eq!(decimal_text(0), "0");
    assert_eq!(decimal_text(4294967295), "4294967295");
}

#[test]
fn lines_and_indentation_follow_str_lines() {
    assert_eq!(line_count(""), 0);
    assert_eq!(line_count("a\n"), 1);
    assert_eq!(line_count("a\r\nb"), 2);
    assert!(!is_multiline("a\n"));
    assert!(is_multiline("a\nb"));
    assert_eq!(indent_text("a\r\nb\n"), "    a\n    b");
    assert_eq!(indent_text(""), "");
    assert_eq!(width_of("héllo"), 6);
}

#[test]
fn reindent_indents_every_line_but_the_first() {
    assert_eq!(reindent("f(\nx: 1\n\n)", "  "), "f(\n  x: 1\n\n  )");
    assert_eq!(reindent("one line", "    "), "one line");
    assert_eq!(reindent("a\n \t\nb", ">"), "a\n\n>b");
}

#[test]
fn formatting_a_whole_document_changes_nothing() {
    assert!(formatting_edit("x = 1\n").is_none());
}

#[test]
fn number_literals_are_written_as_their_float_values() {
    assert_eq!(show_number("1"), "1.0");
    assert_eq!(show_number("1.50"), "1.5");
    assert_eq!(show_number("007"), "7.0");
    assert_eq!(show_number("0"), "0.0");
    assert_eq!(show_number("0.0001"), "0.0001");
    assert_eq!(show_number("12.345"), "12.345");
    assert_eq!(show_token_type(&TokenType::Number("440".to_string())), "Number(NotNan(440.0))");
}

#[test]
fn number_literals_far_from_one_are_written_with_an_exponent() {
    assert_eq!(show_number("10000000000000000"), "1e16");
    assert_eq!(show_number("15000000000000000000"), "1.5e19");
    assert_eq!(show_number("1000000000000000"), "1000000000000000.0");
    assert_eq!(show_number("0.00001"), "1e-5");
    assert_eq!(show_number("0.000012"), "1.2e-5");
    assert_eq!(show_number("0.00012"), "0.00012");
    assert_eq!(show_number("000.000"), "0.0");
    let huge = format!("1{}", "0".repeat(400));
    assert_eq!(show_number(&huge), "inf");
    let tiny = format!("0.{}1", "0".repeat(400));
    assert_eq!(show_number(&tiny), "0.0");
}
