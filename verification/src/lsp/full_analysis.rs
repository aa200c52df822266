//! Analysing a document's text afresh: its tokens, its analysis, its
//! diagnostics, and the document kept for later requests.

use vstd::prelude::*;

use crate::analyzer::analysis::NonVarToken;
use crate::analyzer::analysis::{Analysis, AnalysisState};
use crate::analyzer::module_analyzer::analysed_in_order;
use crate::analyzer::{analysis_of, analyze};
use crate::analyzer::diagnostics::{AnalyzerDiagnostic, AnalyzerDiagnosticType};
use crate::common::doc_loc::DocLoc;

use crate::lexer::diagnostics::LexerError;
use crate::lexer::laws::{lemma_lex_tokens_placed_in_order, placed};
use crate::lexer::token::{Token, TokenType};
use crate::lexer::{errors_view, lex, lex_spec, lexable, tokens_view};
use crate::lsp::diagnostics::{
    analyzer_diag_fits, analyzer_error_diags, analyzer_other_diags, diagnostics_view, document_diagnostics, error_fits,
    lexer_diags, loc_fits, parser_diags, DiagnosticV, LspError,
};
use crate::lsp::document::{
    blank_lines, build_document, doc_inserts, info_entries, infos_match, line_points, max_line, names_view, nvt_fits, place,
    token_fits, token_inserts, token_line_points, usages_fit, user_var_names, Document, Entity,
};
use crate::lsp::semantic_tokens::lexable_spec;
use crate::parser::ast::Module;
use crate::parser::diagnostics::ParserError;

verus! {

/// Whether a token's range fits in 32 bits, as [`loc_fits`] says.
pub fn loc_fits_exec(line: u32, column: u32, length: u32) -> (r: bool)
    ensures
        r == loc_fits(line, column, length),
{
    line >= 1 && column >= 1 && (column as u64) - 1 + (length as u64) <= u32::MAX as u64
}

/// Whether a token has a place on its line, as [`token_fits`] says.
pub fn token_fits_exec(t: &Token) -> (r: bool)
    ensures
        r == token_fits(*t),
{
    t.source_loc.length >= 1 && loc_fits_exec(t.source_loc.line, t.source_loc.column, t.source_loc.length)
}

/// Whether every analyzer diagnostic can be shown.
pub fn analyzer_diags_fit(ds: &Vec<AnalyzerDiagnostic>) -> (r: bool)
    ensures
        r == forall|i: int| 0 <= i < ds@.len() ==> analyzer_diag_fits(#[trigger] ds@[i]),
{
    let mut i: usize = 0;
    while i < ds.len()
        invariant
            i <= ds@.len(),
            forall|k: int| 0 <= k < i ==> analyzer_diag_fits(#[trigger] ds@[k]),
        decreases ds@.len() - i,
    {
        let d = &ds[i];
        let l = &d.offender.source_loc;
        if !loc_fits_exec(l.line, l.column, l.length) {
            return false;
        }
        if let AnalyzerDiagnosticType::AnalyzerLint(_) = &d.typ {
            if !matches!(d.offender.token_type, TokenType::Identifier(_)) {
                return false;
            }
        }
        i = i + 1;
    }
    true
}

/// Whether every lexer error can be shown.
pub fn lexer_errors_fit(es: &Vec<LexerError>) -> (r: bool)
    ensures
        r == forall|i: int| 0 <= i < es@.len() ==> error_fits(&LspError::LspLexerError(#[trigger] es@[i])),
{
    let mut i: usize = 0;
    while i < es.len()
        invariant
            i <= es@.len(),
            forall|k: int| 0 <= k < i ==> error_fits(&LspError::LspLexerError(#[trigger] es@[k])),
        decreases es@.len() - i,
    {
        let ok = match &es[i] {
            LexerError::FileTooBig { line_num, .. } => *line_num >= 1,
            LexerError::UnknownToken { source_loc, .. } => loc_fits_exec(source_loc.line, source_loc.column, source_loc.length),
        };
        if !ok {
            return false;
        }
        i = i + 1;
    }
    true
}

/// Whether every usage token has a place on its line.
pub fn usages_fit_exec(usages: &Vec<(crate::common::address::NamedVarAddress, Vec<Token>)>) -> (r: bool)
    ensures
        r == usages_fit(usages@),
{
    let mut i: usize = 0;
    while i < usages.len()
        invariant
            i <= usages@.len(),
            forall|a: int, b: int| 0 <= a < i && 0 <= b < usages@[a].1@.len() ==> token_fits(#[trigger] usages@[a].1@[b]),
        decreases usages@.len() - i,
    {
        let ts = &usages[i].1;
        let mut j: usize = 0;
        while j < ts.len()
            invariant
                i < usages@.len(),
                *ts == usages@[i as int].1,
                j <= ts@.len(),
                forall|b: int| 0 <= b < j ==> token_fits(#[trigger] ts@[b]),
            decreases ts@.len() - j,
        {
            if !token_fits_exec(&ts[j]) {
                return false;
            }
            j = j + 1;
        }
        i = i + 1;
    }
    true
}

/// Whether every token that is not a variable can be placed.
pub fn nvts_fit(ns: &Vec<NonVarToken>) -> (r: bool)
    ensures
        r == forall|i: int| 0 <= i < ns@.len() ==> nvt_fits(#[trigger] ns@[i]),
{
    let mut i: usize = 0;
    while i < ns.len()
        invariant
            i <= ns@.len(),
            forall|k: int| 0 <= k < i ==> nvt_fits(#[trigger] ns@[k]),
        decreases ns@.len() - i,
    {
        let n = &ns[i];
        if !token_fits_exec(n.token()) {
            return false;
        }
        let kind_ok = match n {
            NonVarToken::NamedArg(t, _, _) => matches!(t.token_type, TokenType::Identifier(_)),
            NonVarToken::Number(t) => matches!(t.token_type, TokenType::Number(_)),
            NonVarToken::String(_, _) => true,
        };
        if !kind_ok {
            return false;
        }
        i = i + 1;
    }
    true
}

/// Whether the parser's error can be shown.
pub fn parser_error_fits(e: &ParserError) -> (r: bool)
    ensures
        r == error_fits(&LspError::LspParserError(*e)),
{
    match e {
        ParserError::ExtraToken { token } | ParserError::MissingParameterValue { token } | ParserError::WrongToken { token, .. } => {
            loc_fits_exec(token.source_loc.line, token.source_loc.column, token.source_loc.length)
        },
        ParserError::FictionalToken { location } | ParserError::UnexpectedEOF { location, .. } => loc_fits_exec(
            location.line,
            location.column,
            1,
        ),
    }
}

/// Whether `d` is the document made from the text `text` with the syntax
/// tree `ast` and the parser's error `parser_error`, given the analysis `a`
/// of the tree and the tokens `toks` and errors `errs` the lexer found: the
/// text and tree kept; the analyzer's errors, the parser's error, the
/// lexer's errors and the analyzer's other diagnostics, in that order; the
/// entities and tokens placed on their lines; what is known of each used
/// variable; and the names of the user's variables.
pub open spec fn document_for(
    d: Document,
    text: String,
    ast: Module,
    parser_error: Option<ParserError>,
    a: Analysis,
    toks: Seq<Token>,
    errs: Seq<LexerError>,
) -> bool {
    &&& d.contents == text
    &&& d.ast == ast
    &&& diagnostics_view(d.diagnostics@) == analyzer_error_diags(a.diagnostics@) + parser_diags(parser_error)
        + lexer_diags(errs) + analyzer_other_diags(a.diagnostics@)
    &&& line_points(d.entities@) == place(blank_lines::<Entity>(max_line(doc_inserts(&a))), doc_inserts(&a))
    &&& infos_match(d.infos@, info_entries(a.definitions@, a.usages@, a.defn_infos@))
    &&& token_line_points(d.tokens@) == place(blank_lines::<Token>(max_line(token_inserts(toks))), token_inserts(toks))
    &&& names_view(d.last_var_names@) == user_var_names(a.definitions@)
}

/// Whether `d` is the document for `text` at `doc_loc`, given the analysis
/// `a` of `module`, and the tokens `toks` and errors `errs` of the text.
pub open spec fn reanalysed(
    doc_loc: DocLoc,
    text: String,
    module: Module,
    ast: Module,
    parser_error: Option<ParserError>,
    d: Document,
    a: Analysis,
    toks: Seq<Token>,
    errs: Seq<LexerError>,
) -> bool {
    &&& analysis_of(module, a)
    &&& tokens_view(toks) == lex_spec(text@, doc_loc@).0
    &&& errors_view(errs) == lex_spec(text@, doc_loc@).1
    &&& document_for(d, text, ast, parser_error, a, toks, errs)
}

/// A document whose text did not parse is analysed as a module without
/// statements: its diagnostics are then the parser's error followed by the
/// lexer's errors, in the order the lexer found them, and none of the
/// analyzer's.
pub proof fn lemma_unparsable_text_diagnostics(
    doc_loc: DocLoc,
    text: String,
    module: Module,
    ast: Module,
    perr: ParserError,
    d: Document,
    a: Analysis,
    toks: Seq<Token>,
    errs: Seq<LexerError>,
)
    requires
        module.statements@.len() == 0,
        reanalysed(doc_loc, text, module, ast, Some(perr), d, a, toks, errs),
    ensures
        diagnostics_view(d.diagnostics@) == parser_diags(Some(perr)) + lexer_diags(errs),
{
    let trace = choose|trace: Seq<AnalysisState>|
        {
            &&& trace[0].starting()
            &&& analysed_in_order(module.statements@, trace)
            &&& trace.last().analysis == a
        };
    assert(trace.len() == 1);
    assert(a.diagnostics@.len() == 0);
    assert(analyzer_error_diags(a.diagnostics@) =~= Seq::empty());
    assert(analyzer_other_diags(a.diagnostics@) =~= Seq::empty());
    assert(Seq::<DiagnosticV>::empty() + parser_diags(Some(perr)) + lexer_diags(errs) + Seq::<DiagnosticV>::empty()
        =~= parser_diags(Some(perr)) + lexer_diags(errs));
}

/// Whether everything found can be placed on its line: the analyzer's
/// diagnostics, the lexer's errors `errs`, the parser's error, the usages
/// and the tokens that are not variables.
pub open spec fn all_fit(a: Analysis, errs: Seq<LexerError>, parser_error: Option<ParserError>) -> bool {
    &&& forall|i: int| 0 <= i < a.diagnostics@.len() ==> analyzer_diag_fits(#[trigger] a.diagnostics@[i])
    &&& forall|i: int| 0 <= i < errs.len() ==> error_fits(&LspError::LspLexerError(#[trigger] errs[i]))
    &&& usages_fit(a.usages@)
    &&& forall|i: int| 0 <= i < a.non_var_tokens@.len() ==> nvt_fits(#[trigger] a.non_var_tokens@[i])
    &&& parser_error matches Some(e) ==> error_fits(&LspError::LspParserError(e))
}

/// Whether `a` is the analysis of `module` and `errs` the errors of lexing
/// `text`, and something among them has no place on its line.
pub open spec fn unplaceable(
    doc_loc: DocLoc,
    text: String,
    module: Module,
    parser_error: Option<ParserError>,
    a: Analysis,
    errs: Seq<LexerError>,
) -> bool {
    &&& analysis_of(module, a)
    &&& errors_view(errs) == lex_spec(text@, doc_loc@).1
    &&& !all_fit(a, errs, parser_error)
}

/// The document for a text and its syntax tree (`module` to analyse, `ast`
/// the same tree to keep), as [`reanalysed`] says: the text lexed and the
/// tree analysed. `None` where the text cannot be lexed or something found
/// has no place on its line.
pub fn reanalyze(doc_loc: &DocLoc, text: String, module: Module, ast: Module, parser_error: Option<ParserError>) -> (r: Option<Document>)
    ensures
        r is Some ==> lexable_spec(text@),
        r is Some ==> exists|a: Analysis, toks: Seq<Token>, errs: Seq<LexerError>|
            #[trigger] reanalysed(*doc_loc, text, module, ast, parser_error, r->0, a, toks, errs)
                && all_fit(a, errs, parser_error),
        r is None ==> !lexable_spec(text@) || exists|a: Analysis, errs: Seq<LexerError>|
            #[trigger] unplaceable(*doc_loc, text, module, parser_error, a, errs),
{
    if !lexable(text.as_str()) {
        return None;
    }
    let (tokens, lexer_errors) = lex(doc_loc, text.as_str());
    proof {
        lemma_lex_tokens_placed_in_order(text@, doc_loc@);
        assert forall|i: int| 0 <= i < tokens@.len() implies token_fits(#[trigger] tokens@[i]) by {
            assert(tokens_view(tokens@)[i] == tokens@[i]@);
            assert(placed(lex_spec(text@, doc_loc@).0[i]));
        }
    }
    let ghost toks = tokens@;
    let ghost errs = lexer_errors@;
    let mut analysis = analyze(module);
    let ghost a0 = analysis;
    let mut found: Vec<AnalyzerDiagnostic> = Vec::new();
    std::mem::swap(&mut found, &mut analysis.diagnostics);
    let parser_ok = match &parser_error {
        Some(e) => parser_error_fits(e),
        None => true,
    };
    if !analyzer_diags_fit(&found) || !lexer_errors_fit(&lexer_errors) || !usages_fit_exec(&analysis.usages)
        || !nvts_fit(&analysis.non_var_tokens) || !parser_ok {
        proof {
            assert(unplaceable(*doc_loc, text, module, parser_error, a0, errs));
        }
        return None;
    }
    let diagnostics = document_diagnostics(found, parser_error, lexer_errors);
    let d = build_document(text, ast, diagnostics, analysis, &tokens);
    proof {
        assert(doc_inserts(&analysis) == doc_inserts(&a0));
    }
    let r = Some(d);
    proof {
        assert(reanalysed(*doc_loc, text, module, ast, parser_error, r->0, a0, toks, errs));
    }
    r
}

} // verus!
