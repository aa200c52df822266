Organic LSP
===========

A language server for the Organic programming language, with its logic
written in Verus and proved against its contracts.

## Layout

- `src/` is the verified library:
  - `lexer`: the hand-written lexer (`lex`), with the exact token stream it
    produces stated as a spec function, and the law that every token is
    placed on its line and the tokens come in order (`lexer/laws.rs`).
  - `parser`: the syntax tree and the helpers a grammar builds it with.
  - `analyzer`: scopes, types and diagnostics. What analysing an expression
    without function literals reports, the type it gives, and the uses and
    tokens it records are stated in `analyzer/typing.rs`; each statement of
    a module is analysed as `module_analyzer::statement_step` says, from a
    global scope that knows the built-in names (`builtins::builtin_types`).
  - `lsp`: what the server answers: diagnostics, hovers, definitions,
    references, renames, completion, semantic tokens, quick fixes, the
    refactorings that inline a variable or extract a selection into one,
    and the layout of selections (`miniformat`).
  - `common` and `text`: addresses, tables kept as vectors of pairs, and
    the few calls into `std` on strings and characters.
- `tests/` runs the library on concrete inputs.
- `app/` is the server itself: it speaks the protocol with
  `tower-lsp-server` over `tokio`, keeps the open documents, and converts
  between the protocol's types and the library's.

No grammar for Organic is part of this project, so the server analyses the
text it is sent as an empty module: the lexer's diagnostics, and the
library's answers on tokens, are what it serves.
