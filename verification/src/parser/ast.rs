//! The syntax tree.

use vstd::prelude::*;

use crate::lexer::token::{Token, TokenV};

verus! {

/// A name together with the token it was written as.
#[derive(Debug)]
pub struct Symbol {
    pub name: String,
    pub token: Token,
}

/// An expression; `token` is the token that names the construct, `start`
/// and `end` its first and last tokens.  A number carries its text as it is
/// displayed.
#[derive(Debug)]
#[allow(inconsistent_fields)]
pub enum Expr {
    Call { call: FuncCall, token: Token, start: Token, end: Token },
    Function { value: FuncLiteral, token: Token, start: Token, end: Token },
    Grouping { value: Box<Expr>, token: Token, start: Token, end: Token },
    List { values: Vec<Expr>, token: Token, start: Token, end: Token },
    LValue { name: Symbol, token: Token, start: Token, end: Token },
    Negated { value: Box<Expr>, token: Token, start: Token, end: Token },
    Number { value: String, token: Token, start: Token, end: Token },
    Op {
        left: Box<Expr>,
        operator: Operator,
        right: Box<Expr>,
        token: Token,
        start: Token,
        end: Token,
    },
    String { value: String, token: Token, start: Token, end: Token },
}

/// A named argument of a call.
#[derive(Debug)]
pub struct Arg {
    pub name: Symbol,
    pub value: Expr,
}

/// A binary operator.
#[derive(Clone, Copy, Debug, Eq, PartialEq)]
pub enum Operator {
    Plus,
    Minus,
    Times,
    Divide,
    Equals,
    LessThan,
    LessOrEquals,
    GreaterThan,
    GreaterOrEquals,
}

/// A whole document: its includes, then its statements.
#[derive(Debug)]
pub struct Module {
    pub includes: Vec<Include>,
    pub statements: Vec<Statement>,
}

/// An import of another file.
#[derive(Debug)]
pub struct Include {
    pub path: String,
}

/// A top-level or function-body statement.
#[derive(Debug)]
pub enum Statement {
    FunctionCall(Box<FuncCall>),
    VariableDecl(VarDecl),
}

/// A call of a named function.
#[derive(Debug)]
pub struct FuncCall {
    pub func: Symbol,
    pub args: Vec<Arg>,
}

/// A function definition: its name, parameters with defaults, and body.
#[derive(Debug)]
pub struct FuncLiteral {
    pub name: Symbol,
    pub formals: Vec<Formal>,
    pub body: Vec<Statement>,
}

/// A parameter of a function definition and its default value.
#[derive(Debug)]
pub struct Formal {
    pub name: Symbol,
    pub default: Expr,
}

/// A variable declaration.
#[derive(Debug)]
pub struct VarDecl {
    pub name: Symbol,
    pub init: Expr,
}

/// The token that names the construct `e`.
pub open spec fn expr_token(e: &Expr) -> TokenV {
    match e {
        Expr::Call { token, .. } => token@,
        Expr::Function { token, .. } => token@,
        Expr::Grouping { token, .. } => token@,
        Expr::List { token, .. } => token@,
        Expr::LValue { token, .. } => token@,
        Expr::Negated { token, .. } => token@,
        Expr::Number { token, .. } => token@,
        Expr::Op { token, .. } => token@,
        Expr::String { token, .. } => token@,
    }
}

/// The first token of `e`.
pub open spec fn expr_start(e: &Expr) -> TokenV {
    match e {
        Expr::Call { start, .. } => start@,
        Expr::Function { start, .. } => start@,
        Expr::Grouping { start, .. } => start@,
        Expr::List { start, .. } => start@,
        Expr::LValue { start, .. } => start@,
        Expr::Negated { start, .. } => start@,
        Expr::Number { start, .. } => start@,
        Expr::Op { start, .. } => start@,
        Expr::String { start, .. } => start@,
    }
}

/// The last token of `e`.
pub open spec fn expr_end(e: &Expr) -> TokenV {
    match e {
        Expr::Call { end, .. } => end@,
        Expr::Function { end, .. } => end@,
        Expr::Grouping { end, .. } => end@,
        Expr::List { end, .. } => end@,
        Expr::LValue { end, .. } => end@,
        Expr::Negated { end, .. } => end@,
        Expr::Number { end, .. } => end@,
        Expr::Op { end, .. } => end@,
        Expr::String { end, .. } => end@,
    }
}

impl Expr {
    /// The token that names this construct.
    pub fn get_token(&self) -> (r: Token)
        ensures
            r@ == expr_token(self),
    {
        match self {
            Expr::Call { token, .. } => token.clone(),
            Expr::Function { token, .. } => token.clone(),
            Expr::Grouping { token, .. } => token.clone(),
            Expr::List { token, .. } => token.clone(),
            Expr::LValue { token, .. } => token.clone(),
            Expr::Negated { token, .. } => token.clone(),
            Expr::Number { token, .. } => token.clone(),
            Expr::Op { token, .. } => token.clone(),
            Expr::String { token, .. } => token.clone(),
        }
    }

    /// The first token of this expression.
    pub fn get_start(&self) -> (r: Token)
        ensures
            r@ == expr_start(self),
    {
        match self {
            Expr::Call { start, .. } => start.clone(),
            Expr::Function { start, .. } => start.clone(),
            Expr::Grouping { start, .. } => start.clone(),
            Expr::List { start, .. } => start.clone(),
            Expr::LValue { start, .. } => start.clone(),
            Expr::Negated { start, .. } => start.clone(),
            Expr::Number { start, .. } => start.clone(),
            Expr::Op { start, .. } => start.clone(),
            Expr::String { start, .. } => start.clone(),
        }
    }

    /// The last token of this expression.
    pub fn get_end(&self) -> (r: Token)
        ensures
            r@ == expr_end(self),
    {
        match self {
            Expr::Call { end, .. } => end.clone(),
            Expr::Function { end, .. } => end.clone(),
            Expr::Grouping { end, .. } => end.clone(),
            Expr::List { end, .. } => end.clone(),
            Expr::LValue { end, .. } => end.clone(),
            Expr::Negated { end, .. } => end.clone(),
            Expr::Number { end, .. } => end.clone(),
            Expr::Op { end, .. } => end.clone(),
            Expr::String { end, .. } => end.clone(),
        }
    }
}

} // verus!
