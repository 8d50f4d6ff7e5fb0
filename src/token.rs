//! Tokens produced by the lexer.

use vstd::prelude::*;
use crate::source::Span;

verus! {

#[derive(Clone, Copy, Debug, PartialEq, Eq, Structural)]
pub enum Kind {
    // General
    Identifier,
    InfixIdent,
    Operator,
    // Keywords
    FuncDef,
    FuncDecl,
    InfixDef,
    // Punctuation
    LeftParenthesis,
    RightParenthesis,
    LeftBracket,
    RightBracket,
    Comma,
    Colon,
    At,
    // Literals
    IntLiteral,
    /// Lexically invalid text, kept so that lexing can go on.
    Poisoned,
}

#[derive(Clone, Debug)]
pub enum Value {
    Integer(u64),
    String(String),
    /// No value.
    Nothing,
}

impl Value {
    /// A copy that Verus knows to be equal to this value.
    pub fn duplicate(&self) -> (r: Value)
        ensures
            r == *self,
    {
        match self {
            Value::Integer(v) => Value::Integer(*v),
            Value::String(s) => Value::String(s.clone()),
            Value::Nothing => Value::Nothing,
        }
    }
}

#[derive(Clone, Debug)]
pub struct Token {
    pub kind: Kind,
    pub value: Value,
    pub span: Span,
}

impl Token {
    /// A copy that Verus knows to be equal to this value.
    pub fn duplicate(&self) -> (r: Token)
        ensures
            r == *self,
    {
        Token { kind: self.kind, value: self.value.duplicate(), span: self.span }
    }
}

} // verus!
