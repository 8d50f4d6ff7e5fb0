//! Diagnostics of the parser.

use vstd::prelude::*;
use crate::source::{Pointer, Span};
use crate::token::Token;

verus! {

pub enum ParserErrorKind {
    UnexpectedToken { expected: Token, actual: Token },
    TokenExpected(Token),
    Msg(Span),
}

pub struct ParserError {
    pub msg: String,
    pub kind: ParserErrorKind,
}

impl ParserError {
    pub open spec fn span(&self) -> Span {
        match self.kind {
            ParserErrorKind::UnexpectedToken { actual, .. } => actual.span,
            ParserErrorKind::TokenExpected(tok) => tok.span,
            ParserErrorKind::Msg(span) => span,
        }
    }

    pub fn desc(&self) -> (r: String)
        ensures
            r@ == self.msg@,
    {
        self.msg.clone()
    }

    pub fn begin(&self) -> (r: Pointer)
        ensures
            r == self.span().beg,
    {
        match &self.kind {
            ParserErrorKind::UnexpectedToken { actual, .. } => actual.span.beg,
            ParserErrorKind::TokenExpected(tok) => tok.span.beg,
            ParserErrorKind::Msg(span) => span.beg,
        }
    }

    pub fn end(&self) -> (r: Pointer)
        ensures
            r == self.span().end,
    {
        match &self.kind {
            ParserErrorKind::UnexpectedToken { actual, .. } => actual.span.end,
            ParserErrorKind::TokenExpected(tok) => tok.span.end,
            ParserErrorKind::Msg(span) => span.end,
        }
    }
}

} // verus!
