//! Character and symbol classes of the lexer.

use vstd::prelude::*;
use vstd::string::*;
use crate::text::{digit_like, letter, is_alphabetic, is_numeric};
use crate::token::Kind;

verus! {

pub open spec fn ident_start(c: char) -> bool {
    letter(c) || c == '_'
}

pub open spec fn ident_char(c: char) -> bool {
    ident_start(c) || digit_like(c)
}

pub open spec fn op_char(c: char) -> bool {
    c == '+' || c == '-' || c == ':' || c == '~' || c == '!' || c == '@' || c == '$'
        || c == '%' || c == '^' || c == '&' || c == '*' || c == '=' || c == ';' || c == '<'
        || c == '.' || c == '?' || c == '>' || c == '|' || c == '/'
}

pub open spec fn punct_char(c: char) -> bool {
    c == '(' || c == ')' || c == '[' || c == ']' || c == ','
}

/// Kind of a symbol that is punctuation rather than an operator.
pub open spec fn punct_kind(s: Seq<char>) -> Option<Kind> {
    if s == seq![','] {
        Some(Kind::Comma)
    } else if s == seq!['('] {
        Some(Kind::LeftParenthesis)
    } else if s == seq![')'] {
        Some(Kind::RightParenthesis)
    } else if s == seq!['['] {
        Some(Kind::LeftBracket)
    } else if s == seq![']'] {
        Some(Kind::RightBracket)
    } else if s == seq![':'] {
        Some(Kind::Colon)
    } else if s == seq!['@'] {
        Some(Kind::At)
    } else {
        None
    }
}

pub open spec fn keyword_kind(s: Seq<char>) -> Option<Kind> {
    if s == seq!['d', 'e', 'f'] {
        Some(Kind::FuncDef)
    } else if s == seq!['i', 'n', 'f', 'i', 'x'] {
        Some(Kind::InfixDef)
    } else if s == seq!['d', 'e', 'c', 'l'] {
        Some(Kind::FuncDecl)
    } else {
        None
    }
}

pub fn is_beg_of_ident(ch: char) -> (r: bool)
    ensures
        r == ident_start(ch),
{
    is_alphabetic(ch) || ch == '_'
}

pub fn is_part_of_ident(ch: char) -> (r: bool)
    ensures
        r == ident_char(ch),
{
    is_beg_of_ident(ch) || is_numeric(ch)
}

pub fn is_part_of_op(ch: char) -> (r: bool)
    ensures
        r == op_char(ch),
{
    match ch {
        '+' | '-' | ':' | '~' | '!' | '@' | '$' | '%' | '^' | '&' | '*' | '=' | ';' | '<' | '.'
        | '?' | '>' | '|' | '/' => true,
        _ => false,
    }
}

pub fn is_part_of_parenthesis(ch: char) -> (r: bool)
    ensures
        r == punct_char(ch),
{
    match ch {
        '(' | ')' | '[' | ']' | ',' => true,
        _ => false,
    }
}

/// Whether `s` holds exactly the characters of `lit`.
pub fn symbol_is(s: &str, lit: &str) -> (r: bool)
    ensures
        r == (s@ == lit@),
{
    let n = s.unicode_len();
    let m = lit.unicode_len();
    if n != m {
        return false;
    }
    let mut i: usize = 0;
    while i < n
        invariant
            n == s@.len(),
            m == lit@.len(),
            n == m,
            i <= n,
            forall|j: int| 0 <= j < i ==> s@[j] == lit@[j],
        decreases n - i,
    {
        if s.get_char(i) != lit.get_char(i) {
            return false;
        }
        i += 1;
    }
    assert(s@ == lit@);
    true
}

/// Kind of a punctuation symbol; none for an operator.
pub fn is_operator(symbol: &str) -> (r: Option<Kind>)
    ensures
        r == punct_kind(symbol@),
{
    proof {
        reveal_strlit(",");
        assert(","@ =~= seq![',']);
        reveal_strlit("(");
        assert("("@ =~= seq!['(']);
        reveal_strlit(")");
        assert(")"@ =~= seq![')']);
        reveal_strlit("[");
        assert("["@ =~= seq!['[']);
        reveal_strlit("]");
        assert("]"@ =~= seq![']']);
        reveal_strlit(":");
        assert(":"@ =~= seq![':']);
        reveal_strlit("@");
        assert("@"@ =~= seq!['@']);
    }
    if symbol_is(symbol, ",") {
        Some(Kind::Comma)
    } else if symbol_is(symbol, "(") {
        Some(Kind::LeftParenthesis)
    } else if symbol_is(symbol, ")") {
        Some(Kind::RightParenthesis)
    } else if symbol_is(symbol, "[") {
        Some(Kind::LeftBracket)
    } else if symbol_is(symbol, "]") {
        Some(Kind::RightBracket)
    } else if symbol_is(symbol, ":") {
        Some(Kind::Colon)
    } else if symbol_is(symbol, "@") {
        Some(Kind::At)
    } else {
        None
    }
}

/// Kind of a reserved word; none for an ordinary identifier.
pub fn is_keyword(symbol: &str) -> (r: Option<Kind>)
    ensures
        r == keyword_kind(symbol@),
{
    proof {
        reveal_strlit("def");
        assert("def"@ =~= seq!['d', 'e', 'f']);
        reveal_strlit("infix");
        assert("infix"@ =~= seq!['i', 'n', 'f', 'i', 'x']);
        reveal_strlit("decl");
        assert("decl"@ =~= seq!['d', 'e', 'c', 'l']);
    }
    if symbol_is(symbol, "def") {
        Some(Kind::FuncDef)
    } else if symbol_is(symbol, "infix") {
        Some(Kind::InfixDef)
    } else if symbol_is(symbol, "decl") {
        Some(Kind::FuncDecl)
    } else {
        None
    }
}

} // verus!
