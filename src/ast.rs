//! Nodes of the syntax tree built by the parser.

use vstd::prelude::*;
use vstd::string::*;
use crate::helpers::symbol_is;
use crate::source::Span;

verus! {

pub type NodeId = usize;

pub struct AST {
    pub root: Module,
}

impl AST {
    pub fn new(root: Module) -> (r: Self)
        ensures
            r.root == root,
    {
        AST { root }
    }
}

pub struct Module {
    pub id: NodeId,
    pub decl: Vec<TopLevelDecl>,
}

pub struct TopLevelDecl {
    pub id: NodeId,
    pub kind: TopLevelDeclKind,
    pub span: Span,
}

pub enum TopLevelDeclKind {
    FunctionDef(FuncDef),
    FunctionDecl(FuncDecl),
    InfixDef(InfixDef),
}

pub struct FuncDecl {
    pub id: NodeId,
    /// The signature; a definition has none until it is merged with its
    /// declaration.
    pub ty: Option<Type>,
    pub attrs: Vec<FuncAttr>,
    pub ident: Ident,
}

pub struct FuncDef {
    pub id: NodeId,
    pub decl: FuncDecl,
    pub args: Vec<FuncArg>,
    pub body: Expr,
}

pub struct InfixDef {
    pub id: NodeId,
    pub ty: Option<Type>,
    pub precedence: usize,
    pub op: Op,
    pub args: (FuncArg, FuncArg),
    pub body: Expr,
}

pub struct FuncArg {
    pub id: NodeId,
    pub ty: Option<Type>,
    pub ident: Ident,
    pub span: Span,
}

pub struct FuncAttr {
    pub id: NodeId,
    pub ident: Ident,
}

pub struct Expr {
    pub id: NodeId,
    pub kind: ExprKind,
    pub span: Span,
}

pub enum ExprKind {
    FunctionCall(FuncCall),
    Literal(Lit),
    Identifier(Ident),
    InfixFuncCall(InfixFuncCall),
    InfixOpCall(InfixOpCall),
    Parenthesed(Paren),
}

pub struct FuncCall {
    pub id: NodeId,
    pub lhs: Box<Expr>,
    pub args: Vec<Expr>,
}

pub struct Paren {
    pub id: NodeId,
    pub expr: Box<Expr>,
}

pub struct InfixFuncCall {
    pub id: NodeId,
    pub ident: Ident,
    pub lhs: Box<Expr>,
    pub rhs: Box<Expr>,
}

pub struct InfixOpCall {
    pub id: NodeId,
    pub op: Op,
    pub lhs: Box<Expr>,
    pub rhs: Box<Expr>,
}

pub struct Lit {
    pub id: NodeId,
    pub kind: LitKind,
    pub span: Span,
}

#[derive(Clone, Copy, Debug, PartialEq, Eq, Structural)]
pub enum LitKind {
    Int(u64),
}

pub struct Op {
    pub id: NodeId,
    pub symbol: String,
    pub span: Span,
}

pub struct Ident {
    pub id: NodeId,
    pub symbol: String,
    pub span: Span,
}

pub struct Type {
    pub id: NodeId,
    pub kind: TypeKind,
    pub span: Span,
}

pub enum TypeKind {
    Function(FuncType),
    Literal(LitType),
}

pub struct FuncType {
    pub id: NodeId,
    pub ret: Box<Type>,
    pub args: Vec<Type>,
}

#[derive(Clone, Copy, Debug, PartialEq, Eq, Structural)]
pub enum LitType {
    Int,
    Void,
}

pub open spec fn lit_type_of(s: Seq<char>) -> Option<LitType> {
    if s == seq!['i', 'n', 't'] {
        Some(LitType::Int)
    } else if s == seq!['v', 'o', 'i', 'd'] {
        Some(LitType::Void)
    } else {
        None
    }
}

/// The literal type that a name stands for, if any.
pub fn is_lit_type(symbol: &str) -> (r: Option<LitType>)
    ensures
        r == lit_type_of(symbol@),
{
    proof {
        reveal_strlit("int");
        reveal_strlit("void");
        assert("int"@ =~= seq!['i', 'n', 't']);
        assert("void"@ =~= seq!['v', 'o', 'i', 'd']);
    }
    if symbol_is(symbol, "int") {
        Some(LitType::Int)
    } else if symbol_is(symbol, "void") {
        Some(LitType::Void)
    } else {
        None
    }
}

/// A range within a text of length `len`.
pub open spec fn span_in(s: Span, len: int) -> bool {
    s.beg.index <= s.end.index <= len
}

/// Every infix call of `e` spans from the start of its left operand to the
/// end of its right operand, the left operand ends before the right one
/// starts, and every span lies within the text.
pub open spec fn spans_nested(e: Expr, len: int) -> bool
    decreases e,
{
    &&& span_in(e.span, len)
    &&& match e.kind {
        ExprKind::InfixOpCall(c) => {
            &&& e.span.beg == c.lhs.span.beg
            &&& e.span.end == c.rhs.span.end
            &&& c.lhs.span.end.index <= c.rhs.span.beg.index
            &&& spans_nested(*c.lhs, len)
            &&& spans_nested(*c.rhs, len)
        },
        ExprKind::InfixFuncCall(c) => {
            &&& e.span.beg == c.lhs.span.beg
            &&& e.span.end == c.rhs.span.end
            &&& c.lhs.span.end.index <= c.rhs.span.beg.index
            &&& spans_nested(*c.lhs, len)
            &&& spans_nested(*c.rhs, len)
        },
        ExprKind::Parenthesed(p) => spans_nested(*p.expr, len),
        ExprKind::FunctionCall(c) => {
            &&& spans_nested(*c.lhs, len)
            &&& forall|i: int| 0 <= i < c.args@.len() ==> spans_nested(#[trigger] c.args@[i], len)
        },
        _ => true,
    }
}

pub open spec fn is_infix(e: Expr) -> bool {
    e.kind is InfixOpCall || e.kind is InfixFuncCall
}

/// An infix chain as the parser leaves it: no right operand is itself an
/// infix call, so every chain leans to the left.
pub open spec fn left_flat(e: Expr) -> bool
    decreases e,
{
    match e.kind {
        ExprKind::InfixOpCall(c) => !is_infix(*c.rhs) && left_flat(*c.lhs) && left_flat(*c.rhs),
        ExprKind::InfixFuncCall(c) => !is_infix(*c.rhs) && left_flat(*c.lhs) && left_flat(*c.rhs),
        ExprKind::Parenthesed(p) => left_flat(*p.expr),
        ExprKind::FunctionCall(c) => {
            &&& left_flat(*c.lhs)
            &&& forall|i: int| 0 <= i < c.args@.len() ==> left_flat(#[trigger] c.args@[i])
        },
        _ => true,
    }
}

} // verus!

verus! {

/// Every expression of a top-level declaration is well spanned and leans
/// to the left.
pub open spec fn decl_exprs_ok(d: TopLevelDecl, len: int) -> bool {
    match d.kind {
        TopLevelDeclKind::FunctionDef(f) => spans_nested(f.body, len) && left_flat(f.body),
        TopLevelDeclKind::InfixDef(i) => spans_nested(i.body, len) && left_flat(i.body),
        TopLevelDeclKind::FunctionDecl(_) => true,
    }
}

pub open spec fn module_exprs_ok(m: Module, len: int) -> bool {
    forall|i: int| 0 <= i < m.decl@.len() ==> decl_exprs_ok(#[trigger] m.decl@[i], len)
}

} // verus!
