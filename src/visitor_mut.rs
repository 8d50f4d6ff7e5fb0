//! In-place rewriting traversal of the syntax tree.
//!
//! A pass implements the hooks of `MutPass` that it cares about. Each
//! `noop_*` function walks the children of its node, in order, and then
//! calls the node's hook, which may rewrite the node.

use vstd::prelude::*;
use crate::ast::{
    Expr, ExprKind, FuncArg, FuncAttr, FuncCall, FuncDecl, FuncDef, FuncType, Ident, InfixDef,
    InfixFuncCall, InfixOpCall, Lit, LitKind, LitType, Module, Op, Paren, TopLevelDecl,
    TopLevelDeclKind, Type, TypeKind, AST,
};

verus! {

/// Hooks of a rewriting pass, each called once the children of its node
/// have been walked.
pub trait MutPass: Sized {
    fn visit_module(&mut self, node: &mut Module) {
    }

    fn visit_top_level_decl(&mut self, node: &mut TopLevelDecl) {
    }

    fn visit_func_decl(&mut self, node: &mut FuncDecl) {
    }

    fn visit_func_def(&mut self, node: &mut FuncDef) {
    }

    fn visit_infix_def(&mut self, node: &mut InfixDef) {
    }

    fn visit_func_arg(&mut self, node: &mut FuncArg) {
    }

    fn visit_func_attr(&mut self, node: &mut FuncAttr) {
    }

    fn visit_expr(&mut self, node: &mut Expr) {
    }

    fn visit_infix_func_call(&mut self, node: &mut InfixFuncCall) {
    }

    fn visit_infix_op_call(&mut self, node: &mut InfixOpCall) {
    }

    fn visit_func_call(&mut self, node: &mut FuncCall) {
    }

    fn visit_parenthesed(&mut self, node: &mut Paren) {
    }

    fn visit_lit(&mut self, node: &mut Lit) {
    }

    fn visit_int_lit(&mut self, node: &mut u64) {
    }

    fn visit_ident(&mut self, node: &mut Ident) {
    }

    fn visit_op(&mut self, node: &mut Op) {
    }

    fn visit_type(&mut self, node: &mut Type) {
    }

    fn visit_func_type(&mut self, node: &mut FuncType) {
    }

    fn visit_lit_type(&mut self, node: &mut LitType) {
    }
}

pub fn visit_ast_mut<P: MutPass>(p: &mut P, ast: &mut AST) {
    noop_module(p, &mut ast.root);
}

pub fn noop_module<P: MutPass>(v: &mut P, node: &mut Module) {
    let n = node.decl.len();
    let mut i: usize = 0;
    while i < n
        invariant
            i <= n,
            node.decl@.len() == n,
        decreases n - i,
    {
        noop_top_level_decl(v, &mut node.decl[i]);
        i += 1;
    }
    v.visit_module(node);
}

pub fn noop_top_level_decl<P: MutPass>(v: &mut P, node: &mut TopLevelDecl) {
    match &mut node.kind {
        TopLevelDeclKind::FunctionDef(func_def) => noop_func_def(v, func_def),
        TopLevelDeclKind::InfixDef(infix_def) => noop_infix_def(v, infix_def),
        TopLevelDeclKind::FunctionDecl(func_decl) => noop_func_decl(v, func_decl),
    }
    v.visit_top_level_decl(node);
}

pub fn noop_func_decl<P: MutPass>(v: &mut P, node: &mut FuncDecl) {
    v.visit_ident(&mut node.ident);
    if let Some(ty) = &mut node.ty {
        noop_type(v, ty);
    }
    walk_func_attrs(v, &mut node.attrs);
    v.visit_func_decl(node);
}

pub fn noop_func_def<P: MutPass>(v: &mut P, node: &mut FuncDef) {
    noop_func_decl(v, &mut node.decl);
    let n = node.args.len();
    let mut i: usize = 0;
    while i < n
        invariant
            i <= n,
            node.args@.len() == n,
        decreases n - i,
    {
        v.visit_func_arg(&mut node.args[i]);
        i += 1;
    }
    noop_expr(v, &mut node.body);
    v.visit_func_def(node);
}

pub fn walk_func_attrs<P: MutPass>(v: &mut P, node: &mut Vec<FuncAttr>) {
    let n = node.len();
    let mut i: usize = 0;
    while i < n
        invariant
            i <= n,
            node@.len() == n,
        decreases n - i,
    {
        v.visit_func_attr(&mut node[i]);
        i += 1;
    }
}

pub fn noop_infix_def<P: MutPass>(v: &mut P, node: &mut InfixDef) {
    v.visit_op(&mut node.op);
    v.visit_func_arg(&mut node.args.0);
    v.visit_func_arg(&mut node.args.1);
    noop_expr(v, &mut node.body);
    v.visit_infix_def(node);
}

pub fn noop_expr<P: MutPass>(v: &mut P, node: &mut Expr)
    decreases *old(node),
{
    match &mut node.kind {
        ExprKind::FunctionCall(call) => noop_func_call(v, call),
        ExprKind::Literal(lit) => noop_lit(v, lit),
        ExprKind::Identifier(ident) => v.visit_ident(ident),
        ExprKind::InfixOpCall(call) => noop_infix_op_call(v, call),
        ExprKind::InfixFuncCall(call) => noop_infix_func_call(v, call),
        ExprKind::Parenthesed(paren) => noop_paren(v, paren),
    }
    v.visit_expr(node);
}

pub fn noop_func_call<P: MutPass>(v: &mut P, node: &mut FuncCall)
    decreases *old(node),
{
    noop_expr(v, &mut node.lhs);
    let n = node.args.len();
    let mut i: usize = 0;
    while i < n
        invariant
            i <= n,
            node.args@.len() == n,
            n == old(node).args@.len(),
            forall|j: int| i <= j < n ==> #[trigger] node.args@[j] == old(node).args@[j],
        decreases n - i,
    {
        proof {
            assert(decreases_to!(*old(node) => old(node).args));
            assert(decreases_to!(old(node).args => old(node).args@));
            assert(decreases_to!(old(node).args@ => old(node).args@[i as int]));
        }
        noop_expr(v, &mut node.args[i]);
        i += 1;
    }
    v.visit_func_call(node);
}

pub fn noop_infix_func_call<P: MutPass>(v: &mut P, node: &mut InfixFuncCall)
    decreases *old(node),
{
    v.visit_ident(&mut node.ident);
    noop_expr(v, &mut node.lhs);
    noop_expr(v, &mut node.rhs);
    v.visit_infix_func_call(node);
}

pub fn noop_infix_op_call<P: MutPass>(v: &mut P, node: &mut InfixOpCall)
    decreases *old(node),
{
    v.visit_op(&mut node.op);
    noop_expr(v, &mut node.lhs);
    noop_expr(v, &mut node.rhs);
    v.visit_infix_op_call(node);
}

pub fn noop_paren<P: MutPass>(v: &mut P, node: &mut Paren)
    decreases *old(node),
{
    noop_expr(v, &mut node.expr);
    v.visit_parenthesed(node);
}

pub fn noop_lit<P: MutPass>(v: &mut P, node: &mut Lit) {
    match &mut node.kind {
        LitKind::Int(val) => v.visit_int_lit(val),
    }
    v.visit_lit(node);
}

pub fn noop_type<P: MutPass>(v: &mut P, node: &mut Type)
    decreases *old(node),
{
    match &mut node.kind {
        TypeKind::Function(func_t) => noop_func_type(v, func_t),
        TypeKind::Literal(lit_t) => v.visit_lit_type(lit_t),
    }
    v.visit_type(node);
}

pub fn noop_func_type<P: MutPass>(v: &mut P, node: &mut FuncType)
    decreases *old(node),
{
    let n = node.args.len();
    let mut i: usize = 0;
    while i < n
        invariant
            i <= n,
            node.args@.len() == n,
            n == old(node).args@.len(),
            node.ret == old(node).ret,
            forall|j: int| i <= j < n ==> #[trigger] node.args@[j] == old(node).args@[j],
        decreases n - i,
    {
        proof {
            assert(decreases_to!(*old(node) => old(node).args));
            assert(decreases_to!(old(node).args => old(node).args@));
            assert(decreases_to!(old(node).args@ => old(node).args@[i as int]));
        }
        noop_type(v, &mut node.args[i]);
        i += 1;
    }
    noop_type(v, &mut node.ret);
    v.visit_func_type(node);
}

} // verus!
