//! Read-only traversal of the syntax tree.
//!
//! A pass implements the hooks of `Pass` that it cares about. Each `walk_*`
//! function calls the hook of its node and, when the hook says so (the
//! default), walks the node's children in order.

use vstd::prelude::*;
use crate::ast::{
    Expr, ExprKind, FuncArg, FuncAttr, FuncCall, FuncDecl, FuncDef, FuncType, Ident, InfixDef,
    InfixFuncCall, InfixOpCall, Lit, LitKind, LitType, Module, Op, Paren, TopLevelDecl,
    TopLevelDeclKind, Type, TypeKind, AST,
};

verus! {

/// Hooks of a read-only pass. Those of nodes with children return whether
/// the walk goes on into them.
pub trait Pass: Sized {
    fn visit_module(&mut self, node: &Module) -> (descend: bool) {
        true
    }

    fn visit_top_level_decl(&mut self, node: &TopLevelDecl) -> (descend: bool) {
        true
    }

    fn visit_func_decl(&mut self, node: &FuncDecl) -> (descend: bool) {
        true
    }

    fn visit_func_def(&mut self, node: &FuncDef) -> (descend: bool) {
        true
    }

    fn visit_infix_def(&mut self, node: &InfixDef) -> (descend: bool) {
        true
    }

    fn visit_func_arg(&mut self, node: &FuncArg) {
    }

    fn visit_func_attr(&mut self, node: &FuncAttr) {
    }

    fn visit_expr(&mut self, node: &Expr) -> (descend: bool) {
        true
    }

    fn visit_infix_func_call(&mut self, node: &InfixFuncCall) -> (descend: bool) {
        true
    }

    fn visit_infix_op_call(&mut self, node: &InfixOpCall) -> (descend: bool) {
        true
    }

    fn visit_func_call(&mut self, node: &FuncCall) -> (descend: bool) {
        true
    }

    fn visit_parenthesed(&mut self, node: &Paren) -> (descend: bool) {
        true
    }

    fn visit_lit(&mut self, node: &Lit) -> (descend: bool) {
        true
    }

    fn visit_int_lit(&mut self, val: u64) {
    }

    fn visit_ident(&mut self, node: &Ident) {
    }

    fn visit_op(&mut self, node: &Op) {
    }

    fn visit_type(&mut self, node: &Type) -> (descend: bool) {
        true
    }

    fn visit_func_type(&mut self, node: &FuncType) -> (descend: bool) {
        true
    }

    fn visit_lit_type(&mut self, node: &LitType) {
    }
}

pub fn visit_ast<P: Pass>(p: &mut P, ast: &AST) {
    walk_module(p, &ast.root);
}

pub fn walk_module<P: Pass>(v: &mut P, node: &Module) {
    if !v.visit_module(node) {
        return;
    }
    let mut i: usize = 0;
    while i < node.decl.len()
        invariant
            i <= node.decl@.len(),
        decreases node.decl@.len() - i,
    {
        walk_top_level_decl(v, &node.decl[i]);
        i += 1;
    }
}

pub fn walk_top_level_decl<P: Pass>(v: &mut P, node: &TopLevelDecl) {
    if !v.visit_top_level_decl(node) {
        return;
    }
    match &node.kind {
        TopLevelDeclKind::FunctionDef(func_def) => walk_func_def(v, func_def),
        TopLevelDeclKind::InfixDef(infix_def) => walk_infix_def(v, infix_def),
        TopLevelDeclKind::FunctionDecl(func_decl) => walk_func_decl(v, func_decl),
    }
}

pub fn walk_func_decl<P: Pass>(v: &mut P, node: &FuncDecl) {
    if !v.visit_func_decl(node) {
        return;
    }
    v.visit_ident(&node.ident);
    if let Some(ty) = &node.ty {
        walk_type(v, ty);
    }
    walk_func_attrs(v, &node.attrs);
}

pub fn walk_func_def<P: Pass>(v: &mut P, node: &FuncDef) {
    if !v.visit_func_def(node) {
        return;
    }
    walk_func_decl(v, &node.decl);
    let mut i: usize = 0;
    while i < node.args.len()
        invariant
            i <= node.args@.len(),
        decreases node.args@.len() - i,
    {
        v.visit_func_arg(&node.args[i]);
        i += 1;
    }
    walk_expr(v, &node.body);
}

pub fn walk_func_attrs<P: Pass>(v: &mut P, node: &Vec<FuncAttr>) {
    let mut i: usize = 0;
    while i < node.len()
        invariant
            i <= node@.len(),
        decreases node@.len() - i,
    {
        v.visit_func_attr(&node[i]);
        i += 1;
    }
}

pub fn walk_infix_def<P: Pass>(v: &mut P, node: &InfixDef) {
    if !v.visit_infix_def(node) {
        return;
    }
    v.visit_op(&node.op);
    v.visit_func_arg(&node.args.0);
    v.visit_func_arg(&node.args.1);
    walk_expr(v, &node.body);
}

pub fn walk_expr<P: Pass>(v: &mut P, node: &Expr)
    decreases node,
{
    if !v.visit_expr(node) {
        return;
    }
    match &node.kind {
        ExprKind::FunctionCall(call) => walk_func_call(v, call),
        ExprKind::Literal(lit) => walk_lit(v, lit),
        ExprKind::Identifier(ident) => v.visit_ident(ident),
        ExprKind::InfixOpCall(call) => walk_infix_op_call(v, call),
        ExprKind::InfixFuncCall(call) => walk_infix_func_call(v, call),
        ExprKind::Parenthesed(paren) => walk_paren_expr(v, paren),
    }
}

pub fn walk_paren_expr<P: Pass>(v: &mut P, node: &Paren)
    decreases node,
{
    if v.visit_parenthesed(node) {
        walk_expr(v, &node.expr);
    }
}

pub fn walk_infix_func_call<P: Pass>(v: &mut P, node: &InfixFuncCall)
    decreases node,
{
    if !v.visit_infix_func_call(node) {
        return;
    }
    v.visit_ident(&node.ident);
    walk_expr(v, &node.lhs);
    walk_expr(v, &node.rhs);
}

pub fn walk_infix_op_call<P: Pass>(v: &mut P, node: &InfixOpCall)
    decreases node,
{
    if !v.visit_infix_op_call(node) {
        return;
    }
    v.visit_op(&node.op);
    walk_expr(v, &node.lhs);
    walk_expr(v, &node.rhs);
}

pub fn walk_func_call<P: Pass>(v: &mut P, node: &FuncCall)
    decreases node,
{
    if !v.visit_func_call(node) {
        return;
    }
    walk_expr(v, &node.lhs);
    let mut i: usize = 0;
    while i < node.args.len()
        invariant
            i <= node.args@.len(),
        decreases node.args@.len() - i,
    {
        proof {
            assert(decreases_to!(node.args => node.args@));
            assert(decreases_to!(node.args@ => node.args@[i as int]));
        }
        walk_expr(v, &node.args[i]);
        i += 1;
    }
}

pub fn walk_lit<P: Pass>(v: &mut P, node: &Lit) {
    if !v.visit_lit(node) {
        return;
    }
    match node.kind {
        LitKind::Int(val) => v.visit_int_lit(val),
    }
}

pub fn walk_type<P: Pass>(v: &mut P, node: &Type)
    decreases node,
{
    if !v.visit_type(node) {
        return;
    }
    match &node.kind {
        TypeKind::Function(func_t) => walk_func_type(v, func_t),
        TypeKind::Literal(lit_t) => v.visit_lit_type(lit_t),
    }
}

pub fn walk_func_type<P: Pass>(v: &mut P, node: &FuncType)
    decreases node,
{
    if !v.visit_func_type(node) {
        return;
    }
    let mut i: usize = 0;
    while i < node.args.len()
        invariant
            i <= node.args@.len(),
        decreases node.args@.len() - i,
    {
        proof {
            assert(decreases_to!(node.args => node.args@));
            assert(decreases_to!(node.args@ => node.args@[i as int]));
        }
        walk_type(v, &node.args[i]);
        i += 1;
    }
    walk_type(v, &node.ret);
}

} // verus!
