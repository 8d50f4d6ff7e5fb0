//! Lookup of a node by its id.

use vstd::prelude::*;
use crate::ast::{Expr, ExprKind, Module, TopLevelDecl, TopLevelDeclKind};
use crate::source::Span;

verus! {

/// Span of the first node with id `id` in `e`, visiting each node before
/// its children, and a call's callee before its arguments.
pub open spec fn expr_find(e: Expr, id: usize) -> Option<Span>
    decreases e,
{
    if e.id == id {
        Some(e.span)
    } else {
        match e.kind {
            ExprKind::Literal(l) => if l.id == id { Some(l.span) } else { None },
            ExprKind::Identifier(i) => if i.id == id { Some(i.span) } else { None },
            ExprKind::InfixOpCall(c) => if c.op.id == id {
                Some(c.op.span)
            } else if expr_find(*c.lhs, id) is Some {
                expr_find(*c.lhs, id)
            } else {
                expr_find(*c.rhs, id)
            },
            ExprKind::InfixFuncCall(c) => if c.ident.id == id {
                Some(c.ident.span)
            } else if expr_find(*c.lhs, id) is Some {
                expr_find(*c.lhs, id)
            } else {
                expr_find(*c.rhs, id)
            },
            ExprKind::Parenthesed(p) => expr_find(*p.expr, id),
            ExprKind::FunctionCall(c) => if expr_find(*c.lhs, id) is Some {
                expr_find(*c.lhs, id)
            } else {
                exprs_find(c.args@, id)
            },
        }
    }
}

pub open spec fn exprs_find(s: Seq<Expr>, id: usize) -> Option<Span>
    decreases s,
{
    if s.len() == 0 {
        None
    } else if expr_find(s[0], id) is Some {
        expr_find(s[0], id)
    } else {
        exprs_find(s.drop_first(), id)
    }
}

/// Span of the first node with id `id` in a top-level declaration: the
/// declaration itself, its name or operator, then its body.
pub open spec fn decl_find(d: TopLevelDecl, id: usize) -> Option<Span> {
    if d.id == id {
        Some(d.span)
    } else {
        match d.kind {
            TopLevelDeclKind::FunctionDecl(x) => if x.ident.id == id { Some(x.ident.span) } else { None },
            TopLevelDeclKind::FunctionDef(x) => if x.decl.ident.id == id {
                Some(x.decl.ident.span)
            } else {
                expr_find(x.body, id)
            },
            TopLevelDeclKind::InfixDef(x) => if x.op.id == id {
                Some(x.op.span)
            } else {
                expr_find(x.body, id)
            },
        }
    }
}

pub open spec fn decls_find(s: Seq<TopLevelDecl>, id: usize) -> Option<Span>
    decreases s.len(),
{
    if s.len() == 0 {
        None
    } else if decl_find(s[0], id) is Some {
        decl_find(s[0], id)
    } else {
        decls_find(s.drop_first(), id)
    }
}

/// Span of the first node with id `id` in module `m`.
pub open spec fn span_of_id(m: Module, id: usize) -> Option<Span> {
    decls_find(m.decl@, id)
}

pub fn find_in_expr(e: &Expr, id: usize) -> (r: Option<Span>)
    ensures
        r == expr_find(*e, id),
    decreases e,
{
    if e.id == id {
        return Some(e.span);
    }
    match &e.kind {
        ExprKind::Literal(l) => if l.id == id { Some(l.span) } else { None },
        ExprKind::Identifier(i) => if i.id == id { Some(i.span) } else { None },
        ExprKind::InfixOpCall(c) => {
            if c.op.id == id {
                return Some(c.op.span);
            }
            let l = find_in_expr(&c.lhs, id);
            if l.is_some() {
                return l;
            }
            find_in_expr(&c.rhs, id)
        },
        ExprKind::InfixFuncCall(c) => {
            if c.ident.id == id {
                return Some(c.ident.span);
            }
            let l = find_in_expr(&c.lhs, id);
            if l.is_some() {
                return l;
            }
            find_in_expr(&c.rhs, id)
        },
        ExprKind::Parenthesed(p) => find_in_expr(&p.expr, id),
        ExprKind::FunctionCall(c) => {
            let l = find_in_expr(&c.lhs, id);
            if l.is_some() {
                return l;
            }
            let n = c.args.len();
            let mut i: usize = 0;
            proof {
                assert(c.args@.subrange(0, n as int) =~= c.args@);
            }
            while i < n
                invariant
                    n == c.args@.len(),
                    i <= n,
                    e.kind == ExprKind::FunctionCall(*c),
                    e.id != id,
                    expr_find(*c.lhs, id) is None,
                    exprs_find(c.args@, id) == exprs_find(c.args@.subrange(i as int, n as int), id),
                decreases n - i,
            {
                proof {
                    let k = e.kind;
                    let fc = k->FunctionCall_0;
                    assert(decreases_to!(*e => k));
                    assert(decreases_to!(k => fc));
                    assert(decreases_to!(fc => fc.args));
                    assert(decreases_to!(fc.args => fc.args@));
                    assert(decreases_to!(fc.args@ => fc.args@[i as int]));
                    let rest = c.args@.subrange(i as int, n as int);
                    assert(rest[0] == c.args@[i as int]);
                    assert(rest.drop_first() =~= c.args@.subrange(i + 1, n as int));
                }
                let a = find_in_expr(&c.args[i], id);
                if a.is_some() {
                    return a;
                }
                i += 1;
            }
            proof {
                assert(c.args@.subrange(n as int, n as int) =~= Seq::<Expr>::empty());
            }
            None
        },
    }
}

pub fn find_in_decl(d: &TopLevelDecl, id: usize) -> (r: Option<Span>)
    ensures
        r == decl_find(*d, id),
{
    if d.id == id {
        return Some(d.span);
    }
    match &d.kind {
        TopLevelDeclKind::FunctionDecl(x) => if x.ident.id == id { Some(x.ident.span) } else { None },
        TopLevelDeclKind::FunctionDef(x) => if x.decl.ident.id == id {
            Some(x.decl.ident.span)
        } else {
            find_in_expr(&x.body, id)
        },
        TopLevelDeclKind::InfixDef(x) => if x.op.id == id {
            Some(x.op.span)
        } else {
            find_in_expr(&x.body, id)
        },
    }
}

/// Searches the syntax tree for the node with a given id, and keeps its
/// span.
pub struct GetNode {
    id: usize,
    node: Option<Span>,
    run_already: bool,
}

impl GetNode {
    pub closed spec fn target(&self) -> usize {
        self.id
    }

    pub closed spec fn ran(&self) -> bool {
        self.run_already
    }

    pub closed spec fn found(&self) -> Option<Span> {
        self.node
    }

    /// A search for the node with id `id`.
    pub fn new(id: usize) -> (r: Self)
        ensures
            r.target() == id,
            !r.ran(),
    {
        GetNode { id, node: None, run_already: false }
    }

    /// Searches `module`.
    pub fn run(&mut self, module: &Module)
        ensures
            final(self).ran(),
            final(self).target() == old(self).target(),
            final(self).found() == span_of_id(*module, old(self).target()),
    {
        let n = module.decl.len();
        let mut i: usize = 0;
        proof {
            assert(module.decl@.subrange(0, n as int) =~= module.decl@);
        }
        while i < n
            invariant
                n == module.decl@.len(),
                i <= n,
                *self == *old(self),
                decls_find(module.decl@, self.id) == decls_find(module.decl@.subrange(i as int, n as int), self.id),
            decreases n - i,
        {
            proof {
                let rest = module.decl@.subrange(i as int, n as int);
                assert(rest[0] == module.decl@[i as int]);
                assert(rest.drop_first() =~= module.decl@.subrange(i + 1, n as int));
            }
            let f = find_in_decl(&module.decl[i], self.id);
            if f.is_some() {
                self.node = f;
                self.run_already = true;
                return;
            }
            i += 1;
        }
        proof {
            assert(module.decl@.subrange(n as int, n as int) =~= Seq::<TopLevelDecl>::empty());
        }
        self.node = None;
        self.run_already = true;
    }

    /// Span of the node found, once a module has been searched.
    pub fn get(&self) -> (r: Option<Span>)
        requires
            self.ran(),
        ensures
            r == self.found(),
    {
        self.node
    }
}

} // verus!
