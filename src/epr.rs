//! Expression precedence reassociation: rewrites the parser's left-leaning
//! infix chains so that they respect the precedence declared with `infix`,
//! wherever in the module the declaration stands.

use vstd::prelude::*;
use vstd::string::*;
use crate::ast::{
    span_in, spans_nested, Expr, ExprKind, FuncCall, FuncDef, Ident, InfixDef, InfixFuncCall, InfixOpCall, Module, NodeId, Op, Paren,
    TopLevelDecl, TopLevelDeclKind,
};
use crate::source::{Pointer, Span};

verus! {

/// Precedence declared for an operator symbol.
pub struct PrecEntry {
    pub symbol: String,
    pub precedence: usize,
}

pub open spec fn entries_view(s: Seq<PrecEntry>) -> Seq<(Seq<char>, usize)> {
    s.map_values(|e: PrecEntry| (e.symbol@, e.precedence))
}

/// The precedence table of a module: one entry per infix definition, in
/// order.
pub open spec fn infix_table(decls: Seq<TopLevelDecl>) -> Seq<(Seq<char>, usize)>
    decreases decls.len(),
{
    if decls.len() == 0 {
        Seq::empty()
    } else {
        let rest = infix_table(decls.drop_last());
        match decls.last().kind {
            TopLevelDeclKind::InfixDef(d) => rest.push((d.op.symbol@, d.precedence)),
            _ => rest,
        }
    }
}

/// Precedence of `sym` in table `t`; the last declaration wins.
pub open spec fn lookup(t: Seq<(Seq<char>, usize)>, sym: Seq<char>) -> Option<usize>
    decreases t.len(),
{
    if t.len() == 0 {
        None
    } else if t.last().0 == sym {
        Some(t.last().1)
    } else {
        lookup(t.drop_last(), sym)
    }
}

/// Precedence of an expression for reassociation: that of its operator for
/// an operator call, the highest for anything else.
pub open spec fn expr_prec(e: Expr, t: Seq<(Seq<char>, usize)>) -> Option<usize> {
    match e.kind {
        ExprKind::InfixOpCall(c) => lookup(t, c.op.symbol@),
        _ => Some(usize::MAX),
    }
}

/// The operator symbol of an operator call.
pub open spec fn op_of(e: Expr) -> Option<Seq<char>> {
    match e.kind {
        ExprKind::InfixOpCall(c) => Some(c.op.symbol@),
        _ => None,
    }
}

/// The left operand of an infix call, if `e` is one.
pub open spec fn infix_lhs(e: Expr) -> Option<Expr> {
    match e.kind {
        ExprKind::InfixOpCall(c) => Some(*c.lhs),
        ExprKind::InfixFuncCall(c) => Some(*c.lhs),
        _ => None,
    }
}

/// An infix call whose left operand is an operator call that binds less
/// tightly than it does: `(a + b) * c` where `*` binds tighter.
pub open spec fn rotatable(e: Expr, t: Seq<(Seq<char>, usize)>) -> bool {
    match infix_lhs(e) {
        Some(l) => match (op_of(l), expr_prec(e, t)) {
            (Some(sym), Some(pn)) => match lookup(t, sym) {
                Some(pl) => pl < pn,
                None => false,
            },
            _ => false,
        },
        None => false,
    }
}

/// No infix call of `e` needs rotating.
pub open spec fn ordered(e: Expr, t: Seq<(Seq<char>, usize)>) -> bool
    decreases e,
{
    &&& !rotatable(e, t)
    &&& match e.kind {
        ExprKind::InfixOpCall(c) => ordered(*c.lhs, t) && ordered(*c.rhs, t),
        ExprKind::InfixFuncCall(c) => ordered(*c.lhs, t) && ordered(*c.rhs, t),
        ExprKind::Parenthesed(p) => ordered(*p.expr, t),
        ExprKind::FunctionCall(c) => {
            &&& ordered(*c.lhs, t)
            &&& forall|i: int| 0 <= i < c.args@.len() ==> ordered(#[trigger] c.args@[i], t)
        },
        _ => true,
    }
}

/// Every operator of `e` has a declared precedence.
pub open spec fn ops_known(e: Expr, t: Seq<(Seq<char>, usize)>) -> bool
    decreases e,
{
    match e.kind {
        ExprKind::InfixOpCall(c) => lookup(t, c.op.symbol@) is Some && ops_known(*c.lhs, t)
            && ops_known(*c.rhs, t),
        ExprKind::InfixFuncCall(c) => ops_known(*c.lhs, t) && ops_known(*c.rhs, t),
        ExprKind::Parenthesed(p) => ops_known(*p.expr, t),
        ExprKind::FunctionCall(c) => {
            &&& ops_known(*c.lhs, t)
            &&& forall|i: int| 0 <= i < c.args@.len() ==> ops_known(#[trigger] c.args@[i], t)
        },
        _ => true,
    }
}

/// `e` holds an operator call with symbol `sym`, written at `sp`, that has
/// no precedence.
pub open spec fn has_unknown(e: Expr, t: Seq<(Seq<char>, usize)>, sym: Seq<char>, sp: Span) -> bool
    decreases e,
{
    match e.kind {
        ExprKind::InfixOpCall(c) => (c.op.symbol@ == sym && c.op.span == sp && lookup(t, sym) is None)
            || has_unknown(*c.lhs, t, sym, sp) || has_unknown(*c.rhs, t, sym, sp),
        ExprKind::InfixFuncCall(c) => has_unknown(*c.lhs, t, sym, sp) || has_unknown(*c.rhs, t, sym, sp),
        ExprKind::Parenthesed(p) => has_unknown(*p.expr, t, sym, sp),
        ExprKind::FunctionCall(c) => {
            ||| has_unknown(*c.lhs, t, sym, sp)
            ||| exists|i: int| 0 <= i < c.args@.len() && has_unknown(#[trigger] c.args@[i], t, sym, sp)
        },
        _ => false,
    }
}

/// Every infix call on the left spine of `e` (`e`, its left operand, that
/// one's left operand, ...) binds more tightly than precedence `p`.
pub open spec fn spine_above(e: Expr, t: Seq<(Seq<char>, usize)>, p: int) -> bool
    decreases e,
{
    match e.kind {
        ExprKind::InfixOpCall(c) => lookup(t, c.op.symbol@) is Some && lookup(t, c.op.symbol@)->Some_0
            > p && spine_above(*c.lhs, t, p),
        ExprKind::InfixFuncCall(c) => usize::MAX > p && spine_above(*c.lhs, t, p),
        _ => true,
    }
}

/// No infix call of `e` has a right operand that starts with a call binding
/// no more tightly than itself: chains of equal precedence lean to the left.
pub open spec fn rhs_ok(e: Expr, t: Seq<(Seq<char>, usize)>) -> bool
    decreases e,
{
    match e.kind {
        ExprKind::InfixOpCall(c) => lookup(t, c.op.symbol@) is Some && spine_above(
            *c.rhs,
            t,
            lookup(t, c.op.symbol@)->Some_0 as int,
        ) && rhs_ok(*c.lhs, t) && rhs_ok(*c.rhs, t),
        ExprKind::InfixFuncCall(c) => spine_above(*c.rhs, t, usize::MAX as int) && rhs_ok(*c.lhs, t)
            && rhs_ok(*c.rhs, t),
        ExprKind::Parenthesed(p) => rhs_ok(*p.expr, t),
        ExprKind::FunctionCall(c) => {
            &&& rhs_ok(*c.lhs, t)
            &&& forall|i: int| 0 <= i < c.args@.len() ==> rhs_ok(#[trigger] c.args@[i], t)
        },
        _ => true,
    }
}

/// `a` and `b` are the same tree, node for node.
pub open spec fn same_expr(a: Expr, b: Expr) -> bool
    decreases a,
{
    &&& a.id == b.id
    &&& a.span == b.span
    &&& match (a.kind, b.kind) {
        (ExprKind::Literal(x), ExprKind::Literal(y)) => x == y,
        (ExprKind::Identifier(x), ExprKind::Identifier(y)) => x == y,
        (ExprKind::InfixOpCall(x), ExprKind::InfixOpCall(y)) => x.id == y.id && x.op == y.op
            && same_expr(*x.lhs, *y.lhs) && same_expr(*x.rhs, *y.rhs),
        (ExprKind::InfixFuncCall(x), ExprKind::InfixFuncCall(y)) => x.id == y.id && x.ident
            == y.ident && same_expr(*x.lhs, *y.lhs) && same_expr(*x.rhs, *y.rhs),
        (ExprKind::Parenthesed(x), ExprKind::Parenthesed(y)) => x.id == y.id && same_expr(
            *x.expr,
            *y.expr,
        ),
        (ExprKind::FunctionCall(x), ExprKind::FunctionCall(y)) => {
            &&& x.id == y.id
            &&& same_expr(*x.lhs, *y.lhs)
            &&& x.args@.len() == y.args@.len()
            &&& forall|i: int| 0 <= i < x.args@.len() ==> same_expr(#[trigger] x.args@[i], y.args@[i])
        },
        _ => false,
    }
}

pub open spec fn infix_rhs(e: Expr) -> Option<Expr> {
    match e.kind {
        ExprKind::InfixOpCall(c) => Some(*c.rhs),
        ExprKind::InfixFuncCall(c) => Some(*c.rhs),
        _ => None,
    }
}

/// `r` is `e` = `(a op1 b) op2 c` rotated to `a op1 (b op2 c)`: the outer
/// node keeps the id and span of `e` and takes the call of the left
/// operand; the inner node takes the id of the left operand, the call of
/// `e`, and spans from `b` to `c`.
pub open spec fn rotation_of(e: Expr, r: Expr) -> bool {
    match (e.kind, infix_lhs(e)) {
        (ExprKind::InfixOpCall(c), Some(l)) => match l.kind {
            ExprKind::InfixOpCall(lc) => r == Expr {
                id: e.id,
                span: e.span,
                kind: ExprKind::InfixOpCall(InfixOpCall {
                    id: lc.id,
                    op: lc.op,
                    lhs: lc.lhs,
                    rhs: Box::new(Expr {
                        id: l.id,
                        span: Span { beg: lc.rhs.span.beg, end: c.rhs.span.end },
                        kind: ExprKind::InfixOpCall(InfixOpCall { id: c.id, op: c.op, lhs: lc.rhs, rhs: c.rhs }),
                    }),
                }),
            },
            _ => false,
        },
        (ExprKind::InfixFuncCall(c), Some(l)) => match l.kind {
            ExprKind::InfixOpCall(lc) => r == Expr {
                id: e.id,
                span: e.span,
                kind: ExprKind::InfixOpCall(InfixOpCall {
                    id: lc.id,
                    op: lc.op,
                    lhs: lc.lhs,
                    rhs: Box::new(Expr {
                        id: l.id,
                        span: Span { beg: lc.rhs.span.beg, end: c.rhs.span.end },
                        kind: ExprKind::InfixFuncCall(InfixFuncCall { id: c.id, ident: c.ident, lhs: lc.rhs, rhs: c.rhs }),
                    }),
                }),
            },
            _ => false,
        },
        _ => false,
    }
}

/// A rotation keeps right operands binding more tightly, and the left
/// spine above any precedence that it was above.
pub proof fn lemma_rotation_keeps_order(e: Expr, r: Expr, t: Seq<(Seq<char>, usize)>)
    requires
        rotation_of(e, r),
        rotatable(e, t),
    ensures
        rhs_ok(e, t) ==> rhs_ok(r, t),
        forall|p: int| spine_above(e, t, p) ==> #[trigger] spine_above(r, t, p),
{
    reveal_with_fuel(rhs_ok, 3);
    reveal_with_fuel(spine_above, 3);
}

/// A chain as the parser leaves it, leaning to the left, has no right
/// operand that needs to bind more tightly.
pub proof fn lemma_left_flat_rhs_ok(e: Expr, t: Seq<(Seq<char>, usize)>)
    requires
        crate::ast::left_flat(e),
        ops_known(e, t),
    ensures
        rhs_ok(e, t),
    decreases e,
{
    match e.kind {
        ExprKind::InfixOpCall(c) => {
            lemma_left_flat_rhs_ok(*c.lhs, t);
            lemma_left_flat_rhs_ok(*c.rhs, t);
        },
        ExprKind::InfixFuncCall(c) => {
            lemma_left_flat_rhs_ok(*c.lhs, t);
            lemma_left_flat_rhs_ok(*c.rhs, t);
        },
        ExprKind::Parenthesed(p) => {
            lemma_left_flat_rhs_ok(*p.expr, t);
        },
        ExprKind::FunctionCall(c) => {
            lemma_left_flat_rhs_ok(*c.lhs, t);
            assert forall|i: int| 0 <= i < c.args@.len() implies rhs_ok(#[trigger] c.args@[i], t) by {
                assert(decreases_to!(e => e.kind));
                assert(decreases_to!(e.kind => c));
                assert(decreases_to!(c => c.args));
                assert(decreases_to!(c.args => c.args@));
                assert(decreases_to!(c.args@ => c.args@[i]));
                lemma_left_flat_rhs_ok(c.args@[i], t);
            }
        },
        _ => {},
    }
}

/// What an expression reads as, left to right, once its grouping is
/// forgotten: reassociation keeps it. Operands are kept whole, with their
/// ids and spans; so are operators and the nodes of parentheses and calls.
pub enum Atom {
    Leaf(Expr),
    Operator(Op),
    Infix(Ident),
    Open(NodeId, Span, NodeId),
    Close,
    Call(NodeId, Span, NodeId),
    EndCall,
}

pub open spec fn atoms(e: Expr) -> Seq<Atom>
    decreases e,
{
    match e.kind {
        ExprKind::Literal(_) => seq![Atom::Leaf(e)],
        ExprKind::Identifier(_) => seq![Atom::Leaf(e)],
        ExprKind::InfixOpCall(c) => atoms(*c.lhs) + seq![Atom::Operator(c.op)] + atoms(
            *c.rhs,
        ),
        ExprKind::InfixFuncCall(c) => atoms(*c.lhs) + seq![Atom::Infix(c.ident)] + atoms(
            *c.rhs,
        ),
        ExprKind::Parenthesed(p) => seq![Atom::Open(e.id, e.span, p.id)] + atoms(*p.expr) + seq![
            Atom::Close,
        ],
        ExprKind::FunctionCall(c) => seq![Atom::Call(e.id, e.span, c.id)] + atoms(*c.lhs) + atoms_all(c.args@) + seq![
            Atom::EndCall,
        ],
    }
}

pub open spec fn atoms_all(s: Seq<Expr>) -> Seq<Atom>
    decreases s,
{
    if s.len() == 0 {
        Seq::empty()
    } else {
        atoms_all(s.drop_last()) + atoms(s.last())
    }
}

/// Number of expression nodes.
pub open spec fn size(e: Expr) -> nat
    decreases e,
{
    match e.kind {
        ExprKind::InfixOpCall(c) => 1 + size(*c.lhs) + size(*c.rhs),
        ExprKind::InfixFuncCall(c) => 1 + size(*c.lhs) + size(*c.rhs),
        ExprKind::Parenthesed(p) => 1 + size(*p.expr),
        ExprKind::FunctionCall(c) => 1 + size(*c.lhs) + sizes(c.args@),
        _ => 1,
    }
}

pub open spec fn sizes(s: Seq<Expr>) -> nat
    decreases s,
{
    if s.len() == 0 {
        0
    } else {
        sizes(s.drop_last()) + size(s.last())
    }
}

/// Sum, over the infix calls of `e`, of the size of their left operand.
/// Each rotation lowers it, so reassociation comes to an end.
pub open spec fn weight(e: Expr) -> nat
    decreases e,
{
    match e.kind {
        ExprKind::InfixOpCall(c) => weight(*c.lhs) + weight(*c.rhs) + size(*c.lhs),
        ExprKind::InfixFuncCall(c) => weight(*c.lhs) + weight(*c.rhs) + size(*c.lhs),
        ExprKind::Parenthesed(p) => weight(*p.expr),
        ExprKind::FunctionCall(c) => weight(*c.lhs) + weights(c.args@),
        _ => 0,
    }
}

pub open spec fn weights(s: Seq<Expr>) -> nat
    decreases s,
{
    if s.len() == 0 {
        0
    } else {
        weights(s.drop_last()) + weight(s.last())
    }
}

} // verus!

verus! {

/// Precedence of `sym` in `table`; the last entry for it wins.
pub fn find_prec(table: &Vec<PrecEntry>, sym: &String) -> (r: Option<usize>)
    ensures
        r == lookup(entries_view(table@), sym@),
{
    let ghost t = entries_view(table@);
    let mut i: usize = table.len();
    assert(t.subrange(0, i as int) =~= t);
    while i > 0
        invariant
            i <= table@.len(),
            t == entries_view(table@),
            lookup(t, sym@) == lookup(t.subrange(0, i as int), sym@),
        decreases i,
    {
        let ghost u = t.subrange(0, i as int);
        assert(u.drop_last() =~= t.subrange(0, i - 1));
        if table[i - 1].symbol == *sym {
            return Some(table[i - 1].precedence);
        }
        i -= 1;
    }
    assert(t.subrange(0, 0) =~= Seq::<(Seq<char>, usize)>::empty());
    None
}

/// Whether the infix call `e` has to be rotated with its left operand.
fn is_rotatable(e: &Expr, table: &Vec<PrecEntry>) -> (r: bool)
    ensures
        r == rotatable(*e, entries_view(table@)),
{
    let (lhs, own) = match &e.kind {
        ExprKind::InfixOpCall(c) => (&c.lhs, find_prec(table, &c.op.symbol)),
        ExprKind::InfixFuncCall(c) => (&c.lhs, Some(usize::MAX)),
        _ => {
            return false;
        },
    };
    let lhs_prec = match &lhs.kind {
        ExprKind::InfixOpCall(l) => find_prec(table, &l.op.symbol),
        _ => {
            return false;
        },
    };
    match (lhs_prec, own) {
        (Some(pl), Some(pn)) => pl < pn,
        _ => false,
    }
}

/// `(a op1 b) op2 c` becomes `a op1 (b op2 c)`. The outer node keeps its id
/// and span; the new inner node takes the id of the old left operand and
/// spans from `b` to `c`.
fn rotate(e: Expr) -> (r: Expr)
    requires
        infix_lhs(e) is Some,
        op_of(infix_lhs(e)->Some_0) is Some,
    ensures
        size(r) == size(e),
        weight(r) < weight(e),
        atoms(r) == atoms(e),
        r.span == e.span,
        forall|len: int| spans_nested(e, len) ==> #[trigger] spans_nested(r, len),
        forall|t: Seq<(Seq<char>, usize)>| ops_known(e, t) ==> #[trigger] ops_known(r, t),
        rotation_of(e, r),
{
    proof {
        reveal_with_fuel(atoms, 3);
        reveal_with_fuel(size, 3);
        reveal_with_fuel(weight, 3);
        reveal_with_fuel(spans_nested, 3);
        reveal_with_fuel(ops_known, 3);
    }
    let Expr { id: n_id, kind, span: n_span } = e;
    match kind {
        ExprKind::InfixOpCall(c) => {
            let InfixOpCall { id: c_id, op, lhs, rhs: c_rhs } = c;
            let Expr { id: l_id, kind: l_kind, span: l_span } = *lhs;
            match l_kind {
                ExprKind::InfixOpCall(lc) => {
                    let InfixOpCall { id: lc_id, op: l_op, lhs: a, rhs: b } = lc;
                    let inner_span = Span { beg: b.span.beg, end: c_rhs.span.end };
                    let inner = Expr {
                        id: l_id,
                        span: inner_span,
                        kind: ExprKind::InfixOpCall(InfixOpCall { id: c_id, op, lhs: b, rhs: c_rhs }),
                    };
                    let r = Expr {
                        id: n_id,
                        span: n_span,
                        kind: ExprKind::InfixOpCall(
                            InfixOpCall { id: lc_id, op: l_op, lhs: a, rhs: Box::new(inner) },
                        ),
                    };
                    proof {
                        assert(atoms(r) =~= atoms(e));
                    }
                    r
                },
                other => {
                    let l = Expr { id: l_id, kind: other, span: l_span };
                    Expr {
                        id: n_id,
                        span: n_span,
                        kind: ExprKind::InfixOpCall(
                            InfixOpCall { id: c_id, op, lhs: Box::new(l), rhs: c_rhs },
                        ),
                    }
                },
            }
        },
        ExprKind::InfixFuncCall(c) => {
            let InfixFuncCall { id: c_id, ident, lhs, rhs: c_rhs } = c;
            let Expr { id: l_id, kind: l_kind, span: l_span } = *lhs;
            match l_kind {
                ExprKind::InfixOpCall(lc) => {
                    let InfixOpCall { id: lc_id, op: l_op, lhs: a, rhs: b } = lc;
                    let inner_span = Span { beg: b.span.beg, end: c_rhs.span.end };
                    let inner = Expr {
                        id: l_id,
                        span: inner_span,
                        kind: ExprKind::InfixFuncCall(
                            InfixFuncCall { id: c_id, ident, lhs: b, rhs: c_rhs },
                        ),
                    };
                    let r = Expr {
                        id: n_id,
                        span: n_span,
                        kind: ExprKind::InfixOpCall(
                            InfixOpCall { id: lc_id, op: l_op, lhs: a, rhs: Box::new(inner) },
                        ),
                    };
                    proof {
                        assert(atoms(r) =~= atoms(e));
                    }
                    r
                },
                other => {
                    let l = Expr { id: l_id, kind: other, span: l_span };
                    Expr {
                        id: n_id,
                        span: n_span,
                        kind: ExprKind::InfixFuncCall(
                            InfixFuncCall { id: c_id, ident, lhs: Box::new(l), rhs: c_rhs },
                        ),
                    }
                },
            }
        },
        other => Expr { id: n_id, kind: other, span: n_span },
    }
}

} // verus!

verus! {

/// `r` is what one round of reassociation made of `e`; `changed` tells
/// whether it rotated anything.
pub open spec fn reassoc_rel(e: Expr, r: Expr, changed: bool, t: Seq<(Seq<char>, usize)>) -> bool {
    &&& ops_known(r, t)
    &&& size(r) == size(e)
    &&& weight(r) <= weight(e)
    &&& (changed ==> weight(r) < weight(e))
    &&& atoms(r) == atoms(e)
    &&& r.span == e.span
    &&& (forall|len: int| spans_nested(e, len) ==> #[trigger] spans_nested(r, len))
    &&& (!changed ==> ordered(r, t) && op_of(r) == op_of(e))
    &&& (ordered(e, t) ==> !changed)
    &&& (rhs_ok(e, t) ==> rhs_ok(r, t))
    &&& (forall|p: int| spine_above(e, t, p) ==> #[trigger] spine_above(r, t, p))
    &&& (!changed ==> same_expr(e, r))
}

/// `n` is `e` with its operands reassociated, before any rotation of `e`
/// itself.
pub open spec fn rebuilt_rel(e: Expr, n: Expr, changed: bool, t: Seq<(Seq<char>, usize)>) -> bool {
    &&& ops_known(n, t)
    &&& size(n) == size(e)
    &&& weight(n) <= weight(e)
    &&& (changed ==> weight(n) < weight(e))
    &&& atoms(n) == atoms(e)
    &&& n.span == e.span
    &&& (forall|len: int| spans_nested(e, len) ==> #[trigger] spans_nested(n, len))
    &&& (!changed ==> (ordered(n, t) <==> !rotatable(n, t)) && op_of(n) == op_of(e))
    &&& (ordered(e, t) ==> !changed && !rotatable(n, t))
    &&& (rhs_ok(e, t) ==> rhs_ok(n, t))
    &&& (forall|p: int| spine_above(e, t, p) ==> #[trigger] spine_above(n, t, p))
    &&& (!changed ==> same_expr(e, n))
}

proof fn lemma_call_spans(n: Expr, len: int)
    requires
        n.kind is FunctionCall,
        span_in(n.span, len),
        spans_nested(*n.kind->FunctionCall_0.lhs, len),
        forall|j: int| 0 <= j < n.kind->FunctionCall_0.args@.len() ==> #[trigger] spans_nested(n.kind->FunctionCall_0.args@[j], len),
    ensures
        spans_nested(n, len),
{
    let c = n.kind->FunctionCall_0;
    assert(n.kind == ExprKind::FunctionCall(c));
    assert(spans_nested(*c.lhs, len));
    assert(forall|i: int| 0 <= i < c.args@.len() ==> spans_nested(#[trigger] c.args@[i], len));
    assert(span_in(n.span, len));
    assert(spans_nested(n, len)) by {
        reveal_with_fuel(spans_nested, 2);
    }
}

/// Argument lists related element by element keep their size and atoms
/// and do not gain weight.
pub proof fn lemma_args(s1: Seq<Expr>, s2: Seq<Expr>)
    requires
        s1.len() == s2.len(),
        forall|i: int|
            0 <= i < s1.len() ==> size(#[trigger] s2[i]) == size(s1[i]) && weight(s2[i])
                <= weight(s1[i]) && atoms(s2[i]) == atoms(s1[i]),
    ensures
        sizes(s2) == sizes(s1),
        weights(s2) <= weights(s1),
        atoms_all(s2) == atoms_all(s1),
        (exists|i: int| 0 <= i < s1.len() && weight(#[trigger] s2[i]) < weight(s1[i])) ==> weights(
            s2,
        ) < weights(s1),
    decreases s1.len(),
{
    if s1.len() > 0 {
        let d1 = s1.drop_last();
        let d2 = s2.drop_last();
        assert forall|i: int| 0 <= i < d1.len() implies size(#[trigger] d2[i]) == size(d1[i])
            && weight(d2[i]) <= weight(d1[i]) && atoms(d2[i]) == atoms(d1[i]) by {
            assert(d2[i] == s2[i] && d1[i] == s1[i]);
        }
        lemma_args(d1, d2);
        if exists|i: int| 0 <= i < s1.len() && weight(#[trigger] s2[i]) < weight(s1[i]) {
            let i = choose|i: int| 0 <= i < s1.len() && weight(#[trigger] s2[i]) < weight(s1[i]);
            if i < d1.len() {
                assert(d2[i] == s2[i] && d1[i] == s1[i]);
            }
        }
    }
}

/// One round of reassociation over `e`: the operands first, then, if it
/// needs it, one rotation of `e` itself.
pub fn reassoc(e: Expr, table: &Vec<PrecEntry>) -> (r: (Expr, bool))
    requires
        ops_known(e, entries_view(table@)),
    ensures
        reassoc_rel(e, r.0, r.1, entries_view(table@)),
    decreases e,
{
    let ghost t = entries_view(table@);
    let ghost ge = e;
    let Expr { id, kind, span } = e;
    let (n1, changed) = match kind {
        ExprKind::InfixOpCall(c) => {
            let InfixOpCall { id: c_id, op, lhs, rhs } = c;
            let ghost gl = *lhs;
            let ghost gr = *rhs;
            let (l2, ch1) = reassoc(*lhs, table);
            let (r2, ch2) = reassoc(*rhs, table);
            let res = (
                Expr {
                    id,
                    span,
                    kind: ExprKind::InfixOpCall(
                        InfixOpCall { id: c_id, op, lhs: Box::new(l2), rhs: Box::new(r2) },
                    ),
                },
                ch1 || ch2,
            );
            assert forall|len: int| spans_nested(ge, len) implies #[trigger] spans_nested(res.0, len) by {
                assert(spans_nested(gl, len) && spans_nested(gr, len));
                assert(spans_nested(l2, len) && spans_nested(r2, len));
            }
            assert forall|p: int| spine_above(ge, t, p) implies #[trigger] spine_above(res.0, t, p) by {
                assert(spine_above(gl, t, p));
                assert(spine_above(l2, t, p));
            }
            proof {
                if rhs_ok(ge, t) {
                    let q = lookup(t, res.0.kind->InfixOpCall_0.op.symbol@)->Some_0 as int;
                    assert(spine_above(gr, t, q));
                    assert(spine_above(r2, t, q));
                }
            }
            assert(rebuilt_rel(ge, res.0, res.1, t));
            res
        },
        ExprKind::InfixFuncCall(c) => {
            let InfixFuncCall { id: c_id, ident, lhs, rhs } = c;
            let ghost gl = *lhs;
            let ghost gr = *rhs;
            let (l2, ch1) = reassoc(*lhs, table);
            let (r2, ch2) = reassoc(*rhs, table);
            let res = (
                Expr {
                    id,
                    span,
                    kind: ExprKind::InfixFuncCall(
                        InfixFuncCall { id: c_id, ident, lhs: Box::new(l2), rhs: Box::new(r2) },
                    ),
                },
                ch1 || ch2,
            );
            assert forall|len: int| spans_nested(ge, len) implies #[trigger] spans_nested(res.0, len) by {
                assert(spans_nested(gl, len) && spans_nested(gr, len));
                assert(spans_nested(l2, len) && spans_nested(r2, len));
            }
            assert forall|p: int| spine_above(ge, t, p) implies #[trigger] spine_above(res.0, t, p) by {
                assert(spine_above(gl, t, p));
                assert(spine_above(l2, t, p));
            }
            proof {
                if rhs_ok(ge, t) {
                    assert(spine_above(gr, t, usize::MAX as int));
                    assert(spine_above(r2, t, usize::MAX as int));
                }
            }
            assert(rebuilt_rel(ge, res.0, res.1, t));
            res
        },
        ExprKind::Parenthesed(p) => {
            let Paren { id: p_id, expr } = p;
            let ghost gx = *expr;
            let (x, ch) = reassoc(*expr, table);
            let res = (
                Expr {
                    id,
                    span,
                    kind: ExprKind::Parenthesed(Paren { id: p_id, expr: Box::new(x) }),
                },
                ch,
            );
            assert forall|len: int| spans_nested(ge, len) implies #[trigger] spans_nested(res.0, len) by {
                assert(spans_nested(gx, len));
                assert(spans_nested(x, len));
            }
            assert(rebuilt_rel(ge, res.0, res.1, t));
            res
        },
        ExprKind::FunctionCall(c) => {
            let FuncCall { id: c_id, lhs, args } = c;
            let ghost orig = args@;
            let ghost gl = *lhs;
            let (callee, ch1) = reassoc(*lhs, table);
            let mut rest = args;
            let mut out: Vec<Expr> = Vec::new();
            let mut ch2 = false;
            let n = rest.len();
            let mut i: usize = 0;
            let ghost mut chs: Seq<bool> = Seq::empty();
            while i < n
                invariant
                    t == entries_view(table@),
                    n == orig.len(),
                    i <= n,
                    rest@ == orig.subrange(i as int, n as int),
                    out@.len() == i,
                    chs.len() == i,
                    forall|j: int| 0 <= j < n ==> ops_known(#[trigger] orig[j], t),
                    forall|j: int| 0 <= j < n ==> decreases_to!(ge => #[trigger] orig[j]),
                    ge == e,
                    forall|j: int| 0 <= j < i ==> reassoc_rel(orig[j], #[trigger] out@[j], chs[j], t),
                    ch2 <==> exists|j: int| 0 <= j < i && #[trigger] chs[j],
                decreases n - i,
            {
                let a = rest.remove(0);
                assert(a == orig[i as int]);
                proof {
                    assert(decreases_to!(e => a));
                }
                let (a2, ch) = reassoc(a, table);
                out.push(a2);
                proof {
                    if ch2 {
                        let j = choose|j: int| 0 <= j < i && #[trigger] chs[j];
                        assert(chs.push(ch)[j]);
                    }
                    chs = chs.push(ch);
                    if ch {
                        assert(chs[i as int]);
                    }
                }
                ch2 = ch2 || ch;
                i += 1;
            }
            proof {
                assert forall|j: int| 0 <= j < n implies size(#[trigger] out@[j]) == size(orig[j])
                    && weight(out@[j]) <= weight(orig[j]) && atoms(out@[j]) == atoms(orig[j]) by {
                    assert(reassoc_rel(orig[j], out@[j], chs[j], t));
                }
                if ch2 {
                    let j = choose|j: int| 0 <= j < n && #[trigger] chs[j];
                    assert(reassoc_rel(orig[j], out@[j], chs[j], t));
                    assert(weight(out@[j]) < weight(orig[j]));
                }
                lemma_args(orig, out@);
            }
            let res = (
                Expr {
                    id,
                    span,
                    kind: ExprKind::FunctionCall(FuncCall { id: c_id, lhs: Box::new(callee), args: out }),
                },
                ch1 || ch2,
            );
            assert forall|len: int| spans_nested(ge, len) implies #[trigger] spans_nested(res.0, len) by {
                assert(spans_nested(gl, len));
                assert(spans_nested(callee, len));
                assert forall|j: int| 0 <= j < out@.len() implies #[trigger] spans_nested(out@[j], len) by {
                    assert(spans_nested(orig[j], len));
                    assert(reassoc_rel(orig[j], out@[j], chs[j], t));
                    assert(spans_nested(out@[j], len));
                }
                let fc = res.0.kind->FunctionCall_0;
                assert(fc.args@ == out@);
                assert forall|j: int| 0 <= j < fc.args@.len() implies #[trigger] spans_nested(fc.args@[j], len) by {
                    assert(spans_nested(out@[j], len));
                }
                assert(*fc.lhs == callee);
                lemma_call_spans(res.0, len);
            }
            assert(rebuilt_rel(ge, res.0, res.1, t));
            res
        },
        ExprKind::Literal(l) => (Expr { id, span, kind: ExprKind::Literal(l) }, false),
        ExprKind::Identifier(x) => (Expr { id, span, kind: ExprKind::Identifier(x) }, false),
    };
    assert(rebuilt_rel(ge, n1, changed, t));
    if is_rotatable(&n1, table) {
        let ghost g1 = n1;
        let r = rotate(n1);
        proof {
            lemma_rotation_keeps_order(g1, r, t);
        }
        (r, true)
    } else {
        (n1, changed)
    }
}

} // verus!

verus! {

/// Error for an operator that no `infix` declaration gives a precedence.
pub struct UnknownPrecedense {
    pub e_beg: Pointer,
    pub e_end: Pointer,
    pub ident: String,
}

impl UnknownPrecedense {
    pub fn desc(&self) -> (r: String)
        ensures
            r@ == "Unknown operator precedence: "@ + self.ident@,
    {
        let mut s = "Unknown operator precedence: ".to_owned();
        s.append(self.ident.as_str());
        s
    }
}

/// Collects the precedence table of a module.
pub struct InfixPrec {
    op: Vec<PrecEntry>,
    run_already: bool,
}

impl InfixPrec {
    pub closed spec fn table(&self) -> Seq<(Seq<char>, usize)> {
        entries_view(self.op@)
    }

    pub closed spec fn ran(&self) -> bool {
        self.run_already
    }

    pub fn new() -> (r: Self)
        ensures
            r.table().len() == 0,
            !r.ran(),
    {
        InfixPrec { op: Vec::new(), run_already: false }
    }

    pub fn clear(&mut self)
        ensures
            final(self).table().len() == 0,
            final(self).ran() == old(self).ran(),
    {
        self.op = Vec::new();
    }

    /// The table, once a module has been visited.
    pub fn get(self) -> (r: Vec<PrecEntry>)
        requires
            self.ran(),
        ensures
            entries_view(r@) == self.table(),
    {
        self.op
    }

    /// Builds the table of `node`, one entry per infix definition.
    pub fn visit_module(&mut self, node: &Module)
        ensures
            final(self).table() == infix_table(node.decl@),
            final(self).ran(),
    {
        self.run_already = true;
        self.clear();
        let n = node.decl.len();
        let mut i: usize = 0;
        while i < n
            invariant
                n == node.decl@.len(),
                i <= n,
                entries_view(self.op@) == infix_table(node.decl@.subrange(0, i as int)),
                self.run_already,
            decreases n - i,
        {
            proof {
                assert(node.decl@.subrange(0, i + 1).drop_last() =~= node.decl@.subrange(0, i as int));
            }
            if let TopLevelDeclKind::InfixDef(d) = &node.decl[i].kind {
                self.op.push(PrecEntry { symbol: d.op.symbol.clone(), precedence: d.precedence });

            }
            i += 1;
        }
        proof {
            assert(node.decl@.subrange(0, n as int) =~= node.decl@);
        }
    }
}

/// The first operator of `e` without a precedence, if any.
pub fn find_unknown(e: &Expr, table: &Vec<PrecEntry>) -> (r: Option<UnknownPrecedense>)
    ensures
        r is None <==> ops_known(*e, entries_view(table@)),
        r is Some ==> has_unknown(*e, entries_view(table@), r->Some_0.ident@, Span { beg: r->Some_0.e_beg, end: r->Some_0.e_end }),
    decreases e,
{
    match &e.kind {
        ExprKind::InfixOpCall(c) => {
            if find_prec(table, &c.op.symbol).is_none() {
                return Some(
                    UnknownPrecedense {
                        e_beg: c.op.span.beg,
                        e_end: c.op.span.end,
                        ident: c.op.symbol.clone(),
                    },
                );
            }
            let l = find_unknown(&c.lhs, table);
            if l.is_some() {
                return l;
            }
            find_unknown(&c.rhs, table)
        },
        ExprKind::InfixFuncCall(c) => {
            let l = find_unknown(&c.lhs, table);
            if l.is_some() {
                return l;
            }
            find_unknown(&c.rhs, table)
        },
        ExprKind::Parenthesed(p) => find_unknown(&p.expr, table),
        ExprKind::FunctionCall(c) => {
            let l = find_unknown(&c.lhs, table);
            if l.is_some() {
                return l;
            }
            let n = c.args.len();
            let mut i: usize = 0;
            while i < n
                invariant
                    n == c.args@.len(),
                    i <= n,
                    forall|j: int| 0 <= j < i ==> ops_known(#[trigger] c.args@[j], entries_view(table@)),
                    e.kind == ExprKind::FunctionCall(*c),
                    ops_known(*c.lhs, entries_view(table@)),
                decreases n - i,
            {
                proof {
                    let k = e.kind;
                    let fc = k->FunctionCall_0;
                    assert(decreases_to!(*e => k));
                    assert(decreases_to!(k => fc));
                    assert(decreases_to!(fc => fc.args));
                    assert(decreases_to!(fc.args => fc.args@));
                    assert(decreases_to!(fc.args@ => fc.args@[i as int]));
                    assert(decreases_to!(*e => c.args@[i as int]));
                }
                let a = find_unknown(&c.args[i], table);
                if a.is_some() {
                    proof {
                        assert(has_unknown(c.args@[i as int], entries_view(table@), a->Some_0.ident@, Span { beg: a->Some_0.e_beg, end: a->Some_0.e_end }));
                    }
                    return a;
                }
                i += 1;
            }
            None
        },
        _ => None,
    }
}

} // verus!

verus! {

pub open spec fn body_of(d: TopLevelDecl) -> Option<Expr> {
    match d.kind {
        TopLevelDeclKind::FunctionDef(f) => Some(f.body),
        TopLevelDeclKind::InfixDef(i) => Some(i.body),
        TopLevelDeclKind::FunctionDecl(_) => None,
    }
}

pub open spec fn decls_ops_known(ds: Seq<TopLevelDecl>, t: Seq<(Seq<char>, usize)>) -> bool {
    forall|i: int| 0 <= i < ds.len() && (#[trigger] body_of(ds[i])) is Some ==> ops_known(body_of(ds[i])->Some_0, t)
}

pub open spec fn decls_ordered(ds: Seq<TopLevelDecl>, t: Seq<(Seq<char>, usize)>) -> bool {
    forall|i: int| 0 <= i < ds.len() && (#[trigger] body_of(ds[i])) is Some ==> ordered(body_of(ds[i])->Some_0, t)
}

/// Some body of `ds` holds an operator `sym` without a precedence.
pub open spec fn decls_have_unknown(ds: Seq<TopLevelDecl>, t: Seq<(Seq<char>, usize)>, sym: Seq<char>, sp: Span) -> bool {
    exists|i: int| 0 <= i < ds.len() && (#[trigger] body_of(ds[i])) is Some && has_unknown(body_of(ds[i])->Some_0, t, sym, sp)
}

pub open spec fn decls_weight(ds: Seq<TopLevelDecl>) -> nat
    decreases ds.len(),
{
    if ds.len() == 0 {
        0
    } else {
        decls_weight(ds.drop_last()) + match body_of(ds.last()) {
            Some(b) => weight(b),
            None => 0,
        }
    }
}

/// The two declarations differ at most in their body.
pub open spec fn same_but_body(a: TopLevelDecl, b: TopLevelDecl) -> bool {
    &&& a.id == b.id
    &&& a.span == b.span
    &&& match (a.kind, b.kind) {
        (TopLevelDeclKind::FunctionDecl(x), TopLevelDeclKind::FunctionDecl(y)) => x == y,
        (TopLevelDeclKind::FunctionDef(x), TopLevelDeclKind::FunctionDef(y)) => {
            x.id == y.id && x.decl == y.decl && x.args == y.args
        },
        (TopLevelDeclKind::InfixDef(x), TopLevelDeclKind::InfixDef(y)) => {
            &&& x.id == y.id
            &&& x.ty == y.ty
            &&& x.precedence == y.precedence
            &&& x.op == y.op
            &&& x.args == y.args
        },
        _ => false,
    }
}

/// `b` is `a` with its body, if any, reassociated: the body reads the same,
/// keeps its spans well nested, and knows all its operators.
pub open spec fn body_rel(a: TopLevelDecl, b: TopLevelDecl, t: Seq<(Seq<char>, usize)>) -> bool {
    &&& same_but_body(a, b)
    &&& (body_of(a) is Some <==> body_of(b) is Some)
    &&& body_of(a) is Some ==> {
        let (x, y) = (body_of(a)->Some_0, body_of(b)->Some_0);
        &&& atoms(y) == atoms(x)
        &&& y.span == x.span
        &&& ops_known(y, t)
        &&& forall|len: int| spans_nested(x, len) ==> #[trigger] spans_nested(y, len)
        &&& (rhs_ok(x, t) ==> rhs_ok(y, t))
    }
}

/// `b` is the declaration `a` left as it was, node for node.
pub open spec fn same_decl(a: TopLevelDecl, b: TopLevelDecl) -> bool {
    &&& same_but_body(a, b)
    &&& (body_of(a) is Some <==> body_of(b) is Some)
    &&& (body_of(a) is Some ==> same_expr(body_of(a)->Some_0, body_of(b)->Some_0))
}

/// `after` is what reassociation made of `before`: each body reads as
/// before, and no infix call needs rotating any more.
pub open spec fn reassociated(before: Seq<TopLevelDecl>, after: Seq<TopLevelDecl>) -> bool {
    let t = infix_table(before);
    &&& after.len() == before.len()
    &&& forall|i: int| 0 <= i < before.len() ==> #[trigger] body_rel(before[i], after[i], t)
    &&& infix_table(after) == t
    &&& decls_ordered(after, t)
}

pub proof fn lemma_table_kept(a: Seq<TopLevelDecl>, b: Seq<TopLevelDecl>)
    requires
        a.len() == b.len(),
        forall|i: int| 0 <= i < a.len() ==> #[trigger] same_but_body(a[i], b[i]),
    ensures
        infix_table(a) == infix_table(b),
    decreases a.len(),
{
    if a.len() > 0 {
        let (da, db) = (a.drop_last(), b.drop_last());
        assert forall|i: int| 0 <= i < da.len() implies #[trigger] same_but_body(da[i], db[i]) by {
            assert(same_but_body(a[i], b[i]));
        }
        lemma_table_kept(da, db);
        assert(same_but_body(a.last(), b.last()));
    }
}

pub proof fn lemma_decls_weight(a: Seq<TopLevelDecl>, b: Seq<TopLevelDecl>, chs: Seq<bool>, t: Seq<(Seq<char>, usize)>)
    requires
        a.len() == b.len(),
        chs.len() == a.len(),
        forall|i: int| 0 <= i < a.len() ==> (body_of(#[trigger] a[i]) is Some <==> body_of(b[i]) is Some),
        forall|i: int| 0 <= i < a.len() && (#[trigger] body_of(a[i])) is Some ==> reassoc_rel(body_of(a[i])->Some_0, body_of(b[i])->Some_0, chs[i], t),
        forall|i: int| 0 <= i < a.len() && (#[trigger] body_of(a[i])) is None ==> !chs[i],
    ensures
        decls_weight(b) <= decls_weight(a),
        (exists|i: int| 0 <= i < a.len() && #[trigger] chs[i]) ==> decls_weight(b) < decls_weight(a),
    decreases a.len(),
{
    if a.len() > 0 {
        let (da, db, dc) = (a.drop_last(), b.drop_last(), chs.drop_last());
        assert forall|i: int| 0 <= i < da.len() implies (body_of(#[trigger] da[i]) is Some <==> body_of(db[i]) is Some) by {
            assert(da[i] == a[i] && db[i] == b[i]);
            assert(body_of(a[i]) is Some <==> body_of(b[i]) is Some);
        }
        assert forall|i: int| 0 <= i < da.len() && (#[trigger] body_of(da[i])) is Some implies reassoc_rel(body_of(da[i])->Some_0, body_of(db[i])->Some_0, dc[i], t) by {
            assert(da[i] == a[i] && db[i] == b[i] && dc[i] == chs[i]);
            assert(body_of(a[i]) is Some);
        }
        assert forall|i: int| 0 <= i < da.len() && (#[trigger] body_of(da[i])) is None implies !dc[i] by {
            assert(da[i] == a[i] && dc[i] == chs[i]);
            assert(body_of(a[i]) is None);
        }
        lemma_decls_weight(da, db, dc, t);
        let k = a.len() - 1;
        assert(body_of(a[k]) is Some <==> body_of(b[k]) is Some);
        if body_of(a[k]) is Some {
            assert(reassoc_rel(body_of(a[k])->Some_0, body_of(b[k])->Some_0, chs[k], t));
        }
        if exists|i: int| 0 <= i < a.len() && #[trigger] chs[i] {
            let i = choose|i: int| 0 <= i < a.len() && #[trigger] chs[i];
            if i < k {
                assert(dc[i]);
            } else if body_of(a[k]) is None {
                assert(!chs[k]);
            }
        }
    }
}

} // verus!

verus! {

/// `b` is what one round of reassociation made of the declaration `a`.
pub open spec fn decl_step(a: TopLevelDecl, b: TopLevelDecl, ch: bool, t: Seq<(Seq<char>, usize)>) -> bool {
    &&& same_but_body(a, b)
    &&& (body_of(a) is Some <==> body_of(b) is Some)
    &&& (body_of(a) is Some ==> reassoc_rel(body_of(a)->Some_0, body_of(b)->Some_0, ch, t))
    &&& (body_of(a) is None ==> !ch)
    &&& (!ch ==> same_decl(a, b))
}

fn reassoc_decl(d: TopLevelDecl, table: &Vec<PrecEntry>) -> (r: (TopLevelDecl, bool))
    requires
        body_of(d) is Some ==> ops_known(body_of(d)->Some_0, entries_view(table@)),
    ensures
        decl_step(d, r.0, r.1, entries_view(table@)),
{
    let TopLevelDecl { id, kind, span } = d;
    match kind {
        TopLevelDeclKind::FunctionDef(f) => {
            let FuncDef { id: f_id, decl, args, body } = f;
            let (body, ch) = reassoc(body, table);
            (
                TopLevelDecl {
                    id,
                    span,
                    kind: TopLevelDeclKind::FunctionDef(FuncDef { id: f_id, decl, args, body }),
                },
                ch,
            )
        },
        TopLevelDeclKind::InfixDef(x) => {
            let InfixDef { id: x_id, ty, precedence, op, args, body } = x;
            let (body, ch) = reassoc(body, table);
            (
                TopLevelDecl {
                    id,
                    span,
                    kind: TopLevelDeclKind::InfixDef(
                        InfixDef { id: x_id, ty, precedence, op, args, body },
                    ),
                },
                ch,
            )
        },
        TopLevelDeclKind::FunctionDecl(x) => (
            TopLevelDecl { id, span, kind: TopLevelDeclKind::FunctionDecl(x) },
            false,
        ),
    }
}

/// One round of reassociation over every body of a module.
fn reassoc_decls(decls: Vec<TopLevelDecl>, table: &Vec<PrecEntry>) -> (r: (
    Vec<TopLevelDecl>,
    bool,
    Ghost<Seq<bool>>,
))
    requires
        decls_ops_known(decls@, entries_view(table@)),
    ensures
        r.0@.len() == decls@.len(),
        r.2@.len() == decls@.len(),
        forall|i: int|
            0 <= i < decls@.len() ==> #[trigger] decl_step(
                decls@[i],
                r.0@[i],
                r.2@[i],
                entries_view(table@),
            ),
        r.1 <==> exists|i: int| 0 <= i < r.2@.len() && #[trigger] r.2@[i],
{
    let ghost t = entries_view(table@);
    let ghost orig = decls@;
    let mut rest = decls;
    let mut out: Vec<TopLevelDecl> = Vec::new();
    let mut any = false;
    let n = rest.len();
    let mut i: usize = 0;
    let ghost mut chs: Seq<bool> = Seq::empty();
    while i < n
        invariant
            t == entries_view(table@),
            n == orig.len(),
            i <= n,
            rest@ == orig.subrange(i as int, n as int),
            out@.len() == i,
            chs.len() == i,
            decls_ops_known(orig, t),
            forall|j: int| 0 <= j < i ==> #[trigger] decl_step(orig[j], out@[j], chs[j], t),
            any <==> exists|j: int| 0 <= j < i && #[trigger] chs[j],
        decreases n - i,
    {
        let d = rest.remove(0);
        assert(d == orig[i as int]);
        assert(body_of(orig[i as int]) is Some ==> ops_known(body_of(orig[i as int])->Some_0, t));
        let (d2, ch) = reassoc_decl(d, table);
        out.push(d2);
        proof {
            if any {
                let j = choose|j: int| 0 <= j < i && #[trigger] chs[j];
                assert(chs.push(ch)[j]);
            }
            assert forall|j: int| 0 <= j < i + 1 implies #[trigger] decl_step(orig[j], out@[j], chs.push(ch)[j], t) by {
                if j < i {
                    assert(decl_step(orig[j], out@[j], chs[j], t));
                }
            }
            chs = chs.push(ch);
            if ch {
                assert(chs[i as int]);
            }
        }
        any = any || ch;
        i += 1;
    }
    (out, any, Ghost(chs))
}

/// Mutable pass that reassociates the infix chains of a module by the
/// precedence of their operators.
pub struct ExprPrecReassoc;

impl ExprPrecReassoc {
    pub fn new() -> (r: Self) {
        ExprPrecReassoc
    }

    /// Runs rounds of reassociation until one rotates nothing. Tells
    /// whether anything was rotated; fails, leaving the module as it is,
    /// on an operator that has no precedence.
    pub fn run(&self, m: &mut Module) -> (r: Result<bool, UnknownPrecedense>)
        ensures
            r is Err <==> !decls_ops_known(old(m).decl@, infix_table(old(m).decl@)),
            r is Err ==> decls_have_unknown(
                old(m).decl@,
                infix_table(old(m).decl@),
                r->Err_0.ident@,
                Span { beg: r->Err_0.e_beg, end: r->Err_0.e_end },
            ) && *final(m) == *old(m),
            r is Ok ==> reassociated(old(m).decl@, final(m).decl@) && final(m).id == old(m).id,
            r is Ok && decls_ordered(old(m).decl@, infix_table(old(m).decl@)) ==> r->Ok_0 == false,
            r == Ok::<bool, UnknownPrecedense>(false) ==> final(m).decl@.len() == old(m).decl@.len()
                && forall|j: int| 0 <= j < old(m).decl@.len() ==> #[trigger] same_decl(old(m).decl@[j], final(m).decl@[j]),
    {
        let mut prec = InfixPrec::new();
        prec.visit_module(m);
        let table = prec.get();
        let ghost t = entries_view(table@);
        let n = m.decl.len();
        let mut i: usize = 0;
        while i < n
            invariant
                n == m.decl@.len(),
                i <= n,
                t == entries_view(table@),
                t == infix_table(m.decl@),
                *m == *old(m),
                forall|j: int| 0 <= j < i && (#[trigger] body_of(m.decl@[j])) is Some ==> ops_known(body_of(m.decl@[j])->Some_0, t),
            decreases n - i,
        {
            let found = match &m.decl[i].kind {
                TopLevelDeclKind::FunctionDef(f) => find_unknown(&f.body, &table),
                TopLevelDeclKind::InfixDef(x) => find_unknown(&x.body, &table),
                TopLevelDeclKind::FunctionDecl(_) => None,
            };
            if let Some(err) = found {
                proof {
                    assert(body_of(m.decl@[i as int]) is Some);
                }
                return Err(err);
            }
            i += 1;
        }
        let mut decls: Vec<TopLevelDecl> = Vec::new();
        std::mem::swap(&mut m.decl, &mut decls);
        let ghost orig = decls@;
        let mut any = false;
        loop
            invariant_except_break
                !any ==> decls@ == orig,
            invariant
                t == entries_view(table@),
                t == infix_table(orig),
                decls@.len() == orig.len(),
                forall|j: int| 0 <= j < orig.len() ==> #[trigger] body_rel(orig[j], decls@[j], t),
                decls_ops_known(decls@, t),
                decls_ordered(orig, t) ==> !any && decls_ordered(decls@, t),
                m.id == old(m).id,
            ensures
                decls@.len() == orig.len(),
                forall|j: int| 0 <= j < orig.len() ==> #[trigger] body_rel(orig[j], decls@[j], t),
                decls_ordered(decls@, t),
                decls_ordered(orig, t) ==> !any,
                !any ==> forall|j: int| 0 <= j < orig.len() ==> #[trigger] same_decl(orig[j], decls@[j]),
                m.id == old(m).id,
            decreases decls_weight(decls@),
        {
            let ghost before = decls@;
            let (next, ch, Ghost(chs)) = reassoc_decls(decls, &table);
            proof {
                assert forall|k: int| 0 <= k < before.len() implies (body_of(#[trigger] before[k]) is Some <==> body_of(next@[k]) is Some) by {
                    assert(decl_step(before[k], next@[k], chs[k], t));
                }
                assert forall|k: int| 0 <= k < before.len() && (#[trigger] body_of(before[k])) is Some implies reassoc_rel(body_of(before[k])->Some_0, body_of(next@[k])->Some_0, chs[k], t) by {
                    assert(decl_step(before[k], next@[k], chs[k], t));
                }
                assert forall|k: int| 0 <= k < before.len() && (#[trigger] body_of(before[k])) is None implies !chs[k] by {
                    assert(decl_step(before[k], next@[k], chs[k], t));
                }
                lemma_decls_weight(before, next@, chs, t);
                assert forall|j: int| 0 <= j < orig.len() implies #[trigger] body_rel(orig[j], next@[j], t) by {
                    assert(body_rel(orig[j], before[j], t));
                    assert(decl_step(before[j], next@[j], chs[j], t));
                    if body_of(orig[j]) is Some {
                        let (x, y, z) = (body_of(orig[j])->Some_0, body_of(before[j])->Some_0, body_of(next@[j])->Some_0);
                        assert forall|len: int| spans_nested(x, len) implies #[trigger] spans_nested(z, len) by {
                            assert(spans_nested(y, len));
                        }
                    }
                }
                assert forall|j: int| 0 <= j < next@.len() && (#[trigger] body_of(next@[j])) is Some implies ops_known(body_of(next@[j])->Some_0, t) by {
                    assert(decl_step(before[j], next@[j], chs[j], t));
                }
                if !ch {
                    assert forall|j: int| 0 <= j < next@.len() && (#[trigger] body_of(next@[j])) is Some implies ordered(body_of(next@[j])->Some_0, t) by {
                        assert(decl_step(before[j], next@[j], chs[j], t));
                        assert(!chs[j]);
                    }
                }
                if decls_ordered(orig, t) {
                    assert forall|k: int| 0 <= k < chs.len() implies !chs[k] by {
                        assert(decl_step(before[k], next@[k], chs[k], t));
                        if body_of(before[k]) is Some {
                            assert(ordered(body_of(before[k])->Some_0, t));
                        }
                    }
                    assert(!ch);
                    assert forall|j: int| 0 <= j < next@.len() && (#[trigger] body_of(next@[j])) is Some implies ordered(body_of(next@[j])->Some_0, t) by {
                        assert(decl_step(before[j], next@[j], chs[j], t));
                        assert(!chs[j]);
                    }
                }
            }
            proof {
                if !ch {
                    assert forall|k: int| 0 <= k < before.len() implies #[trigger] same_decl(before[k], next@[k]) by {
                        assert(decl_step(before[k], next@[k], chs[k], t));
                        assert(!chs[k]);
                    }
                }
            }
            decls = next;
            if !ch {
                break;
            }
            any = true;
        }
        m.decl = decls;
        proof {
            assert forall|j: int| 0 <= j < orig.len() implies #[trigger] same_but_body(orig[j], m.decl@[j]) by {
                assert(body_rel(orig[j], m.decl@[j], t));
            }
            lemma_table_kept(orig, m.decl@);
        }
        Ok(any)
    }
}

/// Reassociation is idempotent: what a successful run leaves needs no
/// rotation, so a second run over it rotates nothing.
pub proof fn lemma_reassociation_idempotent(before: Seq<TopLevelDecl>, after: Seq<TopLevelDecl>)
    requires
        reassociated(before, after),
    ensures
        decls_ordered(after, infix_table(after)),
        decls_ops_known(after, infix_table(after)),
{
    let t = infix_table(before);
    assert forall|i: int| 0 <= i < after.len() && (#[trigger] body_of(after[i])) is Some implies ops_known(body_of(after[i])->Some_0, t) by {
        assert(body_rel(before[i], after[i], t));
    }
}

} // verus!

verus! {

/// Reassociation keeps spans consistent: where a body's infix calls each
/// spanned from the start of their left operand to the end of their right
/// one, they still do after the rotations, and the body reads the same.
pub proof fn lemma_spans_survive(before: Seq<TopLevelDecl>, after: Seq<TopLevelDecl>, i: int, len: int)
    requires
        reassociated(before, after),
        0 <= i < before.len(),
        body_of(before[i]) is Some,
        spans_nested(body_of(before[i])->Some_0, len),
    ensures
        body_of(after[i]) is Some,
        spans_nested(body_of(after[i])->Some_0, len),
        atoms(body_of(after[i])->Some_0) == atoms(body_of(before[i])->Some_0),
{
    assert(body_rel(before[i], after[i], infix_table(before)));
}

} // verus!
