//! Recursive-descent parser over the lexer's token stream.
//!
//! Each top-level production commits once its leading keyword has been
//! consumed: a later mismatch is fatal. Before that, a failure only says
//! "not this production" and the caller tries the next alternative.
//! Infix chains are parsed leaning to the left, whatever the operators'
//! precedence, which is applied later by the reassociation pass.

use vstd::prelude::*;
use crate::ast::{
    lit_type_of, decl_exprs_ok, is_infix, is_lit_type, module_exprs_ok, left_flat, spans_nested, Expr, ExprKind, FuncArg, FuncAttr, FuncCall,
    FuncDecl, FuncDef, FuncType, Ident, InfixDef, InfixFuncCall, InfixOpCall, Lit, LitKind, LitType,
    Module, NodeId, Op, Paren, TopLevelDecl, TopLevelDeclKind, Type, TypeKind, AST,
};
use crate::errors::{ParserError, ParserErrorKind};
use crate::lexer::{
    decimal, lemma_scan_progress, lemma_trivia_end, next_token, scan, scan_end, token_at,
    trivia_end, LexingError, Lexer,
};
use crate::source::{Pointer, Span};
use crate::string::String as Source;
use crate::token::{Kind, Token, Value};

verus! {

pub enum ParseErr {
    /// The input ended where the production would have started.
    EOF,
    /// The lookahead token starts no such production.
    NotThisItem(Token),
    /// A committed production failed; the compilation unit is aborted.
    Fatal(ParserError),
}

pub type PRes<T> = Result<T, ParseErr>;

pub open spec fn is_soft<T>(r: PRes<T>) -> bool {
    r is Err && !(r->Err_0 is Fatal)
}

/// What the grammar reads of a token: its kind, its text for a name or an
/// operator, its value for an integer literal.
pub type Key = (Kind, Seq<char>, u64);

pub open spec fn key(t: Token) -> Key {
    (
        t.kind,
        if (t.kind == Kind::Identifier || t.kind == Kind::Operator || t.kind == Kind::InfixIdent)
            && t.value is String {
            t.value->String_0@
        } else {
            Seq::empty()
        },
        if t.kind == Kind::IntLiteral && t.value is Integer {
            t.value->Integer_0
        } else {
            0
        },
    )
}

/// Key of the token that starts at the significant character `s` of `raw`.
pub open spec fn key_at(raw: Seq<char>, s: int) -> Key {
    let (kind, end, text_start, _) = scan(raw, s);
    (
        kind,
        if kind == Kind::Identifier || kind == Kind::Operator || kind == Kind::InfixIdent {
            raw.subrange(text_start, end)
        } else {
            Seq::empty()
        },
        if kind == Kind::IntLiteral {
            decimal(raw.subrange(s, end)) as u64
        } else {
            0
        },
    )
}

/// The keys of all the tokens of `raw` from index `i` on.
pub open spec fn token_keys(raw: Seq<char>, i: int) -> Seq<Key>
    decreases raw.len() - i via token_keys_decreases
{
    if i < 0 || i > raw.len() {
        Seq::empty()
    } else {
        let s = trivia_end(raw, i, false);
        if s >= raw.len() {
            Seq::empty()
        } else {
            seq![key_at(raw, s)] + token_keys(raw, scan_end(raw, s))
        }
    }
}

#[via_fn]
proof fn token_keys_decreases(raw: Seq<char>, i: int) {
    if 0 <= i <= raw.len() {
        lemma_trivia_end(raw, i, false);
        let s = trivia_end(raw, i, false);
        if s < raw.len() {
            lemma_scan_progress(raw, s);
        }
    }
}

/// What is still to be read: the lookahead token and the tokens after it.
pub open spec fn pending(raw: Seq<char>, tok: Option<Token>, off: int) -> Seq<Key> {
    match tok {
        Some(t) => seq![key(t)] + token_keys(raw, off),
        None => Seq::empty(),
    }
}

/// Reading on from `i` leaves pending exactly the tokens of `raw` from `i`.
pub proof fn lemma_pending(raw: Seq<char>, i: int, tok: Option<Token>, off: int, errs: Seq<LexingError>)
    requires
        0 <= i <= raw.len(),
        next_token(raw, i, tok, off, errs),
    ensures
        pending(raw, tok, off) == token_keys(raw, i),
{
    lemma_trivia_end(raw, i, false);
    let s = trivia_end(raw, i, false);
    if s < raw.len() {
        let t = tok->Some_0;
        assert(token_at(raw, s, t));
        assert(key(t) == key_at(raw, s));
    }
}

/// Key of a token read for its kind alone.
pub open spec fn punct(k: Kind) -> Key {
    (k, Seq::empty(), 0)
}

pub open spec fn name_key(s: Seq<char>) -> Key {
    (Kind::Identifier, s, 0)
}

/// The tokens an expression is read from, in order.
pub open spec fn expr_keys(e: Expr) -> Seq<Key>
    decreases e,
{
    match e.kind {
        ExprKind::Literal(l) => match l.kind {
            LitKind::Int(v) => seq![(Kind::IntLiteral, Seq::<char>::empty(), v)],
        },
        ExprKind::Identifier(i) => seq![name_key(i.symbol@)],
        ExprKind::InfixOpCall(c) => expr_keys(*c.lhs) + seq![(Kind::Operator, c.op.symbol@, 0u64)]
            + expr_keys(*c.rhs),
        ExprKind::InfixFuncCall(c) => expr_keys(*c.lhs) + seq![
            (Kind::InfixIdent, c.ident.symbol@, 0u64),
        ] + expr_keys(*c.rhs),
        ExprKind::Parenthesed(p) => seq![punct(Kind::LeftParenthesis)] + expr_keys(*p.expr) + seq![
            punct(Kind::RightParenthesis),
        ],
        ExprKind::FunctionCall(c) => seq![punct(Kind::At)] + expr_keys(*c.lhs) + exprs_keys(
            c.args@,
        ),
    }
}

pub open spec fn exprs_keys(s: Seq<Expr>) -> Seq<Key>
    decreases s,
{
    if s.len() == 0 {
        Seq::empty()
    } else {
        exprs_keys(s.drop_last()) + expr_keys(s.last())
    }
}

pub open spec fn lit_type_name(l: LitType) -> Seq<char> {
    match l {
        LitType::Int => seq!['i', 'n', 't'],
        LitType::Void => seq!['v', 'o', 'i', 'd'],
    }
}

/// The tokens a type is read from.
pub open spec fn type_keys(t: Type) -> Seq<Key>
    decreases t,
{
    match t.kind {
        TypeKind::Literal(l) => seq![name_key(lit_type_name(l))],
        TypeKind::Function(f) => seq![punct(Kind::LeftParenthesis)] + types_keys(f.args@) + seq![
            punct(Kind::RightParenthesis),
        ] + type_keys(*f.ret),
    }
}

pub open spec fn types_keys(s: Seq<Type>) -> Seq<Key>
    decreases s,
{
    if s.len() == 0 {
        Seq::empty()
    } else {
        types_keys(s.drop_last()) + type_keys(s.last())
    }
}

pub open spec fn attrs_keys(s: Seq<FuncAttr>) -> Seq<Key> {
    s.map_values(|a: FuncAttr| name_key(a.ident.symbol@))
}

pub open spec fn args_keys(s: Seq<FuncArg>) -> Seq<Key> {
    s.map_values(|a: FuncArg| name_key(a.ident.symbol@))
}

/// The attribute list as written: in brackets, or left out when empty.
pub open spec fn attrs_written(attrs: Seq<FuncAttr>, ks: Seq<Key>) -> bool {
    ks == seq![punct(Kind::LeftBracket)] + attrs_keys(attrs) + seq![punct(Kind::RightBracket)] || (
    attrs.len() == 0 && ks.len() == 0)
}

/// `ks` are the tokens that the declaration `x` was read from.
pub open spec fn func_decl_read(x: FuncDecl, ks: Seq<Key>) -> bool {
    &&& x.ty is Some
    &&& x.ty->Some_0.kind is Function
    &&& {
        let f = x.ty->Some_0.kind->Function_0;
        let head = seq![punct(Kind::FuncDecl), name_key(x.ident.symbol@)] + types_keys(f.args@);
        let tail = seq![punct(Kind::Colon)] + type_keys(*f.ret);
        &&& ks.len() >= head.len() + tail.len()
        &&& ks.subrange(0, head.len() as int) == head
        &&& ks.subrange(ks.len() - tail.len(), ks.len() as int) == tail
        &&& attrs_written(x.attrs@, ks.subrange(head.len() as int, ks.len() - tail.len()))
    }
}

/// `ks` are the tokens that the definition `x` was read from.
pub open spec fn func_def_read(x: FuncDef, ks: Seq<Key>) -> bool {
    let head = seq![punct(Kind::FuncDef), name_key(x.decl.ident.symbol@)] + args_keys(x.args@);
    let tail = seq![punct(Kind::Colon)] + expr_keys(x.body);
    &&& x.decl.ty is None
    &&& ks.len() >= head.len() + tail.len()
    &&& ks.subrange(0, head.len() as int) == head
    &&& ks.subrange(ks.len() - tail.len(), ks.len() as int) == tail
    &&& attrs_written(x.decl.attrs@, ks.subrange(head.len() as int, ks.len() - tail.len()))
}

/// `ks` are the tokens that the infix definition `x` was read from; its
/// precedence is the value of the integer literal.
pub open spec fn infix_def_read(x: InfixDef, ks: Seq<Key>) -> bool {
    &&& ks.len() == 6 + expr_keys(x.body).len()
    &&& ks[0] == punct(Kind::InfixDef)
    &&& ks[1].0 == Kind::IntLiteral
    &&& ks[1].1 == Seq::<char>::empty()
    &&& x.precedence == ks[1].2 as usize
    &&& ks[2] == (Kind::Operator, x.op.symbol@, 0u64)
    &&& ks[3] == name_key(x.args.0.ident.symbol@)
    &&& ks[4] == name_key(x.args.1.ident.symbol@)
    &&& ks[5] == punct(Kind::Colon)
    &&& ks.subrange(6, ks.len() as int) == expr_keys(x.body)
}

/// `ks` are the tokens that the top-level declaration `d` was read from.
pub open spec fn decl_read(d: TopLevelDecl, ks: Seq<Key>) -> bool {
    match d.kind {
        TopLevelDeclKind::FunctionDecl(x) => func_decl_read(x, ks),
        TopLevelDeclKind::FunctionDef(x) => func_def_read(x, ks),
        TopLevelDeclKind::InfixDef(x) => infix_def_read(x, ks),
    }
}

pub open spec fn flatten(chunks: Seq<Seq<Key>>) -> Seq<Key>
    decreases chunks.len(),
{
    if chunks.len() == 0 {
        Seq::empty()
    } else {
        flatten(chunks.drop_last()) + chunks.last()
    }
}

/// End of the primary expression that starts at token `i` of `ks`: a name,
/// an integer literal, or an expression in parentheses.
pub open spec fn p_primary(ks: Seq<Key>, i: int) -> Option<int>
    decreases ks.len() - i, 0int,
{
    if i < 0 || i >= ks.len() {
        None
    } else if ks[i].0 == Kind::Identifier || ks[i].0 == Kind::IntLiteral {
        Some(i + 1)
    } else if ks[i].0 == Kind::LeftParenthesis {
        match p_expr(ks, i + 1) {
            Some(j) => if i < j < ks.len() && ks[j].0 == Kind::RightParenthesis {
                Some(j + 1)
            } else {
                None
            },
            None => None,
        }
    } else {
        None
    }
}

/// End of the arguments of a call that start at token `i`: as many primary
/// expressions as follow.
pub open spec fn p_args(ks: Seq<Key>, i: int) -> Option<int>
    decreases ks.len() - i, 1int,
{
    if i < 0 || i > ks.len() {
        None
    } else if i < ks.len() && starts_operand(ks[i].0) {
        match p_primary(ks, i) {
            Some(j) => if i < j <= ks.len() { p_args(ks, j) } else { None },
            None => None,
        }
    } else {
        Some(i)
    }
}

/// End of the call expression that starts at token `i`: `@`, the callee
/// and its arguments, or a primary expression.
pub open spec fn p_call(ks: Seq<Key>, i: int) -> Option<int>
    decreases ks.len() - i, 2int,
{
    if i < 0 || i >= ks.len() {
        None
    } else if ks[i].0 == Kind::At {
        match p_primary(ks, i + 1) {
            Some(j) => if i < j <= ks.len() { p_args(ks, j) } else { None },
            None => None,
        }
    } else {
        p_primary(ks, i)
    }
}

/// End of the rest of an infix chain from token `i`: pairs of an operator
/// or backticked name and a call expression, as many as follow.
pub open spec fn p_chain(ks: Seq<Key>, i: int) -> Option<int>
    decreases ks.len() - i, 2int,
{
    if i < 0 || i > ks.len() {
        None
    } else if i < ks.len() && (ks[i].0 == Kind::Operator || ks[i].0 == Kind::InfixIdent) {
        match p_call(ks, i + 1) {
            Some(j) => if i < j <= ks.len() { p_chain(ks, j) } else { None },
            None => None,
        }
    } else {
        Some(i)
    }
}

/// End of the expression that starts at token `i` of `ks`, where the
/// grammar reads one there without a diagnostic.
pub open spec fn p_expr(ks: Seq<Key>, i: int) -> Option<int>
    decreases ks.len() - i, 3int,
{
    if i < 0 || i >= ks.len() {
        None
    } else {
        match p_call(ks, i) {
            Some(j) => if i < j <= ks.len() { p_chain(ks, j) } else { None },
            None => None,
        }
    }
}

/// The token names a literal type.
pub open spec fn lit_type_key(k: Key) -> bool {
    k.0 == Kind::Identifier && lit_type_of(k.1) is Some
}

/// The token can start a type.
pub open spec fn starts_type(k: Key) -> bool {
    lit_type_key(k) || k.0 == Kind::LeftParenthesis
}

/// End of the type that starts at token `i`.
pub open spec fn p_type(ks: Seq<Key>, i: int) -> Option<int>
    decreases ks.len() - i, 0int,
{
    if i < 0 || i >= ks.len() {
        None
    } else if lit_type_key(ks[i]) {
        Some(i + 1)
    } else if ks[i].0 == Kind::LeftParenthesis {
        match p_types(ks, i + 1, false) {
            Some(j) => if i < j < ks.len() && ks[j].0 == Kind::RightParenthesis {
                p_type(ks, j + 1)
            } else {
                None
            },
            None => None,
        }
    } else {
        None
    }
}

/// End of the types that follow from token `i`, as many as there are;
/// with `no_void`, none of them may be `void` itself.
pub open spec fn p_types(ks: Seq<Key>, i: int, no_void: bool) -> Option<int>
    decreases ks.len() - i, 1int,
{
    if i < 0 || i > ks.len() {
        None
    } else if i < ks.len() && starts_type(ks[i]) {
        if no_void && ks[i] == name_key(lit_type_name(LitType::Void)) {
            None
        } else {
            match p_type(ks, i) {
                Some(j) => if i < j <= ks.len() { p_types(ks, j, no_void) } else { None },
                None => None,
            }
        }
    } else {
        Some(i)
    }
}

/// End of the names that follow from token `i`.
pub open spec fn p_names(ks: Seq<Key>, i: int) -> int
    decreases ks.len() - i,
{
    if 0 <= i < ks.len() && ks[i].0 == Kind::Identifier {
        p_names(ks, i + 1)
    } else {
        i
    }
}

/// End of an attribute list in brackets at token `i`, or `i` where none is.
pub open spec fn p_attrs(ks: Seq<Key>, i: int) -> Option<int> {
    if 0 <= i < ks.len() && ks[i].0 == Kind::LeftBracket {
        let j = p_names(ks, i + 1);
        if j < ks.len() && ks[j].0 == Kind::RightBracket { Some(j + 1) } else { None }
    } else {
        Some(i)
    }
}

pub open spec fn kind_at(ks: Seq<Key>, i: int, k: Kind) -> bool {
    0 <= i < ks.len() && ks[i].0 == k
}

/// End of `decl <name> <type>* [attrs]: <type>` at token `i`.
pub open spec fn p_func_decl(ks: Seq<Key>, i: int) -> Option<int> {
    if kind_at(ks, i, Kind::FuncDecl) && kind_at(ks, i + 1, Kind::Identifier) {
        match p_types(ks, i + 2, true) {
            Some(a) => match p_attrs(ks, a) {
                Some(b) => if kind_at(ks, b, Kind::Colon) { p_type(ks, b + 1) } else { None },
                None => None,
            },
            None => None,
        }
    } else {
        None
    }
}

/// End of `def <name> <arg>* [attrs]: <body>` at token `i`.
pub open spec fn p_func_def(ks: Seq<Key>, i: int) -> Option<int> {
    if kind_at(ks, i, Kind::FuncDef) && kind_at(ks, i + 1, Kind::Identifier) {
        match p_attrs(ks, p_names(ks, i + 2)) {
            Some(b) => if kind_at(ks, b, Kind::Colon) { p_expr(ks, b + 1) } else { None },
            None => None,
        }
    } else {
        None
    }
}

/// End of `infix <precedence> <operator> <arg> <arg>: <body>` at token `i`.
pub open spec fn p_infix_def(ks: Seq<Key>, i: int) -> Option<int> {
    if kind_at(ks, i, Kind::InfixDef) && kind_at(ks, i + 1, Kind::IntLiteral) && kind_at(
        ks,
        i + 2,
        Kind::Operator,
    ) && kind_at(ks, i + 3, Kind::Identifier) && kind_at(ks, i + 4, Kind::Identifier) && kind_at(
        ks,
        i + 5,
        Kind::Colon,
    ) {
        p_expr(ks, i + 6)
    } else {
        None
    }
}

pub open spec fn p_top(ks: Seq<Key>, i: int) -> Option<int> {
    if kind_at(ks, i, Kind::FuncDecl) {
        p_func_decl(ks, i)
    } else if kind_at(ks, i, Kind::FuncDef) {
        p_func_def(ks, i)
    } else {
        p_infix_def(ks, i)
    }
}

pub open spec fn starts_top(ks: Seq<Key>, i: int) -> bool {
    kind_at(ks, i, Kind::FuncDecl) || kind_at(ks, i, Kind::FuncDef) || kind_at(ks, i, Kind::InfixDef)
}

/// The tokens from `i` on are top-level declarations, one after the other,
/// each read without a diagnostic.
pub open spec fn p_module(ks: Seq<Key>, i: int) -> bool
    decreases ks.len() - i,
{
    if i < 0 || i > ks.len() {
        false
    } else if i == ks.len() {
        true
    } else if starts_top(ks, i) {
        match p_top(ks, i) {
            Some(j) => i < j <= ks.len() && p_module(ks, j),
            None => false,
        }
    } else {
        false
    }
}

/// A kind of token that can start an expression operand.
pub open spec fn starts_operand(k: Kind) -> bool {
    k == Kind::Identifier || k == Kind::IntLiteral || k == Kind::LeftParenthesis
}

pub struct Parser {
    lexer: Lexer,
    node_id: NodeId,
    errors: Vec<ParserError>,
    /// End of the last token consumed.
    last_end: Pointer,
    /// The tokens consumed so far.
    log: Ghost<Seq<Key>>,
    /// The tokens of each top-level declaration read so far.
    chunks: Ghost<Seq<Seq<Key>>>,
}

impl Parser {
    pub closed spec fn wf(&self) -> bool {
        &&& self.lexer.wf()
        &&& self.lexer.lookahead_ok()
        &&& self.last_end.index <= self.lexer.offset()
        &&& (self.lexer.token() is Some ==> self.last_end.index
            <= self.lexer.token()->Some_0.span.beg.index)
        &&& self.log@ + pending(self.lexer.text(), self.lexer.token(), self.lexer.offset())
            == token_keys(self.lexer.text(), 0)
    }

    /// The text being parsed.
    pub closed spec fn text(&self) -> Seq<char> {
        self.lexer.text()
    }

    /// Length of the text being parsed.
    pub closed spec fn len(&self) -> int {
        self.lexer.text().len() as int
    }

    pub closed spec fn remaining(&self) -> nat {
        self.lexer.remaining()
    }

    /// Where the lookahead token starts, or the end of what was read.
    pub closed spec fn peek_index(&self) -> int {
        if self.lexer.token() is Some {
            self.lexer.token()->Some_0.span.beg.index as int
        } else {
            self.lexer.offset()
        }
    }

    /// What was read of the tokens consumed so far.
    pub closed spec fn read(&self) -> Seq<Key> {
        self.log@
    }

    /// What was read of each top-level declaration.
    pub closed spec fn decl_chunks(&self) -> Seq<Seq<Key>> {
        self.chunks@
    }

    /// Number of diagnostics recorded.
    pub closed spec fn n_errors(&self) -> int {
        self.errors@.len() as int
    }

    /// The diagnostics recorded.
    pub closed spec fn diagnostics(&self) -> Seq<ParserError> {
        self.errors@
    }

    /// The lookahead token.
    pub closed spec fn la(&self) -> Option<Token> {
        self.lexer.token()
    }

    /// Kind of the lookahead token.
    pub open spec fn la_kind(&self) -> Option<Kind> {
        match self.la() {
            Some(t) => Some(t.kind),
            None => None,
        }
    }

    pub closed spec fn consumed(&self) -> int {
        self.last_end.index as int
    }

    /// End of the last token consumed.
    pub closed spec fn end_ptr(&self) -> Pointer {
        self.last_end
    }

    /// `new` is `old` after reading on, without going back.
    pub closed spec fn advanced(old: Parser, new: Parser) -> bool {
        &&& new.wf()
        &&& new.lexer.text() == old.lexer.text()
        &&& new.remaining() <= old.remaining()
        &&& old.last_end.index <= new.last_end.index
        &&& old.errors@.len() <= new.errors@.len()
        &&& old.node_id <= new.node_id
    }

    /// Every token of the text.
    pub open spec fn all(&self) -> Seq<Key> {
        token_keys(self.text(), 0)
    }

    /// How many tokens have been consumed.
    pub open spec fn pos(&self) -> int {
        self.read().len() as int
    }

    /// The node ids have run out.
    pub closed spec fn exhausted(&self) -> bool {
        self.node_id == usize::MAX
    }

    /// The next token to read is of kind `k`.
    pub open spec fn at_kind(p: Parser, k: Kind) -> bool {
        p.pos() < p.all().len() && p.all()[p.pos()].0 == k
    }

    /// The call went through, consuming the tokens up to `j` without a
    /// diagnostic, unless the node ids ran out.
    pub open spec fn succeeds<T>(old: Parser, new: Parser, r: PRes<T>, j: int) -> bool {
        new.exhausted() || (r is Ok && new.n_errors() == old.n_errors() && new.pos() == j)
    }

    /// What was read is the start of the text's tokens.
    pub proof fn lemma_read_prefix(&self)
        requires
            self.wf(),
        ensures
            self.read() == self.all().subrange(0, self.pos()),
    {
        let pend = pending(self.lexer.text(), self.lexer.token(), self.lexer.offset());
        assert(self.log@ + pend == self.all());
        assert(self.all().subrange(0, self.pos()) =~= self.log@);
    }

    proof fn lemma_la(&self)
        requires
            self.wf(),
        ensures
            self.pos() <= self.all().len(),
            self.la() is Some <==> self.pos() < self.all().len(),
            self.la() is Some ==> self.all()[self.pos()] == key(self.la()->Some_0),
    {
        let pend = pending(self.lexer.text(), self.lexer.token(), self.lexer.offset());
        assert(self.log@ + pend == self.all());
        if self.la() is Some {
            assert(self.all()[self.pos()] == pend[0]);
        }
    }

    /// `new` is `old` after reading at least one more token.
    pub closed spec fn stepped(old: Parser, new: Parser) -> bool {
        &&& Self::advanced(old, new)
        &&& new.remaining() < old.remaining()
        &&& old.peek_index() < new.last_end.index
    }

    /// Where no diagnostic was recorded between `old` and `new`, the tokens
    /// consumed in between are `ks`.
    pub open spec fn reads(old: Parser, new: Parser, ks: Seq<Key>) -> bool {
        new.n_errors() == old.n_errors() ==> new.read() == old.read() + ks
    }

    /// The tokens consumed between `old` and `new`, when no diagnostic was
    /// recorded in between.
    pub open spec fn clean_since(old: Parser, new: Parser) -> Seq<Key> {
        new.read().subrange(old.read().len() as int, new.read().len() as int)
    }

    /// No diagnostic was recorded between `old` and `new`, and what was read
    /// in between extends what was read before.
    pub open spec fn clean(old: Parser, new: Parser) -> bool {
        &&& new.n_errors() == old.n_errors()
        &&& new.read().len() >= old.read().len()
        &&& new.read().subrange(0, old.read().len() as int) == old.read()
    }

    /// With no diagnostic recorded, `m` was read from all the remaining
    /// tokens: one chunk of them per top-level declaration, in order.
    pub open spec fn module_read(old: Parser, new: Parser, m: Module) -> bool {
        &&& new.la() is None
        &&& new.read() == old.read() + flatten(new.decl_chunks())
        &&& new.read() == token_keys(new.text(), 0)
        &&& new.decl_chunks().len() == m.decl@.len()
        &&& forall|i: int| 0 <= i < m.decl@.len() ==> decl_read(#[trigger] m.decl@[i], new.decl_chunks()[i])
    }

    /// The lookahead token cannot start an operand or a call.
    pub open spec fn no_operand(p: Parser) -> bool {
        p.la_kind() is None || !(starts_operand(p.la_kind()->Some_0) || p.la_kind() == Some(Kind::At))
    }

    /// `e` was parsed between `old` and `new`, and is well formed.
    pub open spec fn expr_ok(old: Parser, new: Parser, e: Expr) -> bool {
        &&& spans_nested(e, new.len())
        &&& left_flat(e)
        &&& old.peek_index() <= e.span.beg.index
        &&& e.span.end.index <= new.consumed()
    }

    proof fn lemma_wf(&self)
        requires
            self.wf(),
        ensures
            self.consumed() <= self.peek_index() <= self.len(),
            0 <= self.consumed(),
    {
        self.lexer.lemma_wf();
    }

    pub fn new(src: Source) -> (p: Self)
        requires
            src.wf(),
            src.offset() == 0,
        ensures
            p.wf(),
            p.len() == src.text().len(),
            p.read().len() == 0,
            p.n_errors() == 0,
            p.text() == src.text(),
    {
        let start = src.curr_ptr();
        proof {
            src.lemma_wf();
        }
        let lexer = Lexer::new(src);
        proof {
            lemma_pending(lexer.text(), 0, lexer.token(), lexer.offset(), lexer.diagnostics());
            assert(Seq::<Key>::empty() + pending(lexer.text(), lexer.token(), lexer.offset()) =~= pending(lexer.text(), lexer.token(), lexer.offset()));
        }
        Parser {
            lexer,
            node_id: 0,
            errors: Vec::new(),
            last_end: start,
            log: Ghost(Seq::empty()),
            chunks: Ghost(Seq::empty()),
        }
    }

    /// Diagnostics recorded so far, lexical ones not included.
    pub fn errors(&self) -> (r: &Vec<ParserError>)
        ensures
            r@ == self.diagnostics(),
            r@.len() == self.n_errors(),
    {
        &self.errors
    }

    /// Hands over the diagnostics recorded so far, keeping none.
    pub fn take_errors(&mut self) -> (r: Vec<ParserError>)
        requires
            old(self).wf(),
        ensures
            final(self).wf(),
            final(self).len() == old(self).len(),
            r@ == old(self).diagnostics(),
            r@.len() == old(self).n_errors(),
            final(self).n_errors() == 0,
            final(self).read() == old(self).read(),
    {
        let mut taken: Vec<ParserError> = Vec::new();
        std::mem::swap(&mut self.errors, &mut taken);
        taken
    }

    /// The lexer, which holds the source and the lexical diagnostics.
    pub fn lexer(&self) -> (r: &Lexer)
        requires
            self.wf(),
        ensures
            r.wf(),
            r.text().len() == self.len(),
    {
        &self.lexer
    }

    pub fn next_node_id(&mut self) -> (r: PRes<NodeId>)
        requires
            old(self).wf(),
        ensures
            Self::advanced(*old(self), *final(self)),
            final(self).peek_index() == old(self).peek_index(),
            final(self).end_ptr() == old(self).end_ptr(),
            final(self).read() == old(self).read(),
            final(self).n_errors() == old(self).n_errors(),
            final(self).la() == old(self).la(),
            r is Ok || r->Err_0 is Fatal,
            r is Err ==> final(self).exhausted(),
    {
        if self.node_id == usize::MAX {
            let p = self.curr_ptr();
            return Err(ParseErr::Fatal(Self::msg_err("Too many syntax nodes", p, p)));
        }
        let tmp = self.node_id;
        self.node_id = self.node_id + 1;
        Ok(tmp)
    }

    /// The end of what the lexer has read.
    fn curr_ptr(&self) -> (p: Pointer)
        requires
            self.wf(),
    {
        self.lexer.curr_ptr()
    }

    /// Start of the lookahead token, or the end of what was read.
    fn peek_ptr(&self) -> (p: Pointer)
        requires
            self.wf(),
        ensures
            p.index == self.peek_index(),
    {
        match self.lexer.curr() {
            Some(t) => t.span.beg,
            None => self.lexer.curr_ptr(),
        }
    }

    /// Records a recoverable diagnostic.
    fn err(&mut self, e: ParserError)
        requires
            old(self).wf(),
        ensures
            Self::advanced(*old(self), *final(self)),
            final(self).peek_index() == old(self).peek_index(),
            final(self).last_end == old(self).last_end,
            final(self).read() == old(self).read(),
            final(self).n_errors() == old(self).n_errors() + 1,
    {
        self.errors.push(e);
    }

    fn msg_err(msg: &str, beg: Pointer, end: Pointer) -> (e: ParserError)
        ensures
            e.msg@ == msg@,
            e.kind == ParserErrorKind::Msg(Span { beg, end }),
    {
        ParserError { msg: msg.to_owned(), kind: ParserErrorKind::Msg(Span { beg, end }) }
    }

    fn unexpected_token_err(kind: Kind, value: Value, actual: Token, msg: &str) -> (e: ParserError)
        ensures
            e.msg@ == msg@,
            e.kind is UnexpectedToken,
    {
        let expected = Token { kind, value, span: actual.span };
        ParserError {
            msg: msg.to_owned(),
            kind: ParserErrorKind::UnexpectedToken { expected, actual },
        }
    }

    fn eof_reached_fatal(beg: Pointer, end: Pointer) -> (e: ParseErr)
        ensures
            e is Fatal,
    {
        ParseErr::Fatal(Self::msg_err("End of file reached", beg, end))
    }

    /// Consumes the lookahead token if it is of kind `kind`.
    fn parse_token(&mut self, kind: Kind) -> (r: PRes<Token>)
        requires
            old(self).wf(),
        ensures
            Self::at_kind(*old(self), kind) ==> r is Ok,
            r is Ok ==> final(self).pos() == old(self).pos() + 1,
            Self::advanced(*old(self), *final(self)),
            is_soft(r) ==> *final(self) == *old(self),
            r is Ok ==> Self::stepped(*old(self), *final(self)),
            r is Ok ==> r->Ok_0.kind == kind,
            r is Ok ==> old(self).peek_index() == r->Ok_0.span.beg.index,
            r is Ok ==> final(self).last_end == r->Ok_0.span.end,
            r is Ok ==> r->Ok_0.span.beg.index < r->Ok_0.span.end.index,
            r is Ok ==> old(self).la() == Some(r->Ok_0),
            r is Ok ==> final(self).read() == old(self).read().push(key(r->Ok_0)),
            r is Ok ==> final(self).n_errors() == old(self).n_errors(),
            is_soft(r) ==> old(self).la_kind() != Some(kind),
            !(r is Err && r->Err_0 is Fatal),
    {
        proof {
            self.lemma_la();
        }
        match self.lexer.curr() {
            Some(tok) => {
                if tok.kind == kind {
                    let ghost raw = self.lexer.text();
                    let ghost off = self.lexer.offset();
                    let ghost prev_log = self.log@;
                    proof {
                        self.lexer.lemma_wf();
                    }
                    self.log = Ghost(self.log@.push(key(tok)));
                    self.last_end = tok.span.end;
                    self.lexer.next();
                    proof {
                        lemma_pending(raw, off, self.lexer.token(), self.lexer.offset(), self.lexer.diagnostics().subrange(
                            old(self).lexer.diagnostics().len() as int,
                            self.lexer.diagnostics().len() as int,
                        ));
                        assert(self.log@ + pending(raw, self.lexer.token(), self.lexer.offset()) =~= prev_log + pending(raw, old(self).lexer.token(), off));
                    }
                    Ok(tok)
                } else {
                    Err(ParseErr::NotThisItem(tok))
                }
            },
            None => Err(ParseErr::EOF),
        }
    }

    /// Consumes a token of one of two kinds.
    fn one_of_tok(&mut self, first: Kind, second: Kind) -> (r: PRes<Token>)
        requires
            old(self).wf(),
        ensures
            r is Ok ==> old(self).la() == Some(r->Ok_0),
            Self::at_kind(*old(self), first) || Self::at_kind(*old(self), second) ==> r is Ok,
            r is Ok ==> final(self).pos() == old(self).pos() + 1,
            Self::advanced(*old(self), *final(self)),
            is_soft(r) ==> *final(self) == *old(self),
            r is Ok ==> Self::stepped(*old(self), *final(self)),
            r is Ok ==> (r->Ok_0.kind == first || r->Ok_0.kind == second),
            r is Ok ==> final(self).last_end == r->Ok_0.span.end,
            r is Ok ==> final(self).read() == old(self).read().push(key(r->Ok_0)),
            r is Ok ==> final(self).n_errors() == old(self).n_errors(),
            is_soft(r) ==> old(self).la_kind() != Some(first) && old(self).la_kind() != Some(second),
            !(r is Err && r->Err_0 is Fatal),
    {
        let r = self.parse_token(first);
        if r.is_ok() {
            return r;
        }
        self.parse_token(second)
    }

    /// Turns "not this production" into a fatal error with message `msg`.
    fn fail_msg<T>(&self, r: PRes<T>, msg: &str) -> (out: PRes<T>)
        requires
            self.wf(),
        ensures
            r is Ok ==> out == r,
            r is Err ==> out is Err && out->Err_0 is Fatal,
    {
        match r {
            Ok(v) => Ok(v),
            Err(ParseErr::Fatal(e)) => Err(ParseErr::Fatal(e)),
            Err(ParseErr::NotThisItem(tok)) => Err(
                ParseErr::Fatal(Self::msg_err(msg, tok.span.beg, tok.span.end)),
            ),
            Err(ParseErr::EOF) => {
                let p = self.curr_ptr();
                Err(Self::eof_reached_fatal(p, p))
            },
        }
    }

    /// Turns "not this production" into a fatal unexpected-token error.
    fn fail_unex_tok<T>(&self, r: PRes<T>, kind: Kind, value: Value, msg: &str) -> (out: PRes<T>)
        requires
            self.wf(),
        ensures
            r is Ok ==> out == r,
            r is Err ==> out is Err && out->Err_0 is Fatal,
    {
        match r {
            Ok(v) => Ok(v),
            Err(ParseErr::Fatal(e)) => Err(ParseErr::Fatal(e)),
            Err(ParseErr::NotThisItem(tok)) => Err(
                ParseErr::Fatal(Self::unexpected_token_err(kind, value, tok, msg)),
            ),
            Err(ParseErr::EOF) => {
                let p = self.curr_ptr();
                Err(Self::eof_reached_fatal(p, p))
            },
        }
    }

    /// Consumes a token of kind `kind`; where another one stands, records
    /// an error and goes on as if it had been there. The end of input is
    /// fatal.
    fn try_parse_token_rec(&mut self, kind: Kind, msg: &str, val: Value) -> (r: PRes<()>)
        requires
            old(self).wf(),
            kind == Kind::Colon || kind == Kind::RightParenthesis || kind == Kind::RightBracket,
        ensures
            Self::at_kind(*old(self), kind) ==> r is Ok && final(self).n_errors() == old(self).n_errors() && final(self).pos() == old(self).pos() + 1,
            Self::advanced(*old(self), *final(self)),
            r is Ok && final(self).n_errors() == old(self).n_errors() ==> final(self).read()
                == old(self).read().push(punct(kind)),
            r is Err ==> r->Err_0 is Fatal,
    {
        let beg = self.peek_ptr();
        match self.parse_token(kind) {
            Ok(_) => Ok(()),
            Err(ParseErr::NotThisItem(tok)) => {
                self.err(Self::unexpected_token_err(kind, val, tok, msg));
                Ok(())
            },
            Err(_) => {
                let end = self.curr_ptr();
                Err(Self::eof_reached_fatal(beg, end))
            },
        }
    }

    fn parse_ident(&mut self) -> (r: PRes<Ident>)
        requires
            old(self).wf(),
        ensures
            Self::at_kind(*old(self), Kind::Identifier) ==> Self::succeeds(*old(self), *final(self), r, old(self).pos() + 1),
            !is_soft(r) ==> old(self).la_kind() == Some(Kind::Identifier),
            r is Ok ==> final(self).read() == old(self).read().push(name_key(r->Ok_0.symbol@)),
            r is Ok ==> final(self).n_errors() == old(self).n_errors(),
            r is Ok ==> old(self).la() is Some && key(old(self).la()->Some_0) == name_key(r->Ok_0.symbol@),
            is_soft(r) ==> old(self).la_kind() != Some(Kind::Identifier),
            Self::advanced(*old(self), *final(self)),
            is_soft(r) ==> *final(self) == *old(self),
            r is Ok ==> Self::stepped(*old(self), *final(self)),
            r is Ok ==> old(self).peek_index() == r->Ok_0.span.beg.index,
            r is Ok ==> r->Ok_0.span.beg.index < r->Ok_0.span.end.index,
            r is Ok ==> final(self).last_end == r->Ok_0.span.end,
    {
        let tok = self.parse_token(Kind::Identifier)?;
        let id = self.next_node_id()?;
        let symbol = match tok.value {
            Value::String(s) => s,
            _ => std::string::String::new(),
        };
        Ok(Ident { id, symbol, span: tok.span })
    }

    fn try_parse_ident_fail(&mut self, msg: &str) -> (r: PRes<Ident>)
        requires
            old(self).wf(),
        ensures
            Self::at_kind(*old(self), Kind::Identifier) ==> Self::succeeds(*old(self), *final(self), r, old(self).pos() + 1),
            r is Ok ==> final(self).read() == old(self).read().push(name_key(r->Ok_0.symbol@)),
            r is Ok ==> final(self).n_errors() == old(self).n_errors(),
            Self::advanced(*old(self), *final(self)),
            r is Err ==> r->Err_0 is Fatal,
    {
        let r = self.parse_ident();
        self.fail_unex_tok(r, Kind::Identifier, Value::Nothing, msg)
    }

    fn parse_op(&mut self) -> (r: PRes<Op>)
        requires
            old(self).wf(),
        ensures
            Self::at_kind(*old(self), Kind::Operator) ==> Self::succeeds(*old(self), *final(self), r, old(self).pos() + 1),
            !is_soft(r) ==> old(self).la_kind() == Some(Kind::Operator),
            r is Ok ==> final(self).read() == old(self).read().push(
                (Kind::Operator, r->Ok_0.symbol@, 0u64),
            ),
            r is Ok ==> final(self).n_errors() == old(self).n_errors(),
            Self::advanced(*old(self), *final(self)),
            is_soft(r) ==> *final(self) == *old(self),
    {
        let tok = self.parse_token(Kind::Operator)?;
        let id = self.next_node_id()?;
        let symbol = match tok.value {
            Value::String(s) => s,
            _ => std::string::String::new(),
        };
        Ok(Op { id, symbol, span: tok.span })
    }

    fn parse_int_lit(&mut self) -> (r: PRes<Lit>)
        requires
            old(self).wf(),
        ensures
            Self::at_kind(*old(self), Kind::IntLiteral) ==> Self::succeeds(*old(self), *final(self), r, old(self).pos() + 1),
            !is_soft(r) ==> old(self).la_kind() == Some(Kind::IntLiteral),
            r is Ok ==> final(self).read() == old(self).read().push(
                (Kind::IntLiteral, Seq::<char>::empty(), r->Ok_0.kind->Int_0),
            ),
            r is Ok ==> final(self).n_errors() == old(self).n_errors(),
            is_soft(r) ==> old(self).la_kind() != Some(Kind::IntLiteral),
            Self::advanced(*old(self), *final(self)),
            is_soft(r) ==> *final(self) == *old(self),
            r is Ok ==> Self::stepped(*old(self), *final(self)),
            r is Ok ==> old(self).peek_index() == r->Ok_0.span.beg.index,
            r is Ok ==> r->Ok_0.span.beg.index < r->Ok_0.span.end.index,
            r is Ok ==> final(self).last_end == r->Ok_0.span.end,
    {
        let tok = self.parse_token(Kind::IntLiteral)?;
        let id = self.next_node_id()?;
        let v = match tok.value {
            Value::Integer(v) => v,
            _ => 0,
        };
        Ok(Lit { id, kind: LitKind::Int(v), span: tok.span })
    }

    fn parse_lit(&mut self) -> (r: PRes<Lit>)
        requires
            old(self).wf(),
        ensures
            Self::at_kind(*old(self), Kind::IntLiteral) ==> Self::succeeds(*old(self), *final(self), r, old(self).pos() + 1),
            !is_soft(r) ==> old(self).la_kind() == Some(Kind::IntLiteral),
            r is Ok ==> final(self).read() == old(self).read().push(
                (Kind::IntLiteral, Seq::<char>::empty(), r->Ok_0.kind->Int_0),
            ),
            r is Ok ==> final(self).n_errors() == old(self).n_errors(),
            is_soft(r) ==> old(self).la_kind() != Some(Kind::IntLiteral),
            Self::advanced(*old(self), *final(self)),
            is_soft(r) ==> *final(self) == *old(self),
            r is Ok ==> Self::stepped(*old(self), *final(self)),
            r is Ok ==> old(self).peek_index() == r->Ok_0.span.beg.index,
            r is Ok ==> r->Ok_0.span.beg.index < r->Ok_0.span.end.index,
            r is Ok ==> final(self).last_end == r->Ok_0.span.end,
    {
        self.parse_int_lit()
    }
}


impl Parser {
    pub fn parse_expr(&mut self) -> (r: PRes<Expr>)
        requires
            old(self).wf(),
        ensures
            p_expr(old(self).all(), old(self).pos()) is Some ==> Self::succeeds(*old(self), *final(self), r, p_expr(old(self).all(), old(self).pos())->Some_0),
            r is Ok ==> r->Ok_0.span.beg.index == old(self).peek_index(),
            !is_soft(r) ==> !Self::no_operand(*old(self)),
            r is Ok ==> Self::reads(*old(self), *final(self), expr_keys(r->Ok_0)),
            is_soft(r) ==> Self::no_operand(*old(self)),
            Self::advanced(*old(self), *final(self)),
            r is Ok ==> Self::stepped(*old(self), *final(self)),
            r is Ok ==> Self::expr_ok(*old(self), *final(self), r->Ok_0),
        decreases old(self).remaining(), 5nat,
    {
        self.parse_infix_expr()
    }

    /// A chain of calls joined by operators or backticked names, leaning
    /// to the left.
    fn parse_infix_expr(&mut self) -> (r: PRes<Expr>)
        requires
            old(self).wf(),
        ensures
            p_expr(old(self).all(), old(self).pos()) is Some ==> Self::succeeds(*old(self), *final(self), r, p_expr(old(self).all(), old(self).pos())->Some_0),
            r is Ok ==> r->Ok_0.span.beg.index == old(self).peek_index(),
            !is_soft(r) ==> !Self::no_operand(*old(self)),
            r is Ok ==> Self::reads(*old(self), *final(self), expr_keys(r->Ok_0)),
            is_soft(r) ==> Self::no_operand(*old(self)),
            Self::advanced(*old(self), *final(self)),
            r is Ok ==> Self::stepped(*old(self), *final(self)),
            r is Ok ==> Self::expr_ok(*old(self), *final(self), r->Ok_0),
        decreases old(self).remaining(), 4nat,
    {
        proof {
            old(self).lemma_la();
        }
        let mut lhs = self.parse_func_call()?;
        loop
            invariant
                !Self::no_operand(*old(self)),
                p_expr(old(self).all(), old(self).pos()) is Some ==> self.exhausted() || (self.n_errors() == old(self).n_errors() && p_chain(self.all(), self.pos()) == p_expr(old(self).all(), old(self).pos())),
                lhs.span.beg.index == old(self).peek_index(),
                Self::stepped(*old(self), *self),
                Self::expr_ok(*old(self), *self, lhs),
                Self::reads(*old(self), *self, expr_keys(lhs)),
            ensures
                !Self::no_operand(*old(self)),
                p_expr(old(self).all(), old(self).pos()) is Some ==> self.exhausted() || (self.n_errors() == old(self).n_errors() && p_chain(self.all(), self.pos()) == p_expr(old(self).all(), old(self).pos())),
                p_expr(old(self).all(), old(self).pos()) is Some ==> self.exhausted() || (self.n_errors() == old(self).n_errors() && self.pos() == p_expr(old(self).all(), old(self).pos())->Some_0),
                lhs.span.beg.index == old(self).peek_index(),
                Self::stepped(*old(self), *self),
                Self::expr_ok(*old(self), *self, lhs),
                Self::reads(*old(self), *self, expr_keys(lhs)),
            decreases self.remaining(),
        {
            let ghost before = *self;
            proof {
                self.lemma_la();
            }
            let op = match self.one_of_tok(Kind::InfixIdent, Kind::Operator) {
                Ok(op) => op,
                Err(_) => break,
            };
            proof {
                self.lemma_wf();
            }
            let beg = self.peek_ptr();
            let rhs = match self.parse_func_call() {
                Ok(e) => e,
                Err(ParseErr::Fatal(e)) => {
                    return Err(ParseErr::Fatal(e));
                },
                Err(_) => {
                    let end = self.curr_ptr();
                    self.err(
                        Self::msg_err(
                            "Expected primary expression after operator or infix call",
                            beg,
                            end,
                        ),
                    );
                    break;
                },
            };
            let id = self.next_node_id()?;
            let call_id = self.next_node_id()?;
            let name_id = self.next_node_id()?;
            let symbol = match op.value {
                Value::String(s) => s,
                _ => std::string::String::new(),
            };
            let span = Span { beg: lhs.span.beg, end: rhs.span.end };
            let ghost lk = expr_keys(lhs);
            let ghost rk = expr_keys(rhs);
            let ghost opk = key(op);
            let kind = if op.kind == Kind::InfixIdent {
                ExprKind::InfixFuncCall(
                    InfixFuncCall {
                        id: call_id,
                        ident: Ident { id: name_id, symbol, span: op.span },
                        lhs: Box::new(lhs),
                        rhs: Box::new(rhs),
                    },
                )
            } else {
                ExprKind::InfixOpCall(
                    InfixOpCall {
                        id: call_id,
                        op: Op { id: name_id, symbol, span: op.span },
                        lhs: Box::new(lhs),
                        rhs: Box::new(rhs),
                    },
                )
            };
            lhs = Expr { id, kind, span };
            proof {
                assert(expr_keys(lhs) == lk + seq![opk] + rk);
                if self.n_errors() == old(self).n_errors() {
                    assert(self.read() =~= old(self).read() + expr_keys(lhs));
                }
            }
        }
        Ok(lhs)
    }

    /// `@` followed by the callee and its arguments, or a primary expression.
    fn parse_func_call(&mut self) -> (r: PRes<Expr>)
        requires
            old(self).wf(),
        ensures
            r is Ok ==> r->Ok_0.span.beg.index == old(self).peek_index(),
            p_call(old(self).all(), old(self).pos()) is Some ==> Self::succeeds(*old(self), *final(self), r, p_call(old(self).all(), old(self).pos())->Some_0),
            !is_soft(r) ==> !Self::no_operand(*old(self)),
            r is Ok ==> Self::reads(*old(self), *final(self), expr_keys(r->Ok_0)),
            is_soft(r) ==> Self::no_operand(*old(self)),
            Self::advanced(*old(self), *final(self)),
            r is Ok ==> Self::stepped(*old(self), *final(self)),
            r is Ok ==> Self::expr_ok(*old(self), *final(self), r->Ok_0),
            r is Ok ==> !is_infix(r->Ok_0),
        decreases old(self).remaining(), 3nat,
    {
        let at = match self.parse_token(Kind::At) {
            Ok(at) => at,
            Err(_) => {
                return self.parse_primary_expr();
            },
        };
        proof {
            old(self).lemma_la();
        }
        let ghost after_at = *self;
        let callee = self.parse_primary_expr();
        let callee = self.fail_msg(callee, "Expected expression after call operator")?;
        let mut args: Vec<Expr> = Vec::new();
        proof {
            assert(after_at.all() == old(self).all());
            assert(after_at.pos() == old(self).pos() + 1);
            assert(exprs_keys(args@) =~= Seq::<Key>::empty());
            if self.n_errors() == old(self).n_errors() {
                assert(self.read() =~= old(self).read() + (seq![punct(Kind::At)] + expr_keys(callee) + exprs_keys(args@)));
            }
        }
        loop
            invariant
                old(self).la_kind() == Some(Kind::At),
                (p_call(old(self).all(), old(self).pos()) is Some ==> self.exhausted() || (self.n_errors() == old(self).n_errors() && p_args(self.all(), self.pos()) == p_call(old(self).all(), old(self).pos()))),
                Self::stepped(*old(self), *self),
                Self::reads(*old(self), *self, seq![punct(Kind::At)] + expr_keys(callee) + exprs_keys(args@)),
                forall|i: int|
                    0 <= i < args@.len() ==> spans_nested(#[trigger] args@[i], self.len())
                        && left_flat(args@[i]),
            ensures
                old(self).la_kind() == Some(Kind::At),
                (p_call(old(self).all(), old(self).pos()) is Some ==> self.exhausted() || (self.n_errors() == old(self).n_errors() && p_args(self.all(), self.pos()) == p_call(old(self).all(), old(self).pos()))),
                p_call(old(self).all(), old(self).pos()) is Some ==> self.exhausted() || (self.n_errors() == old(self).n_errors() && self.pos() == p_call(old(self).all(), old(self).pos())->Some_0),
                Self::stepped(*old(self), *self),
                Self::reads(*old(self), *self, seq![punct(Kind::At)] + expr_keys(callee) + exprs_keys(args@)),
                forall|i: int|
                    0 <= i < args@.len() ==> spans_nested(#[trigger] args@[i], self.len())
                        && left_flat(args@[i]),
            decreases self.remaining(),
        {
            proof {
                self.lemma_la();
            }
            match self.parse_primary_expr() {
                Ok(arg) => {
                    let ghost before = args@;
                    args.push(arg);
                    proof {
                        assert(args@.drop_last() =~= before);
                        if self.n_errors() == old(self).n_errors() {
                            assert(self.read() =~= old(self).read() + (seq![punct(Kind::At)] + expr_keys(callee) + exprs_keys(args@)));
                        }
                    }
                },
                Err(ParseErr::Fatal(e)) => {
                    return Err(ParseErr::Fatal(e));
                },
                Err(_) => {
                    proof {
                        self.lemma_la();
                    }
                    break;
                },
            }
        }
        let id = self.next_node_id()?;
        let call_id = self.next_node_id()?;
        proof {
            self.lemma_wf();
        }
        Ok(
            Expr {
                id,
                span: Span { beg: at.span.beg, end: self.last_end },
                kind: ExprKind::FunctionCall(
                    FuncCall { id: call_id, lhs: Box::new(callee), args },
                ),
            },
        )
    }

    fn parse_primary_expr(&mut self) -> (r: PRes<Expr>)
        requires
            old(self).wf(),
        ensures
            r is Ok ==> r->Ok_0.span.beg.index == old(self).peek_index(),
            p_primary(old(self).all(), old(self).pos()) is Some ==> Self::succeeds(*old(self), *final(self), r, p_primary(old(self).all(), old(self).pos())->Some_0),
            !is_soft(r) ==> old(self).la_kind() is Some && starts_operand(old(self).la_kind()->Some_0),
            is_soft(r) ==> *final(self) == *old(self),
            r is Ok ==> Self::reads(*old(self), *final(self), expr_keys(r->Ok_0)),
            is_soft(r) ==> old(self).la_kind() is None || !starts_operand(old(self).la_kind()->Some_0),
            Self::advanced(*old(self), *final(self)),
            r is Ok ==> Self::stepped(*old(self), *final(self)),
            r is Ok ==> Self::expr_ok(*old(self), *final(self), r->Ok_0),
            r is Ok ==> !is_infix(r->Ok_0),
        decreases old(self).remaining(), 2nat,
    {
        match self.parse_ident_expr() {
            Ok(e) => {
                return Ok(e);
            },
            Err(ParseErr::Fatal(e)) => {
                return Err(ParseErr::Fatal(e));
            },
            Err(_) => {},
        }
        match self.parse_lit_expr() {
            Ok(e) => {
                return Ok(e);
            },
            Err(ParseErr::Fatal(e)) => {
                return Err(ParseErr::Fatal(e));
            },
            Err(_) => {},
        }
        match self.parse_parenthesis_expr() {
            Ok(e) => {
                return Ok(e);
            },
            Err(ParseErr::Fatal(e)) => {
                return Err(ParseErr::Fatal(e));
            },
            Err(_) => {},
        }
        match self.lexer.curr() {
            None => Err(ParseErr::EOF),
            Some(tok) => Err(ParseErr::NotThisItem(tok)),
        }
    }

    fn parse_ident_expr(&mut self) -> (r: PRes<Expr>)
        requires
            old(self).wf(),
        ensures
            r is Ok ==> r->Ok_0.span.beg.index == old(self).peek_index(),
            Self::at_kind(*old(self), Kind::Identifier) ==> Self::succeeds(*old(self), *final(self), r, old(self).pos() + 1),
            !is_soft(r) ==> old(self).la_kind() == Some(Kind::Identifier),
            r is Ok ==> Self::reads(*old(self), *final(self), expr_keys(r->Ok_0)),
            is_soft(r) ==> old(self).la_kind() != Some(Kind::Identifier),
            Self::advanced(*old(self), *final(self)),
            is_soft(r) ==> *final(self) == *old(self),
            r is Ok ==> Self::stepped(*old(self), *final(self)),
            r is Ok ==> Self::expr_ok(*old(self), *final(self), r->Ok_0),
            r is Ok ==> r->Ok_0.kind is Identifier,
    {
        let ident = self.parse_ident()?;
        let id = self.next_node_id()?;
        proof {
            self.lemma_wf();
        }
        let e = Expr { id, span: ident.span, kind: ExprKind::Identifier(ident) };
        proof {
            assert(self.read() =~= old(self).read() + expr_keys(e));
        }
        Ok(e)
    }

    fn parse_lit_expr(&mut self) -> (r: PRes<Expr>)
        requires
            old(self).wf(),
        ensures
            r is Ok ==> r->Ok_0.span.beg.index == old(self).peek_index(),
            Self::at_kind(*old(self), Kind::IntLiteral) ==> Self::succeeds(*old(self), *final(self), r, old(self).pos() + 1),
            !is_soft(r) ==> old(self).la_kind() == Some(Kind::IntLiteral),
            r is Ok ==> Self::reads(*old(self), *final(self), expr_keys(r->Ok_0)),
            is_soft(r) ==> old(self).la_kind() != Some(Kind::IntLiteral),
            Self::advanced(*old(self), *final(self)),
            is_soft(r) ==> *final(self) == *old(self),
            r is Ok ==> Self::stepped(*old(self), *final(self)),
            r is Ok ==> Self::expr_ok(*old(self), *final(self), r->Ok_0),
            r is Ok ==> r->Ok_0.kind is Literal,
    {
        let lit = self.parse_lit()?;
        let id = self.next_node_id()?;
        proof {
            self.lemma_wf();
        }
        let e = Expr { id, span: lit.span, kind: ExprKind::Literal(lit) };
        proof {
            assert(self.read() =~= old(self).read() + expr_keys(e));
        }
        Ok(e)
    }

    /// An expression in parentheses, kept as a node of its own so that
    /// reassociation does not rotate across it.
    fn parse_parenthesis_expr(&mut self) -> (r: PRes<Expr>)
        requires
            old(self).wf(),
        ensures
            r is Ok ==> r->Ok_0.span.beg.index == old(self).peek_index(),
            Self::at_kind(*old(self), Kind::LeftParenthesis) && p_primary(old(self).all(), old(self).pos()) is Some ==> Self::succeeds(*old(self), *final(self), r, p_primary(old(self).all(), old(self).pos())->Some_0),
            !is_soft(r) ==> old(self).la_kind() == Some(Kind::LeftParenthesis),
            is_soft(r) ==> *final(self) == *old(self),
            r is Ok ==> Self::reads(*old(self), *final(self), expr_keys(r->Ok_0)),
            is_soft(r) ==> old(self).la_kind() != Some(Kind::LeftParenthesis),
            Self::advanced(*old(self), *final(self)),
            r is Ok ==> Self::stepped(*old(self), *final(self)),
            r is Ok ==> Self::expr_ok(*old(self), *final(self), r->Ok_0),
            r is Ok ==> r->Ok_0.kind is Parenthesed,
        decreases old(self).remaining(), 1nat,
    {
        let open = self.parse_token(Kind::LeftParenthesis)?;
        let ghost after_open = *self;
        let inner = self.parse_expr();
        let inner = self.fail_msg(inner, "Expression expected after opening parenthesis '('")?;
        self.try_parse_token_rec(
            Kind::RightParenthesis,
            "Expected closing parenthesis",
            Value::String(")".to_owned()),
        )?;
        let id = self.next_node_id()?;
        let paren_id = self.next_node_id()?;
        proof {
            self.lemma_wf();
        }
        let e = Expr {
            id,
            span: Span { beg: open.span.beg, end: self.last_end },
            kind: ExprKind::Parenthesed(Paren { id: paren_id, expr: Box::new(inner) }),
        };
        proof {
            if self.n_errors() == old(self).n_errors() {
                assert(after_open.read() == old(self).read().push(punct(Kind::LeftParenthesis)));
                assert(self.read() =~= old(self).read() + expr_keys(e));
            }
        }
        Ok(e)
    }
}

impl Parser {
    /// Parses the whole input: a module of top-level declarations. Only a
    /// fatal diagnostic makes it fail.
    pub fn parse(&mut self) -> (r: Result<AST, ParserError>)
        requires
            old(self).wf(),
        ensures
            final(self).wf(),
            final(self).len() == old(self).len(),
            r is Ok ==> module_exprs_ok(r->Ok_0.root, final(self).len()),
            r is Ok && final(self).n_errors() == old(self).n_errors() ==> Self::module_read(
                *old(self),
                *final(self),
                r->Ok_0.root,
            ),
    {
        match self.parse_module() {
            Ok(module) => Ok(AST::new(module)),
            Err(ParseErr::Fatal(e)) => Err(e),
            Err(_) => {
                let p = self.curr_ptr();
                Err(Self::msg_err("End of file reached", p, p))
            },
        }
    }

    fn parse_module(&mut self) -> (r: PRes<Module>)
        requires
            old(self).wf(),
        ensures
            Self::advanced(*old(self), *final(self)),
            r is Ok ==> module_exprs_ok(r->Ok_0, final(self).len()),
            r is Ok && final(self).n_errors() == old(self).n_errors() ==> Self::module_read(
                *old(self),
                *final(self),
                r->Ok_0,
            ),
            r is Err ==> r->Err_0 is Fatal,
    {
        let id = self.next_node_id()?;
        let ghost mut chunks: Seq<Seq<Key>> = Seq::empty();
        let mut decl: Vec<TopLevelDecl> = Vec::new();
        proof {
            assert(old(self).read() + flatten(chunks) =~= self.read());
        }
        loop
            invariant
                Self::advanced(*old(self), *self),
                forall|i: int| 0 <= i < decl@.len() ==> decl_exprs_ok(#[trigger] decl@[i], self.len()),
                self.n_errors() == old(self).n_errors() ==> self.read() == old(self).read() + flatten(chunks),
                chunks.len() == decl@.len(),
                self.n_errors() == old(self).n_errors() ==> forall|i: int| 0 <= i < decl@.len() ==> decl_read(#[trigger] decl@[i], chunks[i]),
            ensures
                Self::advanced(*old(self), *self),
                forall|i: int| 0 <= i < decl@.len() ==> decl_exprs_ok(#[trigger] decl@[i], self.len()),
                self.n_errors() == old(self).n_errors() ==> self.read() == old(self).read() + flatten(chunks),
                chunks.len() == decl@.len(),
                self.n_errors() == old(self).n_errors() ==> forall|i: int| 0 <= i < decl@.len() ==> decl_read(#[trigger] decl@[i], chunks[i]),
            decreases self.remaining(),
        {
            let ghost before = *self;
            match self.parse_top_level_decl() {
                Ok(node) => {
                    let ghost chunk = Self::clean_since(before, *self);
                    let ghost old_chunks = chunks;
                    let ghost old_decl = decl@;
                    proof {
                        chunks = chunks.push(chunk);
                    }
                    decl.push(node);
                    proof {
                        assert(chunks.drop_last() =~= old_chunks);
                        if self.n_errors() == old(self).n_errors() {
                            assert forall|i: int| 0 <= i < decl@.len() implies decl_read(#[trigger] decl@[i], chunks[i]) by {
                                if i < old_decl.len() {
                                    assert(decl@[i] == old_decl[i]);
                                    assert(chunks[i] == old_chunks[i]);
                                }
                            }
                            assert(self.read() =~= before.read() + chunk);
                            assert(self.read() =~= old(self).read() + flatten(chunks));
                        }
                    }
                },
                Err(ParseErr::Fatal(e)) => {
                    return Err(ParseErr::Fatal(e));
                },
                Err(_) => {
                    break;
                },
            }
        }
        self.chunks = Ghost(chunks);
        if let Err(ParseErr::NotThisItem(tok)) = self.parse_eof() {
            self.err(Self::msg_err("End of file expected", tok.span.beg, tok.span.end));
        }
        Ok(Module { id, decl })
    }

    fn parse_eof(&self) -> (r: PRes<()>)
        requires
            self.wf(),
        ensures
            r is Ok <==> self.la() is None,
            r is Err ==> r->Err_0 is NotThisItem,
    {
        match self.lexer.curr() {
            None => Ok(()),
            Some(tok) => Err(ParseErr::NotThisItem(tok)),
        }
    }

    /// A declaration, a definition or an infix definition, tried in turn.
    fn parse_top_level_decl(&mut self) -> (r: PRes<TopLevelDecl>)
        requires
            old(self).wf(),
        ensures
            !is_soft(r) ==> old(self).la_kind() == Some(Kind::FuncDecl) || old(self).la_kind() == Some(Kind::FuncDef) || old(self).la_kind() == Some(Kind::InfixDef),
            r is Ok && final(self).n_errors() == old(self).n_errors() ==> Self::clean(*old(self), *final(self)) && decl_read(r->Ok_0, Self::clean_since(*old(self), *final(self))),
            is_soft(r) ==> old(self).la_kind() != Some(Kind::FuncDecl) && old(self).la_kind() != Some(Kind::FuncDef) && old(self).la_kind() != Some(Kind::InfixDef),
            Self::advanced(*old(self), *final(self)),
            is_soft(r) ==> *final(self) == *old(self),
            r is Ok ==> Self::stepped(*old(self), *final(self)),
            r is Ok ==> decl_exprs_ok(r->Ok_0, final(self).len()),
    {
        let beg = self.peek_ptr();
        let kind = match self.parse_func_decl() {
            Ok(d) => TopLevelDeclKind::FunctionDecl(d),
            Err(ParseErr::Fatal(e)) => {
                return Err(ParseErr::Fatal(e));
            },
            Err(_) => match self.parse_func_def() {
                Ok(d) => TopLevelDeclKind::FunctionDef(d),
                Err(ParseErr::Fatal(e)) => {
                    return Err(ParseErr::Fatal(e));
                },
                Err(_) => match self.parse_infix_decl() {
                    Ok(d) => TopLevelDeclKind::InfixDef(d),
                    Err(ParseErr::Fatal(e)) => {
                        return Err(ParseErr::Fatal(e));
                    },
                    Err(_) => {
                        return match self.lexer.curr() {
                            Some(tok) => Err(ParseErr::NotThisItem(tok)),
                            None => Err(ParseErr::EOF),
                        };
                    },
                },
            },
        };
        let id = self.next_node_id()?;
        Ok(TopLevelDecl { id, kind, span: Span { beg, end: self.last_end } })
    }

    /// `infix <precedence> <operator> <arg> <arg>: <body>`
    #[verifier::rlimit(100)]
    #[verifier::spinoff_prover]
    fn parse_infix_decl(&mut self) -> (r: PRes<InfixDef>)
        requires
            old(self).wf(),
        ensures
            p_infix_def(old(self).all(), old(self).pos()) is Some ==> Self::succeeds(*old(self), *final(self), r, p_infix_def(old(self).all(), old(self).pos())->Some_0),
            !is_soft(r) ==> old(self).la_kind() == Some(Kind::InfixDef),
            r is Ok && final(self).n_errors() == old(self).n_errors() ==> Self::clean(*old(self), *final(self)) && infix_def_read(r->Ok_0, Self::clean_since(*old(self), *final(self))),
            is_soft(r) ==> old(self).la_kind() != Some(Kind::InfixDef),
            Self::advanced(*old(self), *final(self)),
            is_soft(r) ==> *final(self) == *old(self),
            r is Ok ==> Self::stepped(*old(self), *final(self)),
            r is Ok ==> spans_nested(r->Ok_0.body, final(self).len()) && left_flat(r->Ok_0.body),
    {
        proof {
            self.lemma_la();
        }
        self.parse_token(Kind::InfixDef)?;
        let prec = self.parse_int_lit();
        let prec = self.fail_unex_tok(
            prec,
            Kind::IntLiteral,
            Value::Nothing,
            "Infix declaration needs to have its precedence.",
        )?;
        let ghost v = prec.kind->Int_0;
        let precedence = match prec.kind {
            LitKind::Int(v) => v as usize,
        };
        let op = self.parse_op();
        let op = self.fail_unex_tok(
            op,
            Kind::Operator,
            Value::Nothing,
            "An infix needs an operator as its name.",
        )?;
        let (arg_1, arg_2) = self.parse_infix_decl_args()?;
        self.try_parse_token_rec(Kind::Colon, "Colon expected", Value::String(":".to_owned()))?;
        let body = self.parse_expr();
        let body = self.fail_msg(body, "Infix needs a body definition")?;
        let id = self.next_node_id()?;
        let d = InfixDef { id, ty: None, op, body, args: (arg_1, arg_2), precedence };
        proof {
            if self.n_errors() == old(self).n_errors() {
                let x = seq![
                    punct(Kind::InfixDef),
                    (Kind::IntLiteral, Seq::<char>::empty(), v),
                    (Kind::Operator, d.op.symbol@, 0u64),
                    name_key(d.args.0.ident.symbol@),
                    name_key(d.args.1.ident.symbol@),
                    punct(Kind::Colon),
                ] + expr_keys(d.body);
                assert(self.read() =~= old(self).read() + x);
                assert(Self::clean_since(*old(self), *self) =~= x);
                assert(self.read().subrange(0, old(self).read().len() as int) =~= old(self).read());
                assert(x.subrange(6, x.len() as int) =~= expr_keys(d.body));
            }
        }
        Ok(d)
    }

    fn parse_infix_decl_args(&mut self) -> (r: PRes<(FuncArg, FuncArg)>)
        requires
            old(self).wf(),
        ensures
            Self::at_kind(*old(self), Kind::Identifier) && kind_at(old(self).all(), old(self).pos() + 1, Kind::Identifier) ==> Self::succeeds(*old(self), *final(self), r, old(self).pos() + 2),
            r is Ok ==> Self::reads(*old(self), *final(self), seq![name_key(r->Ok_0.0.ident.symbol@), name_key(r->Ok_0.1.ident.symbol@)]),
            Self::advanced(*old(self), *final(self)),
            r is Err ==> r->Err_0 is Fatal,
    {
        let arg_1 = self.parse_func_arg();
        let arg_1 = self.fail_msg(arg_1, "Infix needs 2 arguments")?;
        proof {
            self.lemma_la();
        }
        let arg_2 = self.parse_func_arg();
        let arg_2 = self.fail_msg(arg_2, "Infix needs 2 arguments")?;
        proof {
            assert(self.read() =~= old(self).read() + seq![name_key(arg_1.ident.symbol@), name_key(arg_2.ident.symbol@)]);
        }
        Ok((arg_1, arg_2))
    }

    /// `decl <name> <type>* [attrs]: <type>`
    #[verifier::rlimit(60)]
    #[verifier::spinoff_prover]
    fn parse_func_decl(&mut self) -> (r: PRes<FuncDecl>)
        requires
            old(self).wf(),
        ensures
            !is_soft(r) ==> old(self).la_kind() == Some(Kind::FuncDecl),
            r is Ok && final(self).n_errors() == old(self).n_errors() ==> Self::clean(*old(self), *final(self)) && func_decl_read(r->Ok_0, Self::clean_since(*old(self), *final(self))),
            is_soft(r) ==> old(self).la_kind() != Some(Kind::FuncDecl),
            Self::advanced(*old(self), *final(self)),
            is_soft(r) ==> *final(self) == *old(self),
            r is Ok ==> Self::stepped(*old(self), *final(self)),
    {
        self.parse_token(Kind::FuncDecl)?;
        let ident = self.try_parse_ident_fail("A function needs an identifier as its name.")?;
        let ghost name = ident.symbol@;
        let args_t = self.parse_func_args_types()?;
        let ghost before_attrs = *self;
        let attrs = match self.parse_func_attrs() {
            Ok(attrs) => attrs,
            Err(ParseErr::Fatal(e)) => {
                return Err(ParseErr::Fatal(e));
            },
            Err(_) => Vec::new(),
        };
        let ghost attr_part = Self::clean_since(before_attrs, *self);
        proof {
            if self.n_errors() == before_attrs.n_errors() {
                if attrs@.len() == 0 && self.read() == before_attrs.read() {
                    assert(attr_part =~= Seq::<Key>::empty());
                } else {
                    assert(self.read() == before_attrs.read() + (seq![punct(Kind::LeftBracket)] + attrs_keys(attrs@) + seq![punct(Kind::RightBracket)]));
                    assert(attr_part =~= seq![punct(Kind::LeftBracket)] + attrs_keys(attrs@) + seq![punct(Kind::RightBracket)]);
                }
                assert(attrs_written(attrs@, attr_part));
                assert(self.read() =~= before_attrs.read() + attr_part);
            }
        }
        self.try_parse_token_rec(Kind::Colon, "Colon expected", Value::String(":".to_owned()))?;
        let ret_t = self.parse_type();
        let ret_t = self.fail_msg(ret_t, "Function declaration needs a return type")?;
        let id = self.next_node_id()?;
        let ty_id = self.next_node_id()?;
        let func_ty_id = self.next_node_id()?;
        let beg = if args_t.len() == 0 {
            ret_t.span.beg
        } else {
            args_t[0].span.beg
        };
        let span = Span { beg, end: ret_t.span.end };
        let ghost ak = types_keys(args_t@);
        let ghost rk = type_keys(ret_t);
        let ty = Type {
            id: ty_id,
            span,
            kind: TypeKind::Function(FuncType { id: func_ty_id, ret: Box::new(ret_t), args: args_t }),
        };
        let d = FuncDecl { id, ty: Some(ty), attrs, ident };
        proof {
            if self.n_errors() == old(self).n_errors() {
                let head = seq![punct(Kind::FuncDecl), name_key(name)] + ak;
                let tail = seq![punct(Kind::Colon)] + rk;
                let ks = head + attr_part + tail;
                assert(self.read() =~= old(self).read() + ks);
                assert(Self::clean_since(*old(self), *self) =~= ks);
                assert(self.read().subrange(0, old(self).read().len() as int) =~= old(self).read());
                assert(ks.subrange(0, head.len() as int) =~= head);
                assert(ks.subrange(ks.len() - tail.len(), ks.len() as int) =~= tail);
                assert(ks.subrange(head.len() as int, ks.len() - tail.len()) =~= attr_part);
            }
        }
        Ok(d)
    }

    /// Argument types of a declaration; `void` is refused there.
    fn parse_func_args_types(&mut self) -> (r: PRes<Vec<Type>>)
        requires
            old(self).wf(),
        ensures
            p_types(old(self).all(), old(self).pos(), true) is Some ==> Self::succeeds(*old(self), *final(self), r, p_types(old(self).all(), old(self).pos(), true)->Some_0),
            r is Ok ==> Self::reads(*old(self), *final(self), types_keys(r->Ok_0@)),
            Self::advanced(*old(self), *final(self)),
            r is Err ==> r->Err_0 is Fatal,
    {
        let mut args: Vec<Type> = Vec::new();
        proof {
            assert(old(self).read() + types_keys(args@) =~= old(self).read());
        }
        loop
            invariant
                Self::advanced(*old(self), *self),
                Self::reads(*old(self), *self, types_keys(args@)),
                p_types(old(self).all(), old(self).pos(), true) is Some ==> self.exhausted() || (self.n_errors() == old(self).n_errors() && p_types(self.all(), self.pos(), true) == p_types(old(self).all(), old(self).pos(), true)),
            decreases self.remaining(),
        {
            let ghost before = args@;
            proof {
                self.lemma_la();
            }
            let ghost st = *self;
            match self.parse_type() {
                Ok(t) => {
                    if let TypeKind::Literal(LitType::Void) = t.kind {
                        proof {
                            if p_types(old(self).all(), old(self).pos(), true) is Some && !self.exhausted() {
                                self.lemma_read_prefix();
                                st.lemma_read_prefix();
                                assert(type_keys(t) == seq![name_key(lit_type_name(LitType::Void))]);
                                assert(self.read() == st.read() + type_keys(t));
                                assert(self.read()[st.pos()] == type_keys(t)[0]);
                                assert(self.all()[st.pos()] == self.read()[st.pos()]);
                            }
                        }
                        self.err(
                            Self::msg_err(
                                "Void can only be used as function return argument",
                                t.span.beg,
                                t.span.end,
                            ),
                        );
                    } else {
                        args.push(t);
                        proof {
                            assert(args@.drop_last() =~= before);
                            if self.n_errors() == old(self).n_errors() {
                                assert(self.read() =~= old(self).read() + types_keys(args@));
                            }
                        }
                    }
                },
                Err(ParseErr::Fatal(e)) => {
                    return Err(ParseErr::Fatal(e));
                },
                Err(_) => {
                    return Ok(args);
                },
            }
        }
    }

    pub fn parse_type(&mut self) -> (r: PRes<Type>)
        requires
            old(self).wf(),
        ensures
            !is_soft(r) ==> old(self).pos() < old(self).all().len() && starts_type(old(self).all()[old(self).pos()]),
            p_type(old(self).all(), old(self).pos()) is Some ==> Self::succeeds(*old(self), *final(self), r, p_type(old(self).all(), old(self).pos())->Some_0),
            !is_soft(r) ==> old(self).la_kind() == Some(Kind::Identifier) || old(self).la_kind() == Some(Kind::LeftParenthesis),
            r is Ok ==> Self::reads(*old(self), *final(self), type_keys(r->Ok_0)),
            is_soft(r) ==> old(self).la_kind() != Some(Kind::LeftParenthesis),
            is_soft(r) ==> old(self).la() is None || !(old(self).la()->Some_0.kind == Kind::Identifier && old(self).la()->Some_0.value is String && lit_type_of(old(self).la()->Some_0.value->String_0@) is Some),
            Self::advanced(*old(self), *final(self)),
            is_soft(r) ==> *final(self) == *old(self),
            r is Ok ==> Self::stepped(*old(self), *final(self)),
        decreases old(self).remaining(), 3nat,
    {
        proof {
            self.lemma_la();
        }
        match self.parse_simple_type() {
            Ok(t) => Ok(t),
            Err(ParseErr::Fatal(e)) => Err(ParseErr::Fatal(e)),
            Err(_) => self.parse_func_type(),
        }
    }

    /// `int` or `void`.
    fn parse_simple_type(&mut self) -> (r: PRes<Type>)
        requires
            old(self).wf(),
        ensures
            !is_soft(r) ==> old(self).la() is Some && lit_type_key(key(old(self).la()->Some_0)),
            Self::at_kind(*old(self), Kind::Identifier) && lit_type_key(old(self).all()[old(self).pos()]) ==> Self::succeeds(*old(self), *final(self), r, old(self).pos() + 1),
            !is_soft(r) ==> old(self).la_kind() == Some(Kind::Identifier),
            r is Ok ==> Self::reads(*old(self), *final(self), type_keys(r->Ok_0)),
            is_soft(r) ==> old(self).la() is None || !(old(self).la()->Some_0.kind == Kind::Identifier && old(self).la()->Some_0.value is String && lit_type_of(old(self).la()->Some_0.value->String_0@) is Some),
            Self::advanced(*old(self), *final(self)),
            is_soft(r) ==> *final(self) == *old(self),
            r is Ok ==> Self::stepped(*old(self), *final(self)),
    {
        proof {
            self.lemma_la();
        }
        let tok = match self.lexer.curr() {
            Some(tok) => tok,
            None => {
                return Err(ParseErr::EOF);
            },
        };
        let mut lit: Option<LitType> = None;
        if tok.kind == Kind::Identifier {
            if let Value::String(s) = &tok.value {
                lit = is_lit_type(s.as_str());
            }
        }
        match lit {
            Some(lit) => {
                proof {
                    assert(key(tok).1 == tok.value->String_0@);
                }
                let ident = self.parse_ident()?;
                let id = self.next_node_id()?;
                let t = Type { id, kind: TypeKind::Literal(lit), span: ident.span };
                proof {
                    assert(self.read() =~= old(self).read() + type_keys(t));
                }
                Ok(t)
            },
            None => {
                proof {
                    if tok.kind == Kind::Identifier && tok.value is String {
                        assert(key(tok).1 == tok.value->String_0@);
                        assert(lit_type_of(tok.value->String_0@) is None);
                    }
                    if !(tok.value is String) {
                        assert(key(tok).1 =~= Seq::<char>::empty());
                        assert(seq!['i', 'n', 't'].len() == 3);
                        assert(seq!['v', 'o', 'i', 'd'].len() == 4);
                        assert(lit_type_of(Seq::<char>::empty()) is None);
                    }
                }
                Err(ParseErr::NotThisItem(tok))
            },
        }
    }

    /// `(<type>*) <type>`
    fn parse_func_type(&mut self) -> (r: PRes<Type>)
        requires
            old(self).wf(),
        ensures
            Self::at_kind(*old(self), Kind::LeftParenthesis) && p_type(old(self).all(), old(self).pos()) is Some ==> Self::succeeds(*old(self), *final(self), r, p_type(old(self).all(), old(self).pos())->Some_0),
            !is_soft(r) ==> old(self).la_kind() == Some(Kind::LeftParenthesis),
            r is Ok ==> Self::reads(*old(self), *final(self), type_keys(r->Ok_0)),
            is_soft(r) ==> old(self).la_kind() != Some(Kind::LeftParenthesis),
            Self::advanced(*old(self), *final(self)),
            is_soft(r) ==> *final(self) == *old(self),
            r is Ok ==> Self::stepped(*old(self), *final(self)),
        decreases old(self).remaining(), 2nat,
    {
        proof {
            self.lemma_la();
        }
        let open = self.parse_token(Kind::LeftParenthesis)?;
        let mut args: Vec<Type> = Vec::new();
        proof {
            assert(old(self).read() + (seq![punct(Kind::LeftParenthesis)] + types_keys(args@)) =~= self.read());
        }
        loop
            invariant
                old(self).la_kind() == Some(Kind::LeftParenthesis),
                p_type(old(self).all(), old(self).pos()) is Some ==> self.exhausted() || (self.n_errors() == old(self).n_errors() && p_types(self.all(), self.pos(), false) == p_types(old(self).all(), old(self).pos() + 1, false)),
                Self::stepped(*old(self), *self),
                Self::reads(*old(self), *self, seq![punct(Kind::LeftParenthesis)] + types_keys(args@)),
            ensures
                old(self).la_kind() == Some(Kind::LeftParenthesis),
                p_type(old(self).all(), old(self).pos()) is Some ==> self.exhausted() || (self.n_errors() == old(self).n_errors() && p_types(self.all(), self.pos(), false) == p_types(old(self).all(), old(self).pos() + 1, false)),
                p_type(old(self).all(), old(self).pos()) is Some ==> self.exhausted() || (self.n_errors() == old(self).n_errors() && self.pos() == p_types(old(self).all(), old(self).pos() + 1, false)->Some_0),
                Self::stepped(*old(self), *self),
                Self::reads(*old(self), *self, seq![punct(Kind::LeftParenthesis)] + types_keys(args@)),
            decreases self.remaining(),
        {
            proof {
                self.lemma_la();
            }
            match self.parse_type() {
                Ok(t) => {
                    let ghost before = args@;
                    args.push(t);
                    proof {
                        assert(args@.drop_last() =~= before);
                        if self.n_errors() == old(self).n_errors() {
                            assert(self.read() =~= old(self).read() + (seq![punct(Kind::LeftParenthesis)] + types_keys(args@)));
                        }
                    }
                },
                Err(ParseErr::Fatal(e)) => {
                    return Err(ParseErr::Fatal(e));
                },
                Err(_) => {
                    proof {
                        self.lemma_la();
                    }
                    break;
                },
            }
        }
        proof {
            self.lemma_la();
        }
        self.try_parse_token_rec(
            Kind::RightParenthesis,
            "Unclosed parenthesis for function type",
            Value::String(")".to_owned()),
        )?;
        let ret = self.parse_type();
        let ret = self.fail_msg(ret, "Missing function type return type")?;
        let id = self.next_node_id()?;
        let func_id = self.next_node_id()?;
        let t = Type {
            id,
            kind: TypeKind::Function(FuncType { id: func_id, ret: Box::new(ret), args }),
            span: Span { beg: open.span.beg, end: self.last_end },
        };
        proof {
            if self.n_errors() == old(self).n_errors() {
                assert(self.read() =~= old(self).read() + type_keys(t));
            }
        }
        Ok(t)
    }

    /// `[<name>*]`
    fn parse_func_attrs(&mut self) -> (r: PRes<Vec<FuncAttr>>)
        requires
            old(self).wf(),
        ensures
            Self::at_kind(*old(self), Kind::LeftBracket) && p_attrs(old(self).all(), old(self).pos()) is Some ==> Self::succeeds(*old(self), *final(self), r, p_attrs(old(self).all(), old(self).pos())->Some_0),
            !is_soft(r) ==> old(self).la_kind() == Some(Kind::LeftBracket),
            r is Ok ==> Self::reads(*old(self), *final(self), seq![punct(Kind::LeftBracket)] + attrs_keys(r->Ok_0@) + seq![punct(Kind::RightBracket)]),
            is_soft(r) ==> old(self).la_kind() != Some(Kind::LeftBracket),
            Self::advanced(*old(self), *final(self)),
            is_soft(r) ==> *final(self) == *old(self),
            r is Ok ==> Self::stepped(*old(self), *final(self)),
    {
        proof {
            self.lemma_la();
        }
        self.parse_token(Kind::LeftBracket)?;
        let mut attrs: Vec<FuncAttr> = Vec::new();
        proof {
            assert(old(self).read() + (seq![punct(Kind::LeftBracket)] + attrs_keys(attrs@)) =~= self.read());
        }
        loop
            invariant
                p_attrs(old(self).all(), old(self).pos()) is Some ==> self.exhausted() || (self.n_errors() == old(self).n_errors() && p_names(self.all(), self.pos()) == p_names(old(self).all(), old(self).pos() + 1)),
                old(self).la_kind() == Some(Kind::LeftBracket),
                Self::stepped(*old(self), *self),
                Self::reads(*old(self), *self, seq![punct(Kind::LeftBracket)] + attrs_keys(attrs@)),
            ensures
                p_attrs(old(self).all(), old(self).pos()) is Some ==> self.exhausted() || (self.n_errors() == old(self).n_errors() && p_names(self.all(), self.pos()) == p_names(old(self).all(), old(self).pos() + 1)),
                p_attrs(old(self).all(), old(self).pos()) is Some ==> self.exhausted() || (self.n_errors() == old(self).n_errors() && self.pos() == p_names(old(self).all(), old(self).pos() + 1)),
                old(self).la_kind() == Some(Kind::LeftBracket),
                Self::stepped(*old(self), *self),
                Self::reads(*old(self), *self, seq![punct(Kind::LeftBracket)] + attrs_keys(attrs@)),
            decreases self.remaining(),
        {
            proof {
                self.lemma_la();
            }
            match self.parse_ident() {
                Ok(ident) => {
                    let id = self.next_node_id()?;
                    let ghost before = attrs@;
                    attrs.push(FuncAttr { id, ident });
                    proof {
                        assert(attrs_keys(attrs@) =~= attrs_keys(before).push(name_key(attrs@.last().ident.symbol@)));
                        if self.n_errors() == old(self).n_errors() {
                            assert(self.read() =~= old(self).read() + (seq![punct(Kind::LeftBracket)] + attrs_keys(attrs@)));
                        }
                    }
                },
                Err(ParseErr::Fatal(e)) => {
                    return Err(ParseErr::Fatal(e));
                },
                Err(_) => {
                    break;
                },
            }
        }
        proof {
            self.lemma_la();
        }
        self.try_parse_token_rec(
            Kind::RightBracket,
            "Unclosed attributes parenthesis",
            Value::String("]".to_owned()),
        )?;
        proof {
            if self.n_errors() == old(self).n_errors() {
                assert(self.read() =~= old(self).read() + (seq![punct(Kind::LeftBracket)] + attrs_keys(attrs@) + seq![punct(Kind::RightBracket)]));
            }
        }
        Ok(attrs)
    }

    /// `def <name> <arg>* [attrs]: <body>`
    #[verifier::rlimit(100)]
    #[verifier::spinoff_prover]
    fn parse_func_def(&mut self) -> (r: PRes<FuncDef>)
        requires
            old(self).wf(),
        ensures
            !is_soft(r) ==> old(self).la_kind() == Some(Kind::FuncDef),
            r is Ok && final(self).n_errors() == old(self).n_errors() ==> Self::clean(*old(self), *final(self)) && func_def_read(r->Ok_0, Self::clean_since(*old(self), *final(self))),
            is_soft(r) ==> old(self).la_kind() != Some(Kind::FuncDef),
            Self::advanced(*old(self), *final(self)),
            is_soft(r) ==> *final(self) == *old(self),
            r is Ok ==> Self::stepped(*old(self), *final(self)),
            r is Ok ==> spans_nested(r->Ok_0.body, final(self).len()) && left_flat(r->Ok_0.body),
    {
        self.parse_token(Kind::FuncDef)?;
        let ident = self.try_parse_ident_fail("A function needs an identifier as its name.")?;
        let ghost name = ident.symbol@;
        let args = self.parse_func_args()?;
        let ghost before_attrs = *self;
        let attrs = match self.parse_func_attrs() {
            Ok(attrs) => attrs,
            Err(ParseErr::Fatal(e)) => {
                return Err(ParseErr::Fatal(e));
            },
            Err(_) => Vec::new(),
        };
        let ghost attr_part = Self::clean_since(before_attrs, *self);
        proof {
            if self.n_errors() == before_attrs.n_errors() {
                if attrs@.len() == 0 && self.read() == before_attrs.read() {
                    assert(attr_part =~= Seq::<Key>::empty());
                } else {
                    assert(self.read() == before_attrs.read() + (seq![punct(Kind::LeftBracket)] + attrs_keys(attrs@) + seq![punct(Kind::RightBracket)]));
                    assert(attr_part =~= seq![punct(Kind::LeftBracket)] + attrs_keys(attrs@) + seq![punct(Kind::RightBracket)]);
                }
                assert(attrs_written(attrs@, attr_part));
                assert(self.read() =~= before_attrs.read() + attr_part);
            }
        }
        self.try_parse_token_rec(Kind::Colon, "Colon expected", Value::String(":".to_owned()))?;
        let body = self.parse_expr();
        let body = self.fail_msg(body, "Function needs a body definition")?;
        let id = self.next_node_id()?;
        let decl_id = self.next_node_id()?;
        let d = FuncDef { id, decl: FuncDecl { id: decl_id, ident, attrs, ty: None }, args, body };
        proof {
            if self.n_errors() == old(self).n_errors() {
                let head = seq![punct(Kind::FuncDef), name_key(name)] + args_keys(d.args@);
                let tail = seq![punct(Kind::Colon)] + expr_keys(d.body);
                let ks = head + attr_part + tail;
                assert(self.read() =~= old(self).read() + ks);
                assert(Self::clean_since(*old(self), *self) =~= ks);
                assert(self.read().subrange(0, old(self).read().len() as int) =~= old(self).read());
                assert(ks.subrange(0, head.len() as int) =~= head);
                assert(ks.subrange(ks.len() - tail.len(), ks.len() as int) =~= tail);
                assert(ks.subrange(head.len() as int, ks.len() - tail.len()) =~= attr_part);
            }
        }
        Ok(d)
    }

    fn parse_func_args(&mut self) -> (r: PRes<Vec<FuncArg>>)
        requires
            old(self).wf(),
        ensures
            Self::succeeds(*old(self), *final(self), r, p_names(old(self).all(), old(self).pos())),
            r is Ok ==> Self::reads(*old(self), *final(self), args_keys(r->Ok_0@)),
            Self::advanced(*old(self), *final(self)),
            r is Err ==> r->Err_0 is Fatal,
    {
        let mut args: Vec<FuncArg> = Vec::new();
        proof {
            assert(old(self).read() + args_keys(args@) =~= old(self).read());
        }
        loop
            invariant
                Self::advanced(*old(self), *self),
                Self::reads(*old(self), *self, args_keys(args@)),
                self.exhausted() || (self.n_errors() == old(self).n_errors() && p_names(self.all(), self.pos()) == p_names(old(self).all(), old(self).pos())),
                self.all() == old(self).all(),
            decreases self.remaining(),
        {
            proof {
                self.lemma_la();
            }
            match self.parse_func_arg() {
                Ok(arg) => {
                    let ghost before = args@;
                    args.push(arg);
                    proof {
                        assert(args_keys(args@) =~= args_keys(before).push(name_key(args@.last().ident.symbol@)));
                        if self.n_errors() == old(self).n_errors() {
                            assert(self.read() =~= old(self).read() + args_keys(args@));
                        }
                    }
                },
                Err(ParseErr::Fatal(e)) => {
                    return Err(ParseErr::Fatal(e));
                },
                Err(_) => {
                    return Ok(args);
                },
            }
        }
    }

    fn parse_func_arg(&mut self) -> (r: PRes<FuncArg>)
        requires
            old(self).wf(),
        ensures
            Self::at_kind(*old(self), Kind::Identifier) ==> Self::succeeds(*old(self), *final(self), r, old(self).pos() + 1),
            !is_soft(r) ==> old(self).la_kind() == Some(Kind::Identifier),
            r is Ok ==> final(self).read() == old(self).read().push(name_key(r->Ok_0.ident.symbol@)),
            r is Ok ==> final(self).n_errors() == old(self).n_errors(),
            is_soft(r) ==> old(self).la_kind() != Some(Kind::Identifier),
            Self::advanced(*old(self), *final(self)),
            is_soft(r) ==> *final(self) == *old(self),
            r is Ok ==> Self::stepped(*old(self), *final(self)),
    {
        let ident = self.parse_ident()?;
        let id = self.next_node_id()?;
        let span = ident.span;
        Ok(FuncArg { id, ty: None, span, ident })
    }
}
} // verus!
