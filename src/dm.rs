//! Declaration merge: a definition takes the signature of the declaration
//! of the same name and the union of both attribute lists; the declaration
//! it consumed then leaves the module.

use vstd::prelude::*;
use vstd::string::*;
use crate::ast::{
    FuncAttr, FuncDecl, FuncDef, FuncType, Ident, Module, TopLevelDecl, TopLevelDeclKind, Type,
    TypeKind, LitType,
};

verus! {

/// Name of a top-level declaration `decl`, if `d` is one.
pub open spec fn decl_name(d: TopLevelDecl) -> Option<Seq<char>> {
    match d.kind {
        TopLevelDeclKind::FunctionDecl(x) => Some(x.ident.symbol@),
        _ => None,
    }
}

/// Name of a top-level definition `def`, if `d` is one.
pub open spec fn def_name(d: TopLevelDecl) -> Option<Seq<char>> {
    match d.kind {
        TopLevelDeclKind::FunctionDef(x) => Some(x.decl.ident.symbol@),
        _ => None,
    }
}

/// Index of the last declaration named `n`: the one that a definition of
/// that name is merged with.
pub open spec fn last_decl(ds: Seq<TopLevelDecl>, n: Seq<char>) -> Option<int>
    decreases ds.len(),
{
    if ds.len() == 0 {
        None
    } else if decl_name(ds.last()) == Some(n) {
        Some(ds.len() - 1)
    } else {
        last_decl(ds.drop_last(), n)
    }
}

/// The declaration at `j` was merged into some definition.
pub open spec fn consumed(ds: Seq<TopLevelDecl>, j: int) -> bool {
    exists|k: int|
        0 <= k < ds.len() && (#[trigger] def_name(ds[k])) is Some && last_decl(
            ds,
            def_name(ds[k])->Some_0,
        ) == Some(j)
}

/// Indices, below `k`, of the declarations that stay.
pub open spec fn kept(ds: Seq<TopLevelDecl>, k: int) -> Seq<int>
    decreases k,
{
    if k <= 0 {
        Seq::empty()
    } else if consumed(ds, k - 1) {
        kept(ds, k - 1)
    } else {
        kept(ds, k - 1).push(k - 1)
    }
}

/// A type written out as text: `i` for int, `v` for void, and
/// `(args)ret` for a function type.
pub open spec fn type_text(t: Type) -> Seq<char>
    decreases t,
{
    match t.kind {
        TypeKind::Literal(LitType::Int) => seq!['i'],
        TypeKind::Literal(LitType::Void) => seq!['v'],
        TypeKind::Function(f) => seq!['('] + types_text(f.args@) + seq![')'] + type_text(*f.ret),
    }
}

pub open spec fn types_text(s: Seq<Type>) -> Seq<char>
    decreases s,
{
    if s.len() == 0 {
        Seq::empty()
    } else {
        types_text(s.drop_last()) + type_text(s.last())
    }
}

/// `a` and `b` are the same type, node for node: ids, spans and kinds.
pub open spec fn same_type(a: Type, b: Type) -> bool
    decreases a,
{
    &&& a.id == b.id
    &&& a.span == b.span
    &&& match (a.kind, b.kind) {
        (TypeKind::Literal(x), TypeKind::Literal(y)) => x == y,
        (TypeKind::Function(x), TypeKind::Function(y)) => {
            &&& x.id == y.id
            &&& same_type(*x.ret, *y.ret)
            &&& x.args@.len() == y.args@.len()
            &&& forall|i: int| 0 <= i < x.args@.len() ==> same_type(#[trigger] x.args@[i], y.args@[i])
        },
        _ => false,
    }
}

pub open spec fn same_opt_type(a: Option<Type>, b: Option<Type>) -> bool {
    match (a, b) {
        (Some(x), Some(y)) => same_type(x, y),
        (None, None) => true,
        _ => false,
    }
}

pub open spec fn opt_type_text(t: Option<Type>) -> Option<Seq<char>> {
    match t {
        Some(t) => Some(type_text(t)),
        None => None,
    }
}

pub open spec fn attr_names(attrs: Seq<FuncAttr>) -> Seq<Seq<char>> {
    attrs.map_values(|a: FuncAttr| a.ident.symbol@)
}

/// Lexicographic order of names, by code point.
pub open spec fn lex_lt(a: Seq<char>, b: Seq<char>) -> bool
    decreases a.len(),
{
    if a.len() == 0 {
        b.len() > 0
    } else if b.len() == 0 {
        false
    } else if a[0] < b[0] {
        true
    } else if a[0] == b[0] {
        lex_lt(a.drop_first(), b.drop_first())
    } else {
        false
    }
}

/// Each name comes strictly before the next.
pub open spec fn strictly_sorted(s: Seq<Seq<char>>) -> bool {
    forall|i: int| 0 <= i < s.len() - 1 ==> lex_lt(#[trigger] s[i], s[i + 1])
}

pub proof fn lemma_lex_total(a: Seq<char>, b: Seq<char>)
    ensures
        lex_lt(a, b) || lex_lt(b, a) || a == b,
    decreases a.len(),
{
    if a.len() > 0 && b.len() > 0 && a[0] == b[0] {
        lemma_lex_total(a.drop_first(), b.drop_first());
        if a.drop_first() == b.drop_first() {
            assert(a =~= seq![a[0]] + a.drop_first());
            assert(b =~= seq![b[0]] + b.drop_first());
        }
    } else if a.len() == 0 && b.len() == 0 {
        assert(a =~= b);
    } else if a.len() > 0 && b.len() > 0 {
        assert(a[0] != b[0]);
    }
}

} // verus!

verus! {

/// Whether `a` comes strictly before `b`.
pub fn lex_less(a: &str, b: &str) -> (r: bool)
    ensures
        r == lex_lt(a@, b@),
{
    let la = a.unicode_len();
    let lb = b.unicode_len();
    let mut i: usize = 0;
    assert(a@.subrange(0, la as int) =~= a@);
    assert(b@.subrange(0, lb as int) =~= b@);
    while i < la && i < lb
        invariant
            la == a@.len(),
            lb == b@.len(),
            i <= la,
            i <= lb,
            lex_lt(a@, b@) == lex_lt(a@.subrange(i as int, la as int), b@.subrange(i as int, lb as int)),
        decreases la - i,
    {
        let ca = a.get_char(i);
        let cb = b.get_char(i);
        proof {
            let (sa, sb) = (a@.subrange(i as int, la as int), b@.subrange(i as int, lb as int));
            assert(sa.drop_first() =~= a@.subrange(i + 1, la as int));
            assert(sb.drop_first() =~= b@.subrange(i + 1, lb as int));
        }
        if ca < cb {
            return true;
        }
        if ca != cb {
            return false;
        }
        i += 1;
    }
    i == la && i < lb
}

/// A copy of a type.
pub fn copy_type(t: &Type) -> (r: Type)
    ensures
        type_text(r) == type_text(*t),
        same_type(*t, r),
        r.id == t.id,
        r.span == t.span,
    decreases t,
{
    let kind = match &t.kind {
        TypeKind::Literal(l) => TypeKind::Literal(*l),
        TypeKind::Function(f) => {
            let ret = copy_type(&f.ret);
            let n = f.args.len();
            let mut args: Vec<Type> = Vec::new();
            let mut i: usize = 0;
            while i < n
                invariant
                    n == f.args@.len(),
                    i <= n,
                    t.kind == TypeKind::Function(*f),
                    types_text(args@) == types_text(f.args@.subrange(0, i as int)),
                    args@.len() == i,
                    forall|j: int| 0 <= j < i ==> same_type(#[trigger] f.args@[j], args@[j]),
                decreases n - i,
            {
                proof {
                    let k = t.kind;
                    let ft = k->Function_0;
                    assert(decreases_to!(*t => k));
                    assert(decreases_to!(k => ft));
                    assert(decreases_to!(ft => ft.args));
                    assert(decreases_to!(ft.args => ft.args@));
                    assert(decreases_to!(ft.args@ => ft.args@[i as int]));
                }
                let a = copy_type(&f.args[i]);
                proof {
                    assert(args@.push(a).drop_last() =~= args@);
                    assert(f.args@.subrange(0, i + 1).drop_last() =~= f.args@.subrange(0, i as int));
                }
                args.push(a);
                i += 1;
            }
            proof {
                assert(f.args@.subrange(0, n as int) =~= f.args@);
            }
            TypeKind::Function(FuncType { id: f.id, ret: Box::new(ret), args })
        },
    };
    Type { id: t.id, kind, span: t.span }
}

pub fn copy_opt_type(t: &Option<Type>) -> (r: Option<Type>)
    ensures
        opt_type_text(r) == opt_type_text(*t),
        same_opt_type(*t, r),
{
    match t {
        Some(t) => Some(copy_type(t)),
        None => None,
    }
}

/// A copy of an attribute.
pub fn copy_attr(a: &FuncAttr) -> (r: FuncAttr)
    ensures
        r.ident.symbol@ == a.ident.symbol@,
        r == *a,
        r.id == a.id,
        r.ident.id == a.ident.id,
        r.ident.span == a.ident.span,
{
    FuncAttr {
        id: a.id,
        ident: Ident { id: a.ident.id, symbol: a.ident.symbol.clone(), span: a.ident.span },
    }
}

/// Puts a copy of `a` in its place among the sorted attributes `out`,
/// unless one of that name is there already.
fn insert_attr(out: &mut Vec<FuncAttr>, a: &FuncAttr)
    requires
        strictly_sorted(attr_names(old(out)@)),
    ensures
        strictly_sorted(attr_names(final(out)@)),
        attr_names(final(out)@).to_set() == attr_names(old(out)@).to_set().insert(a.ident.symbol@),
        forall|i: int| 0 <= i < final(out)@.len() ==> #[trigger] final(out)@[i] == *a || old(out)@.contains(final(out)@[i]),
{
    let ghost names = attr_names(out@);
    let ghost x = a.ident.symbol@;
    let n = out.len();
    let mut p: usize = 0;
    loop
        invariant
            n == out@.len(),
            p <= n,
            names == attr_names(out@),
            x == a.ident.symbol@,
            forall|k: int| 0 <= k < p ==> lex_lt(#[trigger] names[k], x),
        ensures
            p <= n,
            forall|k: int| 0 <= k < p ==> lex_lt(#[trigger] names[k], x),
            p < n ==> !lex_lt(names[p as int], x),
        decreases n - p,
    {
        if p >= n {
            break;
        }
        let less = lex_less(out[p].ident.symbol.as_str(), a.ident.symbol.as_str());
        assert(names[p as int] == out@[p as int].ident.symbol@);
        if !less {
            break;
        }
        p += 1;
    }
    proof {
        if p < n {
            assert(!lex_lt(names[p as int], x));
        }
    }
    if p < n && out[p].ident.symbol == a.ident.symbol {
        proof {
            assert(names[p as int] == x);
            assert(names.to_set().insert(x) =~= names.to_set());
        }
        return;
    }
    proof {
        if p < n {
            lemma_lex_total(names[p as int], x);
        }
    }
    out.insert(p, copy_attr(a));
    proof {
        assert forall|i: int| 0 <= i < out@.len() implies #[trigger] out@[i] == *a || old(out)@.contains(out@[i]) by {
            if i < p {
                assert(out@[i] == old(out)@[i]);
            } else if i > p {
                assert(out@[i] == old(out)@[i - 1]);
            }
        }
        let nn = attr_names(out@);
        assert(nn =~= names.insert(p as int, x));
        assert forall|i: int| 0 <= i < nn.len() - 1 implies lex_lt(#[trigger] nn[i], nn[i + 1]) by {
            if i < p - 1 {
                assert(nn[i] == names[i] && nn[i + 1] == names[i + 1]);
            } else if i == p - 1 {
                assert(nn[i] == names[i] && nn[i + 1] == x);
                assert(lex_lt(names[i], x));
            } else if i == p {
                assert(nn[i] == x && nn[i + 1] == names[i]);
            } else {
                assert(nn[i] == names[i - 1] && nn[i + 1] == names[i]);
            }
        }
        assert(nn.to_set() =~= names.to_set().insert(x)) by {
            assert forall|y: Seq<char>| nn.to_set().contains(y) implies names.to_set().insert(x).contains(y) by {
                let i = choose|i: int| 0 <= i < nn.len() && nn[i] == y;
                if i < p {
                    assert(names[i] == y);
                } else if i > p {
                    assert(names[i - 1] == y);
                }
            }
            assert forall|y: Seq<char>| names.to_set().insert(x).contains(y) implies nn.to_set().contains(y) by {
                if y == x {
                    assert(nn[p as int] == y);
                } else {
                    let i = choose|i: int| 0 <= i < names.len() && names[i] == y;
                    if i < p {
                        assert(nn[i] == y);
                    } else {
                        assert(nn[i + 1] == y);
                    }
                }
            }
        }
    }
}

/// The attributes of both lists, sorted by name, one for each name.
pub fn merge_attrs(first: &Vec<FuncAttr>, second: &Vec<FuncAttr>) -> (r: Vec<FuncAttr>)
    ensures
        strictly_sorted(attr_names(r@)),
        attr_names(r@).to_set() == attr_names(first@).to_set() + attr_names(second@).to_set(),
        forall|i: int| 0 <= i < r@.len() ==> first@.contains(#[trigger] r@[i]) || second@.contains(r@[i]),
{
    let mut out: Vec<FuncAttr> = Vec::new();
    let mut i: usize = 0;
    proof {
        assert(attr_names(out@).to_set() =~= Set::empty());
    }
    while i < first.len()
        invariant
            i <= first@.len(),
            strictly_sorted(attr_names(out@)),
            attr_names(out@).to_set() == attr_names(first@.subrange(0, i as int)).to_set(),
            forall|k: int| 0 <= k < out@.len() ==> first@.contains(#[trigger] out@[k]),
        decreases first@.len() - i,
    {
        let ghost prev = out@;
        insert_attr(&mut out, &first[i]);
        proof {
            assert forall|k: int| 0 <= k < out@.len() implies first@.contains(#[trigger] out@[k]) by {
                if out@[k] == first@[i as int] {
                    assert(first@[i as int] == first@[i as int]);
                } else {
                    let j = choose|j: int| 0 <= j < prev.len() && prev[j] == out@[k];
                    assert(first@.contains(prev[j]));
                }
            }
        }
        proof {
            assert(attr_names(first@.subrange(0, i + 1)) =~= attr_names(first@.subrange(0, i as int)).push(first@[i as int].ident.symbol@));
            attr_names(first@.subrange(0, i as int)).lemma_push_to_set_commute(first@[i as int].ident.symbol@);
        }
        i += 1;
    }
    proof {
        assert(first@.subrange(0, first@.len() as int) =~= first@);
    }
    let mut j: usize = 0;
    proof {
        assert(attr_names(second@.subrange(0, 0)).to_set() =~= Set::empty());
        assert(attr_names(out@).to_set() =~= attr_names(first@).to_set() + attr_names(second@.subrange(0, 0)).to_set());
    }
    while j < second.len()
        invariant
            j <= second@.len(),
            strictly_sorted(attr_names(out@)),
            attr_names(out@).to_set() == attr_names(first@).to_set() + attr_names(second@.subrange(0, j as int)).to_set(),
            forall|k: int| 0 <= k < out@.len() ==> first@.contains(#[trigger] out@[k]) || second@.contains(out@[k]),
        decreases second@.len() - j,
    {
        let ghost prev = out@;
        insert_attr(&mut out, &second[j]);
        proof {
            assert forall|k: int| 0 <= k < out@.len() implies first@.contains(#[trigger] out@[k]) || second@.contains(out@[k]) by {
                if out@[k] == second@[j as int] {
                    assert(second@[j as int] == second@[j as int]);
                } else {
                    let q = choose|q: int| 0 <= q < prev.len() && prev[q] == out@[k];
                    assert(first@.contains(prev[q]) || second@.contains(prev[q]));
                }
            }
        }
        proof {
            assert(attr_names(second@.subrange(0, j + 1)) =~= attr_names(second@.subrange(0, j as int)).push(second@[j as int].ident.symbol@));
            attr_names(second@.subrange(0, j as int)).lemma_push_to_set_commute(second@[j as int].ident.symbol@);
            assert(attr_names(out@).to_set() =~= attr_names(first@).to_set() + attr_names(second@.subrange(0, j + 1)).to_set());
        }
        j += 1;
    }
    proof {
        assert(second@.subrange(0, second@.len() as int) =~= second@);
    }
    out
}

} // verus!

verus! {

/// The declaration that a definition `a` of the module `ds` is merged with.
pub open spec fn match_of(ds: Seq<TopLevelDecl>, a: TopLevelDecl) -> Option<FuncDecl> {
    match def_name(a) {
        Some(n) => match last_decl(ds, n) {
            Some(j) => Some(ds[j].kind->FunctionDecl_0),
            None => None,
        },
        None => None,
    }
}

/// `ty` and `attrs` are what the definition `f` takes from the declaration
/// `d`: its signature, and both attribute lists sorted, one per name.
pub open spec fn takes_from(f: FuncDef, d: FuncDecl, ty: Option<Type>, attrs: Seq<FuncAttr>) -> bool {
    &&& opt_type_text(ty) == opt_type_text(d.ty)
    &&& same_opt_type(d.ty, ty)
    &&& forall|i: int| 0 <= i < attrs.len() ==> f.decl.attrs@.contains(#[trigger] attrs[i]) || d.attrs@.contains(attrs[i])
    &&& strictly_sorted(attr_names(attrs))
    &&& attr_names(attrs).to_set() == attr_names(f.decl.attrs@).to_set() + attr_names(d.attrs@).to_set()
}

/// `b` is what the merge makes of the declaration `a` of module `ds`: a
/// definition that has a declaration takes its signature and attributes,
/// everything else is left as it is.
pub open spec fn merged(ds: Seq<TopLevelDecl>, a: TopLevelDecl, b: TopLevelDecl) -> bool {
    match match_of(ds, a) {
        Some(d) => {
            let f = a.kind->FunctionDef_0;
            &&& b.id == a.id
            &&& b.span == a.span
            &&& b.kind is FunctionDef
            &&& {
                let g = b.kind->FunctionDef_0;
                &&& g.id == f.id
                &&& g.args == f.args
                &&& g.body == f.body
                &&& g.decl.id == f.decl.id
                &&& g.decl.ident == f.decl.ident
                &&& takes_from(f, d, g.decl.ty, g.decl.attrs@)
            }
        },
        None => b == a,
    }
}

pub proof fn lemma_last_decl(ds: Seq<TopLevelDecl>, n: Seq<char>)
    ensures
        last_decl(ds, n) matches Some(j) ==> 0 <= j < ds.len() && decl_name(ds[j]) == Some(n),
        last_decl(ds, n) is None ==> forall|j: int| 0 <= j < ds.len() ==> decl_name(#[trigger] ds[j]) != Some(n),
    decreases ds.len(),
{
    if ds.len() > 0 {
        lemma_last_decl(ds.drop_last(), n);
        if last_decl(ds, n) is None {
            assert forall|j: int| 0 <= j < ds.len() implies decl_name(#[trigger] ds[j]) != Some(n) by {
                if j < ds.len() - 1 {
                    assert(ds.drop_last()[j] == ds[j]);
                }
            }
        }
    }
}

/// Index of the last declaration named `name`.
pub fn last_decl_index(decls: &Vec<TopLevelDecl>, name: &String) -> (r: Option<usize>)
    ensures
        r matches Some(j) ==> last_decl(decls@, name@) == Some(j as int),
        r is None ==> last_decl(decls@, name@) is None,
{
    let mut i: usize = decls.len();
    assert(decls@.subrange(0, i as int) =~= decls@);
    while i > 0
        invariant
            i <= decls@.len(),
            last_decl(decls@, name@) == last_decl(decls@.subrange(0, i as int), name@),
        decreases i,
    {
        assert(decls@.subrange(0, i as int).drop_last() =~= decls@.subrange(0, i - 1));
        if let TopLevelDeclKind::FunctionDecl(d) = &decls[i - 1].kind {
            if d.ident.symbol == *name {
                return Some(i - 1);
            }
        }
        i -= 1;
    }
    None
}

pub struct DefMerger;

impl DefMerger {
    /// The signature and attributes that definition `def` takes from
    /// declaration `decl`.
    pub fn merge(decl: &FuncDecl, def: &FuncDef) -> (r: (Option<Type>, Vec<FuncAttr>))
        ensures
            takes_from(*def, *decl, r.0, r.1@),
    {
        let attrs = merge_attrs(&def.decl.attrs, &decl.attrs);
        (copy_opt_type(&decl.ty), attrs)
    }
}

/// Mutable pass merging declarations into the definitions of the same name.
pub struct DeclarationMerge;

impl DeclarationMerge {
    pub fn new() -> (r: Self) {
        DeclarationMerge
    }

    /// Merges every definition with the last declaration of its name, then
    /// removes the declarations so consumed; the others stay.
    pub fn visit_module(&mut self, node: &mut Module)
        ensures
            final(node).id == old(node).id,
            final(node).decl@.len() == kept(old(node).decl@, old(node).decl@.len() as int).len(),
            forall|i: int|
                0 <= i < final(node).decl@.len() ==> merged(
                    old(node).decl@,
                    old(node).decl@[kept(old(node).decl@, old(node).decl@.len() as int)[i]],
                    #[trigger] final(node).decl@[i],
                ),
    {
        let ghost ds = node.decl@;
        let n = node.decl.len();
        let mut marks: Vec<bool> = Vec::new();
        let mut k: usize = 0;
        while k < n
            invariant
                k <= n,
                marks@.len() == k,
                forall|j: int| 0 <= j < k ==> !(#[trigger] marks@[j]),
            decreases n - k,
        {
            marks.push(false);
            k += 1;
        }
        // Read the module once: what each definition takes, and which
        // declarations it consumes.
        let mut updates: Vec<Option<(Option<Type>, Vec<FuncAttr>)>> = Vec::new();
        let mut i: usize = 0;
        while i < n
            invariant
                n == ds.len(),
                node.decl@ == ds,
                i <= n,
                marks@.len() == n,
                updates@.len() == i,
                forall|j: int|
                    0 <= j < n ==> (#[trigger] marks@[j] <==> exists|k: int|
                        0 <= k < i && (#[trigger] def_name(ds[k])) is Some && last_decl(
                            ds,
                            def_name(ds[k])->Some_0,
                        ) == Some(j)),
                forall|k: int|
                    0 <= k < i ==> (#[trigger] updates@[k] is Some <==> match_of(ds, ds[k]) is Some),
                forall|k: int|
                    0 <= k < i && (#[trigger] updates@[k]) is Some ==> takes_from(
                        ds[k].kind->FunctionDef_0,
                        match_of(ds, ds[k])->Some_0,
                        updates@[k]->Some_0.0,
                        updates@[k]->Some_0.1@,
                    ),
            decreases n - i,
        {
            let mut update: Option<(Option<Type>, Vec<FuncAttr>)> = None;
            if let TopLevelDeclKind::FunctionDef(f) = &node.decl[i].kind {
                if let Some(j) = last_decl_index(&node.decl, &f.decl.ident.symbol) {
                    proof {
                        lemma_last_decl(ds, f.decl.ident.symbol@);
                    }
                    if let TopLevelDeclKind::FunctionDecl(d) = &node.decl[j].kind {
                        update = Some(DefMerger::merge(d, f));
                    }
                    marks.set(j, true);
                }
            }
            proof {
                assert(def_name(ds[i as int]) is Some ==> (match_of(ds, ds[i as int]) is Some <==> update is Some)) by {
                    lemma_last_decl(ds, def_name(ds[i as int])->Some_0);
                }
                assert forall|j: int|
                    0 <= j < n implies (#[trigger] marks@[j] <==> exists|k: int|
                        0 <= k < i + 1 && (#[trigger] def_name(ds[k])) is Some && last_decl(
                            ds,
                            def_name(ds[k])->Some_0,
                        ) == Some(j)) by {
                    if def_name(ds[i as int]) is Some && last_decl(ds, def_name(ds[i as int])->Some_0)
                        == Some(j) {
                        assert(def_name(ds[i as int]) is Some);
                    }
                }
            }
            updates.push(update);
            i += 1;
        }
        // Rebuild the module without the consumed declarations.
        let mut rest: Vec<TopLevelDecl> = Vec::new();
        std::mem::swap(&mut node.decl, &mut rest);
        let mut out: Vec<TopLevelDecl> = Vec::new();
        let mut i: usize = 0;
        while i < n
            invariant
                n == ds.len(),
                i <= n,
                rest@ == ds.subrange(i as int, n as int),
                updates@.len() == n - i,
                marks@.len() == n,
                forall|j: int| 0 <= j < n ==> (#[trigger] marks@[j] <==> consumed(ds, j)),
                forall|k: int|
                    0 <= k < n - i ==> (#[trigger] updates@[k] is Some <==> match_of(ds, ds[k + i]) is Some),
                forall|k: int|
                    0 <= k < n - i && (#[trigger] updates@[k]) is Some ==> takes_from(
                        ds[k + i].kind->FunctionDef_0,
                        match_of(ds, ds[k + i])->Some_0,
                        updates@[k]->Some_0.0,
                        updates@[k]->Some_0.1@,
                    ),
                out@.len() == kept(ds, i as int).len(),
                forall|k: int|
                    0 <= k < out@.len() ==> merged(ds, ds[kept(ds, i as int)[k]], #[trigger] out@[k]),
                node.id == old(node).id,
            decreases n - i,
        {
            let ghost before = updates@;
            let d = rest.remove(0);
            let update = updates.remove(0);
            assert(d == ds[i as int]);
            if !marks[i] {
                let d2 = match update {
                    Some((ty, attrs)) => {
                        let TopLevelDecl { id, kind, span } = d;
                        match kind {
                            TopLevelDeclKind::FunctionDef(f) => {
                                let FuncDef { id: f_id, decl, args, body } = f;
                                let FuncDecl { id: decl_id, ty: _, attrs: _, ident } = decl;
                                TopLevelDecl {
                                    id,
                                    span,
                                    kind: TopLevelDeclKind::FunctionDef(
                                        FuncDef {
                                            id: f_id,
                                            decl: FuncDecl { id: decl_id, ty, attrs, ident },
                                            args,
                                            body,
                                        },
                                    ),
                                }
                            },
                            other => TopLevelDecl { id, kind: other, span },
                        }
                    },
                    None => d,
                };
                out.push(d2);
            }
            proof {
                assert(kept(ds, i + 1) == if consumed(ds, i as int) {
                    kept(ds, i as int)
                } else {
                    kept(ds, i as int).push(i as int)
                });
                assert(rest@ =~= ds.subrange(i + 1, n as int));
                assert forall|k: int| 0 <= k < n - i - 1 implies (#[trigger] updates@[k] is Some <==> match_of(ds, ds[k + i + 1]) is Some) by {
                    assert(updates@[k] == before[k + 1]);
                }
            }
            i += 1;
        }
        node.decl = out;
    }
}

/// A declaration that no definition names stays, and a definition that no
/// declaration names is left as it is.
pub proof fn lemma_unmatched_kept(ds: Seq<TopLevelDecl>, j: int)
    requires
        0 <= j < ds.len(),
        decl_name(ds[j]) is Some ==> forall|k: int| 0 <= k < ds.len() ==> #[trigger] def_name(ds[k]) != decl_name(ds[j]),
        def_name(ds[j]) is Some ==> forall|k: int| 0 <= k < ds.len() ==> #[trigger] decl_name(ds[k]) != def_name(ds[j]),
    ensures
        decl_name(ds[j]) is Some ==> !consumed(ds, j),
        def_name(ds[j]) is Some ==> merged(ds, ds[j], ds[j]),
{
    if decl_name(ds[j]) is Some {
        if consumed(ds, j) {
            let k = choose|k: int|
                0 <= k < ds.len() && (#[trigger] def_name(ds[k])) is Some && last_decl(
                    ds,
                    def_name(ds[k])->Some_0,
                ) == Some(j);
            lemma_last_decl(ds, def_name(ds[k])->Some_0);
        }
    }
    if def_name(ds[j]) is Some {
        lemma_last_decl(ds, def_name(ds[j])->Some_0);
        if last_decl(ds, def_name(ds[j])->Some_0) is Some {
            let i = last_decl(ds, def_name(ds[j])->Some_0)->Some_0;
            assert(decl_name(ds[i]) == def_name(ds[j]));
        }
    }
}

} // verus!
