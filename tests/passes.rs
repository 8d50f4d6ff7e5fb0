use ftl::ast::{Expr, ExprKind, LitKind, LitType, Module, TopLevelDeclKind, TypeKind, AST};
use ftl::dm::DeclarationMerge;
use ftl::epr::ExprPrecReassoc;
use ftl::gn::GetNode;
use ftl::parser::Parser;
use ftl::string::String as Source;

fn parse(text: &str) -> (AST, Parser) {
    let mut p = Parser::new(Source::from_str(text));
    let ast = match p.parse() {
        Ok(ast) => ast,
        Err(e) => panic!("parse failed: {}", e.msg),
    };
    (ast, p)
}

/// Fully parenthesised form of an expression.
fn show(e: &Expr) -> String {
    match &e.kind {
        ExprKind::Literal(l) => match l.kind {
            LitKind::Int(v) => v.to_string(),
        },
        ExprKind::Identifier(i) => i.symbol.clone(),
        ExprKind::InfixOpCall(c) => format!("({} {} {})", show(&c.lhs), c.op.symbol, show(&c.rhs)),
        ExprKind::InfixFuncCall(c) => {
            format!("({} `{} {})", show(&c.lhs), c.ident.symbol, show(&c.rhs))
        },
        ExprKind::Parenthesed(p) => format!("[{}]", show(&p.expr)),
        ExprKind::FunctionCall(c) => {
            let args: Vec<String> = c.args.iter().map(show).collect();
            format!("@{}({})", show(&c.lhs), args.join(" "))
        },
    }
}

/// The text an expression was read from, white space left out.
fn plain(e: &Expr) -> String {
    match &e.kind {
        ExprKind::Literal(l) => match l.kind {
            LitKind::Int(v) => v.to_string(),
        },
        ExprKind::Identifier(i) => i.symbol.clone(),
        ExprKind::InfixOpCall(c) => format!("{}{}{}", plain(&c.lhs), c.op.symbol, plain(&c.rhs)),
        ExprKind::InfixFuncCall(c) => {
            format!("{}`{}{}", plain(&c.lhs), c.ident.symbol, plain(&c.rhs))
        },
        ExprKind::Parenthesed(p) => format!("({})", plain(&p.expr)),
        ExprKind::FunctionCall(c) => {
            let args: Vec<String> = c.args.iter().map(plain).collect();
            format!("@{}{}", plain(&c.lhs), args.join(""))
        },
    }
}

fn strip(s: &str) -> String {
    s.chars().filter(|c| !c.is_whitespace()).collect()
}

/// Every expression node's span covers exactly the text it was read from.
fn check_spans(src: &Source, e: &Expr) {
    assert_eq!(strip(&src.source_with_span(&e.span)), plain(e));
    match &e.kind {
        ExprKind::InfixOpCall(c) => {
            check_spans(src, &c.lhs);
            check_spans(src, &c.rhs);
        },
        ExprKind::InfixFuncCall(c) => {
            check_spans(src, &c.lhs);
            check_spans(src, &c.rhs);
        },
        ExprKind::Parenthesed(p) => check_spans(src, &p.expr),
        ExprKind::FunctionCall(c) => {
            check_spans(src, &c.lhs);
            for a in &c.args {
                check_spans(src, a);
            }
        },
        _ => {},
    }
}

fn bodies(m: &Module) -> Vec<&Expr> {
    m.decl
        .iter()
        .filter_map(|d| match &d.kind {
            TopLevelDeclKind::FunctionDef(f) => Some(&f.body),
            TopLevelDeclKind::InfixDef(i) => Some(&i.body),
            _ => None,
        })
        .collect()
}

fn def_body<'a>(m: &'a Module, name: &str) -> &'a Expr {
    for d in &m.decl {
        if let TopLevelDeclKind::FunctionDef(f) = &d.kind {
            if f.decl.ident.symbol == name {
                return &f.body;
            }
        }
    }
    panic!("no definition {}", name)
}

const ARITH: &str = "infix 50 + a b: a\ninfix 100 * a b: a\n";

#[test]
fn parser_builds_left_flat_chains() {
    let (ast, _) = parse("def f: 1 + 2 * 3 - 4");
    assert_eq!(show(def_body(&ast.root, "f")), "(((1 + 2) * 3) - 4)");
}

#[test]
fn parser_reads_calls_parentheses_and_named_infix() {
    let (ast, p) = parse("def f x [inline]: @g (x + 1) 2 `max 3");
    assert_eq!(show(def_body(&ast.root, "f")), "(@g([(x + 1)] 2) `max 3)");
    assert!(p.errors().is_empty());
}

#[test]
fn parser_reads_declarations_and_types() {
    let (ast, _) = parse("decl foo int (int) void: int\ninfix 7 <> a b: a");
    assert_eq!(ast.root.decl.len(), 2);
    match &ast.root.decl[0].kind {
        TopLevelDeclKind::FunctionDecl(d) => {
            assert_eq!(d.ident.symbol, "foo");
            let ty = d.ty.as_ref().unwrap();
            match &ty.kind {
                TypeKind::Function(f) => {
                    assert_eq!(f.args.len(), 2);
                    assert!(matches!(f.ret.kind, TypeKind::Literal(LitType::Int)));
                },
                _ => panic!("function type expected"),
            }
        },
        _ => panic!("declaration expected"),
    }
    match &ast.root.decl[1].kind {
        TopLevelDeclKind::InfixDef(d) => {
            assert_eq!(d.precedence, 7);
            assert_eq!(d.op.symbol, "<>");
        },
        _ => panic!("infix definition expected"),
    }
}

#[test]
fn parser_fails_after_commitment() {
    let mut p = Parser::new(Source::from_str("def : 1"));
    assert!(p.parse().is_err());
    let mut p = Parser::new(Source::from_str("def f:"));
    assert!(p.parse().is_err());
}

#[test]
fn parser_records_missing_colon_and_goes_on() {
    let (ast, p) = parse("def f x 1");
    assert_eq!(ast.root.decl.len(), 1);
    assert_eq!(p.errors().len(), 1);
}

#[test]
fn parser_reports_leftover_input() {
    let (ast, p) = parse("def f: 1 )");
    assert_eq!(ast.root.decl.len(), 1);
    assert_eq!(p.errors().len(), 1);
    assert_eq!(p.errors()[0].msg, "End of file expected");
}

#[test]
fn epr_respects_precedence() {
    let text = format!("{}def f: 2 + 2 * 2", ARITH);
    let (mut ast, _) = parse(&text);
    assert_eq!(show(def_body(&ast.root, "f")), "((2 + 2) * 2)");
    let r = ExprPrecReassoc::new().run(&mut ast.root);
    assert!(matches!(r, Ok(true)));
    assert_eq!(show(def_body(&ast.root, "f")), "(2 + (2 * 2))");
}

#[test]
fn epr_second_run_rotates_nothing() {
    let text = format!("{}def f: 1 + 2 * 3 * 4 + 5 * 6 + 7", ARITH);
    let (mut ast, _) = parse(&text);
    let pass = ExprPrecReassoc::new();
    assert!(matches!(pass.run(&mut ast.root), Ok(true)));
    let once = show(def_body(&ast.root, "f"));
    assert_eq!(once, "(((1 + ((2 * 3) * 4)) + (5 * 6)) + 7)");
    assert!(matches!(pass.run(&mut ast.root), Ok(false)));
    assert_eq!(show(def_body(&ast.root, "f")), once);
}

#[test]
fn epr_uses_declarations_made_later() {
    let (mut ast, _) = parse("def f: 1 @@ 2 + 3\ninfix 50 + a b: a\ninfix 5 @@ a b: a");
    assert!(ExprPrecReassoc::new().run(&mut ast.root).is_ok());
    assert_eq!(show(def_body(&ast.root, "f")), "(1 @@ (2 + 3))");
}

#[test]
fn epr_last_declaration_wins() {
    let (mut ast, _) = parse("infix 1 + a b: a\ninfix 100 * a b: a\ninfix 200 + a b: a\ndef f: 1 + 2 * 3");
    assert!(ExprPrecReassoc::new().run(&mut ast.root).is_ok());
    assert_eq!(show(def_body(&ast.root, "f")), "((1 + 2) * 3)");
}

#[test]
fn epr_unknown_operator_is_named() {
    let text = format!("{}def f: 1 + 2 %% 3", ARITH);
    let (mut ast, _) = parse(&text);
    match ExprPrecReassoc::new().run(&mut ast.root) {
        Err(e) => {
            assert_eq!(e.ident, "%%");
            assert_eq!(e.desc(), "Unknown operator precedence: %%");
        },
        Ok(_) => panic!("unknown precedence expected"),
    }
    assert_eq!(show(def_body(&ast.root, "f")), "((1 + 2) %% 3)");
}

#[test]
fn epr_named_infix_binds_tighter_than_operators() {
    let text = format!("{}def f: 1 + 2 `max 3", ARITH);
    let (mut ast, _) = parse(&text);
    assert!(ExprPrecReassoc::new().run(&mut ast.root).is_ok());
    assert_eq!(show(def_body(&ast.root, "f")), "(1 + (2 `max 3))");
}

#[test]
fn epr_does_not_rotate_across_parentheses() {
    let text = format!("{}def f: (1 + 2) * 3 + @g (4 + 5 * 6)", ARITH);
    let (mut ast, _) = parse(&text);
    assert!(ExprPrecReassoc::new().run(&mut ast.root).is_ok());
    assert_eq!(show(def_body(&ast.root, "f")), "(([(1 + 2)] * 3) + @g([(4 + (5 * 6))]))");
}

#[test]
fn spans_cover_their_text_before_and_after_passes() {
    let text = format!(
        "{}decl foo int int: int\ndef foo a b: a + b * 2 + @g (a * b + 1) 3\ndef h x: x `max 1 + 2 * x",
        ARITH
    );
    let (mut ast, p) = parse(&text);
    let src = p.lexer().source();
    for e in bodies(&ast.root) {
        check_spans(src, e);
    }
    assert!(ExprPrecReassoc::new().run(&mut ast.root).is_ok());
    for e in bodies(&ast.root) {
        check_spans(src, e);
    }
    DeclarationMerge::new().visit_module(&mut ast.root);
    for e in bodies(&ast.root) {
        check_spans(src, e);
    }
}

#[test]
fn dm_merges_declaration_into_definition() {
    let (mut ast, _) = parse("decl foo int int: int\ndef foo a b: a + b");
    DeclarationMerge::new().visit_module(&mut ast.root);
    assert_eq!(ast.root.decl.len(), 1);
    match &ast.root.decl[0].kind {
        TopLevelDeclKind::FunctionDef(f) => {
            assert_eq!(f.decl.ident.symbol, "foo");
            match &f.decl.ty.as_ref().unwrap().kind {
                TypeKind::Function(t) => {
                    assert_eq!(t.args.len(), 2);
                    assert!(t.args.iter().all(|a| matches!(a.kind, TypeKind::Literal(LitType::Int))));
                    assert!(matches!(t.ret.kind, TypeKind::Literal(LitType::Int)));
                },
                _ => panic!("function type expected"),
            }
        },
        _ => panic!("definition expected"),
    }
}

#[test]
fn dm_unions_and_sorts_attributes() {
    let (mut ast, _) = parse("decl foo [remove inline]: int\ndef foo a [pure inline]: a");
    DeclarationMerge::new().visit_module(&mut ast.root);
    assert_eq!(ast.root.decl.len(), 1);
    match &ast.root.decl[0].kind {
        TopLevelDeclKind::FunctionDef(f) => {
            let names: Vec<&str> = f.decl.attrs.iter().map(|a| a.ident.symbol.as_str()).collect();
            assert_eq!(names, vec!["inline", "pure", "remove"]);
        },
        _ => panic!("definition expected"),
    }
}

#[test]
fn dm_leaves_unmatched_items() {
    let (mut ast, _) = parse("decl ext int: int\ndef bar x: x\ndecl foo: int\ndef foo: 1");
    DeclarationMerge::new().visit_module(&mut ast.root);
    assert_eq!(ast.root.decl.len(), 3);
    assert!(matches!(&ast.root.decl[0].kind, TopLevelDeclKind::FunctionDecl(d) if d.ident.symbol == "ext"));
    match &ast.root.decl[1].kind {
        TopLevelDeclKind::FunctionDef(f) => {
            assert_eq!(f.decl.ident.symbol, "bar");
            assert!(f.decl.ty.is_none());
            assert!(f.decl.attrs.is_empty());
        },
        _ => panic!("definition expected"),
    }
    assert!(matches!(&ast.root.decl[2].kind, TopLevelDeclKind::FunctionDef(f) if f.decl.ty.is_some()));
}

#[test]
fn dm_takes_the_last_declaration_of_a_name() {
    let (mut ast, _) = parse("decl foo: int\ndecl foo: void\ndef foo: 1");
    DeclarationMerge::new().visit_module(&mut ast.root);
    assert_eq!(ast.root.decl.len(), 2);
    match &ast.root.decl[1].kind {
        TopLevelDeclKind::FunctionDef(f) => match &f.decl.ty.as_ref().unwrap().kind {
            TypeKind::Function(t) => assert!(matches!(t.ret.kind, TypeKind::Literal(LitType::Void))),
            _ => panic!("function type expected"),
        },
        _ => panic!("definition expected"),
    }
}

#[test]
fn get_node_finds_expression_by_id() {
    let (ast, p) = parse("def f: 1 + 22");
    let body = def_body(&ast.root, "f");
    let rhs_id = match &body.kind {
        ExprKind::InfixOpCall(c) => c.rhs.id,
        _ => panic!("operator call expected"),
    };
    let mut g = GetNode::new(rhs_id);
    g.run(&ast.root);
    let span = g.get().unwrap();
    assert_eq!(p.lexer().source().source_with_span(&span), "22");
    let mut missing = GetNode::new(usize::MAX);
    missing.run(&ast.root);
    assert!(missing.get().is_none());
}

#[test]
fn fatal_diagnostics_are_rendered() {
    use_handler_for_unknown_precedence();
}

fn use_handler_for_unknown_precedence() {
    let (mut ast, p) = parse("def f: 1 ** 2");
    let err = match ExprPrecReassoc::new().run(&mut ast.root) {
        Err(e) => e,
        Ok(_) => panic!("unknown precedence expected"),
    };
    let mut h = ftl::error::Handler::new();
    h.err(ftl::error::LangError::UnknownPrecedence(err));
    assert_eq!(
        h.error_msg(p.lexer().source()).unwrap(),
        "[1:10] Unknown operator precedence: **\n\n**\n\n"
    );
}

#[test]
fn epr_rotation_keeps_ids_in_their_roles() {
    let text = format!("{}def f: 2 + 3 * 4", ARITH);
    let (mut ast, _) = parse(&text);
    let (outer_id, lhs_id, plus_id, times_id) = match &def_body(&ast.root, "f").kind {
        ExprKind::InfixOpCall(c) => match &c.lhs.kind {
            ExprKind::InfixOpCall(l) => (def_body(&ast.root, "f").id, c.lhs.id, l.op.id, c.op.id),
            _ => panic!("left-flat chain expected"),
        },
        _ => panic!("operator call expected"),
    };
    assert!(ExprPrecReassoc::new().run(&mut ast.root).is_ok());
    let body = def_body(&ast.root, "f");
    assert_eq!(body.id, outer_id);
    match &body.kind {
        ExprKind::InfixOpCall(c) => {
            assert_eq!(c.op.id, plus_id);
            assert_eq!(c.rhs.id, lhs_id);
            match &c.rhs.kind {
                ExprKind::InfixOpCall(r) => assert_eq!(r.op.id, times_id),
                _ => panic!("operator call expected"),
            }
        },
        _ => panic!("operator call expected"),
    }
}

#[test]
fn dm_copies_signature_with_its_span() {
    let (mut ast, p) = parse("decl foo int: int\ndef foo a: a");
    let decl_span = match &ast.root.decl[0].kind {
        TopLevelDeclKind::FunctionDecl(d) => d.ty.as_ref().unwrap().span,
        _ => panic!("declaration expected"),
    };
    DeclarationMerge::new().visit_module(&mut ast.root);
    match &ast.root.decl[0].kind {
        TopLevelDeclKind::FunctionDef(f) => {
            let ty = f.decl.ty.as_ref().unwrap();
            assert_eq!(ty.span, decl_span);
            assert_eq!(p.lexer().source().source_with_span(&ty.span), "int: int");
        },
        _ => panic!("definition expected"),
    }
}
