use lib::ast::{CaseBranch, ClassMethod, Clause, Decl, DoStmt, Expr, Literal, LocalDef, Method, Module, Pattern, Span};
use lib::desugar::desugar_module;

fn var(s: &str) -> Expr {
    Expr::Var(s.to_string())
}

fn app(f: Expr, a: Expr) -> Expr {
    Expr::App(Box::new(f), Box::new(a))
}

fn clause(body: Expr) -> Clause {
    Clause { patterns: vec![], guards: vec![], body: Some(body), where_binds: vec![] }
}

fn fun(body: Expr) -> Module {
    Module { decls: vec![Decl::FunDef { name: "main".to_string(), clauses: vec![clause(body)] }] }
}

fn body_of(m: &Module) -> &Expr {
    match &m.decls[0] {
        Decl::FunDef { clauses, .. } => clauses[0].body.as_ref().expect("body"),
        _ => panic!("shape"),
    }
}

fn is_var(e: &Expr, s: &str) -> bool {
    matches!(e, Expr::Var(n) if n == s)
}

/// `lhs >>= \param -> body`: the parts, if `e` has that shape.
fn bind_parts(e: &Expr) -> Option<(&Expr, &str, &Expr)> {
    match e {
        Expr::InfixApp { op, lhs, rhs } if op == ">>=" => match rhs.as_ref() {
            Expr::Lambda { params, body } if params.len() == 1 => Some((lhs.as_ref(), params[0].as_str(), body.as_ref())),
            _ => None,
        },
        _ => None,
    }
}

#[test]
fn bind_statement_becomes_bind_chain() {
    let mut m = fun(Expr::Do(vec![
        DoStmt::Bind { name: "x".to_string(), expr: var("getLine") },
        DoStmt::Expr(app(var("putStrLn"), var("x"))),
    ]));
    desugar_module(&mut m);
    let (lhs, param, body) = bind_parts(body_of(&m)).expect("bind");
    assert!(is_var(lhs, "getLine"));
    assert_eq!(param, "x");
    assert!(matches!(body, Expr::App(f, a) if is_var(f, "putStrLn") && is_var(a, "x")));
}

#[test]
fn expression_statement_binds_underscore() {
    let mut m = fun(Expr::Do(vec![DoStmt::Expr(var("a")), DoStmt::Expr(var("b"))]));
    desugar_module(&mut m);
    let (lhs, param, body) = bind_parts(body_of(&m)).expect("bind");
    assert!(is_var(lhs, "a"));
    assert_eq!(param, "_");
    assert!(is_var(body, "b"));
}

#[test]
fn single_statement_do_is_its_expression() {
    let mut m = fun(Expr::Do(vec![DoStmt::Expr(var("a"))]));
    desugar_module(&mut m);
    assert!(is_var(body_of(&m), "a"));
}

#[test]
fn empty_do_is_false() {
    let mut m = fun(Expr::Do(vec![]));
    desugar_module(&mut m);
    assert!(matches!(body_of(&m), Expr::Lit(Literal::Bool(false))));
}

#[test]
fn let_statement_scopes_the_rest() {
    let mut m = fun(Expr::Do(vec![
        DoStmt::DoLet {
            binds: vec![
                LocalDef { name: "y".to_string(), patterns: vec![], body: var("z") },
                LocalDef { name: "z".to_string(), patterns: vec![], body: var("one") },
            ],
        },
        DoStmt::Expr(app(var("print"), var("y"))),
    ]));
    desugar_module(&mut m);
    match body_of(&m) {
        Expr::Let { binds, body } => {
            assert_eq!(binds.len(), 2);
            assert_eq!(binds[0].name, "y");
            assert_eq!(binds[1].name, "z");
            assert!(matches!(body.as_ref(), Expr::App(f, a) if is_var(f, "print") && is_var(a, "y")));
        },
        _ => panic!("expected one let group"),
    }
}

#[test]
fn refutable_pattern_bind_gets_a_located_fallback() {
    let mut m = fun(Expr::Do(vec![
        DoStmt::Expr(var("start")),
        DoStmt::PatternBind {
            pattern: Pattern::Constructor { name: "Just".to_string(), args: vec![Pattern::Var("x".to_string())] },
            expr: var("lookup"),
            span: Span { line: 3, col: 5 },
        },
        DoStmt::Expr(var("x")),
    ]));
    desugar_module(&mut m);
    let (_, _, rest) = bind_parts(body_of(&m)).expect("outer bind");
    let (lhs, param, case) = bind_parts(rest).expect("pattern bind");
    assert!(is_var(lhs, "lookup"));
    assert_eq!(param, "__tup_1");
    match case {
        Expr::Case { scrutinee, branches } => {
            assert!(is_var(scrutinee, "__tup_1"));
            assert_eq!(branches.len(), 2);
            assert!(matches!(&branches[0].pattern, Pattern::Constructor { name, .. } if name == "Just"));
            assert!(matches!(&branches[0].body, Some(e) if is_var(e, "x")));
            assert!(matches!(branches[1].pattern, Pattern::Wildcard));
            match &branches[1].body {
                Some(Expr::App(f, a)) => {
                    assert!(is_var(f, "error"));
                    match a.as_ref() {
                        Expr::Lit(Literal::Str(bytes)) => {
                            assert_eq!(bytes.as_slice(), b"Pattern match failure in do expression at 3:5");
                        },
                        _ => panic!("message"),
                    }
                },
                _ => panic!("fallback"),
            }
        },
        _ => panic!("expected a case"),
    }
}

#[test]
fn irrefutable_pattern_bind_has_no_fallback() {
    let mut m = fun(Expr::Do(vec![
        DoStmt::PatternBind {
            pattern: Pattern::Tuple(vec![Pattern::Var("a".to_string()), Pattern::Wildcard]),
            expr: var("pair"),
            span: Span { line: 1, col: 1 },
        },
        DoStmt::Expr(var("a")),
    ]));
    desugar_module(&mut m);
    let (_, param, case) = bind_parts(body_of(&m)).expect("bind");
    assert_eq!(param, "__tup_0");
    match case {
        Expr::Case { branches, .. } => {
            let only: &CaseBranch = &branches[0];
            assert_eq!(branches.len(), 1);
            assert!(matches!(only.pattern, Pattern::Tuple(_)));
        },
        _ => panic!("expected a case"),
    }
}

#[test]
fn curried_lambda_in_callee_position_is_flattened() {
    let lam = Expr::Paren(Box::new(Expr::Lambda {
        params: vec!["t".to_string()],
        body: Box::new(Expr::Lambda { params: vec!["v".to_string()], body: Box::new(var("e")) }),
    }));
    let mut m = fun(app(app(lam, Expr::Lit(Literal::Integer(2))), Expr::Lit(Literal::Integer(3))));
    desugar_module(&mut m);
    match body_of(&m) {
        Expr::App(f, three) => {
            assert!(matches!(three.as_ref(), Expr::Lit(Literal::Integer(3))));
            match f.as_ref() {
                Expr::App(g, two) => {
                    assert!(matches!(two.as_ref(), Expr::Lit(Literal::Integer(2))));
                    match g.as_ref() {
                        Expr::Lambda { params, body } => {
                            assert_eq!(params, &vec!["t".to_string(), "v".to_string()]);
                            assert!(is_var(body, "e"));
                        },
                        _ => panic!("expected one lambda"),
                    }
                },
                _ => panic!("shape"),
            }
        },
        _ => panic!("shape"),
    }
}

#[test]
fn lambda_passed_as_argument_stays_curried() {
    let lam = Expr::Paren(Box::new(Expr::Lambda {
        params: vec!["n".to_string()],
        body: Box::new(Expr::Lambda { params: vec!["x".to_string()], body: Box::new(var("x")) }),
    }));
    let mut m = fun(app(var("map"), lam));
    desugar_module(&mut m);
    match body_of(&m) {
        Expr::App(f, a) => {
            assert!(is_var(f, "map"));
            match a.as_ref() {
                Expr::Paren(inner) => match inner.as_ref() {
                    Expr::Lambda { params, body } => {
                        assert_eq!(params.len(), 1);
                        assert!(matches!(body.as_ref(), Expr::Lambda { .. }));
                    },
                    _ => panic!("shape"),
                },
                _ => panic!("shape"),
            }
        },
        _ => panic!("shape"),
    }
}

#[test]
fn instance_and_default_methods_are_desugared() {
    let mut m = Module {
        decls: vec![
            Decl::TypeSig { name: "main".to_string() },
            Decl::InstanceDecl {
                class_name: "Show".to_string(),
                methods: vec![Method {
                    name: "show".to_string(),
                    clauses: vec![clause(Expr::Do(vec![DoStmt::Expr(var("s"))]))],
                }],
            },
            Decl::ClassDecl {
                name: "Pretty".to_string(),
                methods: vec![
                    ClassMethod {
                        name: "pretty".to_string(),
                        default_clauses: Some(vec![clause(Expr::Do(vec![DoStmt::Expr(var("p"))]))]),
                    },
                    ClassMethod { name: "width".to_string(), default_clauses: None },
                ],
            },
        ],
    };
    desugar_module(&mut m);
    assert!(matches!(&m.decls[0], Decl::TypeSig { name } if name == "main"));
    match &m.decls[1] {
        Decl::InstanceDecl { methods, .. } => {
            assert!(matches!(&methods[0].clauses[0].body, Some(e) if is_var(e, "s")));
        },
        _ => panic!("shape"),
    }
    match &m.decls[2] {
        Decl::ClassDecl { methods, .. } => {
            match &methods[0].default_clauses {
                Some(cs) => assert!(matches!(&cs[0].body, Some(e) if is_var(e, "p"))),
                None => panic!("defaults"),
            }
            assert!(methods[1].default_clauses.is_none());
        },
        _ => panic!("shape"),
    }
}

fn has_do(e: &Expr) -> bool {
    match e {
        Expr::Do(_) => true,
        Expr::App(f, a) => has_do(f) || has_do(a),
        Expr::InfixApp { lhs, rhs, .. } => has_do(lhs) || has_do(rhs),
        Expr::Lambda { body, .. } => has_do(body),
        Expr::Let { binds, body } => binds.iter().any(|b| has_do(&b.body)) || has_do(body),
        Expr::If { cond, then_branch, else_branch } => has_do(cond) || has_do(then_branch) || has_do(else_branch),
        Expr::Case { scrutinee, branches } => {
            has_do(scrutinee)
                || branches.iter().any(|b| {
                    b.guards.iter().any(|g| has_do(&g.condition) || has_do(&g.body))
                        || b.body.as_ref().map_or(false, has_do)
                })
        },
        Expr::Paren(b) | Expr::Negate(b) => has_do(b),
        Expr::Tuple(es) | Expr::List(es) => es.iter().any(has_do),
        Expr::Var(_) | Expr::Con(_) | Expr::Lit(_) => false,
    }
}

#[test]
fn no_do_block_survives_anywhere() {
    let inner = || Expr::Do(vec![DoStmt::Expr(var("a")), DoStmt::Expr(var("b"))]);
    let body = Expr::Tuple(vec![
        inner(),
        Expr::Case {
            scrutinee: Box::new(inner()),
            branches: vec![CaseBranch {
                pattern: Pattern::Wildcard,
                guards: vec![lib::ast::Guard { condition: inner(), body: inner() }],
                body: Some(Expr::Let {
                    binds: vec![LocalDef { name: "k".to_string(), patterns: vec![], body: inner() }],
                    body: Box::new(Expr::Do(vec![DoStmt::Expr(inner())])),
                }),
            }],
        },
    ]);
    let mut m = fun(body);
    desugar_module(&mut m);
    assert!(!has_do(body_of(&m)));
}
