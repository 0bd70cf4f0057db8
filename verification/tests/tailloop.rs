use lib::lua::{Block, Expr, FnTarget, FuncBody, Stmt};
use lib::loops::tail_loop_pass;

/// Run the pass over a module and return the rendered output.
fn converted(mut stmts: Vec<Stmt>) -> (String, bool) {
    let rewrote = tail_loop_pass(&mut stmts);
    let mut out = String::new();
    Block(stmts).render(0, &mut out);
    (out, rewrote)
}

/// `__mll_fn[1] = function(n, acc)` with a diverging if/else body whose
/// else arm tail-calls the slot: the canonical accumulator.
fn slot_accumulator() -> Vec<Stmt> {
    vec![
        Stmt::Local(vec!["__mll_fn".into()], Some(Expr::Table(vec![]))),
        Stmt::Function {
            target: FnTarget::Slot(1),
            params: vec!["n".into(), "acc".into()],
            body: Block(vec![Stmt::If {
                cond: Expr::binop("==", Expr::name("n"), Expr::lit("0")),
                then_b: Block(vec![Stmt::Return(Expr::name("acc"))]),
                elseifs: vec![],
                else_b: Some(Block(vec![Stmt::Return(Expr::call_named(
                    "__mll_fn[1]",
                    vec![
                        Expr::binop("-", Expr::name("n"), Expr::lit("1")),
                        Expr::binop("+", Expr::name("acc"), Expr::name("n")),
                    ],
                ))])),
            }]),
        },
    ]
}

#[test]
fn slot_accumulator_converts_to_loop() {
    let (out, rewrote) = converted(slot_accumulator());
    assert!(rewrote);
    assert!(out.contains("while true do"), "{out}");
    assert!(out.contains("local _w0 = n"), "{out}");
    assert!(out.contains("local _w1 = acc"), "{out}");
    assert!(out.contains("if _w0 == 0 then"), "{out}");
    assert!(out.contains("n, acc = _w0 - 1, _w1 + _w0"), "{out}");
    assert!(!out.contains("goto continue"), "{out}");
    assert!(!out.contains("::continue::"), "{out}");
}

#[test]
fn swap_update_is_one_simultaneous_assignment() {
    let stmts = vec![
        Stmt::Local(vec!["go".into()], None),
        Stmt::Function {
            target: FnTarget::Assigned("go".into()),
            params: vec!["a".into(), "b".into()],
            body: Block(vec![Stmt::If {
                cond: Expr::name("a"),
                then_b: Block(vec![Stmt::Return(Expr::name("b"))]),
                elseifs: vec![],
                else_b: Some(Block(vec![Stmt::Return(Expr::call_named(
                    "go",
                    vec![Expr::name("b"), Expr::name("a")],
                ))])),
            }]),
        },
    ];
    let (out, rewrote) = converted(stmts);
    assert!(rewrote);
    assert!(out.contains("a, b = _w1, _w0"), "{out}");
}

#[test]
fn do_tail_and_non_tail_rejection() {
    let stmts = vec![Stmt::Function {
        target: FnTarget::LocalFn("f".into()),
        params: vec!["x".into()],
        body: Block(vec![
            Stmt::If {
                cond: Expr::name("x"),
                then_b: Block(vec![Stmt::Return(Expr::call_named("f", vec![Expr::lit("1")]))]),
                elseifs: vec![],
                else_b: None,
            },
            Stmt::Do(Block(vec![Stmt::Return(Expr::call_named("f", vec![Expr::lit("2")]))])),
        ]),
    }];
    let (out, rewrote) = converted(stmts);
    assert!(rewrote);
    assert!(out.contains("x = 2"), "{out}");
    assert!(out.contains("return f(1)"), "{out}");
    assert!(!out.contains("x = 1"), "{out}");
}

#[test]
fn fall_off_body_gets_goto_shape() {
    let stmts = vec![Stmt::Function {
        target: FnTarget::LocalFn("f".into()),
        params: vec!["x".into()],
        body: Block(vec![Stmt::If {
            cond: Expr::name("x"),
            then_b: Block(vec![Stmt::Return(Expr::call_named("f", vec![Expr::lit("1")]))]),
            elseifs: vec![],
            else_b: None,
        }]),
    }];
    let (out, rewrote) = converted(stmts);
    assert!(rewrote);
    assert!(out.contains("goto continue"), "{out}");
    assert!(out.contains("::continue::"), "{out}");
    let ret = out.find("return\n").expect("bare return");
    let lab = out.find("::continue::").expect("label");
    assert!(ret < lab, "{out}");
}

#[test]
fn single_binding_gate() {
    let mut stmts = slot_accumulator();
    stmts.push(Stmt::Assign("__mll_fn[1]".into(), Expr::name("something_else")));
    let (_, rewrote) = converted(stmts);
    assert!(!rewrote);

    let stmts = vec![
        Stmt::Function {
            target: FnTarget::LocalFn("f".into()),
            params: vec!["x".into()],
            body: Block(vec![Stmt::Return(Expr::call_named("f", vec![Expr::lit("1")]))]),
        },
        Stmt::Assign("f".into(), Expr::name("g")),
    ];
    let (_, rewrote) = converted(stmts);
    assert!(!rewrote);
}

#[test]
fn varargs_and_unknown_headers_skip() {
    let cases: Vec<(FnTarget, Vec<String>)> = vec![
        (FnTarget::LocalFn("f".into()), vec!["...".into()]),
        (FnTarget::LocalFn("f".into()), vec!["a".into(), "...".into()]),
        (FnTarget::Assigned("_v[3]".into()), vec!["a".into()]),
        (FnTarget::Slot(2), vec!["_v".into(), "...".into()]),
        (FnTarget::LocalFn("f".into()), vec!["a".into(), "a".into()]),
    ];
    for (target, params) in cases {
        let header = target.header_string(&params);
        let stmts = vec![
            Stmt::Local(vec!["__mll_fn".into()], Some(Expr::Table(vec![]))),
            Stmt::Function {
                target,
                params,
                body: Block(vec![Stmt::Return(Expr::call_named("f", vec![Expr::lit("1")]))]),
            },
        ];
        let (_, rewrote) = converted(stmts);
        assert!(!rewrote, "header {header:?} must be skipped");
    }
}

#[test]
fn raw_mention_of_parameter_blocks() {
    let stmts = vec![Stmt::Function {
        target: FnTarget::LocalFn("f".into()),
        params: vec!["x".into()],
        body: Block(vec![
            Stmt::Raw("x = x + 1".into()),
            Stmt::Return(Expr::call_named("f", vec![Expr::lit("1")])),
        ]),
    }];
    let (out, rewrote) = converted(stmts);
    assert!(!rewrote, "{out}");
}

#[test]
fn raw_mention_of_self_name_blocks() {
    let stmts = vec![
        Stmt::Function {
            target: FnTarget::LocalFn("f".into()),
            params: vec!["x".into()],
            body: Block(vec![Stmt::Return(Expr::call_named("f", vec![Expr::lit("1")]))]),
        },
        Stmt::Raw("host_hook(f)".into()),
    ];
    let (_, rewrote) = converted(stmts);
    assert!(!rewrote);
}

#[test]
fn shadowed_parameter_is_not_renamed() {
    let stmts = vec![Stmt::Function {
        target: FnTarget::LocalFn("f".into()),
        params: vec!["x".into()],
        body: Block(vec![
            Stmt::Local(
                vec!["g".into()],
                Some(Expr::Func(
                    vec!["x".into()],
                    FuncBody::Inline(vec![Stmt::Return(Expr::name("x"))]),
                )),
            ),
            Stmt::If {
                cond: Expr::name("x"),
                then_b: Block(vec![Stmt::Return(Expr::name("g"))]),
                elseifs: vec![],
                else_b: Some(Block(vec![Stmt::Return(Expr::call_named("f", vec![Expr::name("x")]))])),
            },
        ]),
    }];
    let (out, rewrote) = converted(stmts);
    assert!(rewrote);
    assert!(out.contains("function(x) return x end"), "{out}");
    assert!(out.contains("if _w0 then"), "{out}");
    assert!(out.contains("x = _w0"), "{out}");
}

#[test]
fn multi_return_body_is_not_converted() {
    let stmts = vec![Stmt::Function {
        target: FnTarget::LocalFn("f".into()),
        params: vec!["x".into()],
        body: Block(vec![Stmt::If {
            cond: Expr::name("x"),
            then_b: Block(vec![Stmt::Return(Expr::call_named("host_fn", vec![]))]),
            elseifs: vec![],
            else_b: Some(Block(vec![Stmt::Return(Expr::call_named("f", vec![Expr::lit("1")]))])),
        }]),
    }];
    let (_, rewrote) = converted(stmts);
    assert!(!rewrote);
}

/// The pass leaves a module without any self-recursive definition alone.
#[test]
fn module_without_self_calls_is_unchanged() {
    let stmts = vec![Stmt::Function {
        target: FnTarget::LocalFn("f".into()),
        params: vec!["x".into()],
        body: Block(vec![Stmt::Return(Expr::call_named("g", vec![Expr::name("x")]))]),
    }];
    let (out, rewrote) = converted(stmts);
    assert!(!rewrote);
    assert_eq!(out, "local function f(x)\n    return g(x)\nend\n");
}

/// A fresh-name collision pushes the copy prefix to `_w_`.
#[test]
fn copy_names_avoid_existing_tokens() {
    let stmts = vec![Stmt::Function {
        target: FnTarget::LocalFn("f".into()),
        params: vec!["x".into()],
        body: Block(vec![
            Stmt::Local(vec!["_w0".into()], Some(Expr::lit("1"))),
            Stmt::Return(Expr::call_named("f", vec![Expr::name("_w0")])),
        ]),
    }];
    let (out, rewrote) = converted(stmts);
    assert!(rewrote);
    assert!(out.contains("local _w_0 = x"), "{out}");
    assert!(out.contains("x = _w0"), "{out}");
}
