use lib::loops::perform_loop_pass;
use lib::lua::{Block, Expr, FnTarget, FuncBody, Stmt};

fn converted(mut stmts: Vec<Stmt>) -> (String, bool) {
    let rewrote = perform_loop_pass(&mut stmts);
    let mut out = String::new();
    Block(stmts).render(0, &mut out);
    (out, rewrote)
}

fn run_tail(e: Expr) -> Expr {
    Expr::call_named("__mll_run_tail", vec![e])
}

fn closure(stmts: Vec<Stmt>) -> Expr {
    Expr::Func(vec![], FuncBody::Block(Block(stmts)))
}

fn iife(stmts: Vec<Stmt>) -> Expr {
    Expr::call(Expr::paren(closure(stmts)), vec![])
}

/// The direct shape: force at call, effect statement, `return nil`
/// terminal, tail self site through the runner.
fn countdown() -> Vec<Stmt> {
    vec![
        Stmt::Local(vec!["__mll_fn".into()], Some(Expr::Table(vec![]))),
        Stmt::Function {
            target: FnTarget::Slot(3),
            params: vec!["_arg0".into()],
            body: Block(vec![
                Stmt::Local(vec!["n".into()], Some(Expr::force(Expr::name("_arg0")))),
                Stmt::Expr(run_tail(Expr::call_named(
                    "__mll_fn[9]",
                    vec![Expr::name("n")],
                ))),
                Stmt::If {
                    cond: Expr::binop("==", Expr::name("n"), Expr::lit("0")),
                    then_b: Block(vec![Stmt::Return(Expr::lit("nil"))]),
                    elseifs: vec![],
                    else_b: Some(Block(vec![Stmt::Return(run_tail(Expr::call_named(
                        "__mll_fn[3]",
                        vec![Expr::binop("-", Expr::name("n"), Expr::lit("1"))],
                    )))])),
                },
            ]),
        },
    ]
}

#[test]
fn direct_shape_converts() {
    let (out, rewrote) = converted(countdown());
    assert!(rewrote, "{out}");
    assert!(out.contains("while true do"), "{out}");
    // Per-iteration copy, body renamed onto it.
    assert!(out.contains("local _w0 = _arg0"), "{out}");
    assert!(out.contains("local n = __force(_w0)"), "{out}");
    // The effect statement runs inside the loop, once per iteration.
    assert!(out.contains("__mll_run_tail(__mll_fn[9](n))"), "{out}");
    // The terminal stays verbatim; the site became update + goto.
    assert!(out.contains("return nil"), "{out}");
    assert!(out.contains("_arg0 = n - 1"), "{out}");
    assert!(out.contains("goto continue"), "{out}");
    assert!(out.contains("::continue::"), "{out}");
    // No recursion remains.
    assert!(!out.contains("__mll_run_tail(__mll_fn[3]"), "{out}");
}

/// The dispatch shape: `return __mll_run_tail((function() … end)())`
/// whose IIFE branches return a plain action expression (gets the wrap),
/// an action closure with an effect and the tail self site (spliced),
/// and the bare self call (wrap makes it a site).
fn dispatch() -> Vec<Stmt> {
    vec![
        Stmt::Local(vec!["__mll_fn".into()], Some(Expr::Table(vec![]))),
        Stmt::Function {
            target: FnTarget::Slot(5),
            params: vec!["_arg0".into()],
            body: Block(vec![
                Stmt::Local(vec!["n".into()], Some(Expr::force(Expr::name("_arg0")))),
                Stmt::Return(run_tail(iife(vec![Stmt::If {
                    cond: Expr::binop("==", Expr::name("n"), Expr::lit("0")),
                    then_b: Block(vec![Stmt::Return(Expr::call_named(
                        "__mll_fn[1]",
                        vec![Expr::lit("\"done\"")],
                    ))]),
                    elseifs: vec![(
                        Expr::binop("==", Expr::name("n"), Expr::lit("1")),
                        Block(vec![Stmt::Return(Expr::call_named(
                            "__mll_fn[5]",
                            vec![Expr::lit("0")],
                        ))]),
                    )],
                    else_b: Some(Block(vec![Stmt::Return(closure(vec![
                        Stmt::Expr(run_tail(Expr::call_named(
                            "__mll_fn[1]",
                            vec![Expr::name("n")],
                        ))),
                        Stmt::Return(run_tail(Expr::call_named(
                            "__mll_fn[5]",
                            vec![Expr::binop("-", Expr::name("n"), Expr::lit("1"))],
                        ))),
                    ]))])),
                }]))),
            ]),
        },
    ]
}

#[test]
fn dispatch_shape_converts() {
    let (out, rewrote) = converted(dispatch());
    assert!(rewrote, "{out}");
    // The IIFE dissolved: no function literal remains in the loop.
    assert!(!out.contains("function()"), "{out}");
    // The plain branch got the pending runner's wrap, reading the copy.
    assert!(out.contains("return __mll_run_tail(__mll_fn[1](\"done\"))"), "{out}");
    // The bare self-call branch became a site.
    assert!(out.contains("_arg0 = 0"), "{out}");
    // The spliced closure kept its effect and its site became the update.
    assert!(out.contains("__mll_run_tail(__mll_fn[1](n))"), "{out}");
    assert!(out.contains("_arg0 = n - 1"), "{out}");
    assert_eq!(out.matches("goto continue").count(), 2, "{out}");
}

#[test]
fn nested_dispatch_converts() {
    // closure → runner(IIFE) → self site: the fn200 nesting.
    let stmts = vec![
        Stmt::Local(vec!["__mll_fn".into()], Some(Expr::Table(vec![]))),
        Stmt::Function {
            target: FnTarget::Slot(7),
            params: vec!["_arg0".into()],
            body: Block(vec![Stmt::If {
                cond: Expr::name("_arg0"),
                then_b: Block(vec![Stmt::Return(Expr::lit("nil"))]),
                elseifs: vec![],
                else_b: Some(Block(vec![Stmt::Return(run_tail(iife(vec![
                    Stmt::Return(closure(vec![
                        Stmt::Local(
                            vec!["res".into()],
                            Some(Expr::call_named(
                                "__mll_run",
                                vec![Expr::call_named(
                                    "__mll_fn[8]",
                                    vec![Expr::name("_arg0")],
                                )],
                            )),
                        ),
                        Stmt::Return(run_tail(iife(vec![Stmt::If {
                            cond: Expr::name("res"),
                            then_b: Block(vec![Stmt::Return(Expr::call_named(
                                "__mll_fn[7]",
                                vec![Expr::name("res")],
                            ))]),
                            elseifs: vec![],
                            else_b: Some(Block(vec![Stmt::Return(closure(vec![
                                Stmt::Return(Expr::lit("nil")),
                            ]))])),
                        }]))),
                    ])),
                ])))])),
            }]),
        },
    ];
    let (out, rewrote) = converted(stmts);
    assert!(rewrote, "{out}");
    // All three nesting levels dissolved; the bind stays per iteration.
    assert!(out.contains("local res = __mll_run(__mll_fn[8](_w0))"), "{out}");
    assert!(out.contains("_arg0 = res"), "{out}");
    assert!(out.contains("return nil"), "{out}");
    assert!(!out.contains("function()"), "{out}");
}

#[test]
fn action_builder_terminal_declines() {
    // A multi-statement closure at result level is an action BUILDER's
    // branch (ioloop's territory): outside the terminal vocabulary.
    let stmts = vec![
        Stmt::Local(vec!["__mll_fn".into()], Some(Expr::Table(vec![]))),
        Stmt::Function {
            target: FnTarget::Slot(3),
            params: vec!["_arg0".into()],
            body: Block(vec![Stmt::If {
                cond: Expr::name("_arg0"),
                then_b: Block(vec![Stmt::Return(closure(vec![
                    Stmt::Expr(run_tail(Expr::call_named("__mll_fn[9]", vec![]))),
                    Stmt::Return(Expr::lit("nil")),
                ]))]),
                elseifs: vec![],
                else_b: Some(Block(vec![Stmt::Return(run_tail(Expr::call_named(
                    "__mll_fn[3]",
                    vec![Expr::name("_arg0")],
                )))])),
            }]),
        },
    ];
    let (out, rewrote) = converted(stmts);
    assert!(!rewrote, "{out}");
}

#[test]
fn pure_suspension_terminal_kept_verbatim() {
    // The `pure acc` protection closure — `function() return acc end` —
    // is a terminal at both levels: kept verbatim (never spliced, never
    // wrapped), so the payload crosses to the consumer unforced.
    let stmts = vec![
        Stmt::Local(vec!["__mll_fn".into()], Some(Expr::Table(vec![]))),
        Stmt::Function {
            target: FnTarget::Slot(3),
            params: vec!["_arg0".into(), "_arg1".into()],
            body: Block(vec![
                Stmt::Local(vec!["acc".into()], Some(Expr::name("_arg1"))),
                Stmt::Return(run_tail(iife(vec![Stmt::If {
                    cond: Expr::name("_arg0"),
                    then_b: Block(vec![Stmt::Return(closure(vec![Stmt::Return(
                        Expr::name("acc"),
                    )]))]),
                    elseifs: vec![],
                    else_b: Some(Block(vec![Stmt::Return(Expr::call_named(
                        "__mll_fn[3]",
                        vec![Expr::lit("true"), Expr::name("acc")],
                    ))])),
                }]))),
            ]),
        },
    ];
    let (out, rewrote) = converted(stmts);
    assert!(rewrote, "{out}");
    // The protection closure survives (its payload could be a thunk)…
    assert!(out.contains("return function()"), "{out}");
    assert!(out.contains("return acc"), "{out}");
    // …and never gets a runner wrap, which would force the payload.
    assert!(!out.contains("__mll_run_tail(function"), "{out}");
    assert!(out.contains("_arg0, _arg1 = true, acc"), "{out}");
}

#[test]
fn identity_payload_suspension_unwraps() {
    // `function() return nil end`: the payload cannot be a thunk, so
    // the protection is dropped and the literal returns bare.
    let stmts = vec![
        Stmt::Local(vec!["__mll_fn".into()], Some(Expr::Table(vec![]))),
        Stmt::Function {
            target: FnTarget::Slot(3),
            params: vec!["_arg0".into()],
            body: Block(vec![Stmt::Return(run_tail(iife(vec![Stmt::If {
                cond: Expr::name("_arg0"),
                then_b: Block(vec![Stmt::Return(closure(vec![Stmt::Return(
                    Expr::lit("nil"),
                )]))]),
                elseifs: vec![],
                else_b: Some(Block(vec![Stmt::Return(Expr::call_named(
                    "__mll_fn[3]",
                    vec![Expr::lit("false")],
                ))])),
            }])))]),
        },
    ];
    let (out, rewrote) = converted(stmts);
    assert!(rewrote, "{out}");
    assert!(out.contains("return nil"), "{out}");
    assert!(!out.contains("function()"), "{out}");
}

#[test]
fn unknown_terminal_declines() {
    // `return x` — a bare name the tree cannot prove the runner passes
    // through unchanged.
    let mut stmts = countdown();
    let Stmt::Function { body, .. } = &mut stmts[1] else { panic!("shape") };
    let Stmt::If { then_b, .. } = &mut body.0[2] else { panic!("shape") };
    then_b.0[0] = Stmt::Return(Expr::name("n"));
    let (out, rewrote) = converted(stmts);
    assert!(!rewrote, "{out}");
}

#[test]
fn pure_box_and_run_tail_terminals_convert() {
    let stmts = vec![
        Stmt::Local(vec!["__mll_fn".into()], Some(Expr::Table(vec![]))),
        Stmt::Function {
            target: FnTarget::Slot(3),
            params: vec!["_arg0".into(), "_arg1".into()],
            body: Block(vec![Stmt::If {
                cond: Expr::name("_arg0"),
                then_b: Block(vec![Stmt::Return(Expr::call_named(
                    "__mll_pure",
                    vec![Expr::name("_arg1")],
                ))]),
                elseifs: vec![(
                    Expr::name("_arg1"),
                    Block(vec![Stmt::Return(run_tail(Expr::call_named(
                        "__mll_fn[4]",
                        vec![Expr::name("_arg0")],
                    )))]),
                )],
                else_b: Some(Block(vec![Stmt::Return(run_tail(Expr::call_named(
                    "__mll_fn[3]",
                    vec![Expr::name("_arg1"), Expr::name("_arg0")],
                )))])),
            }]),
        },
    ];
    let (out, rewrote) = converted(stmts);
    assert!(rewrote, "{out}");
    // The box terminal and the other-function forward stay verbatim
    // (renamed onto the copies); the swap update is simultaneous.
    assert!(out.contains("return __mll_pure(_w1)"), "{out}");
    assert!(out.contains("return __mll_run_tail(__mll_fn[4](_w0))"), "{out}");
    assert!(out.contains("_arg0, _arg1 = _w1, _w0"), "{out}");
}

#[test]
fn non_tail_site_jumps_past_following_raise() {
    // A site in a non-tail if (the raise follows): the update must jump
    // to the continue label, and the raise must stay reachable.
    let stmts = vec![
        Stmt::Local(vec!["__mll_fn".into()], Some(Expr::Table(vec![]))),
        Stmt::Function {
            target: FnTarget::Slot(3),
            params: vec!["_arg0".into()],
            body: Block(vec![
                Stmt::If {
                    cond: Expr::name("_arg0"),
                    then_b: Block(vec![Stmt::Return(run_tail(Expr::call_named(
                        "__mll_fn[3]",
                        vec![Expr::lit("1")],
                    )))]),
                    elseifs: vec![],
                    else_b: None,
                },
                Stmt::Expr(Expr::call_named("error", vec![Expr::lit("\"boom\"")])),
            ]),
        },
    ];
    let (out, rewrote) = converted(stmts);
    assert!(rewrote, "{out}");
    assert!(out.contains("goto continue"), "{out}");
    let loop_part = &out[out.find("while true do").unwrap()..];
    assert!(loop_part.contains("error(\"boom\")"), "{out}");
}

#[test]
fn non_tail_non_diverging_splice_declines() {
    // A dispatch IIFE that can fall off its end, at a NON-tail return:
    // splicing would fall into the raise that follows. Must decline.
    let stmts = vec![
        Stmt::Local(vec!["__mll_fn".into()], Some(Expr::Table(vec![]))),
        Stmt::Function {
            target: FnTarget::Slot(3),
            params: vec!["_arg0".into()],
            body: Block(vec![
                Stmt::If {
                    cond: Expr::name("_arg0"),
                    then_b: Block(vec![Stmt::Return(run_tail(iife(vec![Stmt::If {
                        cond: Expr::name("_arg0"),
                        then_b: Block(vec![Stmt::Return(Expr::call_named(
                            "__mll_fn[3]",
                            vec![Expr::lit("1")],
                        ))]),
                        elseifs: vec![],
                        else_b: None,
                    }])))]),
                    elseifs: vec![],
                    else_b: None,
                },
                Stmt::Expr(Expr::call_named("error", vec![Expr::lit("\"boom\"")])),
            ]),
        },
    ];
    let (out, rewrote) = converted(stmts);
    assert!(!rewrote, "{out}");
}

#[test]
fn tail_non_diverging_splice_converts() {
    // The same falling-off IIFE at the function's tail: a fall-off
    // reaches the loop's bare-return guard, reproducing the original's
    // nil-action fall-off. Converts.
    let stmts = vec![
        Stmt::Local(vec!["__mll_fn".into()], Some(Expr::Table(vec![]))),
        Stmt::Function {
            target: FnTarget::Slot(3),
            params: vec!["_arg0".into()],
            body: Block(vec![Stmt::Return(run_tail(iife(vec![Stmt::If {
                cond: Expr::name("_arg0"),
                then_b: Block(vec![Stmt::Return(Expr::call_named(
                    "__mll_fn[3]",
                    vec![Expr::lit("1")],
                ))]),
                elseifs: vec![],
                else_b: None,
            }])))]),
        },
    ];
    let (out, rewrote) = converted(stmts);
    assert!(rewrote, "{out}");
    assert!(out.contains("do\n            return\n        end"), "{out}");
    assert!(out.contains("::continue::"), "{out}");
}

#[test]
fn zero_param_site_is_bare_goto() {
    let stmts = vec![
        Stmt::Local(vec!["__mll_fn".into()], Some(Expr::Table(vec![]))),
        Stmt::Function {
            target: FnTarget::Slot(3),
            params: vec![],
            body: Block(vec![
                Stmt::Expr(run_tail(Expr::call_named("__mll_fn[9]", vec![]))),
                Stmt::Return(run_tail(Expr::call_named("__mll_fn[3]", vec![]))),
            ]),
        },
    ];
    let (out, rewrote) = converted(stmts);
    assert!(rewrote, "{out}");
    assert!(out.contains("goto continue"), "{out}");
    let loop_part =
        &out[out.find("while true do").unwrap()..out.find("::continue::").unwrap()];
    assert!(
        !loop_part.contains(" = "),
        "no update for a zero-parameter loop: {out}"
    );
}

#[test]
fn performloop_non_tail_self_run_stays() {
    // A bind `__mll_run(self(…))` re-enters the converted function: it
    // must survive verbatim.
    let mut stmts = countdown();
    let Stmt::Function { body, .. } = &mut stmts[1] else { panic!("shape") };
    body.0.insert(
        1,
        Stmt::Local(
            vec!["x".into()],
            Some(Expr::call_named(
                "__mll_run",
                vec![Expr::call_named("__mll_fn[3]", vec![Expr::lit("1")])],
            )),
        ),
    );
    let (out, rewrote) = converted(stmts);
    assert!(rewrote, "{out}");
    assert!(out.contains("local x = __mll_run(__mll_fn[3](1))"), "{out}");
}

#[test]
fn raw_mention_of_parameter_declines() {
    let mut stmts = countdown();
    let Stmt::Function { body, .. } = &mut stmts[1] else { panic!("shape") };
    body.0.insert(0, Stmt::Raw("_arg0 = nil".into()));
    let (_, rewrote) = converted(stmts);
    assert!(!rewrote);
}

#[test]
fn raw_return_declines() {
    let mut stmts = countdown();
    let Stmt::Function { body, .. } = &mut stmts[1] else { panic!("shape") };
    body.0.insert(0, Stmt::Raw("if host() then return host2() end".into()));
    let (_, rewrote) = converted(stmts);
    assert!(!rewrote);
}

#[test]
fn performloop_second_slot_store_declines() {
    let mut stmts = countdown();
    stmts.push(Stmt::Assign("__mll_fn[3]".into(), Expr::name("other")));
    let (_, rewrote) = converted(stmts);
    assert!(!rewrote);
}

#[test]
fn converted_two_level_body_declines() {
    // The shape ioloop's conversion leaves behind: `return _lp`
    // skeleton returns. The bare name is outside the identity-terminal
    // vocabulary, so this pass never touches an ioloop result.
    let stmts = vec![
        Stmt::Local(vec!["__mll_fn".into()], Some(Expr::Table(vec![]))),
        Stmt::Function {
            target: FnTarget::Slot(3),
            params: vec!["_arg0".into()],
            body: Block(vec![
                Stmt::Local(vec!["_lp".into()], Some(closure(vec![Stmt::Return(
                    Expr::lit("nil"),
                )]))),
                Stmt::If {
                    cond: Expr::name("_arg0"),
                    then_b: Block(vec![Stmt::Return(Expr::name("_lp"))]),
                    elseifs: vec![],
                    else_b: Some(Block(vec![Stmt::Return(run_tail(Expr::call_named(
                        "__mll_fn[3]",
                        vec![Expr::name("_arg0")],
                    )))])),
                },
            ]),
        },
    ];
    let (out, rewrote) = converted(stmts);
    assert!(!rewrote, "{out}");
}

#[test]
fn nested_runner_layers_collapse_to_one() {
    // `return __mll_run_tail(__mll_run_tail(self(…)))`: the outer
    // application is the identity (idempotence), the inner one is the
    // site.
    let stmts = vec![
        Stmt::Local(vec!["__mll_fn".into()], Some(Expr::Table(vec![]))),
        Stmt::Function {
            target: FnTarget::Slot(3),
            params: vec!["_arg0".into()],
            body: Block(vec![Stmt::If {
                cond: Expr::name("_arg0"),
                then_b: Block(vec![Stmt::Return(Expr::lit("nil"))]),
                elseifs: vec![],
                else_b: Some(Block(vec![Stmt::Return(run_tail(run_tail(
                    Expr::call_named("__mll_fn[3]", vec![Expr::lit("1")]),
                )))])),
            }]),
        },
    ];
    let (out, rewrote) = converted(stmts);
    assert!(rewrote, "{out}");
    assert!(out.contains("_arg0 = 1"), "{out}");
    assert!(!out.contains("__mll_run_tail(__mll_run_tail"), "{out}");
}

