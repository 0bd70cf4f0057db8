use lib::loops::io_loop_pass;
use lib::lua::{Block, Expr, FnTarget, FuncBody, Stmt};

fn converted(mut stmts: Vec<Stmt>) -> (String, bool) {
    let rewrote = io_loop_pass(&mut stmts);
    let mut out = String::new();
    Block(stmts).render(0, &mut out);
    (out, rewrote)
}

fn run_tail(e: Expr) -> Expr {
    Expr::call_named("__mll_run_tail", vec![e])
}

fn closure(stmts: Vec<Stmt>) -> Expr {
    Expr::Func(vec![], FuncBody::Block(Block(stmts)))
}

fn slot3(body: Vec<Stmt>) -> Vec<Stmt> {
    vec![
        Stmt::Local(vec!["__mll_fn".into()], Some(Expr::Table(vec![]))),
        Stmt::Function {
            target: FnTarget::Slot(3),
            params: vec!["_arg0".into()],
            body: Block(body),
        },
    ]
}

fn function_body(stmts: &mut [Stmt]) -> &mut Vec<Stmt> {
    match &mut stmts[1] {
        Stmt::Function { body, .. } => &mut body.0,
        _ => panic!("shape"),
    }
}

/// The canonical two-level countdown: a build-time force, a terminal
/// branch closure, and a looping branch with an effect statement and the
/// tail self site.
fn countdown() -> Vec<Stmt> {
    slot3(vec![
        Stmt::Assign("_arg0".into(), Expr::force(Expr::name("_arg0"))),
        Stmt::If {
            cond: Expr::binop("==", Expr::name("_arg0"), Expr::lit("0")),
            then_b: Block(vec![Stmt::Return(closure(vec![Stmt::Return(Expr::lit("nil"))]))]),
            elseifs: vec![],
            else_b: Some(Block(vec![
                Stmt::Local(vec!["n".into()], Some(Expr::name("_arg0"))),
                Stmt::Return(closure(vec![
                    Stmt::Expr(run_tail(Expr::call_named("__mll_fn[9]", vec![Expr::name("n")]))),
                    Stmt::Return(run_tail(Expr::call_named(
                        "__mll_fn[3]",
                        vec![Expr::binop("-", Expr::name("n"), Expr::lit("1"))],
                    ))),
                ])),
            ])),
        },
    ])
}

#[test]
fn countdown_converts() {
    let (out, rewrote) = converted(countdown());
    assert!(rewrote, "{out}");
    // One loop closure, declared before the skeleton.
    assert!(out.contains("local _lp = function()"), "{out}");
    assert!(out.contains("while true do"), "{out}");
    // The loop re-dispatches on the per-iteration copy.
    assert!(out.contains("local _w0 = _arg0"), "{out}");
    assert!(out.contains("_w0 = __force(_w0)"), "{out}");
    // Terminal branch spliced verbatim inside the loop.
    assert!(out.contains("if _w0 == 0 then\n                return nil"), "{out}");
    // Effect statement kept; tail site became update + goto.
    assert!(out.contains("__mll_run_tail(__mll_fn[9](n))"), "{out}");
    assert!(out.contains("_arg0 = n - 1"), "{out}");
    assert!(out.contains("goto continue"), "{out}");
    assert!(out.contains("::continue::"), "{out}");
    // The skeleton keeps the build-time force and returns _lp from both
    // branches.
    assert!(out.contains("_arg0 = __force(_arg0)"), "{out}");
    assert_eq!(out.matches("return _lp").count(), 2, "{out}");
    // No per-iteration closure remains in the loop.
    assert!(!out.contains("return function()"), "{out}");
}

#[test]
fn value_branch_gets_runner_in_loop_only() {
    let stmts = slot3(vec![Stmt::If {
        cond: Expr::name("_arg0"),
        then_b: Block(vec![Stmt::Return(Expr::call_named("__mll_fn[7]", vec![Expr::name("_arg0")]))]),
        elseifs: vec![],
        else_b: Some(Block(vec![Stmt::Return(closure(vec![Stmt::Return(run_tail(
            Expr::call_named("__mll_fn[3]", vec![Expr::name("_arg0")]),
        ))]))])),
    }]);
    let (out, rewrote) = converted(stmts);
    assert!(rewrote, "{out}");
    // Loop side: runner-wrapped, reading the copy.
    assert!(out.contains("return __mll_run_tail(__mll_fn[7](_w0))"), "{out}");
    // Skeleton side: verbatim.
    assert!(out.contains("return __mll_fn[7](_arg0)"), "{out}");
}

#[test]
fn other_call_tail_forward_stays() {
    let stmts = slot3(vec![Stmt::If {
        cond: Expr::name("_arg0"),
        then_b: Block(vec![Stmt::Return(closure(vec![Stmt::Return(run_tail(Expr::call_named(
            "__mll_fn[8]",
            vec![Expr::name("_arg0")],
        )))]))]),
        elseifs: vec![],
        else_b: Some(Block(vec![Stmt::Return(closure(vec![Stmt::Return(run_tail(
            Expr::call_named("__mll_fn[3]", vec![Expr::name("_arg0")]),
        ))]))])),
    }]);
    let (out, rewrote) = converted(stmts);
    assert!(rewrote, "{out}");
    assert!(out.contains("return __mll_run_tail(__mll_fn[8](_w0))"), "{out}");
    // Self site rewritten, other site untouched.
    assert!(out.contains("_arg0 = _w0"), "{out}");
}

#[test]
fn effectful_skeleton_declines() {
    // The effect statement sits in skeleton position.
    let stmts = slot3(vec![
        Stmt::Expr(run_tail(Expr::call_named("__mll_fn[9]", vec![Expr::name("_arg0")]))),
        Stmt::Return(closure(vec![Stmt::Return(run_tail(Expr::call_named(
            "__mll_fn[3]",
            vec![Expr::name("_arg0")],
        )))])),
    ]);
    let (out, rewrote) = converted(stmts);
    assert!(!rewrote, "{out}");
}

#[test]
fn unknown_call_in_dispatch_declines() {
    let mut stmts = countdown();
    function_body(&mut stmts).insert(
        0,
        Stmt::Local(vec!["w".into()], Some(Expr::call_named("__mll_fn[12]", vec![Expr::lit("1")]))),
    );
    let (out, rewrote) = converted(stmts);
    assert!(!rewrote, "{out}");
}

#[test]
fn ioloop_non_tail_self_run_stays() {
    let stmts = slot3(vec![Stmt::If {
        cond: Expr::name("_arg0"),
        then_b: Block(vec![Stmt::Return(closure(vec![Stmt::Return(Expr::lit("nil"))]))]),
        elseifs: vec![],
        else_b: Some(Block(vec![Stmt::Return(closure(vec![
            Stmt::Local(
                vec!["x".into()],
                Some(Expr::call_named(
                    "__mll_run",
                    vec![Expr::call_named("__mll_fn[3]", vec![Expr::lit("1")])],
                )),
            ),
            Stmt::Return(run_tail(Expr::call_named("__mll_fn[3]", vec![Expr::name("x")]))),
        ]))])),
    }]);
    let (out, rewrote) = converted(stmts);
    assert!(rewrote, "{out}");
    assert!(out.contains("local x = __mll_run(__mll_fn[3](1))"), "{out}");
    assert!(out.contains("_arg0 = x"), "{out}");
}

#[test]
fn raw_in_skeleton_declines() {
    let mut stmts = countdown();
    function_body(&mut stmts).insert(0, Stmt::Raw("host_hook()".into()));
    let (_, rewrote) = converted(stmts);
    assert!(!rewrote);
}

#[test]
fn ioloop_second_slot_store_declines() {
    let mut stmts = countdown();
    stmts.push(Stmt::Assign("__mll_fn[3]".into(), Expr::name("other")));
    let (_, rewrote) = converted(stmts);
    assert!(!rewrote);
}

#[test]
fn non_diverging_closure_body_declines() {
    let stmts = slot3(vec![
        Stmt::If {
            cond: Expr::name("_arg0"),
            then_b: Block(vec![Stmt::Return(closure(vec![Stmt::If {
                cond: Expr::name("_arg0"),
                then_b: Block(vec![Stmt::Return(run_tail(Expr::call_named(
                    "__mll_fn[3]",
                    vec![Expr::lit("1")],
                )))]),
                elseifs: vec![],
                else_b: None,
            }]))]),
            elseifs: vec![],
            else_b: None,
        },
        Stmt::Expr(Expr::call_named("error", vec![Expr::lit("\"boom\"")])),
    ]);
    let (_, rewrote) = converted(stmts);
    assert!(!rewrote);
}

#[test]
fn guarded_chain_update_jumps_past_error() {
    let stmts = slot3(vec![
        Stmt::If {
            cond: Expr::name("_arg0"),
            then_b: Block(vec![Stmt::Return(closure(vec![Stmt::Return(run_tail(
                Expr::call_named("__mll_fn[3]", vec![Expr::lit("1")]),
            ))]))]),
            elseifs: vec![],
            else_b: None,
        },
        Stmt::Expr(Expr::call_named("error", vec![Expr::lit("\"boom\"")])),
    ]);
    let (out, rewrote) = converted(stmts);
    assert!(rewrote, "{out}");
    assert!(out.contains("goto continue"), "{out}");
    // The raise stays reachable in the loop.
    let loop_part = &out[out.find("while true do").unwrap()..];
    assert!(loop_part.contains("error(\"boom\")"), "{out}");
}

#[test]
fn per_iteration_capture_uses_fresh_locals() {
    let (out, _) = converted(countdown());
    let loop_part = &out[out.find("while true do").unwrap()..out.find("::continue::").unwrap()];
    assert!(loop_part.contains("local n = _w0"), "{out}");
    assert!(!loop_part.contains("local n = _arg0"), "{out}");
}

#[test]
fn loop_closure_name_avoids_taken_lp() {
    // `_lp` is already a token of the function: the loop closure takes the
    // next free candidate.
    let mut stmts = countdown();
    function_body(&mut stmts).insert(0, Stmt::Local(vec!["_lp".into()], Some(Expr::lit("1"))));
    let (out, rewrote) = converted(stmts);
    assert!(rewrote, "{out}");
    assert!(out.contains("local _lp_ = function()"), "{out}");
    assert_eq!(out.matches("return _lp_").count(), 2, "{out}");
}

#[test]
fn slot_definition_in_skeleton_declines() {
    let mut stmts = countdown();
    function_body(&mut stmts).insert(
        0,
        Stmt::Function { target: FnTarget::Slot(4), params: vec![], body: Block(vec![]) },
    );
    let (_, rewrote) = converted(stmts);
    assert!(!rewrote);
}

#[test]
fn closure_without_self_site_declines() {
    let stmts = slot3(vec![Stmt::Return(closure(vec![Stmt::Return(Expr::lit("nil"))]))]);
    let (_, rewrote) = converted(stmts);
    assert!(!rewrote);
}
