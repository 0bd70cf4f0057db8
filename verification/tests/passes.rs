use lib::lua::{render_stmts, Block, Expr, FnTarget, FuncBody, Stmt};
use lib::luacopy::copy_expr;
use lib::passes::{run_with, Disable};

fn function_body(stmts: &[Stmt], k: usize) -> &Vec<Stmt> {
    match &stmts[k] {
        Stmt::Function { body, .. } => &body.0,
        _ => panic!("shape"),
    }
}

#[test]
fn ioloop_toggle() {
    // The refutation engine that also checked the converted output is not
    // part of this library, so only the shape of the conversion is checked.
    let make = || {
        vec![
            Stmt::Local(vec!["__mll_fn".into()], Some(Expr::Table(vec![]))),
            Stmt::Function {
                target: FnTarget::Slot(1),
                params: vec!["n".into()],
                body: Block(vec![Stmt::If {
                    cond: Expr::name("n"),
                    then_b: Block(vec![Stmt::Return(Expr::Func(
                        vec![],
                        FuncBody::Block(Block(vec![Stmt::Return(Expr::lit("nil"))])),
                    ))]),
                    elseifs: vec![],
                    else_b: Some(Block(vec![Stmt::Return(Expr::Func(
                        vec![],
                        FuncBody::Block(Block(vec![Stmt::Return(Expr::call_named(
                            "__mll_run_tail",
                            vec![Expr::call_named("__mll_fn[1]", vec![Expr::lit("1")])],
                        ))])),
                    ))])),
                }]),
            },
        ]
    };
    let mut on = make();
    run_with(&mut on, &Disable::default());
    let body = function_body(&on, 1);
    assert!(
        matches!(&body[0], Stmt::Local(names, _) if names == &vec!["_lp".to_string()]),
        "enabled pass must convert"
    );

    let mut off = make();
    run_with(&mut off, &Disable { ioloop: true, ..Disable::default() });
    let body = function_body(&off, 1);
    assert!(matches!(&body[0], Stmt::If { .. }), "disabled pass must leave the two-level shape");
}

#[test]
fn performloop_toggle() {
    // The refutation engine that also checked the converted output is not
    // part of this library, so only the shape of the conversion is checked.
    let make = || {
        vec![
            Stmt::Local(vec!["__mll_fn".into()], Some(Expr::Table(vec![]))),
            Stmt::Function {
                target: FnTarget::Slot(1),
                params: vec!["n".into()],
                body: Block(vec![Stmt::If {
                    cond: Expr::name("n"),
                    then_b: Block(vec![Stmt::Return(Expr::lit("nil"))]),
                    elseifs: vec![],
                    else_b: Some(Block(vec![Stmt::Return(Expr::call_named(
                        "__mll_run_tail",
                        vec![Expr::call_named("__mll_fn[1]", vec![Expr::lit("1")])],
                    ))])),
                }]),
            },
        ]
    };
    let mut on = make();
    run_with(&mut on, &Disable::default());
    let body = function_body(&on, 1);
    assert!(matches!(body[0], Stmt::WhileTrue(_)), "enabled pass must convert");

    let mut off = make();
    run_with(&mut off, &Disable { performloop: true, ..Disable::default() });
    let body = function_body(&off, 1);
    assert!(matches!(&body[0], Stmt::If { .. }), "disabled pass must leave the direct-perform recursion");
}

#[test]
fn tailloop_toggle() {
    // The refutation engine that also checked the converted output is not
    // part of this library, so only the shape of the conversion is checked.
    let make = || {
        vec![Stmt::Function {
            target: FnTarget::LocalFn("f".into()),
            params: vec!["x".into()],
            body: Block(vec![Stmt::If {
                cond: Expr::name("x"),
                then_b: Block(vec![Stmt::Return(Expr::lit("0"))]),
                elseifs: vec![],
                else_b: Some(Block(vec![Stmt::Return(Expr::call_named("f", vec![Expr::lit("1")]))])),
            }]),
        }]
    };
    let mut on = make();
    run_with(&mut on, &Disable::default());
    let body = function_body(&on, 0);
    assert!(matches!(body[0], Stmt::WhileTrue(_)), "enabled pass must convert");

    let mut off = make();
    run_with(&mut off, &Disable { tailloop: true, ..Disable::default() });
    let body = function_body(&off, 0);
    assert!(matches!(body[0], Stmt::If { .. }), "disabled pass must leave the recursion");
}

#[test]
fn skip_list_reads_names_and_reports_unknown_ones() {
    let (d, unknown) = Disable::from_list(" parens , dead,,bogus,\tiife ");
    assert_eq!(d, Disable { parens: true, dead: true, iife: true, ..Disable::default() });
    assert_eq!(unknown, vec!["bogus".to_string()]);
}

#[test]
fn empty_skip_list_skips_nothing() {
    let (d, unknown) = Disable::from_list("");
    assert_eq!(d, Disable::default());
    assert!(unknown.is_empty());
}

#[test]
fn every_pass_name_is_known() {
    let (d, unknown) = Disable::from_list("parens,dead,iife,force,tailloop,ioloop,performloop");
    assert!(unknown.is_empty());
    assert!(d.parens && d.dead && d.iife && d.force && d.tailloop && d.ioloop && d.performloop);
}

#[test]
fn passes_compose_in_order() {
    // A dead statement after a return-position IIFE: dead-branch removal
    // drops it, which leaves the IIFE last so that it can be spliced.
    let f = Expr::Func(vec!["a".into()], FuncBody::Block(Block(vec![Stmt::Return(Expr::name("a"))])));
    let stmts = || {
        vec![
            Stmt::Return(Expr::call(Expr::paren(copy_expr(&f)), vec![Expr::lit("1")])),
            Stmt::Expr(Expr::call_named("g", vec![])),
        ]
    };
    let mut all = stmts();
    run_with(&mut all, &Disable::default());
    assert_eq!(render_stmts(&all), "local a = 1\nreturn a\n");

    let mut no_dead = stmts();
    run_with(&mut no_dead, &Disable { dead: true, ..Disable::default() });
    assert!(render_stmts(&no_dead).starts_with("return (function(a)"));
}

#[test]
fn force_collapse_toggle() {
    let make = || vec![Stmt::Return(Expr::force(Expr::lit("42")))];
    let mut on = make();
    run_with(&mut on, &Disable::default());
    assert!(matches!(&on[0], Stmt::Return(Expr::Lit(s)) if s == "42"));
    let mut off = make();
    run_with(&mut off, &Disable { force: true, ..Disable::default() });
    assert!(matches!(&off[0], Stmt::Return(Expr::Call(..))), "disabled peephole must leave __force in place");
}

#[test]
fn force_collapse_subsumes_whnf_locals() {
    let mut stmts = vec![
        Stmt::Local(vec!["x".into()], Some(Expr::force(Expr::name("y")))),
        Stmt::Return(Expr::force(Expr::name("x"))),
    ];
    run_with(&mut stmts, &Disable::default());
    assert!(matches!(&stmts[1], Stmt::Return(Expr::Name(n)) if n == "x"));
}

#[test]
fn force_of_unknown_stays() {
    let mut stmts = vec![Stmt::Return(Expr::force(Expr::call_named("f", vec![])))];
    run_with(&mut stmts, &Disable::default());
    assert!(matches!(&stmts[0], Stmt::Return(Expr::Call(..))));
}

#[test]
fn a_reassigned_local_keeps_its_force() {
    let mut stmts = vec![
        Stmt::Local(vec!["x".into()], Some(Expr::lit("1"))),
        Stmt::Assign("x".into(), Expr::call_named("g", vec![])),
        Stmt::Return(Expr::force(Expr::name("x"))),
    ];
    run_with(&mut stmts, &Disable::default());
    assert!(matches!(&stmts[2], Stmt::Return(Expr::Call(..))));
}
