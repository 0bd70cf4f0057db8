use lib::iife::flatten_iife;
use lib::lua::{render_stmts, Block, Expr, FuncBody, Stmt};

fn iife(params: &[&str], body: Vec<Stmt>, args: Vec<Expr>) -> Expr {
    let f = Expr::Func(params.iter().map(|p| p.to_string()).collect(), FuncBody::Block(Block(body)));
    Expr::call(Expr::paren(f), args)
}

fn flattened(mut stmts: Vec<Stmt>) -> String {
    flatten_iife(&mut stmts);
    render_stmts(&stmts)
}

#[test]
fn return_position_iife_binds_parameters_and_splices_body() {
    let body = vec![Stmt::Return(Expr::binop("+", Expr::name("a"), Expr::lit("1")))];
    let out = flattened(vec![Stmt::Return(iife(&["a"], body, vec![Expr::name("x")]))]);
    assert_eq!(out, "local a = x\nreturn a + 1\n");
}

#[test]
fn argument_mentioning_earlier_parameter_declines() {
    let body = vec![Stmt::Return(Expr::name("a"))];
    let out = flattened(vec![Stmt::Return(iife(&["a", "b"], body, vec![Expr::name("x"), Expr::name("a")]))]);
    assert_eq!(out, "return (function(a, b)\n    return a\nend)(x, a)\n");
}

#[test]
fn return_iife_that_is_not_last_stays() {
    let body = vec![Stmt::Return(Expr::name("a"))];
    let out = flattened(vec![
        Stmt::Return(iife(&["a"], body, vec![Expr::name("x")])),
        Stmt::ReturnNone,
    ]);
    assert!(out.starts_with("return (function(a)"), "{out}");
}

#[test]
fn fresh_local_value_splice() {
    let body = vec![
        Stmt::Local(vec!["t".into()], Some(Expr::call_named("f", vec![]))),
        Stmt::Return(Expr::name("t")),
    ];
    let out = flattened(vec![
        Stmt::Local(vec!["y".into()], Some(iife(&[], body, vec![]))),
        Stmt::Return(Expr::name("y")),
    ]);
    assert_eq!(out, "local t = f()\nlocal y = t\nreturn y\n");
}

#[test]
fn lvalue_value_splice_with_tail_if() {
    let tail = Stmt::If {
        cond: Expr::name("c"),
        then_b: Block(vec![Stmt::Return(Expr::lit("1"))]),
        elseifs: vec![],
        else_b: Some(Block(vec![Stmt::Return(Expr::lit("2"))])),
    };
    let out = flattened(vec![Stmt::Assign("y".into(), iife(&[], vec![tail], vec![]))]);
    assert_eq!(out, "if c then\n    y = 1\nelse\n    y = 2\nend\n");
}

#[test]
fn lvalue_tail_if_without_else_declines() {
    let tail = Stmt::If {
        cond: Expr::name("c"),
        then_b: Block(vec![Stmt::Return(Expr::lit("1"))]),
        elseifs: vec![],
        else_b: None,
    };
    let out = flattened(vec![Stmt::Assign("y".into(), iife(&[], vec![tail], vec![]))]);
    assert!(out.starts_with("y = (function()"), "{out}");
}

#[test]
fn fresh_tail_if_declares_first() {
    let tail = Stmt::If {
        cond: Expr::name("c"),
        then_b: Block(vec![Stmt::Return(Expr::lit("1"))]),
        elseifs: vec![],
        else_b: None,
    };
    let out = flattened(vec![Stmt::Local(vec!["y".into()], Some(iife(&[], vec![tail], vec![])))]);
    assert_eq!(out, "local y\nif c then\n    y = 1\nend\n");
}

#[test]
fn introduced_name_used_later_declines() {
    let body = vec![
        Stmt::Local(vec!["t".into()], Some(Expr::call_named("f", vec![]))),
        Stmt::Return(Expr::name("t")),
    ];
    let out = flattened(vec![
        Stmt::Local(vec!["y".into()], Some(iife(&[], body, vec![]))),
        Stmt::Return(Expr::name("t")),
    ]);
    assert!(out.starts_with("local y = (function()"), "{out}");
}

#[test]
fn spliced_body_is_flattened_again() {
    let inner = vec![Stmt::Return(Expr::name("b"))];
    let outer = vec![Stmt::Return(iife(&["b"], inner, vec![Expr::name("a")]))];
    let out = flattened(vec![Stmt::Return(iife(&["a"], outer, vec![Expr::lit("7")]))]);
    assert_eq!(out, "local a = 7\nlocal b = a\nreturn b\n");
}

#[test]
fn full_scope_declines_splice() {
    let mut stmts: Vec<Stmt> = (0..180).map(|i| Stmt::Local(vec![format!("v{i}")], None)).collect();
    let body = vec![Stmt::Return(Expr::name("a"))];
    stmts.push(Stmt::Return(iife(&["a"], body, vec![Expr::lit("1")])));
    flatten_iife(&mut stmts);
    assert_eq!(stmts.len(), 181);
    assert!(matches!(&stmts[180], Stmt::Return(Expr::Call(..))));
}

#[test]
fn nested_function_body_is_its_own_scope() {
    let body = vec![Stmt::Return(Expr::name("a"))];
    let f = Stmt::Function {
        target: lib::lua::FnTarget::LocalFn("g".into()),
        params: vec![],
        body: Block(vec![Stmt::Return(iife(&["a"], body, vec![Expr::lit("1")]))]),
    };
    let out = flattened(vec![f]);
    assert_eq!(out, "local function g()\n    local a = 1\n    return a\nend\n");
}

#[test]
fn scope_with_room_for_one_splice_spends_it() {
    let mut stmts: Vec<Stmt> = (0..179).map(|i| Stmt::Local(vec![format!("v{i}")], None)).collect();
    let body = vec![Stmt::Return(Expr::name("a"))];
    stmts.push(Stmt::Return(iife(&["a"], body, vec![Expr::lit("1")])));
    flatten_iife(&mut stmts);
    assert_eq!(stmts.len(), 181);
    assert!(matches!(&stmts[179], Stmt::Local(names, Some(_)) if names == &vec!["a".to_string()]));
}
