use lib::lua::{render_stmts, Block, Expr, FuncBody, Item, Stmt};
use lib::parens::normalize_parens;

fn normalized(mut stmts: Vec<Stmt>) -> String {
    normalize_parens(&mut stmts);
    render_stmts(&stmts)
}

#[test]
fn return_of_unknown_call_keeps_its_truncating_paren() {
    let out = normalized(vec![Stmt::Return(Expr::paren(Expr::call(Expr::name("f"), vec![Expr::name("x")])))]);
    assert_eq!(out, "return (f(x))\n");
}

#[test]
fn return_of_single_value_helper_sheds_paren() {
    let out = normalized(vec![Stmt::Return(Expr::paren(Expr::call(Expr::name("__force"), vec![Expr::name("x")])))]);
    assert_eq!(out, "return __force(x)\n");
}

#[test]
fn fn_table_slot_call_is_single_valued() {
    let callee = Expr::index(Expr::name("__mll_fn"), "[3]");
    let out = normalized(vec![Stmt::Return(Expr::paren(Expr::call(callee, vec![])))]);
    assert_eq!(out, "return __mll_fn[3]()\n");
}

#[test]
fn forwarding_helper_keeps_paren_at_return() {
    let out = normalized(vec![Stmt::Return(Expr::paren(Expr::call(Expr::name("__mll_seq"), vec![Expr::name("a")])))]);
    assert_eq!(out, "return (__mll_seq(a))\n");
}

#[test]
fn delimited_slot_sheds_any_call_and_binop() {
    let out = normalized(vec![
        Stmt::Local(vec!["x".into()], Some(Expr::paren(Expr::call(Expr::name("f"), vec![])))),
        Stmt::Assign("y".into(), Expr::paren(Expr::binop("+", Expr::name("a"), Expr::name("b")))),
    ]);
    assert_eq!(out, "local x = f()\ny = a + b\n");
}

#[test]
fn binop_operand_keeps_grouping_of_binop() {
    let inner = Expr::paren(Expr::binop("+", Expr::name("a"), Expr::name("b")));
    let out = normalized(vec![Stmt::Return(Expr::binop("*", inner, Expr::paren(Expr::name("c"))))]);
    assert_eq!(out, "return (a + b) * c\n");
}

#[test]
fn raw_text_keeps_its_paren() {
    let out = normalized(vec![Stmt::Assign("x".into(), Expr::paren(Expr::raw("a or b")))]);
    assert_eq!(out, "x = (a or b)\n");
}

#[test]
fn nested_paren_layers_all_shed() {
    let e = Expr::paren(Expr::paren(Expr::paren(Expr::name("v"))));
    let out = normalized(vec![Stmt::Assign("x".into(), e)]);
    assert_eq!(out, "x = v\n");
}

#[test]
fn thunk_body_return_is_single_value_position() {
    let body = FuncBody::Inline(vec![Stmt::Return(Expr::paren(Expr::call(Expr::name("g"), vec![])))]);
    let th = Expr::call(Expr::name("__thunk"), vec![Expr::Func(vec![], body)]);
    let out = normalized(vec![Stmt::Local(vec!["t".into()], Some(th))]);
    assert_eq!(out, "local t = __thunk(function() return g() end)\n");
}

#[test]
fn plain_function_literal_return_keeps_paren() {
    let body = FuncBody::Block(Block(vec![Stmt::Return(Expr::paren(Expr::call(Expr::name("g"), vec![])))]));
    let f = Expr::Func(vec![], body);
    let out = normalized(vec![Stmt::Local(vec!["h".into()], Some(f))]);
    assert_eq!(out, "local h = function()\n    return (g())\nend\n");
}

#[test]
fn last_call_argument_keeps_paren_others_shed() {
    let a = Expr::paren(Expr::call(Expr::name("p"), vec![]));
    let b = Expr::paren(Expr::call(Expr::name("q"), vec![]));
    let out = normalized(vec![Stmt::Expr(Expr::call(Expr::name("f"), vec![a, b]))]);
    assert_eq!(out, "f(p(), (q()))\n");
}

#[test]
fn prefix_position_keeps_paren_around_literal() {
    let recv = Expr::paren(Expr::lit("5"));
    let out = normalized(vec![Stmt::Expr(Expr::method(recv, "m", vec![]))]);
    assert_eq!(out, ";(5):m()\n");
}

#[test]
fn table_items_last_positional_spreads() {
    let items = vec![
        Item::Pos(Expr::paren(Expr::call(Expr::name("a"), vec![]))),
        Item::KV("k = ".into(), Expr::paren(Expr::call(Expr::name("b"), vec![]))),
        Item::Pos(Expr::paren(Expr::call(Expr::name("c"), vec![]))),
    ];
    let out = normalized(vec![Stmt::Return(Expr::Table(items))]);
    assert_eq!(out, "return {a(), k = b(), (c())}\n");
}
