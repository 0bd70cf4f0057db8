use lib::lua::{render_stmts, Block, Expr, FnTarget, FuncBody, Stmt};

#[test]
fn paren_led_statement_gets_a_separator() {
    let stmts = vec![
        Stmt::Local(vec!["x".into()], Some(Expr::call(Expr::name("f"), vec![]))),
        Stmt::Expr(Expr::call(
            Expr::paren(Expr::Func(vec![], FuncBody::Inline(vec![Stmt::Return(Expr::lit("1"))]))),
            vec![],
        )),
    ];
    let out = render_stmts(&stmts);
    assert!(out.contains("\n;("), "paren-led statement must be `;`-pinned:\n{out}");
}

#[test]
fn function_headers_and_blocks() {
    let stmts = vec![Stmt::Function {
        target: FnTarget::Slot(12),
        params: vec!["a".into(), "b".into()],
        body: Block(vec![Stmt::If {
            cond: Expr::binop("==", Expr::name("a"), Expr::lit("0")),
            then_b: Block(vec![Stmt::Return(Expr::name("b"))]),
            elseifs: vec![(Expr::name("b"), Block(vec![Stmt::ReturnNone]))],
            else_b: Some(Block(vec![Stmt::Goto("continue".into())])),
        }]),
    }];
    assert_eq!(
        render_stmts(&stmts),
        "__mll_fn[12] = function(a, b)\n    if a == 0 then\n        return b\n    elseif b then\n        return\n    else\n        goto continue\n    end\nend\n"
    );
}

#[test]
fn thunk_and_force_shapes() {
    let stmts = vec![
        Stmt::Assign("x".into(), Expr::thunk(Expr::force(Expr::name("y")))),
        Stmt::MultiAssign(vec!["a".into(), "b".into()], vec![Expr::name("b"), Expr::neg(Expr::name("a"))]),
        Stmt::AssignIf {
            lhs: "z".into(),
            cond: Expr::name("c"),
            then_e: Expr::lit("1"),
            else_e: Expr::lit("2"),
        },
    ];
    assert_eq!(
        render_stmts(&stmts),
        "x = __thunk(function() return __force(y) end)\na, b = b, -a\nif c then z = 1 else z = 2 end\n"
    );
}

#[test]
fn tables_methods_and_exports() {
    let stmts = vec![
        Stmt::Local(
            vec!["t".into()],
            Some(Expr::TableSpaced(vec![lib::lua::Item::KV("k = ".into(), Expr::lit("1"))])),
        ),
        Stmt::Expr(Expr::method(Expr::name("t"), "m", vec![Expr::index(Expr::name("t"), ".k")])),
        Stmt::ReturnTable(vec![("main".into(), Expr::name("__run"))]),
    ];
    assert_eq!(
        render_stmts(&stmts),
        "local t = { k = 1 }\nt:m(t.k)\nreturn {\n    main = __run,\n}\n"
    );
}

#[test]
fn and_chain_is_left_associated() {
    let e = Expr::and_chain(vec![Expr::name("a"), Expr::name("b"), Expr::name("c")]);
    let out = render_stmts(&vec![Stmt::Return(e)]);
    assert_eq!(out, "return a and b and c\n");
}

#[test]
fn header_text_of_each_target() {
    let ps: Vec<String> = vec!["x".into()];
    assert_eq!(FnTarget::LocalFn("f".into()).header_string(&ps), "local function f(x)");
    assert_eq!(FnTarget::Assigned("go".into()).header_string(&ps), "go = function(x)");
    assert_eq!(FnTarget::ThunkSlot(3).header_string(&ps), "__mll_tkf[3] = function(x)");
}
