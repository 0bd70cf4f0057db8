use lib::deadbranch::dead_branch_block;
use lib::lua::{render_stmts, Block, Expr, Stmt};

fn cleaned(mut stmts: Vec<Stmt>) -> String {
    dead_branch_block(&mut stmts);
    render_stmts(&stmts)
}

#[test]
fn statements_after_return_are_dropped() {
    let out = cleaned(vec![
        Stmt::Return(Expr::name("a")),
        Stmt::Expr(Expr::call_named("f", vec![])),
    ]);
    assert_eq!(out, "return a\n");
}

#[test]
fn statements_after_error_call_are_dropped() {
    let out = cleaned(vec![
        Stmt::Expr(Expr::call_named("error", vec![Expr::lit("\"x\"")])),
        Stmt::Return(Expr::name("a")),
    ]);
    assert_eq!(out, "error(\"x\")\n");
}

#[test]
fn if_true_becomes_spliced_block() {
    let out = cleaned(vec![Stmt::If {
        cond: Expr::lit("true"),
        then_b: Block(vec![Stmt::Return(Expr::lit("1"))]),
        elseifs: vec![],
        else_b: Some(Block(vec![Stmt::Return(Expr::lit("2"))])),
    }]);
    assert_eq!(out, "return 1\n");
}

#[test]
fn if_true_in_middle_stays_scoped() {
    let out = cleaned(vec![
        Stmt::If {
            cond: Expr::lit("true"),
            then_b: Block(vec![Stmt::Local(vec!["x".into()], Some(Expr::lit("1")))]),
            elseifs: vec![],
            else_b: None,
        },
        Stmt::Return(Expr::name("x")),
    ]);
    assert_eq!(out, "do\n    local x = 1\nend\nreturn x\n");
}

#[test]
fn elseif_true_becomes_else() {
    let out = cleaned(vec![Stmt::If {
        cond: Expr::name("c"),
        then_b: Block(vec![Stmt::Return(Expr::lit("1"))]),
        elseifs: vec![
            (Expr::name("d"), Block(vec![Stmt::Return(Expr::lit("2"))])),
            (Expr::lit("true"), Block(vec![Stmt::Return(Expr::lit("3"))])),
            (Expr::name("e"), Block(vec![Stmt::Return(Expr::lit("4"))])),
        ],
        else_b: Some(Block(vec![Stmt::Return(Expr::lit("5"))])),
    }]);
    assert_eq!(out, "if c then\n    return 1\nelseif d then\n    return 2\nelse\n    return 3\nend\n");
}

#[test]
fn complementary_conditions_collapse_to_else() {
    let out = cleaned(vec![Stmt::If {
        cond: Expr::binop("==", Expr::name("n"), Expr::lit("0")),
        then_b: Block(vec![Stmt::Return(Expr::lit("1"))]),
        elseifs: vec![(
            Expr::binop("~=", Expr::name("n"), Expr::lit("0")),
            Block(vec![Stmt::Return(Expr::lit("2"))]),
        )],
        else_b: None,
    }]);
    assert_eq!(out, "if n == 0 then\n    return 1\nelse\n    return 2\nend\n");
}

#[test]
fn non_complementary_conditions_stay() {
    let out = cleaned(vec![Stmt::If {
        cond: Expr::binop("==", Expr::name("n"), Expr::lit("0")),
        then_b: Block(vec![Stmt::Return(Expr::lit("1"))]),
        elseifs: vec![(
            Expr::binop("~=", Expr::name("m"), Expr::lit("0")),
            Block(vec![Stmt::Return(Expr::lit("2"))]),
        )],
        else_b: None,
    }]);
    assert!(out.contains("elseif m ~= 0 then"), "{out}");
}

#[test]
fn block_with_label_keeps_dead_statements() {
    let out = cleaned(vec![
        Stmt::Return(Expr::name("a")),
        Stmt::Label("continue".into()),
        Stmt::Return(Expr::name("b")),
    ]);
    assert_eq!(out, "return a\n::continue::\nreturn b\n");
}

#[test]
fn function_body_is_cleaned() {
    let out = cleaned(vec![Stmt::Local(
        vec!["f".into()],
        Some(Expr::Func(
            vec![],
            lib::lua::FuncBody::Block(Block(vec![Stmt::ReturnNone, Stmt::Return(Expr::lit("1"))])),
        )),
    )]);
    assert_eq!(out, "local f = function()\n    return\nend\n");
}
