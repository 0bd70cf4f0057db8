use lib::tir::{TExpr, TExprKind, TLiteral, TLocalDef};
use lib::tirshape::{bare_var_alias, con_name, count_arrows, decompose_app, expr_evaluates_global_ref,
    expr_references_name, strict_binding_safe};
use lib::types::Ty;

fn con(n: &str) -> Ty {
    Ty::Con(n.into())
}

fn tapp(f: Ty, a: Ty) -> Ty {
    Ty::App(Box::new(f), Box::new(a))
}

fn arrow(a: Ty, b: Ty) -> Ty {
    Ty::Arrow(Box::new(a), Box::new(b))
}

fn e(kind: TExprKind) -> TExpr {
    TExpr { kind, ty: con("Int") }
}

fn var(n: &str) -> TExpr {
    e(TExprKind::Var(n.into()))
}

fn lit(n: i64) -> TExpr {
    e(TExprKind::Lit(TLiteral::Integer(n)))
}

fn infix(op: &str, l: TExpr, r: TExpr) -> TExpr {
    e(TExprKind::InfixApp { op: op.into(), lhs: Box::new(l), rhs: Box::new(r) })
}

fn paren(x: TExpr) -> TExpr {
    e(TExprKind::Paren(Box::new(x)))
}

fn lam(p: &str, body: TExpr) -> TExpr {
    e(TExprKind::Lambda { params: vec![(p.into(), con("Int"))], body: Box::new(body) })
}

fn bind(n: &str, body: TExpr) -> TLocalDef {
    TLocalDef { name: n.into(), patterns: vec![], body }
}

#[test]
fn a_type_application_splits_into_head_and_arguments() {
    let t = tapp(tapp(con("HashMap"), con("String")), con("Int"));
    let (h, args) = decompose_app(&t);
    assert_eq!(h.map(|s| s.as_str()), Some("HashMap"));
    assert_eq!(args.len(), 2);
    assert!(matches!(args[0], Ty::Con(n) if n == "String"));
    assert!(matches!(args[1], Ty::Con(n) if n == "Int"));
    let foo = con("Foo");
    let (h, args) = decompose_app(&foo);
    assert_eq!(h.map(|s| s.as_str()), Some("Foo"));
    assert!(args.is_empty());
    let fv = tapp(Ty::Var("f".into()), con("Int"));
    let (h, args) = decompose_app(&fv);
    assert!(h.is_none());
    assert!(args.is_empty());
}

#[test]
fn constructor_names_and_arrows() {
    assert_eq!(con_name(&con("Bool")).map(|s| s.as_str()), Some("Bool"));
    assert!(con_name(&Ty::Unit).is_none());
    assert_eq!(count_arrows(&arrow(con("Int"), arrow(con("Int"), con("Int")))), 2);
    assert_eq!(count_arrows(&arrow(con("Int"), con("Int"))), 1);
    assert_eq!(count_arrows(&con("Int")), 0);
}

#[test]
fn name_mentions_are_found_anywhere() {
    let x = infix("+", var("a"), lam("y", infix("*", var("b"), var("y"))));
    assert!(expr_references_name(&x, "a"));
    assert!(expr_references_name(&x, "b"));
    assert!(expr_references_name(&x, "y"));
    assert!(!expr_references_name(&x, "c"));
    let t = e(TExprKind::Tuple(vec![lit(1), var("z")]));
    assert!(expr_references_name(&t, "z"));
}

#[test]
fn load_time_reads_skip_lambda_bodies() {
    assert!(expr_evaluates_global_ref(&var("x")));
    assert!(expr_evaluates_global_ref(&infix("+", var("x"), lit(1))));
    assert!(!expr_evaluates_global_ref(&lam("y", var("x"))));
    assert!(!expr_evaluates_global_ref(&infix("+", lit(1), lit(2))));
    assert!(!expr_evaluates_global_ref(&e(TExprKind::Tuple(vec![lit(1), lit(2)]))));
    assert!(expr_evaluates_global_ref(&e(TExprKind::Tuple(vec![lit(1), var("g")]))));
}

#[test]
fn strict_bindings_read_only_earlier_siblings() {
    // let a = 1; b = a + 1; c = d; d = 2
    let binds = vec![
        bind("a", lit(1)),
        bind("b", infix("+", var("a"), lit(1))),
        bind("c", var("d")),
        bind("d", lit(2)),
    ];
    assert!(strict_binding_safe(&binds, 0));
    assert!(strict_binding_safe(&binds, 1));
    assert!(!strict_binding_safe(&binds, 2));
    assert!(strict_binding_safe(&binds, 3));
    // A self reference is not safe, unless the binding is a function.
    let rec = vec![bind("x", infix("+", var("x"), lit(1)))];
    assert!(!strict_binding_safe(&rec, 0));
    let f = vec![bind("f", lam("n", app_f()))];
    assert!(strict_binding_safe(&f, 0));
}

fn app_f() -> TExpr {
    e(TExprKind::App(Box::new(var("f")), Box::new(var("n"))))
}

#[test]
fn bare_aliases_share_an_earlier_variable() {
    let binds = vec![
        bind("a", lit(1)),
        bind("b", paren(var("a"))),
        bind("c", var("d")),
        bind("d", infix("+", var("a"), lit(1))),
    ];
    assert!(matches!(bare_var_alias(&binds, 1).map(|x| &x.kind), Some(TExprKind::Var(n)) if n == "a"));
    // A forward alias stays suspended.
    assert!(bare_var_alias(&binds, 2).is_none());
    // Not a bare variable.
    assert!(bare_var_alias(&binds, 3).is_none());
    assert!(bare_var_alias(&binds, 0).is_none());
}
