use lib::demand::{Demand, DemandMap, LocalEnv, LocalRows, NameSet, Rows};
use lib::structured::{demanded_map, demanded_map_guards, let_spine_maps};
use lib::tir::{TExpr, TExprKind, TGuard, TLiteral, TLocalDef};
use lib::types::Ty;

fn e(kind: TExprKind) -> TExpr {
    TExpr { kind, ty: Ty::Con("Int".into()) }
}

fn var(n: &str) -> TExpr {
    e(TExprKind::Var(n.into()))
}

fn lit(n: i64) -> TExpr {
    e(TExprKind::Lit(TLiteral::Integer(n)))
}

fn app(f: TExpr, a: TExpr) -> TExpr {
    e(TExprKind::App(Box::new(f), Box::new(a)))
}

fn infix(op: &str, l: TExpr, r: TExpr) -> TExpr {
    e(TExprKind::InfixApp { op: op.into(), lhs: Box::new(l), rhs: Box::new(r) })
}

fn let_(binds: Vec<(&str, TExpr)>, body: TExpr) -> TExpr {
    let binds = binds
        .into_iter()
        .map(|(n, b)| TLocalDef { name: n.into(), patterns: vec![], body: b })
        .collect();
    e(TExprKind::Let { binds, body: Box::new(body) })
}

fn is_head(d: Option<&Demand>) -> bool {
    matches!(d, Some(Demand::Head))
}

fn is_elems_head(d: Option<&Demand>) -> bool {
    match d {
        Some(Demand::Elems(b)) => matches!(**b, Demand::Head),
        _ => false,
    }
}

fn keys(m: &DemandMap, names: &[&str]) -> Vec<String> {
    names.iter().filter(|n| m.get(n).is_some()).map(|n| n.to_string()).collect()
}

fn walk(x: &TExpr, rd: &Demand) -> DemandMap {
    demanded_map(x, &Rows::new(), &LocalEnv::new(), &NameSet::new(), rd)
}

#[test]
fn a_variable_takes_the_demand_on_the_value() {
    let m = walk(&var("x"), &Demand::Head);
    assert!(is_head(m.get("x")));
    let m = walk(&var("xs"), &Demand::Elems(Box::new(Demand::Head)));
    assert!(is_elems_head(m.get("xs")));
}

#[test]
fn tuple_fields_take_their_own_demands() {
    let tup = e(TExprKind::Tuple(vec![var("a"), var("b")]));
    let m = walk(&tup, &Demand::Fields(vec![Some(Demand::Head), None]));
    assert!(is_head(m.get("a")));
    assert!(m.get("b").is_none());
    // Only WHNF on a tuple forces no field.
    let m = walk(&tup, &Demand::Head);
    assert_eq!(keys(&m, &["a", "b"]), Vec::<String>::new());
}

#[test]
fn cons_under_element_demand_forces_head_and_tail() {
    let c = infix(":", var("x"), var("xs"));
    let m = walk(&c, &Demand::Elems(Box::new(Demand::Head)));
    assert!(is_head(m.get("x")));
    assert!(is_elems_head(m.get("xs")));
    // Under WHNF alone a cons cell forces nothing.
    let m = walk(&c, &Demand::Head);
    assert_eq!(keys(&m, &["x", "xs"]), Vec::<String>::new());
}

#[test]
fn alternatives_meet_and_one_run_joins() {
    let i = e(TExprKind::If {
        cond: Box::new(var("c")),
        then_branch: Box::new(infix("+", var("x"), var("y"))),
        else_branch: Box::new(var("x")),
    });
    let m = walk(&i, &Demand::Head);
    assert_eq!(keys(&m, &["c", "x", "y"]), vec!["c", "x"]);
}

#[test]
fn let_group_closes_over_its_demanded_bindings() {
    // let y = x + z in y : y is demanded, so x and z are; y itself is bound.
    let l = let_(vec![("y", infix("+", var("x"), var("z")))], var("y"));
    let m = walk(&l, &Demand::Head);
    assert_eq!(keys(&m, &["x", "y", "z"]), vec!["x", "z"]);
    // An undemanded binding adds nothing.
    let l = let_(vec![("y", var("x"))], var("w"));
    let m = walk(&l, &Demand::Head);
    assert_eq!(keys(&m, &["w", "x", "y"]), vec!["w"]);
}

#[test]
fn a_call_follows_the_callee_row() {
    let mut rows = Rows::new();
    rows.set_run("f", vec![Some(Demand::Head), None]);
    let call = app(app(var("f"), var("a")), var("b"));
    let m = demanded_map(&call, &rows, &LocalEnv::new(), &NameSet::new(), &Demand::Head);
    assert_eq!(keys(&m, &["a", "b", "f"]), vec!["a", "f"]);
    // An unknown callee forces only its head.
    let call = app(var("g"), var("a"));
    let m = demanded_map(&call, &rows, &LocalEnv::new(), &NameSet::new(), &Demand::Head);
    assert_eq!(keys(&m, &["a", "g"]), vec!["g"]);
}

#[test]
fn a_local_function_row_is_used_at_its_calls() {
    let mut locals = LocalEnv::new();
    locals.insert("go", LocalRows::new(vec![None, Some(Demand::Head)], None, Demand::Head));
    let call = app(app(var("go"), var("acc")), var("n"));
    let m = demanded_map(&call, &Rows::new(), &locals, &NameSet::new(), &Demand::Head);
    assert_eq!(keys(&m, &["acc", "go", "n"]), vec!["go", "n"]);
}

#[test]
fn eager_literal_arguments_are_evaluated_in_place() {
    let call = app(var("h"), infix("+", lit(1), lit(2)));
    let m = walk(&call, &Demand::Head);
    assert_eq!(keys(&m, &["h"]), vec!["h"]);
}

#[test]
fn guard_chain_forces_first_condition_and_shared_bodies() {
    let gs = vec![
        TGuard { condition: var("c"), body: infix("+", var("x"), var("y")) },
        TGuard { condition: var("otherwise"), body: var("x") },
    ];
    let m = demanded_map_guards(&gs, &Rows::new(), &LocalEnv::new(), &NameSet::new(), &Demand::Head);
    assert_eq!(keys(&m, &["c", "otherwise", "x", "y"]), vec!["c", "x"]);
}

#[test]
fn spine_maps_match_the_per_node_walk() {
    // let a = x in let b = a in b
    let inner = || let_(vec![("b", var("a"))], var("b"));
    let outer = let_(vec![("a", var("x"))], inner());
    let maps = let_spine_maps(&outer, &Rows::new(), &LocalEnv::new(), &NameSet::new(), &Demand::Head).unwrap();
    assert_eq!(maps.len(), 3);
    assert_eq!(keys(&maps[2], &["a", "b", "x"]), vec!["b"]);
    assert_eq!(keys(&maps[1], &["a", "b", "x"]), vec!["a"]);
    assert_eq!(keys(&maps[0], &["a", "b", "x"]), vec!["x"]);
    let direct = walk(&inner(), &Demand::Head);
    assert_eq!(keys(&direct, &["a", "b", "x"]), keys(&maps[1], &["a", "b", "x"]));
}

#[test]
fn spine_maps_need_a_let() {
    assert!(let_spine_maps(&var("x"), &Rows::new(), &LocalEnv::new(), &NameSet::new(), &Demand::Head).is_none());
}
