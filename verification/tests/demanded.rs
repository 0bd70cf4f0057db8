use lib::demand::NameSet;
use lib::demanded::{demanded_guards, demanded_vars, StrictEnv};
use lib::tir::{TCaseBranch, TExpr, TExprKind, TGuard, TLiteral, TLocalDef, TPattern};
use lib::types::Ty;

fn e(kind: TExprKind) -> TExpr {
    TExpr { kind, ty: Ty::Con("Int".into()) }
}

fn var(n: &str) -> TExpr {
    e(TExprKind::Var(n.into()))
}

fn lit(n: i64) -> TExpr {
    e(TExprKind::Lit(TLiteral::Integer(n)))
}

fn app(f: TExpr, a: TExpr) -> TExpr {
    e(TExprKind::App(Box::new(f), Box::new(a)))
}

fn infix(op: &str, l: TExpr, r: TExpr) -> TExpr {
    e(TExprKind::InfixApp { op: op.into(), lhs: Box::new(l), rhs: Box::new(r) })
}

fn if_(c: TExpr, t: TExpr, f: TExpr) -> TExpr {
    e(TExprKind::If { cond: Box::new(c), then_branch: Box::new(t), else_branch: Box::new(f) })
}

fn sorted(s: &NameSet) -> Vec<String> {
    let mut v = s.to_vec();
    v.sort();
    v.dedup();
    v
}

#[test]
fn arithmetic_forces_both_operands() {
    let env = StrictEnv::new();
    let d = demanded_vars(&infix("+", var("x"), var("y")), &env);
    assert_eq!(sorted(&d), vec!["x", "y"]);
}

#[test]
fn cons_and_lambda_force_nothing() {
    let env = StrictEnv::new();
    assert!(sorted(&demanded_vars(&infix(":", var("x"), var("xs")), &env)).is_empty());
    let lam = e(TExprKind::Lambda { params: vec![("y".into(), Ty::Unit)], body: Box::new(var("x")) });
    assert!(sorted(&demanded_vars(&lam, &env)).is_empty());
    let tup = e(TExprKind::Tuple(vec![var("a"), var("b")]));
    assert!(sorted(&demanded_vars(&tup, &env)).is_empty());
}

#[test]
fn short_circuit_forces_left_only() {
    let env = StrictEnv::new();
    assert_eq!(sorted(&demanded_vars(&infix("&&", var("p"), var("q")), &env)), vec!["p"]);
    assert_eq!(sorted(&demanded_vars(&infix("seq", var("a"), var("b")), &env)), vec!["a"]);
    assert_eq!(sorted(&demanded_vars(&infix(">>=", var("m"), var("k")), &env)), vec!["k", "m"]);
}

#[test]
fn if_keeps_what_both_branches_force() {
    let env = StrictEnv::new();
    let d = demanded_vars(&if_(var("c"), infix("+", var("x"), var("y")), var("x")), &env);
    assert_eq!(sorted(&d), vec!["c", "x"]);
    let d = demanded_vars(&if_(var("otherwise"), var("t"), var("u")), &env);
    assert_eq!(sorted(&d), vec!["t"]);
}

#[test]
fn strict_callee_positions_propagate() {
    let mut env = StrictEnv::new();
    env.insert("f", vec![true, false]);
    let call = app(app(var("f"), var("a")), var("b"));
    assert_eq!(sorted(&demanded_vars(&call, &env)), vec!["a", "f"]);
    let seq_call = app(app(var("seq"), var("a")), var("b"));
    assert_eq!(sorted(&demanded_vars(&seq_call, &env)), vec!["a", "seq"]);
    let unknown = app(var("g"), var("a"));
    assert_eq!(sorted(&demanded_vars(&unknown, &env)), vec!["g"]);
}

#[test]
fn let_bindings_pass_demand_through() {
    let env = StrictEnv::new();
    let body = infix("+", var("v"), lit(1));
    let l = e(TExprKind::Let {
        binds: vec![TLocalDef { name: "v".into(), patterns: vec![], body: infix("*", var("x"), var("x")) }],
        body: Box::new(body),
    });
    assert_eq!(sorted(&demanded_vars(&l, &env)), vec!["x"]);
}

#[test]
fn case_intersects_branches_minus_pattern_vars() {
    let env = StrictEnv::new();
    let b1 = TCaseBranch {
        pattern: TPattern::Constructor { name: "Just".into(), args: vec![TPattern::Var("y".into(), Ty::Unit)] },
        guards: vec![],
        body: infix("+", var("y"), var("z")),
    };
    let b2 = TCaseBranch { pattern: TPattern::Wildcard, guards: vec![], body: var("z") };
    let c = e(TExprKind::Case { scrutinee: Box::new(var("m")), branches: vec![b1, b2] });
    assert_eq!(sorted(&demanded_vars(&c, &env)), vec!["m", "z"]);
}

#[test]
fn guard_chain_is_sequential() {
    let env = StrictEnv::new();
    let guards = vec![
        TGuard { condition: infix(">", var("n"), lit(0)), body: var("a") },
        TGuard { condition: var("otherwise"), body: var("a") },
    ];
    assert_eq!(sorted(&demanded_guards(&guards, &env)), vec!["a", "n"]);
    let guards = vec![
        TGuard { condition: var("p"), body: var("a") },
        TGuard { condition: var("q"), body: var("a") },
    ];
    assert_eq!(sorted(&demanded_guards(&guards, &env)), vec!["p"]);
}

#[test]
fn let_function_parameters_are_not_demanded() {
    // let g x = x + 1 in g 5
    let env = StrictEnv::new();
    let l = e(TExprKind::Let {
        binds: vec![TLocalDef {
            name: "g".into(),
            patterns: vec![TPattern::Var("x".into(), Ty::Con("Int".into()))],
            body: infix("+", var("x"), lit(1)),
        }],
        body: Box::new(app(var("g"), lit(5))),
    });
    assert!(sorted(&demanded_vars(&l, &env)).is_empty());
    // A free variable of the function's body is still demanded.
    let l = e(TExprKind::Let {
        binds: vec![TLocalDef {
            name: "g".into(),
            patterns: vec![TPattern::Var("x".into(), Ty::Con("Int".into()))],
            body: infix("+", var("x"), var("k")),
        }],
        body: Box::new(app(var("g"), lit(5))),
    });
    assert_eq!(sorted(&demanded_vars(&l, &env)), vec!["k"]);
}

#[test]
fn knowing_more_strictness_demands_more() {
    let call = app(app(var("f"), var("a")), var("b"));
    let mut small = StrictEnv::new();
    small.insert("f", vec![true, false]);
    let mut big = StrictEnv::new();
    big.insert("f", vec![true, true]);
    let d1 = sorted(&demanded_vars(&call, &small));
    let d2 = sorted(&demanded_vars(&call, &big));
    assert_eq!(d1, vec!["a", "f"]);
    assert_eq!(d2, vec!["a", "b", "f"]);
    assert!(d1.iter().all(|x| d2.contains(x)));
}
