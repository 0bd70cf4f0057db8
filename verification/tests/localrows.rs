use lib::demand::{Demand, LocalEnv, NameSet, Rows};
use lib::localrows::local_fn_rows;
use lib::tir::{TExpr, TExprKind, TLiteral, TLocalDef, TPattern};
use lib::types::Ty;

fn int_ty() -> Ty {
    Ty::Con("Int".into())
}

fn e(kind: TExprKind) -> TExpr {
    TExpr { kind, ty: int_ty() }
}

fn var(n: &str) -> TExpr {
    e(TExprKind::Var(n.into()))
}

fn lit(n: i64) -> TExpr {
    e(TExprKind::Lit(TLiteral::Integer(n)))
}

fn app(f: TExpr, a: TExpr) -> TExpr {
    e(TExprKind::App(Box::new(f), Box::new(a)))
}

fn infix(op: &str, l: TExpr, r: TExpr) -> TExpr {
    e(TExprKind::InfixApp { op: op.into(), lhs: Box::new(l), rhs: Box::new(r) })
}

fn pvar(n: &str) -> TPattern {
    TPattern::Var(n.into(), int_ty())
}

fn equation(name: &str, params: &[&str], body: TExpr) -> TLocalDef {
    TLocalDef { name: name.into(), patterns: params.iter().map(|p| pvar(p)).collect(), body }
}

/// The run row of `name`: for each parameter, whether it is forced to WHNF.
fn run_shape(env: &LocalEnv, name: &str) -> Vec<bool> {
    let l = env.get(name).expect("rows of a local function");
    l.run_copy().iter().map(|d| matches!(d, Some(Demand::Head))).collect()
}

fn rows_of(binds: &Vec<TLocalDef>) -> LocalEnv {
    local_fn_rows(&Rows::new(), &NameSet::new(), binds)
}

#[test]
fn a_used_parameter_stays_strict() {
    let binds = vec![equation("f", &["x"], infix("+", var("x"), lit(1)))];
    let env = rows_of(&binds);
    assert_eq!(run_shape(&env, "f"), vec![true]);
    assert!(env.get("f").unwrap().deep_copy().is_none());
}

#[test]
fn an_unused_parameter_descends_to_lazy() {
    let binds = vec![equation("g", &["x", "y"], var("y"))];
    let env = rows_of(&binds);
    assert_eq!(run_shape(&env, "g"), vec![false, true]);
}

#[test]
fn an_accumulator_returned_at_the_base_case_is_strict() {
    // go n acc = if n == 0 then acc else go (n - 1) (acc + n)
    let body = e(TExprKind::If {
        cond: Box::new(infix("==", var("n"), lit(0))),
        then_branch: Box::new(var("acc")),
        else_branch: Box::new(app(
            app(var("go"), infix("-", var("n"), lit(1))),
            infix("+", var("acc"), var("n")),
        )),
    });
    let binds = vec![equation("go", &["n", "acc"], body)];
    let env = rows_of(&binds);
    assert_eq!(run_shape(&env, "go"), vec![true, true]);
}

#[test]
fn an_accumulator_dropped_at_the_base_case_is_lazy() {
    // go n acc = if n == 0 then 0 else go (n - 1) (acc + n)
    let body = e(TExprKind::If {
        cond: Box::new(infix("==", var("n"), lit(0))),
        then_branch: Box::new(lit(0)),
        else_branch: Box::new(app(
            app(var("go"), infix("-", var("n"), lit(1))),
            infix("+", var("acc"), var("n")),
        )),
    });
    let binds = vec![equation("go", &["n", "acc"], body)];
    let env = rows_of(&binds);
    assert_eq!(run_shape(&env, "go"), vec![true, false]);
}

#[test]
fn equations_keep_what_every_one_forces() {
    // h 0 y = y ; h x y = x   (the first equation matches a literal)
    let binds = vec![
        TLocalDef {
            name: "h".into(),
            patterns: vec![TPattern::LitPat(TLiteral::Integer(0)), pvar("y")],
            body: var("y"),
        },
        equation("h", &["x", "y"], var("x")),
    ];
    let env = rows_of(&binds);
    // Parameter 0: the literal match forces it, the second equation uses
    // it; parameter 1: only the first equation uses it.
    assert_eq!(run_shape(&env, "h"), vec![true, false]);
}

#[test]
fn value_bindings_get_no_rows() {
    let binds = vec![TLocalDef { name: "k".into(), patterns: vec![], body: lit(3) }];
    let env = rows_of(&binds);
    assert!(env.get("k").is_none());
}
