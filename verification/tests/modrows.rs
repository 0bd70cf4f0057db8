use lib::demand::Demand;
use lib::demanded::StrictEnv;
use lib::modrows::module_rows;
use lib::tir::{TClause, TExpr, TExprKind, TFunction, TLiteral, TModule, TPattern};
use lib::types::Ty;

fn int_ty() -> Ty {
    Ty::Con("Int".into())
}

fn list_ty() -> Ty {
    Ty::List(Box::new(int_ty()))
}

fn arrow(a: Ty, b: Ty) -> Ty {
    Ty::Arrow(Box::new(a), Box::new(b))
}

fn e(kind: TExprKind) -> TExpr {
    TExpr { kind, ty: int_ty() }
}

fn var(n: &str) -> TExpr {
    e(TExprKind::Var(n.into()))
}

fn lit(n: i64) -> TExpr {
    e(TExprKind::Lit(TLiteral::Integer(n)))
}

fn app(f: TExpr, a: TExpr) -> TExpr {
    e(TExprKind::App(Box::new(f), Box::new(a)))
}

fn infix(op: &str, l: TExpr, r: TExpr) -> TExpr {
    e(TExprKind::InfixApp { op: op.into(), lhs: Box::new(l), rhs: Box::new(r) })
}

fn pvar(n: &str) -> TPattern {
    TPattern::Var(n.into(), int_ty())
}

fn clause(patterns: Vec<TPattern>, body: TExpr) -> TClause {
    TClause { patterns, guards: vec![], body, where_binds: vec![] }
}

fn function(name: &str, ty: Ty, clauses: Vec<TClause>) -> TFunction {
    TFunction { name: name.into(), ty, dict_params: vec![], clauses, derived_strict: false }
}

fn module(functions: Vec<TFunction>) -> TModule {
    TModule {
        functions,
        instance_fns: vec![],
        data_defs: vec![],
        dropped_data_defs: vec![],
        exports: vec![],
        has_main: false,
        passes_run: vec![],
    }
}

fn nil_pat() -> TPattern {
    TPattern::Constructor { name: "[]".into(), args: vec![] }
}

fn cons_pat(h: &str, t: &str) -> TPattern {
    TPattern::Constructor { name: ":".into(), args: vec![pvar(h), pvar(t)] }
}

fn is_head(d: &Option<Demand>) -> bool {
    matches!(d, Some(Demand::Head))
}

fn is_elems_head(d: &Option<Demand>) -> bool {
    match d {
        Some(Demand::Elems(b)) => matches!(**b, Demand::Head),
        _ => false,
    }
}

#[test]
fn boolean_rows_and_list_intrinsics_are_the_base() {
    let mut sp = StrictEnv::new();
    sp.insert("h", vec![true, false]);
    let rows = module_rows(&module(vec![]), &sp);
    let h = rows.run_row("h").unwrap();
    assert_eq!(h.len(), 2);
    assert!(is_head(&h[0]));
    assert!(h[1].is_none());
    let p = rows.run_row("bsPack").unwrap();
    assert_eq!(p.len(), 1);
    assert!(is_elems_head(&p[0]));
    assert!(rows.run_row("bsConcatList").is_some());
}

#[test]
fn parameters_the_body_forces_stay_strict() {
    let m = module(vec![
        function("f", arrow(int_ty(), int_ty()), vec![clause(vec![pvar("x")], infix("+", var("x"), lit(1)))]),
        function("g", arrow(int_ty(), arrow(int_ty(), int_ty())), vec![clause(vec![pvar("x"), pvar("y")], var("y"))]),
    ]);
    let rows = module_rows(&m, &StrictEnv::new());
    let f = rows.run_row("f").unwrap();
    assert_eq!(f.len(), 1);
    assert!(is_head(&f[0]));
    let g = rows.run_row("g").unwrap();
    assert_eq!(g.len(), 2);
    assert!(g[0].is_none());
    assert!(is_head(&g[1]));
    assert!(rows.deep_row("f").is_none());
}

#[test]
fn a_list_result_gets_a_deep_row() {
    // single x = x : []
    let body = infix(":", var("x"), e(TExprKind::Con("[]".into())));
    let m = module(vec![function("single", arrow(int_ty(), list_ty()), vec![clause(vec![pvar("x")], body)])]);
    let rows = module_rows(&m, &StrictEnv::new());
    let run = rows.run_row("single").unwrap();
    assert!(run[0].is_none());
    let deep = rows.deep_row("single").unwrap();
    assert!(is_head(&deep[0]));
    assert!(is_elems_head(&Some(rows.result_deep_of("single").unwrap().copy())));
}

#[test]
fn a_summing_recursion_is_element_strict() {
    // sum [] = 0 ; sum (x:xs) = x + sum xs
    let m = module(vec![function(
        "sum",
        arrow(list_ty(), int_ty()),
        vec![
            clause(vec![nil_pat()], lit(0)),
            clause(vec![cons_pat("x", "xs")], infix("+", var("x"), app(var("sum"), var("xs")))),
        ],
    )]);
    let rows = module_rows(&m, &StrictEnv::new());
    let r = rows.run_row("sum").unwrap();
    assert_eq!(r.len(), 1);
    assert!(is_elems_head(&r[0]));
}

#[test]
fn a_length_recursion_forces_only_the_spine_head() {
    // len [] = 0 ; len (x:xs) = 1 + len xs
    let m = module(vec![function(
        "len",
        arrow(list_ty(), int_ty()),
        vec![
            clause(vec![nil_pat()], lit(0)),
            clause(vec![cons_pat("x", "xs")], infix("+", lit(1), app(var("len"), var("xs")))),
        ],
    )]);
    let rows = module_rows(&m, &StrictEnv::new());
    let r = rows.run_row("len").unwrap();
    assert_eq!(r.len(), 1);
    assert!(is_head(&r[0]));
}

#[test]
fn same_named_functions_share_one_met_row() {
    let m = module(vec![
        function("k", arrow(int_ty(), int_ty()), vec![clause(vec![pvar("x")], var("x"))]),
        function("k", arrow(int_ty(), int_ty()), vec![clause(vec![pvar("x")], lit(0))]),
    ]);
    let rows = module_rows(&m, &StrictEnv::new());
    let r = rows.run_row("k").unwrap();
    assert!(r[0].is_none());
}

#[test]
fn analysis_gives_strictness_and_rows_together() {
    let m = module(vec![
        function("f", arrow(int_ty(), int_ty()), vec![clause(vec![pvar("x")], infix("+", var("x"), lit(1)))]),
        function("g", arrow(int_ty(), arrow(int_ty(), int_ty())), vec![clause(vec![pvar("x"), pvar("y")], var("y"))]),
    ]);
    let info = lib::modrows::analyze(&m);
    assert_eq!(info.strict_params.get("f"), Some(&vec![true]));
    assert_eq!(info.strict_params.get("g"), Some(&vec![false, true]));
    let g = info.rows.run_row("g").unwrap();
    assert!(g[0].is_none());
    assert!(is_head(&g[1]));
    // An `Int` result has no deeper demand to run under.
    assert!(matches!(info.rows.result_demand("f"), Demand::Head));
}
