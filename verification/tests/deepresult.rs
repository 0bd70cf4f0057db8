use lib::demanded::StrictEnv;
use lib::modrows::{analyze, module_rows};
use lib::deepresult::deep_result_set;
use lib::tir::{TClause, TExpr, TExprKind, TFunction, TModule, TPattern};
use lib::types::Ty;

fn int_ty() -> Ty {
    Ty::Con("Int".into())
}

fn list_ty() -> Ty {
    Ty::List(Box::new(int_ty()))
}

fn arrow(a: Ty, b: Ty) -> Ty {
    Ty::Arrow(Box::new(a), Box::new(b))
}

fn e(kind: TExprKind) -> TExpr {
    TExpr { kind, ty: int_ty() }
}

fn var(n: &str) -> TExpr {
    e(TExprKind::Var(n.into()))
}

fn app(f: TExpr, a: TExpr) -> TExpr {
    e(TExprKind::App(Box::new(f), Box::new(a)))
}

fn pvar(n: &str) -> TPattern {
    TPattern::Var(n.into(), int_ty())
}

fn clause(patterns: Vec<TPattern>, body: TExpr) -> TClause {
    TClause { patterns, guards: vec![], body, where_binds: vec![] }
}

fn function(name: &str, ty: Ty, clauses: Vec<TClause>) -> TFunction {
    TFunction { name: name.into(), ty, dict_params: vec![], clauses, derived_strict: false }
}

fn module(functions: Vec<TFunction>) -> TModule {
    TModule {
        functions,
        instance_fns: vec![],
        data_defs: vec![],
        dropped_data_defs: vec![],
        exports: vec![],
        has_main: false,
        passes_run: vec![],
    }
}

/// `mk x = x`, typed to return a list.
fn mk() -> TFunction {
    function("mk", arrow(int_ty(), list_ty()), vec![clause(vec![pvar("x")], var("x"))])
}

#[test]
fn an_unreferenced_list_function_keeps_its_deep_result() {
    let info = analyze(&module(vec![mk()]));
    assert!(info.rows.has_deep_result("mk"));
}

#[test]
fn an_int_result_is_never_deep() {
    let m = module(vec![function("n", arrow(int_ty(), int_ty()), vec![clause(vec![pvar("x")], var("x"))])]);
    let info = analyze(&m);
    assert!(!info.rows.has_deep_result("n"));
}

#[test]
fn a_first_class_reference_drops_it() {
    let m = module(vec![mk(), function("g", int_ty(), vec![clause(vec![], var("mk"))])]);
    let info = analyze(&m);
    assert!(!info.rows.has_deep_result("mk"));
}

#[test]
fn a_saturated_call_from_a_deep_caller_keeps_both() {
    let h = function("h", arrow(int_ty(), list_ty()), vec![clause(vec![pvar("y")], app(var("mk"), var("y")))]);
    let info = analyze(&module(vec![mk(), h]));
    assert!(info.rows.has_deep_result("mk"));
    assert!(info.rows.has_deep_result("h"));
}

#[test]
fn a_call_under_plain_demand_drops_the_callee() {
    let h = function("h", arrow(int_ty(), int_ty()), vec![clause(vec![pvar("y")], app(var("mk"), var("y")))]);
    let info = analyze(&module(vec![mk(), h]));
    assert!(!info.rows.has_deep_result("mk"));
}

#[test]
fn a_partial_application_drops_the_callee() {
    let two = function("two", arrow(int_ty(), arrow(int_ty(), list_ty())), vec![clause(vec![pvar("a"), pvar("b")], var("a"))]);
    let h = function("h", arrow(int_ty(), list_ty()), vec![clause(vec![pvar("y")], app(var("two"), var("y")))]);
    let info = analyze(&module(vec![two, h]));
    assert!(!info.rows.has_deep_result("two"));
    assert!(info.rows.has_deep_result("h"));
}

#[test]
fn a_dictionary_call_poisons_the_caller_and_then_its_callee() {
    let h = function("h", arrow(int_ty(), list_ty()), vec![clause(vec![pvar("y")], app(var("mk"), var("y")))]);
    let k = function(
        "k",
        int_ty(),
        vec![clause(vec![], e(TExprKind::DictCall { func_name: "h".into(), dict_args: vec![], value_args: vec![] }))],
    );
    let m = module(vec![mk(), h, k]);
    let rows = module_rows(&m, &StrictEnv::new());
    let set = deep_result_set(&m, &rows);
    assert!(!set.contains("h"));
    assert!(!set.contains("mk"));
    assert!(!rows.has_deep_result("h"));
}
