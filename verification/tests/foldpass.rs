use lib::foldrun::fold_module;
use lib::tir::{TClause, TExpr, TExprKind, TFunction, TLiteral, TModule, TPattern};
use lib::types::Ty;

fn int_ty() -> Ty {
    Ty::Con("Int".into())
}

fn str_ty() -> Ty {
    Ty::Con("String".into())
}

fn arrow(a: Ty, b: Ty) -> Ty {
    Ty::Arrow(Box::new(a), Box::new(b))
}

fn e(kind: TExprKind, ty: Ty) -> TExpr {
    TExpr { kind, ty }
}

fn var(n: &str) -> TExpr {
    e(TExprKind::Var(n.into()), int_ty())
}

fn lit(n: i64) -> TExpr {
    e(TExprKind::Lit(TLiteral::Integer(n)), int_ty())
}

fn app(f: TExpr, a: TExpr) -> TExpr {
    e(TExprKind::App(Box::new(f), Box::new(a)), int_ty())
}

fn infix(op: &str, l: TExpr, r: TExpr) -> TExpr {
    e(TExprKind::InfixApp { op: op.into(), lhs: Box::new(l), rhs: Box::new(r) }, int_ty())
}

fn pvar(n: &str) -> TPattern {
    TPattern::Var(n.into(), int_ty())
}

fn function(name: &str, ty: Ty, patterns: Vec<TPattern>, body: TExpr) -> TFunction {
    TFunction {
        name: name.into(),
        ty,
        dict_params: vec![],
        clauses: vec![TClause { patterns, guards: vec![], body, where_binds: vec![] }],
        derived_strict: false,
    }
}

fn module(functions: Vec<TFunction>) -> TModule {
    TModule {
        functions,
        instance_fns: vec![],
        data_defs: vec![],
        dropped_data_defs: vec![],
        exports: vec![],
        has_main: false,
        passes_run: vec!["mono".to_string()],
    }
}

fn body_of(m: &TModule, name: &str) -> TExprKind {
    let f = m.functions.iter().find(|f| f.name == name).unwrap();
    match &f.clauses[0].body.kind {
        TExprKind::Lit(TLiteral::Integer(n)) => TExprKind::Lit(TLiteral::Integer(*n)),
        TExprKind::Lit(TLiteral::Str(b)) => TExprKind::Lit(TLiteral::Str(b.clone())),
        TExprKind::Lit(TLiteral::Bool(b)) => TExprKind::Lit(TLiteral::Bool(*b)),
        TExprKind::Var(v) => TExprKind::Var(v.clone()),
        TExprKind::App(_, _) => TExprKind::OpFunc("app".into()),
        _ => TExprKind::OpFunc("other".into()),
    }
}

fn is_int(k: &TExprKind, n: i64) -> bool {
    matches!(k, TExprKind::Lit(TLiteral::Integer(v)) if *v == n)
}

#[test]
fn a_literal_caf_propagates_and_folds_over_rounds() {
    let m = module(vec![
        function("abc", int_ty(), vec![], lit(17)),
        function("ghi", int_ty(), vec![], infix("+", var("abc"), lit(1))),
        function("jkl", int_ty(), vec![], infix("*", var("ghi"), lit(2))),
    ]);
    let r = fold_module(m);
    assert!(is_int(&body_of(&r, "ghi"), 18));
    assert!(is_int(&body_of(&r, "jkl"), 36));
}

#[test]
fn the_pass_is_recorded_after_mono() {
    let r = fold_module(module(vec![function("abc", int_ty(), vec![], lit(1))]));
    assert_eq!(r.passes_run, vec!["mono".to_string(), "fold".to_string()]);
}

#[test]
fn an_arithmetic_call_on_literals_beta_reduces() {
    let m = module(vec![
        function("def", arrow(int_ty(), int_ty()), vec![pvar("x")], infix("+", var("x"), lit(1))),
        function("v", int_ty(), vec![], app(var("def"), lit(5))),
    ]);
    let r = fold_module(m);
    assert!(is_int(&body_of(&r, "v"), 6));
}

#[test]
fn a_trapping_division_is_left_for_the_runtime() {
    let m = module(vec![
        function("over_zero", arrow(int_ty(), int_ty()), vec![pvar("x")], infix("div", var("x"), lit(0))),
        function("w", int_ty(), vec![], app(var("over_zero"), lit(7))),
    ]);
    let r = fold_module(m);
    // The splice puts the body in place of the call; the division stays.
    match &r.functions[1].clauses[0].body.kind {
        TExprKind::InfixApp { op, .. } => assert_eq!(op, "div"),
        TExprKind::App(_, _) => {},
        _ => panic!("the division must not fold"),
    }
}

#[test]
fn a_local_binder_hides_the_caf() {
    let m = module(vec![
        function("abc", int_ty(), vec![], lit(17)),
        function("f", arrow(int_ty(), int_ty()), vec![pvar("abc")], var("abc")),
    ]);
    let r = fold_module(m);
    assert!(matches!(body_of(&r, "f"), TExprKind::Var(ref v) if v == "abc"));
}

#[test]
fn a_wrapper_on_a_literal_is_spliced_and_shown() {
    let show = e(TExprKind::Var("show_Int".into()), arrow(int_ty(), str_ty()));
    let body = e(TExprKind::App(Box::new(show), Box::new(var("x"))), str_ty());
    let m = module(vec![
        function("wrap", arrow(int_ty(), str_ty()), vec![pvar("x")], body),
        function("v", str_ty(), vec![], e(TExprKind::App(Box::new(var("wrap")), Box::new(lit(23))), str_ty())),
    ]);
    let r = fold_module(m);
    assert!(matches!(body_of(&r, "v"), TExprKind::Lit(TLiteral::Str(ref b)) if b == b"23"));
}

#[test]
fn a_literal_condition_picks_its_branch() {
    let cond = e(TExprKind::Lit(TLiteral::Bool(true)), Ty::Con("Bool".into()));
    let m = module(vec![function(
        "v",
        int_ty(),
        vec![],
        e(TExprKind::If { cond: Box::new(cond), then_branch: Box::new(lit(1)), else_branch: Box::new(lit(2)) }, int_ty()),
    )]);
    let r = fold_module(m);
    assert!(is_int(&body_of(&r, "v"), 1));
}

#[test]
fn a_self_referential_wrapper_is_never_spliced() {
    let m = module(vec![
        function("spin", arrow(int_ty(), int_ty()), vec![pvar("x")], app(var("spin"), var("x"))),
        function("v", int_ty(), vec![], app(var("spin"), lit(1))),
    ]);
    let r = fold_module(m);
    assert!(matches!(body_of(&r, "v"), TExprKind::OpFunc(ref s) if s == "app"));
}

#[test]
fn folding_the_folded_module_again_changes_nothing() {
    let m = module(vec![
        function("abc", int_ty(), vec![], lit(17)),
        function("def", arrow(int_ty(), int_ty()), vec![pvar("x")], infix("+", var("x"), lit(1))),
        function("ghi", int_ty(), vec![], infix("+", var("abc"), app(var("def"), lit(5)))),
        function("keep", arrow(int_ty(), int_ty()), vec![pvar("y")], infix("div", var("y"), lit(0))),
    ]);
    let once = fold_module(m);
    let kinds: Vec<TExprKind> = ["abc", "def", "ghi", "keep"].iter().map(|n| body_of(&once, n)).collect();
    assert!(is_int(&kinds[2], 23));
    let mut again = once;
    again.passes_run = vec!["mono".to_string()];
    let twice = fold_module(again);
    for (i, n) in ["abc", "def", "ghi", "keep"].iter().enumerate() {
        let k = body_of(&twice, n);
        match (&kinds[i], &k) {
            (TExprKind::Lit(TLiteral::Integer(a)), TExprKind::Lit(TLiteral::Integer(b))) => assert_eq!(a, b),
            (TExprKind::OpFunc(a), TExprKind::OpFunc(b)) => assert_eq!(a, b),
            (TExprKind::Var(a), TExprKind::Var(b)) => assert_eq!(a, b),
            _ => panic!("the second fold changed {}", n),
        }
    }
}

#[test]
fn a_parameter_used_as_a_backtick_operator_blocks_the_splice() {
    let m = module(vec![
        function("g", arrow(int_ty(), int_ty()), vec![pvar("x")], infix("x", lit(1), lit(2))),
        function("v", int_ty(), vec![], app(var("g"), lit(5))),
    ]);
    let r = fold_module(m);
    assert!(matches!(body_of(&r, "v"), TExprKind::OpFunc(ref s) if s == "app"));
}

#[test]
fn a_symbolic_operator_does_not_block_the_splice() {
    let m = module(vec![
        function("g", arrow(int_ty(), int_ty()), vec![pvar("x")], infix("+", var("x"), var("x"))),
        function("big", int_ty(), vec![], lit(i64::MAX)),
        function("v", int_ty(), vec![], app(var("g"), var("big"))),
    ]);
    let r = fold_module(m);
    // `big + big` overflows, so no literal results; the wrapper is spliced.
    match &r.functions[2].clauses[0].body.kind {
        TExprKind::InfixApp { op, .. } => assert_eq!(op, "+"),
        _ => panic!("the wrapper must be spliced"),
    }
}
