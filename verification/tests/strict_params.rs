use lib::demanded::StrictEnv;
use lib::params::local_fn_strict_params;
use lib::strict_params::strict_params;
use lib::tir::{SpecKind, TClause, TExpr, TExprKind, TFunction, TGuard, TLiteral, TLocalDef, TModule, TPattern};
use lib::types::Ty;

fn e(kind: TExprKind) -> TExpr {
    TExpr { kind, ty: Ty::Con("Int".into()) }
}

fn var(n: &str) -> TExpr {
    e(TExprKind::Var(n.into()))
}

fn lit(n: i64) -> TExpr {
    e(TExprKind::Lit(TLiteral::Integer(n)))
}

fn app(f: TExpr, a: TExpr) -> TExpr {
    e(TExprKind::App(Box::new(f), Box::new(a)))
}

fn call(f: &str, args: Vec<TExpr>) -> TExpr {
    args.into_iter().fold(var(f), app)
}

fn infix(op: &str, l: TExpr, r: TExpr) -> TExpr {
    e(TExprKind::InfixApp { op: op.into(), lhs: Box::new(l), rhs: Box::new(r) })
}

fn if_(c: TExpr, t: TExpr, f: TExpr) -> TExpr {
    e(TExprKind::If { cond: Box::new(c), then_branch: Box::new(t), else_branch: Box::new(f) })
}

fn pvar(n: &str) -> TPattern {
    TPattern::Var(n.into(), Ty::Con("Int".into()))
}

fn plit(n: i64) -> TPattern {
    TPattern::LitPat(TLiteral::Integer(n))
}

fn clause(patterns: Vec<TPattern>, body: TExpr) -> TClause {
    TClause { patterns, guards: vec![], body, where_binds: vec![] }
}

fn func(name: &str, clauses: Vec<TClause>) -> TFunction {
    TFunction { name: name.into(), ty: Ty::Unit, dict_params: vec![], clauses, derived_strict: false }
}

fn module(functions: Vec<TFunction>) -> TModule {
    TModule {
        functions,
        instance_fns: vec![],
        data_defs: vec![],
        dropped_data_defs: vec![],
        exports: vec![],
        has_main: false,
        passes_run: vec![],
    }
}

fn row(env: &StrictEnv, name: &str) -> Option<Vec<bool>> {
    env.get(name).cloned()
}

#[test]
fn tail_accumulator_is_strict() {
    // loop 0 acc = acc; loop n acc = loop (n - 1) (acc + n)
    let f = func(
        "loop",
        vec![
            clause(vec![plit(0), pvar("acc")], var("acc")),
            clause(
                vec![pvar("n"), pvar("acc")],
                call("loop", vec![infix("-", var("n"), lit(1)), infix("+", var("acc"), var("n"))]),
            ),
        ],
    );
    let env = strict_params(&module(vec![f]));
    assert_eq!(row(&env, "loop"), Some(vec![true, true]));
}

#[test]
fn unused_parameter_stays_lazy() {
    // const x y = x
    let f = func("const", vec![clause(vec![pvar("x"), pvar("y")], var("x"))]);
    let env = strict_params(&module(vec![f]));
    assert_eq!(row(&env, "const"), Some(vec![true, false]));
}

#[test]
fn branch_demand_is_the_intersection() {
    // pick c a b = if c then a else b  -- strict in c only
    let f = func("pick", vec![clause(vec![pvar("c"), pvar("a"), pvar("b")], if_(var("c"), var("a"), var("b")))]);
    let env = strict_params(&module(vec![f]));
    assert_eq!(row(&env, "pick"), Some(vec![true, false, false]));
}

#[test]
fn demand_flows_through_known_callees() {
    // inc x = x + 1; useInc y z = inc y
    let inc = func("inc", vec![clause(vec![pvar("x")], infix("+", var("x"), lit(1)))]);
    let use_inc = func("useInc", vec![clause(vec![pvar("y"), pvar("z")], call("inc", vec![var("y")]))]);
    let env = strict_params(&module(vec![inc, use_inc]));
    assert_eq!(row(&env, "useInc"), Some(vec![true, false]));
}

#[test]
fn seeded_rows_for_primitives_and_prelude() {
    let env = strict_params(&module(vec![]));
    assert_eq!(row(&env, "writeSTArray"), Some(vec![true, true, false]));
    assert_eq!(row(&env, "eq_Int"), Some(vec![true, true]));
    assert_eq!(row(&env, "take"), Some(vec![true, false]));
    assert_eq!(row(&env, "show"), Some(vec![true]));
    assert_eq!(row(&env, "nothing"), None);
}

#[test]
fn user_definition_shadows_prelude_row() {
    // take n xs = xs  -- the user's take is analyzed, not the runtime mask
    let f = func("take", vec![clause(vec![pvar("n"), pvar("xs")], var("xs"))]);
    let env = strict_params(&module(vec![f]));
    assert_eq!(row(&env, "take"), Some(vec![false, true]));
}

#[test]
fn foreign_function_is_strict_everywhere() {
    let body = e(TExprKind::SpecCall {
        original: "hostAdd".into(),
        specialized: SpecKind::Host("host_add".into()),
        args: vec![var("a"), var("b")],
    });
    let f = func("hostAdd", vec![clause(vec![pvar("a"), pvar("b")], body)]);
    let env = strict_params(&module(vec![f]));
    assert_eq!(row(&env, "hostAdd"), Some(vec![true, true]));
}

#[test]
fn derived_comparison_is_strict_everywhere() {
    let mut f = func(
        "eq_Color",
        vec![clause(vec![TPattern::Wildcard, TPattern::Wildcard], e(TExprKind::Con("False".into())))],
    );
    f.derived_strict = true;
    let env = strict_params(&module(vec![f]));
    assert_eq!(row(&env, "eq_Color"), Some(vec![true, true]));
}

#[test]
fn local_go_makes_reverse_strict() {
    // reverse xs = go [] xs where go acc [] = acc; go acc (y:ys) = go (y:acc) ys
    let nil = TPattern::Constructor { name: "[]".into(), args: vec![] };
    let cons = TPattern::Constructor { name: ":".into(), args: vec![pvar("y"), pvar("ys")] };
    let go1 = TLocalDef { name: "go".into(), patterns: vec![pvar("acc"), nil], body: var("acc") };
    let go2 = TLocalDef {
        name: "go".into(),
        patterns: vec![pvar("acc"), cons],
        body: call("go", vec![infix(":", var("y"), var("acc")), var("ys")]),
    };
    let c = TClause {
        patterns: vec![pvar("xs")],
        guards: vec![],
        body: call("go", vec![e(TExprKind::Con("[]".into())), var("xs")]),
        where_binds: vec![go1, go2],
    };
    let locals = local_fn_strict_params(&c, &StrictEnv::new());
    // The accumulator only feeds a lazy cons: not strict; the list is.
    assert_eq!(row(&locals, "go"), Some(vec![false, true]));
    let env = strict_params(&module(vec![func("reverse", vec![c])]));
    assert_eq!(row(&env, "reverse"), Some(vec![true]));
}

#[test]
fn captured_outer_parameter_is_demanded() {
    // sumTo n = go 0 where go i = if i > n then i else go (i + 1)
    let go = TLocalDef {
        name: "go".into(),
        patterns: vec![pvar("i")],
        body: if_(infix(">", var("i"), var("n")), var("i"), call("go", vec![infix("+", var("i"), lit(1))])),
    };
    let c = TClause { patterns: vec![pvar("n")], guards: vec![], body: call("go", vec![lit(0)]), where_binds: vec![go] };
    let env = strict_params(&module(vec![func("sumTo", vec![c])]));
    assert_eq!(row(&env, "sumTo"), Some(vec![true]));
}

#[test]
fn rebound_local_name_gets_no_row() {
    // f x = (\go -> go) x where go y = y
    let go = TLocalDef { name: "go".into(), patterns: vec![pvar("y")], body: var("y") };
    let lam = e(TExprKind::Lambda { params: vec![("go".into(), Ty::Unit)], body: Box::new(var("go")) });
    let c = TClause { patterns: vec![pvar("x")], guards: vec![], body: app(lam, var("x")), where_binds: vec![go] };
    let locals = local_fn_strict_params(&c, &StrictEnv::new());
    assert_eq!(row(&locals, "go"), None);
}

#[test]
fn where_value_closure_reaches_parameter() {
    // f x | v > 0 = 1 | otherwise = 2 where v = x + 1
    let v = TLocalDef { name: "v".into(), patterns: vec![], body: infix("+", var("x"), lit(1)) };
    let c = TClause {
        patterns: vec![pvar("x")],
        guards: vec![
            TGuard { condition: infix(">", var("v"), lit(0)), body: lit(1) },
            TGuard { condition: var("otherwise"), body: lit(2) },
        ],
        body: lit(0),
        where_binds: vec![v],
    };
    let env = strict_params(&module(vec![func("f", vec![c])]));
    assert_eq!(row(&env, "f"), Some(vec![true]));
}
