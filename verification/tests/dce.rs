use lib::dce::eliminate;
use lib::tir::{TClause, TConstructor, TDataDef, TExpr, TExprKind, TFunction, TModule, TPattern};
use lib::types::Ty;

fn var(n: &str) -> TExpr {
    TExpr { kind: TExprKind::Var(n.into()), ty: Ty::Unit }
}

fn con(n: &str) -> TExpr {
    TExpr { kind: TExprKind::Con(n.into()), ty: Ty::Unit }
}

fn app(f: TExpr, a: TExpr) -> TExpr {
    TExpr { kind: TExprKind::App(Box::new(f), Box::new(a)), ty: Ty::Unit }
}

fn func(name: &str, body: TExpr) -> TFunction {
    TFunction {
        name: name.into(),
        ty: Ty::Unit,
        dict_params: vec![],
        clauses: vec![TClause { patterns: vec![], guards: vec![], body, where_binds: vec![] }],
        derived_strict: false,
    }
}

fn data(name: &str, cons: &[&str]) -> TDataDef {
    TDataDef {
        name: name.into(),
        constructors: cons.iter().map(|c| TConstructor { name: (*c).into(), fields: vec![] }).collect(),
    }
}

fn names(fs: &[TFunction]) -> Vec<String> {
    fs.iter().map(|f| f.name.clone()).collect()
}

#[test]
fn keeps_exactly_what_main_reaches() {
    let module = TModule {
        functions: vec![
            func("main", app(var("f"), con("Just"))),
            func("f", var("g")),
            func("g", var("print")),
            func("unused", var("g")),
        ],
        instance_fns: vec![func("show_T", var("g")), func("eq_T", var("f"))],
        data_defs: vec![data("Maybe", &["Nothing", "Just"]), data("Either", &["Left", "Right"])],
        dropped_data_defs: vec![],
        exports: vec![],
        has_main: true,
        passes_run: vec!["fold".into(), "split".into()],
    };
    let out = eliminate(module);
    assert_eq!(names(&out.functions), vec!["main", "f", "g"]);
    assert!(out.instance_fns.is_empty());
    assert_eq!(out.data_defs.len(), 1);
    assert_eq!(out.data_defs[0].name, "Maybe");
    assert_eq!(out.dropped_data_defs.len(), 1);
    assert_eq!(out.dropped_data_defs[0].name, "Either");
    assert_eq!(out.passes_run, vec!["fold", "split", "dce"]);
}

#[test]
fn exports_are_roots_and_patterns_keep_constructors() {
    let matcher = TFunction {
        name: "isLeft".into(),
        ty: Ty::Unit,
        dict_params: vec![],
        clauses: vec![TClause {
            patterns: vec![TPattern::Constructor { name: "Left".into(), args: vec![TPattern::Wildcard] }],
            guards: vec![],
            body: con("True"),
            where_binds: vec![],
        }],
        derived_strict: false,
    };
    let module = TModule {
        functions: vec![matcher, func("helper", var("x"))],
        instance_fns: vec![func("show_T", var("helper"))],
        data_defs: vec![data("Either", &["Left", "Right"])],
        dropped_data_defs: vec![data("Old", &["O"])],
        exports: vec!["isLeft".into(), "notDefined".into()],
        has_main: false,
        passes_run: vec!["split".into()],
    };
    let out = eliminate(module);
    assert_eq!(names(&out.functions), vec!["isLeft"]);
    assert!(out.instance_fns.is_empty());
    assert_eq!(out.data_defs.len(), 1);
    assert_eq!(out.dropped_data_defs.len(), 1);
    assert_eq!(out.dropped_data_defs[0].name, "Old");
}

#[test]
fn main_without_has_main_is_not_a_root() {
    let module = TModule {
        functions: vec![func("main", var("f")), func("f", var("g"))],
        instance_fns: vec![],
        data_defs: vec![],
        dropped_data_defs: vec![],
        exports: vec![],
        has_main: false,
        passes_run: vec!["split".into()],
    };
    let out = eliminate(module);
    assert!(out.functions.is_empty());
}

#[test]
fn instance_methods_reached_through_references_stay() {
    let module = TModule {
        functions: vec![func("main", var("show_T"))],
        instance_fns: vec![func("show_T", var("helper")), func("other", var("main"))],
        data_defs: vec![],
        dropped_data_defs: vec![],
        exports: vec![],
        has_main: true,
        passes_run: vec!["split".into()],
    };
    let out = eliminate(module);
    assert_eq!(names(&out.functions), vec!["main"]);
    assert_eq!(names(&out.instance_fns), vec!["show_T"]);
}

#[test]
fn every_definition_of_a_kept_name_keeps_its_references() {
    // Two definitions of `f`: the earlier one references `h`, which must
    // survive along with it.
    let module = TModule {
        functions: vec![func("main", var("f")), func("f", var("h")), func("f", var("g")), func("g", con("Unit")), func("h", con("Unit")), func("dead", con("Unit"))],
        instance_fns: vec![],
        data_defs: vec![],
        dropped_data_defs: vec![],
        exports: vec![],
        has_main: true,
        passes_run: vec!["split".into()],
    };
    let out = eliminate(module);
    assert_eq!(names(&out.functions), vec!["main", "f", "f", "g", "h"]);
}
