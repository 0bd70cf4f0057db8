use lib::demand::{
    deep_of_ty, map_join, map_meet, opt_meet, st_intrinsic_run_row, Demand, DemandMap, LocalRows, Rows,
};
use lib::types::Ty;

fn fields(v: Vec<Option<Demand>>) -> Demand {
    Demand::Fields(v)
}

fn elems(d: Demand) -> Demand {
    Demand::Elems(Box::new(d))
}

fn same(a: &Demand, b: &Demand) -> bool {
    a.subsumes(b) && b.subsumes(a)
}

#[test]
fn subsumption_order() {
    let f = fields(vec![Some(Demand::Head), None]);
    let g = fields(vec![Some(elems(Demand::Head)), Some(Demand::Head)]);
    assert!(f.subsumes(&Demand::Head));
    assert!(!Demand::Head.subsumes(&f));
    assert!(g.subsumes(&f));
    assert!(!f.subsumes(&g));
    assert!(elems(elems(Demand::Head)).subsumes(&elems(Demand::Head)));
    assert!(!elems(Demand::Head).subsumes(&f));
}

#[test]
fn join_and_meet() {
    let a = fields(vec![Some(Demand::Head), None]);
    let b = fields(vec![None, Some(elems(Demand::Head)), Some(Demand::Head)]);
    let j = a.join(&b);
    assert!(same(&j, &fields(vec![Some(Demand::Head), Some(elems(Demand::Head)), Some(Demand::Head)])));
    let m = a.meet(&b);
    assert!(same(&m, &fields(vec![None, None, None])));
    // shape mismatch degrades to Head
    assert!(same(&a.join(&elems(Demand::Head)), &Demand::Head));
    assert!(same(&Demand::Head.join(&b), &b));
    assert!(same(&a.meet(&Demand::Head), &Demand::Head));
    assert!(opt_meet(Some(&a), None).is_none());
}

#[test]
fn deep_demand_of_types() {
    let io_tuple = Ty::IO(Box::new(Ty::Tuple(vec![
        Ty::List(Box::new(Ty::Con("Int".into()))),
        Ty::Con("Int".into()),
    ])));
    let d = deep_of_ty(&io_tuple);
    assert!(same(&d, &fields(vec![Some(elems(Demand::Head)), Some(Demand::Head)])));
    let st = Ty::App(
        Box::new(Ty::App(Box::new(Ty::Con("ST".into())), Box::new(Ty::Var("s".into())))),
        Box::new(Ty::List(Box::new(Ty::Unit))),
    );
    assert!(same(&deep_of_ty(&st), &elems(Demand::Head)));
    assert!(same(&deep_of_ty(&Ty::Con("Maybe".into())), &Demand::Head));
}

#[test]
fn demand_maps_join_and_meet() {
    let mut a = DemandMap::new();
    a.join_one("x", Demand::Head);
    a.join_one("y", fields(vec![Some(Demand::Head)]));
    let mut b = DemandMap::new();
    b.join_one("y", fields(vec![None, Some(Demand::Head)]));
    b.join_one("z", Demand::Head);
    let m = map_meet(&a, &b);
    assert!(m.get("x").is_none());
    assert!(same(m.get("y").unwrap(), &fields(vec![None, None])));
    map_join(&mut a, b);
    assert!(same(a.get("y").unwrap(), &fields(vec![Some(Demand::Head), Some(Demand::Head)])));
    assert!(a.get("z").is_some());
    assert!(a.get("w").is_none());
}

#[test]
fn result_demand_needs_deep_result_membership() {
    let mut rows = Rows::new();
    rows.set_result_deep("f", elems(Demand::Head));
    assert!(same(&rows.result_demand("f"), &Demand::Head));
    rows.add_deep_result("f");
    assert!(same(&rows.result_demand("f"), &elems(Demand::Head)));
    assert!(same(&rows.result_demand("g"), &Demand::Head));
}

#[test]
fn local_rows_pick_the_deep_row_under_deep_demand() {
    let lr = LocalRows::new(vec![None], Some(vec![Some(Demand::Head)]), elems(Demand::Head));
    assert!(lr.row_for(&elems(Demand::Head))[0].is_some());
    assert!(lr.row_for(&Demand::Head)[0].is_none());
}

#[test]
fn st_intrinsic_rows() {
    assert_eq!(st_intrinsic_run_row("writeSTArray", 3).map(|r| r.len()), Some(3));
    assert!(st_intrinsic_run_row("writeSTArray", 2).is_none());
    assert!(st_intrinsic_run_row("newSTArrayFromList", 1).unwrap()[0].is_some());
    assert!(st_intrinsic_run_row("other", 1).is_none());
}
