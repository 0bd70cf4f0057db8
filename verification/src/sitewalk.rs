//! The walk that records call-site visits, computed.
//!
//! It follows the structured demand walker step by step and appends, for
//! every application whose head is a known function, one visit record to
//! a log. What a path's visits amount to is read off the log afterwards.

use vstd::prelude::*;
use crate::tir::{TExpr, TExprKind, TGuard, TCaseBranch, TLocalDef, SpecKind};
use crate::demand::{DM, Demand, DemandMap, row_model, map_join};
use crate::structured::{RowCx, cx_model, dx, close_pass, sel_model, spine_len, spine_head, head_name, dx_exec,
    callee_row_exec, call_row_exec, arg_eager_exec, spine_info, row_sel_exec, is_pure_var_exec, proj_fields_exec, put,
    seq_sel, pure_sel, CLOSE_ROUNDS};
use crate::sites::{Visit, vis, vis_row_call, vis_apply_row, vis_tuple, vis_updates, vis_branch, vis_branches, vis_guards,
    vis_close, vis_rounds, vis_pass, head_visit, head_path, vis_dapp, vis_dhead, vis_spine_pos, vis_spine_eager};
use crate::text::str_eq;

verus! {

broadcast use vstd::string::group_string_axioms;

/// A visit as it is logged: path, callee, demand, saturated.
pub type VisitRec = (Vec<usize>, String, Demand, bool);

pub open spec fn rec_model(v: VisitRec) -> Visit {
    (v.0@, v.1@, v.2@, v.3)
}

pub open spec fn log_model(l: Seq<VisitRec>) -> Seq<Visit> {
    l.map_values(|v: VisitRec| rec_model(v))
}

/// The arity table: later entries win.
pub open spec fn arity_entries(es: Seq<(String, usize)>) -> Map<Seq<char>, nat>
    decreases es.len(),
{
    if es.len() == 0 {
        Map::empty()
    } else {
        arity_entries(es.drop_last()).insert(es.last().0@, es.last().1 as nat)
    }
}

proof fn lemma_arity_tail(es: Seq<(String, usize)>, i: int, name: Seq<char>)
    requires
        0 <= i <= es.len(),
        forall|j: int| i <= j < es.len() ==> es[j].0@ != name,
    ensures
        arity_entries(es).contains_key(name) == arity_entries(es.take(i)).contains_key(name),
        arity_entries(es).contains_key(name) ==> arity_entries(es)[name] == arity_entries(es.take(i))[name],
    decreases es.len(),
{
    if i == es.len() {
        assert(es.take(i) =~= es);
    } else {
        lemma_arity_tail(es.drop_last(), i, name);
        assert(es.drop_last().take(i) =~= es.take(i));
    }
}

/// The arity recorded for `name`.
pub(crate) fn arity_get(es: &Vec<(String, usize)>, name: &str) -> (r: Option<usize>)
    ensures
        match r {
            Some(a) => arity_entries(es@).contains_key(name@) && arity_entries(es@)[name@] == a as nat,
            None => !arity_entries(es@).contains_key(name@),
        },
{
    let mut i: usize = es.len();
    while i > 0
        invariant
            i <= es@.len(),
            forall|j: int| i <= j < es@.len() ==> es@[j].0@ != name@,
        decreases i,
    {
        let k = i - 1;
        if str_eq(es[k].0.as_str(), name) {
            proof {
                lemma_arity_tail(es@, i as int, name@);
                assert(es@.take(i as int).drop_last() =~= es@.take(k as int));
            }
            return Some(es[k].1);
        }
        i = k;
    }
    proof {
        lemma_arity_tail(es@, 0, name@);
    }
    None
}

/// `p` extended by `i`.
pub(crate) fn child(p: &Vec<usize>, i: usize) -> (r: Vec<usize>)
    ensures
        r@ == p@.push(i),
{
    let mut r: Vec<usize> = Vec::new();
    let mut k: usize = 0;
    while k < p.len()
        invariant
            k <= p@.len(),
            r@ == p@.take(k as int),
        decreases p@.len() - k,
    {
        r.push(p[k]);
        assert(p@.take(k as int + 1) =~= p@.take(k as int).push(p@[k as int]));
        k = k + 1;
    }
    assert(p@.take(p@.len() as int) =~= p@);
    r.push(i);
    r
}

fn log_push(log: &mut Vec<VisitRec>, v: VisitRec)
    ensures
        log_model(final(log)@) == log_model(old(log)@) + seq![rec_model(v)],
{
    let ghost l0 = log@;
    log.push(v);
    assert(log_model(log@) =~= log_model(l0) + seq![rec_model(v)]);
}

fn head_path_exec(e: &TExpr, p: Vec<usize>) -> (r: Vec<usize>)
    ensures
        r@ == head_path(*e, p@),
    decreases e,
{
    match &e.kind {
        TExprKind::App(g, _) => {
            let mut q = p;
            q.push(0);
            head_path_exec(g, q)
        },
        TExprKind::Paren(i) => {
            let mut q = p;
            q.push(0);
            head_path_exec(i, q)
        },
        _ => p,
    }
}

#[verifier::rlimit(40)]
pub(crate) fn vis_exec(cx: &RowCx, ar: &Vec<(String, usize)>, e: &TExpr, rd: &Demand, run: bool, p: &Vec<usize>,
    log: &mut Vec<VisitRec>)
    requires
        cx.rows.wf(),
    ensures
        log_model(final(log)@) == log_model(old(log)@) + vis(cx_model(*cx), arity_entries(ar@), *e, rd@, run, p@),
    decreases e, 5nat,
{
    let ghost c = cx_model(*cx);
    let ghost a = arity_entries(ar@);
    let ghost l0 = log_model(log@);
    match &e.kind {
        TExprKind::Paren(x) => vis_exec(cx, ar, x, rd, run, &child(p, 0), log),
        TExprKind::Negate(x) => vis_exec(cx, ar, x, &Demand::Head, false, &child(p, 0), log),
        TExprKind::Tuple(elems) => match rd {
            Demand::Fields(ds) => {
                proof {
                    crate::demand::lemma_fields_model(*ds);
                }
                vis_tuple_exec(cx, ar, elems, ds, p, log);
            },
            _ => {
                assert(log_model(log@) =~= l0 + Seq::<Visit>::empty());
            },
        },
        TExprKind::App(_, _) => vis_dapp_exec(cx, ar, e, rd, run, p, log),
        TExprKind::InfixApp { op, lhs, rhs } => {
            if str_eq(op.as_str(), "$") && is_pure_var_exec(lhs) {
                if run && !matches!(rd, Demand::Head) {
                    vis_exec(cx, ar, rhs, rd, false, &child(p, 1), log);
                } else {
                    assert(log_model(log@) =~= l0 + Seq::<Visit>::empty());
                }
            } else if str_eq(op.as_str(), ":") {
                match rd {
                    Demand::Elems(de) => {
                        vis_exec(cx, ar, lhs, de, false, &child(p, 0), log);
                        let ghost l1 = log_model(log@);
                        vis_exec(cx, ar, rhs, rd, false, &child(p, 1), log);
                        assert(log_model(log@) =~= l0 + (vis(c, a, **lhs, (**de)@, false, p@.push(0))
                            + vis(c, a, **rhs, rd@, false, p@.push(1))));
                    },
                    _ => {
                        assert(log_model(log@) =~= l0 + Seq::<Visit>::empty());
                    },
                }
            } else if str_eq(op.as_str(), "seq") {
                vis_exec(cx, ar, lhs, &Demand::Head, false, &child(p, 0), log);
                vis_exec(cx, ar, rhs, rd, run, &child(p, 1), log);
                assert(log_model(log@) =~= l0 + (vis(c, a, **lhs, DM::Head, false, p@.push(0))
                    + vis(c, a, **rhs, rd@, run, p@.push(1))));
            } else if str_eq(op.as_str(), ">>=") {
                match &rhs.kind {
                    TExprKind::Lambda { params, body } => {
                        let rest = dx_exec(cx, body, rd, run);
                        let dp = if params.len() == 1 {
                            match rest.get(params[0].0.as_str()) {
                                Some(d) => d.copy(),
                                None => Demand::Head,
                            }
                        } else {
                            Demand::Head
                        };
                        let q = child(&child(p, 1), 0);
                        vis_exec(cx, ar, body, rd, run, &q, log);
                        vis_exec(cx, ar, lhs, &dp, true, &child(p, 0), log);
                        assert(log_model(log@) =~= l0 + (vis(c, a, **body, rd@, run, p@.push(1).push(0))
                            + vis(c, a, **lhs, dp@, true, p@.push(0))));
                    },
                    _ => {
                        vis_exec(cx, ar, lhs, &Demand::Head, true, &child(p, 0), log);
                        vis_exec(cx, ar, rhs, &Demand::Head, false, &child(p, 1), log);
                        assert(log_model(log@) =~= l0 + (vis(c, a, **lhs, DM::Head, true, p@.push(0))
                            + vis(c, a, **rhs, DM::Head, false, p@.push(1))));
                    },
                }
            } else if str_eq(op.as_str(), ">>") {
                vis_exec(cx, ar, lhs, &Demand::Head, true, &child(p, 0), log);
                vis_exec(cx, ar, rhs, rd, run, &child(p, 1), log);
                assert(log_model(log@) =~= l0 + (vis(c, a, **lhs, DM::Head, true, p@.push(0))
                    + vis(c, a, **rhs, rd@, run, p@.push(1))));
            } else {
                match crate::demanded::operands(op.as_str(), crate::demanded::is_string_ty(&lhs.ty)) {
                    crate::demanded::Operands::Both => {
                        vis_exec(cx, ar, lhs, &Demand::Head, false, &child(p, 0), log);
                        vis_exec(cx, ar, rhs, &Demand::Head, false, &child(p, 1), log);
                        assert(log_model(log@) =~= l0 + (vis(c, a, **lhs, DM::Head, false, p@.push(0))
                            + vis(c, a, **rhs, DM::Head, false, p@.push(1))));
                    },
                    crate::demanded::Operands::Lhs => vis_exec(cx, ar, lhs, &Demand::Head, false, &child(p, 0), log),
                    _ => {
                        assert(log_model(log@) =~= l0 + Seq::<Visit>::empty());
                    },
                }
            }
        },
        TExprKind::If { cond, then_branch, else_branch } => {
            if crate::demanded::otherwise_cond(cond) {
                vis_exec(cx, ar, then_branch, rd, run, &child(p, 1), log);
            } else {
                vis_exec(cx, ar, cond, &Demand::Head, false, &child(p, 0), log);
                vis_exec(cx, ar, then_branch, rd, run, &child(p, 1), log);
                vis_exec(cx, ar, else_branch, rd, run, &child(p, 2), log);
                assert(log_model(log@) =~= l0 + (vis(c, a, **cond, DM::Head, false, p@.push(0))
                    + vis(c, a, **then_branch, rd@, run, p@.push(1)) + vis(c, a, **else_branch, rd@, run, p@.push(2))));
            }
        },
        TExprKind::Case { scrutinee, branches } => {
            vis_exec(cx, ar, scrutinee, &Demand::Head, false, &child(p, 0), log);
            if branches.len() > 0 {
                vis_branches_exec(cx, ar, branches, rd, run, &child(p, 1), log);
                assert(log_model(log@) =~= l0 + (vis(c, a, **scrutinee, DM::Head, false, p@.push(0))
                    + vis_branches(c, a, branches@, rd@, run, p@.push(1))));
            }
        },
        TExprKind::Let { binds, body } => {
            vis_exec(cx, ar, body, rd, run, &child(p, 1), log);
            let mut m = dx_exec(cx, body, rd, run);
            vis_close_exec(cx, ar, binds, m, &child(p, 0), log);
            assert(log_model(log@) =~= l0 + (vis(c, a, **body, rd@, run, p@.push(1))
                + vis_close(c, a, binds@, dx(c, **body, rd@, run), p@.push(0))));
        },
        TExprKind::SpecCall { original, specialized, args } => {
            let tup = match specialized {
                SpecKind::TupGet(idx) => *idx >= 1 && args.len() == 1,
                _ => false,
            };
            if tup {
                let idx = match specialized {
                    SpecKind::TupGet(idx) => *idx,
                    _ => 1,
                };
                let fields = proj_fields_exec(idx, rd);
                proof {
                    crate::demand::lemma_fields_model(fields);
                }
                let f = Demand::Fields(fields);
                assert(decreases_to!(args => args@[0]));
                vis_exec(cx, ar, &args[0], &f, false, &child(p, 0), log);
            } else {
                vis_row_call_exec(cx, ar, original.as_str(), args, p, log);
            }
        },
        TExprKind::DictCall { func_name, dict_args: _, value_args } => {
            vis_row_call_exec(cx, ar, func_name.as_str(), value_args, &child(p, 1), log);
        },
        TExprKind::DictMethod { dict, method_name: _ } => vis_exec(cx, ar, dict, &Demand::Head, false, &child(p, 0), log),
        TExprKind::RecordUpdate { record, updates } => {
            vis_exec(cx, ar, record, &Demand::Head, false, &child(p, 0), log);
            vis_updates_exec(cx, ar, updates, &child(p, 1), log);
            assert(log_model(log@) =~= l0 + (vis(c, a, **record, DM::Head, false, p@.push(0))
                + vis_updates(c, a, updates@, p@.push(1))));
        },
        TExprKind::OutgoingCallback { callee, arity: _ } => vis_exec(cx, ar, callee, &Demand::Head, false, &child(p, 0), log),
        TExprKind::FfiMaybeArg { value } => vis_exec(cx, ar, value, &Demand::Head, false, &child(p, 0), log),
        _ => {
            assert(log_model(log@) =~= l0 + Seq::<Visit>::empty());
        },
    }
}

fn vis_row_call_exec(cx: &RowCx, ar: &Vec<(String, usize)>, name: &str, args: &Vec<TExpr>, p: &Vec<usize>,
    log: &mut Vec<VisitRec>)
    requires
        cx.rows.wf(),
    ensures
        log_model(final(log)@) == log_model(old(log)@) + vis_row_call(cx_model(*cx), arity_entries(ar@), name@, args@, p@),
    decreases args, 4nat,
{
    match callee_row_exec(cx, name, &Demand::Head) {
        Some(row) => vis_apply_row_exec(cx, ar, &row, args, p, log),
        None => {
            assert(log_model(log@) =~= log_model(log@) + Seq::<Visit>::empty());
        },
    }
}

fn vis_apply_row_exec(cx: &RowCx, ar: &Vec<(String, usize)>, row: &Vec<Option<Demand>>, args: &Vec<TExpr>, p: &Vec<usize>,
    log: &mut Vec<VisitRec>)
    requires
        cx.rows.wf(),
    ensures
        log_model(final(log)@) == log_model(old(log)@) + vis_apply_row(cx_model(*cx), arity_entries(ar@), row_model(row@),
            args@, p@),
    decreases args, 3nat,
{
    let ghost c = cx_model(*cx);
    let ghost a = arity_entries(ar@);
    let ghost l0 = log_model(log@);
    let ghost rm = row_model(row@);
    let mut i: usize = 0;
    assert(args@.take(0) =~= Seq::<TExpr>::empty());
    assert(l0 + Seq::<Visit>::empty() =~= l0);
    while i < args.len()
        invariant
            cx.rows.wf(),
            c == cx_model(*cx),
            a == arity_entries(ar@),
            rm == row_model(row@),
            i <= args@.len(),
            log_model(log@) == l0 + vis_apply_row(c, a, rm, args@.take(i as int), p@),
        decreases args@.len() - i,
    {
        assert(decreases_to!(args => args@[i as int]));
        let ghost t = args@.take(i as int + 1);
        assert(t.drop_last() =~= args@.take(i as int));
        assert(t.last() == args@[i as int]);
        let ghost before = log_model(log@);
        if i < row.len() && row[i].is_some() {
            match &row[i] {
                Some(d) => {
                    assert(rm[i as int] == Some(d@));
                    vis_exec(cx, ar, &args[i], d, false, &child(p, i), log);
                },
                None => {},
            }
        } else {
            assert(before + Seq::<Visit>::empty() =~= before);
        }
        assert(log_model(log@) =~= l0 + vis_apply_row(c, a, rm, t, p@));
        i = i + 1;
    }
    assert(args@.take(args@.len() as int) =~= args@);
}

fn vis_tuple_exec(cx: &RowCx, ar: &Vec<(String, usize)>, elems: &Vec<TExpr>, ds: &Vec<Option<Demand>>, p: &Vec<usize>,
    log: &mut Vec<VisitRec>)
    requires
        cx.rows.wf(),
    ensures
        log_model(final(log)@) == log_model(old(log)@) + vis_tuple(cx_model(*cx), arity_entries(ar@), elems@,
            row_model(ds@), p@),
    decreases elems, 3nat,
{
    let ghost c = cx_model(*cx);
    let ghost a = arity_entries(ar@);
    let ghost l0 = log_model(log@);
    let ghost dm = row_model(ds@);
    let mut i: usize = 0;
    assert(elems@.take(0) =~= Seq::<TExpr>::empty());
    assert(l0 + Seq::<Visit>::empty() =~= l0);
    while i < elems.len()
        invariant
            cx.rows.wf(),
            c == cx_model(*cx),
            a == arity_entries(ar@),
            dm == row_model(ds@),
            i <= elems@.len(),
            log_model(log@) == l0 + vis_tuple(c, a, elems@.take(i as int), dm, p@),
        decreases elems@.len() - i,
    {
        assert(decreases_to!(elems => elems@[i as int]));
        let ghost t = elems@.take(i as int + 1);
        assert(t.drop_last() =~= elems@.take(i as int));
        assert(t.last() == elems@[i as int]);
        let ghost before = log_model(log@);
        if i < ds.len() && ds[i].is_some() {
            match &ds[i] {
                Some(d) => {
                    assert(dm[i as int] == Some(d@));
                    vis_exec(cx, ar, &elems[i], d, false, &child(p, i), log);
                },
                None => {},
            }
        } else {
            assert(before + Seq::<Visit>::empty() =~= before);
        }
        assert(log_model(log@) =~= l0 + vis_tuple(c, a, t, dm, p@));
        i = i + 1;
    }
    assert(elems@.take(elems@.len() as int) =~= elems@);
}

fn vis_updates_exec(cx: &RowCx, ar: &Vec<(String, usize)>, us: &Vec<(String, usize, TExpr)>, p: &Vec<usize>,
    log: &mut Vec<VisitRec>)
    requires
        cx.rows.wf(),
    ensures
        log_model(final(log)@) == log_model(old(log)@) + vis_updates(cx_model(*cx), arity_entries(ar@), us@, p@),
    decreases us, 3nat,
{
    let ghost c = cx_model(*cx);
    let ghost a = arity_entries(ar@);
    let ghost l0 = log_model(log@);
    let mut i: usize = 0;
    assert(us@.take(0) =~= Seq::<(String, usize, TExpr)>::empty());
    assert(l0 + Seq::<Visit>::empty() =~= l0);
    while i < us.len()
        invariant
            cx.rows.wf(),
            c == cx_model(*cx),
            a == arity_entries(ar@),
            i <= us@.len(),
            log_model(log@) == l0 + vis_updates(c, a, us@.take(i as int), p@),
        decreases us@.len() - i,
    {
        assert(decreases_to!(us => us@[i as int]));
        let ghost t = us@.take(i as int + 1);
        assert(t.drop_last() =~= us@.take(i as int));
        assert(t.last() == us@[i as int]);
        vis_exec(cx, ar, &us[i].2, &Demand::Head, false, &child(p, i), log);
        assert(log_model(log@) =~= l0 + vis_updates(c, a, t, p@));
        i = i + 1;
    }
    assert(us@.take(us@.len() as int) =~= us@);
}

fn vis_branch_exec(cx: &RowCx, ar: &Vec<(String, usize)>, b: &TCaseBranch, rd: &Demand, run: bool, p: &Vec<usize>,
    log: &mut Vec<VisitRec>)
    requires
        cx.rows.wf(),
    ensures
        log_model(final(log)@) == log_model(old(log)@) + vis_branch(cx_model(*cx), arity_entries(ar@), *b, rd@, run, p@),
    decreases b, 3nat,
{
    if b.guards.len() == 0 {
        vis_exec(cx, ar, &b.body, rd, run, &child(p, 1), log);
    } else {
        vis_guards_exec(cx, ar, &b.guards, 0, rd, run, &child(p, 0), log);
    }
}

fn vis_branches_exec(cx: &RowCx, ar: &Vec<(String, usize)>, bs: &Vec<TCaseBranch>, rd: &Demand, run: bool, p: &Vec<usize>,
    log: &mut Vec<VisitRec>)
    requires
        cx.rows.wf(),
    ensures
        log_model(final(log)@) == log_model(old(log)@) + vis_branches(cx_model(*cx), arity_entries(ar@), bs@, rd@, run, p@),
    decreases bs, 3nat,
{
    let ghost c = cx_model(*cx);
    let ghost a = arity_entries(ar@);
    let ghost l0 = log_model(log@);
    let mut i: usize = 0;
    assert(bs@.take(0) =~= Seq::<TCaseBranch>::empty());
    assert(l0 + Seq::<Visit>::empty() =~= l0);
    while i < bs.len()
        invariant
            cx.rows.wf(),
            c == cx_model(*cx),
            a == arity_entries(ar@),
            i <= bs@.len(),
            log_model(log@) == l0 + vis_branches(c, a, bs@.take(i as int), rd@, run, p@),
        decreases bs@.len() - i,
    {
        assert(decreases_to!(bs => bs@[i as int]));
        let ghost t = bs@.take(i as int + 1);
        assert(t.drop_last() =~= bs@.take(i as int));
        assert(t.last() == bs@[i as int]);
        vis_branch_exec(cx, ar, &bs[i], rd, run, &child(p, i), log);
        assert(log_model(log@) =~= l0 + vis_branches(c, a, t, rd@, run, p@));
        i = i + 1;
    }
    assert(bs@.take(bs@.len() as int) =~= bs@);
}

pub(crate) fn vis_guards_exec(cx: &RowCx, ar: &Vec<(String, usize)>, gs: &Vec<TGuard>, k: usize, rd: &Demand, run: bool,
    p: &Vec<usize>, log: &mut Vec<VisitRec>)
    requires
        cx.rows.wf(),
    ensures
        log_model(final(log)@) == log_model(old(log)@) + vis_guards(cx_model(*cx), arity_entries(ar@), gs@, k as nat, rd@,
            run, p@),
    decreases gs, 3nat, gs@.len() - k,
{
    let ghost c = cx_model(*cx);
    let ghost a = arity_entries(ar@);
    let ghost l0 = log_model(log@);
    if k >= gs.len() {
        assert(l0 + Seq::<Visit>::empty() =~= l0);
        return;
    }
    assert(decreases_to!(gs => gs@[k as int]));
    let q = child(p, k);
    if crate::demanded::otherwise_cond(&gs[k].condition) {
        vis_exec(cx, ar, &gs[k].body, rd, run, &child(&q, 1), log);
    } else {
        vis_exec(cx, ar, &gs[k].condition, &Demand::Head, false, &child(&q, 0), log);
        vis_exec(cx, ar, &gs[k].body, rd, run, &child(&q, 1), log);
        vis_guards_exec(cx, ar, gs, k + 1, rd, run, p, log);
        assert(log_model(log@) =~= l0 + (vis(c, a, gs@[k as int].condition, DM::Head, false, p@.push(k).push(0))
            + vis(c, a, gs@[k as int].body, rd@, run, p@.push(k).push(1)) + vis_guards(c, a, gs@, (k + 1) as nat, rd@, run, p@)));
    }
}

/// One round of a `let` group's closure, recording the visits of the
/// right-hand sides it walks.
fn vis_pass_exec(cx: &RowCx, ar: &Vec<(String, usize)>, bs: &Vec<TLocalDef>, m: &mut DemandMap, walked: &mut DemandMap,
    p: &Vec<usize>, log: &mut Vec<VisitRec>) -> (changed: bool)
    requires
        cx.rows.wf(),
        old(m).wf(),
        old(walked).wf(),
    ensures
        final(m).wf(),
        final(walked).wf(),
        (final(m)@, final(walked)@, changed) == close_pass(cx_model(*cx), bs@, old(m)@, old(walked)@),
        log_model(final(log)@) == log_model(old(log)@) + vis_pass(cx_model(*cx), arity_entries(ar@), bs@, old(m)@,
            old(walked)@, p@),
    decreases bs, 1nat, 0nat,
{
    let ghost c = cx_model(*cx);
    let ghost a = arity_entries(ar@);
    let ghost l0 = log_model(log@);
    let ghost m0 = m@;
    let ghost w0 = walked@;
    let mut changed = false;
    let mut i: usize = 0;
    assert(bs@.take(0) =~= Seq::<TLocalDef>::empty());
    assert(l0 + Seq::<Visit>::empty() =~= l0);
    while i < bs.len()
        invariant
            cx.rows.wf(),
            c == cx_model(*cx),
            a == arity_entries(ar@),
            m.wf(),
            walked.wf(),
            i <= bs@.len(),
            (m@, walked@, changed) == close_pass(c, bs@.take(i as int), m0, w0),
            log_model(log@) == l0 + vis_pass(c, a, bs@.take(i as int), m0, w0, p@),
        decreases bs@.len() - i,
    {
        assert(decreases_to!(bs => bs@[i as int]));
        let ghost t = bs@.take(i as int + 1);
        assert(t.drop_last() =~= bs@.take(i as int));
        assert(t.last() == bs@[i as int]);
        let ghost before = log_model(log@);
        let b = &bs[i];
        let mut walked_now = false;
        if b.patterns.len() == 0 {
            let cur = match m.get(b.name.as_str()) {
                Some(d) => Some(d.copy()),
                None => None,
            };
            match cur {
                Some(d) => {
                    let redo = match walked.get(b.name.as_str()) {
                        Some(prev) => !prev.subsumes(&d),
                        None => true,
                    };
                    if redo {
                        vis_exec(cx, ar, &b.body, &d, false, &child(p, i), log);
                        let r = dx_exec(cx, &b.body, &d, false);
                        map_join(m, r);
                        put(walked, b.name.as_str(), d);
                        changed = true;
                        walked_now = true;
                    }
                },
                None => {},
            }
        }
        if !walked_now {
            assert(before + Seq::<Visit>::empty() =~= before);
        }
        assert(log_model(log@) =~= l0 + vis_pass(c, a, t, m0, w0, p@));
        i = i + 1;
    }
    assert(bs@.take(bs@.len() as int) =~= bs@);
    changed
}

pub(crate) fn vis_close_exec(cx: &RowCx, ar: &Vec<(String, usize)>, bs: &Vec<TLocalDef>, m0: DemandMap, p: &Vec<usize>,
    log: &mut Vec<VisitRec>)
    requires
        cx.rows.wf(),
        m0.wf(),
    ensures
        log_model(final(log)@) == log_model(old(log)@) + vis_close(cx_model(*cx), arity_entries(ar@), bs@, m0@, p@),
    decreases bs, CLOSE_ROUNDS as nat + 3, 0nat,
{
    let ghost c = cx_model(*cx);
    let ghost a = arity_entries(ar@);
    let ghost l0 = log_model(log@);
    let ghost mm = m0@;
    let mut m = m0;
    let mut walked = DemandMap::new();
    let mut left: u64 = CLOSE_ROUNDS;
    assert(l0 + vis_rounds(c, a, bs@, mm, Map::empty(), CLOSE_ROUNDS as nat, p@) == log_model(log@) + vis_rounds(c, a,
        bs@, m@, walked@, left as nat, p@));
    loop
        invariant_except_break
            l0 + vis_rounds(c, a, bs@, mm, Map::empty(), CLOSE_ROUNDS as nat, p@) == log_model(log@) + vis_rounds(c, a,
                bs@, m@, walked@, left as nat, p@),
        invariant
            cx.rows.wf(),
            m.wf(),
            walked.wf(),
            c == cx_model(*cx),
            a == arity_entries(ar@),
        ensures
            l0 + vis_rounds(c, a, bs@, mm, Map::empty(), CLOSE_ROUNDS as nat, p@) == log_model(log@),
        decreases left,
    {
        let ghost lb = log_model(log@);
        if left == 0 {
            assert(lb + Seq::<Visit>::empty() =~= lb);
            break;
        }
        let ghost (ms, ws) = (m@, walked@);
        let changed = vis_pass_exec(cx, ar, bs, &mut m, &mut walked, p, log);
        let ghost vp = vis_pass(c, a, bs@, ms, ws, p@);
        if !changed {
            assert(vis_rounds(c, a, bs@, ms, ws, left as nat, p@) == vp + Seq::<Visit>::empty());
            assert(lb + (vp + Seq::<Visit>::empty()) =~= log_model(log@));
            break;
        }
        assert(vis_rounds(c, a, bs@, ms, ws, left as nat, p@) == vp + vis_rounds(c, a, bs@, m@, walked@, (left - 1) as nat, p@));
        assert(lb + (vp + vis_rounds(c, a, bs@, m@, walked@, (left - 1) as nat, p@)) =~= log_model(log@) + vis_rounds(c,
            a, bs@, m@, walked@, (left - 1) as nat, p@));
        left = left - 1;
    }
}

#[verifier::rlimit(40)]
fn vis_dapp_exec(cx: &RowCx, ar: &Vec<(String, usize)>, e: &TExpr, rd: &Demand, run: bool, p: &Vec<usize>,
    log: &mut Vec<VisitRec>)
    requires
        cx.rows.wf(),
        e.kind is App,
    ensures
        log_model(final(log)@) == log_model(old(log)@) + vis_dapp(cx_model(*cx), arity_entries(ar@), *e, rd@, run, p@),
    decreases e, 4nat,
{
    let ghost c = cx_model(*cx);
    let ghost a = arity_entries(ar@);
    let ghost l0 = log_model(log@);
    let (h, n) = spine_info(e);
    let fname: Option<&String> = match &h.kind {
        TExprKind::Var(nm) => Some(nm),
        _ => None,
    };
    let is_seq = match fname {
        Some(nm) => str_eq(nm.as_str(), "seq"),
        None => false,
    };
    if is_seq {
        let mut sel: Vec<Option<(Demand, bool)>> = Vec::new();
        sel.push(Some((Demand::Head, false)));
        if n == 2 {
            sel.push(Some((rd.copy(), run)));
        } else {
            sel.push(None);
        }
        assert(sel_model(sel@) =~= seq_sel(n as nat, rd@, run));
        vis_spine_pos_exec(cx, ar, e, &sel, n, p, log);
        return;
    }
    let pure_name = match fname {
        Some(nm) => (str_eq(nm.as_str(), "return") || str_eq(nm.as_str(), "pure")) && n == 1,
        None => false,
    };
    if pure_name {
        let mut sel: Vec<Option<(Demand, bool)>> = Vec::new();
        if run && !matches!(rd, Demand::Head) {
            sel.push(Some((rd.copy(), false)));
        } else {
            sel.push(None);
        }
        assert(sel_model(sel@) =~= pure_sel(rd@, run));
        vis_spine_pos_exec(cx, ar, e, &sel, n, p, log);
        return;
    }
    match &h.kind {
        TExprKind::Con(cname) => {
            if str_eq(cname.as_str(), ":") && n == 2 {
                match rd {
                    Demand::Elems(de) => {
                        let mut sel: Vec<Option<(Demand, bool)>> = Vec::new();
                        sel.push(Some(((**de).copy(), false)));
                        sel.push(Some((rd.copy(), false)));
                        assert(sel_model(sel@) =~= seq![Some(((*de)@, false)), Some((rd@, false))]);
                        vis_spine_pos_exec(cx, ar, e, &sel, n, p, log);
                        return;
                    },
                    _ => {
                        assert(l0 + Seq::<Visit>::empty() =~= l0);
                        return;
                    },
                }
            }
            assert(l0 + Seq::<Visit>::empty() =~= l0);
            return;
        },
        _ => {},
    }
    let susp = crate::types::is_action_value_ty(&e.ty) && !run;
    match &e.kind {
        TExprKind::App(g, _) => vis_dhead_exec(cx, ar, g, &child(p, 0), log),
        _ => {},
    }
    let ghost v0 = log_model(log@).skip(l0.len() as int);
    assert(log_model(log@) =~= l0 + v0);
    head_visit_exec(cx, ar, e, fname, n, rd, run, susp, p, log);
    let ghost v1 = log_model(log@).skip((l0.len() + v0.len()) as int);
    assert(log_model(log@) =~= l0 + v0 + v1);
    assert(v1 == head_visit(c, a, *e, rd@, run, p@));
    match fname {
        Some(name) => {
            if !susp {
                match call_row_exec(cx, name.as_str(), n, rd, run) {
                    Some(row) => {
                        let sel = row_sel_exec(&row);
                        vis_spine_pos_exec(cx, ar, e, &sel, n, p, log);
                    },
                    None => {},
                }
            }
        },
        None => {},
    }
    let ghost v2 = log_model(log@).skip((l0.len() + v0.len() + v1.len()) as int);
    assert(log_model(log@) =~= l0 + v0 + v1 + v2);
    let skip = match fname {
        Some(name) => cx.inlined.contains(name.as_str()),
        None => false,
    };
    if !susp && !skip {
        vis_spine_eager_exec(cx, ar, e, p, log);
    }
    let ghost v3 = log_model(log@).skip((l0.len() + v0.len() + v1.len() + v2.len()) as int);
    assert(log_model(log@) =~= l0 + v0 + v1 + v2 + v3);
    assert(log_model(log@) =~= l0 + (v0 + v1 + v2 + v3));
}

fn head_visit_exec(cx: &RowCx, ar: &Vec<(String, usize)>, e: &TExpr, fname: Option<&String>, n: usize, rd: &Demand,
    run: bool, susp: bool, p: &Vec<usize>, log: &mut Vec<VisitRec>)
    requires
        n as nat == spine_len(*e),
        susp == (crate::types::action_value(e.ty) && !run),
        match fname {
            Some(nm) => head_name(*e) == Some(nm@),
            None => head_name(*e) is None,
        },
    ensures
        log_model(final(log)@) == log_model(old(log)@) + head_visit(cx_model(*cx), arity_entries(ar@), *e, rd@, run, p@),
{
    let ghost l0 = log_model(log@);
    match fname {
        Some(name) => {
            let known = match arity_get(ar, name.as_str()) {
                Some(_) => true,
                None => cx.locals.get(name.as_str()).is_some(),
            };
            if known {
                let full = match arity_get(ar, name.as_str()) {
                    Some(k) => k == n,
                    None => false,
                };
                let d = if susp { Demand::Head } else { rd.copy() };
                let hp = head_path_exec(e, child_copy(p));
                log_push(log, (hp, name.clone(), d, full));
            } else {
                assert(l0 + Seq::<Visit>::empty() =~= l0);
            }
        },
        None => {
            assert(l0 + Seq::<Visit>::empty() =~= l0);
        },
    }
}

fn child_copy(p: &Vec<usize>) -> (r: Vec<usize>)
    ensures
        r@ == p@,
{
    let mut r: Vec<usize> = Vec::new();
    let mut k: usize = 0;
    while k < p.len()
        invariant
            k <= p@.len(),
            r@ == p@.take(k as int),
        decreases p@.len() - k,
    {
        r.push(p[k]);
        assert(p@.take(k as int + 1) =~= p@.take(k as int).push(p@[k as int]));
        k = k + 1;
    }
    assert(p@.take(p@.len() as int) =~= p@);
    r
}

fn vis_dhead_exec(cx: &RowCx, ar: &Vec<(String, usize)>, x: &TExpr, p: &Vec<usize>, log: &mut Vec<VisitRec>)
    requires
        cx.rows.wf(),
    ensures
        log_model(final(log)@) == log_model(old(log)@) + vis_dhead(cx_model(*cx), arity_entries(ar@), *x, p@),
    decreases x, 6nat,
{
    match &x.kind {
        TExprKind::App(g, _) => vis_dhead_exec(cx, ar, g, &child(p, 0), log),
        TExprKind::Paren(i) => vis_dhead_exec(cx, ar, i, &child(p, 0), log),
        _ => vis_exec(cx, ar, x, &Demand::Head, false, p, log),
    }
}

fn vis_spine_pos_exec(cx: &RowCx, ar: &Vec<(String, usize)>, x: &TExpr, sel: &Vec<Option<(Demand, bool)>>, k: usize,
    p: &Vec<usize>, log: &mut Vec<VisitRec>) -> (n: usize)
    requires
        cx.rows.wf(),
        spine_len(*x) <= k,
    ensures
        log_model(final(log)@) == log_model(old(log)@) + vis_spine_pos(cx_model(*cx), arity_entries(ar@), *x,
            sel_model(sel@), p@),
        n as nat == spine_len(*x),
    decreases x, 3nat,
{
    let ghost c = cx_model(*cx);
    let ghost a = arity_entries(ar@);
    let ghost l0 = log_model(log@);
    match &x.kind {
        TExprKind::App(g, arg) => {
            let i = vis_spine_pos_exec(cx, ar, g, sel, k, &child(p, 0), log);
            let ghost l1 = log_model(log@);
            if i < sel.len() && sel[i].is_some() {
                match &sel[i] {
                    Some(pr) => {
                        assert(sel_model(sel@)[i as int] == Some((pr.0@, pr.1)));
                        vis_exec(cx, ar, arg, &pr.0, pr.1, &child(p, 1), log);
                    },
                    None => {},
                }
            } else {
                assert(l1 + Seq::<Visit>::empty() =~= l1);
            }
            assert(log_model(log@) =~= l0 + vis_spine_pos(c, a, *x, sel_model(sel@), p@));
            i + 1
        },
        TExprKind::Paren(inner) => vis_spine_pos_exec(cx, ar, inner, sel, k, &child(p, 0), log),
        _ => {
            assert(l0 + Seq::<Visit>::empty() =~= l0);
            0
        },
    }
}

fn vis_spine_eager_exec(cx: &RowCx, ar: &Vec<(String, usize)>, x: &TExpr, p: &Vec<usize>, log: &mut Vec<VisitRec>)
    requires
        cx.rows.wf(),
    ensures
        log_model(final(log)@) == log_model(old(log)@) + vis_spine_eager(cx_model(*cx), arity_entries(ar@), *x, p@),
    decreases x, 3nat,
{
    let ghost c = cx_model(*cx);
    let ghost a = arity_entries(ar@);
    let ghost l0 = log_model(log@);
    match &x.kind {
        TExprKind::App(g, arg) => {
            vis_spine_eager_exec(cx, ar, g, &child(p, 0), log);
            let ghost l1 = log_model(log@);
            if arg_eager_exec(arg) {
                vis_exec(cx, ar, arg, &Demand::Head, false, &child(p, 1), log);
            } else {
                assert(l1 + Seq::<Visit>::empty() =~= l1);
            }
            assert(log_model(log@) =~= l0 + vis_spine_eager(c, a, *x, p@));
        },
        TExprKind::Paren(inner) => vis_spine_eager_exec(cx, ar, inner, &child(p, 0), log),
        _ => {
            assert(l0 + Seq::<Visit>::empty() =~= l0);
        },
    }
}

} // verus!
