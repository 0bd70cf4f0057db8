//! The call sites the structured demand walker visits.
//!
//! Every time the walker reaches an application whose head is a known
//! function (a module function or a where-bound local one), it records a
//! visit of the head's node: the callee, the demand on the call's result
//! (plain WHNF when the call is a suspended action) and whether the call
//! passes the function all its parameters. Nodes are named by their path
//! from the clause part they sit in. Visits of one node join their demands.

use vstd::prelude::*;
use crate::tir::{TExpr, TExprKind, TGuard, TCaseBranch, TLocalDef, SpecKind};
use crate::types::{action_value, is_con};
use crate::demand::{DM, join};
use crate::structured::{RCx, dx, close_pass, callee_row, call_row, is_pure_var, proj_fields, spine_len, head_name,
    spine_head, seq_sel, pure_sel, row_sel, arg_eager, CLOSE_ROUNDS};
use crate::demanded::{is_otherwise, op_operands, Operands};

verus! {

/// A visit: the head node's path, the callee, the demand on the result,
/// whether the call is saturated.
pub type Visit = (Seq<usize>, Seq<char>, DM, bool);

/// What is known of a path: the callee, the joined demand, whether every
/// visit was saturated.
pub type SiteMap = Map<Seq<usize>, (Seq<char>, DM, bool)>;

pub open spec fn site_step(t: SiteMap, v: Visit) -> SiteMap {
    if t.contains_key(v.0) {
        t.insert(v.0, (t[v.0].0, join(t[v.0].1, v.2), t[v.0].2 && v.3))
    } else {
        t.insert(v.0, (v.1, v.2, v.3))
    }
}

pub open spec fn sites_add(t: SiteMap, vs: Seq<Visit>) -> SiteMap
    decreases vs.len(),
{
    if vs.len() == 0 {
        t
    } else {
        site_step(sites_add(t, vs.drop_last()), vs.last())
    }
}

pub proof fn lemma_sites_add_concat(t: SiteMap, a: Seq<Visit>, b: Seq<Visit>)
    ensures
        sites_add(sites_add(t, a), b) == sites_add(t, a + b),
    decreases b.len(),
{
    if b.len() == 0 {
        assert(a + b =~= a);
    } else {
        lemma_sites_add_concat(t, a, b.drop_last());
        assert((a + b).drop_last() =~= a + b.drop_last());
        assert((a + b).last() == b.last());
    }
}

/// The path of an application spine's head.
pub open spec fn head_path(e: TExpr, p: Seq<usize>) -> Seq<usize>
    decreases e,
{
    match e.kind {
        TExprKind::App(g, _) => head_path(*g, p.push(0)),
        TExprKind::Paren(i) => head_path(*i, p.push(0)),
        _ => p,
    }
}

/// The visits of walking `e` under `rd`, `e` at path `p`; `ar` gives the
/// module functions' arities.
pub open spec fn vis(cx: RCx, ar: Map<Seq<char>, nat>, e: TExpr, rd: DM, run: bool, p: Seq<usize>) -> Seq<Visit>
    decreases e, 5nat,
{
    match e.kind {
        TExprKind::Paren(x) => vis(cx, ar, *x, rd, run, p.push(0)),
        TExprKind::Negate(x) => vis(cx, ar, *x, DM::Head, false, p.push(0)),
        TExprKind::Tuple(elems) => match rd {
            DM::Fields(ds) => vis_tuple(cx, ar, elems@, ds, p),
            _ => Seq::empty(),
        },
        TExprKind::App(_, _) => vis_dapp(cx, ar, e, rd, run, p),
        TExprKind::InfixApp { op, lhs, rhs } => if op@ == "$"@ && is_pure_var(*lhs) {
            if run && rd != DM::Head { vis(cx, ar, *rhs, rd, false, p.push(1)) } else { Seq::empty() }
        } else if op@ == ":"@ {
            match rd {
                DM::Elems(de) => vis(cx, ar, *lhs, *de, false, p.push(0)) + vis(cx, ar, *rhs, rd, false, p.push(1)),
                _ => Seq::empty(),
            }
        } else if op@ == "seq"@ {
            vis(cx, ar, *lhs, DM::Head, false, p.push(0)) + vis(cx, ar, *rhs, rd, run, p.push(1))
        } else if op@ == ">>="@ {
            match rhs.kind {
                TExprKind::Lambda { params, body } => {
                    let rest = dx(cx, *body, rd, run);
                    let dp = if params@.len() == 1 && rest.contains_key(params@[0].0@) {
                        rest[params@[0].0@]
                    } else {
                        DM::Head
                    };
                    vis(cx, ar, *body, rd, run, p.push(1).push(0)) + vis(cx, ar, *lhs, dp, true, p.push(0))
                },
                _ => vis(cx, ar, *lhs, DM::Head, true, p.push(0)) + vis(cx, ar, *rhs, DM::Head, false, p.push(1)),
            }
        } else if op@ == ">>"@ {
            vis(cx, ar, *lhs, DM::Head, true, p.push(0)) + vis(cx, ar, *rhs, rd, run, p.push(1))
        } else {
            match op_operands(op@, is_con(lhs.ty, "String"@)) {
                Operands::Both => vis(cx, ar, *lhs, DM::Head, false, p.push(0)) + vis(cx, ar, *rhs, DM::Head, false, p.push(1)),
                Operands::Lhs => vis(cx, ar, *lhs, DM::Head, false, p.push(0)),
                _ => Seq::empty(),
            }
        },
        TExprKind::If { cond, then_branch, else_branch } => if is_otherwise(*cond) {
            vis(cx, ar, *then_branch, rd, run, p.push(1))
        } else {
            vis(cx, ar, *cond, DM::Head, false, p.push(0)) + vis(cx, ar, *then_branch, rd, run, p.push(1))
                + vis(cx, ar, *else_branch, rd, run, p.push(2))
        },
        TExprKind::Case { scrutinee, branches } => {
            let s = vis(cx, ar, *scrutinee, DM::Head, false, p.push(0));
            if branches@.len() == 0 {
                s
            } else {
                s + vis_branches(cx, ar, branches@, rd, run, p.push(1))
            }
        },
        TExprKind::Let { binds, body } => vis(cx, ar, *body, rd, run, p.push(1))
            + vis_close(cx, ar, binds@, dx(cx, *body, rd, run), p.push(0)),
        TExprKind::SpecCall { original, specialized, args } => match specialized {
            SpecKind::TupGet(idx) => if idx >= 1 && args@.len() == 1 {
                vis(cx, ar, args@[0], DM::Fields(proj_fields(idx as nat, rd)), false, p.push(0))
            } else {
                vis_row_call(cx, ar, original@, args@, p)
            },
            _ => vis_row_call(cx, ar, original@, args@, p),
        },
        TExprKind::DictCall { func_name, dict_args: _, value_args } => vis_row_call(cx, ar, func_name@, value_args@, p.push(1)),
        TExprKind::DictMethod { dict, method_name: _ } => vis(cx, ar, *dict, DM::Head, false, p.push(0)),
        TExprKind::RecordUpdate { record, updates } => vis(cx, ar, *record, DM::Head, false, p.push(0))
            + vis_updates(cx, ar, updates@, p.push(1)),
        TExprKind::OutgoingCallback { callee, arity: _ } => vis(cx, ar, *callee, DM::Head, false, p.push(0)),
        TExprKind::FfiMaybeArg { value } => vis(cx, ar, *value, DM::Head, false, p.push(0)),
        _ => Seq::empty(),
    }
}

pub open spec fn vis_row_call(cx: RCx, ar: Map<Seq<char>, nat>, name: Seq<char>, args: Seq<TExpr>, p: Seq<usize>) -> Seq<Visit>
    decreases args, 4nat,
{
    match callee_row(cx, name, DM::Head) {
        Some(row) => vis_apply_row(cx, ar, row, args, p),
        None => Seq::empty(),
    }
}

pub open spec fn vis_apply_row(cx: RCx, ar: Map<Seq<char>, nat>, row: Seq<Option<DM>>, args: Seq<TExpr>, p: Seq<usize>) -> Seq<Visit>
    decreases args, 3nat,
{
    if args.len() == 0 {
        Seq::empty()
    } else {
        let i = args.len() - 1;
        vis_apply_row(cx, ar, row, args.drop_last(), p) + if i < row.len() && row[i] is Some {
            vis(cx, ar, args.last(), row[i]->0, false, p.push(i as usize))
        } else {
            Seq::empty()
        }
    }
}

pub open spec fn vis_tuple(cx: RCx, ar: Map<Seq<char>, nat>, elems: Seq<TExpr>, ds: Seq<Option<DM>>, p: Seq<usize>) -> Seq<Visit>
    decreases elems, 3nat,
{
    if elems.len() == 0 {
        Seq::empty()
    } else {
        let i = elems.len() - 1;
        vis_tuple(cx, ar, elems.drop_last(), ds, p) + if i < ds.len() && ds[i] is Some {
            vis(cx, ar, elems.last(), ds[i]->0, false, p.push(i as usize))
        } else {
            Seq::empty()
        }
    }
}

pub open spec fn vis_updates(cx: RCx, ar: Map<Seq<char>, nat>, us: Seq<(String, usize, TExpr)>, p: Seq<usize>) -> Seq<Visit>
    decreases us, 3nat,
{
    if us.len() == 0 {
        Seq::empty()
    } else {
        vis_updates(cx, ar, us.drop_last(), p) + vis(cx, ar, us.last().2, DM::Head, false, p.push((us.len() - 1) as usize))
    }
}

/// A `case` alternative: its guards at `p.push(0)`, its body at `p.push(1)`.
pub open spec fn vis_branch(cx: RCx, ar: Map<Seq<char>, nat>, b: TCaseBranch, rd: DM, run: bool, p: Seq<usize>) -> Seq<Visit>
    decreases b, 3nat,
{
    if b.guards@.len() == 0 {
        vis(cx, ar, b.body, rd, run, p.push(1))
    } else {
        vis_guards(cx, ar, b.guards@, 0, rd, run, p.push(0))
    }
}

pub open spec fn vis_branches(cx: RCx, ar: Map<Seq<char>, nat>, bs: Seq<TCaseBranch>, rd: DM, run: bool, p: Seq<usize>) -> Seq<Visit>
    decreases bs, 3nat,
{
    if bs.len() == 0 {
        Seq::empty()
    } else {
        vis_branches(cx, ar, bs.drop_last(), rd, run, p) + vis_branch(cx, ar, bs.last(), rd, run, p.push((bs.len() - 1) as usize))
    }
}

/// A guard chain from guard `k` on; guard `j` has its condition at
/// `p.push(j).push(0)` and its body at `p.push(j).push(1)`.
pub open spec fn vis_guards(cx: RCx, ar: Map<Seq<char>, nat>, gs: Seq<TGuard>, k: nat, rd: DM, run: bool, p: Seq<usize>) -> Seq<Visit>
    decreases gs, 3nat, gs.len() - k,
{
    if k >= gs.len() {
        Seq::empty()
    } else if is_otherwise(gs[k as int].condition) {
        vis(cx, ar, gs[k as int].body, rd, run, p.push(k as usize).push(1))
    } else {
        vis(cx, ar, gs[k as int].condition, DM::Head, false, p.push(k as usize).push(0))
            + vis(cx, ar, gs[k as int].body, rd, run, p.push(k as usize).push(1))
            + vis_guards(cx, ar, gs, k + 1, rd, run, p)
    }
}

/// A `let` group closed over `m`: binding `i` at `p.push(i)`.
pub open spec fn vis_close(cx: RCx, ar: Map<Seq<char>, nat>, bs: Seq<TLocalDef>, m: Map<Seq<char>, DM>, p: Seq<usize>) -> Seq<Visit>
    decreases bs, CLOSE_ROUNDS as nat + 3, 0nat,
{
    vis_rounds(cx, ar, bs, m, Map::empty(), CLOSE_ROUNDS as nat, p)
}

pub open spec fn vis_rounds(cx: RCx, ar: Map<Seq<char>, nat>, bs: Seq<TLocalDef>, m: Map<Seq<char>, DM>, walked: Map<Seq<char>, DM>,
    n: nat, p: Seq<usize>) -> Seq<Visit>
    decreases bs, 2nat + n, 0nat,
{
    if n == 0 {
        Seq::empty()
    } else {
        let (m2, w2, changed) = close_pass(cx, bs, m, walked);
        vis_pass(cx, ar, bs, m, walked, p) + if changed { vis_rounds(cx, ar, bs, m2, w2, (n - 1) as nat, p) } else { Seq::empty() }
    }
}

pub open spec fn vis_pass(cx: RCx, ar: Map<Seq<char>, nat>, bs: Seq<TLocalDef>, m: Map<Seq<char>, DM>, walked: Map<Seq<char>, DM>,
    p: Seq<usize>) -> Seq<Visit>
    decreases bs, 1nat, 0nat,
{
    if bs.len() == 0 {
        Seq::empty()
    } else {
        let (m1, w1, _) = close_pass(cx, bs.drop_last(), m, walked);
        let b = bs.last();
        vis_pass(cx, ar, bs.drop_last(), m, walked, p) + if b.patterns@.len() == 0 && m1.contains_key(b.name@) {
            let d = m1[b.name@];
            if !w1.contains_key(b.name@) || !crate::demand::subsumes(w1[b.name@], d) {
                vis(cx, ar, b.body, d, false, p.push((bs.len() - 1) as usize))
            } else {
                Seq::empty()
            }
        } else {
            Seq::empty()
        }
    }
}

/// The recorded visit of an application's head, if the head is a known
/// function.
pub open spec fn head_visit(cx: RCx, ar: Map<Seq<char>, nat>, e: TExpr, rd: DM, run: bool, p: Seq<usize>) -> Seq<Visit> {
    match head_name(e) {
        Some(name) => if ar.contains_key(name) || cx.1.contains_key(name) {
            let susp = action_value(e.ty) && !run;
            seq![(head_path(e, p), name, if susp { DM::Head } else { rd }, ar.contains_key(name) && ar[name] == spine_len(e))]
        } else {
            Seq::empty()
        },
        None => Seq::empty(),
    }
}

pub open spec fn vis_dapp(cx: RCx, ar: Map<Seq<char>, nat>, e: TExpr, rd: DM, run: bool, p: Seq<usize>) -> Seq<Visit>
    decreases e, 4nat,
{
    let n = spine_len(e);
    let fname = head_name(e);
    if fname == Some("seq"@) {
        vis_spine_pos(cx, ar, e, seq_sel(n, rd, run), p)
    } else if (fname == Some("return"@) || fname == Some("pure"@)) && n == 1 {
        vis_spine_pos(cx, ar, e, pure_sel(rd, run), p)
    } else if spine_head(e).kind is Con {
        match spine_head(e).kind {
            TExprKind::Con(c) => if c@ == ":"@ && n == 2 {
                match rd {
                    DM::Elems(de) => vis_spine_pos(cx, ar, e, seq![Some((*de, false)), Some((rd, false))], p),
                    _ => Seq::empty(),
                }
            } else {
                Seq::empty()
            },
            _ => Seq::empty(),
        }
    } else {
        let susp = action_value(e.ty) && !run;
        let v0 = match e.kind {
            TExprKind::App(g, _) => vis_dhead(cx, ar, *g, p.push(0)),
            _ => Seq::empty(),
        };
        let v1 = match fname {
            Some(name) => if !susp {
                match call_row(cx, name, n, rd, run) {
                    Some(row) => vis_spine_pos(cx, ar, e, row_sel(row), p),
                    None => Seq::empty(),
                }
            } else {
                Seq::empty()
            },
            None => Seq::empty(),
        };
        let v2 = if !susp && !(fname is Some && cx.2.contains(fname->0)) { vis_spine_eager(cx, ar, e, p) } else { Seq::empty() };
        v0 + head_visit(cx, ar, e, rd, run, p) + v1 + v2
    }
}

pub open spec fn vis_dhead(cx: RCx, ar: Map<Seq<char>, nat>, x: TExpr, p: Seq<usize>) -> Seq<Visit>
    decreases x, 6nat,
{
    match x.kind {
        TExprKind::App(g, _) => vis_dhead(cx, ar, *g, p.push(0)),
        TExprKind::Paren(i) => vis_dhead(cx, ar, *i, p.push(0)),
        _ => vis(cx, ar, x, DM::Head, false, p),
    }
}

pub open spec fn vis_spine_pos(cx: RCx, ar: Map<Seq<char>, nat>, x: TExpr, sel: Seq<Option<(DM, bool)>>, p: Seq<usize>) -> Seq<Visit>
    decreases x, 3nat,
{
    match x.kind {
        TExprKind::App(g, a) => {
            let i = spine_len(*g);
            vis_spine_pos(cx, ar, *g, sel, p.push(0)) + if i < sel.len() && sel[i as int] is Some {
                vis(cx, ar, *a, (sel[i as int]->0).0, (sel[i as int]->0).1, p.push(1))
            } else {
                Seq::empty()
            }
        },
        TExprKind::Paren(i) => vis_spine_pos(cx, ar, *i, sel, p.push(0)),
        _ => Seq::empty(),
    }
}

pub open spec fn vis_spine_eager(cx: RCx, ar: Map<Seq<char>, nat>, x: TExpr, p: Seq<usize>) -> Seq<Visit>
    decreases x, 3nat,
{
    match x.kind {
        TExprKind::App(g, a) => vis_spine_eager(cx, ar, *g, p.push(0)) + if arg_eager(*a) {
            vis(cx, ar, *a, DM::Head, false, p.push(1))
        } else {
            Seq::empty()
        },
        TExprKind::Paren(i) => vis_spine_eager(cx, ar, *i, p.push(0)),
        _ => Seq::empty(),
    }
}

} // verus!
