//! The structured demand walker: the demand the emitted code places on
//! each free variable when an expression is evaluated under a demand on
//! its value (`Head`, per-field `Fields`, per-element `Elems`).
//!
//! A variable absent from the result stays lazy. The rules mirror what the
//! code generator emits: lazy argument positions, suspended (not run)
//! actions and branch-dependent uses all degrade to no demand, a demand is
//! never claimed speculatively, and demands of alternatives meet while
//! demands on one run join.
//!
//! A `let` group's value bindings are closed over the demand map: a
//! demanded binding's right-hand side adds its own demands, and is walked
//! again whenever the demand on it deepens. Demands only deepen, and for
//! a well-typed program no deeper than its types nest, so the closure
//! settles; it is cut off after `CLOSE_ROUNDS` rounds, a bound no program
//! reaches.

use vstd::prelude::*;
use crate::tir::{TExpr, TExprKind, TPattern, TGuard, TCaseBranch, TLocalDef, SpecKind};
use crate::types::{Ty, action_value, is_con};
use crate::demand::{DM, Demand, DemandMap, Rows, RM, LRM, LocalEnv, NameSet, subsumes, meet, map_join_spec, map_meet_spec,
    st_run_row, row_model, opt_model, copy_row, map_join, map_meet, st_intrinsic_run_row};
use crate::text::str_eq;
use crate::demanded::{is_otherwise, op_operands, Operands, pat_vars, bind_names};

verus! {

broadcast use vstd::string::group_string_axioms;

/// The rounds after which a `let` group's closure stops.
pub const CLOSE_ROUNDS: u64 = 0xffff_ffff_ffff_ffff;

/// What the walker looks up: the module's rows, the rows of the local
/// functions in scope, and the names of the callees that are inlined.
pub type RCx = (RM, Map<Seq<char>, LRM>, Set<Seq<char>>);

/// The parameter row for a call of `name` whose result receives `rd`: a
/// local function's rows first, then the module's deep row when `rd`
/// subsumes the deep result demand, else its run row.
pub open spec fn callee_row(cx: RCx, name: Seq<char>, rd: DM) -> Option<Seq<Option<DM>>> {
    if cx.1.contains_key(name) {
        let l = cx.1[name];
        if l.1 is Some && subsumes(rd, l.2) { l.1 } else { Some(l.0) }
    } else if cx.0.1.contains_key(name) && cx.0.2.contains_key(name) && subsumes(rd, cx.0.2[name]) {
        Some(cx.0.1[name])
    } else if cx.0.0.contains_key(name) {
        Some(cx.0.0[name])
    } else {
        None
    }
}

/// The row applied at a call in run position: an ST array intrinsic's
/// own row first.
pub open spec fn call_row(cx: RCx, name: Seq<char>, n: nat, rd: DM, run: bool) -> Option<Seq<Option<DM>>> {
    if run && st_run_row(name, n) is Some { st_run_row(name, n) } else { callee_row(cx, name, rd) }
}

// ---------------------------------------------------------------------
// Shapes
// ---------------------------------------------------------------------

/// Operators whose application on eager operands is evaluated in place.
pub open spec fn eager_op(op: Seq<char>) -> bool {
    op == "+"@ || op == "-"@ || op == "*"@ || op == "/"@ || op == "^"@ || op == "=="@ || op == "/="@
        || op == "~="@ || op == "<"@ || op == ">"@ || op == "<="@ || op == ">="@ || op == "++"@
        || op == "<>"@ || op == "&&"@ || op == "||"@ || op == ".."@ || op == "$"@ || op == "."@
}

/// A curried application of a constructor.
pub open spec fn con_app(e: TExpr) -> bool
    decreases e,
{
    match e.kind {
        TExprKind::App(f, _) => con_app(*f),
        TExprKind::Con(_) => true,
        _ => false,
    }
}

/// An argument the emitter evaluates in place at every call site: a
/// total expression built from literals, constructors, lambdas and
/// non-trapping operators.
pub open spec fn arg_eager(e: TExpr) -> bool
    decreases e,
{
    match e.kind {
        TExprKind::Lit(_) => true,
        TExprKind::Con(_) => true,
        TExprKind::Lambda { .. } => true,
        TExprKind::OpFunc(_) => true,
        TExprKind::Paren(x) => arg_eager(*x),
        TExprKind::Negate(x) => arg_eager(*x),
        TExprKind::Tuple(elems) => all_eager(elems@),
        TExprKind::InfixApp { op, lhs, rhs } => eager_op(op@) && arg_eager(*lhs) && arg_eager(*rhs),
        TExprKind::App(f, a) => con_app(*f) && arg_eager(*a) && arg_eager(*f),
        TExprKind::If { cond, then_branch, else_branch } => arg_eager(*cond) && arg_eager(*then_branch)
            && arg_eager(*else_branch),
        _ => false,
    }
}

pub open spec fn all_eager(es: Seq<TExpr>) -> bool
    decreases es,
{
    es.len() == 0 || (all_eager(es.drop_last()) && arg_eager(es.last()))
}

/// The arguments of an application spine, looking through parens.
pub open spec fn spine_len(x: TExpr) -> nat
    decreases x,
{
    match x.kind {
        TExprKind::App(g, _) => spine_len(*g) + 1,
        TExprKind::Paren(i) => spine_len(*i),
        _ => 0,
    }
}

/// The head of an application spine, looking through parens.
pub open spec fn spine_head(x: TExpr) -> TExpr
    decreases x,
{
    match x.kind {
        TExprKind::App(g, _) => spine_head(*g),
        TExprKind::Paren(i) => spine_head(*i),
        _ => x,
    }
}

pub open spec fn head_name(x: TExpr) -> Option<Seq<char>> {
    match spine_head(x).kind {
        TExprKind::Var(n) => Some(n@),
        _ => None,
    }
}

/// `return` or `pure`.
pub open spec fn is_pure_var(e: TExpr) -> bool {
    match e.kind {
        TExprKind::Var(n) => n@ == "pure"@ || n@ == "return"@,
        _ => false,
    }
}

/// The variable a `case` scrutinizes, under any parens.
pub open spec fn scrut_var(e: TExpr) -> Option<Seq<char>>
    decreases e,
{
    match e.kind {
        TExprKind::Paren(i) => scrut_var(*i),
        TExprKind::Var(v) => Some(v@),
        _ => None,
    }
}

/// The names a lambda binds.
pub open spec fn param_names(ps: Seq<(String, Ty)>) -> Set<Seq<char>> {
    Set::new(|n: Seq<char>| exists|i: int| 0 <= i < ps.len() && #[trigger] ps[i].0@ == n)
}

/// The field list of a tuple projection `idx` carrying `rd`.
pub open spec fn proj_fields(idx: nat, rd: DM) -> Seq<Option<DM>> {
    Seq::new(idx, |j: int| if j == idx - 1 { Some(rd) } else { None })
}

/// The demand a pattern match places on the matched value, given the
/// demands the branch places on the pattern's variables.
pub open spec fn pattern_demand(p: TPattern, m: Map<Seq<char>, DM>) -> Option<DM>
    decreases p,
{
    match p {
        TPattern::Var(n, _) => if m.contains_key(n@) { Some(m[n@]) } else { None },
        TPattern::Wildcard => None,
        TPattern::LitPat(_) => Some(DM::Head),
        TPattern::Paren(i) => pattern_demand(*i, m),
        TPattern::Tuple(ps) => Some(DM::Fields(pattern_demands(ps@, m))),
        TPattern::Constructor { name, args } => if name@ == "[]"@ && args@.len() == 0 {
            Some(DM::Elems(Box::new(DM::Head)))
        } else if name@ == ":"@ && args@.len() == 2 {
            match pattern_demand(args@[0], m) {
                Some(h) => match pattern_demand(args@[1], m) {
                    Some(DM::Elems(de)) => Some(DM::Elems(Box::new(meet(h, *de)))),
                    _ => Some(DM::Head),
                },
                None => Some(DM::Head),
            }
        } else {
            Some(DM::Head)
        },
    }
}

pub open spec fn pattern_demands(ps: Seq<TPattern>, m: Map<Seq<char>, DM>) -> Seq<Option<DM>>
    decreases ps,
{
    if ps.len() == 0 { Seq::empty() } else { pattern_demands(ps.drop_last(), m).push(pattern_demand(ps.last(), m)) }
}

// ---------------------------------------------------------------------
// The walker
// ---------------------------------------------------------------------

/// The demands on free variables when `e` is evaluated with demand `rd`
/// on its value; `run` marks action-run position.
pub open spec fn dx(cx: RCx, e: TExpr, rd: DM, run: bool) -> Map<Seq<char>, DM>
    decreases e, 5nat,
{
    match e.kind {
        TExprKind::Var(x) => map![x@ => rd],
        TExprKind::Paren(x) => dx(cx, *x, rd, run),
        TExprKind::Negate(x) => dx(cx, *x, DM::Head, false),
        TExprKind::Tuple(elems) => match rd {
            DM::Fields(ds) => tuple_dem(cx, elems@, ds),
            _ => Map::empty(),
        },
        TExprKind::App(_, _) => dapp(cx, e, rd, run),
        TExprKind::InfixApp { op, lhs, rhs } => if op@ == "$"@ && is_pure_var(*lhs) {
            if run && rd != DM::Head { dx(cx, *rhs, rd, false) } else { Map::empty() }
        } else if op@ == ":"@ {
            match rd {
                DM::Elems(de) => map_join_spec(dx(cx, *lhs, *de, false), dx(cx, *rhs, rd, false)),
                _ => Map::empty(),
            }
        } else if op@ == "seq"@ {
            map_join_spec(dx(cx, *lhs, DM::Head, false), dx(cx, *rhs, rd, run))
        } else if op@ == ">>="@ {
            match rhs.kind {
                TExprKind::Lambda { params, body } => {
                    let rest = dx(cx, *body, rd, run);
                    let dp = if params@.len() == 1 && rest.contains_key(params@[0].0@) {
                        rest[params@[0].0@]
                    } else {
                        DM::Head
                    };
                    map_join_spec(dx(cx, *lhs, dp, true), rest.remove_keys(param_names(params@)))
                },
                _ => map_join_spec(dx(cx, *lhs, DM::Head, true), dx(cx, *rhs, DM::Head, false)),
            }
        } else if op@ == ">>"@ {
            map_join_spec(dx(cx, *lhs, DM::Head, true), dx(cx, *rhs, rd, run))
        } else {
            match op_operands(op@, is_con(lhs.ty, "String"@)) {
                Operands::Both => map_join_spec(dx(cx, *lhs, DM::Head, false), dx(cx, *rhs, DM::Head, false)),
                Operands::Lhs => dx(cx, *lhs, DM::Head, false),
                _ => Map::empty(),
            }
        },
        TExprKind::If { cond, then_branch, else_branch } => if is_otherwise(*cond) {
            dx(cx, *then_branch, rd, run)
        } else {
            map_join_spec(
                dx(cx, *cond, DM::Head, false),
                map_meet_spec(dx(cx, *then_branch, rd, run), dx(cx, *else_branch, rd, run)),
            )
        },
        TExprKind::Case { scrutinee, branches } => {
            let m = dx(cx, *scrutinee, DM::Head, false);
            if branches@.len() == 0 {
                m
            } else {
                map_join_spec(m, branches_meet(cx, branches@, scrut_var(*scrutinee), rd, run))
            }
        },
        TExprKind::Let { binds, body } => close_group(cx, binds@, dx(cx, *body, rd, run)),
        TExprKind::SpecCall { original, specialized, args } => match specialized {
            SpecKind::TupGet(idx) => if idx >= 1 && args@.len() == 1 {
                map_join_spec(Map::empty(), dx(cx, args@[0], DM::Fields(proj_fields(idx as nat, rd)), false))
            } else {
                row_call(cx, original@, args@)
            },
            _ => row_call(cx, original@, args@),
        },
        TExprKind::DictCall { func_name, dict_args: _, value_args } => row_call(cx, func_name@, value_args@),
        TExprKind::DictMethod { dict, method_name: _ } => dx(cx, *dict, DM::Head, false),
        TExprKind::RecordUpdate { record, updates } => updates_dem(cx, dx(cx, *record, DM::Head, false), updates@),
        TExprKind::OutgoingCallback { callee, arity: _ } => dx(cx, *callee, DM::Head, false),
        TExprKind::FfiMaybeArg { value } => dx(cx, *value, DM::Head, false),
        _ => Map::empty(),
    }
}

/// A call of `name` on `args` under the callee's WHNF row.
pub open spec fn row_call(cx: RCx, name: Seq<char>, args: Seq<TExpr>) -> Map<Seq<char>, DM>
    decreases args, 4nat,
{
    match callee_row(cx, name, DM::Head) {
        Some(row) => apply_row(cx, Map::empty(), row, args),
        None => Map::empty(),
    }
}

/// Each argument in a demanded position of `row` adds its demands.
pub open spec fn apply_row(cx: RCx, m: Map<Seq<char>, DM>, row: Seq<Option<DM>>, args: Seq<TExpr>) -> Map<Seq<char>, DM>
    decreases args, 3nat,
{
    if args.len() == 0 {
        m
    } else {
        let m1 = apply_row(cx, m, row, args.drop_last());
        let i = args.len() - 1;
        if i < row.len() && row[i] is Some {
            map_join_spec(m1, dx(cx, args.last(), row[i]->0, false))
        } else {
            m1
        }
    }
}

/// Tuple elements under per-field demands.
pub open spec fn tuple_dem(cx: RCx, elems: Seq<TExpr>, ds: Seq<Option<DM>>) -> Map<Seq<char>, DM>
    decreases elems, 3nat,
{
    if elems.len() == 0 {
        Map::empty()
    } else {
        let m = tuple_dem(cx, elems.drop_last(), ds);
        let i = elems.len() - 1;
        if i < ds.len() && ds[i] is Some {
            map_join_spec(m, dx(cx, elems.last(), ds[i]->0, false))
        } else {
            m
        }
    }
}

/// Record-update values, forced to WHNF.
pub open spec fn updates_dem(cx: RCx, m: Map<Seq<char>, DM>, us: Seq<(String, usize, TExpr)>) -> Map<Seq<char>, DM>
    decreases us, 3nat,
{
    if us.len() == 0 {
        m
    } else {
        map_join_spec(updates_dem(cx, m, us.drop_last()), dx(cx, us.last().2, DM::Head, false))
    }
}

/// One `case` alternative: its body's (or guards') demands, the pattern's
/// variables dropped and the scrutinized variable given the pattern's
/// demand.
pub open spec fn branch_map(cx: RCx, b: TCaseBranch, sv: Option<Seq<char>>, rd: DM, run: bool) -> Map<Seq<char>, DM>
    decreases b, 3nat,
{
    let bm = if b.guards@.len() == 0 { dx(cx, b.body, rd, run) } else { guards_dem(cx, b.guards@, rd, run) };
    let kept = bm.remove_keys(pat_vars(b.pattern));
    match sv {
        Some(v) => match pattern_demand(b.pattern, bm) {
            Some(d) => map_join_spec(kept, map![v => d]),
            None => kept,
        },
        None => kept,
    }
}

/// What every alternative demands.
pub open spec fn branches_meet(cx: RCx, bs: Seq<TCaseBranch>, sv: Option<Seq<char>>, rd: DM, run: bool) -> Map<Seq<char>, DM>
    decreases bs, 3nat,
{
    if bs.len() <= 1 {
        if bs.len() == 1 { branch_map(cx, bs[0], sv, rd, run) } else { Map::empty() }
    } else {
        map_meet_spec(branches_meet(cx, bs.drop_last(), sv, rd, run), branch_map(cx, bs.last(), sv, rd, run))
    }
}

/// The guard-chain rule: `demand(c1) ⊔ (demand(b1) ⊓ demand(rest))`, the
/// demand past the last guard empty, an `otherwise` body unconditional.
pub open spec fn guards_dem(cx: RCx, gs: Seq<TGuard>, rd: DM, run: bool) -> Map<Seq<char>, DM>
    decreases gs, 3nat,
{
    if gs.len() == 0 {
        Map::empty()
    } else if is_otherwise(gs[0].condition) {
        dx(cx, gs[0].body, rd, run)
    } else {
        map_join_spec(
            dx(cx, gs[0].condition, DM::Head, false),
            map_meet_spec(dx(cx, gs[0].body, rd, run), guards_dem(cx, gs.drop_first(), rd, run)),
        )
    }
}

/// A `let` group closed over `m`, its names then dropped.
pub open spec fn close_group(cx: RCx, bs: Seq<TLocalDef>, m: Map<Seq<char>, DM>) -> Map<Seq<char>, DM>
    decreases bs, CLOSE_ROUNDS as nat + 3,
{
    close_rounds(cx, bs, m, Map::empty(), CLOSE_ROUNDS as nat).remove_keys(bind_names(bs))
}

/// Rounds of the closure until one changes nothing (at most `n`);
/// `walked` holds the demand each binding was last walked under.
pub open spec fn close_rounds(cx: RCx, bs: Seq<TLocalDef>, m: Map<Seq<char>, DM>, walked: Map<Seq<char>, DM>, n: nat) -> Map<Seq<char>, DM>
    decreases bs, 2nat + n,
{
    if n == 0 {
        m
    } else {
        let (m2, w2, changed) = close_pass(cx, bs, m, walked);
        if changed { close_rounds(cx, bs, m2, w2, (n - 1) as nat) } else { m2 }
    }
}

/// One round over the group's value bindings, in order: a demanded one
/// whose demand deepened since it was last walked adds its right-hand
/// side's demands under that demand.
pub open spec fn close_pass(cx: RCx, bs: Seq<TLocalDef>, m: Map<Seq<char>, DM>, walked: Map<Seq<char>, DM>) -> (Map<Seq<char>, DM>, Map<Seq<char>, DM>, bool)
    decreases bs, 1nat,
{
    if bs.len() == 0 {
        (m, walked, false)
    } else {
        let (m1, w1, c1) = close_pass(cx, bs.drop_last(), m, walked);
        let b = bs.last();
        if b.patterns@.len() == 0 && m1.contains_key(b.name@) {
            let d = m1[b.name@];
            if !w1.contains_key(b.name@) || !subsumes(w1[b.name@], d) {
                (map_join_spec(m1, dx(cx, b.body, d, false)), w1.insert(b.name@, d), true)
            } else {
                (m1, w1, c1)
            }
        } else {
            (m1, w1, c1)
        }
    }
}

/// A curried application.
pub open spec fn dapp(cx: RCx, e: TExpr, rd: DM, run: bool) -> Map<Seq<char>, DM>
    decreases e, 4nat,
{
    let n = spine_len(e);
    let fname = head_name(e);
    if fname == Some("seq"@) {
        map_join_spec(spine_pos(cx, e, Map::empty(), seq_sel(n, rd, run)), map!["seq"@ => DM::Head])
    } else if (fname == Some("return"@) || fname == Some("pure"@)) && n == 1 {
        map_join_spec(spine_pos(cx, e, Map::empty(), pure_sel(rd, run)), map![fname->0 => DM::Head])
    } else if spine_head(e).kind is Con {
        match spine_head(e).kind {
            TExprKind::Con(c) => if c@ == ":"@ && n == 2 {
                match rd {
                    DM::Elems(de) => spine_pos(cx, e, Map::empty(), seq![Some((*de, false)), Some((rd, false))]),
                    _ => Map::empty(),
                }
            } else {
                Map::empty()
            },
            _ => Map::empty(),
        }
    } else {
        let susp = action_value(e.ty) && !run;
        let m0 = match e.kind {
            TExprKind::App(g, _) => dhead(cx, *g),
            _ => Map::empty(),
        };
        let m1 = match fname {
            Some(name) => if !susp {
                match call_row(cx, name, n, rd, run) {
                    Some(row) => spine_pos(cx, e, m0, row_sel(row)),
                    None => m0,
                }
            } else {
                m0
            },
            None => m0,
        };
        if !susp && !(fname is Some && cx.2.contains(fname->0)) { spine_eager(cx, e, m1) } else { m1 }
    }
}

/// `seq a b`: `a` to WHNF, `b` (the result) under the whole demand.
pub open spec fn seq_sel(n: nat, rd: DM, run: bool) -> Seq<Option<(DM, bool)>> {
    seq![Some((DM::Head, false)), if n == 2 { Some((rd, run)) } else { None }]
}

/// `return e` / `pure e`: `e` only under a deeper demand in run position.
pub open spec fn pure_sel(rd: DM, run: bool) -> Seq<Option<(DM, bool)>> {
    seq![if run && rd != DM::Head { Some((rd, false)) } else { None }]
}

/// A callee row as argument selections.
pub open spec fn row_sel(row: Seq<Option<DM>>) -> Seq<Option<(DM, bool)>> {
    Seq::new(row.len(), |i: int| match row[i] {
        Some(d) => Some((d, false)),
        None => None,
    })
}

/// The head of an application spine, forced to WHNF.
pub open spec fn dhead(cx: RCx, x: TExpr) -> Map<Seq<char>, DM>
    decreases x, 6nat,
{
    match x.kind {
        TExprKind::App(g, _) => dhead(cx, *g),
        TExprKind::Paren(i) => dhead(cx, *i),
        _ => map_join_spec(Map::empty(), dx(cx, x, DM::Head, false)),
    }
}

/// The spine's arguments, in order, each under its selected demand.
pub open spec fn spine_pos(cx: RCx, x: TExpr, m: Map<Seq<char>, DM>, sel: Seq<Option<(DM, bool)>>) -> Map<Seq<char>, DM>
    decreases x, 3nat,
{
    match x.kind {
        TExprKind::App(g, a) => {
            let m1 = spine_pos(cx, *g, m, sel);
            let i = spine_len(*g);
            if i < sel.len() && sel[i as int] is Some {
                map_join_spec(m1, dx(cx, *a, (sel[i as int]->0).0, (sel[i as int]->0).1))
            } else {
                m1
            }
        },
        TExprKind::Paren(i) => spine_pos(cx, *i, m, sel),
        _ => m,
    }
}

/// The spine's eagerly evaluated arguments, each to WHNF.
pub open spec fn spine_eager(cx: RCx, x: TExpr, m: Map<Seq<char>, DM>) -> Map<Seq<char>, DM>
    decreases x, 3nat,
{
    match x.kind {
        TExprKind::App(g, a) => {
            let m1 = spine_eager(cx, *g, m);
            if arg_eager(*a) { map_join_spec(m1, dx(cx, *a, DM::Head, false)) } else { m1 }
        },
        TExprKind::Paren(i) => spine_eager(cx, *i, m),
        _ => m,
    }
}

// ---------------------------------------------------------------------
// Computed: lookups and shapes
// ---------------------------------------------------------------------

/// What the walker looks up, as exec references.
pub struct RowCx<'a> {
    pub rows: &'a Rows,
    pub locals: &'a LocalEnv,
    pub inlined: &'a NameSet,
}

pub open spec fn cx_model(cx: RowCx) -> RCx {
    (cx.rows.model(), cx.locals.models(), cx.inlined@)
}

pub open spec fn opt_row(o: Option<Vec<Option<Demand>>>) -> Option<Seq<Option<DM>>> {
    match o {
        Some(v) => Some(row_model(v@)),
        None => None,
    }
}

pub(crate) fn callee_row_exec(cx: &RowCx, name: &str, rd: &Demand) -> (r: Option<Vec<Option<Demand>>>)
    requires
        cx.rows.wf(),
    ensures
        opt_row(r) == callee_row(cx_model(*cx), name@, rd@),
{
    match cx.locals.get(name) {
        Some(l) => {
            return Some(l.row_for(rd));
        },
        None => {},
    }
    match cx.rows.deep_row(name) {
        Some(deep) => match cx.rows.result_deep_of(name) {
            Some(rdeep) => {
                if rd.subsumes(rdeep) {
                    return Some(copy_row(deep));
                }
            },
            None => {},
        },
        None => {},
    }
    match cx.rows.run_row(name) {
        Some(run) => Some(copy_row(run)),
        None => None,
    }
}

pub(crate) fn call_row_exec(cx: &RowCx, name: &str, n: usize, rd: &Demand, run: bool) -> (r: Option<Vec<Option<Demand>>>)
    requires
        cx.rows.wf(),
    ensures
        opt_row(r) == call_row(cx_model(*cx), name@, n as nat, rd@, run),
{
    if run {
        match st_intrinsic_run_row(name, n) {
            Some(r) => {
                return Some(r);
            },
            None => {},
        }
    }
    callee_row_exec(cx, name, rd)
}

fn eager_op_exec(op: &str) -> (r: bool)
    ensures
        r == eager_op(op@),
{
    str_eq(op, "+") || str_eq(op, "-") || str_eq(op, "*") || str_eq(op, "/") || str_eq(op, "^") || str_eq(op, "==")
        || str_eq(op, "/=") || str_eq(op, "~=") || str_eq(op, "<") || str_eq(op, ">") || str_eq(op, "<=")
        || str_eq(op, ">=") || str_eq(op, "++") || str_eq(op, "<>") || str_eq(op, "&&") || str_eq(op, "||")
        || str_eq(op, "..") || str_eq(op, "$") || str_eq(op, ".")
}

fn con_app_exec(e: &TExpr) -> (r: bool)
    ensures
        r == con_app(*e),
    decreases e,
{
    match &e.kind {
        TExprKind::App(f, _) => con_app_exec(f),
        TExprKind::Con(_) => true,
        _ => false,
    }
}

pub(crate) fn arg_eager_exec(e: &TExpr) -> (r: bool)
    ensures
        r == arg_eager(*e),
    decreases e,
{
    match &e.kind {
        TExprKind::Lit(_) | TExprKind::Con(_) | TExprKind::Lambda { .. } | TExprKind::OpFunc(_) => true,
        TExprKind::Paren(x) => arg_eager_exec(x),
        TExprKind::Negate(x) => arg_eager_exec(x),
        TExprKind::Tuple(elems) => all_eager_exec(elems),
        TExprKind::InfixApp { op, lhs, rhs } => eager_op_exec(op.as_str()) && arg_eager_exec(lhs) && arg_eager_exec(rhs),
        TExprKind::App(f, a) => con_app_exec(f) && arg_eager_exec(a) && arg_eager_exec(f),
        TExprKind::If { cond, then_branch, else_branch } => arg_eager_exec(cond) && arg_eager_exec(then_branch)
            && arg_eager_exec(else_branch),
        _ => false,
    }
}

fn all_eager_exec(elems: &Vec<TExpr>) -> (r: bool)
    ensures
        r == all_eager(elems@),
    decreases elems,
{
    let mut i: usize = 0;
    while i < elems.len()
        invariant
            i <= elems@.len(),
            all_eager(elems@.take(i as int)),
        decreases elems@.len() - i,
    {
        assert(decreases_to!(elems => elems@[i as int]));
        assert(elems@.take(i as int + 1).drop_last() =~= elems@.take(i as int));
        if !arg_eager_exec(&elems[i]) {
            proof {
                if all_eager(elems@) {
                    lemma_all_eager_prefix(elems@, i as int + 1);
                }
            }
            return false;
        }
        i = i + 1;
    }
    assert(elems@.take(elems@.len() as int) =~= elems@);
    true
}

proof fn lemma_all_eager_prefix(es: Seq<TExpr>, n: int)
    requires
        0 <= n <= es.len(),
        all_eager(es),
    ensures
        all_eager(es.take(n)),
    decreases es.len(),
{
    if n < es.len() {
        lemma_all_eager_prefix(es.drop_last(), n);
        assert(es.drop_last().take(n) =~= es.take(n));
    } else {
        assert(es.take(n) =~= es);
    }
}

/// The head of an application spine and its number of arguments.
pub(crate) fn spine_info(x: &TExpr) -> (r: (&TExpr, usize))
    ensures
        *r.0 == spine_head(*x),
        r.1 as nat == spine_len(*x),
    decreases x,
{
    let mut args: Vec<&TExpr> = Vec::new();
    let h = collect_spine(x, &mut args);
    (h, args.len())
}

fn collect_spine<'a>(x: &'a TExpr, args: &mut Vec<&'a TExpr>) -> (r: &'a TExpr)
    ensures
        *r == spine_head(*x),
        final(args)@.len() == old(args)@.len() + spine_len(*x),
    decreases x,
{
    match &x.kind {
        TExprKind::App(g, a) => {
            let h = collect_spine(g, args);
            args.push(a);
            h
        },
        TExprKind::Paren(i) => collect_spine(i, args),
        _ => x,
    }
}

fn scrut_var_exec(e: &TExpr) -> (r: Option<&String>)
    ensures
        match r {
            Some(v) => scrut_var(*e) == Some(v@),
            None => scrut_var(*e) is None,
        },
    decreases e,
{
    match &e.kind {
        TExprKind::Paren(i) => scrut_var_exec(i),
        TExprKind::Var(v) => Some(v),
        _ => None,
    }
}

pub(crate) fn pattern_demand_exec(p: &TPattern, m: &DemandMap) -> (r: Option<Demand>)
    requires
        m.wf(),
    ensures
        opt_model(r) == pattern_demand(*p, m@),
    decreases p,
{
    match p {
        TPattern::Var(n, _) => match m.get(n.as_str()) {
            Some(d) => Some(d.copy()),
            None => None,
        },
        TPattern::Wildcard => None,
        TPattern::LitPat(_) => Some(Demand::Head),
        TPattern::Paren(i) => pattern_demand_exec(i, m),
        TPattern::Tuple(ps) => {
            let out = pattern_demands_exec(ps, m);
            proof {
                crate::demand::lemma_fields_model(out);
            }
            Some(Demand::Fields(out))
        },
        TPattern::Constructor { name, args } => {
            if str_eq(name.as_str(), "[]") && args.len() == 0 {
                let e = Demand::Elems(Box::new(Demand::Head));
                assert(e@ == DM::Elems(Box::new(DM::Head)));
                Some(e)
            } else if str_eq(name.as_str(), ":") && args.len() == 2 {
                assert(decreases_to!(args => args@[0]));
                assert(decreases_to!(args => args@[1]));
                match pattern_demand_exec(&args[0], m) {
                    Some(h) => match pattern_demand_exec(&args[1], m) {
                        Some(Demand::Elems(de)) => {
                            let mt = h.meet(&de);
                            Some(Demand::Elems(Box::new(mt)))
                        },
                        _ => Some(Demand::Head),
                    },
                    None => Some(Demand::Head),
                }
            } else {
                Some(Demand::Head)
            }
        },
    }
}

fn pattern_demands_exec(ps: &Vec<TPattern>, m: &DemandMap) -> (r: Vec<Option<Demand>>)
    requires
        m.wf(),
    ensures
        row_model(r@) == pattern_demands(ps@, m@),
    decreases ps,
{
    let mut out: Vec<Option<Demand>> = Vec::new();
    let mut i: usize = 0;
    assert(ps@.take(0) =~= Seq::<TPattern>::empty());
    assert(row_model(out@) =~= Seq::<Option<DM>>::empty());
    while i < ps.len()
        invariant
            m.wf(),
            i <= ps@.len(),
            row_model(out@) == pattern_demands(ps@.take(i as int), m@),
        decreases ps@.len() - i,
    {
        assert(decreases_to!(ps => ps@[i as int]));
        assert(ps@.take(i as int + 1).drop_last() =~= ps@.take(i as int));
        let d = pattern_demand_exec(&ps[i], m);
        let ghost ov = out@;
        out.push(d);
        assert(row_model(out@) =~= row_model(ov).push(opt_model(d)));
        i = i + 1;
    }
    assert(ps@.take(ps@.len() as int) =~= ps@);
    out
}

/// Drop every name of `names` from `m`.
fn remove_names(m: &mut DemandMap, names: &Vec<String>)
    requires
        old(m).wf(),
    ensures
        final(m).wf(),
        final(m)@ == old(m)@.remove_keys(Set::new(|k: Seq<char>| exists|j: int| 0 <= j < names@.len() && #[trigger] names@[j]@ == k)),
{
    let ghost m0 = m@;
    let mut i: usize = 0;
    while i < names.len()
        invariant
            m.wf(),
            i <= names@.len(),
            m@ == m0.remove_keys(Set::new(|k: Seq<char>| exists|j: int| 0 <= j < i && #[trigger] names@[j]@ == k)),
        decreases names@.len() - i,
    {
        let ghost before = m@;
        m.remove(names[i].as_str());
        proof {
            let s0 = Set::new(|k: Seq<char>| exists|j: int| 0 <= j < i && #[trigger] names@[j]@ == k);
            let s1 = Set::new(|k: Seq<char>| exists|j: int| 0 <= j < i + 1 && #[trigger] names@[j]@ == k);
            assert forall|k: Seq<char>| s1.contains(k) == s0.insert(names@[i as int]@).contains(k) by {
                if s1.contains(k) {
                    let j = choose|j: int| 0 <= j < i + 1 && #[trigger] names@[j]@ == k;
                    if j < i {
                        assert(s0.contains(k));
                    }
                }
                if s0.contains(k) {
                    let j = choose|j: int| 0 <= j < i && #[trigger] names@[j]@ == k;
                    assert(s1.contains(k));
                }
            }
            assert(s1 =~= s0.insert(names@[i as int]@));
            assert(m@ =~= m0.remove_keys(s1));
        }
        i = i + 1;
    }
}

/// Drop every name of `s` from `m`.
fn remove_set(m: &mut DemandMap, s: &NameSet)
    requires
        old(m).wf(),
    ensures
        final(m).wf(),
        final(m)@ == old(m)@.remove_keys(s@),
{
    let v = s.to_vec();
    remove_names(m, &v);
    proof {
        let t = Set::new(|k: Seq<char>| exists|j: int| 0 <= j < v@.len() && #[trigger] v@[j]@ == k);
        assert(t =~= s@);
    }
}

// ---------------------------------------------------------------------
// Computed: the walker
// ---------------------------------------------------------------------

pub open spec fn sel_model(v: Seq<Option<(Demand, bool)>>) -> Seq<Option<(DM, bool)>> {
    v.map_values(|o: Option<(Demand, bool)>| match o {
        Some(p) => Some((p.0@, p.1)),
        None => None,
    })
}

pub(crate) fn row_sel_exec(row: &Vec<Option<Demand>>) -> (r: Vec<Option<(Demand, bool)>>)
    ensures
        sel_model(r@) == row_sel(row_model(row@)),
{
    let mut out: Vec<Option<(Demand, bool)>> = Vec::new();
    let mut i: usize = 0;
    while i < row.len()
        invariant
            i <= row@.len(),
            out@.len() == i,
            forall|j: int| 0 <= j < i ==> sel_model(out@)[j] == row_sel(row_model(row@))[j],
        decreases row@.len() - i,
    {
        let x = match &row[i] {
            Some(d) => Some((d.copy(), false)),
            None => None,
        };
        let ghost ov = out@;
        out.push(x);
        proof {
            assert forall|j: int| 0 <= j < i + 1 implies sel_model(out@)[j] == row_sel(row_model(row@))[j] by {
                if j < i {
                    assert(out@[j] == ov[j]);
                    assert(sel_model(ov)[j] == row_sel(row_model(row@))[j]);
                } else {
                    assert(out@[j] == x);
                    assert(row_model(row@)[j] == opt_model(row@[j]));
                    assert(row_model(row@).len() == row@.len());
                    match row@[j] {
                        Some(d) => {
                            assert(x matches Some(p) && p.0@ == d@ && !p.1);
                        }
                        None => {
                            assert(x is None);
                        }
                    }
                }
            }
        }
        i = i + 1;
    }
    assert(sel_model(out@) =~= row_sel(row_model(row@)));
    out
}

pub(crate) fn is_pure_var_exec(e: &TExpr) -> (r: bool)
    ensures
        r == is_pure_var(*e),
{
    match &e.kind {
        TExprKind::Var(n) => str_eq(n.as_str(), "pure") || str_eq(n.as_str(), "return"),
        _ => false,
    }
}

/// Set `name` to `d` in `m`.
pub(crate) fn put(m: &mut DemandMap, name: &str, d: Demand)
    requires
        old(m).wf(),
    ensures
        final(m).wf(),
        final(m)@ == old(m)@.insert(name@, d@),
{
    let ghost m0 = m@;
    m.remove(name);
    m.join_one(name, d);
    assert(m@ =~= m0.insert(name@, d@));
}

pub(crate) fn dx_exec(cx: &RowCx, e: &TExpr, rd: &Demand, run: bool) -> (r: DemandMap)
    requires
        cx.rows.wf(),
    ensures
        r.wf(),
        r@ == dx(cx_model(*cx), *e, rd@, run),
    decreases e, 5nat,
{
    let ghost c = cx_model(*cx);
    match &e.kind {
        TExprKind::Var(x) => DemandMap::single(x.as_str(), rd.copy()),
        TExprKind::Paren(x) => dx_exec(cx, x, rd, run),
        TExprKind::Negate(x) => dx_exec(cx, x, &Demand::Head, false),
        TExprKind::Tuple(elems) => match rd {
            Demand::Fields(ds) => {
                proof {
                    crate::demand::lemma_fields_model(*ds);
                }
                tuple_dem_exec(cx, elems, ds)
            },
            _ => DemandMap::new(),
        },
        TExprKind::App(_, _) => dapp_exec(cx, e, rd, run),
        TExprKind::InfixApp { op, lhs, rhs } => {
            if str_eq(op.as_str(), "$") && is_pure_var_exec(lhs) {
                if run && !matches!(rd, Demand::Head) {
                    dx_exec(cx, rhs, rd, false)
                } else {
                    DemandMap::new()
                }
            } else if str_eq(op.as_str(), ":") {
                match rd {
                    Demand::Elems(de) => {
                        let mut m = dx_exec(cx, lhs, de, false);
                        let r = dx_exec(cx, rhs, rd, false);
                        map_join(&mut m, r);
                        m
                    },
                    _ => DemandMap::new(),
                }
            } else if str_eq(op.as_str(), "seq") {
                let mut m = dx_exec(cx, lhs, &Demand::Head, false);
                let r = dx_exec(cx, rhs, rd, run);
                map_join(&mut m, r);
                m
            } else if str_eq(op.as_str(), ">>=") {
                match &rhs.kind {
                    TExprKind::Lambda { params, body } => {
                        let mut rest = dx_exec(cx, body, rd, run);
                        let dp = if params.len() == 1 {
                            match rest.get(params[0].0.as_str()) {
                                Some(d) => d.copy(),
                                None => Demand::Head,
                            }
                        } else {
                            Demand::Head
                        };
                        let mut m = dx_exec(cx, lhs, &dp, true);
                        let names = param_name_vec(params);
                        remove_names(&mut rest, &names);
                        map_join(&mut m, rest);
                        m
                    },
                    _ => {
                        let mut m = dx_exec(cx, lhs, &Demand::Head, true);
                        let r = dx_exec(cx, rhs, &Demand::Head, false);
                        map_join(&mut m, r);
                        m
                    },
                }
            } else if str_eq(op.as_str(), ">>") {
                let mut m = dx_exec(cx, lhs, &Demand::Head, true);
                let r = dx_exec(cx, rhs, rd, run);
                map_join(&mut m, r);
                m
            } else {
                match crate::demanded::operands(op.as_str(), crate::demanded::is_string_ty(&lhs.ty)) {
                    Operands::Both => {
                        let mut m = dx_exec(cx, lhs, &Demand::Head, false);
                        let r = dx_exec(cx, rhs, &Demand::Head, false);
                        map_join(&mut m, r);
                        m
                    },
                    Operands::Lhs => dx_exec(cx, lhs, &Demand::Head, false),
                    _ => DemandMap::new(),
                }
            }
        },
        TExprKind::If { cond, then_branch, else_branch } => {
            if crate::demanded::otherwise_cond(cond) {
                dx_exec(cx, then_branch, rd, run)
            } else {
                let mut s = dx_exec(cx, cond, &Demand::Head, false);
                let t = dx_exec(cx, then_branch, rd, run);
                let f = dx_exec(cx, else_branch, rd, run);
                let mm = map_meet(&t, &f);
                map_join(&mut s, mm);
                s
            }
        },
        TExprKind::Case { scrutinee, branches } => {
            let mut m = dx_exec(cx, scrutinee, &Demand::Head, false);
            let sv = scrut_var_exec(scrutinee);
            if branches.len() == 0 {
                m
            } else {
                let isect = branches_meet_exec(cx, branches, sv, rd, run);
                map_join(&mut m, isect);
                m
            }
        },
        TExprKind::Let { binds, body } => {
            let mut m = dx_exec(cx, body, rd, run);
            close_group_exec(cx, binds, &mut m);
            m
        },
        TExprKind::SpecCall { original, specialized, args } => {
            let tup = match specialized {
                SpecKind::TupGet(idx) => *idx >= 1 && args.len() == 1,
                _ => false,
            };
            if tup {
                let idx = match specialized {
                    SpecKind::TupGet(idx) => *idx,
                    _ => 1,
                };
                let fields = proj_fields_exec(idx, rd);
                proof {
                    crate::demand::lemma_fields_model(fields);
                }
                let f = Demand::Fields(fields);
                let mut m = DemandMap::new();
                assert(decreases_to!(args => args@[0]));
                let r = dx_exec(cx, &args[0], &f, false);
                map_join(&mut m, r);
                m
            } else {
                row_call_exec(cx, original.as_str(), args)
            }
        },
        TExprKind::DictCall { func_name, dict_args: _, value_args } => row_call_exec(cx, func_name.as_str(), value_args),
        TExprKind::DictMethod { dict, method_name: _ } => dx_exec(cx, dict, &Demand::Head, false),
        TExprKind::RecordUpdate { record, updates } => {
            let mut m = dx_exec(cx, record, &Demand::Head, false);
            updates_dem_exec(cx, &mut m, updates);
            m
        },
        TExprKind::OutgoingCallback { callee, arity: _ } => dx_exec(cx, callee, &Demand::Head, false),
        TExprKind::FfiMaybeArg { value } => dx_exec(cx, value, &Demand::Head, false),
        _ => DemandMap::new(),
    }
}

fn param_name_vec(ps: &Vec<(String, Ty)>) -> (r: Vec<String>)
    ensures
        Set::new(|k: Seq<char>| exists|j: int| 0 <= j < r@.len() && #[trigger] r@[j]@ == k) == param_names(ps@),
{
    let mut out: Vec<String> = Vec::new();
    let mut i: usize = 0;
    while i < ps.len()
        invariant
            i <= ps@.len(),
            out@.len() == i,
            forall|j: int| 0 <= j < i ==> #[trigger] out@[j]@ == ps@[j].0@,
        decreases ps@.len() - i,
    {
        out.push(ps[i].0.clone());
        i = i + 1;
    }
    proof {
        let a = Set::new(|k: Seq<char>| exists|j: int| 0 <= j < out@.len() && #[trigger] out@[j]@ == k);
        assert forall|k: Seq<char>| a.contains(k) == param_names(ps@).contains(k) by {
            if a.contains(k) {
                let j = choose|j: int| 0 <= j < out@.len() && #[trigger] out@[j]@ == k;
                assert(ps@[j].0@ == k);
            }
            if param_names(ps@).contains(k) {
                let j = choose|j: int| 0 <= j < ps@.len() && #[trigger] ps@[j].0@ == k;
                assert(out@[j]@ == k);
            }
        }
        assert(a =~= param_names(ps@));
    }
    out
}

pub(crate) fn proj_fields_exec(idx: usize, rd: &Demand) -> (r: Vec<Option<Demand>>)
    requires
        idx >= 1,
    ensures
        row_model(r@) == proj_fields(idx as nat, rd@),
{
    let mut out: Vec<Option<Demand>> = Vec::new();
    let mut j: usize = 0;
    while j < idx
        invariant
            j <= idx,
            out@.len() == j,
            forall|q: int| 0 <= q < j ==> opt_model(#[trigger] out@[q]) == proj_fields(idx as nat, rd@)[q],
        decreases idx - j,
    {
        if j == idx - 1 {
            out.push(Some(rd.copy()));
        } else {
            out.push(None);
        }
        j = j + 1;
    }
    assert(row_model(out@) =~= proj_fields(idx as nat, rd@));
    out
}

fn row_call_exec(cx: &RowCx, name: &str, args: &Vec<TExpr>) -> (r: DemandMap)
    requires
        cx.rows.wf(),
    ensures
        r.wf(),
        r@ == row_call(cx_model(*cx), name@, args@),
    decreases args, 4nat,
{
    let mut m = DemandMap::new();
    match callee_row_exec(cx, name, &Demand::Head) {
        Some(row) => {
            apply_row_exec(cx, &mut m, &row, args);
        },
        None => {},
    }
    m
}

fn apply_row_exec(cx: &RowCx, m: &mut DemandMap, row: &Vec<Option<Demand>>, args: &Vec<TExpr>)
    requires
        cx.rows.wf(),
        old(m).wf(),
    ensures
        final(m).wf(),
        final(m)@ == apply_row(cx_model(*cx), old(m)@, row_model(row@), args@),
    decreases args, 3nat,
{
    let ghost m0 = m@;
    let ghost rm = row_model(row@);
    let mut i: usize = 0;
    assert(args@.take(0) =~= Seq::<TExpr>::empty());
    while i < args.len()
        invariant
            cx.rows.wf(),
            m.wf(),
            rm == row_model(row@),
            i <= args@.len(),
            m@ == apply_row(cx_model(*cx), m0, rm, args@.take(i as int)),
        decreases args@.len() - i,
    {
        assert(decreases_to!(args => args@[i as int]));
        let ghost t = args@.take(i as int + 1);
        assert(t.drop_last() =~= args@.take(i as int));
        assert(t.last() == args@[i as int]);
        if i < row.len() {
            match &row[i] {
                Some(d) => {
                    assert(rm[i as int] == Some(d@));
                    let r = dx_exec(cx, &args[i], d, false);
                    map_join(m, r);
                },
                None => {},
            }
        }
        i = i + 1;
    }
    assert(args@.take(args@.len() as int) =~= args@);
}

fn tuple_dem_exec(cx: &RowCx, elems: &Vec<TExpr>, ds: &Vec<Option<Demand>>) -> (r: DemandMap)
    requires
        cx.rows.wf(),
    ensures
        r.wf(),
        r@ == tuple_dem(cx_model(*cx), elems@, row_model(ds@)),
    decreases elems, 3nat,
{
    let ghost dm = row_model(ds@);
    let mut m = DemandMap::new();
    let mut i: usize = 0;
    assert(elems@.take(0) =~= Seq::<TExpr>::empty());
    while i < elems.len()
        invariant
            cx.rows.wf(),
            m.wf(),
            dm == row_model(ds@),
            i <= elems@.len(),
            m@ == tuple_dem(cx_model(*cx), elems@.take(i as int), dm),
        decreases elems@.len() - i,
    {
        assert(decreases_to!(elems => elems@[i as int]));
        let ghost t = elems@.take(i as int + 1);
        assert(t.drop_last() =~= elems@.take(i as int));
        assert(t.last() == elems@[i as int]);
        if i < ds.len() {
            match &ds[i] {
                Some(d) => {
                    assert(dm[i as int] == Some(d@));
                    let r = dx_exec(cx, &elems[i], d, false);
                    map_join(&mut m, r);
                },
                None => {},
            }
        }
        i = i + 1;
    }
    assert(elems@.take(elems@.len() as int) =~= elems@);
    m
}

fn updates_dem_exec(cx: &RowCx, m: &mut DemandMap, us: &Vec<(String, usize, TExpr)>)
    requires
        cx.rows.wf(),
        old(m).wf(),
    ensures
        final(m).wf(),
        final(m)@ == updates_dem(cx_model(*cx), old(m)@, us@),
    decreases us, 3nat,
{
    let ghost m0 = m@;
    let mut i: usize = 0;
    assert(us@.take(0) =~= Seq::<(String, usize, TExpr)>::empty());
    while i < us.len()
        invariant
            cx.rows.wf(),
            m.wf(),
            i <= us@.len(),
            m@ == updates_dem(cx_model(*cx), m0, us@.take(i as int)),
        decreases us@.len() - i,
    {
        assert(decreases_to!(us => us@[i as int]));
        let ghost t = us@.take(i as int + 1);
        assert(t.drop_last() =~= us@.take(i as int));
        assert(t.last() == us@[i as int]);
        let r = dx_exec(cx, &us[i].2, &Demand::Head, false);
        map_join(m, r);
        i = i + 1;
    }
    assert(us@.take(us@.len() as int) =~= us@);
}

fn branch_map_exec(cx: &RowCx, b: &TCaseBranch, sv: Option<&String>, rd: &Demand, run: bool) -> (r: DemandMap)
    requires
        cx.rows.wf(),
    ensures
        r.wf(),
        r@ == branch_map(cx_model(*cx), *b, match sv {
            Some(v) => Some(v@),
            None => None,
        }, rd@, run),
    decreases b, 3nat,
{
    let bm = if b.guards.len() == 0 {
        dx_exec(cx, &b.body, rd, run)
    } else {
        guards_dem_exec(cx, &b.guards, rd, run)
    };
    let pd = pattern_demand_exec(&b.pattern, &bm);
    let mut vars = NameSet::new();
    crate::demanded::pat_vars_into(&b.pattern, &mut vars);
    assert(vars@ =~= pat_vars(b.pattern));
    let mut kept = bm;
    remove_set(&mut kept, &vars);
    match sv {
        Some(v) => match pd {
            Some(d) => {
                kept.join_one(v.as_str(), d);
            },
            None => {},
        },
        None => {},
    }
    kept
}

fn branches_meet_exec(cx: &RowCx, bs: &Vec<TCaseBranch>, sv: Option<&String>, rd: &Demand, run: bool) -> (r: DemandMap)
    requires
        cx.rows.wf(),
        bs@.len() > 0,
    ensures
        r.wf(),
        r@ == branches_meet(cx_model(*cx), bs@, match sv {
            Some(v) => Some(v@),
            None => None,
        }, rd@, run),
    decreases bs, 3nat,
{
    let ghost svm = match sv {
        Some(v) => Some(v@),
        None => None::<Seq<char>>,
    };
    assert(decreases_to!(bs => bs@[0]));
    let mut m = branch_map_exec(cx, &bs[0], sv, rd, run);
    assert(bs@.take(1).drop_last() =~= Seq::<TCaseBranch>::empty());
    assert(bs@.take(1)[0] == bs@[0]);
    let mut i: usize = 1;
    while i < bs.len()
        invariant
            cx.rows.wf(),
            m.wf(),
            1 <= i <= bs@.len(),
            svm == match sv {
                Some(v) => Some(v@),
                None => None::<Seq<char>>,
            },
            m@ == branches_meet(cx_model(*cx), bs@.take(i as int), svm, rd@, run),
        decreases bs@.len() - i,
    {
        assert(decreases_to!(bs => bs@[i as int]));
        let ghost t = bs@.take(i as int + 1);
        assert(t.drop_last() =~= bs@.take(i as int));
        assert(t.last() == bs@[i as int]);
        let bmi = branch_map_exec(cx, &bs[i], sv, rd, run);
        m = map_meet(&m, &bmi);
        i = i + 1;
    }
    assert(bs@.take(bs@.len() as int) =~= bs@);
    m
}

pub(crate) fn guards_dem_exec(cx: &RowCx, gs: &Vec<TGuard>, rd: &Demand, run: bool) -> (r: DemandMap)
    requires
        cx.rows.wf(),
    ensures
        r.wf(),
        r@ == guards_dem(cx_model(*cx), gs@, rd@, run),
    decreases gs, 3nat,
{
    let mut acc = DemandMap::new();
    let mut i: usize = gs.len();
    assert(gs@.skip(gs@.len() as int) =~= Seq::<TGuard>::empty());
    while i > 0
        invariant
            cx.rows.wf(),
            acc.wf(),
            i <= gs@.len(),
            acc@ == guards_dem(cx_model(*cx), gs@.skip(i as int), rd@, run),
        decreases i,
    {
        let k = i - 1;
        assert(decreases_to!(gs => gs@[k as int]));
        let ghost t = gs@.skip(k as int);
        assert(t[0] == gs@[k as int]);
        assert(t.drop_first() =~= gs@.skip(i as int));
        let body_d = dx_exec(cx, &gs[k].body, rd, run);
        if crate::demanded::otherwise_cond(&gs[k].condition) {
            acc = body_d;
        } else {
            let mut s = dx_exec(cx, &gs[k].condition, &Demand::Head, false);
            let mm = map_meet(&body_d, &acc);
            map_join(&mut s, mm);
            acc = s;
        }
        i = k;
    }
    assert(gs@.skip(0) =~= gs@);
    acc
}

fn close_pass_exec(cx: &RowCx, bs: &Vec<TLocalDef>, m: &mut DemandMap, walked: &mut DemandMap) -> (changed: bool)
    requires
        cx.rows.wf(),
        old(m).wf(),
        old(walked).wf(),
    ensures
        final(m).wf(),
        final(walked).wf(),
        (final(m)@, final(walked)@, changed) == close_pass(cx_model(*cx), bs@, old(m)@, old(walked)@),
    decreases bs, 1nat,
{
    let ghost m0 = m@;
    let ghost w0 = walked@;
    let mut changed = false;
    let mut i: usize = 0;
    assert(bs@.take(0) =~= Seq::<TLocalDef>::empty());
    while i < bs.len()
        invariant
            cx.rows.wf(),
            m.wf(),
            walked.wf(),
            i <= bs@.len(),
            (m@, walked@, changed) == close_pass(cx_model(*cx), bs@.take(i as int), m0, w0),
        decreases bs@.len() - i,
    {
        assert(decreases_to!(bs => bs@[i as int]));
        let ghost t = bs@.take(i as int + 1);
        assert(t.drop_last() =~= bs@.take(i as int));
        assert(t.last() == bs@[i as int]);
        let b = &bs[i];
        if b.patterns.len() == 0 {
            let cur = match m.get(b.name.as_str()) {
                Some(d) => Some(d.copy()),
                None => None,
            };
            match cur {
                Some(d) => {
                    let redo = match walked.get(b.name.as_str()) {
                        Some(prev) => !prev.subsumes(&d),
                        None => true,
                    };
                    if redo {
                        let r = dx_exec(cx, &b.body, &d, false);
                        map_join(m, r);
                        put(walked, b.name.as_str(), d);
                        changed = true;
                    }
                },
                None => {},
            }
        }
        i = i + 1;
    }
    assert(bs@.take(bs@.len() as int) =~= bs@);
    changed
}

pub(crate) fn close_group_exec(cx: &RowCx, bs: &Vec<TLocalDef>, m: &mut DemandMap)
    requires
        cx.rows.wf(),
        old(m).wf(),
    ensures
        final(m).wf(),
        final(m)@ == close_group(cx_model(*cx), bs@, old(m)@),
    decreases bs, CLOSE_ROUNDS as nat + 3,
{
    let ghost c = cx_model(*cx);
    let ghost m0 = m@;
    let mut walked = DemandMap::new();
    let mut left: u64 = CLOSE_ROUNDS;
    loop
        invariant_except_break
            close_rounds(c, bs@, m0, Map::empty(), CLOSE_ROUNDS as nat) == close_rounds(c, bs@, m@, walked@, left as nat),
        invariant
            cx.rows.wf(),
            m.wf(),
            walked.wf(),
            c == cx_model(*cx),
        ensures
            close_rounds(c, bs@, m0, Map::empty(), CLOSE_ROUNDS as nat) == m@,
        decreases left,
    {
        if left == 0 {
            break;
        }
        let changed = close_pass_exec(cx, bs, m, &mut walked);
        if !changed {
            break;
        }
        left = left - 1;
    }
    let ghost fixed = m@;
    let mut i: usize = 0;
    while i < bs.len()
        invariant
            m.wf(),
            i <= bs@.len(),
            m@ == fixed.remove_keys(Set::new(|k: Seq<char>| exists|j: int| 0 <= j < i && #[trigger] bs@[j].name@ == k)),
        decreases bs@.len() - i,
    {
        let ghost before = m@;
        m.remove(bs[i].name.as_str());
        proof {
            let s0 = Set::new(|k: Seq<char>| exists|j: int| 0 <= j < i && #[trigger] bs@[j].name@ == k);
            let s1 = Set::new(|k: Seq<char>| exists|j: int| 0 <= j < i + 1 && #[trigger] bs@[j].name@ == k);
            assert forall|k: Seq<char>| s1.contains(k) == s0.insert(bs@[i as int].name@).contains(k) by {
                if s1.contains(k) {
                    let j = choose|j: int| 0 <= j < i + 1 && #[trigger] bs@[j].name@ == k;
                    if j < i {
                        assert(s0.contains(k));
                    }
                }
                if s0.contains(k) {
                    let j = choose|j: int| 0 <= j < i && #[trigger] bs@[j].name@ == k;
                    assert(s1.contains(k));
                }
            }
            assert(s1 =~= s0.insert(bs@[i as int].name@));
            assert(m@ =~= fixed.remove_keys(s1));
        }
        i = i + 1;
    }
    proof {
        let s = Set::new(|k: Seq<char>| exists|j: int| 0 <= j < bs@.len() && #[trigger] bs@[j].name@ == k);
        assert(s =~= bind_names(bs@));
    }
}

fn dapp_exec(cx: &RowCx, e: &TExpr, rd: &Demand, run: bool) -> (r: DemandMap)
    requires
        cx.rows.wf(),
        e.kind is App,
    ensures
        r.wf(),
        r@ == dapp(cx_model(*cx), *e, rd@, run),
    decreases e, 4nat,
{
    let (h, n) = spine_info(e);
    let fname: Option<&String> = match &h.kind {
        TExprKind::Var(nm) => Some(nm),
        _ => None,
    };
    let is_seq = match fname {
        Some(nm) => str_eq(nm.as_str(), "seq"),
        None => false,
    };
    if is_seq {
        let mut sel: Vec<Option<(Demand, bool)>> = Vec::new();
        sel.push(Some((Demand::Head, false)));
        if n == 2 {
            sel.push(Some((rd.copy(), run)));
        } else {
            sel.push(None);
        }
        assert(sel_model(sel@) =~= seq_sel(n as nat, rd@, run));
        let mut m = DemandMap::new();
        spine_pos_exec(cx, e, &mut m, &sel, n);
        m.join_one("seq", Demand::Head);
        return m;
    }
    let pure_name = match fname {
        Some(nm) => (str_eq(nm.as_str(), "return") || str_eq(nm.as_str(), "pure")) && n == 1,
        None => false,
    };
    if pure_name {
        let mut sel: Vec<Option<(Demand, bool)>> = Vec::new();
        if run && !matches!(rd, Demand::Head) {
            sel.push(Some((rd.copy(), false)));
        } else {
            sel.push(None);
        }
        assert(sel_model(sel@) =~= pure_sel(rd@, run));
        let mut m = DemandMap::new();
        spine_pos_exec(cx, e, &mut m, &sel, n);
        match fname {
            Some(nm) => m.join_one(nm.as_str(), Demand::Head),
            None => {},
        }
        return m;
    }
    match &h.kind {
        TExprKind::Con(cname) => {
            if str_eq(cname.as_str(), ":") && n == 2 {
                match rd {
                    Demand::Elems(de) => {
                        let mut sel: Vec<Option<(Demand, bool)>> = Vec::new();
                        sel.push(Some(((**de).copy(), false)));
                        sel.push(Some((rd.copy(), false)));
                        assert(sel_model(sel@) =~= seq![Some(((*de)@, false)), Some((rd@, false))]);
                        let mut m = DemandMap::new();
                        spine_pos_exec(cx, e, &mut m, &sel, n);
                        return m;
                    },
                    _ => {
                        return DemandMap::new();
                    },
                }
            }
            return DemandMap::new();
        },
        _ => {},
    }
    let susp = crate::types::is_action_value_ty(&e.ty) && !run;
    let mut m = match &e.kind {
        TExprKind::App(g, _) => dhead_exec(cx, g),
        _ => DemandMap::new(),
    };
    match fname {
        Some(name) => {
            if !susp {
                match call_row_exec(cx, name.as_str(), n, rd, run) {
                    Some(row) => {
                        let sel = row_sel_exec(&row);
                        spine_pos_exec(cx, e, &mut m, &sel, n);
                    },
                    None => {},
                }
            }
        },
        None => {},
    }
    let skip = match fname {
        Some(name) => cx.inlined.contains(name.as_str()),
        None => false,
    };
    if !susp && !skip {
        spine_eager_exec(cx, e, &mut m);
    }
    m
}

fn dhead_exec(cx: &RowCx, x: &TExpr) -> (r: DemandMap)
    requires
        cx.rows.wf(),
    ensures
        r.wf(),
        r@ == dhead(cx_model(*cx), *x),
    decreases x, 6nat,
{
    match &x.kind {
        TExprKind::App(g, _) => dhead_exec(cx, g),
        TExprKind::Paren(i) => dhead_exec(cx, i),
        _ => {
            let mut m = DemandMap::new();
            let r = dx_exec(cx, x, &Demand::Head, false);
            map_join(&mut m, r);
            m
        },
    }
}

/// Walk the spine's arguments under the selection; returns their number.
fn spine_pos_exec(cx: &RowCx, x: &TExpr, m: &mut DemandMap, sel: &Vec<Option<(Demand, bool)>>, k: usize) -> (n: usize)
    requires
        cx.rows.wf(),
        old(m).wf(),
        spine_len(*x) <= k,
    ensures
        final(m).wf(),
        final(m)@ == spine_pos(cx_model(*cx), *x, old(m)@, sel_model(sel@)),
        n as nat == spine_len(*x),
    decreases x, 3nat,
{
    match &x.kind {
        TExprKind::App(g, a) => {
            let i = spine_pos_exec(cx, g, m, sel, k);
            if i < sel.len() {
                match &sel[i] {
                    Some(p) => {
                        assert(sel_model(sel@)[i as int] == Some((p.0@, p.1)));
                        let r = dx_exec(cx, a, &p.0, p.1);
                        map_join(m, r);
                    },
                    None => {},
                }
            }
            i + 1
        },
        TExprKind::Paren(inner) => spine_pos_exec(cx, inner, m, sel, k),
        _ => 0,
    }
}

fn spine_eager_exec(cx: &RowCx, x: &TExpr, m: &mut DemandMap)
    requires
        cx.rows.wf(),
        old(m).wf(),
    ensures
        final(m).wf(),
        final(m)@ == spine_eager(cx_model(*cx), *x, old(m)@),
    decreases x, 3nat,
{
    match &x.kind {
        TExprKind::App(g, a) => {
            spine_eager_exec(cx, g, m);
            if arg_eager_exec(a) {
                let r = dx_exec(cx, a, &Demand::Head, false);
                map_join(m, r);
            }
        },
        TExprKind::Paren(inner) => spine_eager_exec(cx, inner, m),
        _ => {},
    }
}


// ---------------------------------------------------------------------
// Entry points
// ---------------------------------------------------------------------

/// How many `let` nodes stand on the spine of `e` (a `let` whose body is
/// a `let`, and so on).
pub open spec fn let_depth(e: TExpr) -> nat
    decreases e,
{
    match e.kind {
        TExprKind::Let { binds: _, body } => 1 + let_depth(*body),
        _ => 0,
    }
}

/// The `i`-th node of the spine of `e` (the expression itself at 0, the
/// terminal at `let_depth(e)`).
pub open spec fn let_node(e: TExpr, i: nat) -> TExpr
    decreases e,
{
    if i == 0 {
        e
    } else {
        match e.kind {
            TExprKind::Let { binds: _, body } => let_node(*body, (i - 1) as nat),
            _ => e,
        }
    }
}

/// Below the terminal each spine node is a `let` whose body is the next
/// node; the terminal is no `let`.
pub proof fn lemma_let_node(e: TExpr, i: nat)
    requires
        i <= let_depth(e),
    ensures
        i < let_depth(e) ==> (let_node(e, i).kind matches TExprKind::Let { binds: _, body } && *body == let_node(e, i + 1)),
        i == let_depth(e) ==> !(let_node(e, i).kind is Let),
    decreases e,
{
    match e.kind {
        TExprKind::Let { binds: _, body } => {
            assert(let_node(e, i + 1) == let_node(*body, i));
            if i > 0 {
                lemma_let_node(*body, (i - 1) as nat);
            }
        },
        _ => {},
    }
}

/// The demand map of `expr` evaluated with result demand `rd` in run
/// position (a bind-chain statement or a clause body), with the rows of
/// the local functions in scope in `locals`.
pub fn demanded_map(expr: &TExpr, rows: &Rows, locals: &LocalEnv, inlined: &NameSet, rd: &Demand) -> (r: DemandMap)
    requires
        rows.wf(),
    ensures
        r.wf(),
        r@ == dx((rows.model(), locals.models(), inlined@), *expr, rd@, true),
{
    let cx = RowCx { rows, locals, inlined };
    dx_exec(&cx, expr, rd, true)
}

/// The guard-chain form of `demanded_map`.
pub fn demanded_map_guards(guards: &Vec<TGuard>, rows: &Rows, locals: &LocalEnv, inlined: &NameSet, rd: &Demand) -> (r: DemandMap)
    requires
        rows.wf(),
    ensures
        r.wf(),
        r@ == guards_dem((rows.model(), locals.models(), inlined@), guards@, rd@, true),
{
    let cx = RowCx { rows, locals, inlined };
    guards_dem_exec(&cx, guards, rd, true)
}

/// The demand maps of every node of a `let` spine in one backward pass:
/// entry `i` is the map of the `i`-th node (the expression itself first,
/// the terminal last), each equal to what `demanded_map` gives for that
/// node. `None` when `expr` is no `let`.
pub fn let_spine_maps(expr: &TExpr, rows: &Rows, locals: &LocalEnv, inlined: &NameSet, rd: &Demand) -> (r: Option<Vec<DemandMap>>)
    requires
        rows.wf(),
    ensures
        match r {
            None => !(expr.kind is Let),
            Some(v) => {
                &&& expr.kind is Let
                &&& v@.len() == let_depth(*expr) + 1
                &&& forall|i: int| 0 <= i < v@.len() ==> (#[trigger] v@[i]).wf()
                    && v@[i]@ == dx((rows.model(), locals.models(), inlined@), let_node(*expr, i as nat), rd@, true)
            },
        },
{
    match &expr.kind {
        TExprKind::Let { .. } => {},
        _ => { return None; },
    }
    let cx = RowCx { rows, locals, inlined };
    let ghost c = cx_model(cx);
    let mut spine: Vec<&TExpr> = Vec::new();
    let mut cur: &TExpr = expr;
    loop
        invariant
            spine@.len() <= let_depth(*expr),
            *cur == let_node(*expr, spine@.len() as nat),
            forall|j: int| 0 <= j < spine@.len() ==> *(#[trigger] spine@[j]) == let_node(*expr, j as nat),
        ensures
            spine@.len() == let_depth(*expr),
            *cur == let_node(*expr, spine@.len() as nat),
            forall|j: int| 0 <= j < spine@.len() ==> *(#[trigger] spine@[j]) == let_node(*expr, j as nat),
        decreases let_depth(*expr) - spine@.len(),
    {
        proof { lemma_let_node(*expr, spine@.len() as nat); }
        match &cur.kind {
            TExprKind::Let { binds: _, body } => {
                spine.push(cur);
                cur = body;
            },
            _ => { break; },
        }
    }
    let n = spine.len();
    let mut m = dx_exec(&cx, cur, rd, true);
    let mut out: Vec<DemandMap> = Vec::new();
    out.push(DemandMap::new());
    let mut k: usize = 0;
    while k < n
        invariant
            k <= n,
            out@.len() == k + 1,
            forall|j: int| 0 <= j < out@.len() ==> (#[trigger] out@[j]).wf(),
        decreases n - k,
    {
        out.push(DemandMap::new());
        k = k + 1;
    }
    out[n] = m.copy();
    let mut i: usize = n;
    while i > 0
        invariant
            i <= n,
            n == spine@.len(),
            n == let_depth(*expr),
            out@.len() == n + 1,
            cx.rows.wf(),
            c == cx_model(cx),
            c == (rows.model(), locals.models(), inlined@),
            m.wf(),
            m@ == dx(c, let_node(*expr, i as nat), rd@, true),
            forall|j: int| 0 <= j < spine@.len() ==> *(#[trigger] spine@[j]) == let_node(*expr, j as nat),
            forall|j: int| 0 <= j < out@.len() ==> (#[trigger] out@[j]).wf(),
            forall|j: int| i <= j < out@.len() ==> (#[trigger] out@[j])@ == dx(c, let_node(*expr, j as nat), rd@, true),
        decreases i,
    {
        proof { lemma_let_node(*expr, (i - 1) as nat); }
        let node: &TExpr = spine[i - 1];
        match &node.kind {
            TExprKind::Let { binds, body: _ } => {
                close_group_exec(&cx, binds, &mut m);
            },
            _ => {},
        }
        i = i - 1;
        out[i] = m.copy();
    }
    Some(out)
}

} // verus!
