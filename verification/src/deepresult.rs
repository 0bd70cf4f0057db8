//! The whole-program deep-result set: the functions whose every reference
//! in the module is a saturated call whose result receives the deep demand
//! of the function's result type. Such a function's own body may be
//! analyzed and generated under that deep demand.
//!
//! The candidates are the functions with a deep result demand that no
//! specialized or dictionary call names. Each round walks every function
//! of the module as the code generator will see it, its own result demand
//! deep exactly when it is still a candidate, and records the call sites
//! the walk visits; a candidate stays when each of its references is such
//! a visited site. Rounds repeat until the set no longer shrinks; it is cut
//! off after `DEEP_ROUNDS` rounds, a bound no program reaches.
//!
//! A reference is a `Var` node naming a module function. Nodes are named
//! by their path: the function's index, the clause's index, then the part
//! of the clause (body 0, guards 1, where-bindings 2) and the way down the
//! expression.

use vstd::prelude::*;
use crate::tir::{TExpr, TExprKind, TGuard, TCaseBranch, TLocalDef, TClause, TFunction, TModule};
use crate::demand::{DM, Demand, DemandMap, Rows, RM, NameSet, subsumes};
use crate::structured::{RCx, RowCx, cx_model, dx, guards_dem, dx_exec, guards_dem_exec};
use crate::sites::{SiteMap, Visit, sites_add, vis, vis_guards, vis_close};
use crate::sitewalk::{VisitRec, log_model, rec_model, child, arity_entries, arity_get, vis_exec, vis_guards_exec,
    vis_close_exec};
use crate::modrows::{clause_cx, group_clauses, members_of, groups_ok};
use crate::strict_params::{all_fns, max_arity, name_groups, ngroups_model};
use crate::localrows::local_fn_rows;
use crate::dce::spec_kind_refs;
use crate::text::str_eq;

verus! {

broadcast use vstd::string::group_string_axioms;

/// The site at `p` is a saturated call of `n` whose demand subsumes
/// `rdeep`.
pub open spec fn site_good(s: SiteMap, p: Seq<usize>, n: Seq<char>, rdeep: DM) -> bool {
    s.contains_key(p) && s[p].0 == n && s[p].2 && subsumes(s[p].1, rdeep)
}

/// Every reference to `n` in `e` (at path `p`) is a good site.
pub open spec fn refs_good(s: SiteMap, n: Seq<char>, rdeep: DM, e: TExpr, p: Seq<usize>) -> bool
    decreases e,
{
    match e.kind {
        TExprKind::Var(x) => x@ != n || site_good(s, p, n, rdeep),
        TExprKind::Con(_) | TExprKind::Lit(_) | TExprKind::OpFunc(_) | TExprKind::DictAccess { .. } => true,
        TExprKind::App(f, a) => refs_good(s, n, rdeep, *f, p.push(0)) && refs_good(s, n, rdeep, *a, p.push(1)),
        TExprKind::InfixApp { op: _, lhs, rhs } => refs_good(s, n, rdeep, *lhs, p.push(0))
            && refs_good(s, n, rdeep, *rhs, p.push(1)),
        TExprKind::Negate(x) => refs_good(s, n, rdeep, *x, p.push(0)),
        TExprKind::Paren(x) => refs_good(s, n, rdeep, *x, p.push(0)),
        TExprKind::Lambda { params: _, body } => refs_good(s, n, rdeep, *body, p.push(0)),
        TExprKind::If { cond, then_branch, else_branch } => refs_good(s, n, rdeep, *cond, p.push(0))
            && refs_good(s, n, rdeep, *then_branch, p.push(1)) && refs_good(s, n, rdeep, *else_branch, p.push(2)),
        TExprKind::Case { scrutinee, branches } => refs_good(s, n, rdeep, *scrutinee, p.push(0))
            && refs_good_branches(s, n, rdeep, branches@, p.push(1)),
        TExprKind::Let { binds, body } => refs_good_binds(s, n, rdeep, binds@, p.push(0))
            && refs_good(s, n, rdeep, *body, p.push(1)),
        TExprKind::SpecCall { original: _, specialized: _, args } => refs_good_exprs(s, n, rdeep, args@, p),
        TExprKind::Tuple(elems) => refs_good_exprs(s, n, rdeep, elems@, p),
        TExprKind::DictMethod { dict, method_name: _ } => refs_good(s, n, rdeep, *dict, p.push(0)),
        TExprKind::DictCall { func_name: _, dict_args, value_args } => refs_good_exprs(s, n, rdeep, dict_args@, p.push(0))
            && refs_good_exprs(s, n, rdeep, value_args@, p.push(1)),
        TExprKind::RecordUpdate { record, updates } => refs_good(s, n, rdeep, *record, p.push(0))
            && refs_good_updates(s, n, rdeep, updates@, p.push(1)),
        TExprKind::OutgoingCallback { callee, arity: _ } => refs_good(s, n, rdeep, *callee, p.push(0)),
        TExprKind::FfiMaybeArg { value } => refs_good(s, n, rdeep, *value, p.push(0)),
    }
}

/// Element `i` at `p.push(i)`.
pub open spec fn refs_good_exprs(s: SiteMap, n: Seq<char>, rdeep: DM, es: Seq<TExpr>, p: Seq<usize>) -> bool
    decreases es,
{
    es.len() == 0 || (refs_good_exprs(s, n, rdeep, es.drop_last(), p)
        && refs_good(s, n, rdeep, es.last(), p.push((es.len() - 1) as usize)))
}

/// Guard `j`: its condition at `p.push(j).push(0)`, its body at
/// `p.push(j).push(1)`.
pub open spec fn refs_good_guards(s: SiteMap, n: Seq<char>, rdeep: DM, gs: Seq<TGuard>, p: Seq<usize>) -> bool
    decreases gs,
{
    gs.len() == 0 || (refs_good_guards(s, n, rdeep, gs.drop_last(), p)
        && refs_good(s, n, rdeep, gs.last().condition, p.push((gs.len() - 1) as usize).push(0))
        && refs_good(s, n, rdeep, gs.last().body, p.push((gs.len() - 1) as usize).push(1)))
}

/// Alternative `i`: its guards under `p.push(i).push(0)`, its body at
/// `p.push(i).push(1)`.
pub open spec fn refs_good_branches(s: SiteMap, n: Seq<char>, rdeep: DM, bs: Seq<TCaseBranch>, p: Seq<usize>) -> bool
    decreases bs,
{
    bs.len() == 0 || (refs_good_branches(s, n, rdeep, bs.drop_last(), p)
        && refs_good_guards(s, n, rdeep, bs.last().guards@, p.push((bs.len() - 1) as usize).push(0))
        && refs_good(s, n, rdeep, bs.last().body, p.push((bs.len() - 1) as usize).push(1)))
}

/// Binding `i`'s right-hand side at `p.push(i)`.
pub open spec fn refs_good_binds(s: SiteMap, n: Seq<char>, rdeep: DM, bs: Seq<TLocalDef>, p: Seq<usize>) -> bool
    decreases bs,
{
    bs.len() == 0 || (refs_good_binds(s, n, rdeep, bs.drop_last(), p)
        && refs_good(s, n, rdeep, bs.last().body, p.push((bs.len() - 1) as usize)))
}

/// Update `i`'s value at `p.push(i)`.
pub open spec fn refs_good_updates(s: SiteMap, n: Seq<char>, rdeep: DM, us: Seq<(String, usize, TExpr)>, p: Seq<usize>) -> bool
    decreases us,
{
    us.len() == 0 || (refs_good_updates(s, n, rdeep, us.drop_last(), p)
        && refs_good(s, n, rdeep, us.last().2, p.push((us.len() - 1) as usize)))
}

/// `e` names `n` in a specialized or dictionary call.
pub open spec fn poisons(n: Seq<char>, e: TExpr) -> bool
    decreases e,
{
    match e.kind {
        TExprKind::Var(_) | TExprKind::Con(_) | TExprKind::Lit(_) | TExprKind::OpFunc(_) | TExprKind::DictAccess { .. } => false,
        TExprKind::App(f, a) => poisons(n, *f) || poisons(n, *a),
        TExprKind::InfixApp { op: _, lhs, rhs } => poisons(n, *lhs) || poisons(n, *rhs),
        TExprKind::Negate(x) => poisons(n, *x),
        TExprKind::Paren(x) => poisons(n, *x),
        TExprKind::Lambda { params: _, body } => poisons(n, *body),
        TExprKind::If { cond, then_branch, else_branch } => poisons(n, *cond) || poisons(n, *then_branch)
            || poisons(n, *else_branch),
        TExprKind::Case { scrutinee, branches } => poisons(n, *scrutinee) || poisons_branches(n, branches@),
        TExprKind::Let { binds, body } => poisons_binds(n, binds@) || poisons(n, *body),
        TExprKind::SpecCall { original, specialized, args } => original@ == n || spec_kind_refs(specialized).contains(n)
            || poisons_exprs(n, args@),
        TExprKind::Tuple(elems) => poisons_exprs(n, elems@),
        TExprKind::DictMethod { dict, method_name: _ } => poisons(n, *dict),
        TExprKind::DictCall { func_name, dict_args, value_args } => func_name@ == n || poisons_exprs(n, dict_args@)
            || poisons_exprs(n, value_args@),
        TExprKind::RecordUpdate { record, updates } => poisons(n, *record) || poisons_updates(n, updates@),
        TExprKind::OutgoingCallback { callee, arity: _ } => poisons(n, *callee),
        TExprKind::FfiMaybeArg { value } => poisons(n, *value),
    }
}

pub open spec fn poisons_exprs(n: Seq<char>, es: Seq<TExpr>) -> bool
    decreases es,
{
    es.len() > 0 && (poisons_exprs(n, es.drop_last()) || poisons(n, es.last()))
}

pub open spec fn poisons_guards(n: Seq<char>, gs: Seq<TGuard>) -> bool
    decreases gs,
{
    gs.len() > 0 && (poisons_guards(n, gs.drop_last()) || poisons(n, gs.last().condition) || poisons(n, gs.last().body))
}

pub open spec fn poisons_branches(n: Seq<char>, bs: Seq<TCaseBranch>) -> bool
    decreases bs,
{
    bs.len() > 0 && (poisons_branches(n, bs.drop_last()) || poisons_guards(n, bs.last().guards@) || poisons(n, bs.last().body))
}

pub open spec fn poisons_binds(n: Seq<char>, bs: Seq<TLocalDef>) -> bool
    decreases bs,
{
    bs.len() > 0 && (poisons_binds(n, bs.drop_last()) || poisons(n, bs.last().body))
}

pub open spec fn poisons_updates(n: Seq<char>, us: Seq<(String, usize, TExpr)>) -> bool
    decreases us,
{
    us.len() > 0 && (poisons_updates(n, us.drop_last()) || poisons(n, us.last().2))
}


// ---------------------------------------------------------------------
// The module's walk and the rounds
// ---------------------------------------------------------------------

/// The rounds after which the iteration stops.
pub const DEEP_ROUNDS: u64 = 0xffff_ffff_ffff_ffff;

/// Each function name's arity: the most patterns any of its clauses has.
pub open spec fn arity_map(gs: Seq<(Seq<char>, Seq<TFunction>)>) -> Map<Seq<char>, nat>
    decreases gs.len(),
{
    if gs.len() == 0 {
        Map::empty()
    } else {
        arity_map(gs.drop_last()).insert(gs.last().0, max_arity(group_clauses(gs.last().1)))
    }
}

/// The result demand a function's own body is walked under: its deep
/// result demand while it is a candidate, `Head` otherwise.
pub open spec fn result_dm(rm: RM, d: Set<Seq<char>>, name: Seq<char>) -> DM {
    if d.contains(name) && rm.2.contains_key(name) { rm.2[name] } else { DM::Head }
}

/// A clause's demand map before its where-bound values are closed over.
pub open spec fn clause_pre_map(cx: RCx, c: TClause, rd: DM) -> Map<Seq<char>, DM> {
    if c.guards@.len() == 0 { dx(cx, c.body, rd, true) } else { guards_dem(cx, c.guards@, rd, true) }
}

/// The where-bound local functions' bodies, each run under `Head`.
pub open spec fn where_fn_vis(cx: RCx, ar: Map<Seq<char>, nat>, bs: Seq<TLocalDef>, p: Seq<usize>) -> Seq<Visit>
    decreases bs.len(),
{
    if bs.len() == 0 {
        Seq::empty()
    } else {
        where_fn_vis(cx, ar, bs.drop_last(), p) + if bs.last().patterns@.len() > 0 {
            vis(cx, ar, bs.last().body, DM::Head, true, p.push((bs.len() - 1) as usize))
        } else {
            Seq::empty()
        }
    }
}

/// A clause's visits under result demand `rd`: its body (or guard chain)
/// in run position, its where-bound values closed over that, then its
/// where-bound functions.
pub open spec fn clause_vis(rm: RM, ar: Map<Seq<char>, nat>, c: TClause, rd: DM, p: Seq<usize>) -> Seq<Visit> {
    let cx = clause_cx(rm, c);
    (if c.guards@.len() == 0 {
        vis(cx, ar, c.body, rd, true, p.push(0))
    } else {
        vis_guards(cx, ar, c.guards@, 0, rd, true, p.push(1))
    }) + vis_close(cx, ar, c.where_binds@, clause_pre_map(cx, c, rd), p.push(2))
        + where_fn_vis(cx, ar, c.where_binds@, p.push(2))
}

pub open spec fn clauses_vis(rm: RM, ar: Map<Seq<char>, nat>, cs: Seq<TClause>, rd: DM, p: Seq<usize>) -> Seq<Visit>
    decreases cs.len(),
{
    if cs.len() == 0 {
        Seq::empty()
    } else {
        clauses_vis(rm, ar, cs.drop_last(), rd, p) + clause_vis(rm, ar, cs.last(), rd, p.push((cs.len() - 1) as usize))
    }
}

/// The visits of walking every function, function `i` under path `[i]`.
pub open spec fn fns_vis(rm: RM, ar: Map<Seq<char>, nat>, d: Set<Seq<char>>, fs: Seq<TFunction>) -> Seq<Visit>
    decreases fs.len(),
{
    if fs.len() == 0 {
        Seq::empty()
    } else {
        fns_vis(rm, ar, d, fs.drop_last()) + clauses_vis(rm, ar, fs.last().clauses@, result_dm(rm, d, fs.last().name@),
            seq![(fs.len() - 1) as usize])
    }
}

pub open spec fn clause_refs_good(s: SiteMap, n: Seq<char>, rdeep: DM, c: TClause, p: Seq<usize>) -> bool {
    refs_good(s, n, rdeep, c.body, p.push(0)) && refs_good_guards(s, n, rdeep, c.guards@, p.push(1))
        && refs_good_binds(s, n, rdeep, c.where_binds@, p.push(2))
}

pub open spec fn clauses_refs_good(s: SiteMap, n: Seq<char>, rdeep: DM, cs: Seq<TClause>, p: Seq<usize>) -> bool
    decreases cs.len(),
{
    cs.len() == 0 || (clauses_refs_good(s, n, rdeep, cs.drop_last(), p)
        && clause_refs_good(s, n, rdeep, cs.last(), p.push((cs.len() - 1) as usize)))
}

/// Every reference to `n` in the functions is a good site.
pub open spec fn fns_refs_good(s: SiteMap, n: Seq<char>, rdeep: DM, fs: Seq<TFunction>) -> bool
    decreases fs.len(),
{
    fs.len() == 0 || (fns_refs_good(s, n, rdeep, fs.drop_last())
        && clauses_refs_good(s, n, rdeep, fs.last().clauses@, seq![(fs.len() - 1) as usize]))
}

pub open spec fn clause_poisons(n: Seq<char>, c: TClause) -> bool {
    poisons(n, c.body) || poisons_guards(n, c.guards@) || poisons_binds(n, c.where_binds@)
}

pub open spec fn clauses_poison(n: Seq<char>, cs: Seq<TClause>) -> bool
    decreases cs.len(),
{
    cs.len() > 0 && (clauses_poison(n, cs.drop_last()) || clause_poisons(n, cs.last()))
}

/// Some function names `n` in a specialized or dictionary call.
pub open spec fn fns_poison(n: Seq<char>, fs: Seq<TFunction>) -> bool
    decreases fs.len(),
{
    fs.len() > 0 && (fns_poison(n, fs.drop_last()) || clauses_poison(n, fs.last().clauses@))
}

/// The module's arity table.
pub open spec fn module_arities(m: TModule) -> Map<Seq<char>, nat> {
    arity_map(name_groups(all_fns(m)))
}

/// The sites of one round's walk with candidates `d`.
pub open spec fn module_sites(m: TModule, rm: RM, d: Set<Seq<char>>) -> SiteMap {
    sites_add(Map::empty(), fns_vis(rm, module_arities(m), d, all_fns(m)))
}

/// A candidate stays: it has a deep result demand, and if it is a module
/// function every reference to it is a good site.
pub open spec fn deep_keep(m: TModule, rm: RM, s: SiteMap, n: Seq<char>) -> bool {
    rm.2.contains_key(n) && (module_arities(m).contains_key(n) ==> fns_refs_good(s, n, rm.2[n], all_fns(m)))
}

/// One round.
pub open spec fn deep_step(m: TModule, rm: RM, d: Set<Seq<char>>) -> Set<Seq<char>> {
    let s = module_sites(m, rm, d);
    d.filter(|n: Seq<char>| deep_keep(m, rm, s, n))
}

/// Rounds until the set is empty or one keeps every candidate (at most
/// `k`).
pub open spec fn deep_fix(m: TModule, rm: RM, d: Set<Seq<char>>, k: nat) -> Set<Seq<char>>
    decreases k,
{
    if k == 0 || d == Set::<Seq<char>>::empty() {
        d
    } else {
        let nx = deep_step(m, rm, d);
        if nx == d { d } else { deep_fix(m, rm, nx, (k - 1) as nat) }
    }
}

/// The candidates: the functions with a deep result demand that no
/// specialized or dictionary call names.
pub open spec fn deep_seed(m: TModule, rm: RM) -> Set<Seq<char>> {
    rm.2.dom().filter(|n: Seq<char>| !(module_arities(m).contains_key(n) && fns_poison(n, all_fns(m))))
}

/// The deep-result set of module `m` under rows `rm`.
pub open spec fn deep_result_gfp(m: TModule, rm: RM) -> Set<Seq<char>> {
    deep_fix(m, rm, deep_seed(m, rm), DEEP_ROUNDS as nat)
}


// ---------------------------------------------------------------------
// What the set guarantees
// ---------------------------------------------------------------------

proof fn lemma_fix_within(m: TModule, rm: RM, d: Set<Seq<char>>, k: nat)
    ensures
        deep_fix(m, rm, d, k).subset_of(d),
    decreases k,
{
    if k > 0 && d != Set::<Seq<char>>::empty() {
        let nx = deep_step(m, rm, d);
        if nx != d {
            lemma_fix_within(m, rm, nx, (k - 1) as nat);
        }
    }
}

/// Every deep-result function has a deep result demand, and no specialized
/// or dictionary call names it.
pub proof fn lemma_deep_result_candidates(m: TModule, rm: RM)
    ensures
        deep_result_gfp(m, rm).subset_of(deep_seed(m, rm)),
        deep_result_gfp(m, rm).subset_of(rm.2.dom()),
{
    lemma_fix_within(m, rm, deep_seed(m, rm), DEEP_ROUNDS as nat);
}

/// Every one of the first `k` rounds drops a candidate.
pub open spec fn rounds_all_shrink(m: TModule, rm: RM, d: Set<Seq<char>>, k: nat) -> bool
    decreases k,
{
    k == 0 || (d != Set::<Seq<char>>::empty() && deep_step(m, rm, d) != d
        && rounds_all_shrink(m, rm, deep_step(m, rm, d), (k - 1) as nat))
}

proof fn lemma_fix_stable(m: TModule, rm: RM, d: Set<Seq<char>>, k: nat)
    requires
        !rounds_all_shrink(m, rm, d, k),
    ensures
        forall|n: Seq<char>| #[trigger] deep_fix(m, rm, d, k).contains(n) ==> deep_keep(m, rm,
            module_sites(m, rm, deep_fix(m, rm, d, k)), n),
    decreases k,
{
    assert(k > 0);
    if d == Set::<Seq<char>>::empty() {
        assert(deep_fix(m, rm, d, k) == d);
    } else {
        let nx = deep_step(m, rm, d);
        if nx == d {
            assert(deep_fix(m, rm, d, k) == d);
            let s = module_sites(m, rm, d);
            assert forall|n: Seq<char>| #[trigger] d.contains(n) implies deep_keep(m, rm, s, n) by {
                assert(nx.contains(n));
                assert(d.filter(|x: Seq<char>| deep_keep(m, rm, s, x)).contains(n));
            }
        } else {
            assert(deep_fix(m, rm, d, k) == deep_fix(m, rm, nx, (k - 1) as nat));
            lemma_fix_stable(m, rm, nx, (k - 1) as nat);
        }
    }
}

/// Where the rounds settle before the cutoff, the set is consistent with
/// itself: walking every function under its deep result demand exactly when
/// it belongs to the set, every reference to each member is a saturated call
/// whose result receives at least that member's deep result demand.
pub proof fn lemma_deep_result_sites(m: TModule, rm: RM)
    requires
        !rounds_all_shrink(m, rm, deep_seed(m, rm), DEEP_ROUNDS as nat),
    ensures
        forall|n: Seq<char>| #[trigger] deep_result_gfp(m, rm).contains(n) ==> rm.2.contains_key(n)
            && (module_arities(m).contains_key(n) ==> fns_refs_good(module_sites(m, rm, deep_result_gfp(m, rm)), n, rm.2[n],
            all_fns(m))),
{
    lemma_fix_stable(m, rm, deep_seed(m, rm), DEEP_ROUNDS as nat);
}

// ---------------------------------------------------------------------
// Computed
// ---------------------------------------------------------------------

fn paths_eq(a: &Vec<usize>, b: &Vec<usize>) -> (r: bool)
    ensures
        r == (a@ == b@),
{
    if a.len() != b.len() {
        return false;
    }
    let mut i: usize = 0;
    while i < a.len()
        invariant
            a@.len() == b@.len(),
            i <= a@.len(),
            forall|j: int| 0 <= j < i ==> a@[j] == b@[j],
        decreases a@.len() - i,
    {
        if a[i] != b[i] {
            return false;
        }
        i = i + 1;
    }
    assert(a@ =~= b@);
    true
}

/// Is the logged site at `p` a good site for `n`?
fn site_good_exec(log: &Vec<VisitRec>, p: &Vec<usize>, n: &str, rdeep: &Demand) -> (r: bool)
    ensures
        r == site_good(sites_add(Map::empty(), log_model(log@)), p@, n@, rdeep@),
{
    let mut found = false;
    let mut first: usize = 0;
    let mut d = Demand::Head;
    let mut full = true;
    let mut i: usize = 0;
    assert(log_model(log@.take(0)) =~= Seq::empty());
    while i < log.len()
        invariant
            i <= log@.len(),
            found == sites_add(Map::empty(), log_model(log@.take(i as int))).contains_key(p@),
            found ==> first < i && sites_add(Map::empty(), log_model(log@.take(i as int)))[p@] == (log@[first as int].1@, d@,
                full),
        decreases log@.len() - i,
    {
        proof {
            let t = log_model(log@.take(i as int + 1));
            assert(t.drop_last() =~= log_model(log@.take(i as int)));
            assert(t.last() == rec_model(log@[i as int]));
        }
        if paths_eq(&log[i].0, p) {
            if !found {
                found = true;
                first = i;
                d = log[i].2.copy();
                full = log[i].3;
            } else {
                d = d.join(&log[i].2);
                full = full && log[i].3;
            }
        }
        i = i + 1;
    }
    assert(log@.take(log@.len() as int) =~= log@);
    found && str_eq(log[first].1.as_str(), n) && full && d.subsumes(rdeep)
}

/// Every reference to `n` in `e`, at `p`, is a good logged site.
fn refs_good_exec(log: &Vec<VisitRec>, n: &str, rdeep: &Demand, e: &TExpr, p: &Vec<usize>) -> (r: bool)
    ensures
        r == refs_good(sites_add(Map::empty(), log_model(log@)), n@, rdeep@, *e, p@),
    decreases e,
{
    match &e.kind {
        TExprKind::Var(x) => !str_eq(x.as_str(), n) || site_good_exec(log, p, n, rdeep),
        TExprKind::Con(_) | TExprKind::Lit(_) | TExprKind::OpFunc(_) | TExprKind::DictAccess { .. } => true,
        TExprKind::App(f, a) => refs_good_exec(log, n, rdeep, f, &child(p, 0)) && refs_good_exec(log, n, rdeep, a, &child(p, 1)),
        TExprKind::InfixApp { op: _, lhs, rhs } => refs_good_exec(log, n, rdeep, lhs, &child(p, 0))
            && refs_good_exec(log, n, rdeep, rhs, &child(p, 1)),
        TExprKind::Negate(x) => refs_good_exec(log, n, rdeep, x, &child(p, 0)),
        TExprKind::Paren(x) => refs_good_exec(log, n, rdeep, x, &child(p, 0)),
        TExprKind::Lambda { params: _, body } => refs_good_exec(log, n, rdeep, body, &child(p, 0)),
        TExprKind::If { cond, then_branch, else_branch } => refs_good_exec(log, n, rdeep, cond, &child(p, 0))
            && refs_good_exec(log, n, rdeep, then_branch, &child(p, 1))
            && refs_good_exec(log, n, rdeep, else_branch, &child(p, 2)),
        TExprKind::Case { scrutinee, branches } => refs_good_exec(log, n, rdeep, scrutinee, &child(p, 0))
            && branches_good_exec(log, n, rdeep, branches, &child(p, 1)),
        TExprKind::Let { binds, body } => binds_good_exec(log, n, rdeep, binds, &child(p, 0))
            && refs_good_exec(log, n, rdeep, body, &child(p, 1)),
        TExprKind::SpecCall { original: _, specialized: _, args } => exprs_good_exec(log, n, rdeep, args, p),
        TExprKind::Tuple(elems) => exprs_good_exec(log, n, rdeep, elems, p),
        TExprKind::DictMethod { dict, method_name: _ } => refs_good_exec(log, n, rdeep, dict, &child(p, 0)),
        TExprKind::DictCall { func_name: _, dict_args, value_args } => exprs_good_exec(log, n, rdeep, dict_args, &child(p, 0))
            && exprs_good_exec(log, n, rdeep, value_args, &child(p, 1)),
        TExprKind::RecordUpdate { record, updates } => refs_good_exec(log, n, rdeep, record, &child(p, 0))
            && updates_good_exec(log, n, rdeep, updates, &child(p, 1)),
        TExprKind::OutgoingCallback { callee, arity: _ } => refs_good_exec(log, n, rdeep, callee, &child(p, 0)),
        TExprKind::FfiMaybeArg { value } => refs_good_exec(log, n, rdeep, value, &child(p, 0)),
    }
}

fn exprs_good_exec(log: &Vec<VisitRec>, n: &str, rdeep: &Demand, es: &Vec<TExpr>, p: &Vec<usize>) -> (r: bool)
    ensures
        r == refs_good_exprs(sites_add(Map::empty(), log_model(log@)), n@, rdeep@, es@, p@),
    decreases es,
{
    let ghost s = sites_add(Map::empty(), log_model(log@));
    let mut i: usize = 0;
    assert(es@.take(0).len() == 0);
    while i < es.len()
        invariant
            s == sites_add(Map::empty(), log_model(log@)),
            i <= es@.len(),
            refs_good_exprs(s, n@, rdeep@, es@.take(i as int), p@),
        decreases es@.len() - i,
    {
        assert(decreases_to!(es => es@[i as int]));
        let ghost t = es@.take(i as int + 1);
        assert(t.drop_last() =~= es@.take(i as int));
        assert(t.last() == es@[i as int]);
        if !refs_good_exec(log, n, rdeep, &es[i], &child(p, i)) {
            proof {
                if refs_good_exprs(s, n@, rdeep@, es@, p@) {
                    lemma_exprs_prefix(s, n@, rdeep@, es@, p@, i as int + 1);
                }
            }
            return false;
        }
        i = i + 1;
    }
    assert(es@.take(es@.len() as int) =~= es@);
    true
}

proof fn lemma_exprs_prefix(s: SiteMap, n: Seq<char>, rdeep: DM, es: Seq<TExpr>, p: Seq<usize>, k: int)
    requires
        0 <= k <= es.len(),
        refs_good_exprs(s, n, rdeep, es, p),
    ensures
        refs_good_exprs(s, n, rdeep, es.take(k), p),
    decreases es.len(),
{
    if k < es.len() {
        lemma_exprs_prefix(s, n, rdeep, es.drop_last(), p, k);
        assert(es.drop_last().take(k) =~= es.take(k));
    } else {
        assert(es.take(k) =~= es);
    }
}

fn guards_good_exec(log: &Vec<VisitRec>, n: &str, rdeep: &Demand, gs: &Vec<TGuard>, p: &Vec<usize>) -> (r: bool)
    ensures
        r == refs_good_guards(sites_add(Map::empty(), log_model(log@)), n@, rdeep@, gs@, p@),
    decreases gs,
{
    let ghost s = sites_add(Map::empty(), log_model(log@));
    let mut ok = true;
    let mut i: usize = 0;
    assert(gs@.take(0).len() == 0);
    while i < gs.len()
        invariant
            s == sites_add(Map::empty(), log_model(log@)),
            i <= gs@.len(),
            ok == refs_good_guards(s, n@, rdeep@, gs@.take(i as int), p@),
        decreases gs@.len() - i,
    {
        assert(decreases_to!(gs => gs@[i as int]));
        let ghost t = gs@.take(i as int + 1);
        assert(t.drop_last() =~= gs@.take(i as int));
        assert(t.last() == gs@[i as int]);
        let q = child(p, i);
        let c = refs_good_exec(log, n, rdeep, &gs[i].condition, &child(&q, 0));
        let b = refs_good_exec(log, n, rdeep, &gs[i].body, &child(&q, 1));
        ok = ok && c && b;
        i = i + 1;
    }
    assert(gs@.take(gs@.len() as int) =~= gs@);
    ok
}

fn branches_good_exec(log: &Vec<VisitRec>, n: &str, rdeep: &Demand, bs: &Vec<TCaseBranch>, p: &Vec<usize>) -> (r: bool)
    ensures
        r == refs_good_branches(sites_add(Map::empty(), log_model(log@)), n@, rdeep@, bs@, p@),
    decreases bs,
{
    let ghost s = sites_add(Map::empty(), log_model(log@));
    let mut ok = true;
    let mut i: usize = 0;
    assert(bs@.take(0).len() == 0);
    while i < bs.len()
        invariant
            s == sites_add(Map::empty(), log_model(log@)),
            i <= bs@.len(),
            ok == refs_good_branches(s, n@, rdeep@, bs@.take(i as int), p@),
        decreases bs@.len() - i,
    {
        assert(decreases_to!(bs => bs@[i as int]));
        let ghost t = bs@.take(i as int + 1);
        assert(t.drop_last() =~= bs@.take(i as int));
        assert(t.last() == bs@[i as int]);
        let q = child(p, i);
        let g = guards_good_exec(log, n, rdeep, &bs[i].guards, &child(&q, 0));
        let b = refs_good_exec(log, n, rdeep, &bs[i].body, &child(&q, 1));
        ok = ok && g && b;
        i = i + 1;
    }
    assert(bs@.take(bs@.len() as int) =~= bs@);
    ok
}

fn binds_good_exec(log: &Vec<VisitRec>, n: &str, rdeep: &Demand, bs: &Vec<TLocalDef>, p: &Vec<usize>) -> (r: bool)
    ensures
        r == refs_good_binds(sites_add(Map::empty(), log_model(log@)), n@, rdeep@, bs@, p@),
    decreases bs,
{
    let ghost s = sites_add(Map::empty(), log_model(log@));
    let mut ok = true;
    let mut i: usize = 0;
    assert(bs@.take(0).len() == 0);
    while i < bs.len()
        invariant
            s == sites_add(Map::empty(), log_model(log@)),
            i <= bs@.len(),
            ok == refs_good_binds(s, n@, rdeep@, bs@.take(i as int), p@),
        decreases bs@.len() - i,
    {
        assert(decreases_to!(bs => bs@[i as int]));
        let ghost t = bs@.take(i as int + 1);
        assert(t.drop_last() =~= bs@.take(i as int));
        assert(t.last() == bs@[i as int]);
        let b = refs_good_exec(log, n, rdeep, &bs[i].body, &child(p, i));
        ok = ok && b;
        i = i + 1;
    }
    assert(bs@.take(bs@.len() as int) =~= bs@);
    ok
}

fn updates_good_exec(log: &Vec<VisitRec>, n: &str, rdeep: &Demand, us: &Vec<(String, usize, TExpr)>, p: &Vec<usize>) -> (r: bool)
    ensures
        r == refs_good_updates(sites_add(Map::empty(), log_model(log@)), n@, rdeep@, us@, p@),
    decreases us,
{
    let ghost s = sites_add(Map::empty(), log_model(log@));
    let mut ok = true;
    let mut i: usize = 0;
    assert(us@.take(0).len() == 0);
    while i < us.len()
        invariant
            s == sites_add(Map::empty(), log_model(log@)),
            i <= us@.len(),
            ok == refs_good_updates(s, n@, rdeep@, us@.take(i as int), p@),
        decreases us@.len() - i,
    {
        assert(decreases_to!(us => us@[i as int]));
        let ghost t = us@.take(i as int + 1);
        assert(t.drop_last() =~= us@.take(i as int));
        assert(t.last() == us@[i as int]);
        let b = refs_good_exec(log, n, rdeep, &us[i].2, &child(p, i));
        ok = ok && b;
        i = i + 1;
    }
    assert(us@.take(us@.len() as int) =~= us@);
    ok
}

/// Does `e` name `n` in a specialized or dictionary call?
fn poisons_exec(n: &str, e: &TExpr) -> (r: bool)
    ensures
        r == poisons(n@, *e),
    decreases e,
{
    match &e.kind {
        TExprKind::Var(_) | TExprKind::Con(_) | TExprKind::Lit(_) | TExprKind::OpFunc(_) | TExprKind::DictAccess { .. } => false,
        TExprKind::App(f, a) => poisons_exec(n, f) || poisons_exec(n, a),
        TExprKind::InfixApp { op: _, lhs, rhs } => poisons_exec(n, lhs) || poisons_exec(n, rhs),
        TExprKind::Negate(x) => poisons_exec(n, x),
        TExprKind::Paren(x) => poisons_exec(n, x),
        TExprKind::Lambda { params: _, body } => poisons_exec(n, body),
        TExprKind::If { cond, then_branch, else_branch } => poisons_exec(n, cond) || poisons_exec(n, then_branch)
            || poisons_exec(n, else_branch),
        TExprKind::Case { scrutinee, branches } => poisons_exec(n, scrutinee) || poisons_branches_exec(n, branches),
        TExprKind::Let { binds, body } => poisons_binds_exec(n, binds) || poisons_exec(n, body),
        TExprKind::SpecCall { original, specialized, args } => {
            let mut names = NameSet::new();
            crate::dce::collect_spec_kind(specialized, &mut names);
            str_eq(original.as_str(), n) || names.contains(n) || poisons_exprs_exec(n, args)
        },
        TExprKind::Tuple(elems) => poisons_exprs_exec(n, elems),
        TExprKind::DictMethod { dict, method_name: _ } => poisons_exec(n, dict),
        TExprKind::DictCall { func_name, dict_args, value_args } => str_eq(func_name.as_str(), n)
            || poisons_exprs_exec(n, dict_args) || poisons_exprs_exec(n, value_args),
        TExprKind::RecordUpdate { record, updates } => poisons_exec(n, record) || poisons_updates_exec(n, updates),
        TExprKind::OutgoingCallback { callee, arity: _ } => poisons_exec(n, callee),
        TExprKind::FfiMaybeArg { value } => poisons_exec(n, value),
    }
}

fn poisons_exprs_exec(n: &str, es: &Vec<TExpr>) -> (r: bool)
    ensures
        r == poisons_exprs(n@, es@),
    decreases es,
{
    let mut r = false;
    let mut i: usize = 0;
    assert(es@.take(0).len() == 0);
    while i < es.len()
        invariant
            i <= es@.len(),
            r == poisons_exprs(n@, es@.take(i as int)),
        decreases es@.len() - i,
    {
        assert(decreases_to!(es => es@[i as int]));
        assert(es@.take(i as int + 1).drop_last() =~= es@.take(i as int));
        let x = poisons_exec(n, &es[i]);
        r = r || x;
        i = i + 1;
    }
    assert(es@.take(es@.len() as int) =~= es@);
    r
}

fn poisons_guards_exec(n: &str, gs: &Vec<TGuard>) -> (r: bool)
    ensures
        r == poisons_guards(n@, gs@),
    decreases gs,
{
    let mut r = false;
    let mut i: usize = 0;
    assert(gs@.take(0).len() == 0);
    while i < gs.len()
        invariant
            i <= gs@.len(),
            r == poisons_guards(n@, gs@.take(i as int)),
        decreases gs@.len() - i,
    {
        assert(decreases_to!(gs => gs@[i as int]));
        assert(gs@.take(i as int + 1).drop_last() =~= gs@.take(i as int));
        let c = poisons_exec(n, &gs[i].condition);
        let b = poisons_exec(n, &gs[i].body);
        r = r || c || b;
        i = i + 1;
    }
    assert(gs@.take(gs@.len() as int) =~= gs@);
    r
}

fn poisons_branches_exec(n: &str, bs: &Vec<TCaseBranch>) -> (r: bool)
    ensures
        r == poisons_branches(n@, bs@),
    decreases bs,
{
    let mut r = false;
    let mut i: usize = 0;
    assert(bs@.take(0).len() == 0);
    while i < bs.len()
        invariant
            i <= bs@.len(),
            r == poisons_branches(n@, bs@.take(i as int)),
        decreases bs@.len() - i,
    {
        assert(decreases_to!(bs => bs@[i as int]));
        assert(bs@.take(i as int + 1).drop_last() =~= bs@.take(i as int));
        let g = poisons_guards_exec(n, &bs[i].guards);
        let b = poisons_exec(n, &bs[i].body);
        r = r || g || b;
        i = i + 1;
    }
    assert(bs@.take(bs@.len() as int) =~= bs@);
    r
}

fn poisons_binds_exec(n: &str, bs: &Vec<TLocalDef>) -> (r: bool)
    ensures
        r == poisons_binds(n@, bs@),
    decreases bs,
{
    let mut r = false;
    let mut i: usize = 0;
    assert(bs@.take(0).len() == 0);
    while i < bs.len()
        invariant
            i <= bs@.len(),
            r == poisons_binds(n@, bs@.take(i as int)),
        decreases bs@.len() - i,
    {
        assert(decreases_to!(bs => bs@[i as int]));
        assert(bs@.take(i as int + 1).drop_last() =~= bs@.take(i as int));
        let b = poisons_exec(n, &bs[i].body);
        r = r || b;
        i = i + 1;
    }
    assert(bs@.take(bs@.len() as int) =~= bs@);
    r
}

fn poisons_updates_exec(n: &str, us: &Vec<(String, usize, TExpr)>) -> (r: bool)
    ensures
        r == poisons_updates(n@, us@),
    decreases us,
{
    let mut r = false;
    let mut i: usize = 0;
    assert(us@.take(0).len() == 0);
    while i < us.len()
        invariant
            i <= us@.len(),
            r == poisons_updates(n@, us@.take(i as int)),
        decreases us@.len() - i,
    {
        assert(decreases_to!(us => us@[i as int]));
        assert(us@.take(i as int + 1).drop_last() =~= us@.take(i as int));
        let b = poisons_exec(n, &us[i].2);
        r = r || b;
        i = i + 1;
    }
    assert(us@.take(us@.len() as int) =~= us@);
    r
}

fn arity_table(m: &TModule, g: &Vec<(String, Vec<usize>)>) -> (r: Vec<(String, usize)>)
    requires
        groups_ok(g@, all_fns(*m).len()),
    ensures
        arity_entries(r@) == arity_map(ngroups_model(g@, all_fns(*m))),
{
    let ghost fs = all_fns(*m);
    let ghost gm = ngroups_model(g@, fs);
    let mut out: Vec<(String, usize)> = Vec::new();
    let mut k: usize = 0;
    assert(gm.take(0).len() == 0);
    while k < g.len()
        invariant
            k <= g@.len(),
            fs == all_fns(*m),
            gm == ngroups_model(g@, fs),
            groups_ok(g@, fs.len()),
            out@.len() == k,
            arity_entries(out@) == arity_map(gm.take(k as int)),
        decreases g@.len() - k,
    {
        proof {
            crate::modrows::lemma_group_at(g@, fs, k as int);
        }
        let ghost t = gm.take(k as int + 1);
        assert(t.drop_last() =~= gm.take(k as int));
        assert(t.last() == gm[k as int]);
        let cs = crate::modrows::group_clause_refs(m, &g[k].1);
        let a = crate::modrows::max_arity_exec(&cs);
        let ghost o0 = out@;
        out.push((g[k].0.clone(), a));
        assert(out@.drop_last() =~= o0);
        k = k + 1;
    }
    assert(gm.take(g@.len() as int) =~= gm);
    out
}

fn where_fns_walk(cx: &RowCx, ar: &Vec<(String, usize)>, bs: &Vec<TLocalDef>, p: &Vec<usize>, log: &mut Vec<VisitRec>)
    requires
        cx.rows.wf(),
    ensures
        log_model(final(log)@) == log_model(old(log)@) + where_fn_vis(cx_model(*cx), arity_entries(ar@), bs@, p@),
{
    let ghost c = cx_model(*cx);
    let ghost a = arity_entries(ar@);
    let ghost l0 = log_model(log@);
    let mut i: usize = 0;
    assert(bs@.take(0) =~= Seq::<TLocalDef>::empty());
    assert(l0 + Seq::<Visit>::empty() =~= l0);
    while i < bs.len()
        invariant
            cx.rows.wf(),
            c == cx_model(*cx),
            a == arity_entries(ar@),
            i <= bs@.len(),
            log_model(log@) == l0 + where_fn_vis(c, a, bs@.take(i as int), p@),
        decreases bs@.len() - i,
    {
        let ghost t = bs@.take(i as int + 1);
        assert(t.drop_last() =~= bs@.take(i as int));
        assert(t.last() == bs@[i as int]);
        let ghost before = log_model(log@);
        if bs[i].patterns.len() > 0 {
            vis_exec(cx, ar, &bs[i].body, &Demand::Head, true, &child(p, i), log);
        } else {
            assert(before + Seq::<Visit>::empty() =~= before);
        }
        assert(log_model(log@) =~= l0 + where_fn_vis(c, a, t, p@));
        i = i + 1;
    }
    assert(bs@.take(bs@.len() as int) =~= bs@);
}

fn clause_walk(rows: &Rows, ar: &Vec<(String, usize)>, c: &TClause, rd: &Demand, p: &Vec<usize>, log: &mut Vec<VisitRec>)
    requires
        rows.wf(),
    ensures
        log_model(final(log)@) == log_model(old(log)@) + clause_vis(rows.model(), arity_entries(ar@), *c, rd@, p@),
{
    let ghost a = arity_entries(ar@);
    let ghost l0 = log_model(log@);
    let inl = NameSet::new();
    let locals = local_fn_rows(rows, &inl, &c.where_binds);
    let cx = RowCx { rows, locals: &locals, inlined: &inl };
    let ghost k = cx_model(cx);
    assert(k == clause_cx(rows.model(), *c));
    let m0 = if c.guards.len() == 0 {
        vis_exec(&cx, ar, &c.body, rd, true, &child(p, 0), log);
        dx_exec(&cx, &c.body, rd, true)
    } else {
        vis_guards_exec(&cx, ar, &c.guards, 0, rd, true, &child(p, 1), log);
        guards_dem_exec(&cx, &c.guards, rd, true)
    };
    let ghost l1 = log_model(log@);
    let ghost pre = m0@;
    assert(pre == clause_pre_map(k, *c, rd@));
    let q = child(p, 2);
    vis_close_exec(&cx, ar, &c.where_binds, m0, &q, log);
    let ghost l2 = log_model(log@);
    where_fns_walk(&cx, ar, &c.where_binds, &q, log);
    assert(log_model(log@) =~= l0 + clause_vis(rows.model(), a, *c, rd@, p@));
}

fn pair_path(i: usize, j: usize) -> (r: Vec<usize>)
    ensures
        r@ == seq![i].push(j),
{
    let mut r: Vec<usize> = Vec::new();
    r.push(i);
    r.push(j);
    assert(r@ =~= seq![i].push(j));
    r
}

/// The visit log of one round's walk with candidates `d`.
fn walk_module(m: &TModule, rows: &Rows, ar: &Vec<(String, usize)>, d: &NameSet) -> (r: Vec<VisitRec>)
    requires
        rows.wf(),
        all_fns(*m).len() <= usize::MAX,
    ensures
        log_model(r@) == fns_vis(rows.model(), arity_entries(ar@), d@, all_fns(*m)),
{
    let ghost fs = all_fns(*m);
    let ghost a = arity_entries(ar@);
    let mut log: Vec<VisitRec> = Vec::new();
    let n = m.functions.len() + m.instance_fns.len();
    let mut i: usize = 0;
    assert(fs.take(0).len() == 0);
    assert(log_model(log@) =~= Seq::<Visit>::empty());
    while i < n
        invariant
            rows.wf(),
            fs == all_fns(*m),
            a == arity_entries(ar@),
            n == fs.len(),
            i <= n,
            log_model(log@) == fns_vis(rows.model(), a, d@, fs.take(i as int)),
        decreases n - i,
    {
        let ghost t = fs.take(i as int + 1);
        assert(t.drop_last() =~= fs.take(i as int));
        assert(t.last() == fs[i as int]);
        let f = crate::strict_params::fn_at(m, i);
        let rd = if d.contains(f.name.as_str()) {
            match rows.result_deep_of(f.name.as_str()) {
                Some(x) => x.copy(),
                None => Demand::Head,
            }
        } else {
            Demand::Head
        };
        assert(rd@ == result_dm(rows.model(), d@, f.name@));
        let ghost l0 = log_model(log@);
        let ghost cs = f.clauses@;
        let mut ci: usize = 0;
        assert(cs.take(0).len() == 0);
        assert(l0 + Seq::<Visit>::empty() =~= l0);
        while ci < f.clauses.len()
            invariant
                rows.wf(),
                a == arity_entries(ar@),
                cs == f.clauses@,
                ci <= cs.len(),
                log_model(log@) == l0 + clauses_vis(rows.model(), a, cs.take(ci as int), rd@, seq![i]),
            decreases cs.len() - ci,
        {
            let ghost tc = cs.take(ci as int + 1);
            assert(tc.drop_last() =~= cs.take(ci as int));
            assert(tc.last() == cs[ci as int]);
            clause_walk(rows, ar, &f.clauses[ci], &rd, &pair_path(i, ci), &mut log);
            assert(log_model(log@) =~= l0 + clauses_vis(rows.model(), a, tc, rd@, seq![i]));
            ci = ci + 1;
        }
        assert(cs.take(cs.len() as int) =~= cs);
        i = i + 1;
    }
    assert(fs.take(n as int) =~= fs);
    log
}

fn clause_refs_good_exec(log: &Vec<VisitRec>, n: &str, rdeep: &Demand, c: &TClause, p: &Vec<usize>) -> (r: bool)
    ensures
        r == clause_refs_good(sites_add(Map::empty(), log_model(log@)), n@, rdeep@, *c, p@),
{
    refs_good_exec(log, n, rdeep, &c.body, &child(p, 0)) && guards_good_exec(log, n, rdeep, &c.guards, &child(p, 1))
        && binds_good_exec(log, n, rdeep, &c.where_binds, &child(p, 2))
}

/// Every reference to `n` in the module is a good logged site.
fn fns_refs_good_exec(m: &TModule, log: &Vec<VisitRec>, n: &str, rdeep: &Demand) -> (r: bool)
    requires
        all_fns(*m).len() <= usize::MAX,
    ensures
        r == fns_refs_good(sites_add(Map::empty(), log_model(log@)), n@, rdeep@, all_fns(*m)),
{
    let ghost fs = all_fns(*m);
    let ghost s = sites_add(Map::empty(), log_model(log@));
    let total = m.functions.len() + m.instance_fns.len();
    let mut ok = true;
    let mut i: usize = 0;
    assert(fs.take(0).len() == 0);
    while i < total
        invariant
            fs == all_fns(*m),
            s == sites_add(Map::empty(), log_model(log@)),
            total == fs.len(),
            i <= total,
            ok == fns_refs_good(s, n@, rdeep@, fs.take(i as int)),
        decreases total - i,
    {
        let ghost t = fs.take(i as int + 1);
        assert(t.drop_last() =~= fs.take(i as int));
        assert(t.last() == fs[i as int]);
        let f = crate::strict_params::fn_at(m, i);
        let ghost cs = f.clauses@;
        let mut cok = true;
        let mut ci: usize = 0;
        assert(cs.take(0).len() == 0);
        while ci < f.clauses.len()
            invariant
                s == sites_add(Map::empty(), log_model(log@)),
                cs == f.clauses@,
                ci <= cs.len(),
                cok == clauses_refs_good(s, n@, rdeep@, cs.take(ci as int), seq![i]),
            decreases cs.len() - ci,
        {
            let ghost tc = cs.take(ci as int + 1);
            assert(tc.drop_last() =~= cs.take(ci as int));
            assert(tc.last() == cs[ci as int]);
            let g = clause_refs_good_exec(log, n, rdeep, &f.clauses[ci], &pair_path(i, ci));
            cok = cok && g;
            ci = ci + 1;
        }
        assert(cs.take(cs.len() as int) =~= cs);
        ok = ok && cok;
        i = i + 1;
    }
    assert(fs.take(total as int) =~= fs);
    ok
}

/// Does some function name `n` in a specialized or dictionary call?
fn fns_poison_exec(m: &TModule, n: &str) -> (r: bool)
    requires
        all_fns(*m).len() <= usize::MAX,
    ensures
        r == fns_poison(n@, all_fns(*m)),
{
    let ghost fs = all_fns(*m);
    let total = m.functions.len() + m.instance_fns.len();
    let mut bad = false;
    let mut i: usize = 0;
    assert(fs.take(0).len() == 0);
    while i < total
        invariant
            fs == all_fns(*m),
            total == fs.len(),
            i <= total,
            bad == fns_poison(n@, fs.take(i as int)),
        decreases total - i,
    {
        let ghost t = fs.take(i as int + 1);
        assert(t.drop_last() =~= fs.take(i as int));
        assert(t.last() == fs[i as int]);
        let f = crate::strict_params::fn_at(m, i);
        let ghost cs = f.clauses@;
        let mut cbad = false;
        let mut ci: usize = 0;
        assert(cs.take(0).len() == 0);
        while ci < f.clauses.len()
            invariant
                cs == f.clauses@,
                ci <= cs.len(),
                cbad == clauses_poison(n@, cs.take(ci as int)),
            decreases cs.len() - ci,
        {
            let ghost tc = cs.take(ci as int + 1);
            assert(tc.drop_last() =~= cs.take(ci as int));
            assert(tc.last() == cs[ci as int]);
            let c = &f.clauses[ci];
            let x = poisons_exec(n, &c.body) || poisons_guards_exec(n, &c.guards) || poisons_binds_exec(n, &c.where_binds);
            cbad = cbad || x;
            ci = ci + 1;
        }
        assert(cs.take(cs.len() as int) =~= cs);
        bad = bad || cbad;
        i = i + 1;
    }
    assert(fs.take(total as int) =~= fs);
    bad
}

/// One round: the candidates that stay, and whether any was dropped.
fn deep_step_exec(m: &TModule, rows: &Rows, ar: &Vec<(String, usize)>, d: &NameSet) -> (r: (NameSet, bool))
    requires
        rows.wf(),
        all_fns(*m).len() <= usize::MAX,
        arity_entries(ar@) == module_arities(*m),
    ensures
        r.0@ == deep_step(*m, rows.model(), d@),
        r.1 == (r.0@ != d@),
{
    let ghost rm = rows.model();
    let log = walk_module(m, rows, ar, d);
    let ghost s = sites_add(Map::empty(), log_model(log@));
    assert(s == module_sites(*m, rm, d@));
    let names = d.to_vec();
    let mut next = NameSet::new();
    let mut dropped = false;
    let mut i: usize = 0;
    while i < names.len()
        invariant
            rows.wf(),
            rm == rows.model(),
            all_fns(*m).len() <= usize::MAX,
            arity_entries(ar@) == module_arities(*m),
            s == sites_add(Map::empty(), log_model(log@)),
            i <= names@.len(),
            next@ == Set::new(|k: Seq<char>| (exists|j: int| 0 <= j < i && #[trigger] names@[j]@ == k) && deep_keep(*m, rm, s, k)),
            dropped == exists|j: int| 0 <= j < i && !deep_keep(*m, rm, s, #[trigger] names@[j]@),
        decreases names@.len() - i,
    {
        let name = names[i].as_str();
        let keep = match rows.result_deep_of(name) {
            None => false,
            Some(rdeep) => match arity_get(ar, name) {
                None => true,
                Some(_) => fns_refs_good_exec(m, &log, name, rdeep),
            },
        };
        assert(keep == deep_keep(*m, rm, s, name@));
        let ghost n0 = next@;
        if keep {
            next.insert(name);
        } else {
            dropped = true;
        }
        proof {
            let s1 = Set::new(|k: Seq<char>| (exists|j: int| 0 <= j < i + 1 && #[trigger] names@[j]@ == k) && deep_keep(*m, rm, s, k));
            assert forall|k: Seq<char>| s1.contains(k) == next@.contains(k) by {
                if s1.contains(k) {
                    let j = choose|j: int| 0 <= j < i + 1 && #[trigger] names@[j]@ == k;
                    if j < i {
                        assert(n0.contains(k));
                    }
                }
                if n0.contains(k) {
                    let j = choose|j: int| 0 <= j < i && #[trigger] names@[j]@ == k;
                    assert(s1.contains(k));
                }
            }
            assert(next@ =~= s1);
            if !keep {
                assert(!deep_keep(*m, rm, s, names@[i as int]@));
            }
            if exists|j: int| 0 <= j < i + 1 && !deep_keep(*m, rm, s, #[trigger] names@[j]@) {
                let j = choose|j: int| 0 <= j < i + 1 && !deep_keep(*m, rm, s, #[trigger] names@[j]@);
                if j < i {
                    assert(dropped);
                }
            }
        }
        i = i + 1;
    }
    proof {
        let f = d@.filter(|n: Seq<char>| deep_keep(*m, rm, s, n));
        assert forall|k: Seq<char>| next@.contains(k) == f.contains(k) by {
            if d@.contains(k) {
                let j = choose|j: int| 0 <= j < names@.len() && #[trigger] names@[j]@ == k;
            }
        }
        assert(next@ =~= f);
        if dropped {
            let j = choose|j: int| 0 <= j < names@.len() && !deep_keep(*m, rm, s, #[trigger] names@[j]@);
            assert(d@.contains(names@[j]@));
            assert(!next@.contains(names@[j]@));
        } else {
            assert forall|k: Seq<char>| d@.contains(k) implies next@.contains(k) by {
                let j = choose|j: int| 0 <= j < names@.len() && #[trigger] names@[j]@ == k;
                assert(deep_keep(*m, rm, s, names@[j]@));
            }
            assert(next@ =~= d@);
        }
    }
    (next, dropped)
}

/// The whole-program deep-result set of `module` under `rows`: the
/// functions with a deep result demand, named by no specialized or
/// dictionary call, whose every reference is a saturated call whose result
/// receives that demand, where each function is walked under its deep
/// demand exactly when it belongs to the set.
pub fn deep_result_set(module: &TModule, rows: &Rows) -> (r: NameSet)
    requires
        rows.wf(),
        all_fns(*module).len() <= usize::MAX,
    ensures
        r@ == deep_result_gfp(*module, rows.model()),
{
    let ghost rm = rows.model();
    let g = crate::strict_params::name_groups_exec(module);
    let ar = arity_table(module, &g);
    proof {
        let fs = all_fns(*module);
        assert forall|k: int, j: int| 0 <= k < g@.len() && 0 <= j < g@[k].1@.len() implies #[trigger] g@[k].1@[j] < fs.len() by {
            assert(crate::strict_params::nindices_ok(g@, fs.len()));
        }
    }
    assert(arity_entries(ar@) == module_arities(*module));
    // the candidates
    let keys = rows.result_deep_names().to_vec();
    let mut d = NameSet::new();
    let mut i: usize = 0;
    while i < keys.len()
        invariant
            all_fns(*module).len() <= usize::MAX,
            arity_entries(ar@) == module_arities(*module),
            i <= keys@.len(),
            d@ == Set::new(|k: Seq<char>| (exists|j: int| 0 <= j < i && #[trigger] keys@[j]@ == k)
                && !(module_arities(*module).contains_key(k) && fns_poison(k, all_fns(*module)))),
        decreases keys@.len() - i,
    {
        let name = keys[i].as_str();
        let bad = match arity_get(&ar, name) {
            Some(_) => fns_poison_exec(module, name),
            None => false,
        };
        let ghost d0 = d@;
        if !bad {
            d.insert(name);
        }
        proof {
            let s1 = Set::new(|k: Seq<char>| (exists|j: int| 0 <= j < i + 1 && #[trigger] keys@[j]@ == k)
                && !(module_arities(*module).contains_key(k) && fns_poison(k, all_fns(*module))));
            assert forall|k: Seq<char>| s1.contains(k) == d@.contains(k) by {
                if s1.contains(k) {
                    let j = choose|j: int| 0 <= j < i + 1 && #[trigger] keys@[j]@ == k;
                    if j < i {
                        assert(d0.contains(k));
                    }
                }
                if d0.contains(k) {
                    let j = choose|j: int| 0 <= j < i && #[trigger] keys@[j]@ == k;
                    assert(s1.contains(k));
                }
            }
            assert(d@ =~= s1);
        }
        i = i + 1;
    }
    proof {
        let sd = deep_seed(*module, rm);
        assert forall|k: Seq<char>| d@.contains(k) == sd.contains(k) by {
            if rm.2.dom().contains(k) {
                let j = choose|j: int| 0 <= j < keys@.len() && #[trigger] keys@[j]@ == k;
            }
        }
        assert(d@ =~= sd);
    }
    // the rounds
    let ghost s0 = d@;
    let mut left: u64 = DEEP_ROUNDS;
    loop
        invariant_except_break
            deep_fix(*module, rm, s0, DEEP_ROUNDS as nat) == deep_fix(*module, rm, d@, left as nat),
        invariant
            rows.wf(),
            rm == rows.model(),
            all_fns(*module).len() <= usize::MAX,
            arity_entries(ar@) == module_arities(*module),
        ensures
            deep_fix(*module, rm, s0, DEEP_ROUNDS as nat) == d@,
        decreases left,
    {
        if left == 0 {
            break;
        }
        let members = d.to_vec();
        if members.len() == 0 {
            assert(d@ =~= Set::<Seq<char>>::empty());
            break;
        }
        assert(d@.contains(members@[0]@));
        let (next, dropped) = deep_step_exec(module, rows, &ar, &d);
        if !dropped {
            break;
        }
        d = next;
        left = left - 1;
    }
    d
}

} // verus!
