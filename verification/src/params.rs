//! Parameter strictness: which parameters of a function (or of a
//! clause's where-bound local function) are forced whenever its result is
//! forced to WHNF.
//!
//! A clause's row marks a parameter strict when its pattern forces it
//! (constructor, literal or tuple patterns dispatch on it) or when the
//! clause's demand — the body's, or the guard chain's — contains its
//! name. Every intermediate demand set is first closed over the clause's
//! where-bound values: a demanded value binding is forced, so whatever its
//! right-hand side demands is demanded too. Names the where-bindings bind
//! never count as parameters.
//!
//! Rows are found as greatest fixed points: every parameter starts strict
//! and a row only keeps a position that the analysis under the current
//! rows confirms, so recursive accumulators are recognised. The captured
//! sets of where-bound local functions (outer variables a local forces on
//! every path) are least fixed points, grown from empty.

use vstd::prelude::*;
use crate::tir::{TPattern, TExpr, TExprKind, TGuard, TLocalDef, TClause};
use crate::demand::NameSet;
use crate::demanded::{demanded, is_otherwise, bind_names, pats_vars, vars, cap_union, StrictEnv, CapturedEnv, demanded_in, otherwise_cond};

verus! {

broadcast use vstd::string::group_string_axioms;

// ---------------------------------------------------------------------
// One clause
// ---------------------------------------------------------------------

/// The parameter a pattern names directly (`x` or `(x)`).
pub open spec fn pat_param(p: TPattern) -> Option<Seq<char>> {
    match p {
        TPattern::Var(n, _) => Some(n@),
        TPattern::Paren(inner) => match *inner {
            TPattern::Var(n, _) => Some(n@),
            _ => None,
        },
        _ => None,
    }
}

/// Does matching the pattern force the argument?
pub open spec fn pat_forces(p: TPattern) -> bool {
    match p {
        TPattern::Var(_, _) => false,
        TPattern::Wildcard => false,
        TPattern::Paren(inner) => match *inner {
            TPattern::Var(_, _) => false,
            _ => true,
        },
        _ => true,
    }
}

/// `t` is closed over the where-bound values: a value binding whose name
/// is in `t` has its right-hand side's demand in `t`.
pub open spec fn wv_closed(t: Set<Seq<char>>, wbs: Seq<TLocalDef>, env: Map<Seq<char>, Seq<bool>>, cap: Map<Seq<char>, (nat, Set<Seq<char>>)>) -> bool {
    forall|i: int| 0 <= i < wbs.len() && (#[trigger] wbs[i]).patterns@.len() == 0 && t.contains(wbs[i].name@)
        ==> demanded(wbs[i].body, env, cap).subset_of(t)
}

/// The least superset of `s` closed over the where-bound values.
pub open spec fn wv_close(s: Set<Seq<char>>, wbs: Seq<TLocalDef>, env: Map<Seq<char>, Seq<bool>>, cap: Map<Seq<char>, (nat, Set<Seq<char>>)>) -> Set<Seq<char>> {
    Set::new(|x: Seq<char>| forall|t: Set<Seq<char>>| s.subset_of(t) && wv_closed(t, wbs, env, cap) ==> #[trigger] t.contains(x))
}

/// The guard-chain rule with every per-guard demand closed first.
pub open spec fn cguard(gs: Seq<TGuard>, wbs: Seq<TLocalDef>, env: Map<Seq<char>, Seq<bool>>, cap: Map<Seq<char>, (nat, Set<Seq<char>>)>) -> Set<Seq<char>>
    decreases gs.len(),
{
    if gs.len() == 0 {
        Set::empty()
    } else if is_otherwise(gs[0].condition) {
        wv_close(demanded(gs[0].body, env, cap), wbs, env, cap)
    } else {
        wv_close(demanded(gs[0].condition, env, cap), wbs, env, cap)
            + wv_close(demanded(gs[0].body, env, cap), wbs, env, cap).intersect(cguard(gs.drop_first(), wbs, env, cap))
    }
}

/// What a clause demands, where-bound names removed.
pub open spec fn clause_dem(c: TClause, env: Map<Seq<char>, Seq<bool>>, cap: Map<Seq<char>, (nat, Set<Seq<char>>)>) -> Set<Seq<char>> {
    (if c.guards@.len() == 0 {
        wv_close(demanded(c.body, env, cap), c.where_binds@, env, cap)
    } else {
        cguard(c.guards@, c.where_binds@, env, cap)
    }).difference(bind_names(c.where_binds@))
}

/// A clause's strictness row of length `arity`, given the rows and
/// captured sets in scope.
pub open spec fn clause_row_in(c: TClause, arity: nat, env: Map<Seq<char>, Seq<bool>>, cap: Map<Seq<char>, (nat, Set<Seq<char>>)>) -> Seq<bool> {
    Seq::new(arity, |i: int| i < c.patterns@.len() && (pat_forces(c.patterns@[i]) || match pat_param(c.patterns@[i]) {
        Some(n) => clause_dem(c, env, cap).contains(n),
        None => false,
    }))
}

pub open spec fn count_true(s: Seq<bool>) -> nat
    decreases s.len(),
{
    if s.len() == 0 {
        0
    } else {
        count_true(s.drop_last()) + if s.last() { 1nat } else { 0nat }
    }
}

pub(crate) proof fn lemma_count_true_bound(s: Seq<bool>)
    ensures
        count_true(s) <= s.len(),
    decreases s.len(),
{
    if s.len() > 0 {
        lemma_count_true_bound(s.drop_last());
    }
}

proof fn lemma_count_true_set(s: Seq<bool>, i: int)
    requires
        0 <= i < s.len(),
        !s[i],
    ensures
        count_true(s.update(i, true)) == count_true(s) + 1,
    decreases s.len(),
{
    let u = s.update(i, true);
    if i == s.len() - 1 {
        assert(u.drop_last() =~= s.drop_last());
    } else {
        lemma_count_true_set(s.drop_last(), i);
        assert(u.drop_last() =~= s.drop_last().update(i, true));
    }
}

// ---------------------------------------------------------------------
// One clause, computed
// ---------------------------------------------------------------------

/// Close `s` over the where-bound values.
pub(crate) fn close_in(s: NameSet, wbs: &Vec<TLocalDef>, env: &StrictEnv, cap: &CapturedEnv) -> (r: NameSet)
    ensures
        r@ == wv_close(s@, wbs@, env@, cap@),
{
    let ghost s0 = s@;
    let ghost e = env@;
    let ghost c = cap@;
    let mut cur = s;
    let mut active: Vec<bool> = Vec::new();
    let n = wbs.len();
    while active.len() < n
        invariant
            active@.len() <= n,
            forall|j: int| 0 <= j < active@.len() ==> !active@[j],
        decreases n - active@.len(),
    {
        active.push(false);
    }
    loop
        invariant
            n == wbs@.len(),
            active@.len() == n,
            s0.subset_of(cur@),
            forall|t: Set<Seq<char>>| s0.subset_of(t) && wv_closed(t, wbs@, e, c) ==> #[trigger] cur@.subset_of(t),
            forall|j: int| 0 <= j < n && #[trigger] active@[j] ==> wbs@[j].patterns@.len() == 0
                && demanded(wbs@[j].body, e, c).subset_of(cur@),
            e == env@,
            c == cap@,
            s0 == s@,
        decreases n - count_true(active@),
    {
        let ghost start = cur@;
        let ghost start_count = count_true(active@);
        proof {
            lemma_count_true_bound(active@);
        }
        let mut progress = false;
        let mut i: usize = 0;
        while i < n
            invariant
                n == wbs@.len(),
                active@.len() == n,
                i <= n,
                s0.subset_of(cur@),
                start.subset_of(cur@),
                forall|t: Set<Seq<char>>| s0.subset_of(t) && wv_closed(t, wbs@, e, c) ==> #[trigger] cur@.subset_of(t),
                forall|j: int| 0 <= j < n && #[trigger] active@[j] ==> wbs@[j].patterns@.len() == 0
                    && demanded(wbs@[j].body, e, c).subset_of(cur@),
                !progress ==> cur@ == start && count_true(active@) == start_count,
                progress ==> count_true(active@) > start_count,
                !progress ==> forall|j: int| 0 <= j < i && (#[trigger] wbs@[j]).patterns@.len() == 0
                    && cur@.contains(wbs@[j].name@) ==> active@[j],
                e == env@,
                c == cap@,
            decreases n - i,
        {
            if !active[i] && wbs[i].patterns.len() == 0 && cur.contains(wbs[i].name.as_str()) {
                let d = demanded_in(&wbs[i].body, env, cap);
                let ghost before = cur@;
                cur.union_with(&d);
                proof {
                    assert forall|t: Set<Seq<char>>| s0.subset_of(t) && wv_closed(t, wbs@, e, c) implies #[trigger] cur@.subset_of(t) by {
                        assert(before.subset_of(t));
                        assert(t.contains(wbs@[i as int].name@));
                        assert(demanded(wbs@[i as int].body, e, c).subset_of(t));
                    }
                    lemma_count_true_set(active@, i as int);
                }
                let ghost old_active = active@;
                active.set(i, true);
                proof {
                    assert forall|j: int| 0 <= j < n && #[trigger] active@[j] implies wbs@[j].patterns@.len() == 0
                        && demanded(wbs@[j].body, e, c).subset_of(cur@) by {
                        if j != i {
                            assert(old_active[j]);
                        }
                    }
                }
                progress = true;
            }
            i = i + 1;
        }
        if !progress {
            proof {
                assert(wv_closed(cur@, wbs@, e, c));
                let cl = wv_close(s0, wbs@, e, c);
                assert forall|x: Seq<char>| cur@.contains(x) <==> cl.contains(x) by {
                    if cur@.contains(x) {
                        assert forall|t: Set<Seq<char>>| s0.subset_of(t) && wv_closed(t, wbs@, e, c) implies #[trigger] t.contains(x) by {
                            assert(cur@.subset_of(t));
                        }
                    }
                    if cl.contains(x) {
                        assert(s0.subset_of(cur@) && wv_closed(cur@, wbs@, e, c) ==> cur@.contains(x));
                    }
                }
                assert(cur@ =~= cl);
            }
            return cur;
        }
        proof {
            lemma_count_true_bound(active@);
        }
    }
}

fn cguard_in(gs: &Vec<TGuard>, wbs: &Vec<TLocalDef>, env: &StrictEnv, cap: &CapturedEnv) -> (r: NameSet)
    ensures
        r@ == cguard(gs@, wbs@, env@, cap@),
{
    let mut acc = NameSet::new();
    let mut i: usize = gs.len();
    assert(gs@.skip(i as int) =~= Seq::<TGuard>::empty());
    while i > 0
        invariant
            i <= gs@.len(),
            acc@ == cguard(gs@.skip(i as int), wbs@, env@, cap@),
        decreases i,
    {
        i = i - 1;
        let g = &gs[i];
        assert(gs@.skip(i as int)[0] == gs@[i as int]);
        assert(gs@.skip(i as int).drop_first() =~= gs@.skip(i as int + 1));
        if otherwise_cond(&g.condition) {
            acc = close_in(demanded_in(&g.body, env, cap), wbs, env, cap);
        } else {
            let mut cd = close_in(demanded_in(&g.condition, env, cap), wbs, env, cap);
            let bd = close_in(demanded_in(&g.body, env, cap), wbs, env, cap);
            cd.union_with(&bd.intersect(&acc));
            acc = cd;
        }
    }
    assert(gs@.skip(0) =~= gs@);
    acc
}

/// What a clause demands, where-bound names removed.
fn clause_dem_in(c: &TClause, env: &StrictEnv, cap: &CapturedEnv) -> (r: NameSet)
    ensures
        r@ == clause_dem(*c, env@, cap@),
{
    let mut d = if c.guards.len() == 0 {
        close_in(demanded_in(&c.body, env, cap), &c.where_binds, env, cap)
    } else {
        cguard_in(&c.guards, &c.where_binds, env, cap)
    };
    let ghost d0 = d@;
    let mut i: usize = 0;
    while i < c.where_binds.len()
        invariant
            i <= c.where_binds@.len(),
            d@ == d0.difference(Set::new(|n: Seq<char>| exists|j: int| 0 <= j < i && #[trigger] c.where_binds@[j].name@ == n)),
        decreases c.where_binds@.len() - i,
    {
        let ghost before = d@;
        d.remove(c.where_binds[i].name.as_str());
        proof {
            let a = Set::new(|n: Seq<char>| exists|j: int| 0 <= j < i && #[trigger] c.where_binds@[j].name@ == n);
            let b = Set::new(|n: Seq<char>| exists|j: int| 0 <= j < i + 1 && #[trigger] c.where_binds@[j].name@ == n);
            assert forall|n: Seq<char>| b.contains(n) == (a.contains(n) || n == c.where_binds@[i as int].name@) by {
                if b.contains(n) {
                    let j = choose|j: int| 0 <= j < i + 1 && #[trigger] c.where_binds@[j].name@ == n;
                    if j < i {
                        assert(a.contains(n));
                    }
                }
            }
            assert(d@ =~= d0.difference(b));
        }
        i = i + 1;
    }
    assert(Set::new(|n: Seq<char>| exists|j: int| 0 <= j < c.where_binds@.len() && #[trigger] c.where_binds@[j].name@ == n)
        =~= bind_names(c.where_binds@));
    d
}

/// The row of one clause of arity `arity` under the given rows and
/// captured sets.
pub(crate) fn clause_row_in_exec(c: &TClause, arity: usize, env: &StrictEnv, cap: &CapturedEnv) -> (r: Vec<bool>)
    requires
        c.patterns@.len() <= arity,
    ensures
        r@ == clause_row_in(*c, arity as nat, env@, cap@),
{
    let dem = clause_dem_in(c, env, cap);
    let mut row: Vec<bool> = Vec::new();
    let mut i: usize = 0;
    while i < arity
        invariant
            i <= arity,
            c.patterns@.len() <= arity,
            dem@ == clause_dem(*c, env@, cap@),
            row@.len() == i,
            forall|j: int| 0 <= j < i ==> row@[j] == clause_row_in(*c, arity as nat, env@, cap@)[j],
        decreases arity - i,
    {
        let b = if i < c.patterns.len() {
            match &c.patterns[i] {
                TPattern::Var(n, _) => dem.contains(n.as_str()),
                TPattern::Wildcard => false,
                TPattern::Paren(inner) => match &**inner {
                    TPattern::Var(n, _) => dem.contains(n.as_str()),
                    _ => true,
                },
                _ => true,
            }
        } else {
            false
        };
        row.push(b);
        i = i + 1;
    }
    assert(row@ =~= clause_row_in(*c, arity as nat, env@, cap@));
    row
}

// ---------------------------------------------------------------------
// Where-bound local functions
// ---------------------------------------------------------------------

/// The where-bound function equations grouped by consecutive name (value
/// bindings skipped).
pub open spec fn fn_groups(wbs: Seq<TLocalDef>) -> Seq<(Seq<char>, Seq<TLocalDef>)>
    decreases wbs.len(),
{
    if wbs.len() == 0 {
        Seq::empty()
    } else {
        let g = fn_groups(wbs.drop_last());
        let b = wbs.last();
        if b.patterns@.len() == 0 {
            g
        } else if g.len() > 0 && g.last().0 == b.name@ {
            g.drop_last().push((g.last().0, g.last().1.push(b)))
        } else {
            g.push((b.name@, seq![b]))
        }
    }
}

pub open spec fn lambda_names(ps: Seq<(String, crate::types::Ty)>) -> Set<Seq<char>> {
    Set::new(|n: Seq<char>| exists|i: int| 0 <= i < ps.len() && #[trigger] ps[i].0@ == n)
}

/// Names bound by an inner construct anywhere in `e`: lambda parameters,
/// case-pattern variables, let-bound names and their patterns' variables.
pub open spec fn rebound(e: TExpr) -> Set<Seq<char>>
    decreases e, 1nat,
{
    match e.kind {
        TExprKind::Lambda { params, body } => lambda_names(params@) + rebound(*body),
        TExprKind::App(f, a) => rebound(*f) + rebound(*a),
        TExprKind::InfixApp { op: _, lhs, rhs } => rebound(*lhs) + rebound(*rhs),
        TExprKind::Negate(x) => rebound(*x),
        TExprKind::Paren(x) => rebound(*x),
        TExprKind::If { cond, then_branch, else_branch } => rebound(*cond) + rebound(*then_branch) + rebound(*else_branch),
        TExprKind::Case { scrutinee, branches } => rebound(*scrutinee) + rebound_branches(branches@),
        TExprKind::Let { binds, body } => rebound_binds(binds@) + rebound(*body),
        TExprKind::Tuple(elems) => rebound_exprs(elems@),
        TExprKind::SpecCall { original: _, specialized: _, args } => rebound_exprs(args@),
        TExprKind::DictCall { func_name: _, dict_args, value_args } => rebound_exprs(dict_args@) + rebound_exprs(value_args@),
        TExprKind::DictMethod { dict, method_name: _ } => rebound(*dict),
        TExprKind::RecordUpdate { record, updates } => rebound(*record) + rebound_updates(updates@),
        TExprKind::OutgoingCallback { callee, arity: _ } => rebound(*callee),
        TExprKind::FfiMaybeArg { value } => rebound(*value),
        _ => Set::empty(),
    }
}

pub open spec fn rebound_exprs(s: Seq<TExpr>) -> Set<Seq<char>>
    decreases s, 0nat,
{
    if s.len() == 0 {
        Set::empty()
    } else {
        rebound_exprs(s.drop_last()) + rebound(s.last())
    }
}

pub open spec fn rebound_guards(gs: Seq<TGuard>) -> Set<Seq<char>>
    decreases gs, 0nat,
{
    if gs.len() == 0 {
        Set::empty()
    } else {
        rebound_guards(gs.drop_last()) + rebound(gs.last().condition) + rebound(gs.last().body)
    }
}

pub open spec fn rebound_branches(bs: Seq<crate::tir::TCaseBranch>) -> Set<Seq<char>>
    decreases bs, 0nat,
{
    if bs.len() == 0 {
        Set::empty()
    } else {
        rebound_branches(bs.drop_last()) + crate::demanded::pat_vars(bs.last().pattern)
            + rebound_guards(bs.last().guards@) + rebound(bs.last().body)
    }
}

pub open spec fn rebound_binds(bs: Seq<TLocalDef>) -> Set<Seq<char>>
    decreases bs, 0nat,
{
    if bs.len() == 0 {
        Set::empty()
    } else {
        rebound_binds(bs.drop_last()) + set![bs.last().name@] + crate::demanded::pats_vars(bs.last().patterns@)
            + rebound(bs.last().body)
    }
}

pub open spec fn rebound_updates(us: Seq<(String, usize, TExpr)>) -> Set<Seq<char>>
    decreases us, 0nat,
{
    if us.len() == 0 {
        Set::empty()
    } else {
        rebound_updates(us.drop_last()) + rebound(us.last().2)
    }
}

/// Names rebound anywhere in a clause: in its body, its guards, its
/// where-bindings' bodies and their patterns.
pub open spec fn where_rebound(wbs: Seq<TLocalDef>) -> Set<Seq<char>>
    decreases wbs.len(),
{
    if wbs.len() == 0 {
        Set::empty()
    } else {
        where_rebound(wbs.drop_last()) + rebound(wbs.last().body) + crate::demanded::pats_vars(wbs.last().patterns@)
    }
}

pub open spec fn clause_rebound(c: TClause) -> Set<Seq<char>> {
    rebound(c.body) + rebound_guards(c.guards@) + where_rebound(c.where_binds@)
}

/// Names of two separate groups, and group names shared with a where
/// value binding.
pub open spec fn ambiguous(gs: Seq<(Seq<char>, Seq<TLocalDef>)>, wbs: Seq<TLocalDef>) -> Set<Seq<char>> {
    Set::new(|n: Seq<char>|
        (exists|i: int, j: int| 0 <= i < j < gs.len() && #[trigger] gs[i].0 == n && #[trigger] gs[j].0 == n)
        || ((exists|i: int| 0 <= i < wbs.len() && #[trigger] wbs[i].patterns@.len() == 0 && wbs[i].name@ == n)
            && exists|i: int| 0 <= i < gs.len() && #[trigger] gs[i].0 == n))
}

/// The groups whose name is not in `excl`, in order.
pub open spec fn keep_groups(gs: Seq<(Seq<char>, Seq<TLocalDef>)>, excl: Set<Seq<char>>) -> Seq<(Seq<char>, Seq<TLocalDef>)>
    decreases gs.len(),
{
    if gs.len() == 0 {
        gs
    } else if excl.contains(gs.last().0) {
        keep_groups(gs.drop_last(), excl)
    } else {
        keep_groups(gs.drop_last(), excl).push(gs.last())
    }
}

/// The local-function groups whose rows are kept: every group whose name
/// can only mean that local throughout the clause.
pub open spec fn kept_groups(c: TClause) -> Seq<(Seq<char>, Seq<TLocalDef>)> {
    let gs = fn_groups(c.where_binds@);
    keep_groups(gs, clause_rebound(c) + ambiguous(gs, c.where_binds@))
}

/// A group's arity: that of its first equation.
pub open spec fn g_arity(g: (Seq<char>, Seq<TLocalDef>)) -> nat {
    g.1[0].patterns@.len()
}

/// The row of one equation (a guard- and where-free clause).
pub open spec fn def_row(d: TLocalDef, arity: nat, env: Map<Seq<char>, Seq<bool>>) -> Seq<bool> {
    Seq::new(arity, |i: int| i < d.patterns@.len() && (pat_forces(d.patterns@[i]) || match pat_param(d.patterns@[i]) {
        Some(n) => demanded(d.body, env, Map::empty()).contains(n),
        None => false,
    }))
}

/// Positionwise AND, truncated to the shorter row.
pub open spec fn and_rows(a: Seq<bool>, b: Seq<bool>) -> Seq<bool> {
    Seq::new(if a.len() < b.len() { a.len() } else { b.len() }, |i: int| a[i] && b[i])
}

/// A group's row: the AND of its equations' rows.
pub open spec fn group_row(defs: Seq<TLocalDef>, arity: nat, env: Map<Seq<char>, Seq<bool>>) -> Seq<bool>
    decreases defs.len(),
{
    if defs.len() == 0 {
        Seq::new(arity, |i: int| true)
    } else {
        and_rows(group_row(defs.drop_last(), arity, env), def_row(defs.last(), arity, env))
    }
}

/// Every group's row set to all-strict.
pub open spec fn rows_seed(gs: Seq<(Seq<char>, Seq<TLocalDef>)>, env: Map<Seq<char>, Seq<bool>>) -> Map<Seq<char>, Seq<bool>>
    decreases gs.len(),
{
    if gs.len() == 0 {
        env
    } else {
        rows_seed(gs.drop_last(), env).insert(gs.last().0, Seq::new(g_arity(gs.last()), |i: int| true))
    }
}

/// One round over the groups in order, each row narrowed to what the
/// analysis under the rows so far confirms; and whether any row changed.
pub open spec fn rows_round(gs: Seq<(Seq<char>, Seq<TLocalDef>)>, env: Map<Seq<char>, Seq<bool>>) -> (Map<Seq<char>, Seq<bool>>, bool)
    decreases gs.len(),
{
    if gs.len() == 0 {
        (env, false)
    } else {
        let name = gs[0].0;
        let old = env[name];
        let row = and_rows(old, group_row(gs[0].1, g_arity(gs[0]), env));
        let (e2, ch) = rows_round(gs.drop_first(), env.insert(name, row));
        (e2, ch || row != old)
    }
}

/// Rounds until nothing changes (at most `fuel`).
pub open spec fn rows_fix(gs: Seq<(Seq<char>, Seq<TLocalDef>)>, env: Map<Seq<char>, Seq<bool>>, fuel: nat) -> Map<Seq<char>, Seq<bool>>
    decreases fuel,
{
    if fuel == 0 {
        env
    } else {
        let (e2, ch) = rows_round(gs, env);
        if ch {
            rows_fix(gs, e2, (fuel - 1) as nat)
        } else {
            env
        }
    }
}

/// The strict positions left in the groups' rows.
pub open spec fn bits(gs: Seq<(Seq<char>, Seq<TLocalDef>)>, env: Map<Seq<char>, Seq<bool>>) -> nat
    decreases gs.len(),
{
    if gs.len() == 0 {
        0
    } else {
        count_true(env[gs[0].0]) + bits(gs.drop_first(), env)
    }
}

pub open spec fn distinct_names(gs: Seq<(Seq<char>, Seq<TLocalDef>)>) -> bool {
    forall|i: int, j: int| 0 <= i < j < gs.len() ==> #[trigger] gs[i].0 != #[trigger] gs[j].0
}

/// Every group has an equation and a row of its arity.
pub open spec fn shaped(gs: Seq<(Seq<char>, Seq<TLocalDef>)>, env: Map<Seq<char>, Seq<bool>>) -> bool {
    forall|k: int| 0 <= k < gs.len() ==> (#[trigger] gs[k]).1.len() > 0 && env.contains_key(gs[k].0)
        && env[gs[k].0].len() == g_arity(gs[k])
}

proof fn lemma_group_row_len(defs: Seq<TLocalDef>, arity: nat, env: Map<Seq<char>, Seq<bool>>)
    ensures
        group_row(defs, arity, env).len() == arity,
    decreases defs.len(),
{
    if defs.len() > 0 {
        lemma_group_row_len(defs.drop_last(), arity, env);
    }
}

/// A row that only drops strict positions of `a` has no more of them,
/// and strictly fewer unless it is `a`.
pub(crate) proof fn lemma_count_narrow(r: Seq<bool>, a: Seq<bool>)
    requires
        r.len() == a.len(),
        forall|i: int| 0 <= i < r.len() && #[trigger] r[i] ==> a[i],
    ensures
        count_true(r) <= count_true(a),
        r != a ==> count_true(r) < count_true(a),
    decreases r.len(),
{
    if r.len() == 0 {
        assert(r =~= a);
    } else {
        let r1 = r.drop_last();
        let a1 = a.drop_last();
        assert forall|i: int| 0 <= i < r1.len() && #[trigger] r1[i] implies a1[i] by {
            assert(r1[i] == r[i]);
            assert(a1[i] == a[i]);
        }
        lemma_count_narrow(r1, a1);
        if r != a {
            if r1 == a1 && r.last() == a.last() {
                assert forall|i: int| 0 <= i < r.len() implies r[i] == a[i] by {
                    if i < r.len() - 1 {
                        assert(r1[i] == r[i]);
                        assert(a1[i] == a[i]);
                    }
                }
                assert(r =~= a);
            }
        }
    }
}

/// A round leaves every name outside the groups alone.
proof fn lemma_round_frame(gs: Seq<(Seq<char>, Seq<TLocalDef>)>, env: Map<Seq<char>, Seq<bool>>, x: Seq<char>)
    requires
        forall|k: int| 0 <= k < gs.len() ==> #[trigger] gs[k].0 != x,
    ensures
        rows_round(gs, env).0.contains_key(x) == env.contains_key(x),
        rows_round(gs, env).0[x] == env[x],
    decreases gs.len(),
{
    if gs.len() > 0 {
        let name = gs[0].0;
        let row = and_rows(env[name], group_row(gs[0].1, g_arity(gs[0]), env));
        assert forall|k: int| 0 <= k < gs.drop_first().len() implies #[trigger] gs.drop_first()[k].0 != x by {
            assert(gs.drop_first()[k] == gs[k + 1]);
        }
        lemma_round_frame(gs.drop_first(), env.insert(name, row), x);
    }
}

/// The row count only sees the groups' names.
proof fn lemma_bits_frame(gs: Seq<(Seq<char>, Seq<TLocalDef>)>, env: Map<Seq<char>, Seq<bool>>, x: Seq<char>, v: Seq<bool>)
    requires
        forall|k: int| 0 <= k < gs.len() ==> #[trigger] gs[k].0 != x,
    ensures
        bits(gs, env.insert(x, v)) == bits(gs, env),
    decreases gs.len(),
{
    if gs.len() > 0 {
        assert forall|k: int| 0 <= k < gs.drop_first().len() implies #[trigger] gs.drop_first()[k].0 != x by {
            assert(gs.drop_first()[k] == gs[k + 1]);
        }
        lemma_bits_frame(gs.drop_first(), env, x, v);
    }
}

proof fn lemma_rest_names(gs: Seq<(Seq<char>, Seq<TLocalDef>)>)
    requires
        gs.len() > 0,
        distinct_names(gs),
    ensures
        distinct_names(gs.drop_first()),
        forall|k: int| 0 <= k < gs.drop_first().len() ==> #[trigger] gs.drop_first()[k].0 != gs[0].0,
{
    assert forall|k: int| 0 <= k < gs.drop_first().len() implies #[trigger] gs.drop_first()[k].0 != gs[0].0 by {
        assert(gs.drop_first()[k] == gs[k + 1]);
    }
    assert forall|i: int, j: int| 0 <= i < j < gs.drop_first().len() implies #[trigger] gs.drop_first()[i].0 != #[trigger] gs.drop_first()[j].0 by {
        assert(gs.drop_first()[i] == gs[i + 1]);
        assert(gs.drop_first()[j] == gs[j + 1]);
    }
}

/// A round keeps the rows' shape and never adds a strict position; when
/// it changes a row, it removes one.
proof fn lemma_round_bits(gs: Seq<(Seq<char>, Seq<TLocalDef>)>, env: Map<Seq<char>, Seq<bool>>)
    requires
        distinct_names(gs),
        shaped(gs, env),
    ensures
        shaped(gs, rows_round(gs, env).0),
        bits(gs, rows_round(gs, env).0) <= bits(gs, env),
        rows_round(gs, env).1 ==> bits(gs, rows_round(gs, env).0) < bits(gs, env),
    decreases gs.len(),
{
    if gs.len() > 0 {
        let name = gs[0].0;
        let old = env[name];
        let ar = g_arity(gs[0]);
        let gr = group_row(gs[0].1, ar, env);
        lemma_group_row_len(gs[0].1, ar, env);
        let row = and_rows(old, gr);
        let env1 = env.insert(name, row);
        let rest = gs.drop_first();
        lemma_rest_names(gs);
        assert(shaped(rest, env1)) by {
            assert forall|k: int| 0 <= k < rest.len() implies (#[trigger] rest[k]).1.len() > 0 && env1.contains_key(rest[k].0)
                && env1[rest[k].0].len() == g_arity(rest[k]) by {
                assert(rest[k] == gs[k + 1]);
            }
        }
        lemma_round_bits(rest, env1);
        let (e2, ch) = rows_round(rest, env1);
        lemma_round_frame(rest, env1, name);
        assert(e2[name] == row);
        lemma_bits_frame(rest, env, name, row);
        lemma_count_narrow(row, old);
        assert(shaped(gs, e2)) by {
            assert forall|k: int| 0 <= k < gs.len() implies (#[trigger] gs[k]).1.len() > 0 && e2.contains_key(gs[k].0)
                && e2[gs[k].0].len() == g_arity(gs[k]) by {
                if k > 0 {
                    assert(rest[k - 1] == gs[k]);
                }
            }
        }
    }
}

/// With more fuel than strict positions, the rounds reach a round that
/// changes nothing.
proof fn lemma_fix_converges(gs: Seq<(Seq<char>, Seq<TLocalDef>)>, env: Map<Seq<char>, Seq<bool>>, fuel: nat)
    requires
        distinct_names(gs),
        shaped(gs, env),
        fuel > bits(gs, env),
    ensures
        !rows_round(gs, rows_fix(gs, env, fuel)).1,
        shaped(gs, rows_fix(gs, env, fuel)),
    decreases fuel,
{
    lemma_round_bits(gs, env);
    let (e2, ch) = rows_round(gs, env);
    if ch {
        lemma_fix_converges(gs, e2, (fuel - 1) as nat);
    }
}

/// Any fuel beyond the strict positions gives the same rows.
proof fn lemma_fix_fuel(gs: Seq<(Seq<char>, Seq<TLocalDef>)>, env: Map<Seq<char>, Seq<bool>>, f1: nat, f2: nat)
    requires
        distinct_names(gs),
        shaped(gs, env),
        f1 > bits(gs, env),
        f2 > bits(gs, env),
    ensures
        rows_fix(gs, env, f1) == rows_fix(gs, env, f2),
    decreases f1,
{
    lemma_round_bits(gs, env);
    let (e2, ch) = rows_round(gs, env);
    if ch {
        lemma_fix_fuel(gs, e2, (f1 - 1) as nat, (f2 - 1) as nat);
    }
}

/// A round that changes nothing leaves every row confirmed by its
/// group's equations under the rows themselves.
proof fn lemma_stable_round(gs: Seq<(Seq<char>, Seq<TLocalDef>)>, env: Map<Seq<char>, Seq<bool>>)
    requires
        shaped(gs, env),
        !rows_round(gs, env).1,
    ensures
        forall|k: int| 0 <= k < gs.len() ==> #[trigger] env[gs[k].0] == and_rows(env[gs[k].0], group_row(gs[k].1, g_arity(gs[k]), env)),
        rows_round(gs, env).0 == env,
    decreases gs.len(),
{
    if gs.len() > 0 {
        let name = gs[0].0;
        let old = env[name];
        let row = and_rows(old, group_row(gs[0].1, g_arity(gs[0]), env));
        assert(row == old);
        assert(env.insert(name, row) =~= env);
        let rest = gs.drop_first();
        assert(shaped(rest, env)) by {
            assert forall|k: int| 0 <= k < rest.len() implies (#[trigger] rest[k]).1.len() > 0 && env.contains_key(rest[k].0)
                && env[rest[k].0].len() == g_arity(rest[k]) by {
                assert(rest[k] == gs[k + 1]);
            }
        }
        lemma_stable_round(rest, env);
        assert forall|k: int| 0 <= k < gs.len() implies #[trigger] env[gs[k].0] == and_rows(env[gs[k].0], group_row(gs[k].1, g_arity(gs[k]), env)) by {
            if k > 0 {
                assert(rest[k - 1] == gs[k]);
            }
        }
    }
}

// ---------------------------------------------------------------------
// Captured sets
// ---------------------------------------------------------------------

/// What one equation forces of outer variables: its body's demand minus
/// its own pattern variables.
pub open spec fn def_caps(d: TLocalDef, env: Map<Seq<char>, Seq<bool>>, cap: Map<Seq<char>, (nat, Set<Seq<char>>)>) -> Set<Seq<char>> {
    demanded(d.body, env, cap).difference(pats_vars(d.patterns@))
}

/// What every equation of a group forces.
pub open spec fn group_caps(defs: Seq<TLocalDef>, env: Map<Seq<char>, Seq<bool>>, cap: Map<Seq<char>, (nat, Set<Seq<char>>)>) -> Set<Seq<char>>
    decreases defs.len(),
{
    if defs.len() == 0 {
        Set::empty()
    } else if defs.len() == 1 {
        def_caps(defs[0], env, cap)
    } else {
        group_caps(defs.drop_last(), env, cap).intersect(def_caps(defs.last(), env, cap))
    }
}

/// Every group with an empty captured set.
pub open spec fn caps_seed(gs: Seq<(Seq<char>, Seq<TLocalDef>)>) -> Map<Seq<char>, (nat, Set<Seq<char>>)>
    decreases gs.len(),
{
    if gs.len() == 0 {
        Map::empty()
    } else {
        caps_seed(gs.drop_last()).insert(gs.last().0, (g_arity(gs.last()), Set::empty()))
    }
}

/// One round over the groups in order, each set grown by what its
/// equations force under the sets so far (names in `excl` dropped); and
/// whether any set changed.
pub open spec fn caps_round(gs: Seq<(Seq<char>, Seq<TLocalDef>)>, env: Map<Seq<char>, Seq<bool>>, excl: Set<Seq<char>>, cap: Map<Seq<char>, (nat, Set<Seq<char>>)>) -> (Map<Seq<char>, (nat, Set<Seq<char>>)>, bool)
    decreases gs.len(),
{
    if gs.len() == 0 {
        (cap, false)
    } else {
        let name = gs[0].0;
        let old = cap[name].1;
        let set = old + group_caps(gs[0].1, env, cap).difference(excl);
        let (c2, ch) = caps_round(gs.drop_first(), env, excl, cap.insert(name, (g_arity(gs[0]), set)));
        (c2, ch || set != old)
    }
}

/// Rounds until nothing changes (at most `fuel`).
pub open spec fn caps_fix(gs: Seq<(Seq<char>, Seq<TLocalDef>)>, env: Map<Seq<char>, Seq<bool>>, excl: Set<Seq<char>>, cap: Map<Seq<char>, (nat, Set<Seq<char>>)>, fuel: nat) -> Map<Seq<char>, (nat, Set<Seq<char>>)>
    decreases fuel,
{
    if fuel == 0 {
        cap
    } else {
        let (c2, ch) = caps_round(gs, env, excl, cap);
        if ch {
            caps_fix(gs, env, excl, c2, (fuel - 1) as nat)
        } else {
            cap
        }
    }
}

/// The variables of a group's equations.
pub open spec fn defs_vars(defs: Seq<TLocalDef>) -> Set<Seq<char>>
    decreases defs.len(),
{
    if defs.len() == 0 {
        Set::empty()
    } else {
        defs_vars(defs.drop_last()) + vars(defs.last().body)
    }
}

/// The variables of all groups' equations: every captured set stays
/// inside them.
pub open spec fn groups_vars(gs: Seq<(Seq<char>, Seq<TLocalDef>)>) -> Set<Seq<char>>
    decreases gs.len(),
{
    if gs.len() == 0 {
        Set::empty()
    } else {
        defs_vars(gs[0].1) + groups_vars(gs.drop_first())
    }
}

/// The room the groups' sets have left to grow inside `u`.
pub open spec fn cbits(gs: Seq<(Seq<char>, Seq<TLocalDef>)>, cap: Map<Seq<char>, (nat, Set<Seq<char>>)>, u: Set<Seq<char>>) -> nat
    decreases gs.len(),
{
    if gs.len() == 0 {
        0
    } else {
        u.difference(cap[gs[0].0].1).len() + cbits(gs.drop_first(), cap, u)
    }
}

/// Every captured set lies in `u`, and every group has one.
pub open spec fn caps_in(gs: Seq<(Seq<char>, Seq<TLocalDef>)>, cap: Map<Seq<char>, (nat, Set<Seq<char>>)>, u: Set<Seq<char>>) -> bool {
    &&& forall|n: Seq<char>| #[trigger] cap.contains_key(n) ==> cap[n].1.subset_of(u)
    &&& forall|k: int| 0 <= k < gs.len() ==> cap.contains_key(#[trigger] gs[k].0)
}

proof fn lemma_defs_vars_finite(defs: Seq<TLocalDef>)
    ensures
        defs_vars(defs).finite(),
    decreases defs.len(),
{
    if defs.len() > 0 {
        lemma_defs_vars_finite(defs.drop_last());
        crate::demanded::lemma_vars_finite(defs.last().body);
    }
}

proof fn lemma_groups_vars_finite(gs: Seq<(Seq<char>, Seq<TLocalDef>)>)
    ensures
        groups_vars(gs).finite(),
    decreases gs.len(),
{
    if gs.len() > 0 {
        lemma_defs_vars_finite(gs[0].1);
        lemma_groups_vars_finite(gs.drop_first());
    }
}

proof fn lemma_group_caps_vars(defs: Seq<TLocalDef>, env: Map<Seq<char>, Seq<bool>>, cap: Map<Seq<char>, (nat, Set<Seq<char>>)>)
    ensures
        group_caps(defs, env, cap).subset_of(defs_vars(defs) + cap_union(cap)),
    decreases defs.len(),
{
    if defs.len() == 1 {
        crate::demanded::lemma_demanded_in_vars(defs[0].body, env, cap);
        assert(defs.drop_last() =~= Seq::<TLocalDef>::empty());
        assert(defs.last() == defs[0]);
    } else if defs.len() > 1 {
        lemma_group_caps_vars(defs.drop_last(), env, cap);
    }
}

proof fn lemma_cbits_frame(gs: Seq<(Seq<char>, Seq<TLocalDef>)>, cap: Map<Seq<char>, (nat, Set<Seq<char>>)>, u: Set<Seq<char>>, x: Seq<char>, v: (nat, Set<Seq<char>>))
    requires
        forall|k: int| 0 <= k < gs.len() ==> #[trigger] gs[k].0 != x,
    ensures
        cbits(gs, cap.insert(x, v), u) == cbits(gs, cap, u),
    decreases gs.len(),
{
    if gs.len() > 0 {
        assert forall|k: int| 0 <= k < gs.drop_first().len() implies #[trigger] gs.drop_first()[k].0 != x by {
            assert(gs.drop_first()[k] == gs[k + 1]);
        }
        lemma_cbits_frame(gs.drop_first(), cap, u, x, v);
    }
}

proof fn lemma_caps_round_frame(gs: Seq<(Seq<char>, Seq<TLocalDef>)>, env: Map<Seq<char>, Seq<bool>>, excl: Set<Seq<char>>, cap: Map<Seq<char>, (nat, Set<Seq<char>>)>, x: Seq<char>)
    requires
        forall|k: int| 0 <= k < gs.len() ==> #[trigger] gs[k].0 != x,
    ensures
        caps_round(gs, env, excl, cap).0.contains_key(x) == cap.contains_key(x),
        caps_round(gs, env, excl, cap).0[x] == cap[x],
    decreases gs.len(),
{
    if gs.len() > 0 {
        let name = gs[0].0;
        let set = cap[name].1 + group_caps(gs[0].1, env, cap).difference(excl);
        assert forall|k: int| 0 <= k < gs.drop_first().len() implies #[trigger] gs.drop_first()[k].0 != x by {
            assert(gs.drop_first()[k] == gs[k + 1]);
        }
        lemma_caps_round_frame(gs.drop_first(), env, excl, cap.insert(name, (g_arity(gs[0]), set)), x);
    }
}

/// A round keeps every set inside the variables and never shrinks one;
/// when it changes a set, the room left shrinks.
proof fn lemma_caps_round_bits(gs: Seq<(Seq<char>, Seq<TLocalDef>)>, env: Map<Seq<char>, Seq<bool>>, excl: Set<Seq<char>>, cap: Map<Seq<char>, (nat, Set<Seq<char>>)>, u: Set<Seq<char>>)
    requires
        distinct_names(gs),
        caps_in(gs, cap, u),
        u.finite(),
        groups_vars(gs).subset_of(u),
    ensures
        caps_in(gs, caps_round(gs, env, excl, cap).0, u),
        cbits(gs, caps_round(gs, env, excl, cap).0, u) <= cbits(gs, cap, u),
        caps_round(gs, env, excl, cap).1 ==> cbits(gs, caps_round(gs, env, excl, cap).0, u) < cbits(gs, cap, u),
    decreases gs.len(),
{
    if gs.len() > 0 {
        let name = gs[0].0;
        let old = cap[name].1;
        let gc = group_caps(gs[0].1, env, cap);
        lemma_group_caps_vars(gs[0].1, env, cap);
        assert(cap_union(cap).subset_of(u)) by {
            assert forall|x: Seq<char>| cap_union(cap).contains(x) implies u.contains(x) by {
                let n = choose|n: Seq<char>| cap.contains_key(n) && #[trigger] cap[n].1.contains(x);
                assert(cap[n].1.subset_of(u));
            }
        }
        let set = old + gc.difference(excl);
        assert(set.subset_of(u));
        let cap1 = cap.insert(name, (g_arity(gs[0]), set));
        let rest = gs.drop_first();
        lemma_rest_names(gs);
        assert(caps_in(rest, cap1, u)) by {
            assert forall|k: int| 0 <= k < rest.len() implies cap1.contains_key(#[trigger] rest[k].0) by {
                assert(rest[k] == gs[k + 1]);
            }
        }
        lemma_caps_round_bits(rest, env, excl, cap1, u);
        let (c2, ch) = caps_round(rest, env, excl, cap1);
        lemma_caps_round_frame(rest, env, excl, cap1, name);
        lemma_cbits_frame(rest, cap, u, name, (g_arity(gs[0]), set));
        assert(u.difference(set).subset_of(u.difference(old)));
        vstd::set_lib::lemma_len_subset(u.difference(set), u.difference(old));
        if set != old {
            assert(exists|x: Seq<char>| set.contains(x) && !old.contains(x)) by {
                assert(old.subset_of(set));
                if forall|x: Seq<char>| set.contains(x) ==> old.contains(x) {
                    assert(set =~= old);
                }
            }
            let x = choose|x: Seq<char>| set.contains(x) && !old.contains(x);
            u.difference(set).lemma_subset_not_in_lt(u.difference(old), x);
        }
        assert(caps_in(gs, c2, u)) by {
            assert forall|k: int| 0 <= k < gs.len() implies c2.contains_key(#[trigger] gs[k].0) by {
                if k > 0 {
                    assert(rest[k - 1] == gs[k]);
                }
            }
        }
    }
}

/// With more fuel than room, the rounds reach one that changes nothing.
proof fn lemma_caps_converge(gs: Seq<(Seq<char>, Seq<TLocalDef>)>, env: Map<Seq<char>, Seq<bool>>, excl: Set<Seq<char>>, cap: Map<Seq<char>, (nat, Set<Seq<char>>)>, u: Set<Seq<char>>, fuel: nat)
    requires
        distinct_names(gs),
        caps_in(gs, cap, u),
        u.finite(),
        groups_vars(gs).subset_of(u),
        fuel > cbits(gs, cap, u),
    ensures
        !caps_round(gs, env, excl, caps_fix(gs, env, excl, cap, fuel)).1,
    decreases fuel,
{
    lemma_caps_round_bits(gs, env, excl, cap, u);
    let (c2, ch) = caps_round(gs, env, excl, cap);
    if ch {
        lemma_caps_converge(gs, env, excl, c2, u, (fuel - 1) as nat);
    }
}

/// Any fuel beyond the room gives the same sets.
proof fn lemma_caps_fuel(gs: Seq<(Seq<char>, Seq<TLocalDef>)>, env: Map<Seq<char>, Seq<bool>>, excl: Set<Seq<char>>, cap: Map<Seq<char>, (nat, Set<Seq<char>>)>, u: Set<Seq<char>>, f1: nat, f2: nat)
    requires
        distinct_names(gs),
        caps_in(gs, cap, u),
        u.finite(),
        groups_vars(gs).subset_of(u),
        f1 > cbits(gs, cap, u),
        f2 > cbits(gs, cap, u),
    ensures
        caps_fix(gs, env, excl, cap, f1) == caps_fix(gs, env, excl, cap, f2),
    decreases f1,
{
    lemma_caps_round_bits(gs, env, excl, cap, u);
    let (c2, ch) = caps_round(gs, env, excl, cap);
    if ch {
        lemma_caps_fuel(gs, env, excl, c2, u, (f1 - 1) as nat, (f2 - 1) as nat);
    }
}

// ---------------------------------------------------------------------
// Local-function groups, computed
// ---------------------------------------------------------------------

/// Groups as names with the indices of their equations.
pub open spec fn groups_model(g: Seq<(String, Vec<usize>)>, wbs: Seq<TLocalDef>) -> Seq<(Seq<char>, Seq<TLocalDef>)> {
    Seq::new(g.len(), |k: int| (g[k].0@, Seq::new(g[k].1@.len(), |j: int| wbs[g[k].1@[j] as int])))
}

pub open spec fn indices_ok(g: Seq<(String, Vec<usize>)>, n: nat) -> bool {
    forall|k: int, j: int| 0 <= k < g.len() && 0 <= j < g[k].1@.len() ==> #[trigger] g[k].1@[j] < n
}

pub(crate) fn fn_groups_exec(wbs: &Vec<TLocalDef>) -> (r: Vec<(String, Vec<usize>)>)
    ensures
        groups_model(r@, wbs@) == fn_groups(wbs@),
        indices_ok(r@, wbs@.len()),
{
    let mut g: Vec<(String, Vec<usize>)> = Vec::new();
    let mut i: usize = 0;
    while i < wbs.len()
        invariant
            i <= wbs@.len(),
            groups_model(g@, wbs@) == fn_groups(wbs@.take(i as int)),
            indices_ok(g@, i as nat),
        decreases wbs@.len() - i,
    {
        let ghost gm = groups_model(g@, wbs@);
        let ghost t1 = wbs@.take(i as int + 1);
        assert(t1.drop_last() =~= wbs@.take(i as int));
        assert(t1.last() == wbs@[i as int]);
        let b = &wbs[i];
        if b.patterns.len() > 0 {
            let glen = g.len();
            let same = glen > 0 && crate::text::string_eq(&g[glen - 1].0, &b.name);
            if same {
                let (n, mut idx) = g.pop().unwrap();
                let ghost old_idx = idx@;
                idx.push(i);
                g.push((n, idx));
                proof {
                    let m = groups_model(g@, wbs@);
                    let want = gm.drop_last().push((gm.last().0, gm.last().1.push(wbs@[i as int])));
                    assert(m.len() == want.len());
                    assert forall|k: int| 0 <= k < m.len() implies m[k] == want[k] by {
                        if k < m.len() - 1 {
                            assert(m[k] == gm[k]);
                        } else {
                            assert(m[k].1 =~= want[k].1);
                        }
                    }
                    assert(m =~= want);
                    assert forall|k: int, j: int| 0 <= k < g@.len() && 0 <= j < g@[k].1@.len() implies #[trigger] g@[k].1@[j] < i + 1 by {
                        if k < g@.len() - 1 {
                        } else if j < old_idx.len() {
                            assert(g@[k].1@[j] == old_idx[j]);
                        }
                    }
                }
            } else {
                let mut idx: Vec<usize> = Vec::new();
                idx.push(i);
                g.push((b.name.clone(), idx));
                proof {
                    let m = groups_model(g@, wbs@);
                    let want = gm.push((wbs@[i as int].name@, seq![wbs@[i as int]]));
                    assert forall|k: int| 0 <= k < m.len() implies m[k] == want[k] by {
                        if k < m.len() - 1 {
                            assert(m[k] == gm[k]);
                        } else {
                            assert(m[k].1 =~= want[k].1);
                        }
                    }
                    assert(m =~= want);
                }
            }
        }
        i = i + 1;
    }
    assert(wbs@.take(wbs@.len() as int) =~= wbs@);
    g
}

fn lambda_names_into(ps: &Vec<(String, crate::types::Ty)>, out: &mut NameSet)
    ensures
        final(out)@ == old(out)@ + lambda_names(ps@),
{
    let mut i: usize = 0;
    while i < ps.len()
        invariant
            i <= ps@.len(),
            out@ == old(out)@ + Set::new(|n: Seq<char>| exists|j: int| 0 <= j < i && #[trigger] ps@[j].0@ == n),
        decreases ps@.len() - i,
    {
        let ghost before = out@;
        out.insert(ps[i].0.as_str());
        proof {
            let a = Set::new(|n: Seq<char>| exists|j: int| 0 <= j < i && #[trigger] ps@[j].0@ == n);
            let b = Set::new(|n: Seq<char>| exists|j: int| 0 <= j < i + 1 && #[trigger] ps@[j].0@ == n);
            assert forall|n: Seq<char>| b.contains(n) == (a.contains(n) || n == ps@[i as int].0@) by {
                if b.contains(n) {
                    let j = choose|j: int| 0 <= j < i + 1 && #[trigger] ps@[j].0@ == n;
                    if j < i {
                        assert(a.contains(n));
                    }
                }
            }
            assert(out@ =~= old(out)@ + b);
        }
        i = i + 1;
    }
    assert(Set::new(|n: Seq<char>| exists|j: int| 0 <= j < ps@.len() && #[trigger] ps@[j].0@ == n) =~= lambda_names(ps@));
}

fn rebound_into(e: &TExpr, out: &mut NameSet)
    ensures
        final(out)@ == old(out)@ + rebound(*e),
    decreases e, 1nat,
{
    match &e.kind {
        TExprKind::Lambda { params, body } => {
            lambda_names_into(params, out);
            rebound_into(body, out);
        },
        TExprKind::App(f, a) => {
            rebound_into(f, out);
            rebound_into(a, out);
        },
        TExprKind::InfixApp { op: _, lhs, rhs } => {
            rebound_into(lhs, out);
            rebound_into(rhs, out);
        },
        TExprKind::Negate(x) => rebound_into(x, out),
        TExprKind::Paren(x) => rebound_into(x, out),
        TExprKind::If { cond, then_branch, else_branch } => {
            rebound_into(cond, out);
            rebound_into(then_branch, out);
            rebound_into(else_branch, out);
        },
        TExprKind::Case { scrutinee, branches } => {
            rebound_into(scrutinee, out);
            rebound_branches_into(branches, out);
        },
        TExprKind::Let { binds, body } => {
            rebound_binds_into(binds, out);
            rebound_into(body, out);
        },
        TExprKind::Tuple(elems) => rebound_exprs_into(elems, out),
        TExprKind::SpecCall { original: _, specialized: _, args } => rebound_exprs_into(args, out),
        TExprKind::DictCall { func_name: _, dict_args, value_args } => {
            rebound_exprs_into(dict_args, out);
            rebound_exprs_into(value_args, out);
        },
        TExprKind::DictMethod { dict, method_name: _ } => rebound_into(dict, out),
        TExprKind::RecordUpdate { record, updates } => {
            rebound_into(record, out);
            rebound_updates_into(updates, out);
        },
        TExprKind::OutgoingCallback { callee, arity: _ } => rebound_into(callee, out),
        TExprKind::FfiMaybeArg { value } => rebound_into(value, out),
        _ => {},
    }
    assert(out@ =~= old(out)@ + rebound(*e));
}

fn rebound_exprs_into(s: &Vec<TExpr>, out: &mut NameSet)
    ensures
        final(out)@ == old(out)@ + rebound_exprs(s@),
    decreases s, 0nat,
{
    let mut i: usize = 0;
    while i < s.len()
        invariant
            i <= s@.len(),
            out@ == old(out)@ + rebound_exprs(s@.take(i as int)),
        decreases s@.len() - i,
    {
        assert(decreases_to!(s => s@[i as int]));
        rebound_into(&s[i], out);
        assert(s@.take(i as int + 1).drop_last() =~= s@.take(i as int));
        assert(out@ =~= old(out)@ + rebound_exprs(s@.take(i as int + 1)));
        i = i + 1;
    }
    assert(s@.take(s@.len() as int) =~= s@);
}

fn rebound_guards_into(gs: &Vec<TGuard>, out: &mut NameSet)
    ensures
        final(out)@ == old(out)@ + rebound_guards(gs@),
    decreases gs, 0nat,
{
    let mut i: usize = 0;
    while i < gs.len()
        invariant
            i <= gs@.len(),
            out@ == old(out)@ + rebound_guards(gs@.take(i as int)),
        decreases gs@.len() - i,
    {
        assert(decreases_to!(gs => gs@[i as int]));
        rebound_into(&gs[i].condition, out);
        rebound_into(&gs[i].body, out);
        assert(gs@.take(i as int + 1).drop_last() =~= gs@.take(i as int));
        assert(out@ =~= old(out)@ + rebound_guards(gs@.take(i as int + 1)));
        i = i + 1;
    }
    assert(gs@.take(gs@.len() as int) =~= gs@);
}

fn rebound_branches_into(bs: &Vec<crate::tir::TCaseBranch>, out: &mut NameSet)
    ensures
        final(out)@ == old(out)@ + rebound_branches(bs@),
    decreases bs, 0nat,
{
    let mut i: usize = 0;
    while i < bs.len()
        invariant
            i <= bs@.len(),
            out@ == old(out)@ + rebound_branches(bs@.take(i as int)),
        decreases bs@.len() - i,
    {
        assert(decreases_to!(bs => bs@[i as int]));
        crate::demanded::pat_vars_into(&bs[i].pattern, out);
        rebound_guards_into(&bs[i].guards, out);
        rebound_into(&bs[i].body, out);
        assert(bs@.take(i as int + 1).drop_last() =~= bs@.take(i as int));
        assert(out@ =~= old(out)@ + rebound_branches(bs@.take(i as int + 1)));
        i = i + 1;
    }
    assert(bs@.take(bs@.len() as int) =~= bs@);
}

fn rebound_binds_into(bs: &Vec<TLocalDef>, out: &mut NameSet)
    ensures
        final(out)@ == old(out)@ + rebound_binds(bs@),
    decreases bs, 0nat,
{
    let mut i: usize = 0;
    while i < bs.len()
        invariant
            i <= bs@.len(),
            out@ == old(out)@ + rebound_binds(bs@.take(i as int)),
        decreases bs@.len() - i,
    {
        assert(decreases_to!(bs => bs@[i as int]));
        out.insert(bs[i].name.as_str());
        crate::demanded::pats_vars_into(&bs[i].patterns, out);
        rebound_into(&bs[i].body, out);
        assert(bs@.take(i as int + 1).drop_last() =~= bs@.take(i as int));
        assert(out@ =~= old(out)@ + rebound_binds(bs@.take(i as int + 1)));
        i = i + 1;
    }
    assert(bs@.take(bs@.len() as int) =~= bs@);
}

fn rebound_updates_into(us: &Vec<(String, usize, TExpr)>, out: &mut NameSet)
    ensures
        final(out)@ == old(out)@ + rebound_updates(us@),
    decreases us, 0nat,
{
    let mut i: usize = 0;
    while i < us.len()
        invariant
            i <= us@.len(),
            out@ == old(out)@ + rebound_updates(us@.take(i as int)),
        decreases us@.len() - i,
    {
        assert(decreases_to!(us => us@[i as int]));
        rebound_into(&us[i].2, out);
        assert(us@.take(i as int + 1).drop_last() =~= us@.take(i as int));
        assert(out@ =~= old(out)@ + rebound_updates(us@.take(i as int + 1)));
        i = i + 1;
    }
    assert(us@.take(us@.len() as int) =~= us@);
}

fn clause_rebound_exec(c: &TClause) -> (r: NameSet)
    ensures
        r@ == clause_rebound(*c),
{
    let mut out = NameSet::new();
    rebound_into(&c.body, &mut out);
    rebound_guards_into(&c.guards, &mut out);
    let ghost before = out@;
    let mut i: usize = 0;
    while i < c.where_binds.len()
        invariant
            i <= c.where_binds@.len(),
            out@ == before + where_rebound(c.where_binds@.take(i as int)),
        decreases c.where_binds@.len() - i,
    {
        rebound_into(&c.where_binds[i].body, &mut out);
        crate::demanded::pats_vars_into(&c.where_binds[i].patterns, &mut out);
        assert(c.where_binds@.take(i as int + 1).drop_last() =~= c.where_binds@.take(i as int));
        assert(out@ =~= before + where_rebound(c.where_binds@.take(i as int + 1)));
        i = i + 1;
    }
    assert(c.where_binds@.take(c.where_binds@.len() as int) =~= c.where_binds@);
    assert(out@ =~= clause_rebound(*c));
    out
}

fn ambiguous_exec(g: &Vec<(String, Vec<usize>)>, wbs: &Vec<TLocalDef>) -> (r: NameSet)
    requires
        indices_ok(g@, wbs@.len()),
    ensures
        r@ == ambiguous(groups_model(g@, wbs@), wbs@),
{
    let ghost gs = groups_model(g@, wbs@);
    let mut out = NameSet::new();
    let mut j: usize = 0;
    while j < g.len()
        invariant
            j <= g@.len(),
            gs == groups_model(g@, wbs@),
            out@ == Set::new(|n: Seq<char>| exists|a: int, b: int| 0 <= a < b < j && #[trigger] gs[a].0 == n && #[trigger] gs[b].0 == n),
        decreases g@.len() - j,
    {
        let mut i: usize = 0;
        let ghost before = out@;
        while i < j
            invariant
                i <= j < g@.len(),
                gs == groups_model(g@, wbs@),
                out@ == before + Set::new(|n: Seq<char>| exists|a: int| 0 <= a < i && #[trigger] gs[a].0 == n && gs[j as int].0 == n),
            decreases j - i,
        {
            if crate::text::string_eq(&g[i].0, &g[j].0) {
                out.insert(g[j].0.as_str());
            }
            proof {
                let s1 = Set::new(|n: Seq<char>| exists|a: int| 0 <= a < i && #[trigger] gs[a].0 == n && gs[j as int].0 == n);
                let s2 = Set::new(|n: Seq<char>| exists|a: int| 0 <= a < i + 1 && #[trigger] gs[a].0 == n && gs[j as int].0 == n);
                assert(gs[i as int].0 == g@[i as int].0@);
                assert(gs[j as int].0 == g@[j as int].0@);
                assert forall|n: Seq<char>| s2.contains(n) == (s1.contains(n) || (n == gs[j as int].0 && gs[i as int].0 == n)) by {
                    if s2.contains(n) {
                        let a = choose|a: int| 0 <= a < i + 1 && #[trigger] gs[a].0 == n && gs[j as int].0 == n;
                        if a < i {
                            assert(s1.contains(n));
                        }
                    }
                }
                assert(out@ =~= before + s2);
            }
            i = i + 1;
        }
        proof {
            let p1 = Set::new(|n: Seq<char>| exists|a: int, b: int| 0 <= a < b < j && #[trigger] gs[a].0 == n && #[trigger] gs[b].0 == n);
            let p2 = Set::new(|n: Seq<char>| exists|a: int, b: int| 0 <= a < b < j + 1 && #[trigger] gs[a].0 == n && #[trigger] gs[b].0 == n);
            let q = Set::new(|n: Seq<char>| exists|a: int| 0 <= a < j && #[trigger] gs[a].0 == n && gs[j as int].0 == n);
            assert forall|n: Seq<char>| p2.contains(n) == (p1.contains(n) || q.contains(n)) by {
                if p2.contains(n) {
                    let (a, b) = choose|a: int, b: int| 0 <= a < b < j + 1 && #[trigger] gs[a].0 == n && #[trigger] gs[b].0 == n;
                    if b < j {
                        assert(p1.contains(n));
                    } else {
                        assert(q.contains(n));
                    }
                }
                if q.contains(n) {
                    let a = choose|a: int| 0 <= a < j && #[trigger] gs[a].0 == n && gs[j as int].0 == n;
                    assert(gs[a].0 == n && gs[j as int].0 == n);
                }
            }
            assert(out@ =~= p2);
        }
        j = j + 1;
    }
    let ghost dup = out@;
    let mut i: usize = 0;
    while i < wbs.len()
        invariant
            i <= wbs@.len(),
            gs == groups_model(g@, wbs@),
            out@ == dup + Set::new(|n: Seq<char>| (exists|a: int| 0 <= a < i && #[trigger] wbs@[a].patterns@.len() == 0 && wbs@[a].name@ == n)
                && exists|k: int| 0 <= k < gs.len() && #[trigger] gs[k].0 == n),
        decreases wbs@.len() - i,
    {
        let ghost before = out@;
        if wbs[i].patterns.len() == 0 {
            let mut found = false;
            let mut k: usize = 0;
            while k < g.len()
                invariant
                    k <= g@.len(),
                    i < wbs@.len(),
                    gs == groups_model(g@, wbs@),
                    found == exists|k2: int| 0 <= k2 < k && #[trigger] gs[k2].0 == wbs@[i as int].name@,
                decreases g@.len() - k,
            {
                assert(gs[k as int].0 == g@[k as int].0@);
                if crate::text::string_eq(&g[k].0, &wbs[i].name) {
                    found = true;
                }
                k = k + 1;
            }
            if found {
                out.insert(wbs[i].name.as_str());
            }
        }
        proof {
            let s1 = Set::new(|n: Seq<char>| (exists|a: int| 0 <= a < i && #[trigger] wbs@[a].patterns@.len() == 0 && wbs@[a].name@ == n)
                && exists|k: int| 0 <= k < gs.len() && #[trigger] gs[k].0 == n);
            let s2 = Set::new(|n: Seq<char>| (exists|a: int| 0 <= a < i + 1 && #[trigger] wbs@[a].patterns@.len() == 0 && wbs@[a].name@ == n)
                && exists|k: int| 0 <= k < gs.len() && #[trigger] gs[k].0 == n);
            assert forall|n: Seq<char>| #![auto] s2.contains(n) == (s1.contains(n) || (wbs@[i as int].patterns@.len() == 0
                && wbs@[i as int].name@ == n && exists|k: int| 0 <= k < gs.len() && #[trigger] gs[k].0 == n)) by {
                if s2.contains(n) {
                    let a = choose|a: int| 0 <= a < i + 1 && #[trigger] wbs@[a].patterns@.len() == 0 && wbs@[a].name@ == n;
                    if a < i {
                        assert(s1.contains(n));
                    }
                }
            }
            assert(out@ =~= dup + s2);
        }
        i = i + 1;
    }
    assert(out@ =~= ambiguous(gs, wbs@));
    out
}

/// The groups whose names are not excluded.
fn keep_groups_exec(g: Vec<(String, Vec<usize>)>, excl: &NameSet, Ghost(wbs): Ghost<Seq<TLocalDef>>) -> (r: Vec<(String, Vec<usize>)>)
    requires
        indices_ok(g@, wbs.len()),
    ensures
        groups_model(r@, wbs) == keep_groups(groups_model(g@, wbs), excl@),
        indices_ok(r@, wbs.len()),
{
    let ghost g0 = g@;
    let len = g.len();
    let mut out: Vec<(String, Vec<usize>)> = Vec::new();
    let mut rest = g;
    let mut i: usize = 0;
    while rest.len() > 0
        invariant
            len == g0.len(),
            rest@ == g0.skip(i as int),
            i <= g0.len(),
            indices_ok(g0, wbs.len()),
            indices_ok(out@, wbs.len()),
            groups_model(out@, wbs) == keep_groups(groups_model(g0.take(i as int), wbs), excl@),
        decreases rest@.len(),
    {
        assert(g0.skip(i as int).len() > 0);
        let item = rest.remove(0);
        assert(item == g0[i as int]);
        proof {
            let t1 = groups_model(g0.take(i as int + 1), wbs);
            assert(t1.drop_last() =~= groups_model(g0.take(i as int), wbs));
            assert(t1.last() == groups_model(g0, wbs)[i as int]);
        }
        if !excl.contains(item.0.as_str()) {
            let ghost om = groups_model(out@, wbs);
            out.push(item);
            proof {
                let m = groups_model(out@, wbs);
                assert forall|k: int| 0 <= k < m.len() implies m[k] == om.push(groups_model(g0, wbs)[i as int])[k] by {
                    if k < m.len() - 1 {
                        assert(m[k] == om[k]);
                    }
                }
                assert(m =~= om.push(groups_model(g0, wbs)[i as int]));
                assert forall|k: int, j: int| 0 <= k < out@.len() && 0 <= j < out@[k].1@.len() implies #[trigger] out@[k].1@[j] < wbs.len() by {
                    if k == out@.len() - 1 {
                        assert(out@[k] == g0[i as int]);
                    }
                }
            }
        }
        assert(rest@ =~= g0.skip(i as int + 1));
        i = i + 1;
    }
    assert(g0.take(g0.len() as int) =~= g0);
    out
}

// ---------------------------------------------------------------------
// The local analysis, stated
// ---------------------------------------------------------------------

/// Names the captured sets may not hold: rebound, function-bound and
/// ambiguous names.
pub open spec fn fn_bind_names(wbs: Seq<TLocalDef>) -> Set<Seq<char>> {
    Set::new(|n: Seq<char>| exists|i: int| 0 <= i < wbs.len() && #[trigger] wbs[i].patterns@.len() > 0 && wbs[i].name@ == n)
}

pub open spec fn caps_excl(c: TClause) -> Set<Seq<char>> {
    clause_rebound(c) + ambiguous(fn_groups(c.where_binds@), c.where_binds@) + fn_bind_names(c.where_binds@)
}

/// The rows in scope once the local rows have converged.
pub open spec fn local_ext(c: TClause, env: Map<Seq<char>, Seq<bool>>) -> Map<Seq<char>, Seq<bool>> {
    let gs = kept_groups(c);
    let e0 = rows_seed(gs, env);
    rows_fix(gs, e0, bits(gs, e0) + 1)
}

/// The kept local functions' strictness rows.
pub open spec fn local_rows(c: TClause, env: Map<Seq<char>, Seq<bool>>) -> Map<Seq<char>, Seq<bool>> {
    let gs = kept_groups(c);
    Map::new(|n: Seq<char>| exists|k: int| 0 <= k < gs.len() && #[trigger] gs[k].0 == n, |n: Seq<char>| local_ext(c, env)[n])
}

/// The kept local functions' captured sets.
pub open spec fn local_caps(c: TClause, env: Map<Seq<char>, Seq<bool>>) -> Map<Seq<char>, (nat, Set<Seq<char>>)> {
    let gs = kept_groups(c);
    let c0 = caps_seed(gs);
    caps_fix(gs, local_ext(c, env), caps_excl(c), c0, cbits(gs, c0, groups_vars(gs)) + 1)
}

/// A clause's strictness row: the local rows extend the rows in scope,
/// the local captured sets are the ones in scope.
pub open spec fn clause_row(c: TClause, arity: nat, env: Map<Seq<char>, Seq<bool>>) -> Seq<bool> {
    clause_row_in(c, arity, env.union_prefer_right(local_rows(c, env)), local_caps(c, env))
}

/// No equation of a kept group has more parameters than its first.
pub open spec fn arities_ok(gs: Seq<(Seq<char>, Seq<TLocalDef>)>) -> bool {
    forall|k: int, j: int| 0 <= k < gs.len() && 0 <= j < gs[k].1.len() ==> (#[trigger] gs[k].1[j]).patterns@.len() <= g_arity(gs[k])
}

pub(crate) proof fn lemma_fn_groups_nonempty(wbs: Seq<TLocalDef>)
    ensures
        forall|k: int| 0 <= k < fn_groups(wbs).len() ==> (#[trigger] fn_groups(wbs)[k]).1.len() > 0,
    decreases wbs.len(),
{
    if wbs.len() > 0 {
        lemma_fn_groups_nonempty(wbs.drop_last());
        let g = fn_groups(wbs.drop_last());
        let r = fn_groups(wbs);
        assert forall|k: int| 0 <= k < r.len() implies (#[trigger] r[k]).1.len() > 0 by {
            if k < g.len() {
                assert(g[k].1.len() > 0);
            }
        }
    }
}

/// The kept groups are groups of `gs` outside `excl`, and their names are
/// distinct when every repeated name is excluded.
proof fn lemma_keep_groups(gs: Seq<(Seq<char>, Seq<TLocalDef>)>, excl: Set<Seq<char>>)
    ensures
        forall|k: int| 0 <= k < keep_groups(gs, excl).len() ==> exists|i: int| 0 <= i < gs.len() && gs[i] == #[trigger] keep_groups(gs, excl)[k],
        forall|k: int| 0 <= k < keep_groups(gs, excl).len() ==> !excl.contains(#[trigger] keep_groups(gs, excl)[k].0),
        (forall|i: int, j: int| 0 <= i < j < gs.len() && #[trigger] gs[i].0 == #[trigger] gs[j].0 ==> excl.contains(gs[i].0))
            ==> distinct_names(keep_groups(gs, excl)),
    decreases gs.len(),
{
    if gs.len() > 0 {
        let p = gs.drop_last();
        lemma_keep_groups(p, excl);
        let kp = keep_groups(p, excl);
        let r = keep_groups(gs, excl);
        assert forall|k: int| 0 <= k < r.len() implies exists|i: int| 0 <= i < gs.len() && gs[i] == #[trigger] r[k] by {
            if k < kp.len() {
                let i = choose|i: int| 0 <= i < p.len() && p[i] == kp[k];
                assert(gs[i] == r[k]);
            } else {
                assert(gs[gs.len() - 1] == r[k]);
            }
        }
        assert forall|k: int| 0 <= k < r.len() implies !excl.contains(#[trigger] r[k].0) by {
            if k < kp.len() {
                assert(r[k] == kp[k]);
            }
        }
        if forall|i: int, j: int| 0 <= i < j < gs.len() && #[trigger] gs[i].0 == #[trigger] gs[j].0 ==> excl.contains(gs[i].0) {
            assert forall|i: int, j: int| 0 <= i < j < p.len() && #[trigger] p[i].0 == #[trigger] p[j].0 implies excl.contains(p[i].0) by {
                assert(p[i] == gs[i] && p[j] == gs[j]);
            }
            assert forall|i: int, j: int| 0 <= i < j < r.len() implies #[trigger] r[i].0 != #[trigger] r[j].0 by {
                if j < kp.len() {
                    assert(r[i] == kp[i] && r[j] == kp[j]);
                } else {
                    assert(r[i] == kp[i]);
                    let a = choose|a: int| 0 <= a < p.len() && p[a] == kp[i];
                    if r[i].0 == r[j].0 {
                        assert(gs[a].0 == gs[gs.len() - 1].0);
                        assert(excl.contains(gs[a].0));
                    }
                }
            }
        }
    }
}

/// The kept groups: nonempty, with distinct names.
proof fn lemma_kept(c: TClause)
    ensures
        distinct_names(kept_groups(c)),
        forall|k: int| 0 <= k < kept_groups(c).len() ==> (#[trigger] kept_groups(c)[k]).1.len() > 0,
        forall|k: int| 0 <= k < kept_groups(c).len() ==> !clause_rebound(c).contains(#[trigger] kept_groups(c)[k].0),
{
    let gs = fn_groups(c.where_binds@);
    let excl = clause_rebound(c) + ambiguous(gs, c.where_binds@);
    lemma_fn_groups_nonempty(c.where_binds@);
    lemma_keep_groups(gs, excl);
    assert forall|i: int, j: int| 0 <= i < j < gs.len() && #[trigger] gs[i].0 == #[trigger] gs[j].0 implies excl.contains(gs[i].0) by {
        assert(ambiguous(gs, c.where_binds@).contains(gs[i].0));
    }
    let kg = kept_groups(c);
    assert forall|k: int| 0 <= k < kg.len() implies (#[trigger] kg[k]).1.len() > 0 by {
        let i = choose|i: int| 0 <= i < gs.len() && gs[i] == kg[k];
    }
}

proof fn lemma_seed(gs: Seq<(Seq<char>, Seq<TLocalDef>)>, env: Map<Seq<char>, Seq<bool>>)
    requires
        distinct_names(gs),
        forall|k: int| 0 <= k < gs.len() ==> (#[trigger] gs[k]).1.len() > 0,
    ensures
        shaped(gs, rows_seed(gs, env)),
        forall|k: int| 0 <= k < gs.len() ==> rows_seed(gs, env)[#[trigger] gs[k].0] == Seq::new(g_arity(gs[k]), |i: int| true),
    decreases gs.len(),
{
    if gs.len() > 0 {
        let p = gs.drop_last();
        assert(distinct_names(p)) by {
            assert forall|i: int, j: int| 0 <= i < j < p.len() implies #[trigger] p[i].0 != #[trigger] p[j].0 by {
                assert(p[i] == gs[i] && p[j] == gs[j]);
            }
        }
        lemma_seed(p, env);
        let r = rows_seed(gs, env);
        assert forall|k: int| 0 <= k < gs.len() implies r[#[trigger] gs[k].0] == Seq::new(g_arity(gs[k]), |i: int| true) by {
            if k < p.len() {
                assert(p[k] == gs[k]);
                assert(gs[k].0 != gs[gs.len() - 1].0);
            }
        }
        assert forall|k: int| 0 <= k < gs.len() implies (#[trigger] gs[k]).1.len() > 0 && r.contains_key(gs[k].0)
            && r[gs[k].0].len() == g_arity(gs[k]) by {
            if k < p.len() {
                assert(p[k] == gs[k]);
            }
        }
    }
}

proof fn lemma_seed_frame(gs: Seq<(Seq<char>, Seq<TLocalDef>)>, env: Map<Seq<char>, Seq<bool>>, x: Seq<char>)
    requires
        forall|k: int| 0 <= k < gs.len() ==> #[trigger] gs[k].0 != x,
    ensures
        rows_seed(gs, env).contains_key(x) == env.contains_key(x),
        rows_seed(gs, env)[x] == env[x],
    decreases gs.len(),
{
    if gs.len() > 0 {
        let p = gs.drop_last();
        assert forall|k: int| 0 <= k < p.len() implies #[trigger] p[k].0 != x by {
            assert(p[k] == gs[k]);
        }
        lemma_seed_frame(p, env, x);
        assert(gs[gs.len() - 1].0 != x);
    }
}

proof fn lemma_fix_frame(gs: Seq<(Seq<char>, Seq<TLocalDef>)>, env: Map<Seq<char>, Seq<bool>>, fuel: nat, x: Seq<char>)
    requires
        forall|k: int| 0 <= k < gs.len() ==> #[trigger] gs[k].0 != x,
    ensures
        rows_fix(gs, env, fuel).contains_key(x) == env.contains_key(x),
        rows_fix(gs, env, fuel)[x] == env[x],
    decreases fuel,
{
    if fuel > 0 {
        lemma_round_frame(gs, env, x);
        let (e2, ch) = rows_round(gs, env);
        if ch {
            lemma_fix_frame(gs, e2, (fuel - 1) as nat, x);
        }
    }
}

proof fn lemma_ext_union_at(c: TClause, env: Map<Seq<char>, Seq<bool>>, x: Seq<char>)
    ensures
        local_ext(c, env).contains_key(x) == env.union_prefer_right(local_rows(c, env)).contains_key(x),
        local_ext(c, env).contains_key(x) ==> local_ext(c, env)[x] == env.union_prefer_right(local_rows(c, env))[x],
{
    let gs = kept_groups(c);
    lemma_kept(c);
    lemma_seed(gs, env);
    let e0 = rows_seed(gs, env);
    lemma_fix_converges(gs, e0, bits(gs, e0) + 1);
    if exists|k: int| 0 <= k < gs.len() && #[trigger] gs[k].0 == x {
        let k = choose|k: int| 0 <= k < gs.len() && #[trigger] gs[k].0 == x;
        assert(local_rows(c, env).contains_key(x));
    } else {
        lemma_fix_frame(gs, e0, bits(gs, e0) + 1, x);
        lemma_seed_frame(gs, env, x);
        assert(!local_rows(c, env).contains_key(x));
    }
}

/// The converged rows are the rows in scope with the local rows laid
/// over them.
proof fn lemma_ext_union(c: TClause, env: Map<Seq<char>, Seq<bool>>)
    ensures
        local_ext(c, env) == env.union_prefer_right(local_rows(c, env)),
{
    let ext = local_ext(c, env);
    let u = env.union_prefer_right(local_rows(c, env));
    assert forall|x: Seq<char>| ext.dom().contains(x) == u.dom().contains(x) by {
        lemma_ext_union_at(c, env, x);
    }
    assert(ext.dom() =~= u.dom());
    assert forall|x: Seq<char>| #[trigger] ext.contains_key(x) implies ext[x] == u[x] by {
        lemma_ext_union_at(c, env, x);
    }
    assert(ext =~= u);
}

proof fn lemma_group_row_confirms(defs: Seq<TLocalDef>, arity: nat, env: Map<Seq<char>, Seq<bool>>, i: int, j: int)
    requires
        0 <= j < defs.len(),
        0 <= i < arity,
        group_row(defs, arity, env)[i],
    ensures
        def_row(defs[j], arity, env)[i],
    decreases defs.len(),
{
    lemma_group_row_len(defs.drop_last(), arity, env);
    if j < defs.len() - 1 {
        lemma_group_row_confirms(defs.drop_last(), arity, env, i, j);
    }
}

/// Every parameter a kept where-bound local function's row marks strict
/// is forced by each of its equations under the converged rows: the
/// rows are confirmed by the analysis they feed.
pub proof fn lemma_local_rows_confirmed(c: TClause, env: Map<Seq<char>, Seq<bool>>, k: int, j: int, i: int)
    requires
        0 <= k < kept_groups(c).len(),
        0 <= j < kept_groups(c)[k].1.len(),
        0 <= i < local_rows(c, env)[kept_groups(c)[k].0].len(),
        local_rows(c, env)[kept_groups(c)[k].0][i],
    ensures
        def_row(kept_groups(c)[k].1[j], g_arity(kept_groups(c)[k]), local_ext(c, env))[i],
{
    let gs = kept_groups(c);
    lemma_kept(c);
    lemma_seed(gs, env);
    let e0 = rows_seed(gs, env);
    lemma_fix_converges(gs, e0, bits(gs, e0) + 1);
    let ext = local_ext(c, env);
    lemma_stable_round(gs, ext);
    let ar = g_arity(gs[k]);
    assert(ext[gs[k].0] == and_rows(ext[gs[k].0], group_row(gs[k].1, ar, ext)));
    lemma_group_row_len(gs[k].1, ar, ext);
    assert(local_rows(c, env)[gs[k].0] == ext[gs[k].0]);
    lemma_group_row_confirms(gs[k].1, ar, ext, i, j);
}

// ---------------------------------------------------------------------
// The local analysis, computed
// ---------------------------------------------------------------------

pub open spec fn defs_of(idx: Seq<usize>, wbs: Seq<TLocalDef>) -> Seq<TLocalDef> {
    Seq::new(idx.len(), |j: int| wbs[idx[j] as int])
}

pub(crate) fn and_rows_exec(a: &Vec<bool>, b: &Vec<bool>) -> (r: Vec<bool>)
    ensures
        r@ == and_rows(a@, b@),
{
    let n = if a.len() < b.len() { a.len() } else { b.len() };
    let mut r: Vec<bool> = Vec::new();
    let mut i: usize = 0;
    while i < n
        invariant
            i <= n,
            n <= a@.len(),
            n <= b@.len(),
            r@.len() == i,
            forall|j: int| 0 <= j < i ==> r@[j] == (a@[j] && b@[j]),
        decreases n - i,
    {
        r.push(a[i] && b[i]);
        i = i + 1;
    }
    assert(r@ =~= and_rows(a@, b@));
    r
}

pub(crate) fn all_true(n: usize) -> (r: Vec<bool>)
    ensures
        r@ == Seq::new(n as nat, |i: int| true),
{
    let mut r: Vec<bool> = Vec::new();
    while r.len() < n
        invariant
            r@.len() <= n,
            forall|j: int| 0 <= j < r@.len() ==> r@[j],
        decreases n - r@.len(),
    {
        r.push(true);
    }
    assert(r@ =~= Seq::new(n as nat, |i: int| true));
    r
}

fn def_row_exec(d: &TLocalDef, arity: usize, ext: &StrictEnv) -> (r: Vec<bool>)
    requires
        d.patterns@.len() <= arity,
    ensures
        r@ == def_row(*d, arity as nat, ext@),
{
    let empty = CapturedEnv::new();
    let dem = demanded_in(&d.body, ext, &empty);
    let mut row: Vec<bool> = Vec::new();
    let mut i: usize = 0;
    while i < arity
        invariant
            i <= arity,
            d.patterns@.len() <= arity,
            dem@ == demanded(d.body, ext@, Map::empty()),
            row@.len() == i,
            forall|j: int| 0 <= j < i ==> row@[j] == def_row(*d, arity as nat, ext@)[j],
        decreases arity - i,
    {
        let b = if i < d.patterns.len() {
            match &d.patterns[i] {
                TPattern::Var(n, _) => dem.contains(n.as_str()),
                TPattern::Wildcard => false,
                TPattern::Paren(inner) => match &**inner {
                    TPattern::Var(n, _) => dem.contains(n.as_str()),
                    _ => true,
                },
                _ => true,
            }
        } else {
            false
        };
        row.push(b);
        i = i + 1;
    }
    assert(row@ =~= def_row(*d, arity as nat, ext@));
    row
}

fn group_row_exec(wbs: &Vec<TLocalDef>, idx: &Vec<usize>, arity: usize, ext: &StrictEnv) -> (r: Vec<bool>)
    requires
        forall|j: int| 0 <= j < idx@.len() ==> #[trigger] idx@[j] < wbs@.len(),
        forall|j: int| 0 <= j < idx@.len() ==> wbs@[#[trigger] idx@[j] as int].patterns@.len() <= arity,
    ensures
        r@ == group_row(defs_of(idx@, wbs@), arity as nat, ext@),
{
    let ghost defs = defs_of(idx@, wbs@);
    let mut acc = all_true(arity);
    let mut j: usize = 0;
    assert(defs.take(0) =~= Seq::<TLocalDef>::empty());
    while j < idx.len()
        invariant
            j <= idx@.len(),
            defs == defs_of(idx@, wbs@),
            forall|j2: int| 0 <= j2 < idx@.len() ==> #[trigger] idx@[j2] < wbs@.len(),
            forall|j2: int| 0 <= j2 < idx@.len() ==> wbs@[#[trigger] idx@[j2] as int].patterns@.len() <= arity,
            acc@ == group_row(defs.take(j as int), arity as nat, ext@),
        decreases idx@.len() - j,
    {
        let dr = def_row_exec(&wbs[idx[j]], arity, ext);
        acc = and_rows_exec(&acc, &dr);
        assert(defs.take(j as int + 1).drop_last() =~= defs.take(j as int));
        assert(defs.take(j as int + 1).last() == wbs@[idx@[j as int] as int]);
        j = j + 1;
    }
    assert(defs.take(idx@.len() as int) =~= defs);
    acc
}

proof fn lemma_groups_model_facts(g: Seq<(String, Vec<usize>)>, wbs: Seq<TLocalDef>, k: int)
    requires
        0 <= k < g.len(),
    ensures
        groups_model(g, wbs)[k].0 == g[k].0@,
        groups_model(g, wbs)[k].1 == defs_of(g[k].1@, wbs),
{
    assert(groups_model(g, wbs)[k].1 =~= defs_of(g[k].1@, wbs));
}

/// The converged rows of the groups, over the rows in scope.
fn rows_exec(wbs: &Vec<TLocalDef>, g: &Vec<(String, Vec<usize>)>, env: &StrictEnv) -> (ext: StrictEnv)
    requires
        indices_ok(g@, wbs@.len()),
        distinct_names(groups_model(g@, wbs@)),
        forall|k: int| 0 <= k < g@.len() ==> (#[trigger] g@[k]).1@.len() > 0,
        arities_ok(groups_model(g@, wbs@)),
    ensures
        ext@ == rows_fix(groups_model(g@, wbs@), rows_seed(groups_model(g@, wbs@), env@),
            bits(groups_model(g@, wbs@), rows_seed(groups_model(g@, wbs@), env@)) + 1),
{
    let ghost gs = groups_model(g@, wbs@);
    proof {
        assert forall|k: int| 0 <= k < gs.len() implies (#[trigger] gs[k]).1.len() > 0 by {
            lemma_groups_model_facts(g@, wbs@, k);
        }
        lemma_seed(gs, env@);
    }
    let mut ext = env.copy();
    let mut k: usize = 0;
    while k < g.len()
        invariant
            k <= g@.len(),
            gs == groups_model(g@, wbs@),
            indices_ok(g@, wbs@.len()),
            forall|k2: int| 0 <= k2 < g@.len() ==> (#[trigger] g@[k2]).1@.len() > 0,
            ext@ == rows_seed(gs.take(k as int), env@),
        decreases g@.len() - k,
    {
        proof {
            lemma_groups_model_facts(g@, wbs@, k as int);
        }
        assert(g@[k as int].1@[0] < wbs@.len());
        let a = wbs[g[k].1[0]].patterns.len();
        let row = all_true(a);
        ext.insert(g[k].0.as_str(), row);
        assert(gs.take(k as int + 1).drop_last() =~= gs.take(k as int));
        assert(gs.take(k as int + 1).last() == gs[k as int]);
        k = k + 1;
    }
    assert(gs.take(g@.len() as int) =~= gs);
    let ghost e0 = ext@;
    loop
        invariant
            gs == groups_model(g@, wbs@),
            indices_ok(g@, wbs@.len()),
            distinct_names(gs),
            arities_ok(gs),
            forall|k2: int| 0 <= k2 < g@.len() ==> (#[trigger] g@[k2]).1@.len() > 0,
            shaped(gs, ext@),
            e0 == rows_seed(gs, env@),
            rows_fix(gs, ext@, bits(gs, ext@) + 1) == rows_fix(gs, e0, bits(gs, e0) + 1),
        decreases bits(gs, ext@),
    {
        let ghost estart = ext@;
        let mut changed = false;
        let mut k: usize = 0;
        assert(gs.skip(0) =~= gs);
        while k < g.len()
            invariant
                k <= g@.len(),
                gs == groups_model(g@, wbs@),
                indices_ok(g@, wbs@.len()),
                distinct_names(gs),
                arities_ok(gs),
                forall|k2: int| 0 <= k2 < g@.len() ==> (#[trigger] g@[k2]).1@.len() > 0,
                shaped(gs, ext@),
                rows_round(gs.skip(k as int), ext@).0 == rows_round(gs, estart).0,
                rows_round(gs, estart).1 == (changed || rows_round(gs.skip(k as int), ext@).1),
            decreases g@.len() - k,
        {
            proof {
                lemma_groups_model_facts(g@, wbs@, k as int);
                assert(gs.skip(k as int)[0] == gs[k as int]);
                assert(gs.skip(k as int).drop_first() =~= gs.skip(k as int + 1));
            }
            let idx = &g[k].1;
            assert(idx@[0] < wbs@.len());
            let a = wbs[idx[0]].patterns.len();
            proof {
                assert forall|j: int| 0 <= j < idx@.len() implies wbs@[#[trigger] idx@[j] as int].patterns@.len() <= a by {
                    assert(gs[k as int].1[j] == wbs@[idx@[j] as int]);
                }
            }
            let gr = group_row_exec(wbs, idx, a, &ext);
            let old = match ext.get(g[k].0.as_str()) {
                Some(v) => and_rows_exec(v, &gr),
                None => {
                    assert(false);
                    Vec::new()
                },
            };
            let ghost old_row = ext@[gs[k as int].0];
            let ghost new_row = old@;
            let same = match ext.get(g[k].0.as_str()) {
                Some(v) => bool_rows_eq(v, &old),
                None => false,
            };
            proof {
                lemma_group_row_len(gs[k as int].1, g_arity(gs[k as int]), ext@);
            }
            if !same {
                ext.insert(g[k].0.as_str(), old);
                changed = true;
            } else {
                assert(ext@.insert(gs[k as int].0, new_row) =~= ext@);
            }
            proof {
                assert forall|k2: int| 0 <= k2 < gs.len() implies (#[trigger] gs[k2]).1.len() > 0 && ext@.contains_key(gs[k2].0)
                    && ext@[gs[k2].0].len() == g_arity(gs[k2]) by {
                    if k2 != k {
                        assert(gs[k2].0 != gs[k as int].0);
                    }
                }
            }
            k = k + 1;
        }
        assert(gs.skip(g@.len() as int) =~= Seq::<(Seq<char>, Seq<TLocalDef>)>::empty());
        proof {
            lemma_round_bits(gs, estart);
        }
        if !changed {
            proof {
                lemma_stable_round(gs, estart);
            }
            return ext;
        }
        proof {
            lemma_fix_fuel(gs, ext@, bits(gs, estart), bits(gs, ext@) + 1);
        }
    }
}

/// Are two rows equal?
pub(crate) fn bool_rows_eq(a: &Vec<bool>, b: &Vec<bool>) -> (r: bool)
    ensures
        r == (a@ == b@),
{
    if a.len() != b.len() {
        return false;
    }
    let mut i: usize = 0;
    while i < a.len()
        invariant
            i <= a@.len(),
            a@.len() == b@.len(),
            forall|j: int| 0 <= j < i ==> a@[j] == b@[j],
        decreases a@.len() - i,
    {
        if a[i] != b[i] {
            return false;
        }
        i = i + 1;
    }
    assert(a@ =~= b@);
    true
}

proof fn lemma_caps_seed(gs: Seq<(Seq<char>, Seq<TLocalDef>)>)
    requires
        distinct_names(gs),
    ensures
        forall|n: Seq<char>| #[trigger] caps_seed(gs).contains_key(n) ==> caps_seed(gs)[n].1 == Set::<Seq<char>>::empty(),
        forall|k: int| 0 <= k < gs.len() ==> caps_seed(gs).contains_key(#[trigger] gs[k].0)
            && caps_seed(gs)[gs[k].0].0 == g_arity(gs[k]),
    decreases gs.len(),
{
    if gs.len() > 0 {
        let p = gs.drop_last();
        assert(distinct_names(p)) by {
            assert forall|i: int, j: int| 0 <= i < j < p.len() implies #[trigger] p[i].0 != #[trigger] p[j].0 by {
                assert(p[i] == gs[i] && p[j] == gs[j]);
            }
        }
        lemma_caps_seed(p);
        let r = caps_seed(gs);
        assert forall|n: Seq<char>| #[trigger] r.contains_key(n) implies r[n].1 == Set::<Seq<char>>::empty() by {
            if n != gs.last().0 {
                assert(caps_seed(p).contains_key(n));
            }
        }
        assert forall|k: int| 0 <= k < gs.len() implies r.contains_key(#[trigger] gs[k].0) && r[gs[k].0].0 == g_arity(gs[k]) by {
            if k < p.len() {
                assert(p[k] == gs[k]);
                assert(gs[k].0 != gs[gs.len() - 1].0);
            }
        }
    }
}

proof fn lemma_caps_stable(gs: Seq<(Seq<char>, Seq<TLocalDef>)>, env: Map<Seq<char>, Seq<bool>>, excl: Set<Seq<char>>, cap: Map<Seq<char>, (nat, Set<Seq<char>>)>)
    requires
        forall|k: int| 0 <= k < gs.len() ==> cap.contains_key(#[trigger] gs[k].0) && cap[gs[k].0].0 == g_arity(gs[k]),
        !caps_round(gs, env, excl, cap).1,
    ensures
        caps_round(gs, env, excl, cap).0 == cap,
    decreases gs.len(),
{
    if gs.len() > 0 {
        let name = gs[0].0;
        let set = cap[name].1 + group_caps(gs[0].1, env, cap).difference(excl);
        assert(set == cap[name].1);
        assert(cap.insert(name, (g_arity(gs[0]), set)) =~= cap);
        let rest = gs.drop_first();
        assert forall|k: int| 0 <= k < rest.len() implies cap.contains_key(#[trigger] rest[k].0) && cap[rest[k].0].0 == g_arity(rest[k]) by {
            assert(rest[k] == gs[k + 1]);
        }
        lemma_caps_stable(rest, env, excl, cap);
    }
}

fn def_caps_exec(d: &TLocalDef, ext: &StrictEnv, cap: &CapturedEnv) -> (r: NameSet)
    ensures
        r@ == def_caps(*d, ext@, cap@),
{
    let dem = demanded_in(&d.body, ext, cap);
    let mut pv = NameSet::new();
    crate::demanded::pats_vars_into(&d.patterns, &mut pv);
    assert(pv@ =~= pats_vars(d.patterns@));
    dem.minus(&pv)
}

fn group_caps_exec(wbs: &Vec<TLocalDef>, idx: &Vec<usize>, ext: &StrictEnv, cap: &CapturedEnv) -> (r: NameSet)
    requires
        forall|j: int| 0 <= j < idx@.len() ==> #[trigger] idx@[j] < wbs@.len(),
    ensures
        r@ == group_caps(defs_of(idx@, wbs@), ext@, cap@),
{
    let ghost defs = defs_of(idx@, wbs@);
    if idx.len() == 0 {
        return NameSet::new();
    }
    let mut acc = def_caps_exec(&wbs[idx[0]], ext, cap);
    assert(defs.take(1) =~= seq![defs[0]]);
    let mut j: usize = 1;
    while j < idx.len()
        invariant
            1 <= j <= idx@.len(),
            defs == defs_of(idx@, wbs@),
            forall|j2: int| 0 <= j2 < idx@.len() ==> #[trigger] idx@[j2] < wbs@.len(),
            acc@ == group_caps(defs.take(j as int), ext@, cap@),
        decreases idx@.len() - j,
    {
        let d = def_caps_exec(&wbs[idx[j]], ext, cap);
        acc = acc.intersect(&d);
        assert(defs.take(j as int + 1).drop_last() =~= defs.take(j as int));
        assert(defs.take(j as int + 1).last() == wbs@[idx@[j as int] as int]);
        j = j + 1;
    }
    assert(defs.take(idx@.len() as int) =~= defs);
    acc
}

/// Does `add` hold a name `old` lacks?
fn adds_new(add: &NameSet, old: &NameSet) -> (r: bool)
    ensures
        r == (old@ + add@ != old@),
{
    let v = add.to_vec();
    let mut i: usize = 0;
    while i < v.len()
        invariant
            i <= v@.len(),
            forall|k: Seq<char>| add@.contains(k) <==> exists|j: int| 0 <= j < v@.len() && #[trigger] v@[j]@ == k,
            forall|j: int| 0 <= j < i ==> old@.contains(#[trigger] v@[j]@),
        decreases v@.len() - i,
    {
        if !old.contains(v[i].as_str()) {
            proof {
                assert(add@.contains(v@[i as int]@));
                assert(!old@.contains(v@[i as int]@));
                assert((old@ + add@).contains(v@[i as int]@));
            }
            return true;
        }
        i = i + 1;
    }
    proof {
        assert forall|k: Seq<char>| (old@ + add@).contains(k) == old@.contains(k) by {
            if add@.contains(k) {
                let j = choose|j: int| 0 <= j < v@.len() && #[trigger] v@[j]@ == k;
            }
        }
        assert(old@ + add@ =~= old@);
    }
    false
}

/// The converged captured sets of the groups, under the converged rows.
fn caps_exec(wbs: &Vec<TLocalDef>, g: &Vec<(String, Vec<usize>)>, ext: &StrictEnv, excl: &NameSet) -> (r: CapturedEnv)
    requires
        indices_ok(g@, wbs@.len()),
        distinct_names(groups_model(g@, wbs@)),
        forall|k: int| 0 <= k < g@.len() ==> (#[trigger] g@[k]).1@.len() > 0,
    ensures
        r@ == caps_fix(groups_model(g@, wbs@), ext@, excl@, caps_seed(groups_model(g@, wbs@)),
            cbits(groups_model(g@, wbs@), caps_seed(groups_model(g@, wbs@)), groups_vars(groups_model(g@, wbs@))) + 1),
{
    let ghost gs = groups_model(g@, wbs@);
    let ghost u = groups_vars(gs);
    proof {
        lemma_groups_vars_finite(gs);
        lemma_caps_seed(gs);
    }
    let mut cap = CapturedEnv::new();
    let mut k: usize = 0;
    while k < g.len()
        invariant
            k <= g@.len(),
            gs == groups_model(g@, wbs@),
            indices_ok(g@, wbs@.len()),
            forall|k2: int| 0 <= k2 < g@.len() ==> (#[trigger] g@[k2]).1@.len() > 0,
            cap@ == caps_seed(gs.take(k as int)),
        decreases g@.len() - k,
    {
        proof {
            lemma_groups_model_facts(g@, wbs@, k as int);
        }
        assert(g@[k as int].1@[0] < wbs@.len());
        let a = wbs[g[k].1[0]].patterns.len();
        cap.insert(g[k].0.as_str(), a, NameSet::new());
        assert(gs.take(k as int + 1).drop_last() =~= gs.take(k as int));
        assert(gs.take(k as int + 1).last() == gs[k as int]);
        k = k + 1;
    }
    assert(gs.take(g@.len() as int) =~= gs);
    let ghost c0 = cap@;
    proof {
        assert(caps_in(gs, c0, u));
    }
    loop
        invariant
            gs == groups_model(g@, wbs@),
            u == groups_vars(gs),
            u.finite(),
            indices_ok(g@, wbs@.len()),
            distinct_names(gs),
            forall|k2: int| 0 <= k2 < g@.len() ==> (#[trigger] g@[k2]).1@.len() > 0,
            caps_in(gs, cap@, u),
            forall|k2: int| 0 <= k2 < gs.len() ==> #[trigger] cap@[gs[k2].0].0 == g_arity(gs[k2]),
            c0 == caps_seed(gs),
            caps_fix(gs, ext@, excl@, cap@, cbits(gs, cap@, u) + 1) == caps_fix(gs, ext@, excl@, c0, cbits(gs, c0, u) + 1),
        decreases cbits(gs, cap@, u),
    {
        let ghost cstart = cap@;
        let mut changed = false;
        let mut k: usize = 0;
        assert(gs.skip(0) =~= gs);
        while k < g.len()
            invariant
                k <= g@.len(),
                gs == groups_model(g@, wbs@),
                indices_ok(g@, wbs@.len()),
                distinct_names(gs),
                forall|k2: int| 0 <= k2 < g@.len() ==> (#[trigger] g@[k2]).1@.len() > 0,
                forall|k2: int| 0 <= k2 < gs.len() ==> cap@.contains_key(#[trigger] gs[k2].0) && cap@[gs[k2].0].0 == g_arity(gs[k2]),
                caps_round(gs.skip(k as int), ext@, excl@, cap@).0 == caps_round(gs, ext@, excl@, cstart).0,
                caps_round(gs, ext@, excl@, cstart).1 == (changed || caps_round(gs.skip(k as int), ext@, excl@, cap@).1),
            decreases g@.len() - k,
        {
            proof {
                lemma_groups_model_facts(g@, wbs@, k as int);
                assert(gs.skip(k as int)[0] == gs[k as int]);
                assert(gs.skip(k as int).drop_first() =~= gs.skip(k as int + 1));
            }
            let idx = &g[k].1;
            assert(idx@[0] < wbs@.len());
            let a = wbs[idx[0]].patterns.len();
            let gc = group_caps_exec(wbs, idx, ext, &cap);
            let add = gc.minus(excl);
            let mut set = NameSet::new();
            match cap.get(g[k].0.as_str()) {
                Some((_, old)) => {
                    set.union_with(old);
                    assert(set@ =~= cap@[gs[k as int].0].1);
                },
                None => {
                    assert(false);
                },
            }
            let ghost old_set = set@;
            let grown = adds_new(&add, &set);
            set.union_with(&add);
            if grown {
                cap.insert(g[k].0.as_str(), a, set);
                changed = true;
            } else {
                assert(set@ =~= old_set);
                assert(cap@.insert(gs[k as int].0, (g_arity(gs[k as int]), set@)) =~= cap@);
            }
            proof {
                assert forall|k2: int| 0 <= k2 < gs.len() implies cap@.contains_key(#[trigger] gs[k2].0) && cap@[gs[k2].0].0 == g_arity(gs[k2]) by {
                    if k2 != k {
                        assert(gs[k2].0 != gs[k as int].0);
                    }
                }
            }
            k = k + 1;
        }
        assert(gs.skip(g@.len() as int) =~= Seq::<(Seq<char>, Seq<TLocalDef>)>::empty());
        proof {
            lemma_caps_round_bits(gs, ext@, excl@, cstart, u);
        }
        if !changed {
            proof {
                lemma_caps_stable(gs, ext@, excl@, cstart);
            }
            return cap;
        }
        proof {
            lemma_caps_fuel(gs, ext@, excl@, cap@, u, cbits(gs, cstart, u), cbits(gs, cap@, u) + 1);
        }
    }
}

fn fn_bind_names_exec(wbs: &Vec<TLocalDef>) -> (r: NameSet)
    ensures
        r@ == fn_bind_names(wbs@),
{
    let mut out = NameSet::new();
    let mut i: usize = 0;
    while i < wbs.len()
        invariant
            i <= wbs@.len(),
            out@ == Set::new(|n: Seq<char>| exists|j: int| 0 <= j < i && #[trigger] wbs@[j].patterns@.len() > 0 && wbs@[j].name@ == n),
        decreases wbs@.len() - i,
    {
        if wbs[i].patterns.len() > 0 {
            out.insert(wbs[i].name.as_str());
        }
        proof {
            let a = Set::new(|n: Seq<char>| exists|j: int| 0 <= j < i && #[trigger] wbs@[j].patterns@.len() > 0 && wbs@[j].name@ == n);
            let b = Set::new(|n: Seq<char>| exists|j: int| 0 <= j < i + 1 && #[trigger] wbs@[j].patterns@.len() > 0 && wbs@[j].name@ == n);
            assert forall|n: Seq<char>| #![auto] b.contains(n) == (a.contains(n) || (wbs@[i as int].patterns@.len() > 0 && wbs@[i as int].name@ == n)) by {
                if b.contains(n) {
                    let j = choose|j: int| 0 <= j < i + 1 && #[trigger] wbs@[j].patterns@.len() > 0 && wbs@[j].name@ == n;
                    if j < i {
                        assert(a.contains(n));
                    }
                }
            }
            assert(out@ =~= b);
        }
        i = i + 1;
    }
    assert(out@ =~= fn_bind_names(wbs@));
    out
}

pub(crate) fn copy_row(v: &Vec<bool>) -> (r: Vec<bool>)
    ensures
        r@ == v@,
{
    let mut r: Vec<bool> = Vec::new();
    let mut i: usize = 0;
    while i < v.len()
        invariant
            i <= v@.len(),
            r@ == v@.take(i as int),
        decreases v@.len() - i,
    {
        r.push(v[i]);
        assert(v@.take(i as int + 1) =~= v@.take(i as int).push(v@[i as int]));
        i = i + 1;
    }
    assert(v@.take(v@.len() as int) =~= v@);
    r
}

/// The kept groups, the converged rows in scope, and the kept locals'
/// captured sets.
fn local_demand(c: &TClause, env: &StrictEnv) -> (r: (Vec<(String, Vec<usize>)>, StrictEnv, CapturedEnv))
    requires
        arities_ok(kept_groups(*c)),
    ensures
        groups_model(r.0@, c.where_binds@) == kept_groups(*c),
        r.1@ == local_ext(*c, env@),
        r.2@ == local_caps(*c, env@),
{
    let groups = fn_groups_exec(&c.where_binds);
    let reb = clause_rebound_exec(c);
    let amb = ambiguous_exec(&groups, &c.where_binds);
    let mut excl = NameSet::new();
    excl.union_with(&reb);
    excl.union_with(&amb);
    assert(excl@ =~= clause_rebound(*c) + ambiguous(fn_groups(c.where_binds@), c.where_binds@));
    let kept = keep_groups_exec(groups, &excl, Ghost(c.where_binds@));
    let ghost gs = groups_model(kept@, c.where_binds@);
    proof {
        lemma_kept(*c);
        assert forall|k: int| 0 <= k < kept@.len() implies (#[trigger] kept@[k]).1@.len() > 0 by {
            lemma_groups_model_facts(kept@, c.where_binds@, k);
            assert(gs[k].1.len() > 0);
        }
    }
    let ext = rows_exec(&c.where_binds, &kept, env);
    let fb = fn_bind_names_exec(&c.where_binds);
    excl.union_with(&fb);
    let caps = caps_exec(&c.where_binds, &kept, &ext, &excl);
    (kept, ext, caps)
}

/// Strictness rows for a clause's where-bound local functions: each kept
/// group of consecutive same-named equations gets the greatest row every
/// equation confirms under the rows themselves. A group whose name is
/// rebound anywhere in the clause, defined by two groups, or shared with
/// a where-bound value gets no row.
pub fn local_fn_strict_params(clause: &TClause, env: &StrictEnv) -> (r: StrictEnv)
    requires
        arities_ok(kept_groups(*clause)),
    ensures
        r@ == local_rows(*clause, env@),
{
    let (kept, ext, _caps) = local_demand(clause, env);
    let ghost gs = kept_groups(*clause);
    proof {
        lemma_kept(*clause);
        lemma_seed(gs, env@);
        let e0 = rows_seed(gs, env@);
        lemma_fix_converges(gs, e0, bits(gs, e0) + 1);
    }
    let mut r = StrictEnv::new();
    let mut k: usize = 0;
    while k < kept.len()
        invariant
            k <= kept@.len(),
            groups_model(kept@, clause.where_binds@) == gs,
            gs == kept_groups(*clause),
            ext@ == local_ext(*clause, env@),
            shaped(gs, ext@),
            r@ == Map::new(|n: Seq<char>| exists|k2: int| 0 <= k2 < k && #[trigger] gs[k2].0 == n, |n: Seq<char>| ext@[n]),
        decreases kept@.len() - k,
    {
        proof {
            lemma_groups_model_facts(kept@, clause.where_binds@, k as int);
        }
        let row = match ext.get(kept[k].0.as_str()) {
            Some(v) => copy_row(v),
            None => {
                assert(false);
                Vec::new()
            },
        };
        let ghost before = r@;
        r.insert(kept[k].0.as_str(), row);
        proof {
            let m = Map::new(|n: Seq<char>| exists|k2: int| 0 <= k2 < k + 1 && #[trigger] gs[k2].0 == n, |n: Seq<char>| ext@[n]);
            assert forall|n: Seq<char>| m.contains_key(n) == r@.contains_key(n) by {
                if m.contains_key(n) {
                    let k2 = choose|k2: int| 0 <= k2 < k + 1 && #[trigger] gs[k2].0 == n;
                    if k2 < k {
                        assert(before.contains_key(n));
                    }
                }
                if before.contains_key(n) {
                    let k2 = choose|k2: int| 0 <= k2 < k && #[trigger] gs[k2].0 == n;
                    assert(m.contains_key(n));
                }
            }
            assert(r@ =~= m);
        }
        k = k + 1;
    }
    assert(r@ =~= local_rows(*clause, env@));
    r
}

/// A clause's strictness row of length `arity`: its where-bound local
/// functions' rows extend the rows in scope, their captured sets are the
/// ones in scope.
pub(crate) fn analyze_clause(c: &TClause, arity: usize, env: &StrictEnv) -> (r: Vec<bool>)
    requires
        c.patterns@.len() <= arity,
        arities_ok(kept_groups(*c)),
    ensures
        r@ == clause_row(*c, arity as nat, env@),
{
    let (_kept, ext, caps) = local_demand(c, env);
    proof {
        lemma_ext_union(*c, env@);
    }
    clause_row_in_exec(c, arity, &ext, &caps)
}

} // verus!
