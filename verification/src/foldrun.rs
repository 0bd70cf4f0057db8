//! The whole-module fold, computed.

use vstd::prelude::*;
use crate::tir::{TLiteral, TPattern, TExpr, TExprKind, TCaseBranch, TGuard, TLocalDef, TClause, TFunction, TModule};
use crate::demand::NameSet;
use crate::fold::{LitV, lit_v, opt_lit, unwrap_lit, unwrap_lit_exec};
use crate::tirview::{SExpr, SKind, SPat, SDef, STy, sexpr, sexprs, spat, spats, sparams, sdefs, sguards, sbranches, supdates,
    skind, sty, stys, copy_ty, copy_lit, copy_pat, copy_pats, copy_spec, copy_params, copy_expr};
use crate::foldpass::{s_lit, s_infix, subst, subst_exprs, subst_updates, subst_defs, subst_guards, subst_branches, spat_vars,
    spats_vars, param_set, def_names, fold_arith, arith_only, sty_mono, ident_op, alphabetic, Stats, stats, stats_exprs,
    stats_updates, stats_defs, stats_guards, stats_branches, st_join, st_none, st_own, cap_add, SPLICE_MAX_NODES};
use crate::fold::{try_fold_infix, fold_negate, infix_fold_exprs};
use crate::types::Ty;
use crate::text::views;
use crate::tirview::{SFn, sfn, sfns, sclause};
use crate::foldpass::{app_head, app_args, all_lits, bind_env, try_call, try_splice, splice_args_ok, rewrite, lit_node,
    sfold, sfold_kids, sfold_exprs, sfold_updates, sfold_defs, sfold_guards, sfold_branches, sfold_clause, sfold_clauses,
    sfold_fns, fold_round, fold_fix, SPLICE_DEPTH, Splice, FoldEnv, caf_of, cafs_of, arith_fns_of, var_equation, plain_clause, all_var_pats, pat_names,
    splice_of, cand_list, cand_map, refs_safe, prune_pass, prune_fix, splices_of, env_of, count_of, STR_PROPAGATE_MAX,
    FOLD_ROUNDS};

verus! {

broadcast use vstd::string::group_string_axioms;

pub proof fn lemma_lit_view(e: TExpr)
    ensures
        s_lit(sexpr(e)) == opt_lit(unwrap_lit(e)),
    decreases e,
{
    match e.kind {
        TExprKind::Paren(x) => lemma_lit_view(*x),
        _ => {},
    }
}

/// The literal under any parens, with its view.
pub fn lit_of(e: &TExpr) -> (r: Option<&TLiteral>)
    ensures
        match r {
            Some(l) => s_lit(sexpr(*e)) == Some(lit_v(*l)),
            None => s_lit(sexpr(*e)) is None,
        },
{
    proof {
        lemma_lit_view(*e);
    }
    unwrap_lit_exec(e)
}

// ---------------------------------------------------------------------
// Literal environments
// ---------------------------------------------------------------------

/// An environment entry list as a map (later entries win).
pub open spec fn lit_env(es: Seq<(String, TLiteral)>) -> Map<Seq<char>, LitV>
    decreases es.len(),
{
    if es.len() == 0 {
        Map::empty()
    } else {
        lit_env(es.drop_last()).insert(es.last().0@, lit_v(es.last().1))
    }
}

proof fn lemma_lit_env_tail(es: Seq<(String, TLiteral)>, i: int, name: Seq<char>)
    requires
        0 <= i <= es.len(),
        forall|j: int| i <= j < es.len() ==> es[j].0@ != name,
    ensures
        lit_env(es).contains_key(name) == lit_env(es.take(i)).contains_key(name),
        lit_env(es).contains_key(name) ==> lit_env(es)[name] == lit_env(es.take(i))[name],
    decreases es.len(),
{
    if i == es.len() {
        assert(es.take(i) =~= es);
    } else {
        lemma_lit_env_tail(es.drop_last(), i, name);
        assert(es.drop_last().take(i) =~= es.take(i));
    }
}

pub fn env_get<'a>(es: &'a Vec<(String, TLiteral)>, name: &str) -> (r: Option<&'a TLiteral>)
    ensures
        match r {
            Some(l) => lit_env(es@).contains_key(name@) && lit_env(es@)[name@] == lit_v(*l),
            None => !lit_env(es@).contains_key(name@),
        },
{
    let mut i: usize = es.len();
    while i > 0
        invariant
            i <= es@.len(),
            forall|j: int| i <= j < es@.len() ==> es@[j].0@ != name@,
        decreases i,
    {
        let k = i - 1;
        if crate::text::str_eq(es[k].0.as_str(), name) {
            proof {
                lemma_lit_env_tail(es@, i as int, name@);
                assert(es@.take(i as int).drop_last() =~= es@.take(k as int));
            }
            return Some(&es[k].1);
        }
        i = k;
    }
    proof {
        lemma_lit_env_tail(es@, 0, name@);
    }
    None
}

proof fn lemma_lit_env_dom(es: Seq<(String, TLiteral)>, k: Seq<char>)
    ensures
        lit_env(es).contains_key(k) <==> exists|i: int| 0 <= i < es.len() && es[i].0@ == k,
    decreases es.len(),
{
    if es.len() > 0 {
        lemma_lit_env_dom(es.drop_last(), k);
        if lit_env(es.drop_last()).contains_key(k) {
            let i = choose|i: int| 0 <= i < es.drop_last().len() && es.drop_last()[i].0@ == k;
            assert(es[i].0@ == k);
        }
        if exists|i: int| 0 <= i < es.len() && es[i].0@ == k {
            let i = choose|i: int| 0 <= i < es.len() && es[i].0@ == k;
            if i < es.len() - 1 {
                assert(es.drop_last()[i].0@ == k);
            }
        }
    }
}

/// The entries whose name is not in `names`.
pub fn env_without(es: &Vec<(String, TLiteral)>, names: &NameSet) -> (r: Vec<(String, TLiteral)>)
    ensures
        lit_env(r@) == lit_env(es@).remove_keys(names@),
{
    let mut out: Vec<(String, TLiteral)> = Vec::new();
    let mut i: usize = 0;
    while i < es.len()
        invariant
            i <= es@.len(),
            lit_env(out@) == lit_env(es@.take(i as int)).remove_keys(names@),
        decreases es@.len() - i,
    {
        let ghost t = es@.take(i as int + 1);
        assert(t.drop_last() =~= es@.take(i as int));
        assert(t.last() == es@[i as int]);
        let ghost o0 = out@;
        if !names.contains(es[i].0.as_str()) {
            out.push((es[i].0.clone(), copy_lit(&es[i].1)));
            assert(out@.drop_last() =~= o0);
            assert(lit_env(out@) =~= lit_env(t).remove_keys(names@));
        } else {
            assert(lit_env(out@) =~= lit_env(t).remove_keys(names@));
        }
        i = i + 1;
    }
    assert(es@.take(es@.len() as int) =~= es@);
    out
}

// ---------------------------------------------------------------------
// Bound names
// ---------------------------------------------------------------------

pub fn add_pat_vars(p: &TPattern, s: &mut NameSet)
    ensures
        final(s)@ == old(s)@ + spat_vars(spat(*p)),
    decreases p,
{
    match p {
        TPattern::Var(n, _) => {
            s.insert(n.as_str());
            assert(s@ =~= old(s)@ + set![n@]);
        },
        TPattern::Constructor { name: _, args } => {
            add_pats_vars(args, s);
        },
        TPattern::Paren(x) => add_pat_vars(x, s),
        TPattern::Tuple(ps) => {
            add_pats_vars(ps, s);
        },
        _ => {
            assert(s@ =~= old(s)@ + Set::<Seq<char>>::empty());
        },
    }
}

pub fn add_pats_vars(ps: &Vec<TPattern>, s: &mut NameSet)
    ensures
        final(s)@ == old(s)@ + spats_vars(spats(ps@)),
    decreases ps,
{
    let ghost s0 = s@;
    let mut i: usize = 0;
    assert(spats(ps@).take(0) =~= Seq::<SPat>::empty());
    assert(s@ =~= s0 + spats_vars(spats(ps@).take(0)));
    while i < ps.len()
        invariant
            i <= ps@.len(),
            s@ == s0 + spats_vars(spats(ps@).take(i as int)),
        decreases ps@.len() - i,
    {
        assert(decreases_to!(ps => ps@[i as int]));
        let ghost t = spats(ps@).take(i as int + 1);
        assert(t.drop_last() =~= spats(ps@).take(i as int));
        assert(t.last() == spat(ps@[i as int]));
        add_pat_vars(&ps[i], s);
        assert(s@ =~= s0 + spats_vars(t));
        i = i + 1;
    }
    assert(spats(ps@).take(ps@.len() as int) =~= spats(ps@));
}

pub fn add_param_names(ps: &Vec<(String, crate::types::Ty)>, s: &mut NameSet)
    ensures
        final(s)@ == old(s)@ + param_set(sparams(ps@)),
{
    let ghost s0 = s@;
    let mut i: usize = 0;
    while i < ps.len()
        invariant
            i <= ps@.len(),
            s@ == s0 + Set::new(|n: Seq<char>| exists|j: int| 0 <= j < i && #[trigger] ps@[j].0@ == n),
        decreases ps@.len() - i,
    {
        let ghost before = s@;
        s.insert(ps[i].0.as_str());
        proof {
            let a = Set::new(|n: Seq<char>| exists|j: int| 0 <= j < i && #[trigger] ps@[j].0@ == n);
            let b = Set::new(|n: Seq<char>| exists|j: int| 0 <= j < i + 1 && #[trigger] ps@[j].0@ == n);
            assert forall|n: Seq<char>| s@.contains(n) == (s0 + b).contains(n) by {
                if b.contains(n) {
                    let j = choose|j: int| 0 <= j < i + 1 && #[trigger] ps@[j].0@ == n;
                    if j < i {
                        assert(a.contains(n));
                    }
                }
                if a.contains(n) {
                    let j = choose|j: int| 0 <= j < i && #[trigger] ps@[j].0@ == n;
                    assert(b.contains(n));
                }
            }
            assert(s@ =~= s0 + b);
        }
        i = i + 1;
    }
    proof {
        let sp = sparams(ps@);
        assert forall|n: Seq<char>| s@.contains(n) == (s0 + param_set(sp)).contains(n) by {
            if param_set(sp).contains(n) {
                let j = choose|j: int| 0 <= j < sp.len() && #[trigger] sp[j].0 == n;
                assert(ps@[j].0@ == n);
            }
            if exists|j: int| 0 <= j < ps@.len() && #[trigger] ps@[j].0@ == n {
                let j = choose|j: int| 0 <= j < ps@.len() && #[trigger] ps@[j].0@ == n;
                assert(sp[j].0 == n);
            }
        }
        assert(s@ =~= s0 + param_set(sp));
    }
}

pub fn add_def_names(ds: &Vec<TLocalDef>, s: &mut NameSet)
    ensures
        final(s)@ == old(s)@ + def_names(sdefs(ds@)),
{
    let ghost s0 = s@;
    let mut i: usize = 0;
    while i < ds.len()
        invariant
            i <= ds@.len(),
            s@ == s0 + Set::new(|n: Seq<char>| exists|j: int| 0 <= j < i && #[trigger] ds@[j].name@ == n),
        decreases ds@.len() - i,
    {
        s.insert(ds[i].name.as_str());
        proof {
            let a = Set::new(|n: Seq<char>| exists|j: int| 0 <= j < i && #[trigger] ds@[j].name@ == n);
            let b = Set::new(|n: Seq<char>| exists|j: int| 0 <= j < i + 1 && #[trigger] ds@[j].name@ == n);
            assert forall|n: Seq<char>| s@.contains(n) == (s0 + b).contains(n) by {
                if b.contains(n) {
                    let j = choose|j: int| 0 <= j < i + 1 && #[trigger] ds@[j].name@ == n;
                    if j < i {
                        assert(a.contains(n));
                    }
                }
                if a.contains(n) {
                    let j = choose|j: int| 0 <= j < i && #[trigger] ds@[j].name@ == n;
                    assert(b.contains(n));
                }
            }
            assert(s@ =~= s0 + b);
        }
        i = i + 1;
    }
    proof {
        let sd = sdefs(ds@);
        assert forall|n: Seq<char>| s@.contains(n) == (s0 + def_names(sd)).contains(n) by {
            if def_names(sd).contains(n) {
                let j = choose|j: int| 0 <= j < sd.len() && #[trigger] sd[j].name == n;
                assert(ds@[j].name@ == n);
            }
            if exists|j: int| 0 <= j < ds@.len() && #[trigger] ds@[j].name@ == n {
                let j = choose|j: int| 0 <= j < ds@.len() && #[trigger] ds@[j].name@ == n;
                assert(sd[j].name == n);
            }
        }
        assert(s@ =~= s0 + def_names(sd));
    }
}

/// A copy of `s`.
pub fn names_copy(s: &NameSet) -> (r: NameSet)
    ensures
        r@ == s@,
{
    let mut r = NameSet::new();
    r.union_with(s);
    assert(r@ =~= s@);
    r
}

// ---------------------------------------------------------------------
// Substitution
// ---------------------------------------------------------------------

/// A copy of `e` with the environment's literals substituted.
pub fn subst_x(e: &TExpr, env: &Vec<(String, TLiteral)>) -> (r: TExpr)
    ensures
        sexpr(r) == subst(sexpr(*e), lit_env(env@)),
    decreases e,
{
    let ghost m = lit_env(env@);
    let ty = copy_ty(&e.ty);
    let kind = match &e.kind {
        TExprKind::Var(n) => match env_get(env, n.as_str()) {
            Some(l) => TExprKind::Lit(copy_lit(l)),
            None => TExprKind::Var(n.clone()),
        },
        TExprKind::Lambda { params, body } => {
            let mut names = NameSet::new();
            add_param_names(params, &mut names);
            let inner = env_without(env, &names);
            assert(names@ =~= param_set(sparams(params@)));
            TExprKind::Lambda { params: copy_params(params), body: Box::new(subst_x(body, &inner)) }
        },
        TExprKind::Let { binds, body } => {
            let mut names = NameSet::new();
            add_def_names(binds, &mut names);
            assert(names@ =~= def_names(sdefs(binds@)));
            let inner = env_without(env, &names);
            TExprKind::Let { binds: subst_defs_x(binds, &inner), body: Box::new(subst_x(body, &inner)) }
        },
        TExprKind::Case { scrutinee, branches } => TExprKind::Case {
            scrutinee: Box::new(subst_x(scrutinee, env)),
            branches: subst_branches_x(branches, env),
        },
        TExprKind::App(f, a) => TExprKind::App(Box::new(subst_x(f, env)), Box::new(subst_x(a, env))),
        TExprKind::InfixApp { op, lhs, rhs } => TExprKind::InfixApp {
            op: op.clone(),
            lhs: Box::new(subst_x(lhs, env)),
            rhs: Box::new(subst_x(rhs, env)),
        },
        TExprKind::Negate(x) => TExprKind::Negate(Box::new(subst_x(x, env))),
        TExprKind::Paren(x) => TExprKind::Paren(Box::new(subst_x(x, env))),
        TExprKind::If { cond, then_branch, else_branch } => TExprKind::If {
            cond: Box::new(subst_x(cond, env)),
            then_branch: Box::new(subst_x(then_branch, env)),
            else_branch: Box::new(subst_x(else_branch, env)),
        },
        TExprKind::Tuple(es) => TExprKind::Tuple(subst_exprs_x(es, env)),
        TExprKind::SpecCall { original, specialized, args } => TExprKind::SpecCall {
            original: original.clone(),
            specialized: copy_spec(specialized),
            args: subst_exprs_x(args, env),
        },
        TExprKind::DictCall { func_name, dict_args, value_args } => TExprKind::DictCall {
            func_name: func_name.clone(),
            dict_args: subst_exprs_x(dict_args, env),
            value_args: subst_exprs_x(value_args, env),
        },
        TExprKind::DictMethod { dict, method_name } => TExprKind::DictMethod {
            dict: Box::new(subst_x(dict, env)),
            method_name: method_name.clone(),
        },
        TExprKind::RecordUpdate { record, updates } => TExprKind::RecordUpdate {
            record: Box::new(subst_x(record, env)),
            updates: subst_updates_x(updates, env),
        },
        TExprKind::OutgoingCallback { callee, arity } => TExprKind::OutgoingCallback {
            callee: Box::new(subst_x(callee, env)),
            arity: *arity,
        },
        TExprKind::FfiMaybeArg { value } => TExprKind::FfiMaybeArg { value: Box::new(subst_x(value, env)) },
        TExprKind::Con(s) => TExprKind::Con(s.clone()),
        TExprKind::Lit(l) => TExprKind::Lit(copy_lit(l)),
        TExprKind::OpFunc(s) => TExprKind::OpFunc(s.clone()),
        TExprKind::DictAccess { class_name, method_name } => TExprKind::DictAccess {
            class_name: class_name.clone(),
            method_name: method_name.clone(),
        },
    };
    let r = TExpr { kind, ty };
    assert(sexpr(r) == subst(sexpr(*e), m));
    r
}

fn subst_exprs_x(es: &Vec<TExpr>, env: &Vec<(String, TLiteral)>) -> (r: Vec<TExpr>)
    ensures
        sexprs(r@) == subst_exprs(sexprs(es@), lit_env(env@)),
    decreases es,
{
    let mut out: Vec<TExpr> = Vec::new();
    let mut i: usize = 0;
    while i < es.len()
        invariant
            i <= es@.len(),
            out@.len() == i,
            forall|j: int| 0 <= j < i ==> sexpr(#[trigger] out@[j]) == subst(sexpr(es@[j]), lit_env(env@)),
        decreases es@.len() - i,
    {
        assert(decreases_to!(es => es@[i as int]));
        out.push(subst_x(&es[i], env));
        i = i + 1;
    }
    assert(sexprs(out@) =~= subst_exprs(sexprs(es@), lit_env(env@)));
    out
}

fn subst_updates_x(us: &Vec<(String, usize, TExpr)>, env: &Vec<(String, TLiteral)>) -> (r: Vec<(String, usize, TExpr)>)
    ensures
        supdates(r@) == subst_updates(supdates(us@), lit_env(env@)),
    decreases us,
{
    let mut out: Vec<(String, usize, TExpr)> = Vec::new();
    let mut i: usize = 0;
    while i < us.len()
        invariant
            i <= us@.len(),
            out@.len() == i,
            forall|j: int| 0 <= j < i ==> (#[trigger] out@[j]).0@ == us@[j].0@ && out@[j].1 == us@[j].1
                && sexpr(out@[j].2) == subst(sexpr(us@[j].2), lit_env(env@)),
        decreases us@.len() - i,
    {
        assert(decreases_to!(us => us@[i as int]));
        out.push((us[i].0.clone(), us[i].1, subst_x(&us[i].2, env)));
        i = i + 1;
    }
    assert(supdates(out@) =~= subst_updates(supdates(us@), lit_env(env@)));
    out
}

fn subst_defs_x(ds: &Vec<TLocalDef>, env: &Vec<(String, TLiteral)>) -> (r: Vec<TLocalDef>)
    ensures
        sdefs(r@) == subst_defs(sdefs(ds@), lit_env(env@)),
    decreases ds,
{
    let ghost m = lit_env(env@);
    let mut out: Vec<TLocalDef> = Vec::new();
    let mut i: usize = 0;
    while i < ds.len()
        invariant
            i <= ds@.len(),
            m == lit_env(env@),
            out@.len() == i,
            forall|j: int| 0 <= j < i ==> #[trigger] crate::tirview::sdef(out@[j]) == (SDef {
                name: ds@[j].name@,
                patterns: spats(ds@[j].patterns@),
                body: subst(sexpr(ds@[j].body), m.remove_keys(spats_vars(spats(ds@[j].patterns@)))),
            }),
        decreases ds@.len() - i,
    {
        assert(decreases_to!(ds => ds@[i as int]));
        let d = &ds[i];
        let mut names = NameSet::new();
        add_pats_vars(&d.patterns, &mut names);
        assert(names@ =~= spats_vars(spats(d.patterns@)));
        let own = env_without(env, &names);
        out.push(TLocalDef { name: d.name.clone(), patterns: copy_pats(&d.patterns), body: subst_x(&d.body, &own) });
        i = i + 1;
    }
    assert forall|j: int| 0 <= j < out@.len() implies sdefs(out@)[j] == subst_defs(sdefs(ds@), m)[j] by {
        assert(sdefs(ds@)[j] == crate::tirview::sdef(ds@[j]));
        assert(sdefs(out@)[j] == crate::tirview::sdef(out@[j]));
    }
    assert(sdefs(out@) =~= subst_defs(sdefs(ds@), m));
    out
}

fn subst_guards_x(gs: &Vec<TGuard>, env: &Vec<(String, TLiteral)>) -> (r: Vec<TGuard>)
    ensures
        sguards(r@) == subst_guards(sguards(gs@), lit_env(env@)),
    decreases gs,
{
    let mut out: Vec<TGuard> = Vec::new();
    let mut i: usize = 0;
    while i < gs.len()
        invariant
            i <= gs@.len(),
            out@.len() == i,
            forall|j: int| 0 <= j < i ==> sexpr((#[trigger] out@[j]).condition) == subst(sexpr(gs@[j].condition), lit_env(env@))
                && sexpr(out@[j].body) == subst(sexpr(gs@[j].body), lit_env(env@)),
        decreases gs@.len() - i,
    {
        assert(decreases_to!(gs => gs@[i as int]));
        out.push(TGuard { condition: subst_x(&gs[i].condition, env), body: subst_x(&gs[i].body, env) });
        i = i + 1;
    }
    assert(sguards(out@) =~= subst_guards(sguards(gs@), lit_env(env@)));
    out
}

fn subst_branches_x(bs: &Vec<TCaseBranch>, env: &Vec<(String, TLiteral)>) -> (r: Vec<TCaseBranch>)
    ensures
        sbranches(r@) == subst_branches(sbranches(bs@), lit_env(env@)),
    decreases bs,
{
    let ghost m = lit_env(env@);
    let mut out: Vec<TCaseBranch> = Vec::new();
    let mut i: usize = 0;
    while i < bs.len()
        invariant
            i <= bs@.len(),
            m == lit_env(env@),
            out@.len() == i,
            forall|j: int| 0 <= j < i ==> #[trigger] crate::tirview::sbranch(out@[j]) == (crate::tirview::SBranch {
                pattern: spat(bs@[j].pattern),
                guards: subst_guards(sguards(bs@[j].guards@), m.remove_keys(spat_vars(spat(bs@[j].pattern)))),
                body: subst(sexpr(bs@[j].body), m.remove_keys(spat_vars(spat(bs@[j].pattern)))),
            }),
        decreases bs@.len() - i,
    {
        assert(decreases_to!(bs => bs@[i as int]));
        let b = &bs[i];
        let mut names = NameSet::new();
        add_pat_vars(&b.pattern, &mut names);
        assert(names@ =~= spat_vars(spat(b.pattern)));
        let inner = env_without(env, &names);
        out.push(TCaseBranch { pattern: copy_pat(&b.pattern), guards: subst_guards_x(&b.guards, &inner), body: subst_x(&b.body, &inner) });
        i = i + 1;
    }
    assert forall|j: int| 0 <= j < out@.len() implies sbranches(out@)[j] == subst_branches(sbranches(bs@), m)[j] by {
        assert(sbranches(bs@)[j] == crate::tirview::sbranch(bs@[j]));
        assert(sbranches(out@)[j] == crate::tirview::sbranch(out@[j]));
    }
    assert(sbranches(out@) =~= subst_branches(sbranches(bs@), m));
    out
}

// ---------------------------------------------------------------------
// The arithmetic fold
// ---------------------------------------------------------------------

pub fn infix_of(op: &str, lhs: &TExpr, rhs: &TExpr) -> (r: Option<TLiteral>)
    ensures
        opt_lit(r) == s_infix(op@, sexpr(*lhs), sexpr(*rhs)),
{
    proof {
        lemma_lit_view(*lhs);
        lemma_lit_view(*rhs);
    }
    try_fold_infix(op, lhs, rhs)
}

pub fn fold_arith_x(e: &TExpr) -> (r: TExpr)
    ensures
        sexpr(r) == fold_arith(sexpr(*e)),
    decreases e,
{
    match &e.kind {
        TExprKind::Paren(x) => TExpr { kind: TExprKind::Paren(Box::new(fold_arith_x(x))), ty: copy_ty(&e.ty) },
        TExprKind::Negate(x) => {
            let i = fold_arith_x(x);
            let v = match lit_of(&i) {
                Some(l) => fold_negate(l),
                None => None,
            };
            match v {
                Some(v) => TExpr { kind: TExprKind::Lit(v), ty: copy_ty(&e.ty) },
                None => TExpr { kind: TExprKind::Negate(Box::new(i)), ty: copy_ty(&e.ty) },
            }
        },
        TExprKind::InfixApp { op, lhs, rhs } => {
            let l = fold_arith_x(lhs);
            let r = fold_arith_x(rhs);
            match infix_of(op.as_str(), &l, &r) {
                Some(v) => TExpr { kind: TExprKind::Lit(v), ty: copy_ty(&e.ty) },
                None => TExpr { kind: TExprKind::InfixApp { op: op.clone(), lhs: Box::new(l), rhs: Box::new(r) }, ty: copy_ty(&e.ty) },
            }
        },
        TExprKind::If { cond, then_branch, else_branch } => {
            let c = fold_arith_x(cond);
            let t = fold_arith_x(then_branch);
            let f = fold_arith_x(else_branch);
            let b = match lit_of(&c) {
                Some(TLiteral::Bool(b)) => Some(*b),
                _ => None,
            };
            match b {
                Some(true) => t,
                Some(false) => f,
                None => TExpr {
                    kind: TExprKind::If { cond: Box::new(c), then_branch: Box::new(t), else_branch: Box::new(f) },
                    ty: copy_ty(&e.ty),
                },
            }
        },
        _ => copy_expr(e),
    }
}

fn name_in(ps: &Vec<String>, n: &str) -> (r: bool)
    ensures
        r == views(ps@).contains(n@),
{
    let mut i: usize = 0;
    while i < ps.len()
        invariant
            i <= ps@.len(),
            forall|j: int| 0 <= j < i ==> ps@[j]@ != n@,
        decreases ps@.len() - i,
    {
        if crate::text::str_eq(ps[i].as_str(), n) {
            assert(views(ps@).len() == ps@.len());
            assert(views(ps@)[i as int] == n@);
            return true;
        }
        i = i + 1;
    }
    proof {
        if views(ps@).contains(n@) {
            let j = choose|j: int| 0 <= j < views(ps@).len() && views(ps@)[j] == n@;
            assert(ps@[j]@ == n@);
        }
    }
    false
}

pub fn arith_only_x(e: &TExpr, ps: &Vec<String>) -> (r: bool)
    ensures
        r == arith_only(sexpr(*e), views(ps@)),
    decreases e,
{
    match &e.kind {
        TExprKind::Lit(_) => true,
        TExprKind::Var(n) => name_in(ps, n.as_str()),
        TExprKind::Paren(x) => arith_only_x(x, ps),
        TExprKind::Negate(x) => arith_only_x(x, ps),
        TExprKind::InfixApp { op: _, lhs, rhs } => arith_only_x(lhs, ps) && arith_only_x(rhs, ps),
        TExprKind::If { cond, then_branch, else_branch } => arith_only_x(cond, ps) && arith_only_x(then_branch, ps)
            && arith_only_x(else_branch, ps),
        _ => false,
    }
}

// ---------------------------------------------------------------------
// What a body holds
// ---------------------------------------------------------------------

pub fn sty_mono_x(t: &Ty) -> (r: bool)
    ensures
        r == sty_mono(sty(*t)),
    decreases t,
{
    match t {
        Ty::Var(_) => false,
        Ty::Forall(..) => false,
        Ty::Skolem(..) => false,
        Ty::Con(_) => true,
        Ty::Unit => true,
        Ty::Promoted(_) => true,
        Ty::Arrow(a, b) => sty_mono_x(a) && sty_mono_x(b),
        Ty::App(a, b) => sty_mono_x(a) && sty_mono_x(b),
        Ty::List(a) => sty_mono_x(a),
        Ty::IO(a) => sty_mono_x(a),
        Ty::LuaIO(_, a) => sty_mono_x(a),
        Ty::Tuple(ts) => all_mono_x(ts),
    }
}

fn all_mono_x(ts: &Vec<Ty>) -> (r: bool)
    ensures
        r == crate::foldpass::stys_mono(stys(ts@)),
    decreases ts,
{
    let mut ok = true;
    let mut i: usize = 0;
    assert(stys(ts@).take(0) =~= Seq::<STy>::empty());
    while i < ts.len()
        invariant
            i <= ts@.len(),
            ok == crate::foldpass::stys_mono(stys(ts@).take(i as int)),
        decreases ts@.len() - i,
    {
        assert(decreases_to!(ts => ts@[i as int]));
        let ghost t = stys(ts@).take(i as int + 1);
        assert(t.drop_last() =~= stys(ts@).take(i as int));
        assert(t.last() == sty(ts@[i as int]));
        let x = sty_mono_x(&ts[i]);
        ok = ok && x;
        i = i + 1;
    }
    assert(stys(ts@).take(ts@.len() as int) =~= stys(ts@));
    ok
}

pub fn ident_op_x(op: &str) -> (r: bool)
    ensures
        r == ident_op(op@),
{
    let cs = crate::text::chars_of(op);
    if cs.len() == 0 {
        return false;
    }
    let c = cs[0];
    crate::foldpass::char_is_alphabetic(c) || c == '_'
}

/// What a body holds, computed.
pub struct StatsRec {
    pub mono: bool,
    pub nodes: usize,
    pub vars: Vec<String>,
    pub ops: NameSet,
}

pub open spec fn stats_model(s: StatsRec) -> Stats {
    Stats { mono: s.mono, nodes: s.nodes as nat, vars: views(s.vars@), ops: s.ops@ }
}

fn st_none_x() -> (r: StatsRec)
    ensures
        stats_model(r) == st_none(),
        r.nodes <= SPLICE_MAX_NODES + 1,
{
    let r = StatsRec { mono: true, nodes: 0, vars: Vec::new(), ops: NameSet::new() };
    assert(views(r.vars@) =~= Seq::<Seq<char>>::empty());
    r
}

fn st_join_x(a: StatsRec, b: StatsRec) -> (r: StatsRec)
    requires
        a.nodes <= SPLICE_MAX_NODES + 1,
        b.nodes <= SPLICE_MAX_NODES + 1,
    ensures
        stats_model(r) == st_join(stats_model(a), stats_model(b)),
        r.nodes <= SPLICE_MAX_NODES + 1,
{
    let ghost am = stats_model(a);
    let ghost bm = stats_model(b);
    let nodes = if a.nodes + b.nodes > SPLICE_MAX_NODES + 1 { SPLICE_MAX_NODES + 1 } else { a.nodes + b.nodes };
    let mut vars = a.vars;
    let mut i: usize = 0;
    let ghost v0 = vars@;
    while i < b.vars.len()
        invariant
            i <= b.vars@.len(),
            views(vars@) == views(v0) + views(b.vars@.take(i as int)),
        decreases b.vars@.len() - i,
    {
        let ghost vb = vars@;
        vars.push(b.vars[i].clone());
        assert(views(vars@) =~= views(vb).push(b.vars@[i as int]@));
        assert(views(b.vars@.take(i as int + 1)) =~= views(b.vars@.take(i as int)).push(b.vars@[i as int]@));
        assert(views(vars@) =~= views(v0) + views(b.vars@.take(i as int + 1)));
        i = i + 1;
    }
    assert(b.vars@.take(b.vars@.len() as int) =~= b.vars@);
    let mut ops = a.ops;
    ops.union_with(&b.ops);
    let r = StatsRec { mono: a.mono && b.mono, nodes, vars, ops };
    assert(stats_model(r) == st_join(am, bm));
    r
}

fn st_own_x(e: &TExpr) -> (r: StatsRec)
    ensures
        stats_model(r) == st_own(sexpr(*e)),
        r.nodes <= SPLICE_MAX_NODES + 1,
{
    let mono = sty_mono_x(&e.ty);
    let mut vars: Vec<String> = Vec::new();
    let mut ops = NameSet::new();
    match &e.kind {
        TExprKind::Var(n) => {
            vars.push(n.clone());
        },
        TExprKind::InfixApp { op, lhs: _, rhs: _ } => {
            if ident_op_x(op.as_str()) {
                ops.insert(op.as_str());
            }
        },
        _ => {},
    }
    let r = StatsRec { mono, nodes: 1, vars, ops };
    assert(views(r.vars@) =~= st_own(sexpr(*e)).vars);
    assert(r.ops@ =~= st_own(sexpr(*e)).ops);
    r
}

pub fn stats_x(e: &TExpr) -> (r: StatsRec)
    ensures
        stats_model(r) == stats(sexpr(*e)),
        r.nodes <= SPLICE_MAX_NODES + 1,
    decreases e,
{
    let own = st_own_x(e);
    let kids = match &e.kind {
        TExprKind::App(f, a) => st_join_x(stats_x(f), stats_x(a)),
        TExprKind::InfixApp { op: _, lhs, rhs } => st_join_x(stats_x(lhs), stats_x(rhs)),
        TExprKind::Lambda { params: _, body } => stats_x(body),
        TExprKind::Negate(x) => stats_x(x),
        TExprKind::Paren(x) => stats_x(x),
        TExprKind::If { cond, then_branch, else_branch } => st_join_x(st_join_x(stats_x(cond), stats_x(then_branch)),
            stats_x(else_branch)),
        TExprKind::Case { scrutinee, branches } => st_join_x(stats_x(scrutinee), stats_branches_x(branches)),
        TExprKind::Let { binds, body } => st_join_x(stats_defs_x(binds), stats_x(body)),
        TExprKind::Tuple(es) => stats_exprs_x(es),
        TExprKind::SpecCall { original: _, specialized: _, args } => stats_exprs_x(args),
        TExprKind::DictCall { func_name: _, dict_args, value_args } => st_join_x(stats_exprs_x(dict_args), stats_exprs_x(value_args)),
        TExprKind::DictMethod { dict, method_name: _ } => stats_x(dict),
        TExprKind::RecordUpdate { record, updates } => st_join_x(stats_x(record), stats_updates_x(updates)),
        TExprKind::OutgoingCallback { callee, arity: _ } => stats_x(callee),
        TExprKind::FfiMaybeArg { value } => stats_x(value),
        _ => st_none_x(),
    };
    st_join_x(own, kids)
}

fn stats_exprs_x(es: &Vec<TExpr>) -> (r: StatsRec)
    ensures
        stats_model(r) == stats_exprs(sexprs(es@)),
        r.nodes <= SPLICE_MAX_NODES + 1,
    decreases es,
{
    let mut acc = st_none_x();
    let mut i: usize = 0;
    assert(sexprs(es@).take(0) =~= Seq::<SExpr>::empty());
    while i < es.len()
        invariant
            i <= es@.len(),
            acc.nodes <= SPLICE_MAX_NODES + 1,
            stats_model(acc) == stats_exprs(sexprs(es@).take(i as int)),
        decreases es@.len() - i,
    {
        assert(decreases_to!(es => es@[i as int]));
        let ghost t = sexprs(es@).take(i as int + 1);
        assert(t.drop_last() =~= sexprs(es@).take(i as int));
        acc = st_join_x(acc, stats_x(&es[i]));
        i = i + 1;
    }
    assert(sexprs(es@).take(es@.len() as int) =~= sexprs(es@));
    acc
}

fn stats_updates_x(us: &Vec<(String, usize, TExpr)>) -> (r: StatsRec)
    ensures
        stats_model(r) == stats_updates(supdates(us@)),
        r.nodes <= SPLICE_MAX_NODES + 1,
    decreases us,
{
    let mut acc = st_none_x();
    let mut i: usize = 0;
    assert(supdates(us@).take(0) =~= Seq::<(Seq<char>, usize, SExpr)>::empty());
    while i < us.len()
        invariant
            i <= us@.len(),
            acc.nodes <= SPLICE_MAX_NODES + 1,
            stats_model(acc) == stats_updates(supdates(us@).take(i as int)),
        decreases us@.len() - i,
    {
        assert(decreases_to!(us => us@[i as int]));
        let ghost t = supdates(us@).take(i as int + 1);
        assert(t.drop_last() =~= supdates(us@).take(i as int));
        acc = st_join_x(acc, stats_x(&us[i].2));
        i = i + 1;
    }
    assert(supdates(us@).take(us@.len() as int) =~= supdates(us@));
    acc
}

fn stats_defs_x(ds: &Vec<TLocalDef>) -> (r: StatsRec)
    ensures
        stats_model(r) == stats_defs(sdefs(ds@)),
        r.nodes <= SPLICE_MAX_NODES + 1,
    decreases ds,
{
    let mut acc = st_none_x();
    let mut i: usize = 0;
    assert(sdefs(ds@).take(0) =~= Seq::<SDef>::empty());
    while i < ds.len()
        invariant
            i <= ds@.len(),
            acc.nodes <= SPLICE_MAX_NODES + 1,
            stats_model(acc) == stats_defs(sdefs(ds@).take(i as int)),
        decreases ds@.len() - i,
    {
        assert(decreases_to!(ds => ds@[i as int]));
        let ghost t = sdefs(ds@).take(i as int + 1);
        assert(t.drop_last() =~= sdefs(ds@).take(i as int));
        acc = st_join_x(acc, stats_x(&ds[i].body));
        i = i + 1;
    }
    assert(sdefs(ds@).take(ds@.len() as int) =~= sdefs(ds@));
    acc
}

fn stats_guards_x(gs: &Vec<TGuard>) -> (r: StatsRec)
    ensures
        stats_model(r) == stats_guards(sguards(gs@)),
        r.nodes <= SPLICE_MAX_NODES + 1,
    decreases gs,
{
    let mut acc = st_none_x();
    let mut i: usize = 0;
    assert(sguards(gs@).take(0) =~= Seq::<crate::tirview::SGuard>::empty());
    while i < gs.len()
        invariant
            i <= gs@.len(),
            acc.nodes <= SPLICE_MAX_NODES + 1,
            stats_model(acc) == stats_guards(sguards(gs@).take(i as int)),
        decreases gs@.len() - i,
    {
        assert(decreases_to!(gs => gs@[i as int]));
        let ghost t = sguards(gs@).take(i as int + 1);
        assert(t.drop_last() =~= sguards(gs@).take(i as int));
        let c = stats_x(&gs[i].condition);
        acc = st_join_x(st_join_x(acc, c), stats_x(&gs[i].body));
        i = i + 1;
    }
    assert(sguards(gs@).take(gs@.len() as int) =~= sguards(gs@));
    acc
}

fn stats_branches_x(bs: &Vec<TCaseBranch>) -> (r: StatsRec)
    ensures
        stats_model(r) == stats_branches(sbranches(bs@)),
        r.nodes <= SPLICE_MAX_NODES + 1,
    decreases bs,
{
    let mut acc = st_none_x();
    let mut i: usize = 0;
    assert(sbranches(bs@).take(0) =~= Seq::<crate::tirview::SBranch>::empty());
    while i < bs.len()
        invariant
            i <= bs@.len(),
            acc.nodes <= SPLICE_MAX_NODES + 1,
            stats_model(acc) == stats_branches(sbranches(bs@).take(i as int)),
        decreases bs@.len() - i,
    {
        assert(decreases_to!(bs => bs@[i as int]));
        let ghost t = sbranches(bs@).take(i as int + 1);
        assert(t.drop_last() =~= sbranches(bs@).take(i as int));
        let g = stats_guards_x(&bs[i].guards);
        acc = st_join_x(st_join_x(acc, g), stats_x(&bs[i].body));
        i = i + 1;
    }
    assert(sbranches(bs@).take(bs@.len() as int) =~= sbranches(bs@));
    acc
}

// ---------------------------------------------------------------------
// The tables of a round
// ---------------------------------------------------------------------

fn caf_x(f: &TFunction) -> (r: Option<TLiteral>)
    ensures
        opt_lit(r) == caf_of(sfn(*f)),
{
    let ghost sf = sfn(*f);
    if f.dict_params.len() != 0 || f.clauses.len() != 1 {
        return None;
    }
    let c = &f.clauses[0];
    assert(sf.clauses[0] == sclause(*c));
    if c.guards.len() != 0 || c.where_binds.len() != 0 || c.patterns.len() != 0 {
        return None;
    }
    match lit_of(&c.body) {
        Some(l) => match l {
            TLiteral::BigInteger(_) => None,
            TLiteral::Str(b) => if b.len() > STR_PROPAGATE_MAX { None } else { Some(copy_lit(l)) },
            _ => Some(copy_lit(l)),
        },
        None => None,
    }
}

/// The names of variable patterns, if every pattern is a variable.
fn var_names_x(pats: &Vec<TPattern>) -> (r: Option<Vec<String>>)
    ensures
        match r {
            Some(v) => all_var_pats(spats(pats@)) && views(v@) == pat_names(spats(pats@)),
            None => !all_var_pats(spats(pats@)),
        },
{
    let ghost sp = spats(pats@);
    let mut names: Vec<String> = Vec::new();
    let mut i: usize = 0;
    while i < pats.len()
        invariant
            i <= pats@.len(),
            sp == spats(pats@),
            names@.len() == i,
            forall|j: int| 0 <= j < i ==> (#[trigger] sp[j]) is Var && views(names@)[j] == pat_names(sp)[j],
        decreases pats@.len() - i,
    {
        match &pats[i] {
            TPattern::Var(n, _) => {
                let ghost nb = names@;
                names.push(n.clone());
                proof {
                    assert forall|j: int| 0 <= j < i + 1 implies (#[trigger] sp[j]) is Var && views(names@)[j] == pat_names(sp)[j] by {
                        if j < i {
                            assert(names@[j] == nb[j]);
                        }
                    }
                }
            },
            _ => {
                assert(!(sp[i as int] is Var));
                return None;
            },
        }
        i = i + 1;
    }
    assert(views(names@) =~= pat_names(sp));
    Some(names)
}

/// The parameter names of a plain equation with variable parameters only.
fn var_params_x(f: &TFunction) -> (r: Option<Vec<String>>)
    ensures
        match r {
            Some(v) => var_equation(sfn(*f)) && views(v@) == pat_names(sfn(*f).clauses[0].patterns),
            None => !var_equation(sfn(*f)),
        },
{
    let ghost sf = sfn(*f);
    if f.dict_params.len() != 0 || f.clauses.len() != 1 {
        return None;
    }
    let c = &f.clauses[0];
    assert(sf.clauses[0] == sclause(*c));
    if c.guards.len() != 0 || c.where_binds.len() != 0 || c.patterns.len() == 0 {
        return None;
    }
    var_names_x(&c.patterns)
}

/// An arithmetic function's table entry model.
pub open spec fn fn_env(es: Seq<(String, Vec<String>, TExpr)>) -> Map<Seq<char>, (Seq<Seq<char>>, SExpr)>
    decreases es.len(),
{
    if es.len() == 0 {
        Map::empty()
    } else {
        fn_env(es.drop_last()).insert(es.last().0@, (views(es.last().1@), sexpr(es.last().2)))
    }
}

proof fn lemma_fn_env_tail(es: Seq<(String, Vec<String>, TExpr)>, i: int, name: Seq<char>)
    requires
        0 <= i <= es.len(),
        forall|j: int| i <= j < es.len() ==> es[j].0@ != name,
    ensures
        fn_env(es).contains_key(name) == fn_env(es.take(i)).contains_key(name),
        fn_env(es).contains_key(name) ==> fn_env(es)[name] == fn_env(es.take(i))[name],
    decreases es.len(),
{
    if i == es.len() {
        assert(es.take(i) =~= es);
    } else {
        lemma_fn_env_tail(es.drop_last(), i, name);
        assert(es.drop_last().take(i) =~= es.take(i));
    }
}

fn fn_get<'a>(es: &'a Vec<(String, Vec<String>, TExpr)>, name: &str) -> (r: Option<&'a (String, Vec<String>, TExpr)>)
    ensures
        match r {
            Some(x) => fn_env(es@).contains_key(name@) && fn_env(es@)[name@] == (views(x.1@), sexpr(x.2)),
            None => !fn_env(es@).contains_key(name@),
        },
{
    let mut i: usize = es.len();
    while i > 0
        invariant
            i <= es@.len(),
            forall|j: int| i <= j < es@.len() ==> es@[j].0@ != name@,
        decreases i,
    {
        let k = i - 1;
        if crate::text::str_eq(es[k].0.as_str(), name) {
            proof {
                lemma_fn_env_tail(es@, i as int, name@);
                assert(es@.take(i as int).drop_last() =~= es@.take(k as int));
            }
            return Some(&es[k]);
        }
        i = k;
    }
    proof {
        lemma_fn_env_tail(es@, 0, name@);
    }
    None
}

/// A splice candidate, computed.
pub struct SpliceRec {
    pub params: Vec<String>,
    pub occ: Vec<usize>,
    pub body: TExpr,
    pub free: NameSet,
}

pub open spec fn splice_model(r: SpliceRec) -> Splice {
    Splice { params: views(r.params@), occ: r.occ@.map_values(|o: usize| o as nat), body: sexpr(r.body), free: r.free@ }
}

pub open spec fn cands_model(es: Seq<(String, SpliceRec)>) -> Seq<(Seq<char>, Splice)> {
    es.map_values(|e: (String, SpliceRec)| (e.0@, splice_model(e.1)))
}

fn count_x(vars: &Vec<String>, p: &str) -> (r: usize)
    ensures
        r as nat == count_of(views(vars@), p@),
{
    let mut n: usize = 0;
    let mut i: usize = 0;
    assert(views(vars@).take(0) =~= Seq::<Seq<char>>::empty());
    while i < vars.len()
        invariant
            i <= vars@.len(),
            n <= i,
            n as nat == count_of(views(vars@).take(i as int), p@),
        decreases vars@.len() - i,
    {
        let ghost t = views(vars@).take(i as int + 1);
        assert(t.drop_last() =~= views(vars@).take(i as int));
        assert(t.last() == vars@[i as int]@);
        if crate::text::str_eq(vars[i].as_str(), p) {
            n = n + 1;
        }
        i = i + 1;
    }
    assert(views(vars@).take(vars@.len() as int) =~= views(vars@));
    n
}

/// Is some name of `ps` in `s`?
fn any_in(ps: &Vec<String>, s: &NameSet) -> (r: bool)
    ensures
        r == exists|i: int| 0 <= i < views(ps@).len() && s@.contains(#[trigger] views(ps@)[i]),
{
    let mut i: usize = 0;
    while i < ps.len()
        invariant
            i <= ps@.len(),
            forall|j: int| 0 <= j < i ==> !s@.contains(#[trigger] views(ps@)[j]),
        decreases ps@.len() - i,
    {
        if s.contains(ps[i].as_str()) {
            assert(s@.contains(views(ps@)[i as int]));
            return true;
        }
        i = i + 1;
    }
    false
}

/// Drop every name of `ps`.
fn remove_all(s: &mut NameSet, ps: &Vec<String>)
    ensures
        final(s)@ == old(s)@.difference(views(ps@).to_set()),
{
    let ghost s0 = s@;
    let mut w: usize = 0;
    while w < ps.len()
        invariant
            w <= ps@.len(),
            s@ == Set::new(|x: Seq<char>| s0.contains(x) && !(exists|q: int| 0 <= q < w && #[trigger] ps@[q]@ == x)),
        decreases ps@.len() - w,
    {
        let ghost f0 = s@;
        s.remove(ps[w].as_str());
        proof {
            let s1 = Set::new(|x: Seq<char>| s0.contains(x) && !(exists|q: int| 0 <= q < w + 1 && #[trigger] ps@[q]@ == x));
            assert forall|x: Seq<char>| s@.contains(x) == s1.contains(x) by {
                if exists|q: int| 0 <= q < w + 1 && #[trigger] ps@[q]@ == x {
                    let q = choose|q: int| 0 <= q < w + 1 && #[trigger] ps@[q]@ == x;
                    if q < w {
                        assert(!f0.contains(x));
                    }
                }
            }
            assert(s@ =~= s1);
        }
        w = w + 1;
    }
    proof {
        let v = views(ps@);
        assert forall|x: Seq<char>| s@.contains(x) == s0.difference(v.to_set()).contains(x) by {
            if v.contains(x) {
                let q = choose|q: int| 0 <= q < v.len() && v[q] == x;
                assert(ps@[q]@ == x);
            }
            if exists|q: int| 0 <= q < ps@.len() && #[trigger] ps@[q]@ == x {
                let q = choose|q: int| 0 <= q < ps@.len() && #[trigger] ps@[q]@ == x;
                assert(v[q] == x);
            }
        }
        assert(s@ =~= s0.difference(v.to_set()));
    }
}

fn splice_x(f: &TFunction) -> (r: Option<SpliceRec>)
    ensures
        match r {
            Some(x) => splice_of(sfn(*f)) == Some(splice_model(x)),
            None => splice_of(sfn(*f)) is None,
        },
{
    let ghost sf = sfn(*f);
    let params = match var_params_x(f) {
        Some(v) => v,
        None => {
            return None;
        },
    };
    let c = &f.clauses[0];
    assert(sf.clauses[0] == sclause(*c));
    let ghost ps = views(params@);
    let st = stats_x(&c.body);
    let ghost stm = stats_model(st);
    if !(sty_mono_x(&f.ty) && st.mono && st.nodes <= SPLICE_MAX_NODES) {
        return None;
    }
    if any_in(&params, &st.ops) {
        return None;
    }
    let mut occ: Vec<usize> = Vec::new();
    let mut j: usize = 0;
    while j < params.len()
        invariant
            j <= params@.len(),
            ps == views(params@),
            stm == stats_model(st),
            occ@.len() == j,
            forall|q: int| 0 <= q < j ==> #[trigger] occ@[q] as nat == count_of(stm.vars, ps[q]),
        decreases params@.len() - j,
    {
        let k = count_x(&st.vars, params[j].as_str());
        occ.push(k);
        j = j + 1;
    }
    let mut free = NameSet::new();
    let mut v: usize = 0;
    while v < st.vars.len()
        invariant
            v <= st.vars@.len(),
            stm == stats_model(st),
            free@ == Set::new(|x: Seq<char>| exists|q: int| 0 <= q < v && #[trigger] st.vars@[q]@ == x),
        decreases st.vars@.len() - v,
    {
        let ghost f0 = free@;
        free.insert(st.vars[v].as_str());
        proof {
            let s1 = Set::new(|x: Seq<char>| exists|q: int| 0 <= q < v + 1 && #[trigger] st.vars@[q]@ == x);
            assert forall|x: Seq<char>| free@.contains(x) == s1.contains(x) by {
                if s1.contains(x) {
                    let q = choose|q: int| 0 <= q < v + 1 && #[trigger] st.vars@[q]@ == x;
                    if q < v {
                        assert(f0.contains(x));
                    }
                }
                if f0.contains(x) {
                    let q = choose|q: int| 0 <= q < v && #[trigger] st.vars@[q]@ == x;
                    assert(s1.contains(x));
                }
            }
            assert(free@ =~= s1);
        }
        v = v + 1;
    }
    proof {
        assert forall|x: Seq<char>| free@.contains(x) == stm.vars.to_set().contains(x) by {
            if free@.contains(x) {
                let q = choose|q: int| 0 <= q < st.vars@.len() && #[trigger] st.vars@[q]@ == x;
                assert(stm.vars[q] == x);
            }
            if stm.vars.contains(x) {
                let q = choose|q: int| 0 <= q < stm.vars.len() && stm.vars[q] == x;
                assert(st.vars@[q]@ == x);
            }
        }
        assert(free@ =~= stm.vars.to_set());
    }
    free.union_with(&st.ops);
    remove_all(&mut free, &params);
    let body = copy_expr(&c.body);
    let r = SpliceRec { params, occ, body, free };
    proof {
        assert(!(exists|i: int| 0 <= i < ps.len() && stm.ops.contains(#[trigger] ps[i])));
        assert(splice_model(r).occ =~= Seq::new(ps.len(), |i: int| count_of(stm.vars, ps[i])));
    }
    Some(r)
}

proof fn lemma_cand_tail(es: Seq<(Seq<char>, Splice)>, i: int, name: Seq<char>)
    requires
        0 <= i <= es.len(),
        forall|j: int| i <= j < es.len() ==> es[j].0 != name,
    ensures
        cand_map(es).contains_key(name) == cand_map(es.take(i)).contains_key(name),
        cand_map(es).contains_key(name) ==> cand_map(es)[name] == cand_map(es.take(i))[name],
    decreases es.len(),
{
    if i == es.len() {
        assert(es.take(i) =~= es);
    } else {
        lemma_cand_tail(es.drop_last(), i, name);
        assert(es.drop_last().take(i) =~= es.take(i));
    }
}

fn cand_get<'a>(es: &'a Vec<(String, SpliceRec)>, name: &str) -> (r: Option<&'a SpliceRec>)
    ensures
        match r {
            Some(x) => cand_map(cands_model(es@)).contains_key(name@) && cand_map(cands_model(es@))[name@] == splice_model(*x),
            None => !cand_map(cands_model(es@)).contains_key(name@),
        },
{
    let ghost cm = cands_model(es@);
    let mut i: usize = es.len();
    while i > 0
        invariant
            i <= es@.len(),
            cm == cands_model(es@),
            forall|j: int| i <= j < cm.len() ==> cm[j].0 != name@,
        decreases i,
    {
        let k = i - 1;
        if crate::text::str_eq(es[k].0.as_str(), name) {
            proof {
                lemma_cand_tail(cm, i as int, name@);
                assert(cm.take(i as int).drop_last() =~= cm.take(k as int));
            }
            return Some(&es[k].1);
        }
        i = k;
    }
    proof {
        lemma_cand_tail(cm, 0, name@);
    }
    None
}

/// Is every candidate that `free` names already safe?
fn refs_safe_x(free: &NameSet, es: &Vec<(String, SpliceRec)>, safe: &NameSet) -> (r: bool)
    ensures
        r == (forall|x: Seq<char>| free@.contains(x) ==> !cand_map(cands_model(es@)).contains_key(x) || safe@.contains(x)),
{
    let ghost cm = cand_map(cands_model(es@));
    let xs = free.to_vec();
    let mut i: usize = 0;
    while i < xs.len()
        invariant
            i <= xs@.len(),
            cm == cand_map(cands_model(es@)),
            forall|k: Seq<char>| free@.contains(k) <==> exists|j: int| 0 <= j < xs@.len() && #[trigger] xs@[j]@ == k,
            forall|j: int| 0 <= j < i ==> !cm.contains_key(#[trigger] xs@[j]@) || safe@.contains(xs@[j]@),
        decreases xs@.len() - i,
    {
        let known = cand_get(es, xs[i].as_str()).is_some();
        if known && !safe.contains(xs[i].as_str()) {
            assert(xs@[i as int]@ == xs@[i as int]@);
            assert(exists|j: int| 0 <= j < xs@.len() && #[trigger] xs@[j]@ == xs@[i as int]@);
            assert(free@.contains(xs@[i as int]@));
            return false;
        }
        i = i + 1;
    }
    proof {
        assert forall|x: Seq<char>| free@.contains(x) implies !cm.contains_key(x) || safe@.contains(x) by {
            let j = choose|j: int| 0 <= j < xs@.len() && #[trigger] xs@[j]@ == x;
        }
    }
    true
}

fn prune_pass_x(es: &Vec<(String, SpliceRec)>, safe: &mut NameSet) -> (grew: bool)
    ensures
        (final(safe)@, grew) == prune_pass(cands_model(es@), cand_map(cands_model(es@)), old(safe)@),
{
    let ghost cl = cands_model(es@);
    let ghost cm = cand_map(cl);
    let ghost s0 = safe@;
    let mut grew = false;
    let mut i: usize = 0;
    assert(cl.take(0).len() == 0);
    while i < es.len()
        invariant
            i <= es@.len(),
            cl == cands_model(es@),
            cm == cand_map(cl),
            (safe@, grew) == prune_pass(cl.take(i as int), cm, s0),
        decreases es@.len() - i,
    {
        let ghost t = cl.take(i as int + 1);
        assert(t.drop_last() =~= cl.take(i as int));
        assert(t.last() == cl[i as int]);
        let name = es[i].0.as_str();
        if !safe.contains(name) {
            match cand_get(es, name) {
                Some(rec) => {
                    if refs_safe_x(&rec.free, es, safe) {
                        safe.insert(name);
                        grew = true;
                    }
                },
                None => {
                    proof {
                        lemma_cand_in(cl, i as int);
                    }
                },
            }
        }
        i = i + 1;
    }
    assert(cl.take(es@.len() as int) =~= cl);
    grew
}

proof fn lemma_cand_in(cl: Seq<(Seq<char>, Splice)>, i: int)
    requires
        0 <= i < cl.len(),
    ensures
        cand_map(cl).contains_key(cl[i].0),
    decreases cl.len(),
{
    if i < cl.len() - 1 {
        lemma_cand_in(cl.drop_last(), i);
    }
}

fn prune_x(es: &Vec<(String, SpliceRec)>) -> (r: NameSet)
    ensures
        r@ == prune_fix(cands_model(es@), cand_map(cands_model(es@)), Set::empty(), FOLD_ROUNDS as nat),
{
    let ghost cl = cands_model(es@);
    let ghost cm = cand_map(cl);
    let mut safe = NameSet::new();
    let mut left: u64 = FOLD_ROUNDS;
    loop
        invariant_except_break
            prune_fix(cl, cm, Set::empty(), FOLD_ROUNDS as nat) == prune_fix(cl, cm, safe@, left as nat),
        invariant
            cl == cands_model(es@),
            cm == cand_map(cl),
        ensures
            prune_fix(cl, cm, Set::empty(), FOLD_ROUNDS as nat) == safe@,
        decreases left,
    {
        if left == 0 {
            break;
        }
        let grew = prune_pass_x(es, &mut safe);
        if !grew {
            break;
        }
        left = left - 1;
    }
    safe
}

/// One round's tables, computed.
pub struct FoldTables {
    pub cafs: Vec<(String, TLiteral)>,
    pub fns: Vec<(String, Vec<String>, TExpr)>,
    pub cands: Vec<(String, SpliceRec)>,
    pub safe: NameSet,
}

pub open spec fn tables_model(t: FoldTables) -> FoldEnv {
    FoldEnv { cafs: lit_env(t.cafs@), fns: fn_env(t.fns@), splices: cand_map(cands_model(t.cands@)).restrict(t.safe@) }
}

fn build_tables(fs: &Vec<TFunction>) -> (r: FoldTables)
    ensures
        tables_model(r) == env_of(sfns(fs@)),
{
    let ghost sf = sfns(fs@);
    let mut cafs: Vec<(String, TLiteral)> = Vec::new();
    let mut fns: Vec<(String, Vec<String>, TExpr)> = Vec::new();
    let mut cands: Vec<(String, SpliceRec)> = Vec::new();
    let mut i: usize = 0;
    assert(sf.take(0).len() == 0);
    assert(cands_model(cands@) =~= Seq::<(Seq<char>, Splice)>::empty());
    while i < fs.len()
        invariant
            i <= fs@.len(),
            sf == sfns(fs@),
            lit_env(cafs@) == cafs_of(sf.take(i as int)),
            fn_env(fns@) == arith_fns_of(sf.take(i as int)),
            cands_model(cands@) == cand_list(sf.take(i as int)),
        decreases fs@.len() - i,
    {
        let ghost t = sf.take(i as int + 1);
        assert(t.drop_last() =~= sf.take(i as int));
        assert(t.last() == sfn(fs@[i as int]));
        let f = &fs[i];
        match caf_x(f) {
            Some(l) => {
                let ghost c0 = cafs@;
                cafs.push((f.name.clone(), l));
                assert(cafs@.drop_last() =~= c0);
            },
            None => {},
        }
        match var_params_x(f) {
            Some(names) => {
                assert(sfn(*f).clauses[0] == sclause(f.clauses@[0]));
                if arith_only_x(&f.clauses[0].body, &names) {
                    let ghost f0 = fns@;
                    fns.push((f.name.clone(), names, copy_expr(&f.clauses[0].body)));
                    assert(fns@.drop_last() =~= f0);
                }
            },
            None => {},
        }
        match splice_x(f) {
            Some(rec) => {
                let ghost k0 = cands@;
                cands.push((f.name.clone(), rec));
                assert(cands_model(cands@) =~= cands_model(k0).push((f.name@, splice_model(rec))));
            },
            None => {},
        }
        i = i + 1;
    }
    assert(sf.take(fs@.len() as int) =~= sf);
    let safe = prune_x(&cands);
    FoldTables { cafs, fns, cands, safe }
}

// ---------------------------------------------------------------------
// Calls on literals
// ---------------------------------------------------------------------

pub open spec fn ref_views(v: Seq<&TExpr>) -> Seq<SExpr> {
    v.map_values(|e: &TExpr| sexpr(*e))
}

fn spine_x<'a>(e: &'a TExpr, args: &mut Vec<&'a TExpr>) -> (h: &'a TExpr)
    ensures
        sexpr(*h) == app_head(sexpr(*e)),
        ref_views(final(args)@) == ref_views(old(args)@) + app_args(sexpr(*e)),
    decreases e,
{
    match &e.kind {
        TExprKind::App(f, a) => {
            let h = spine_x(f, args);
            let ghost a0 = args@;
            args.push(a);
            assert(ref_views(args@) =~= ref_views(a0).push(sexpr(**a)));
            h
        },
        _ => {
            assert(ref_views(args@) =~= ref_views(args@) + Seq::<SExpr>::empty());
            e
        },
    }
}

/// The parameters bound to the arguments' literals, if every argument is
/// one.
fn bind_x(ps: &Vec<String>, args: &Vec<&TExpr>) -> (r: Option<Vec<(String, TLiteral)>>)
    requires
        ps@.len() == args@.len(),
    ensures
        match r {
            Some(b) => all_lits(ref_views(args@)) && lit_env(b@) == bind_env(views(ps@), ref_views(args@)),
            None => !all_lits(ref_views(args@)),
        },
{
    let ghost av = ref_views(args@);
    let ghost pv = views(ps@);
    let mut out: Vec<(String, TLiteral)> = Vec::new();
    let mut i: usize = 0;
    assert(pv.take(0).len() == 0);
    while i < ps.len()
        invariant
            i <= ps@.len(),
            ps@.len() == args@.len(),
            av == ref_views(args@),
            pv == views(ps@),
            forall|j: int| 0 <= j < i ==> (#[trigger] s_lit(av[j])) is Some,
            lit_env(out@) == bind_env(pv.take(i as int), av.take(i as int)),
        decreases ps@.len() - i,
    {
        match lit_of(args[i]) {
            Some(l) => {
                let ghost o0 = out@;
                out.push((ps[i].clone(), copy_lit(l)));
                proof {
                    assert(out@.drop_last() =~= o0);
                    assert(pv.take(i as int + 1).drop_last() =~= pv.take(i as int));
                    assert(av.take(i as int + 1).drop_last() =~= av.take(i as int));
                    assert(av[i as int] == sexpr(*args@[i as int]));
                }
            },
            None => {
                assert(av[i as int] == sexpr(*args@[i as int]));
                return None;
            },
        }
        i = i + 1;
    }
    assert(pv.take(ps@.len() as int) =~= pv);
    assert(av.take(ps@.len() as int) =~= av);
    Some(out)
}

fn try_call_x(env: &FoldTables, sh: &NameSet, app: &TExpr) -> (r: Option<TLiteral>)
    ensures
        opt_lit(r) == try_call(tables_model(*env), sh@, sexpr(*app)),
{
    let mut args: Vec<&TExpr> = Vec::new();
    let h = spine_x(app, &mut args);
    assert(ref_views(args@) =~= app_args(sexpr(*app)));
    match &h.kind {
        TExprKind::Var(name) => {
            if sh.contains(name.as_str()) {
                return None;
            }
            match fn_get(&env.fns, name.as_str()) {
                Some(entry) => {
                    if args.len() != entry.1.len() {
                        return None;
                    }
                    match bind_x(&entry.1, &args) {
                        Some(b) => {
                            let body = subst_x(&entry.2, &b);
                            let folded = fold_arith_x(&body);
                            match folded.kind {
                                TExprKind::Lit(l) => Some(l),
                                _ => None,
                            }
                        },
                        None => None,
                    }
                },
                None => None,
            }
        },
        _ => None,
    }
}

/// No argument is a long string literal whose parameter occurs more than
/// once.
fn long_strings_ok(args: &Vec<&TExpr>, occ: &Vec<usize>) -> (r: bool)
    ensures
        r == forall|j: int| 0 <= j < args@.len() ==> !(match #[trigger] s_lit(ref_views(args@)[j]) {
            Some(LitV::Str(b)) => b.len() > STR_PROPAGATE_MAX && j < occ@.map_values(|o: usize| o as nat).len()
                && occ@.map_values(|o: usize| o as nat)[j] > 1,
            _ => false,
        }),
{
    let ghost av = ref_views(args@);
    let ghost om = occ@.map_values(|o: usize| o as nat);
    let mut i: usize = 0;
    while i < args.len()
        invariant
            i <= args@.len(),
            av == ref_views(args@),
            om == occ@.map_values(|o: usize| o as nat),
            forall|j: int| 0 <= j < i ==> !(match #[trigger] s_lit(av[j]) {
                Some(LitV::Str(b)) => b.len() > STR_PROPAGATE_MAX && j < om.len() && om[j] > 1,
                _ => false,
            }),
        decreases args@.len() - i,
    {
        assert(av[i as int] == sexpr(*args@[i as int]));
        match lit_of(args[i]) {
            Some(TLiteral::Str(bytes)) => {
                if bytes.len() > STR_PROPAGATE_MAX && i < occ.len() && occ[i] > 1 {
                    assert(om[i as int] == occ@[i as int] as nat);
                    assert(s_lit(av[i as int]) == Some(LitV::Str(bytes@)));
                    return false;
                }
            },
            _ => {},
        }
        i = i + 1;
    }
    true
}

/// `a` and `b` share no name.
fn disjoint_x(a: &NameSet, b: &NameSet) -> (r: bool)
    ensures
        r == !(exists|x: Seq<char>| a@.contains(x) && b@.contains(x)),
{
    let xs = a.to_vec();
    let mut j: usize = 0;
    while j < xs.len()
        invariant
            j <= xs@.len(),
            forall|k: Seq<char>| a@.contains(k) <==> exists|q: int| 0 <= q < xs@.len() && #[trigger] xs@[q]@ == k,
            forall|q: int| 0 <= q < j ==> !b@.contains(#[trigger] xs@[q]@),
        decreases xs@.len() - j,
    {
        if b.contains(xs[j].as_str()) {
            assert(exists|q: int| 0 <= q < xs@.len() && #[trigger] xs@[q]@ == xs@[j as int]@);
            assert(a@.contains(xs@[j as int]@) && b@.contains(xs@[j as int]@));
            return false;
        }
        j = j + 1;
    }
    proof {
        assert forall|x: Seq<char>| !(a@.contains(x) && b@.contains(x)) by {
            if a@.contains(x) {
                let q = choose|q: int| 0 <= q < xs@.len() && #[trigger] xs@[q]@ == x;
            }
        }
    }
    true
}

fn try_splice_x(env: &FoldTables, sh: &NameSet, app: &TExpr) -> (r: Option<TExpr>)
    ensures
        match r {
            Some(x) => try_splice(tables_model(*env), sh@, sexpr(*app)) == Some(sexpr(x)),
            None => try_splice(tables_model(*env), sh@, sexpr(*app)) is None,
        },
{
    let ghost em = tables_model(*env);
    let mut args: Vec<&TExpr> = Vec::new();
    let h = spine_x(app, &mut args);
    let ghost av = ref_views(args@);
    assert(av =~= app_args(sexpr(*app)));
    let name = match &h.kind {
        TExprKind::Var(name) => name,
        _ => {
            return None;
        },
    };
    if sh.contains(name.as_str()) || !env.safe.contains(name.as_str()) {
        return None;
    }
    let rec = match cand_get(&env.cands, name.as_str()) {
        Some(rec) => rec,
        None => {
            return None;
        },
    };
    let ghost sp = splice_model(*rec);
    assert(em.splices.contains_key(name@) && em.splices[name@] == sp);
    if args.len() != rec.params.len() {
        return None;
    }
    let b = match bind_x(&rec.params, &args) {
        Some(b) => b,
        None => {
            return None;
        },
    };
    if !long_strings_ok(&args, &rec.occ) || !disjoint_x(&rec.free, sh) {
        return None;
    }
    assert(splice_args_ok(sp, av));
    let s = subst_x(&rec.body, &b);
    Some(TExpr { kind: s.kind, ty: copy_ty(&app.ty) })
}

/// The rewrite of a node whose children are folded.
fn rewrite_x(env: &FoldTables, sh: &NameSet, n: &TExpr) -> (r: Option<TExpr>)
    ensures
        match r {
            Some(x) => rewrite(tables_model(*env), sh@, sexpr(*n)) == Some(sexpr(x)),
            None => rewrite(tables_model(*env), sh@, sexpr(*n)) is None,
        },
{
    assert(sexpr(*n).kind == skind(n.kind));
    match &n.kind {
        TExprKind::Var(name) => {
            if !sh.contains(name.as_str()) {
                match env_get(&env.cafs, name.as_str()) {
                    Some(l) => Some(TExpr { kind: TExprKind::Lit(copy_lit(l)), ty: copy_ty(&n.ty) }),
                    None => None,
                }
            } else {
                None
            }
        },
        TExprKind::InfixApp { op, lhs, rhs } => match infix_of(op.as_str(), lhs, rhs) {
            Some(v) => Some(TExpr { kind: TExprKind::Lit(v), ty: copy_ty(&n.ty) }),
            None => None,
        },
        TExprKind::Negate(x) => match lit_of(x) {
            Some(l) => match fold_negate(l) {
                Some(v) => Some(TExpr { kind: TExprKind::Lit(v), ty: copy_ty(&n.ty) }),
                None => None,
            },
            None => None,
        },
        TExprKind::If { cond, then_branch, else_branch } => match lit_of(cond) {
            Some(TLiteral::Bool(b)) => if *b { Some(copy_expr(then_branch)) } else { Some(copy_expr(else_branch)) },
            _ => None,
        },
        TExprKind::App(f, a) => {
            assert(sexpr(**f).kind == skind(f.kind));
            match &f.kind {
                TExprKind::App(ff, _) => {
                    assert(sexpr(**ff).kind == skind(ff.kind));
                },
                _ => {},
            }
            let shown = match &f.kind {
                TExprKind::Var(name) => {
                    if !sh.contains(name.as_str()) {
                        proof {
                            lemma_lit_view(**a);
                        }
                        crate::fold::try_fold_show(name.as_str(), a)
                    } else {
                        None
                    }
                },
                _ => None,
            };
            let method = match &f.kind {
                TExprKind::App(ff, lhs) => match &ff.kind {
                    TExprKind::Var(name) => match crate::fold::resolved_method_to_op(name.as_str()) {
                        Some(op) => infix_of(op, lhs, a),
                        None => None,
                    },
                    _ => None,
                },
                _ => None,
            };
            match shown {
                Some(v) => Some(TExpr { kind: TExprKind::Lit(v), ty: copy_ty(&n.ty) }),
                None => match method {
                    Some(v) => Some(TExpr { kind: TExprKind::Lit(v), ty: copy_ty(&n.ty) }),
                    None => match try_call_x(env, sh, n) {
                        Some(v) => Some(TExpr { kind: TExprKind::Lit(v), ty: copy_ty(&n.ty) }),
                        None => None,
                    },
                },
            }
        },
        _ => None,
    }
}

// ---------------------------------------------------------------------
// The fold
// ---------------------------------------------------------------------

pub fn fold_x(env: &FoldTables, sh: &NameSet, k: u64, e: &TExpr) -> (r: (TExpr, bool))
    ensures
        (sexpr(r.0), r.1) == sfold(tables_model(*env), sh@, k as nat, sexpr(*e)),
    decreases k, e, 1nat,
{
    let ghost em = tables_model(*env);
    assert(sexpr(*e).kind == skind(e.kind));
    match &e.kind {
        TExprKind::Lambda { params, body } => {
            let mut sh2 = names_copy(sh);
            add_param_names(params, &mut sh2);
            let (b, c) = fold_x(env, &sh2, k, body);
            (TExpr { kind: TExprKind::Lambda { params: copy_params(params), body: Box::new(b) }, ty: copy_ty(&e.ty) }, c)
        },
        TExprKind::Let { binds, body } => {
            let mut sh2 = names_copy(sh);
            add_def_names(binds, &mut sh2);
            let (bs, c1) = fold_defs_x(env, &sh2, k, binds);
            let (b, c2) = fold_x(env, &sh2, k, body);
            (TExpr { kind: TExprKind::Let { binds: bs, body: Box::new(b) }, ty: copy_ty(&e.ty) }, c1 || c2)
        },
        TExprKind::Case { scrutinee, branches } => {
            let (sc, c1) = fold_x(env, sh, k, scrutinee);
            let (bs, c2) = fold_branches_x(env, sh, k, branches);
            (TExpr { kind: TExprKind::Case { scrutinee: Box::new(sc), branches: bs }, ty: copy_ty(&e.ty) }, c1 || c2)
        },
        _ => {
            let (kk, c1) = fold_kids_x(env, sh, k, e);
            let n = TExpr { kind: kk, ty: copy_ty(&e.ty) };
            assert(sexpr(n) == (SExpr { kind: sfold_kids(em, sh@, k as nat, sexpr(*e)).0, ty: sexpr(*e).ty }));
            match rewrite_x(env, sh, &n) {
                Some(r) => (r, true),
                None => {
                    let is_app = match &n.kind {
                        TExprKind::App(_, _) => true,
                        _ => false,
                    };
                    assert(is_app == (sexpr(n).kind is App));
                    if k > 0 && is_app {
                        match try_splice_x(env, sh, &n) {
                            Some(sp) => {
                                let (r, _) = fold_x(env, sh, k - 1, &sp);
                                (r, true)
                            },
                            None => (n, c1),
                        }
                    } else {
                        (n, c1)
                    }
                },
            }
        },
    }
}

fn fold_kids_x(env: &FoldTables, sh: &NameSet, k: u64, e: &TExpr) -> (r: (TExprKind, bool))
    ensures
        (skind(r.0), r.1) == sfold_kids(tables_model(*env), sh@, k as nat, sexpr(*e)),
    decreases k, e, 0nat,
{
    assert(sexpr(*e).kind == skind(e.kind));
    match &e.kind {
        TExprKind::App(f, a) => {
            let (x, c1) = fold_x(env, sh, k, f);
            let (y, c2) = fold_x(env, sh, k, a);
            (TExprKind::App(Box::new(x), Box::new(y)), c1 || c2)
        },
        TExprKind::InfixApp { op, lhs, rhs } => {
            let (x, c1) = fold_x(env, sh, k, lhs);
            let (y, c2) = fold_x(env, sh, k, rhs);
            (TExprKind::InfixApp { op: op.clone(), lhs: Box::new(x), rhs: Box::new(y) }, c1 || c2)
        },
        TExprKind::Negate(x) => {
            let (y, c) = fold_x(env, sh, k, x);
            (TExprKind::Negate(Box::new(y)), c)
        },
        TExprKind::Paren(x) => {
            let (y, c) = fold_x(env, sh, k, x);
            (TExprKind::Paren(Box::new(y)), c)
        },
        TExprKind::If { cond, then_branch, else_branch } => {
            let (x, c1) = fold_x(env, sh, k, cond);
            let (y, c2) = fold_x(env, sh, k, then_branch);
            let (z, c3) = fold_x(env, sh, k, else_branch);
            (TExprKind::If { cond: Box::new(x), then_branch: Box::new(y), else_branch: Box::new(z) }, c1 || c2 || c3)
        },
        TExprKind::Tuple(es) => {
            let (xs, c) = fold_exprs_x(env, sh, k, es);
            (TExprKind::Tuple(xs), c)
        },
        TExprKind::SpecCall { original, specialized, args } => {
            let (xs, c) = fold_exprs_x(env, sh, k, args);
            (TExprKind::SpecCall { original: original.clone(), specialized: copy_spec(specialized), args: xs }, c)
        },
        TExprKind::DictCall { func_name, dict_args, value_args } => {
            let (xs, c1) = fold_exprs_x(env, sh, k, dict_args);
            let (ys, c2) = fold_exprs_x(env, sh, k, value_args);
            (TExprKind::DictCall { func_name: func_name.clone(), dict_args: xs, value_args: ys }, c1 || c2)
        },
        TExprKind::DictMethod { dict, method_name } => {
            let (y, c) = fold_x(env, sh, k, dict);
            (TExprKind::DictMethod { dict: Box::new(y), method_name: method_name.clone() }, c)
        },
        TExprKind::RecordUpdate { record, updates } => {
            let (x, c1) = fold_x(env, sh, k, record);
            let (us, c2) = fold_updates_x(env, sh, k, updates);
            (TExprKind::RecordUpdate { record: Box::new(x), updates: us }, c1 || c2)
        },
        TExprKind::OutgoingCallback { callee, arity } => {
            let (y, c) = fold_x(env, sh, k, callee);
            (TExprKind::OutgoingCallback { callee: Box::new(y), arity: *arity }, c)
        },
        TExprKind::FfiMaybeArg { value } => {
            let (y, c) = fold_x(env, sh, k, value);
            (TExprKind::FfiMaybeArg { value: Box::new(y) }, c)
        },
        TExprKind::Var(x) => (TExprKind::Var(x.clone()), false),
        TExprKind::Con(x) => (TExprKind::Con(x.clone()), false),
        TExprKind::Lit(l) => (TExprKind::Lit(copy_lit(l)), false),
        TExprKind::OpFunc(x) => (TExprKind::OpFunc(x.clone()), false),
        TExprKind::DictAccess { class_name, method_name } => (TExprKind::DictAccess {
            class_name: class_name.clone(),
            method_name: method_name.clone(),
        }, false),
        TExprKind::Lambda { params, body } => (TExprKind::Lambda { params: copy_params(params), body: Box::new(copy_expr(body)) }, false),
        TExprKind::Let { binds, body } => (TExprKind::Let { binds: crate::tirview::copy_defs(binds), body: Box::new(copy_expr(body)) }, false),
        TExprKind::Case { scrutinee, branches } => (TExprKind::Case {
            scrutinee: Box::new(copy_expr(scrutinee)),
            branches: crate::tirview::copy_branches(branches),
        }, false),
    }
}

fn fold_exprs_x(env: &FoldTables, sh: &NameSet, k: u64, es: &Vec<TExpr>) -> (r: (Vec<TExpr>, bool))
    ensures
        (sexprs(r.0@), r.1) == sfold_exprs(tables_model(*env), sh@, k as nat, sexprs(es@)),
    decreases k, es, 0nat,
{
    let ghost em = tables_model(*env);
    let ghost sv = sexprs(es@);
    let mut out: Vec<TExpr> = Vec::new();
    let mut c = false;
    let mut i: usize = 0;
    assert(sv.take(0) =~= Seq::<SExpr>::empty());
    assert(sexprs(out@) =~= Seq::<SExpr>::empty());
    while i < es.len()
        invariant
            i <= es@.len(),
            em == tables_model(*env),
            sv == sexprs(es@),
            (sexprs(out@), c) == sfold_exprs(em, sh@, k as nat, sv.take(i as int)),
        decreases es@.len() - i,
    {
        assert(decreases_to!(es => es@[i as int]));
        let ghost t = sv.take(i as int + 1);
        assert(t.drop_last() =~= sv.take(i as int));
        assert(t.last() == sexpr(es@[i as int]));
        let (x, c2) = fold_x(env, sh, k, &es[i]);
        let ghost o0 = out@;
        out.push(x);
        assert(sexprs(out@) =~= sexprs(o0).push(sexpr(x)));
        c = c || c2;
        i = i + 1;
    }
    assert(sv.take(es@.len() as int) =~= sv);
    (out, c)
}

fn fold_updates_x(env: &FoldTables, sh: &NameSet, k: u64, us: &Vec<(String, usize, TExpr)>) -> (r: (Vec<(String, usize, TExpr)>, bool))
    ensures
        (supdates(r.0@), r.1) == sfold_updates(tables_model(*env), sh@, k as nat, supdates(us@)),
    decreases k, us, 0nat,
{
    let ghost em = tables_model(*env);
    let ghost sv = supdates(us@);
    let mut out: Vec<(String, usize, TExpr)> = Vec::new();
    let mut c = false;
    let mut i: usize = 0;
    assert(sv.take(0) =~= Seq::<(Seq<char>, usize, SExpr)>::empty());
    assert(supdates(out@) =~= Seq::<(Seq<char>, usize, SExpr)>::empty());
    while i < us.len()
        invariant
            i <= us@.len(),
            em == tables_model(*env),
            sv == supdates(us@),
            (supdates(out@), c) == sfold_updates(em, sh@, k as nat, sv.take(i as int)),
        decreases us@.len() - i,
    {
        assert(decreases_to!(us => us@[i as int]));
        let ghost t = sv.take(i as int + 1);
        assert(t.drop_last() =~= sv.take(i as int));
        assert(t.last() == (us@[i as int].0@, us@[i as int].1, sexpr(us@[i as int].2)));
        let (x, c2) = fold_x(env, sh, k, &us[i].2);
        let ghost o0 = out@;
        out.push((us[i].0.clone(), us[i].1, x));
        assert(supdates(out@) =~= supdates(o0).push((us@[i as int].0@, us@[i as int].1, sexpr(x))));
        c = c || c2;
        i = i + 1;
    }
    assert(sv.take(us@.len() as int) =~= sv);
    (out, c)
}

fn fold_defs_x(env: &FoldTables, sh: &NameSet, k: u64, ds: &Vec<TLocalDef>) -> (r: (Vec<TLocalDef>, bool))
    ensures
        (sdefs(r.0@), r.1) == sfold_defs(tables_model(*env), sh@, k as nat, sdefs(ds@)),
    decreases k, ds, 0nat,
{
    let ghost em = tables_model(*env);
    let ghost sv = sdefs(ds@);
    let mut out: Vec<TLocalDef> = Vec::new();
    let mut c = false;
    let mut i: usize = 0;
    assert(sv.take(0) =~= Seq::<SDef>::empty());
    assert(sdefs(out@) =~= Seq::<SDef>::empty());
    while i < ds.len()
        invariant
            i <= ds@.len(),
            em == tables_model(*env),
            sv == sdefs(ds@),
            (sdefs(out@), c) == sfold_defs(em, sh@, k as nat, sv.take(i as int)),
        decreases ds@.len() - i,
    {
        assert(decreases_to!(ds => ds@[i as int]));
        let ghost t = sv.take(i as int + 1);
        assert(t.drop_last() =~= sv.take(i as int));
        assert(t.last() == crate::tirview::sdef(ds@[i as int]));
        let d = &ds[i];
        let mut sh2 = names_copy(sh);
        add_pats_vars(&d.patterns, &mut sh2);
        let (b, c2) = fold_x(env, &sh2, k, &d.body);
        let nd = TLocalDef { name: d.name.clone(), patterns: copy_pats(&d.patterns), body: b };
        let ghost o0 = out@;
        out.push(nd);
        assert(sdefs(out@) =~= sdefs(o0).push(crate::tirview::sdef(nd)));
        c = c || c2;
        i = i + 1;
    }
    assert(sv.take(ds@.len() as int) =~= sv);
    (out, c)
}

fn fold_guards_x(env: &FoldTables, sh: &NameSet, k: u64, gs: &Vec<TGuard>) -> (r: (Vec<TGuard>, bool))
    ensures
        (sguards(r.0@), r.1) == sfold_guards(tables_model(*env), sh@, k as nat, sguards(gs@)),
    decreases k, gs, 0nat,
{
    let ghost em = tables_model(*env);
    let ghost sv = sguards(gs@);
    let mut out: Vec<TGuard> = Vec::new();
    let mut c = false;
    let mut i: usize = 0;
    assert(sv.take(0) =~= Seq::<crate::tirview::SGuard>::empty());
    assert(sguards(out@) =~= Seq::<crate::tirview::SGuard>::empty());
    while i < gs.len()
        invariant
            i <= gs@.len(),
            em == tables_model(*env),
            sv == sguards(gs@),
            (sguards(out@), c) == sfold_guards(em, sh@, k as nat, sv.take(i as int)),
        decreases gs@.len() - i,
    {
        assert(decreases_to!(gs => gs@[i as int]));
        let ghost t = sv.take(i as int + 1);
        assert(t.drop_last() =~= sv.take(i as int));
        assert(t.last() == crate::tirview::sguard(gs@[i as int]));
        let (x, c2) = fold_x(env, sh, k, &gs[i].condition);
        let (y, c3) = fold_x(env, sh, k, &gs[i].body);
        let ng = TGuard { condition: x, body: y };
        let ghost o0 = out@;
        out.push(ng);
        assert(sguards(out@) =~= sguards(o0).push(crate::tirview::sguard(ng)));
        c = c || c2 || c3;
        i = i + 1;
    }
    assert(sv.take(gs@.len() as int) =~= sv);
    (out, c)
}

fn fold_branches_x(env: &FoldTables, sh: &NameSet, k: u64, bs: &Vec<TCaseBranch>) -> (r: (Vec<TCaseBranch>, bool))
    ensures
        (sbranches(r.0@), r.1) == sfold_branches(tables_model(*env), sh@, k as nat, sbranches(bs@)),
    decreases k, bs, 0nat,
{
    let ghost em = tables_model(*env);
    let ghost sv = sbranches(bs@);
    let mut out: Vec<TCaseBranch> = Vec::new();
    let mut c = false;
    let mut i: usize = 0;
    assert(sv.take(0) =~= Seq::<crate::tirview::SBranch>::empty());
    assert(sbranches(out@) =~= Seq::<crate::tirview::SBranch>::empty());
    while i < bs.len()
        invariant
            i <= bs@.len(),
            em == tables_model(*env),
            sv == sbranches(bs@),
            (sbranches(out@), c) == sfold_branches(em, sh@, k as nat, sv.take(i as int)),
        decreases bs@.len() - i,
    {
        assert(decreases_to!(bs => bs@[i as int]));
        let ghost t = sv.take(i as int + 1);
        assert(t.drop_last() =~= sv.take(i as int));
        assert(t.last() == crate::tirview::sbranch(bs@[i as int]));
        let b = &bs[i];
        let mut sh2 = names_copy(sh);
        add_pat_vars(&b.pattern, &mut sh2);
        let (gs, c2) = fold_guards_x(env, &sh2, k, &b.guards);
        let (body, c3) = fold_x(env, &sh2, k, &b.body);
        let nb = TCaseBranch { pattern: copy_pat(&b.pattern), guards: gs, body };
        let ghost o0 = out@;
        out.push(nb);
        assert(sbranches(out@) =~= sbranches(o0).push(crate::tirview::sbranch(nb)));
        c = c || c2 || c3;
        i = i + 1;
    }
    assert(sv.take(bs@.len() as int) =~= sv);
    (out, c)
}

// ---------------------------------------------------------------------
// Clauses, functions, rounds
// ---------------------------------------------------------------------

fn fold_clause_x(env: &FoldTables, c: &TClause) -> (r: (TClause, bool))
    ensures
        (sclause(r.0), r.1) == sfold_clause(tables_model(*env), sclause(*c)),
{
    let mut sh = NameSet::new();
    add_pats_vars(&c.patterns, &mut sh);
    add_def_names(&c.where_binds, &mut sh);
    assert(sh@ =~= spats_vars(spats(c.patterns@)) + def_names(sdefs(c.where_binds@)));
    let (gs, c1) = fold_guards_x(env, &sh, SPLICE_DEPTH, &c.guards);
    let (b, c2) = fold_x(env, &sh, SPLICE_DEPTH, &c.body);
    let (ws, c3) = fold_defs_x(env, &sh, SPLICE_DEPTH, &c.where_binds);
    (TClause { patterns: copy_pats(&c.patterns), guards: gs, body: b, where_binds: ws }, c1 || c2 || c3)
}

fn fold_fns_x(env: &FoldTables, fs: &Vec<TFunction>) -> (r: (Vec<TFunction>, bool))
    ensures
        (sfns(r.0@), r.1) == sfold_fns(tables_model(*env), sfns(fs@)),
{
    let ghost em = tables_model(*env);
    let ghost sv = sfns(fs@);
    let mut out: Vec<TFunction> = Vec::new();
    let mut ch = false;
    let mut i: usize = 0;
    assert(sv.take(0) =~= Seq::<SFn>::empty());
    assert(sfns(out@) =~= Seq::<SFn>::empty());
    while i < fs.len()
        invariant
            i <= fs@.len(),
            em == tables_model(*env),
            sv == sfns(fs@),
            (sfns(out@), ch) == sfold_fns(em, sv.take(i as int)),
        decreases fs@.len() - i,
    {
        let ghost t = sv.take(i as int + 1);
        assert(t.drop_last() =~= sv.take(i as int));
        assert(t.last() == sfn(fs@[i as int]));
        let f = &fs[i];
        let ghost cs = crate::tirview::sclauses(f.clauses@);
        let mut ncs: Vec<TClause> = Vec::new();
        let mut cc = false;
        let mut j: usize = 0;
        assert(cs.take(0) =~= Seq::<crate::tirview::SClause>::empty());
        assert(crate::tirview::sclauses(ncs@) =~= Seq::<crate::tirview::SClause>::empty());
        while j < f.clauses.len()
            invariant
                j <= f.clauses@.len(),
                em == tables_model(*env),
                cs == crate::tirview::sclauses(f.clauses@),
                (crate::tirview::sclauses(ncs@), cc) == sfold_clauses(em, cs.take(j as int)),
            decreases f.clauses@.len() - j,
        {
            let ghost tc = cs.take(j as int + 1);
            assert(tc.drop_last() =~= cs.take(j as int));
            assert(tc.last() == sclause(f.clauses@[j as int]));
            let (nc, c2) = fold_clause_x(env, &f.clauses[j]);
            let ghost n0 = ncs@;
            ncs.push(nc);
            assert(crate::tirview::sclauses(ncs@) =~= crate::tirview::sclauses(n0).push(sclause(nc)));
            cc = cc || c2;
            j = j + 1;
        }
        assert(cs.take(f.clauses@.len() as int) =~= cs);
        let nf = TFunction {
            name: f.name.clone(),
            ty: copy_ty(&f.ty),
            dict_params: crate::tailloop::copy_strings(&f.dict_params),
            clauses: ncs,
            derived_strict: f.derived_strict,
        };
        let ghost o0 = out@;
        out.push(nf);
        assert(sfns(out@) =~= sfns(o0).push(sfn(nf)));
        ch = ch || cc;
        i = i + 1;
    }
    assert(sv.take(fs@.len() as int) =~= sv);
    (out, ch)
}

/// The constant-folding pass over a monomorphized module: literal folds,
/// constant propagation across top-level bindings, beta-reduction of
/// arithmetic calls and splicing of small wrappers, repeated until a round
/// changes nothing. The functions and instance methods are those of the
/// fixed point; everything else is kept, and the pass is recorded.
pub fn fold_module(module: TModule) -> (r: TModule)
    requires
        module.passes_run@.len() > 0,
        module.passes_run@.last()@ == "mono"@,
    ensures
        (sfns(r.functions@), sfns(r.instance_fns@)) == fold_fix(sfns(module.functions@), sfns(module.instance_fns@),
            FOLD_ROUNDS as nat),
        views(r.passes_run@) == views(module.passes_run@).push("fold"@),
        r.data_defs == module.data_defs,
        r.dropped_data_defs == module.dropped_data_defs,
        r.exports == module.exports,
        r.has_main == module.has_main,
{
    let TModule { functions, instance_fns, data_defs, dropped_data_defs, exports, has_main, passes_run } = module;
    let mut passes = passes_run;
    let ghost p0 = passes@;
    passes.push(crate::text::string_from("fold"));
    assert(views(passes@) =~= views(p0).push("fold"@));
    let mut fs = functions;
    let mut ins = instance_fns;
    let ghost start = (sfns(fs@), sfns(ins@));
    let mut left: u64 = FOLD_ROUNDS;
    loop
        invariant_except_break
            fold_fix(start.0, start.1, FOLD_ROUNDS as nat) == fold_fix(sfns(fs@), sfns(ins@), left as nat),
        ensures
            fold_fix(start.0, start.1, FOLD_ROUNDS as nat) == (sfns(fs@), sfns(ins@)),
        decreases left,
    {
        if left == 0 {
            break;
        }
        let tables = build_tables(&fs);
        let (f1, c1) = fold_fns_x(&tables, &fs);
        let (f2, c2) = fold_fns_x(&tables, &ins);
        fs = f1;
        ins = f2;
        if !(c1 || c2) {
            break;
        }
        left = left - 1;
    }
    TModule { functions: fs, instance_fns: ins, data_defs, dropped_data_defs, exports, has_main, passes_run: passes }
}

} // verus!
